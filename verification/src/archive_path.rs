//! Paths inside an image. `outer.lzh!/inner/file` is the member `inner/file` of
//! the LZH archive `outer.lzh`.

use vstd::prelude::*;

use crate::text::{contains_text, split_first, trimmed, trimmed_start};
#[allow(unused_imports)]
use crate::text::{absent, lemma_trim_start, occurs_at, splits_at_first, trim, trim_start};

verus! {

/// A file of the image, or a member of an archive that is such a file.
pub struct ArchivePath {
    /// The file in the image.
    pub outer: String,
    /// The member in that file, where the file is an archive to look into.
    pub inner: Option<String>,
}

/// `outer` and `inner` are what a path stands for: slashes at its front do not
/// count, and the first `!/` parts the archive from the member.
pub open spec fn stands_for(
    file_path: Seq<char>,
    outer: Seq<char>,
    inner: Option<Seq<char>>,
) -> bool {
    match inner {
        Some(member) => splits_at_first(trim_start(file_path, '/'), "!/"@, outer, member),
        None => outer == trim_start(file_path, '/') && absent(outer, "!/"@),
    }
}

/// Which tool is asked for a nested member: the message tells.
#[derive(Clone, Copy, Debug, PartialEq, Eq, Structural)]
pub enum Purpose {
    /// The content is shown to the client.
    Read,
    /// The bytes are processed further.
    Raw,
}

/// A member of an archive inside an archive was asked for.
#[derive(Debug)]
pub struct NestedArchive {
    pub purpose: Purpose,
}

impl NestedArchive {
    /// The message for the client.
    pub open spec fn text(self) -> Seq<char> {
        match self.purpose {
            Purpose::Read =>
                "Nested LZH paths (multi-level !/) are not supported in archive_read"@,
            Purpose::Raw => "Nested LZH paths (multi-level !/) are not supported"@,
        }
    }

    /// The message for the client.
    pub fn message(&self) -> (r: String)
        ensures
            r@ == self.text(),
    {
        match self.purpose {
            Purpose::Read =>
                "Nested LZH paths (multi-level !/) are not supported in archive_read".to_owned(),
            Purpose::Raw => "Nested LZH paths (multi-level !/) are not supported".to_owned(),
        }
    }
}

impl ArchivePath {
    /// The member, as a text.
    pub open spec fn member_text(self) -> Option<Seq<char>> {
        match self.inner {
            Some(member) => Some(member@),
            None => None,
        }
    }

    /// The member lies in an archive inside an archive.
    pub open spec fn is_nested(self) -> bool {
        self.member_text() matches Some(member) && !absent(member, "!/"@)
    }

    /// Takes a path apart.
    pub fn parse(file_path: &str) -> (r: ArchivePath)
        ensures
            stands_for(file_path@, r.outer@, r.member_text()),
    {
        let normalized: String = trimmed_start(file_path, '/');
        match split_first(normalized.as_str(), "!/") {
            Some((outer, inner)) => ArchivePath { outer, inner: Some(inner) },
            None => ArchivePath { outer: normalized, inner: None },
        }
    }

    /// The member to take out of the file, if any. Archives inside archives are
    /// refused, whatever the purpose.
    pub fn member(&self, purpose: Purpose) -> (r: Result<Option<&str>, NestedArchive>)
        ensures
            match r {
                Ok(None) => self.member_text() is None,
                Ok(Some(member)) => {
                    &&& !self.is_nested()
                    &&& self.member_text() == Some(member@)
                },
                Err(e) => self.is_nested() && e.purpose == purpose,
            },
    {
        match &self.inner {
            Some(inner) => {
                if contains_text(inner.as_str(), "!/") {
                    Err(NestedArchive { purpose })
                } else {
                    Ok(Some(inner.as_str()))
                }
            },
            None => Ok(None),
        }
    }
}

/// A directory of the image.
pub enum Directory {
    Root,
    Path(String),
}

/// The directory that a listing asks for: the root where none is given or nothing
/// is left between the slashes.
pub fn directory(dir_path: Option<&str>) -> (r: Directory)
    ensures
        match dir_path {
            None => r is Root,
            Some(path) => match r {
                Directory::Root => trim(path@, '/').len() == 0,
                Directory::Path(inner) => inner@ == trim(path@, '/') && inner@.len() > 0,
            },
        },
{
    match dir_path {
        None => Directory::Root,
        Some(path) => {
            let inner: String = trimmed(path, '/');
            if inner.as_str().is_empty() {
                Directory::Root
            } else {
                Directory::Path(inner)
            }
        },
    }
}

/// A path has one reading.
pub proof fn law_a_path_has_one_reading(
    file_path: Seq<char>,
    outer1: Seq<char>,
    inner1: Option<Seq<char>>,
    outer2: Seq<char>,
    inner2: Option<Seq<char>>,
)
    requires
        stands_for(file_path, outer1, inner1),
        stands_for(file_path, outer2, inner2),
    ensures
        outer1 == outer2,
        inner1 == inner2,
{
    let s = trim_start(file_path, '/');
    let mark = "!/"@;
    reveal_strlit("!/");
    if let Some(member) = inner1 {
        let i = outer1.len() as int;
        assert(s.subrange(i, i + mark.len()) =~= mark);
        assert(occurs_at(s, mark, i));
    }
    if let Some(member) = inner2 {
        let i = outer2.len() as int;
        assert(s.subrange(i, i + mark.len()) =~= mark);
        assert(occurs_at(s, mark, i));
    }
    if inner1 is Some && inner2 is Some {
        assert(outer1.len() == outer2.len());
        assert(outer1 =~= s.take(outer1.len() as int));
        assert(outer2 =~= s.take(outer2.len() as int));
        assert(inner1->0 =~= s.skip(outer1.len() as int + 2));
        assert(inner2->0 =~= s.skip(outer2.len() as int + 2));
    }
}

/// Slashes in front of a path make no difference to its reading.
pub proof fn law_leading_slashes_make_no_difference(
    slashes: Seq<char>,
    file_path: Seq<char>,
    outer: Seq<char>,
    inner: Option<Seq<char>>,
)
    requires
        forall|i: int| 0 <= i < slashes.len() ==> slashes[i] == '/',
    ensures
        stands_for(slashes + file_path, outer, inner) == stands_for(file_path, outer, inner),
    decreases slashes.len(),
{
    if slashes.len() > 0 {
        let rest = slashes.drop_first();
        assert((slashes + file_path).drop_first() =~= rest + file_path);
        law_leading_slashes_make_no_difference(rest, file_path, outer, inner);
    } else {
        assert(slashes + file_path =~= file_path);
    }
}

/// A member is reached under the path of its archive, `!/` and its own path, with
/// any number of slashes in front.
pub proof fn law_members_are_reached(
    slashes: Seq<char>,
    outer: Seq<char>,
    member: Seq<char>,
)
    requires
        forall|i: int| 0 <= i < slashes.len() ==> slashes[i] == '/',
        absent(outer, "!/"@),
        outer.len() > 0 ==> outer[0] != '/',
    ensures
        stands_for(slashes + outer + "!/"@ + member, outer, Some(member)),
{
    reveal_strlit("!/");
    let mark = "!/"@;
    let s = outer + mark + member;
    assert(s[0] != '/') by {
        if outer.len() == 0 {
            assert(s[0] == mark[0]);
        } else {
            assert(s[0] == outer[0]);
        }
    }
    assert forall|i: int| 0 <= i < outer.len() implies !#[trigger] occurs_at(s, mark, i) by {
        if occurs_at(s, mark, i) {
            let found = s.subrange(i, i + 2);
            assert(found[0] == s[i]);
            assert(found[1] == s[i + 1]);
            if i + 2 <= outer.len() {
                assert(outer.subrange(i, i + 2) =~= mark);
                assert(occurs_at(outer, mark, i));
            } else {
                assert(s[i + 1] == mark[0]);
            }
        }
    }
    let path = slashes + outer + mark + member;
    assert(path =~= slashes + s);
    lemma_trim_start(path, '/', slashes.len() as int);
    assert(path.skip(slashes.len() as int) =~= s);
}

/// A path without `!/` names the file itself, with any number of slashes in front.
pub proof fn law_plain_paths_name_the_file(slashes: Seq<char>, path: Seq<char>)
    requires
        forall|i: int| 0 <= i < slashes.len() ==> slashes[i] == '/',
        path.len() > 0 ==> path[0] != '/',
        forall|i: int|
            0 <= i < path.len() - 1 ==> !(#[trigger] path[i] == '!' && path[i + 1] == '/'),
    ensures
        stands_for(slashes + path, path, None),
{
    reveal_strlit("!/");
    let mark = "!/"@;
    assert forall|i: int| !#[trigger] occurs_at(path, mark, i) by {
        if occurs_at(path, mark, i) {
            let found = path.subrange(i, i + 2);
            assert(found[0] == path[i] && found[1] == path[i + 1]);
            assert(mark[0] == '!' && mark[1] == '/');
        }
    }
    lemma_trim_start(slashes + path, '/', slashes.len() as int);
    assert((slashes + path).skip(slashes.len() as int) =~= path);
}

/// A member lies in an archive inside an archive exactly where its own path holds a `!`
/// with a `/` behind it.
pub proof fn law_nested_members(path: ArchivePath)
    ensures
        path.is_nested() <==> (path.inner matches Some(member) && exists|i: int|
            0 <= i < member@.len() - 1 && #[trigger] member@[i] == '!' && member@[i + 1] == '/'),
        path.member_text() == (match path.inner {
            Some(member) => Some(member@),
            None => None,
        }),
{
    reveal_strlit("!/");
    let mark = "!/"@;
    assert(mark =~= seq!['!', '/']);
    if let Some(inner) = path.inner {
        let m = inner@;
        if !absent(m, mark) {
            let i = choose|i: int| #[trigger] occurs_at(m, mark, i);
            let found = m.subrange(i, i + 2);
            assert(found[0] == m[i] && found[1] == m[i + 1]);
        }
        if exists|i: int| 0 <= i < m.len() - 1 && #[trigger] m[i] == '!' && m[i + 1] == '/' {
            let i = choose|i: int|
                0 <= i < m.len() - 1 && #[trigger] m[i] == '!' && m[i + 1] == '/';
            assert(m.subrange(i, i + 2) =~= mark);
            assert(occurs_at(m, mark, i));
        }
    }
}

/// What the client is told of a nested member.
pub proof fn law_nested_messages()
    ensures
        (NestedArchive { purpose: Purpose::Read }).text()
            == "Nested LZH paths (multi-level !/) are not supported in archive_read"@,
        (NestedArchive { purpose: Purpose::Raw }).text()
            == "Nested LZH paths (multi-level !/) are not supported"@,
{
}

} // verus!
