//! The bundle: names and totals of the files that go into the ZIP, and where the
//! client finds it.

use vstd::prelude::*;
use vstd::string::StringExecFns;

use crate::extract::{ExtractError, MAX_TOTAL_SIZE};
#[allow(unused_imports)]
use crate::extract::capped_sum;
use crate::text::{chars_of, text_of, trimmed_end};
#[allow(unused_imports)]
use crate::text::{copies, lemma_trim_end, lemma_trim_end_is_shorter, texts, trim_end};

verus! {

/// What stands behind the last slash.
pub open spec fn last_segment(s: Seq<char>) -> Seq<char>
    decreases s.len(),
{
    if s.len() == 0 || s.last() == '/' {
        Seq::empty()
    } else {
        last_segment(s.drop_last()).push(s.last())
    }
}

/// The final component of a path, by the rules of Unix: `/` alone separates components.
/// Slashes at the end and components `.` do not count; a path that ends in `..` has
/// none.
pub open spec fn file_name(path: Seq<char>) -> Option<Seq<char>>
    decreases path.len(),
{
    let t = trim_end(path, '/');
    let name = last_segment(t);
    if t.len() == 0 || name == seq!['.', '.'] {
        None
    } else if name == seq!['.'] {
        proof {
            lemma_trim_end_is_shorter(path, '/');
        }
        file_name(t.drop_last())
    } else {
        Some(name)
    }
}

/// The name that a file has in the ZIP: its path, or its file name alone where the
/// directories are flattened.
pub open spec fn zip_name(source: Seq<char>, flatten: bool) -> Seq<char> {
    if flatten {
        match file_name(source) {
            Some(name) => name,
            None => source,
        }
    } else {
        source
    }
}

/// The characters behind the last slash, counted from the end.
proof fn lemma_last_segment(s: Seq<char>, k: int)
    requires
        0 <= k <= s.len(),
        forall|j: int| k <= j < s.len() ==> s[j] != '/',
        k == 0 || s[k - 1] == '/',
    ensures
        last_segment(s) == s.skip(k),
    decreases s.len(),
{
    if s.len() > k {
        lemma_last_segment(s.drop_last(), k);
        assert(s.skip(k) == s.drop_last().skip(k).push(s.last()));
    } else {
        assert(s.skip(k) == Seq::<char>::empty());
    }
}

/// The final component of a path.
pub fn file_name_of(path: &str) -> (r: Option<String>)
    ensures
        match r {
            Some(name) => file_name(path@) == Some(name@),
            None => file_name(path@) is None,
        },
{
    let chars: Vec<char> = chars_of(path);
    let mut end: usize = chars.len();
    proof {
        assert(chars@.take(end as int) == path@);
    }
    while end > 0
        invariant
            end <= chars@.len(),
            file_name(chars@.take(end as int)) == file_name(path@),
        decreases end,
    {
        let ghost whole = chars@.take(end as int);
        let mut stop: usize = end;
        while stop > 0 && chars[stop - 1] == '/'
            invariant
                stop <= end <= chars@.len(),
                forall|j: int| stop <= j < end ==> chars@[j] == '/',
            decreases stop,
        {
            stop -= 1;
        }
        proof {
            lemma_trim_end(whole, '/', stop as int);
            assert(whole.take(stop as int) == chars@.take(stop as int));
        }
        if stop == 0 {
            return None;
        }
        let ghost t = chars@.take(stop as int);
        let mut start: usize = stop;
        while start > 0 && chars[start - 1] != '/'
            invariant
                start <= stop <= chars@.len(),
                forall|j: int| start <= j < stop ==> chars@[j] != '/',
            decreases start,
        {
            start -= 1;
        }
        proof {
            lemma_last_segment(t, start as int);
            assert(t.skip(start as int) == chars@.subrange(start as int, stop as int));
        }
        let len: usize = stop - start;
        if len == 1 && chars[start] == '.' {
            proof {
                assert(last_segment(t) == seq!['.']);
                assert(seq!['.'].len() != seq!['.', '.'].len());
                assert(t.drop_last() == chars@.take(stop - 1));
            }
            end = stop - 1;
        } else if len == 2 && chars[start] == '.' && chars[start + 1] == '.' {
            proof {
                assert(last_segment(t) == seq!['.', '.']);
            }
            return None;
        } else {
            proof {
                assert(last_segment(t)[0] == chars@[start as int]);
                assert(len == 1 ==> last_segment(t)[0] != '.');
                assert(len == 2 ==> last_segment(t)[1] == chars@[start + 1]);
                assert(last_segment(t) != seq!['.']);
                assert(last_segment(t) != seq!['.', '.']);
            }
            return Some(text_of(&chars, start, stop));
        }
    }
    proof {
        assert(chars@.take(0) == Seq::<char>::empty());
    }
    None
}

/// The name that a file has in the ZIP.
pub fn zip_name_of(source: &str, flatten: bool) -> (r: String)
    ensures
        r@ == zip_name(source@, flatten),
{
    if flatten {
        match file_name_of(source) {
            Some(name) => name,
            None => source.to_owned(),
        }
    } else {
        source.to_owned()
    }
}

/// The permissions of a file in the ZIP: all may read it, its owner may write it.
pub const MEMBER_PERMISSIONS: u32 = 0o644;

/// What is to be written into the ZIP for one file.
pub struct Member<'a> {
    /// The name in the ZIP.
    pub name: String,
    /// The bytes to store.
    pub bytes: &'a [u8],
}

/// A file in the bundle, as the client sees it.
pub struct ExtractEntry {
    /// The name in the ZIP.
    pub path: String,
    /// The path in the image.
    pub source_path: String,
    /// The number of bytes.
    pub size: u64,
}

/// What an [`ExtractEntry`] says.
pub struct EntryView {
    pub path: Seq<char>,
    pub source_path: Seq<char>,
    pub size: u64,
}

impl View for ExtractEntry {
    type V = EntryView;

    open spec fn view(&self) -> EntryView {
        EntryView { path: self.path@, source_path: self.source_path@, size: self.size }
    }
}

/// The files of a bundle, in order.
pub open spec fn entry_views(entries: Seq<ExtractEntry>) -> Seq<EntryView> {
    entries.map_values(|e: ExtractEntry| e@)
}

/// What the sizes of the files add up to.
pub open spec fn size_total(entries: Seq<EntryView>) -> nat
    decreases entries.len(),
{
    if entries.len() == 0 {
        0
    } else {
        size_total(entries.drop_last()) + entries.last().size as nat
    }
}

/// The answer to an extraction.
pub struct ExtractOutput {
    /// Where the client can fetch the ZIP; empty where nothing is published.
    pub download_url: String,
    /// Where the ZIP lies on the server.
    pub output_path: String,
    pub files: Vec<ExtractEntry>,
    pub total_size_uncompressed: u64,
    pub total_size_compressed: u64,
    pub note: String,
}

/// Refuses a request that names no pattern.
pub fn check_paths(paths: &Vec<String>) -> (r: Result<(), ExtractError>)
    ensures
        r == if paths@.len() == 0 {
            Err::<(), ExtractError>(ExtractError::NoPaths)
        } else {
            Ok(())
        },
{
    if paths.len() == 0 {
        Err(ExtractError::NoPaths)
    } else {
        Ok(())
    }
}

/// Refuses a bundle without files.
pub fn check_collected(count: usize, paths: &Vec<String>) -> (r: Result<(), ExtractError>)
    ensures
        match r {
            Ok(_) => count > 0,
            Err(e) => {
                &&& count == 0
                &&& e matches ExtractError::NoMatch { paths: shown }
                &&& texts(shown@) == texts(paths@)
            },
        },
{
    if count > 0 {
        return Ok(());
    }
    let mut shown: Vec<String> = Vec::new();
    let mut i: usize = 0;
    while i < paths.len()
        invariant
            i <= paths@.len(),
            shown@ == paths@.take(i as int),
        decreases paths@.len() - i,
    {
        shown.push(paths[i].clone());
        proof {
            assert(paths@.take(i + 1) == paths@.take(i as int).push(paths@[i as int]));
        }
        i += 1;
    }
    proof {
        assert(paths@.take(paths@.len() as int) == paths@);
    }
    Err(ExtractError::NoMatch { paths: shown })
}

/// The bundle while its files are written, one after the other.
pub struct Bundle {
    flatten: bool,
    entries: Vec<ExtractEntry>,
    total: u64,
}

impl Bundle {
    /// The directories are flattened.
    pub closed spec fn flatten(self) -> bool {
        self.flatten
    }

    /// The files so far.
    pub closed spec fn entries(self) -> Seq<EntryView> {
        entry_views(self.entries@)
    }

    /// What their sizes add up to.
    pub closed spec fn total(self) -> u64 {
        self.total
    }

    /// The total is that of the files, and within the limit.
    pub open spec fn wf(self) -> bool {
        &&& self.total() == size_total(self.entries())
        &&& self.total() <= MAX_TOTAL_SIZE
    }

    /// A bundle without files.
    pub fn new(flatten: bool) -> (r: Bundle)
        ensures
            r.flatten() == flatten,
            r.entries() == Seq::<EntryView>::empty(),
            r.total() == 0,
            r.wf(),
    {
        let r: Bundle = Bundle { flatten, entries: Vec::new(), total: 0 };
        assert(entry_views(r.entries@) == Seq::<EntryView>::empty());
        r
    }

    /// Takes in a file and tells what to write into the ZIP for it: its own bytes, as
    /// they are, under its name there. It is refused, and the bundle left as it was, where
    /// the sizes would add up to more than the limit.
    pub fn add<'a>(&mut self, source: &str, bytes: &'a [u8]) -> (r: Result<
        Member<'a>,
        ExtractError,
    >)
        requires
            old(self).wf(),
        ensures
            final(self).wf(),
            final(self).flatten() == old(self).flatten(),
            match r {
                Ok(member) => {
                    &&& final(self).total() == old(self).total() + bytes@.len()
                    &&& member.name@ == zip_name(source@, old(self).flatten())
                    &&& member.bytes@ == bytes@
                    &&& final(self).entries() == old(self).entries().push(
                        EntryView {
                            path: member.name@,
                            source_path: source@,
                            size: bytes@.len() as u64,
                        },
                    )
                },
                Err(e) => {
                    &&& old(self).total() + bytes@.len() > MAX_TOTAL_SIZE
                    &&& e matches ExtractError::BundleTooLarge { limit, total }
                    &&& limit == MAX_TOTAL_SIZE
                    &&& total == capped_sum(old(self).total() as nat, bytes@.len())
                    &&& final(self).total() == old(self).total()
                    &&& final(self).entries() == old(self).entries()
                },
            },
    {
        let name: String = zip_name_of(source, self.flatten);
        let size: u64 = bytes.len() as u64;
        let total: u64 = self.total.saturating_add(size);
        if total > MAX_TOTAL_SIZE {
            return Err(ExtractError::BundleTooLarge { limit: MAX_TOTAL_SIZE, total });
        }
        self.total = total;
        let entry: ExtractEntry = ExtractEntry {
            path: name.clone(),
            source_path: source.to_owned(),
            size,
        };
        self.entries.push(entry);
        assert(entry_views(self.entries@) == entry_views(old(self).entries@).push(entry@));
        assert(self.entries().drop_last() == old(self).entries());
        Ok(Member { name, bytes })
    }

    /// The answer to the client, once the ZIP is written.
    pub fn finish(
        self,
        download_prefix: Option<&str>,
        zip_filename: &str,
        output_path: String,
        compressed_size: u64,
    ) -> (r: ExtractOutput)
        requires
            self.wf(),
        ensures
            r.download_url@ == download_url(
                match download_prefix {
                    Some(prefix) => Some(prefix@),
                    None => None,
                },
                zip_filename@,
            ),
            r.output_path@ == output_path@,
            entry_views(r.files@) == self.entries(),
            r.total_size_uncompressed == self.total(),
            r.total_size_uncompressed == size_total(entry_views(r.files@)),
            r.total_size_uncompressed <= MAX_TOTAL_SIZE,
            r.total_size_compressed == compressed_size,
            r.note@
                == "Bytes are stored unmodified (SJIS file names, raw binary). Cap: 100 MB uncompressed."@,
    {
        ExtractOutput {
            download_url: download_url_of(download_prefix, zip_filename),
            output_path,
            files: self.entries,
            total_size_uncompressed: self.total,
            total_size_compressed: compressed_size,
            note: "Bytes are stored unmodified (SJIS file names, raw binary). Cap: 100 MB uncompressed.".to_owned(),
        }
    }
}

/// Where a client fetches a ZIP, given the prefix of the published address. Nothing
/// is published without a prefix.
pub open spec fn download_url(prefix: Option<Seq<char>>, zip_filename: Seq<char>) -> Seq<char> {
    match prefix {
        Some(p) => if p.len() > 0 {
            trim_end(p, '/') + "/downloads/"@ + zip_filename
        } else {
            Seq::empty()
        },
        None => Seq::empty(),
    }
}

/// Where a client fetches a ZIP.
pub fn download_url_of(prefix: Option<&str>, zip_filename: &str) -> (r: String)
    ensures
        r@ == download_url(
            match prefix {
                Some(p) => Some(p@),
                None => None,
            },
            zip_filename@,
        ),
{
    match prefix {
        Some(p) => {
            if p.is_empty() {
                return String::new();
            }
            let mut url: String = trimmed_end(p, '/');
            url.append("/downloads/");
            url.append(zip_filename);
            url
        },
        None => String::new(),
    }
}

/// The prefix of the published address: the one that was configured, where the server
/// speaks HTTP. Over stdio nothing is published.
pub fn published_prefix(http: bool, public_url: &str) -> (r: Option<String>)
    ensures
        r is Some <==> http && public_url@.len() > 0,
        r matches Some(prefix) ==> prefix@ == public_url@,
{
    if !http || public_url.is_empty() {
        None
    } else {
        Some(public_url.to_owned())
    }
}

/// A lower-case hexadecimal digit.
pub open spec fn is_lower_hex(c: char) -> bool {
    ('0' <= c && c <= '9') || ('a' <= c && c <= 'f')
}

/// The text of a random identifier: 32 lower-case hexadecimal digits, with the
/// version digit `4` and one of the variant digits `8`, `9`, `a`, `b` in their
/// places.
pub open spec fn is_random_id(s: Seq<char>) -> bool {
    &&& s.len() == 32
    &&& forall|i: int| 0 <= i < s.len() ==> is_lower_hex(#[trigger] s[i])
    &&& s[12] == '4'
    &&& s[16] == '8' || s[16] == '9' || s[16] == 'a' || s[16] == 'b'
}

/// `uuid::Uuid::new_v4`, written out by `uuid::fmt::Simple`: a fresh random
/// identifier as 32 lower-case hexadecimal digits, with the digits that mark its
/// version and variant. Which one it is, chance decides.
#[verifier::external_body]
fn random_id() -> (r: String)
    ensures
        is_random_id(r@),
{
    uuid::Uuid::new_v4().simple().to_string()
}

/// The file name of a ZIP with the given identifier.
pub fn zip_filename(id: &str) -> (r: String)
    ensures
        r@ == id@ + ".zip"@,
{
    let mut name: String = id.to_owned();
    name.append(".zip");
    name
}

/// A file name for a new ZIP.
pub fn fresh_zip_filename() -> (r: String)
    ensures
        exists|id: Seq<char>| #[trigger] is_random_id(id) && r@ == id + ".zip"@,
{
    let id: String = random_id();
    zip_filename(id.as_str())
}

/// Keeping the directories, a file has the name in the ZIP that it has in the
/// image.
pub proof fn law_unflattened_names_are_kept(source: Seq<char>)
    ensures
        zip_name(source, false) == source,
{
}

/// Flattening leaves no directory: the name of a path that has a final component
/// is a component by itself, without a slash, and neither `.` nor `..`.
pub proof fn law_flattened_names_have_no_directory(source: Seq<char>)
    requires
        file_name(source) is Some,
    ensures
        zip_name(source, true).len() > 0,
        !zip_name(source, true).contains('/'),
        zip_name(source, true) != seq!['.'],
        zip_name(source, true) != seq!['.', '.'],
    decreases source.len(),
{
    let t = trim_end(source, '/');
    let name = last_segment(t);
    lemma_trim_end_is_shorter(source, '/');
    lemma_trim_end_leaves_no_slash(source);
    lemma_last_segment_has_no_slash(t);
    if name == seq!['.'] {
        law_flattened_names_have_no_directory(t.drop_last());
    }
}

/// A trimmed text does not end in a slash.
proof fn lemma_trim_end_leaves_no_slash(s: Seq<char>)
    ensures
        trim_end(s, '/').len() > 0 ==> trim_end(s, '/').last() != '/',
    decreases s.len(),
{
    if s.len() > 0 && s.last() == '/' {
        lemma_trim_end_leaves_no_slash(s.drop_last());
    }
}

/// There is no slash behind the last slash.
proof fn lemma_last_segment_has_no_slash(s: Seq<char>)
    ensures
        !last_segment(s).contains('/'),
        s.len() > 0 && s.last() != '/' ==> last_segment(s).len() > 0,
    decreases s.len(),
{
    if s.len() > 0 && s.last() != '/' {
        lemma_last_segment_has_no_slash(s.drop_last());
        assert forall|i: int| 0 <= i < last_segment(s).len() implies last_segment(s)[i] != '/' by {
            if i < last_segment(s.drop_last()).len() {
                assert(last_segment(s.drop_last()).contains(last_segment(s.drop_last())[i]));
            }
        }
    }
}

/// The name of a file is what stands behind the last slash, whatever directories are in
/// front and whatever slashes follow.
pub proof fn law_file_names_stand_behind_the_last_slash(
    directory: Seq<char>,
    name: Seq<char>,
    n: nat,
)
    requires
        name.len() > 0,
        !name.contains('/'),
        name != seq!['.'],
        name != seq!['.', '.'],
    ensures
        file_name(name + copies('/', n)) == Some(name),
        file_name(directory.push('/') + name + copies('/', n)) == Some(name),
        zip_name(directory.push('/') + name, true) == name,
        zip_name(name, true) == name,
{
    lemma_final_component(Seq::empty(), name, n);
    lemma_final_component(directory.push('/'), name, n);
    lemma_final_component(directory.push('/'), name, 0);
    lemma_final_component(Seq::empty(), name, 0);
    assert(Seq::<char>::empty() + name + copies('/', n) =~= name + copies('/', n));
    assert(directory.push('/') + name + copies('/', 0) =~= directory.push('/') + name);
    assert(Seq::<char>::empty() + name + copies('/', 0) =~= name);
}

/// What a path ends in, where that is a component.
proof fn lemma_final_component(front: Seq<char>, name: Seq<char>, n: nat)
    requires
        name.len() > 0,
        !name.contains('/'),
        front.len() == 0 || front.last() == '/',
    ensures
        trim_end(front + name + copies('/', n), '/') == front + name,
        last_segment(front + name) == name,
        name != seq!['.'] && name != seq!['.', '.'] ==> file_name(front + name + copies('/', n))
            == Some(name),
{
    let t = front + name;
    let s = t + copies('/', n);
    let k = front.len() as int;
    assert(t.last() == name.last());
    assert(name.contains(name.last()));
    lemma_trim_end(s, '/', t.len() as int);
    assert(s.take(t.len() as int) =~= t);
    assert forall|j: int| k <= j < t.len() implies t[j] != '/' by {
        assert(name.contains(name[j - k]));
    }
    lemma_last_segment(t, k);
    assert(t.skip(k) =~= name);
}

/// A component `.` at the end of a path does not count, and `..` leaves no name. Slashes
/// alone have none either.
pub proof fn law_dots_are_no_names(path: Seq<char>, n: nat)
    ensures
        file_name(path + seq!['/', '.'] + copies('/', n)) == file_name(path),
        file_name(path + seq!['/', '.', '.'] + copies('/', n)) is None,
        file_name(seq!['.', '.']) is None,
        file_name(seq!['.']) is None,
        file_name(copies('/', n)) is None,
        zip_name(path + seq!['/', '.', '.'], true) == path + seq!['/', '.', '.'],
{
    let front = path.push('/');
    let dot = seq!['.'];
    let dots = seq!['.', '.'];
    lemma_final_component(front, dot, n);
    lemma_final_component(front, dots, n);
    lemma_final_component(front, dots, 0);
    lemma_final_component(Seq::empty(), dots, 0);
    lemma_final_component(Seq::empty(), dot, 0);
    assert(path + seq!['/', '.'] + copies('/', n) =~= front + dot + copies('/', n));
    assert(path + seq!['/', '.', '.'] + copies('/', n) =~= front + dots + copies('/', n));
    assert(path + seq!['/', '.', '.'] =~= front + dots + copies('/', 0));
    assert(Seq::<char>::empty() + dots + copies('/', 0) =~= dots);
    assert(Seq::<char>::empty() + dot + copies('/', 0) =~= dot);
    assert(Seq::<char>::empty() + dots =~= dots);
    assert(Seq::<char>::empty() + dot =~= dot);
    assert(dot.len() != dots.len());
    // Behind the component is a slash, which does not count either.
    assert((front + dot).drop_last() =~= front);
    assert(front.drop_last() =~= path);
    assert(trim_end(front, '/') == trim_end(path, '/'));
    assert(file_name(front) == file_name(path));
    assert(dot.drop_last() =~= Seq::<char>::empty());
    assert(file_name(Seq::<char>::empty()) is None);
    lemma_trim_end(copies('/', n), '/', 0);
    assert(copies('/', n).take(0) =~= Seq::<char>::empty());
}

/// The total of two lists is that of both, that of one file its size, and that of none
/// nothing.
pub proof fn law_totals_add_up(a: Seq<EntryView>, b: Seq<EntryView>, e: EntryView)
    ensures
        size_total(a + b) == size_total(a) + size_total(b),
        size_total(seq![e]) == e.size,
        size_total(Seq::empty()) == 0,
    decreases b.len(),
{
    reveal_with_fuel(size_total, 2);
    assert(seq![e].drop_last() =~= Seq::<EntryView>::empty());
    if b.len() > 0 {
        law_totals_add_up(a, b.drop_last(), e);
        assert((a + b).drop_last() =~= a + b.drop_last());
        assert((a + b).last() == b.last());
    } else {
        assert(a + b =~= a);
    }
}

/// A list of entries is read entry by entry and field by field.
pub proof fn law_entries_are_read_one_by_one(entries: Seq<ExtractEntry>, i: int)
    requires
        0 <= i < entries.len(),
    ensures
        entry_views(entries).len() == entries.len(),
        entry_views(entries)[i].path == entries[i].path@,
        entry_views(entries)[i].source_path == entries[i].source_path@,
        entry_views(entries)[i].size == entries[i].size,
{
}

/// A ZIP is found below `/downloads/` behind the published prefix, whose slashes at the end
/// do not count; without a prefix it is found nowhere.
pub proof fn law_downloads_are_found_behind_the_prefix(
    base: Seq<char>,
    n: nat,
    zip_filename: Seq<char>,
)
    requires
        base.len() > 0 ==> base.last() != '/',
    ensures
        base.len() + n > 0 ==> download_url(Some(base + copies('/', n)), zip_filename) == base
            + "/downloads/"@ + zip_filename,
        download_url(Some(Seq::empty()), zip_filename) == Seq::<char>::empty(),
        download_url(None, zip_filename) == Seq::<char>::empty(),
{
    lemma_trim_end(base + copies('/', n), '/', base.len() as int);
    assert((base + copies('/', n)).take(base.len() as int) =~= base);
}

/// A random identifier has 32 digits of `0` to `9` and `a` to `f`.
pub proof fn law_random_identifiers_are_hexadecimal(s: Seq<char>, i: int)
    requires
        is_random_id(s),
        0 <= i < 32,
    ensures
        s.len() == 32,
        ({
            let code = s[i] as int;
            (48 <= code && code <= 57) || (97 <= code && code <= 102)
        }),
        s[12] as int == 52,
        56 <= s[16] as int,
{
    assert(is_lower_hex(s[i]));
}

/// A bundle is sound exactly where its total is that of its files and no more than a hundred
/// times 1024 times 1024.
pub proof fn law_sound_bundles(bundle: Bundle)
    ensures
        bundle.wf() <==> bundle.total() == size_total(bundle.entries()) && bundle.total() <= 100
            * 1024 * 1024,
        MEMBER_PERMISSIONS == 6 * 64 + 4 * 8 + 4,
{
}

} // verus!
