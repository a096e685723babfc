//! The listing of a directory.

use vstd::prelude::*;

use crate::text::same_text;

verus! {

/// An entry as the image holds it.
pub struct DirEntry {
    /// The name as stored, by which the entries for the directory itself and for the
    /// one above it are told.
    pub name: String,
    /// The name as shown.
    pub display_name: String,
    pub is_directory: bool,
    pub size: u32,
    /// Seconds since 1970.
    pub mtime_unix: i64,
    /// The attributes as shown.
    pub attr: String,
}

/// What an entry is.
#[derive(Clone, Copy, Debug, PartialEq, Eq, Structural)]
pub enum Kind {
    File,
    Dir,
}

impl Kind {
    /// The name that the client is given.
    pub fn label(&self) -> (r: &'static str)
        ensures
            r@ == (match *self {
                Kind::File => "file"@,
                Kind::Dir => "dir"@,
            }),
    {
        match *self {
            Kind::File => "file",
            Kind::Dir => "dir",
        }
    }
}

/// An entry as the client sees it.
pub struct EntryOut {
    pub name: String,
    pub kind: Kind,
    pub size: u64,
    pub mtime_unix: i64,
    pub attr: String,
}

/// What an [`EntryOut`] says.
pub struct Shown {
    pub name: Seq<char>,
    pub kind: Kind,
    pub size: nat,
    pub mtime_unix: i64,
    pub attr: Seq<char>,
}

impl View for EntryOut {
    type V = Shown;

    open spec fn view(&self) -> Shown {
        Shown {
            name: self.name@,
            kind: self.kind,
            size: self.size as nat,
            mtime_unix: self.mtime_unix,
            attr: self.attr@,
        }
    }
}

impl DirEntry {
    /// The entry stands for the directory itself or for the one above it.
    pub open spec fn is_link(self) -> bool {
        self.name@ == "."@ || self.name@ == ".."@
    }

    /// What the client sees of the entry.
    pub open spec fn shown(self) -> Shown {
        Shown {
            name: self.display_name@,
            kind: if self.is_directory {
                Kind::Dir
            } else {
                Kind::File
            },
            size: self.size as nat,
            mtime_unix: self.mtime_unix,
            attr: self.attr@,
        }
    }
}

/// What the client sees of a directory: every entry but the links, in order.
pub open spec fn listing(entries: Seq<DirEntry>) -> Seq<Shown> {
    entries.filter(|e: DirEntry| !e.is_link()).map_values(|e: DirEntry| e.shown())
}

/// The listing of a directory.
pub fn list_entries(entries: Vec<DirEntry>) -> (r: Vec<EntryOut>)
    ensures
        r@.map_values(|e: EntryOut| e@) == listing(entries@),
        ({
            let kept = entries@.filter(|e: DirEntry| e.name@ != "."@ && e.name@ != ".."@);
            &&& r@.len() == kept.len()
            &&& forall|k: int|
                0 <= k < kept.len() ==> {
                    &&& (#[trigger] r@[k]).name@ == kept[k].display_name@
                    &&& r@[k].kind == if kept[k].is_directory {
                        Kind::Dir
                    } else {
                        Kind::File
                    }
                    &&& r@[k].size == kept[k].size
                    &&& r@[k].mtime_unix == kept[k].mtime_unix
                    &&& r@[k].attr@ == kept[k].attr@
                }
        }),
{
    let mut r: Vec<EntryOut> = Vec::new();
    let ghost keep = |e: DirEntry| !e.is_link();
    let mut i: usize = 0;
    proof {
        assert(entries@.take(0).filter(keep) == Seq::<DirEntry>::empty()) by {
            reveal(Seq::filter);
        }
        assert(r@.map_values(|e: EntryOut| e@) =~= listing(entries@.take(0)));
    }
    while i < entries.len()
        invariant
            keep == (|e: DirEntry| !e.is_link()),
            i <= entries@.len(),
            r@.map_values(|e: EntryOut| e@) == listing(entries@.take(i as int)),
        decreases entries@.len() - i,
    {
        let e: &DirEntry = &entries[i];
        let ghost before = r@;
        proof {
            reveal(Seq::filter);
            assert(entries@.take(i + 1).drop_last() == entries@.take(i as int));
            assert(entries@.take(i + 1).last() == *e);
        }
        let link: bool = same_text(e.name.as_str(), ".") || same_text(e.name.as_str(), "..");
        if !link {
            let out: EntryOut = EntryOut {
                name: e.display_name.clone(),
                kind: if e.is_directory {
                    Kind::Dir
                } else {
                    Kind::File
                },
                size: e.size as u64,
                mtime_unix: e.mtime_unix,
                attr: e.attr.clone(),
            };
            r.push(out);
            proof {
                assert(out@ == e.shown());
                assert(r@.map_values(|e: EntryOut| e@) =~= before.map_values(
                    |e: EntryOut| e@,
                ).push(out@));
                assert(listing(entries@.take(i + 1)) =~= listing(entries@.take(i as int)).push(
                    e.shown(),
                ));
            }
        } else {
            proof {
                assert(entries@.take(i + 1).filter(keep) == entries@.take(i as int).filter(keep));
            }
        }
        i += 1;
    }
    proof {
        assert(entries@.take(entries@.len() as int) == entries@);
        law_listings_are_faithful(entries@);
        let seen = r@.map_values(|e: EntryOut| e@);
        assert forall|k: int| 0 <= k < r@.len() implies seen[k] == (#[trigger] r@[k])@ by {}
    }
    r
}

/// A listing holds one entry for each entry of the directory but those named `.` and `..`,
/// in order. Each tells the name as shown, whether it is a directory, the size, the time
/// and the attributes of its own entry, unchanged.
pub proof fn law_listings_are_faithful(entries: Seq<DirEntry>)
    ensures
        ({
            let kept = entries.filter(|e: DirEntry| e.name@ != "."@ && e.name@ != ".."@);
            &&& listing(entries).len() == kept.len()
            &&& forall|k: int|
                0 <= k < kept.len() ==> {
                    &&& (#[trigger] listing(entries)[k]).name == kept[k].display_name@
                    &&& listing(entries)[k].kind == Kind::Dir <==> kept[k].is_directory
                    &&& listing(entries)[k].size == kept[k].size
                    &&& listing(entries)[k].mtime_unix == kept[k].mtime_unix
                    &&& listing(entries)[k].attr == kept[k].attr@
                }
        }),
{
    let keep = |e: DirEntry| !e.is_link();
    let named = |e: DirEntry| e.name@ != "."@ && e.name@ != ".."@;
    assert(keep =~= named);
}

/// In a directory without links, every entry is listed in its place.
pub proof fn law_ordinary_entries_are_all_listed(entries: Seq<DirEntry>, k: int)
    requires
        forall|i: int|
            0 <= i < entries.len() ==> (#[trigger] entries[i]).name@ != "."@ && entries[i].name@
                != ".."@,
        0 <= k < entries.len(),
    ensures
        listing(entries).len() == entries.len(),
        listing(entries)[k].name == entries[k].display_name@,
        listing(entries)[k].kind == Kind::Dir <==> entries[k].is_directory,
        listing(entries)[k].size == entries[k].size,
        listing(entries)[k].mtime_unix == entries[k].mtime_unix,
        listing(entries)[k].attr == entries[k].attr@,
{
    let named = |e: DirEntry| e.name@ != "."@ && e.name@ != ".."@;
    law_listings_are_faithful(entries);
    lemma_nothing_to_drop(entries, named);
}

/// What all items fulfil drops none.
proof fn lemma_nothing_to_drop(entries: Seq<DirEntry>, keep: spec_fn(DirEntry) -> bool)
    requires
        forall|i: int| 0 <= i < entries.len() ==> keep(#[trigger] entries[i]),
    ensures
        entries.filter(keep) == entries,
    decreases entries.len(),
{
    reveal(Seq::filter);
    if entries.len() > 0 {
        let front = entries.drop_last();
        assert forall|i: int| 0 <= i < front.len() implies keep(#[trigger] front[i]) by {
            assert(front[i] == entries[i]);
        }
        lemma_nothing_to_drop(front, keep);
        assert(keep(entries[entries.len() - 1]));
        assert(entries =~= front.push(entries.last()));
    } else {
        assert(entries.filter(keep) =~= entries);
    }
}

/// An entry as the client sees it is read field by field.
pub proof fn law_entries_are_read_field_by_field(e: EntryOut)
    ensures
        e@.name == e.name@,
        e@.kind == e.kind,
        e@.size == e.size,
        e@.mtime_unix == e.mtime_unix,
        e@.attr == e.attr@,
{
}

} // verus!
