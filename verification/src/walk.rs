//! The walk over an image: which entries are read into the bundle.
//!
//! The caller walks the image and offers every entry to a [`Collector`], which
//! answers whether the entry is passed over or read, or that the walk ends.

use vstd::hash_set::StringHashSet;
use vstd::prelude::*;

use crate::extract::ExtractError;
#[allow(unused_imports)]
use crate::extract::capped_sum;
#[allow(unused_imports)]
use crate::globs::all_portable;
use crate::select::Selector;
#[allow(unused_imports)]
use crate::select::{
    law_order_and_repetition_make_no_difference, rules_of, Rules, Target,
};

verus! {

/// What becomes of an entry.
pub enum Step {
    /// The entry is passed over and the walk goes on.
    Skip,
    /// The entry is read into the bundle and the walk goes on.
    Read,
    /// The walk ends with an error.
    Stop(ExtractError),
}

/// An entry that the walk came to.
pub struct Item {
    pub path: Seq<char>,
    pub is_dir: bool,
    /// The selection takes the path.
    pub hit: bool,
    pub size: nat,
}

/// What the walk remembers.
pub struct Progress {
    /// The paths that were taken.
    pub seen: Set<Seq<char>>,
    /// What their sizes add up to.
    pub total: nat,
}

impl Progress {
    /// The start of a walk.
    pub open spec fn start() -> Progress {
        Progress { seen: Set::empty(), total: 0 }
    }

    /// The entry is a selected file that the walk has not met before.
    pub open spec fn wants(self, item: Item) -> bool {
        !item.is_dir && item.hit && !self.seen.contains(item.path)
    }

    /// What the walk remembers after an entry.
    pub open spec fn after(self, item: Item) -> Progress {
        if self.wants(item) {
            Progress {
                seen: self.seen.insert(item.path),
                total: capped_sum(self.total, item.size),
            }
        } else {
            self
        }
    }

    /// The entry is wanted and still fits.
    pub open spec fn takes(self, limit: nat, item: Item) -> bool {
        self.wants(item) && self.after(item).total <= limit
    }

    /// The entry is wanted and is one too many.
    pub open spec fn overflows(self, limit: nat, item: Item) -> bool {
        self.wants(item) && self.after(item).total > limit
    }

    /// `step` is what becomes of the entry, and `next` is what the walk remembers
    /// then.
    pub open spec fn decision(self, limit: nat, item: Item, step: Step, next: Progress) -> bool {
        &&& next == self.after(item)
        &&& match step {
            Step::Skip => !self.wants(item),
            Step::Read => self.takes(limit, item),
            Step::Stop(e) => {
                &&& self.overflows(limit, item)
                &&& e matches ExtractError::WalkTooLarge { limit: cap, running_total, path }
                &&& cap == limit
                &&& running_total == next.total
                &&& path@ == item.path
            },
        }
    }
}

/// A file that was read.
pub struct FoundFile {
    pub path: String,
    pub bytes: Vec<u8>,
}

/// What a [`FoundFile`] holds.
pub struct FileView {
    pub path: Seq<char>,
    pub bytes: Seq<u8>,
}

impl View for FoundFile {
    type V = FileView;

    open spec fn view(&self) -> FileView {
        FileView { path: self.path@, bytes: self.bytes@ }
    }
}

/// What a list of files holds.
pub open spec fn file_views(files: Seq<FoundFile>) -> Seq<FileView> {
    files.map_values(|f: FoundFile| f@)
}

/// Decides, entry by entry, what is read, and holds what was.
pub struct Collector {
    selector: Selector,
    limit: u64,
    seen: StringHashSet,
    running_total: u64,
    files: Vec<FoundFile>,
}

impl Collector {
    /// What the selection goes by.
    pub closed spec fn rules(self) -> Rules {
        self.selector@
    }

    /// What the files read may add up to.
    pub closed spec fn limit(self) -> u64 {
        self.limit
    }

    /// How far the walk has come.
    pub closed spec fn progress(self) -> Progress {
        Progress { seen: self.seen@, total: self.running_total as nat }
    }

    /// The files read so far.
    pub closed spec fn files(self) -> Seq<FileView> {
        file_views(self.files@)
    }

    /// A collector at the start of a walk.
    pub fn new(selector: Selector, limit: u64) -> (r: Collector)
        ensures
            r.rules() == selector@,
            r.limit() == limit,
            r.progress() == Progress::start(),
            r.files() == Seq::<FileView>::empty(),
    {
        let r: Collector = Collector {
            selector,
            limit,
            seen: StringHashSet::new(),
            running_total: 0,
            files: Vec::new(),
        };
        assert(r.files() =~= Seq::<FileView>::empty());
        r
    }

    /// Decides on an entry, given whether the selection takes its path.
    pub fn decide(&mut self, path: &str, is_dir: bool, hit: bool, size: u32) -> (r: Step)
        ensures
            final(self).rules() == old(self).rules(),
            final(self).limit() == old(self).limit(),
            final(self).files() == old(self).files(),
            old(self).progress().decision(
                old(self).limit() as nat,
                Item { path: path@, is_dir, hit, size: size as nat },
                r,
                final(self).progress(),
            ),
    {
        if is_dir || !hit || self.seen.contains(path) {
            return Step::Skip;
        }
        self.seen.insert(path.to_owned());
        let bytes: u64 = size as u64;
        self.running_total = self.running_total.saturating_add(bytes);
        if self.running_total > self.limit {
            return Step::Stop(
                ExtractError::WalkTooLarge {
                    limit: self.limit,
                    running_total: self.running_total,
                    path: path.to_owned(),
                },
            );
        }
        Step::Read
    }

    /// Decides on an entry. The selection is asked for files only.
    pub fn offer(&mut self, path: &str, is_dir: bool, size: u32) -> (r: Step)
        ensures
            final(self).rules() == old(self).rules(),
            final(self).limit() == old(self).limit(),
            final(self).files() == old(self).files(),
            exists|hit: bool|
                {
                    &&& !is_dir && all_portable(old(self).rules().globs, path@) ==> hit == old(
                        self,
                    ).rules().selects(path@)
                    &&& !is_dir ==> old(self).rules().may_answer(path@, hit)
                    &&& !is_dir && old(self).rules().globs.len() == 0 ==> hit == old(
                        self,
                    ).rules().names(path@)
                    &&& #[trigger] old(self).progress().decision(
                        old(self).limit() as nat,
                        Item { path: path@, is_dir, hit, size: size as nat },
                        r,
                        final(self).progress(),
                    )
                },
    {
        let hit: bool = if is_dir {
            false
        } else {
            self.selector.matches(path)
        };
        self.decide(path, is_dir, hit, size)
    }

    /// Takes in what reading a file gave: its bytes, kept as they are behind those of the
    /// files before, or an error.
    pub fn store(&mut self, path: &str, read: Result<Vec<u8>, String>) -> (r: Result<
        (),
        ExtractError,
    >)
        ensures
            final(self).rules() == old(self).rules(),
            final(self).limit() == old(self).limit(),
            final(self).progress() == old(self).progress(),
            match read {
                Ok(bytes) => {
                    &&& r is Ok
                    &&& final(self).files() == old(self).files().push(
                        FileView { path: path@, bytes: bytes@ },
                    )
                },
                Err(message) => {
                    &&& r matches Err(ExtractError::ReadFailed { path: shown, reason })
                    &&& shown@ == path@
                    &&& reason@ == message@
                    &&& final(self).files() == old(self).files()
                },
            },
    {
        match read {
            Ok(bytes) => {
                let file: FoundFile = FoundFile { path: path.to_owned(), bytes };
                self.files.push(file);
                assert(self.files() =~= old(self).files().push(file@));
                Ok(())
            },
            Err(reason) => Err(ExtractError::ReadFailed { path: path.to_owned(), reason }),
        }
    }

    /// The files that were read, in the order of the walk.
    pub fn finish(self) -> (r: Vec<FoundFile>)
        ensures
            file_views(r@) == self.files(),
    {
        self.files
    }
}

/// What the walk remembers after a whole sequence of entries.
pub open spec fn progress_after(items: Seq<Item>) -> Progress
    decreases items.len(),
{
    if items.len() == 0 {
        Progress::start()
    } else {
        progress_after(items.drop_last()).after(items.last())
    }
}

/// The walk comes to the end of the entries without being stopped.
pub open spec fn runs_through(items: Seq<Item>, limit: nat) -> bool {
    forall|k: int|
        0 <= k < items.len() ==> !progress_after(#[trigger] items.take(k)).overflows(
            limit,
            items[k],
        )
}

/// The positions of the entries that are taken.
pub open spec fn taken(items: Seq<Item>) -> Seq<int>
    decreases items.len(),
{
    if items.len() == 0 {
        Seq::empty()
    } else {
        let before = taken(items.drop_last());
        if progress_after(items.drop_last()).wants(items.last()) {
            before.push(items.len() - 1)
        } else {
            before
        }
    }
}

/// What the sizes at the given positions add up to.
pub open spec fn size_sum(items: Seq<Item>, at: Seq<int>) -> nat
    decreases at.len(),
{
    if at.len() == 0 {
        0
    } else {
        size_sum(items, at.drop_last()) + items[at.last()].size
    }
}

/// An entry of the image, before the selection is asked.
pub struct Entry {
    pub path: Seq<char>,
    pub is_dir: bool,
    pub size: nat,
}

/// What the walk comes to, with what the selection takes of it.
pub open spec fn offered(entries: Seq<Entry>, rules: Rules) -> Seq<Item> {
    entries.map_values(
        |e: Entry|
            Item { path: e.path, is_dir: e.is_dir, hit: rules.selects(e.path), size: e.size },
    )
}

/// The path of the entry at the `a`-th of the given positions.
pub open spec fn path_at(items: Seq<Item>, at: Seq<int>, a: int) -> Seq<char> {
    items[at[a]].path
}

/// A step of a walk that was not stopped is one of passing over or reading, and it
/// reads exactly the entries that [`taken`] lists.
pub proof fn law_steps_read_what_is_taken(
    items: Seq<Item>,
    limit: nat,
    step: Step,
    next: Progress,
)
    requires
        items.len() > 0,
        runs_through(items, limit),
        progress_after(items.drop_last()).decision(limit, items.last(), step, next),
    ensures
        step is Skip || step is Read,
        next == progress_after(items),
        taken(items) == if step is Read {
            taken(items.drop_last()).push(items.len() - 1)
        } else {
            taken(items.drop_last())
        },
{
    assert(items.take(items.len() - 1) == items.drop_last());
}

/// Files come out in the order of the walk.
pub proof fn law_walk_keeps_order(items: Seq<Item>)
    ensures
        forall|a: int| 0 <= a < taken(items).len() ==> 0 <= #[trigger] taken(items)[a]
            < items.len(),
        forall|a: int, b: int|
            0 <= a < b < taken(items).len() ==> taken(items)[a] < taken(items)[b],
    decreases items.len(),
{
    if items.len() > 0 {
        let before = taken(items.drop_last());
        law_walk_keeps_order(items.drop_last());
        assert forall|a: int| 0 <= a < taken(items).len() implies 0 <= #[trigger] taken(items)[a]
            < items.len() by {
            if a < before.len() {
                assert(taken(items)[a] == before[a]);
            }
        }
        assert forall|a: int, b: int| 0 <= a < b < taken(items).len() implies taken(items)[a]
            < taken(items)[b] by {
            assert(taken(items)[a] == before[a]);
            if b < before.len() {
                assert(taken(items)[b] == before[b]);
            }
        }
    }
}

/// Only selected files come out: no directory, and nothing that the selection does
/// not take.
pub proof fn law_walk_takes_selected_files(items: Seq<Item>)
    ensures
        forall|a: int|
            0 <= a < taken(items).len() ==> !items[#[trigger] taken(items)[a]].is_dir
                && items[taken(items)[a]].hit,
    decreases items.len(),
{
    law_walk_keeps_order(items);
    if items.len() > 0 {
        let front = items.drop_last();
        law_walk_takes_selected_files(front);
        law_walk_keeps_order(front);
        assert forall|a: int| 0 <= a < taken(items).len() implies !items[#[trigger] taken(
            items,
        )[a]].is_dir && items[taken(items)[a]].hit by {
            if a < taken(front).len() {
                assert(taken(items)[a] == taken(front)[a]);
                assert(items[taken(front)[a]] == front[taken(front)[a]]);
            }
        }
    }
}

/// The paths that the walk has seen are those of the entries taken.
proof fn lemma_seen_is_taken(items: Seq<Item>, p: Seq<char>)
    ensures
        progress_after(items).seen.contains(p) <==> exists|a: int|
            0 <= a < taken(items).len() && #[trigger] path_at(items, taken(items), a) == p,
    decreases items.len(),
{
    if items.len() > 0 {
        let front = items.drop_last();
        let at = taken(items);
        let old_at = taken(front);
        lemma_seen_is_taken(front, p);
        law_walk_keeps_order(front);
        if progress_after(front).wants(items.last()) {
            let n = old_at.len() as int;
            assert(path_at(items, at, n) == items.last().path);
            if progress_after(front).seen.contains(p) {
                let a = choose|a: int| 0 <= a < n && #[trigger] path_at(front, old_at, a) == p;
                assert(path_at(items, at, a) == p);
            }
            if exists|a: int| 0 <= a < at.len() && #[trigger] path_at(items, at, a) == p {
                let a = choose|a: int| 0 <= a < at.len() && #[trigger] path_at(items, at, a) == p;
                if a < n {
                    assert(path_at(front, old_at, a) == p);
                }
            }
        } else {
            assert forall|a: int| 0 <= a < at.len() implies #[trigger] path_at(items, at, a)
                == path_at(front, old_at, a) by {}
            if progress_after(front).seen.contains(p) {
                let a = choose|a: int|
                    0 <= a < old_at.len() && #[trigger] path_at(front, old_at, a) == p;
                assert(path_at(items, at, a) == p);
            }
            if exists|a: int| 0 <= a < at.len() && #[trigger] path_at(items, at, a) == p {
                let a = choose|a: int| 0 <= a < at.len() && #[trigger] path_at(items, at, a) == p;
                assert(path_at(front, old_at, a) == p);
            }
        }
    }
}

/// No path comes out twice, however often the walk meets it.
pub proof fn law_walk_takes_each_path_once(items: Seq<Item>)
    ensures
        forall|a: int, b: int|
            0 <= a < b < taken(items).len() ==> #[trigger] path_at(items, taken(items), a)
                != #[trigger] path_at(items, taken(items), b),
    decreases items.len(),
{
    if items.len() > 0 {
        let front = items.drop_last();
        let at = taken(items);
        let old_at = taken(front);
        law_walk_takes_each_path_once(front);
        law_walk_keeps_order(front);
        assert forall|a: int, b: int| 0 <= a < b < at.len() implies #[trigger] path_at(items, at, a)
            != #[trigger] path_at(items, at, b) by {
            assert(path_at(items, at, a) == path_at(front, old_at, a));
            if b < old_at.len() {
                assert(path_at(items, at, b) == path_at(front, old_at, b));
            } else {
                lemma_seen_is_taken(front, items.last().path);
            }
        }
    }
}

/// Every selected file comes out: for each one that the walk meets, an entry with
/// its path is taken.
pub proof fn law_walk_misses_nothing(items: Seq<Item>, k: int)
    requires
        0 <= k < items.len(),
        items[k].hit,
        !items[k].is_dir,
    ensures
        exists|a: int|
            0 <= a < taken(items).len() && #[trigger] path_at(items, taken(items), a)
                == items[k].path,
    decreases items.len(),
{
    lemma_seen_is_taken(items, items[k].path);
    let front = items.drop_last();
    if k < items.len() - 1 {
        law_walk_misses_nothing(front, k);
        lemma_seen_is_taken(front, front[k].path);
    }
}

/// The sum of the sizes does not look at entries behind the positions.
proof fn lemma_size_sum_of_front(items: Seq<Item>, at: Seq<int>)
    requires
        items.len() > 0,
        forall|a: int| 0 <= a < at.len() ==> 0 <= #[trigger] at[a] < items.len() - 1,
    ensures
        size_sum(items, at) == size_sum(items.drop_last(), at),
    decreases at.len(),
{
    if at.len() > 0 {
        lemma_size_sum_of_front(items, at.drop_last());
        assert(at[at.len() - 1] < items.len() - 1);
    }
}

/// A walk that is not stopped takes no more than the limit in all, and its running
/// total is what the files taken add up to. A limit at the very top of the `u64`
/// range is left out: the running total stays there.
pub proof fn law_walk_stays_within_limit(items: Seq<Item>, limit: nat)
    requires
        runs_through(items, limit),
        limit < u64::MAX,
    ensures
        size_sum(items, taken(items)) == progress_after(items).total,
        size_sum(items, taken(items)) <= limit,
    decreases items.len(),
{
    if items.len() > 0 {
        let front = items.drop_last();
        assert forall|k: int| 0 <= k < front.len() implies !progress_after(
            #[trigger] front.take(k),
        ).overflows(limit, front[k]) by {
            assert(front.take(k) == items.take(k));
        }
        law_walk_stays_within_limit(front, limit);
        lemma_size_sum_of_taken(items);
        assert(items.take(items.len() - 1) == front);
    }
}

/// What the files taken add up to is what those taken before the last entry do, and the
/// last one where it is taken.
proof fn lemma_size_sum_of_taken(items: Seq<Item>)
    requires
        items.len() > 0,
    ensures
        size_sum(items, taken(items)) == size_sum(items.drop_last(), taken(items.drop_last()))
            + if progress_after(items.drop_last()).wants(items.last()) {
            items.last().size
        } else {
            0
        },
{
    let front = items.drop_last();
    law_walk_keeps_order(front);
    lemma_size_sum_of_front(items, taken(front));
    if progress_after(front).wants(items.last()) {
        assert(taken(items).drop_last() == taken(front));
    }
}

/// The running total does not run ahead of the sizes.
proof fn lemma_total_is_at_most_sum(items: Seq<Item>)
    ensures
        progress_after(items).total <= size_sum(items, taken(items)),
    decreases items.len(),
{
    if items.len() > 0 {
        lemma_total_is_at_most_sum(items.drop_last());
        lemma_size_sum_of_taken(items);
    }
}

/// A walk is stopped only for a reason: where the sizes of the distinct selected files
/// add up to no more than the limit, it comes to the end.
pub proof fn law_walk_within_limit_is_not_stopped(items: Seq<Item>, limit: nat)
    requires
        size_sum(items, taken(items)) <= limit,
    ensures
        runs_through(items, limit),
    decreases items.len(),
{
    if items.len() > 0 {
        let front = items.drop_last();
        lemma_size_sum_of_taken(items);
        law_walk_within_limit_is_not_stopped(front, limit);
        lemma_total_is_at_most_sum(front);
        assert forall|k: int| 0 <= k < items.len() implies !progress_after(
            #[trigger] items.take(k),
        ).overflows(limit, items[k]) by {
            if k < front.len() {
                assert(front.take(k) == items.take(k));
                assert(front[k] == items[k]);
            } else {
                assert(items.take(k) == front);
            }
        }
    }
}

/// A walk is stopped exactly where the sizes of the distinct selected files add up to
/// more than the limit; at the limit itself it is not.
pub proof fn law_walk_is_stopped_exactly_beyond_limit(items: Seq<Item>, limit: nat)
    requires
        limit < u64::MAX,
    ensures
        runs_through(items, limit) <==> size_sum(items, taken(items)) <= limit,
{
    if runs_through(items, limit) {
        law_walk_stays_within_limit(items, limit);
    }
    if size_sum(items, taken(items)) <= limit {
        law_walk_within_limit_is_not_stopped(items, limit);
    }
}

/// Two lists of the same patterns, in whatever order and however often repeated, offer
/// the walk the same entries, so that the same files come out.
pub proof fn law_same_patterns_take_the_same_files(
    entries: Seq<Entry>,
    p: Seq<Seq<char>>,
    q: Seq<Seq<char>>,
    image: spec_fn(Seq<char>) -> Target,
)
    requires
        forall|raw: Seq<char>| #[trigger] p.contains(raw) == q.contains(raw),
    ensures
        offered(entries, rules_of(p, image)) == offered(entries, rules_of(q, image)),
{
    assert forall|i: int| 0 <= i < entries.len() implies #[trigger] offered(
        entries,
        rules_of(p, image),
    )[i] == offered(entries, rules_of(q, image))[i] by {
        law_order_and_repetition_make_no_difference(p, q, image, entries[i].path);
    }
    assert(offered(entries, rules_of(p, image)) =~= offered(entries, rules_of(q, image)));
}

/// The files that come out: those of the entries taken, each with what was read of it.
pub open spec fn files_taken(items: Seq<Item>, content: spec_fn(int) -> Seq<u8>) -> Seq<FileView> {
    taken(items).map_values(|i: int| FileView { path: items[i].path, bytes: content(i) })
}

/// Storing what is read at each step that reads, and nothing at the others, gives the
/// files of the entries taken, in the order of the walk and with their own bytes.
pub proof fn law_stored_files_are_those_taken(
    items: Seq<Item>,
    limit: nat,
    content: spec_fn(int) -> Seq<u8>,
    step: Step,
    next: Progress,
)
    requires
        items.len() > 0,
        runs_through(items, limit),
        progress_after(items.drop_last()).decision(limit, items.last(), step, next),
    ensures
        files_taken(items, content) == if step is Read {
            files_taken(items.drop_last(), content).push(
                FileView { path: items.last().path, bytes: content(items.len() - 1) },
            )
        } else {
            files_taken(items.drop_last(), content)
        },
{
    let front = items.drop_last();
    law_steps_read_what_is_taken(items, limit, step, next);
    law_walk_keeps_order(front);
    let before = files_taken(front, content);
    let after = files_taken(items, content);
    assert forall|a: int| 0 <= a < taken(front).len() implies after[a] == before[a] by {
        assert(taken(items)[a] == taken(front)[a]);
        assert(0 <= taken(front)[a] < front.len());
    }
    if step is Read {
        assert(after =~= before.push(
            FileView { path: items.last().path, bytes: content(items.len() - 1) },
        ));
    } else {
        assert(after =~= before);
    }
}

/// A path comes out exactly where the walk meets a file with it and the patterns select
/// it.
pub proof fn law_walk_takes_exactly_the_selected_files(
    entries: Seq<Entry>,
    rules: Rules,
    path: Seq<char>,
)
    ensures
        (exists|a: int|
            0 <= a < taken(offered(entries, rules)).len() && #[trigger] path_at(
                offered(entries, rules),
                taken(offered(entries, rules)),
                a,
            ) == path) <==> rules.selects(path) && exists|k: int|
            0 <= k < entries.len() && (#[trigger] entries[k]).path == path && !entries[k].is_dir,
{
    let items = offered(entries, rules);
    let at = taken(items);
    law_walk_takes_selected_files(items);
    law_walk_keeps_order(items);
    if exists|a: int| 0 <= a < at.len() && #[trigger] path_at(items, at, a) == path {
        let a = choose|a: int| 0 <= a < at.len() && #[trigger] path_at(items, at, a) == path;
        let k = at[a];
        assert(items[k].hit && !items[k].is_dir);
        assert(entries[k].path == path && !entries[k].is_dir);
    }
    if rules.selects(path) && exists|k: int|
        0 <= k < entries.len() && (#[trigger] entries[k]).path == path && !entries[k].is_dir {
        let k = choose|k: int|
            0 <= k < entries.len() && (#[trigger] entries[k]).path == path && !entries[k].is_dir;
        assert(items[k].hit && !items[k].is_dir && items[k].path == path);
        law_walk_misses_nothing(items, k);
    }
}

/// What becomes of an entry, in full. Directories, what the selection does not take and
/// what was met before are passed over; anything else is read while the sizes stay within
/// the limit, and ends the walk where they do not. Only what is not passed over is
/// remembered.
pub proof fn law_decisions(
    before: Progress,
    limit: nat,
    item: Item,
    step: Step,
    next: Progress,
)
    requires
        before.decision(limit, item, step, next),
        before.total + item.size <= u64::MAX,
    ensures
        step is Skip <==> item.is_dir || !item.hit || before.seen.contains(item.path),
        step is Read ==> before.total + item.size <= limit,
        step is Stop ==> before.total + item.size > limit,
        step is Skip ==> next == before,
        !(step is Skip) ==> next.total == before.total + item.size && next.seen
            == before.seen.insert(item.path),
        step matches Step::Stop(e) ==> (e matches ExtractError::WalkTooLarge {
            limit: cap,
            running_total,
            path,
        } && cap == limit && running_total == before.total + item.size && path@ == item.path),
        Progress::start().total == 0,
        forall|p: Seq<char>| !#[trigger] Progress::start().seen.contains(p),
{
}

/// What is offered to the walk are the entries, one by one, with the answer of the
/// selection.
pub proof fn law_entries_are_offered_one_by_one(entries: Seq<Entry>, rules: Rules, i: int)
    requires
        0 <= i < entries.len(),
    ensures
        offered(entries, rules).len() == entries.len(),
        offered(entries, rules)[i].path == entries[i].path,
        offered(entries, rules)[i].is_dir == entries[i].is_dir,
        offered(entries, rules)[i].size == entries[i].size,
        offered(entries, rules)[i].hit == rules.selects(entries[i].path),
{
}

/// A list of files is read file by file, path and bytes; what comes out of a walk is the
/// path and the content of each entry taken.
pub proof fn law_files_are_read_one_by_one(
    files: Seq<FoundFile>,
    i: int,
    items: Seq<Item>,
    content: spec_fn(int) -> Seq<u8>,
    a: int,
)
    requires
        0 <= i < files.len(),
        0 <= a < taken(items).len(),
    ensures
        file_views(files).len() == files.len(),
        file_views(files)[i].path == files[i].path@,
        file_views(files)[i].bytes == files[i].bytes@,
        files_taken(items, content).len() == taken(items).len(),
        files_taken(items, content)[a].path == path_at(items, taken(items), a),
        files_taken(items, content)[a].bytes == content(taken(items)[a]),
        path_at(items, taken(items), a) == items[taken(items)[a]].path,
{
}

/// The sizes at two lists of positions add up to those at both.
pub proof fn law_sizes_add_up(items: Seq<Item>, a: Seq<int>, b: Seq<int>, i: int)
    ensures
        size_sum(items, a + b) == size_sum(items, a) + size_sum(items, b),
        size_sum(items, seq![i]) == items[i].size,
        size_sum(items, Seq::empty()) == 0,
    decreases b.len(),
{
    reveal_with_fuel(size_sum, 2);
    assert(seq![i].drop_last() =~= Seq::<int>::empty());
    if b.len() > 0 {
        law_sizes_add_up(items, a, b.drop_last(), i);
        assert((a + b).drop_last() =~= a + b.drop_last());
        assert((a + b).last() == b.last());
    } else {
        assert(a + b =~= a);
    }
}

} // verus!
