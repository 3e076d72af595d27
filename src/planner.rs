//! The planner: an undoable model of one disk's partition layout.
//!
//! Every change is journaled. Alongside the journal the planner keeps, as
//! ghost state, the layout after each prefix of it, so that the current
//! layout is provably the original one with the journal replayed, and
//! `undo` provably returns to the layout before the last change.

use vstd::prelude::*;
use crate::attributes::PartitionAttributes;
use crate::disk::{BlockDevice, Partition, SECTOR_SIZE};
use crate::text::{decimal_text, push_decimal};
use crate::sizing::{
    align_down, align_down_spec, align_up, align_up_spec, aligned, format_position, format_size,
    position_text, size_text, MIB,
};

verus! {

/// Alignment of every partition that the planner places.
pub const PARTITION_ALIGNMENT: u64 = MIB;

/// The position and id of a region, without its attributes.
#[derive(Clone, Copy, Debug, PartialEq, Eq, Structural)]
pub struct Extent {
    pub start: u64,
    pub end: u64,
    pub partition_id: Option<u32>,
}

/// A byte interval `[start, end)` on a disk, free or holding a partition.
#[derive(Clone, Debug)]
pub struct Region {
    /// First byte.
    pub start: u64,
    /// Byte just past the end.
    pub end: u64,
    /// The partition's id, if the region holds one.
    pub partition_id: Option<u32>,
    /// The partition's attributes, if any.
    pub attributes: Option<PartitionAttributes>,
}

impl View for Region {
    type V = Extent;

    open spec fn view(&self) -> Extent {
        Extent { start: self.start, end: self.end, partition_id: self.partition_id }
    }
}

/// The extents of a sequence of regions.
pub open spec fn extents(s: Seq<Region>) -> Seq<Extent> {
    s.map_values(|r: Region| r@)
}

/// How a region is described: its size, then its ends as positions.
pub open spec fn region_text(e: Extent, disk_size: u64) -> Seq<char> {
    size_text((e.end - e.start) as nat) + " at "@ + position_text(e.start as nat, disk_size as nat) + ".."@
        + position_text(e.end as nat, disk_size as nat)
}

/// How a journal entry is described.
pub open spec fn change_text(c: ChangeView, disk_size: u64) -> Seq<char> {
    match c {
        ChangeView::Add { start, end, partition_id } => "Add partition "@ + decimal_text(partition_id as nat) + ": "@
            + region_text(Extent { start, end, partition_id: Some(partition_id) }, disk_size),
        ChangeView::Delete { partition_id, .. } => "Delete partition "@ + decimal_text(partition_id as nat),
    }
}

/// One numbered line per journal entry.
pub open spec fn change_lines(j: Seq<ChangeView>, disk_size: u64) -> Seq<char>
    decreases j.len(),
{
    if j.len() == 0 {
        Seq::empty()
    } else {
        change_lines(j.drop_last(), disk_size) + "  "@ + decimal_text(j.len()) + ": "@ + change_text(j.last(), disk_size)
            + "\n"@
    }
}

/// The description of a plan: nothing to do, or the wipe and the journal.
pub open spec fn changes_text(j: Seq<ChangeView>, wiped: bool, disk_size: u64) -> Seq<char> {
    if j.len() == 0 && !wiped {
        "No changes planned"@
    } else {
        "Planned changes:\n"@ + (if wiped { "  Create a new partition table\n"@ } else { Seq::empty() })
            + change_lines(j, disk_size)
    }
}

/// Two extents share at least one byte.
pub open spec fn overlaps(a: Extent, b: Extent) -> bool {
    a.start < b.end && b.start < a.end
}

/// No two extents of `s` share a byte.
pub open spec fn disjoint(s: Seq<Extent>) -> bool {
    forall|i: int, j: int|
        0 <= i < s.len() && 0 <= j < s.len() && i != j ==> !overlaps(#[trigger] s[i], #[trigger] s[j])
}

/// The extents of `s` are in order of their start.
pub open spec fn sorted_by_start(s: Seq<Extent>) -> bool {
    forall|i: int, j: int| 0 <= i <= j < s.len() ==> (#[trigger] s[i]).start <= (#[trigger] s[j]).start
}

/// Every extent of `s` carries a partition id.
pub open spec fn all_identified(s: Seq<Extent>) -> bool {
    forall|i: int| 0 <= i < s.len() ==> (#[trigger] s[i]).partition_id is Some
}

/// No two extents of `s` carry the same partition id.
pub open spec fn unique_ids(s: Seq<Extent>) -> bool {
    forall|i: int, j: int|
        0 <= i < s.len() && 0 <= j < s.len() && i != j ==> (#[trigger] s[i]).partition_id != (
        #[trigger] s[j]).partition_id
}

/// An extent as the planner places it: aligned, non-empty and inside the
/// usable range `[first, last]`.
pub open spec fn placed(e: Extent, first: u64, last: u64) -> bool {
    &&& aligned(e.start as int, PARTITION_ALIGNMENT as int)
    &&& aligned(e.end as int, PARTITION_ALIGNMENT as int)
    &&& first <= e.start < e.end <= last
}

/// What holds of every layout that a planner passes through, given the
/// layout it started from.
pub open spec fn layout_ok(l: Seq<Extent>, base: Seq<Extent>, first: u64, last: u64) -> bool {
    &&& sorted_by_start(l)
    &&& all_identified(l)
    &&& (disjoint(base) ==> disjoint(l))
    &&& (unique_ids(base) ==> unique_ids(l))
    &&& forall|j: int| 0 <= j < l.len() ==> base.contains(#[trigger] l[j]) || placed(l[j], first, last)
}

/// A journal entry, without attributes.
pub enum ChangeView {
    Add { start: u64, end: u64, partition_id: u32 },
    Delete { partition_id: u32, original_index: int, extent: Extent },
}

/// An entry in the planner's journal.
#[derive(Clone, Debug)]
pub enum Change {
    /// A partition was added at `[start, end)`.
    AddPartition { start: u64, end: u64, partition_id: u32, attributes: Option<PartitionAttributes> },
    /// The partition at `original_index` of the layout was removed; `region`
    /// is what it held, so that it can be put back.
    DeletePartition { partition_id: u32, original_index: usize, region: Region },
}

impl View for Change {
    type V = ChangeView;

    open spec fn view(&self) -> ChangeView {
        match self {
            Change::AddPartition { start, end, partition_id, .. } => ChangeView::Add {
                start: *start,
                end: *end,
                partition_id: *partition_id,
            },
            Change::DeletePartition { partition_id, original_index, region } => ChangeView::Delete {
                partition_id: *partition_id,
                original_index: *original_index as int,
                extent: region@,
            },
        }
    }
}

/// The views of a sequence of changes.
pub open spec fn change_views(s: Seq<Change>) -> Seq<ChangeView> {
    s.map_values(|c: Change| c@)
}

/// The extent that an added partition occupies.
pub open spec fn added_extent(start: u64, end: u64, id: u32) -> Extent {
    Extent { start, end, partition_id: Some(id) }
}

/// `next` is the layout `prev` with the change `c` applied.
pub open spec fn applies(prev: Seq<Extent>, c: ChangeView, next: Seq<Extent>) -> bool {
    match c {
        ChangeView::Add { start, end, partition_id } => {
            let e = added_extent(start, end, partition_id);
            &&& start < end
            &&& forall|j: int| 0 <= j < prev.len() ==> !overlaps(#[trigger] prev[j], e)
            &&& exists|p: int| 0 <= p <= prev.len() && next == prev.insert(p, e)
        },
        ChangeView::Delete { partition_id, original_index, extent } => {
            &&& 0 <= original_index < prev.len()
            &&& prev[original_index] == extent
            &&& extent.partition_id == Some(partition_id)
            &&& next == prev.remove(original_index)
        },
    }
}

/// Why the planner refused an operation.
#[derive(Clone, Copy, Debug, PartialEq, Eq, Structural)]
pub enum PlanError {
    /// The aligned interval leaves the usable range of the disk.
    RegionOutOfBounds { start: u64, end: u64 },
    /// The aligned interval shares bytes with the partition `id`.
    PartitionOverlap { start: u64, end: u64, id: u32 },
    /// The aligned interval is empty.
    InvalidSize { start: u64, end: u64 },
    /// A gap-based allocation found no free space.
    NoFreeRegions,
    /// No partition has this id.
    PartitionNotFound { id: u32 },
    /// Partition ids are exhausted.
    TooManyPartitions,
}

impl Region {
    /// A free region `[start, end)`.
    pub fn new(start: u64, end: u64) -> (r: Region)
        ensures
            r@ == (Extent { start, end, partition_id: None }),
            r.attributes is None,
    {
        Region { start, end, partition_id: None, attributes: None }
    }

    /// The region's length in bytes.
    pub fn size(&self) -> (r: u64)
        requires
            self.start <= self.end,
        ensures
            r == self.end - self.start,
    {
        self.end - self.start
    }

    /// Whether the two regions share a byte.
    pub fn overlaps_with(&self, other: &Region) -> (r: bool)
        ensures
            r == overlaps(self@, other@),
    {
        self.start < other.end && other.start < self.end
    }

    /// The region's size and its ends as positions on a disk of
    /// `disk_size` bytes, as in `1.0GiB at 0% (1.0MiB)..1% (1.0GiB)`.
    pub fn describe(&self, disk_size: u64) -> (r: String)
        requires
            self.start <= self.end,
        ensures
            r@ == region_text(self@, disk_size),
    {
        let mut s = format_size(self.end - self.start);
        s.append(" at ");
        let a = format_position(self.start, disk_size);
        s.append(a.as_str());
        s.append("..");
        let b = format_position(self.end, disk_size);
        s.append(b.as_str());
        proof {
            assert(s@ =~= region_text(self@, disk_size));
        }
        s
    }

    /// A copy of the region.
    pub fn duplicate(&self) -> (r: Region)
        ensures
            r@ == self@,
    {
        Region {
            start: self.start,
            end: self.end,
            partition_id: self.partition_id,
            attributes: self.attributes.clone(),
        }
    }
}

/// An undoable plan for the partition layout of one disk.
pub struct Planner {
    disk_size: u64,
    usable_start: u64,
    usable_end: u64,
    original_regions: Vec<Region>,
    current_regions: Vec<Region>,
    changes: Vec<Change>,
    wipe_disk: bool,
    wipe_mark: usize,
    next_partition_id: u32,
    history: Ghost<Seq<Seq<Extent>>>,
}

/// The extent of a device partition, in bytes.
pub open spec fn partition_extent(p: Partition) -> Extent {
    Extent {
        start: (p.start * SECTOR_SIZE) as u64,
        end: (p.end * SECTOR_SIZE) as u64,
        partition_id: Some(p.number),
    }
}

/// The extents of a device's partitions, in the device's order.
pub open spec fn partition_extents(s: Seq<Partition>) -> Seq<Extent> {
    s.map_values(|p: Partition| partition_extent(p))
}

/// The last usable byte of a disk of `size` bytes: one alignment unit short
/// of the end, snapped to the alignment.
pub open spec fn last_usable_of(size: nat) -> u64 {
    let tail: int = if size >= PARTITION_ALIGNMENT { size - PARTITION_ALIGNMENT } else { 0 };
    align_down_spec(tail, PARTITION_ALIGNMENT as int) as u64
}

/// Where an extent starting at `s` goes in a layout sorted by start: after
/// every extent that starts at or before `s`.
pub open spec fn insert_pos(l: Seq<Extent>, s: u64) -> int
    decreases l.len(),
{
    if l.len() == 0 {
        0
    } else if l.last().start <= s {
        l.len() as int
    } else {
        insert_pos(l.drop_last(), s)
    }
}

proof fn lemma_insert_pos(l: Seq<Extent>, s: u64, p: int)
    requires
        sorted_by_start(l),
        0 <= p <= l.len(),
        forall|i: int| 0 <= i < p ==> (#[trigger] l[i]).start <= s,
        forall|i: int| p <= i < l.len() ==> (#[trigger] l[i]).start > s,
    ensures
        p == insert_pos(l, s),
    decreases l.len(),
{
    if l.len() > 0 {
        if l.last().start <= s {
            assert(p == l.len()) by {
                if p < l.len() {
                    assert(l[l.len() - 1].start > s);
                }
            }
        } else {
            let d = l.drop_last();
            assert(p < l.len());
            assert forall|i: int, j: int| 0 <= i <= j < d.len() implies (#[trigger] d[i]).start <= (
            #[trigger] d[j]).start by {
                assert(d[i] == l[i] && d[j] == l[j]);
            }
            assert forall|i: int| 0 <= i < p implies (#[trigger] d[i]).start <= s by {
                assert(d[i] == l[i]);
            }
            assert forall|i: int| p <= i < d.len() implies (#[trigger] d[i]).start > s by {
                assert(d[i] == l[i]);
            }
            lemma_insert_pos(d, s, p);
        }
    }
}

/// The deletions that wiping the layout `l` journals: the last partition first.
pub open spec fn deletes_of(l: Seq<Extent>) -> Seq<ChangeView>
    decreases l.len(),
{
    if l.len() == 0 {
        Seq::empty()
    } else {
        seq![
            ChangeView::Delete {
                partition_id: id_of(l.last()),
                original_index: l.len() - 1,
                extent: l.last(),
            },
        ] + deletes_of(l.drop_last())
    }
}

/// The index at which an extent starting at `start` goes in the sorted
/// sequence `s`: after every extent that starts at or before it.
fn insert_position(regions: &Vec<Region>, start: u64) -> (p: usize)
    requires
        sorted_by_start(extents(regions@)),
    ensures
        p <= regions@.len(),
        forall|i: int| 0 <= i < p ==> (#[trigger] regions@[i]).start <= start,
        forall|i: int| p <= i < regions@.len() ==> (#[trigger] regions@[i]).start > start,
{
    let mut i: usize = 0;
    while i < regions.len()
        invariant
            i <= regions@.len(),
            sorted_by_start(extents(regions@)),
            forall|k: int| 0 <= k < i ==> (#[trigger] regions@[k]).start <= start,
        decreases regions@.len() - i,
    {
        if regions[i].start > start {
            proof {
                assert forall|k: int| i <= k < regions@.len() implies (#[trigger] regions@[k]).start
                    > start by {
                    assert(extents(regions@)[i as int].start <= extents(regions@)[k].start);
                }
            }
            return i;
        }
        i = i + 1;
    }
    i
}

/// Inserting at a position that keeps starts in order keeps the sequence sorted.
proof fn lemma_insert_sorted(s: Seq<Extent>, p: int, e: Extent)
    requires
        sorted_by_start(s),
        0 <= p <= s.len(),
        forall|i: int| 0 <= i < p ==> (#[trigger] s[i]).start <= e.start,
        forall|i: int| p <= i < s.len() ==> (#[trigger] s[i]).start > e.start,
    ensures
        sorted_by_start(s.insert(p, e)),
{
    let t = s.insert(p, e);
    assert forall|i: int, j: int| 0 <= i <= j < t.len() implies (#[trigger] t[i]).start <= (
    #[trigger] t[j]).start by {
        if i < p {
            if j < p {
            } else if j == p {
            } else {
                assert(t[j] == s[j - 1]);
            }
        } else if i == p {
            if j > p {
                assert(t[j] == s[j - 1]);
            }
        } else {
            assert(t[i] == s[i - 1]);
            assert(t[j] == s[j - 1]);
        }
    }
}

/// The extents of a sequence with one region inserted.
proof fn lemma_extents_insert(s: Seq<Region>, p: int, r: Region)
    requires
        0 <= p <= s.len(),
    ensures
        extents(s.insert(p, r)) == extents(s).insert(p, r@),
{
    assert(extents(s.insert(p, r)) =~= extents(s).insert(p, r@));
}

/// The extents of a sequence with one region removed.
proof fn lemma_extents_remove(s: Seq<Region>, p: int)
    requires
        0 <= p < s.len(),
    ensures
        extents(s.remove(p)) == extents(s).remove(p),
{
    assert(extents(s.remove(p)) =~= extents(s).remove(p));
}

/// `v` snapped to the alignment, or the largest value where snapping up
/// could leave 64 bits.
pub open spec fn snap_start(v: u64) -> u64 {
    if v <= u64::MAX - PARTITION_ALIGNMENT {
        align_up_spec(v as int, PARTITION_ALIGNMENT as int) as u64
    } else {
        u64::MAX
    }
}

/// `v` snapped to the alignment, or the largest value where snapping up
/// could leave 64 bits.
pub open spec fn snap_end(v: u64) -> u64 {
    if v <= u64::MAX - PARTITION_ALIGNMENT {
        align_down_spec(v as int, PARTITION_ALIGNMENT as int) as u64
    } else {
        u64::MAX
    }
}

/// `j` is the first index of `l` whose extent overlaps `x`.
pub open spec fn is_first_overlap(l: Seq<Extent>, x: Extent, j: int) -> bool {
    &&& 0 <= j < l.len()
    &&& overlaps(l[j], x)
    &&& forall|k: int| 0 <= k < j ==> !overlaps(#[trigger] l[k], x)
}

/// The id carried by an extent, or 0 for a free one.
pub open spec fn id_of(e: Extent) -> u32 {
    match e.partition_id {
        Some(id) => id,
        None => 0,
    }
}

/// Why adding the aligned interval `[s, e)` to layout `l` fails, if it does.
pub open spec fn add_error(l: Seq<Extent>, first: u64, last: u64, next: u32, s: u64, e: u64) -> Option<
    PlanError,
> {
    let x = Extent { start: s, end: e, partition_id: None };
    if s < first || e > last {
        Some(PlanError::RegionOutOfBounds { start: s, end: e })
    } else if exists|j: int| is_first_overlap(l, x, j) {
        let j = choose|j: int| is_first_overlap(l, x, j);
        Some(PlanError::PartitionOverlap { start: s, end: e, id: id_of(l[j]) })
    } else if s >= e {
        Some(PlanError::InvalidSize { start: s, end: e })
    } else if next == u32::MAX {
        Some(PlanError::TooManyPartitions)
    } else {
        None
    }
}

/// Inserting a placed, non-overlapping extent with a fresh id keeps a
/// layout well formed.
proof fn lemma_insert_layout_ok(
    l: Seq<Extent>,
    base: Seq<Extent>,
    first: u64,
    last: u64,
    p: int,
    e: Extent,
)
    requires
        layout_ok(l, base, first, last),
        0 <= p <= l.len(),
        forall|i: int| 0 <= i < p ==> (#[trigger] l[i]).start <= e.start,
        forall|i: int| p <= i < l.len() ==> (#[trigger] l[i]).start > e.start,
        e.partition_id is Some,
        placed(e, first, last),
        forall|j: int| 0 <= j < l.len() ==> !overlaps(#[trigger] l[j], e),
        forall|j: int| 0 <= j < l.len() ==> (#[trigger] l[j]).partition_id != e.partition_id,
    ensures
        layout_ok(l.insert(p, e), base, first, last),
{
    let t = l.insert(p, e);
    lemma_insert_sorted(l, p, e);
    assert forall|i: int| 0 <= i < t.len() implies t[i] == e || exists|k: int|
        0 <= k < l.len() && t[i] == #[trigger] l[k] by {
        if i < p {
            assert(t[i] == l[i]);
        } else if i > p {
            assert(t[i] == l[i - 1]);
        }
    }
    assert forall|i: int| 0 <= i < t.len() implies (#[trigger] t[i]).partition_id is Some by {
        if i < p {
            assert(t[i] == l[i]);
        } else if i > p {
            assert(t[i] == l[i - 1]);
        }
    }
    if disjoint(base) {
        assert forall|i: int, j: int|
            0 <= i < t.len() && 0 <= j < t.len() && i != j implies !overlaps(
            #[trigger] t[i],
            #[trigger] t[j],
        ) by {
            let a = if i < p { i } else { i - 1 };
            let b = if j < p { j } else { j - 1 };
            if i != p && j != p {
                assert(t[i] == l[a] && t[j] == l[b]);
            } else if i == p {
                assert(t[j] == l[b]);
            } else {
                assert(t[i] == l[a]);
            }
        }
    }
    if unique_ids(base) {
        assert forall|i: int, j: int|
            0 <= i < t.len() && 0 <= j < t.len() && i != j implies (#[trigger] t[i]).partition_id
            != (#[trigger] t[j]).partition_id by {
            let a = if i < p { i } else { i - 1 };
            let b = if j < p { j } else { j - 1 };
            if i != p && j != p {
                assert(t[i] == l[a] && t[j] == l[b]);
            } else if i == p {
                assert(t[j] == l[b]);
            } else {
                assert(t[i] == l[a]);
            }
        }
    }
    assert forall|j: int| 0 <= j < t.len() implies base.contains(#[trigger] t[j]) || placed(
        t[j],
        first,
        last,
    ) by {
        if j < p {
            assert(t[j] == l[j]);
        } else if j > p {
            assert(t[j] == l[j - 1]);
        }
    }
}

/// Removing an extent keeps a layout well formed.
proof fn lemma_remove_layout_ok(l: Seq<Extent>, base: Seq<Extent>, first: u64, last: u64, p: int)
    requires
        layout_ok(l, base, first, last),
        0 <= p < l.len(),
    ensures
        layout_ok(l.remove(p), base, first, last),
{
    let t = l.remove(p);
    assert forall|i: int, j: int| 0 <= i <= j < t.len() implies (#[trigger] t[i]).start <= (
    #[trigger] t[j]).start by {
        let a = if i < p { i } else { i + 1 };
        let b = if j < p { j } else { j + 1 };
        assert(t[i] == l[a] && t[j] == l[b]);
    }
    assert forall|i: int| 0 <= i < t.len() implies (#[trigger] t[i]).partition_id is Some by {
        let a = if i < p { i } else { i + 1 };
        assert(t[i] == l[a]);
    }
    if disjoint(base) {
        assert forall|i: int, j: int|
            0 <= i < t.len() && 0 <= j < t.len() && i != j implies !overlaps(
            #[trigger] t[i],
            #[trigger] t[j],
        ) by {
            let a = if i < p { i } else { i + 1 };
            let b = if j < p { j } else { j + 1 };
            assert(t[i] == l[a] && t[j] == l[b]);
        }
    }
    if unique_ids(base) {
        assert forall|i: int, j: int|
            0 <= i < t.len() && 0 <= j < t.len() && i != j implies (#[trigger] t[i]).partition_id
            != (#[trigger] t[j]).partition_id by {
            let a = if i < p { i } else { i + 1 };
            let b = if j < p { j } else { j + 1 };
            assert(t[i] == l[a] && t[j] == l[b]);
        }
    }
    assert forall|j: int| 0 <= j < t.len() implies base.contains(#[trigger] t[j]) || placed(
        t[j],
        first,
        last,
    ) by {
        let a = if j < p { j } else { j + 1 };
        assert(t[j] == l[a]);
    }
}

/// What adding `[start, end)` to `old` does, with result `r` and new state `new`.
pub open spec fn add_post(old: Planner, new: Planner, start: u64, end: u64, r: Result<u32, PlanError>) -> bool {
    let s = snap_start(start);
    let e = snap_end(end);
    let err = add_error(old.layout(), old.first_usable(), old.last_usable(), old.next_id(), s, e);
    let change = ChangeView::Add { start: s, end: e, partition_id: old.next_id() };
    &&& new.same_frame(&old)
    &&& err is Some ==> {
        &&& r == Err::<u32, PlanError>(err->0)
        &&& new.same_plan(&old)
        &&& new.next_id() == old.next_id()
    }
    &&& err is None ==> {
        &&& r == Ok::<u32, PlanError>(old.next_id())
        &&& new.journal() == old.journal().push(change)
        &&& new.history() == old.history().push(new.layout())
        &&& applies(old.layout(), change, new.layout())
        &&& new.layout() == old.layout().insert(insert_pos(old.layout(), s), added_extent(s, e, old.next_id()))
        &&& new.wiped() == old.wiped()
        &&& new.wipe_mark() == old.wipe_mark()
        &&& new.next_id() == old.next_id() + 1
    }
}

/// The first index of `l` whose extent carries the id `id`.
pub open spec fn is_first_with_id(l: Seq<Extent>, id: u32, j: int) -> bool {
    &&& 0 <= j < l.len()
    &&& l[j].partition_id == Some(id)
    &&& forall|k: int| 0 <= k < j ==> (#[trigger] l[k]).partition_id != Some(id)
}

/// What deleting partition `id` from `old` does, with result `r` and new state `new`.
pub open spec fn delete_post(old: Planner, new: Planner, id: u32, r: Result<(), PlanError>) -> bool {
    &&& new.same_frame(&old)
    &&& new.next_id() == old.next_id()
    &&& new.wiped() == old.wiped()
    &&& new.wipe_mark() == old.wipe_mark()
    &&& (forall|j: int| !is_first_with_id(old.layout(), id, j)) ==> {
        &&& r == Err::<(), PlanError>(PlanError::PartitionNotFound { id })
        &&& new.same_plan(&old)
    }
    &&& forall|j: int| is_first_with_id(old.layout(), id, j) ==> {
        let change = ChangeView::Delete {
            partition_id: id,
            original_index: j,
            extent: old.layout()[j],
        };
        &&& r == Ok::<(), PlanError>(())
        &&& new.journal() == old.journal().push(change)
        &&& new.history() == old.history().push(new.layout())
        &&& new.layout() == old.layout().remove(j)
    }
}

/// What wiping `old` does: every partition is deleted, newest journal
/// entries last, and the wipe latch is set.
pub open spec fn initialize_post(old: Planner, new: Planner) -> bool {
    let n = old.journal().len();
    &&& new.same_frame(&old)
    &&& new.wiped()
    &&& new.layout().len() == 0
    &&& new.next_id() == 1
    &&& new.wipe_mark() == if old.wiped() { old.wipe_mark() } else { n as int }
    &&& new.journal() == old.journal() + deletes_of(old.layout())
    &&& new.history().subrange(0, n + 1 as int) == old.history()
}

/// What one undo does to `old`: the last journal entry is reversed; with an
/// empty journal past the wipe mark, the wipe latch is cleared instead.
pub open spec fn undo_post(old: Planner, new: Planner, r: bool) -> bool {
    let n = old.journal().len();
    &&& new.same_frame(&old)
    &&& n > old.wipe_mark() ==> {
        &&& r
        &&& new.journal() == old.journal().drop_last()
        &&& new.history() == old.history().drop_last()
        &&& new.layout() == old.history()[n - 1]
        &&& new.wiped() == old.wiped()
        &&& new.wipe_mark() == old.wipe_mark()
    }
    &&& n <= old.wipe_mark() && old.wiped() ==> {
        &&& r
        &&& !new.wiped()
        &&& new.wipe_mark() == 0
        &&& new.journal() == old.journal()
        &&& new.history() == old.history()
        &&& new.layout() == old.layout()
    }
    &&& n <= old.wipe_mark() && !old.wiped() ==> !r && new.same_plan(&old)
}

impl Planner {
    /// The current layout.
    pub closed spec fn layout(&self) -> Seq<Extent> {
        extents(self.current_regions@)
    }

    /// The layout the planner started from.
    pub closed spec fn original(&self) -> Seq<Extent> {
        extents(self.original_regions@)
    }

    /// The journal of applied changes, oldest first.
    pub closed spec fn journal(&self) -> Seq<ChangeView> {
        change_views(self.changes@)
    }

    /// The journal entries themselves, attributes included.
    pub closed spec fn entries(&self) -> Seq<Change> {
        self.changes@
    }

    /// Whether the partition table is to be created afresh.
    pub closed spec fn wiped(&self) -> bool {
        self.wipe_disk
    }

    /// The journal length at which the wipe latch was set.
    pub closed spec fn wipe_mark(&self) -> int {
        self.wipe_mark as int
    }

    /// The size of the disk in bytes.
    pub closed spec fn disk_size(&self) -> u64 {
        self.disk_size
    }

    /// The first usable byte.
    pub closed spec fn first_usable(&self) -> u64 {
        self.usable_start
    }

    /// The last usable byte.
    pub closed spec fn last_usable(&self) -> u64 {
        self.usable_end
    }

    /// The id the next added partition gets.
    pub closed spec fn next_id(&self) -> u32 {
        self.next_partition_id
    }

    /// The layout after each prefix of the journal.
    pub closed spec fn history(&self) -> Seq<Seq<Extent>> {
        self.history@
    }

    /// Whether the planner has anything to write.
    pub open spec fn dirty(&self) -> bool {
        self.journal().len() > 0 || self.wiped()
    }

    /// The planner's internal invariant.
    #[verifier::opaque]
    pub closed spec fn inv(&self) -> bool {
        let h = self.history@;
        let base = extents(self.original_regions@);
        &&& h.len() == self.changes@.len() + 1
        &&& h[0] == base
        &&& h.last() == extents(self.current_regions@)
        &&& forall|i: int|
            0 <= i < self.changes@.len() ==> applies(
                #[trigger] h[i],
                self.changes@[i]@,
                h[i + 1],
            )
        &&& forall|i: int|
            0 <= i < h.len() ==> layout_ok(#[trigger] h[i], base, self.usable_start, self.usable_end)
        &&& forall|j: int|
            0 <= j < self.current_regions@.len() ==> ({
                let id = (#[trigger] self.current_regions@[j]).partition_id;
                id is Some ==> (id->0 < self.next_partition_id || self.next_partition_id == u32::MAX)
            })
        &&& self.wipe_disk ==> self.wipe_mark <= self.changes@.len()
        &&& !self.wipe_disk ==> self.wipe_mark == 0
        &&& self.usable_start == PARTITION_ALIGNMENT
        &&& self.usable_end < u64::MAX
    }

    /// A planner for `device`, starting from the partitions on it, sorted by
    /// start.
    pub fn new(device: &BlockDevice) -> (r: Planner)
        requires
            device.wf(),
        ensures
            r.inv(),
            r.journal().len() == 0,
            !r.wiped(),
            r.layout() == r.original(),
            sorted_by_start(r.original()),
            r.original().to_multiset() == partition_extents(device.disk.partitions@).to_multiset(),
            r.first_usable() == PARTITION_ALIGNMENT,
            r.disk_size() == device.disk.sectors * SECTOR_SIZE,
            r.last_usable() == last_usable_of((device.disk.sectors * SECTOR_SIZE) as nat),
    {
        proof {
            reveal(Planner::inv);
        }
        let size = device.size();
        let tail: u64 = if size >= PARTITION_ALIGNMENT { size - PARTITION_ALIGNMENT } else { 0 };
        proof {
            crate::sizing::lemma_align_distance(tail as int, PARTITION_ALIGNMENT as int);
        }
        let usable_end = align_down(tail, PARTITION_ALIGNMENT);
        let parts = device.partitions();
        let mut regions: Vec<Region> = Vec::new();
        let mut next_id: u32 = 1;
        let mut i: usize = 0;
        proof {
            assert(extents(regions@) =~= Seq::<Extent>::empty());
            assert(partition_extents(parts@.subrange(0, 0)) =~= Seq::<Extent>::empty());
        }
        while i < parts.len()
            invariant
                i <= parts@.len(),
                device.wf(),
                parts == &device.disk.partitions,
                sorted_by_start(extents(regions@)),
                all_identified(extents(regions@)),
                extents(regions@).to_multiset() == partition_extents(parts@.subrange(0, i as int)).to_multiset(),
                forall|j: int|
                    0 <= j < regions@.len() ==> ({
                        let id = (#[trigger] regions@[j]).partition_id;
                        id is Some ==> (id->0 < next_id || next_id == u32::MAX)
                    }),
            decreases parts@.len() - i,
        {
            let p = &parts[i];
            assert(device.disk.partitions@[i as int].wf());
            let region = Region {
                start: p.start * SECTOR_SIZE,
                end: p.end * SECTOR_SIZE,
                partition_id: Some(p.number),
                attributes: None,
            };
            let pos = insert_position(&regions, region.start);
            proof {
                lemma_extents_insert(regions@, pos as int, region);
                lemma_insert_sorted(extents(regions@), pos as int, region@);
                vstd::seq_lib::to_multiset_insert(extents(regions@), pos as int, region@);
                assert(parts@.subrange(0, i + 1) =~= parts@.subrange(0, i as int).push(parts@[i as int]));
                assert(partition_extents(parts@.subrange(0, i + 1)) =~= partition_extents(
                    parts@.subrange(0, i as int),
                ).push(region@));
                vstd::seq_lib::to_multiset_build(partition_extents(parts@.subrange(0, i as int)), region@);
            }
            let ghost old_regions = regions@;
            let ghost old_next = next_id;
            regions.insert(pos, region);
            if p.number >= next_id {
                next_id = if p.number == u32::MAX { u32::MAX } else { p.number + 1 };
            }
            proof {
                let t = extents(regions@);
                assert forall|j: int| 0 <= j < t.len() implies (#[trigger] t[j]).partition_id is Some by {
                    if j < pos {
                        assert(t[j] == extents(old_regions)[j]);
                    } else if j > pos {
                        assert(t[j] == extents(old_regions)[j - 1]);
                    }
                }
                assert forall|j: int| 0 <= j < regions@.len() implies ({
                    let id = (#[trigger] regions@[j]).partition_id;
                    id is Some ==> (id->0 < next_id || next_id == u32::MAX)
                }) by {
                    if j < pos {
                        assert(regions@[j] == old_regions[j]);
                    } else if j > pos {
                        assert(regions@[j] == old_regions[j - 1]);
                    }
                }
            }
            i = i + 1;
        }
        proof {
            assert(parts@.subrange(0, parts@.len() as int) =~= parts@);
        }
        let original = copy_regions(&regions);
        let ghost base = extents(original@);
        let history: Ghost<Seq<Seq<Extent>>> = Ghost(Seq::empty().push(base));
        let r = Planner {
            disk_size: size,
            usable_start: PARTITION_ALIGNMENT,
            usable_end,
            original_regions: original,
            current_regions: regions,
            changes: Vec::new(),
            wipe_disk: false,
            wipe_mark: 0,
            next_partition_id: next_id,
            history,
        };
        proof {
            assert forall|j: int| 0 <= j < base.len() implies base.contains(#[trigger] base[j])
                || placed(base[j], r.usable_start, r.usable_end) by {
                assert(base.contains(base[j]));
            }
            assert(layout_ok(r.history@[0], base, r.usable_start, r.usable_end));
            assert(change_views(r.changes@) =~= Seq::<ChangeView>::empty());
        }
        r
    }

    /// The planner's fixed settings and original layout are those of `other`.
    pub open spec fn same_frame(&self, other: &Planner) -> bool {
        &&& self.first_usable() == other.first_usable()
        &&& self.last_usable() == other.last_usable()
        &&& self.original() == other.original()
        &&& self.disk_size() == other.disk_size()
    }

    /// The planner holds the same plan as `other`: journal, layout, history
    /// and wipe latch.
    pub open spec fn same_plan(&self, other: &Planner) -> bool {
        &&& self.same_frame(other)
        &&& self.journal() == other.journal()
        &&& self.layout() == other.layout()
        &&& self.history() == other.history()
        &&& self.wiped() == other.wiped()
        &&& self.wipe_mark() == other.wipe_mark()
    }

    /// Plan a partition at `[start, end)` without attributes.
    pub fn plan_add_partition(&mut self, start: u64, end: u64) -> (r: Result<u32, PlanError>)
        requires
            old(self).inv(),
        ensures
            final(self).inv(),
            add_post(*old(self), *final(self), start, end, r),
    {
        self.plan_add_partition_with_attributes(start, end, None)
    }

    /// Plan a partition at `[start, end)` with `attributes`. Both ends are
    /// snapped to the alignment; the aligned interval must lie inside the
    /// usable range, overlap no partition and be non-empty. Returns the new
    /// partition's id.
    pub fn plan_add_partition_with_attributes(
        &mut self,
        start: u64,
        end: u64,
        attributes: Option<PartitionAttributes>,
    ) -> (r: Result<u32, PlanError>)
        requires
            old(self).inv(),
        ensures
            final(self).inv(),
            add_post(*old(self), *final(self), start, end, r),
    {
        proof {
            reveal(Planner::inv);
        }
        proof {
            crate::sizing::lemma_align_distance(start as int, PARTITION_ALIGNMENT as int);
            crate::sizing::lemma_align_distance(end as int, PARTITION_ALIGNMENT as int);
            crate::sizing::lemma_align_results_aligned(start as int, PARTITION_ALIGNMENT as int);
            crate::sizing::lemma_align_results_aligned(end as int, PARTITION_ALIGNMENT as int);
        }
        let s = if start <= u64::MAX - PARTITION_ALIGNMENT {
            align_up(start, PARTITION_ALIGNMENT)
        } else {
            u64::MAX
        };
        let e = if end <= u64::MAX - PARTITION_ALIGNMENT {
            align_down(end, PARTITION_ALIGNMENT)
        } else {
            u64::MAX
        };
        let ghost x = Extent { start: s, end: e, partition_id: None };
        assert(s == snap_start(start) && e == snap_end(end));
        let ghost l = extents(self.current_regions@);
        if s < self.usable_start || e > self.usable_end {
            return Err(PlanError::RegionOutOfBounds { start: s, end: e });
        }
        let mut i: usize = 0;
        while i < self.current_regions.len()
            invariant
                *self == *old(self),
                self.inv(),
                x == (Extent { start: s, end: e, partition_id: None }),
                s == snap_start(start),
                e == snap_end(end),
                self.usable_start <= s,
                e <= self.usable_end,
                i <= self.current_regions@.len(),
                l == extents(self.current_regions@),
                forall|k: int| 0 <= k < i ==> !overlaps(#[trigger] l[k], x),
            decreases self.current_regions@.len() - i,
        {
            let r = &self.current_regions[i];
            if s < r.end && r.start < e {
                let id = match r.partition_id {
                    Some(id) => id,
                    None => 0,
                };
                proof {
                    assert(l[i as int] == r@);
                    assert(is_first_overlap(l, x, i as int));
                    let j = choose|j: int| is_first_overlap(l, x, j);
                    if j < i {
                        assert(!overlaps(l[j], x));
                    } else if j > i {
                        assert(!overlaps(l[i as int], x));
                    }
                    assert(j == i as int);
                    assert(id == id_of(l[j]));
                    assert(snap_start(start) == s && snap_end(end) == e);
                    assert(add_error(l, self.usable_start, self.usable_end, self.next_partition_id, s, e)
                        == Some(PlanError::PartitionOverlap { start: s, end: e, id }));
                }
                return Err(PlanError::PartitionOverlap { start: s, end: e, id });
            }
            proof {
                assert(l[i as int] == r@);
            }
            i = i + 1;
        }
        proof {
            if exists|j: int| is_first_overlap(l, x, j) {
                let j = choose|j: int| is_first_overlap(l, x, j);
                assert(!overlaps(l[j], x));
            }
        }
        if s >= e {
            return Err(PlanError::InvalidSize { start: s, end: e });
        }
        if self.next_partition_id == u32::MAX {
            return Err(PlanError::TooManyPartitions);
        }
        let id = self.next_partition_id;
        let pos = insert_position(&self.current_regions, s);
        let region = Region { start: s, end: e, partition_id: Some(id), attributes: attributes.clone() };
        let ghost old_self = *self;
        let ghost ext = added_extent(s, e, id);
        let ghost old_regions = self.current_regions@;
        self.current_regions.insert(pos, region);
        self.changes.push(Change::AddPartition { start: s, end: e, partition_id: id, attributes });
        self.next_partition_id = id + 1;
        self.history = Ghost(self.history@.push(extents(self.current_regions@)));
        proof {
            let h0 = old_self.history@;
            let h = self.history@;
            let n = old_self.changes@.len() as int;
            lemma_extents_insert(old_regions, pos as int, region);
            assert(region@ == ext);
            assert forall|k: int| 0 <= k < l.len() implies !overlaps(#[trigger] l[k], ext) by {
                assert(!overlaps(l[k], x));
            }
            assert forall|k: int| 0 <= k < l.len() implies (#[trigger] l[k]).partition_id
                != ext.partition_id by {
                assert(old_regions[k]@ == l[k]);
                assert(old_self.current_regions@[k] == old_regions[k]);
            }
            assert forall|k: int| 0 <= k < pos implies (#[trigger] l[k]).start <= ext.start by {
                assert(l[k] == old_regions[k]@);
            }
            assert forall|k: int| pos <= k < l.len() implies (#[trigger] l[k]).start > ext.start by {
                assert(l[k] == old_regions[k]@);
            }
            assert(layout_ok(h0[n], extents(self.original_regions@), self.usable_start, self.usable_end));
            lemma_insert_pos(l, s, pos as int);
            lemma_insert_layout_ok(
                l,
                extents(self.original_regions@),
                self.usable_start,
                self.usable_end,
                pos as int,
                ext,
            );
            assert(applies(l, ChangeView::Add { start: s, end: e, partition_id: id }, h[n + 1]));
            assert forall|i: int| 0 <= i < self.changes@.len() implies applies(
                #[trigger] h[i],
                self.changes@[i]@,
                h[i + 1],
            ) by {
                if i < n {
                    assert(h[i] == h0[i] && h[i + 1] == h0[i + 1]);
                    assert(self.changes@[i] == old_self.changes@[i]);
                }
            }
            assert forall|i: int| 0 <= i < h.len() implies layout_ok(
                #[trigger] h[i],
                extents(self.original_regions@),
                self.usable_start,
                self.usable_end,
            ) by {
                if i < h0.len() {
                    assert(h[i] == h0[i]);
                }
            }
            assert forall|j: int| 0 <= j < self.current_regions@.len() implies ({
                let id = (#[trigger] self.current_regions@[j]).partition_id;
                id is Some ==> (id->0 < self.next_partition_id || self.next_partition_id == u32::MAX)
            }) by {
                if j < pos {
                    assert(self.current_regions@[j] == old_regions[j]);
                } else if j > pos {
                    assert(self.current_regions@[j] == old_regions[j - 1]);
                }
            }
            assert(change_views(self.changes@) =~= change_views(old_self.changes@).push(
                ChangeView::Add { start: s, end: e, partition_id: id },
            ));
        }
        Ok(id)
    }

    /// Plan the removal of partition `id`; the journal keeps what is needed
    /// to put it back.
    pub fn plan_delete_partition(&mut self, id: u32) -> (r: Result<(), PlanError>)
        requires
            old(self).inv(),
        ensures
            final(self).inv(),
            delete_post(*old(self), *final(self), id, r),
    {
        match find_id(&self.current_regions, id) {
            None => Err(PlanError::PartitionNotFound { id }),
            Some(i) => {
                let ghost l = extents(self.current_regions@);
                self.delete_at(i);
                proof {
                    assert forall|j: int| is_first_with_id(l, id, j) implies j == i by {
                        if j < i {
                            assert(l[j].partition_id != Some(id));
                        } else if j > i {
                            assert(l[i as int].partition_id == Some(id));
                        }
                    }
                }
                Ok(())
            },
        }
    }

    /// Remove the partition at index `i` of the layout and journal it.
    fn delete_at(&mut self, i: usize)
        requires
            old(self).inv(),
            i < old(self).current_regions@.len(),
        ensures
            final(self).inv(),
            final(self).same_frame(old(self)),
            final(self).next_id() == old(self).next_id(),
            final(self).wiped() == old(self).wiped(),
            final(self).wipe_mark() == old(self).wipe_mark(),
            final(self).journal() == old(self).journal().push(
                ChangeView::Delete {
                    partition_id: id_of(old(self).layout()[i as int]),
                    original_index: i as int,
                    extent: old(self).layout()[i as int],
                },
            ),
            final(self).history() == old(self).history().push(final(self).layout()),
            final(self).layout() == old(self).layout().remove(i as int),
    {
        proof {
            reveal(Planner::inv);
        }
        let ghost old_self = *self;
        let ghost l = extents(self.current_regions@);
        let region = self.current_regions.remove(i);
        let id = match region.partition_id {
            Some(k) => k,
            None => 0,
        };
        proof {
            lemma_extents_remove(old_self.current_regions@, i as int);
            assert(layout_ok(old_self.history@.last(), extents(self.original_regions@), self.usable_start, self.usable_end));
            assert(l[i as int] == region@);
            assert(region.partition_id is Some);
        }
        self.changes.push(Change::DeletePartition { partition_id: id, original_index: i, region });
        self.history = Ghost(self.history@.push(extents(self.current_regions@)));
        proof {
            let h0 = old_self.history@;
            let h = self.history@;
            let n = old_self.changes@.len() as int;
            let base = extents(self.original_regions@);
            lemma_remove_layout_ok(l, base, self.usable_start, self.usable_end, i as int);
            assert forall|k: int| 0 <= k < self.changes@.len() implies applies(
                #[trigger] h[k],
                self.changes@[k]@,
                h[k + 1],
            ) by {
                if k < n {
                    assert(h[k] == h0[k] && h[k + 1] == h0[k + 1]);
                    assert(self.changes@[k] == old_self.changes@[k]);
                }
            }
            assert forall|k: int| 0 <= k < h.len() implies layout_ok(
                #[trigger] h[k],
                base,
                self.usable_start,
                self.usable_end,
            ) by {
                if k < h0.len() {
                    assert(h[k] == h0[k]);
                }
            }
            assert forall|j: int| 0 <= j < self.current_regions@.len() implies ({
                let id = (#[trigger] self.current_regions@[j]).partition_id;
                id is Some ==> (id->0 < self.next_partition_id || self.next_partition_id == u32::MAX)
            }) by {
                if j < i {
                    assert(self.current_regions@[j] == old_self.current_regions@[j]);
                } else {
                    assert(self.current_regions@[j] == old_self.current_regions@[j + 1]);
                }
            }
            assert(change_views(self.changes@) =~= change_views(old_self.changes@).push(
                ChangeView::Delete { partition_id: id, original_index: i as int, extent: l[i as int] },
            ));
        }
    }

    /// Plan a fresh partition table: set the wipe latch and delete every
    /// partition, last first, journaling each deletion. Ids start again from 1.
    pub fn plan_initialize_disk(&mut self) -> (r: Result<(), PlanError>)
        requires
            old(self).inv(),
        ensures
            final(self).inv(),
            initialize_post(*old(self), *final(self)),
            r is Ok,
    {
        proof {
            reveal(Planner::inv);
        }
        if !self.wipe_disk {
            self.wipe_mark = self.changes.len();
            self.wipe_disk = true;
        }
        let ghost n0 = old(self).journal().len() as int;
        let ghost count = old(self).layout().len();
        proof {
            assert(self.history() == old(self).history());
            assert(self.journal() == old(self).journal());
        }
        while self.current_regions.len() > 0
            invariant
                self.inv(),
                self.wiped(),
                self.same_frame(old(self)),
                self.wipe_mark() == if old(self).wiped() { old(self).wipe_mark() } else { n0 },
                n0 == old(self).journal().len(),
                n0 <= self.journal().len(),
                self.history().len() == self.journal().len() + 1,
                count == old(self).layout().len(),
                self.journal().len() + self.layout().len() == n0 + count,
                self.history().subrange(0, n0 + 1) == old(self).history(),
                self.journal().subrange(0, n0) == old(self).journal(),
                self.journal() + deletes_of(self.layout()) == old(self).journal() + deletes_of(old(self).layout()),
            decreases self.current_regions@.len(),
        {
            let idx = self.current_regions.len() - 1;
            let ghost before = *self;
            self.delete_at(idx);
            proof {
                assert(self.history().subrange(0, n0 + 1) =~= before.history().subrange(0, n0 + 1));
                assert(self.journal().subrange(0, n0) =~= before.journal().subrange(0, n0));
                let l = before.layout();
                assert(self.layout() =~= l.drop_last());
                assert(self.journal() + deletes_of(self.layout()) =~= before.journal() + deletes_of(l));
            }
        }
        self.next_partition_id = 1;
        proof {
            assert(deletes_of(self.layout()) =~= Seq::<ChangeView>::empty());
            assert(self.journal() =~= self.journal() + deletes_of(self.layout()));
        }
        Ok(())
    }

    /// Reverse the last journaled change. Once the journal is back at the
    /// point where the disk was wiped, clear the wipe latch instead. Returns
    /// whether anything was undone.
    pub fn undo(&mut self) -> (r: bool)
        requires
            old(self).inv(),
        ensures
            final(self).inv(),
            undo_post(*old(self), *final(self), r),
    {
        if self.changes.len() > self.wipe_mark {
            let ghost old_self = *self;
            let ghost h0 = self.history@;
            let ghost n = self.changes@.len() as int;
            let ghost prev = h0[n - 1];
            let change = match self.changes.pop() {
                Some(c) => c,
                None => {
                    proof {
                        assert(false);
                    }
                    return false;
                },
            };
            proof {
                lemma_last_step(&old_self);
                assert(change == old_self.changes@[n - 1]);
            }
            match change {
                Change::AddPartition { start, end, partition_id, .. } => {
                    let ghost e = added_extent(start, end, partition_id);
                    let ghost p = choose|p: int| 0 <= p <= prev.len() && h0[n] == prev.insert(p, e);
                    proof {
                        assert(0 <= p <= prev.len() && h0[n] == prev.insert(p, e));
                        prev.insert_ensures(p, e);
                    }
                    remove_added(&mut self.current_regions, Ghost(prev), Ghost(p), start, end, partition_id);
                    proof {
                        old_self.current_regions@.remove_ensures(p);
                        assert forall|j: int| 0 <= j < self.current_regions@.len() implies ({
                            let id = (#[trigger] self.current_regions@[j]).partition_id;
                            id is Some ==> (id->0 < self.next_partition_id || self.next_partition_id
                                == u32::MAX)
                        }) by {
                            if j < p {
                                assert(self.current_regions@[j] == old_self.current_regions@[j]);
                            } else {
                                assert(self.current_regions@[j] == old_self.current_regions@[j + 1]);
                            }
                        }
                    }
                },
                Change::DeletePartition { partition_id, original_index, region } => {
                    proof {
                        prev.remove_ensures(original_index as int);
                        assert(extents(self.current_regions@).len() == self.current_regions@.len());
                    }
                    self.current_regions.insert(original_index, region);
                    if partition_id >= self.next_partition_id {
                        self.next_partition_id = if partition_id == u32::MAX {
                            u32::MAX
                        } else {
                            partition_id + 1
                        };
                    }
                    proof {
                        lemma_extents_insert(old_self.current_regions@, original_index as int, region);
                        assert(extents(self.current_regions@) =~= prev);
                        assert forall|j: int| 0 <= j < self.current_regions@.len() implies ({
                            let id = (#[trigger] self.current_regions@[j]).partition_id;
                            id is Some ==> (id->0 < self.next_partition_id || self.next_partition_id
                                == u32::MAX)
                        }) by {
                            if j < original_index {
                                assert(self.current_regions@[j] == old_self.current_regions@[j]);
                            } else if j > original_index {
                                assert(self.current_regions@[j] == old_self.current_regions@[j - 1]);
                            }
                        }
                    }
                },
            }
            self.history = Ghost(self.history@.drop_last());
            proof {
                lemma_undo_inv(old_self, *self);
                assert(change_views(self.changes@) =~= change_views(old_self.changes@).drop_last());
            }
            true
        } else if self.wipe_disk {
            let ghost old_self = *self;
            self.wipe_disk = false;
            self.wipe_mark = 0;
            proof {
                lemma_clear_wipe_inv(old_self, *self);
            }
            true
        } else {
            false
        }
    }

    /// A human-readable description of the plan: the wipe, if any, then one
    /// numbered line per journal entry.
    pub fn describe_changes(&self) -> (r: String)
        requires
            self.inv(),
        ensures
            r@ == changes_text(self.journal(), self.wiped(), self.disk_size()),
    {
        proof {
            lemma_journal_adds(self);
        }
        if self.changes.len() == 0 && !self.wipe_disk {
            return String::from_str("No changes planned");
        }
        let mut desc = String::from_str("Planned changes:\n");
        if self.wipe_disk {
            desc.append("  Create a new partition table\n");
        }
        let ghost head = desc@;
        let ghost j = self.journal();
        let mut i: usize = 0;
        proof {
            assert(j.subrange(0, 0) =~= Seq::<ChangeView>::empty());
        }
        while i < self.changes.len()
            invariant
                i <= self.changes@.len(),
                j == self.journal(),
                j == change_views(self.changes@),
                forall|k: int| 0 <= k < j.len() ==> ((#[trigger] j[k]) matches ChangeView::Add { start, end, .. } ==> start < end),
                desc@ == head + change_lines(j.subrange(0, i as int), self.disk_size),
            decreases self.changes@.len() - i,
        {
            let ghost t = j.subrange(0, i + 1);
            proof {
                assert(t.drop_last() =~= j.subrange(0, i as int));
                assert(t.last() == self.changes@[i as int]@);
            }
            desc.append("  ");
            push_decimal(&mut desc, (i + 1) as u64);
            desc.append(": ");
            proof {
                assert(j[i as int] == self.changes@[i as int]@);
            }
            push_change(&mut desc, &self.changes[i], self.disk_size);
            desc.append("\n");
            proof {
                assert(desc@ =~= head + change_lines(t, self.disk_size));
            }
            i = i + 1;
        }
        proof {
            assert(j.subrange(0, j.len() as int) =~= j);
            assert(desc@ =~= changes_text(self.journal(), self.wiped(), self.disk_size()));
        }
        desc
    }

    /// Whether there is anything to write: a journaled change or the wipe latch.
    pub fn has_changes(&self) -> (r: bool)
        ensures
            r == self.dirty(),
    {
        self.changes.len() > 0 || self.wipe_disk
    }

    /// Whether the partition table is to be created afresh.
    pub fn wipe_disk(&self) -> (r: bool)
        ensures
            r == self.wiped(),
    {
        self.wipe_disk
    }

    /// The size in bytes of the disk the plan was made for.
    pub fn device_size(&self) -> (r: u64)
        ensures
            r == self.disk_size(),
    {
        self.disk_size
    }

    /// The first and last usable byte.
    pub fn offsets(&self) -> (r: (u64, u64))
        ensures
            r == (self.first_usable(), self.last_usable()),
    {
        (self.usable_start, self.usable_end)
    }

    /// The journal of applied changes, oldest first.
    pub fn changes(&self) -> (r: &Vec<Change>)
        ensures
            change_views(r@) == self.journal(),
            r@ == self.entries(),
    {
        &self.changes
    }

    /// A copy of the current layout.
    pub fn current_layout(&self) -> (r: Vec<Region>)
        ensures
            extents(r@) == self.layout(),
    {
        proof {
            reveal(Planner::inv);
        }
        copy_regions(&self.current_regions)
    }

    /// A copy of the layout the planner started from.
    pub fn original_layout(&self) -> (r: Vec<Region>)
        ensures
            extents(r@) == self.original(),
    {
        copy_regions(&self.original_regions)
    }
}

/// In every state a planner reaches, its layout is sorted by start and each
/// partition in it is either one the disk already had or one the planner
/// placed: aligned, non-empty and inside the usable range. If the disk's own
/// partitions were pairwise disjoint with distinct ids, the current ones are
/// too.
pub proof fn lemma_layout_invariant(p: &Planner)
    requires
        p.inv(),
    ensures
        sorted_by_start(p.layout()),
        all_identified(p.layout()),
        forall|j: int|
            0 <= j < p.layout().len() ==> p.original().contains(#[trigger] p.layout()[j]) || placed(
                p.layout()[j],
                p.first_usable(),
                p.last_usable(),
            ),
        disjoint(p.original()) ==> disjoint(p.layout()),
        unique_ids(p.original()) ==> unique_ids(p.layout()),
{
    reveal(Planner::inv);
    assert(layout_ok(p.history@[p.history@.len() - 1], extents(p.original_regions@), p.usable_start, p.usable_end));
}

/// The shape of a planner's history: one layout per journal prefix, the
/// last being the current one, and the wipe mark inside the journal.
pub proof fn lemma_history_shape(p: &Planner)
    requires
        p.inv(),
    ensures
        p.history().len() == p.journal().len() + 1,
        p.history().last() == p.layout(),
        p.history()[0] == p.original(),
        p.wiped() ==> 0 <= p.wipe_mark() <= p.journal().len(),
        !p.wiped() ==> p.wipe_mark() == 0,
        p.last_usable() < u64::MAX,
{
    reveal(Planner::inv);
}

/// Every addition in the journal is of a non-empty interval, and the journal
/// is the view of its entries.
pub proof fn lemma_journal_adds(p: &Planner)
    requires
        p.inv(),
    ensures
        p.journal() == change_views(p.entries()),
        forall|i: int|
            0 <= i < p.journal().len() ==> ((#[trigger] p.journal()[i]) matches ChangeView::Add { start, end, .. } ==> start < end),
{
    reveal(Planner::inv);
    assert forall|i: int| 0 <= i < p.journal().len() implies ((#[trigger] p.journal()[i]) matches ChangeView::Add { start, end, .. } ==> start < end) by {
        assert(applies(p.history@[i], p.changes@[i]@, p.history@[i + 1]));
        assert(p.journal()[i] == p.changes@[i]@);
    }
}

/// Undoing until the planner has nothing left to write restores the layout
/// it started from: a planner without changes holds its original layout.
pub proof fn lemma_clean_planner_is_original(p: &Planner)
    requires
        p.inv(),
        !p.dirty(),
    ensures
        p.layout() == p.original(),
{
    reveal(Planner::inv);
}

/// Each undo on a planner with changes strictly shrinks what is left to
/// undo, so undoing until clean terminates.
pub proof fn lemma_undo_progress(old_p: &Planner, new_p: &Planner, r: bool)
    requires
        old_p.inv(),
        old_p.dirty(),
        undo_post(*old_p, *new_p, r),
    ensures
        r,
        new_p.journal().len() + (if new_p.wiped() { 1int } else { 0 }) < old_p.journal().len() + (
        if old_p.wiped() { 1int } else { 0 }),
{
    reveal(Planner::inv);
}

/// What the invariant says of the last journal entry.
proof fn lemma_last_step(p: &Planner)
    requires
        p.inv(),
        p.changes@.len() > 0,
    ensures
        p.history@.len() == p.changes@.len() + 1,
        p.history@[p.changes@.len() as int] == extents(p.current_regions@),
        applies(p.history@[p.changes@.len() - 1], p.changes@[p.changes@.len() - 1]@, p.history@[p.changes@.len() as int]),
        p.changes@.len() >= p.wipe_mark,
        forall|j: int|
            0 <= j < p.current_regions@.len() ==> ({
                let id = (#[trigger] p.current_regions@[j]).partition_id;
                id is Some ==> (id->0 < p.next_partition_id || p.next_partition_id == u32::MAX)
            }),
{
    reveal(Planner::inv);
}

/// Clearing the wipe latch once the journal is back at the wipe mark keeps
/// the invariant.
proof fn lemma_clear_wipe_inv(old: Planner, new: Planner)
    requires
        old.inv(),
        new == (Planner { wipe_disk: false, wipe_mark: 0, ..old }),
    ensures
        new.inv(),
{
    reveal(Planner::inv);
}

/// Popping the last journal entry and returning to the layout before it
/// keeps the invariant.
proof fn lemma_undo_inv(old: Planner, new: Planner)
    requires
        old.inv(),
        old.changes@.len() > old.wipe_mark,
        new.changes@ == old.changes@.drop_last(),
        new.history@ == old.history@.drop_last(),
        extents(new.current_regions@) == old.history@[old.changes@.len() - 1],
        new.original_regions@ == old.original_regions@,
        new.usable_start == old.usable_start,
        new.usable_end == old.usable_end,
        new.wipe_disk == old.wipe_disk,
        new.wipe_mark == old.wipe_mark,
        forall|j: int|
            0 <= j < new.current_regions@.len() ==> ({
                let id = (#[trigger] new.current_regions@[j]).partition_id;
                id is Some ==> (id->0 < new.next_partition_id || new.next_partition_id == u32::MAX)
            }),
    ensures
        new.inv(),
{
    reveal(Planner::inv);
    let h0 = old.history@;
    let h = new.history@;
    assert forall|k: int| 0 <= k < new.changes@.len() implies applies(
        #[trigger] h[k],
        new.changes@[k]@,
        h[k + 1],
    ) by {
        assert(h[k] == h0[k] && h[k + 1] == h0[k + 1]);
        assert(new.changes@[k] == old.changes@[k]);
    }
    assert forall|k: int| 0 <= k < h.len() implies layout_ok(
        #[trigger] h[k],
        extents(new.original_regions@),
        new.usable_start,
        new.usable_end,
    ) by {
        assert(h[k] == h0[k]);
    }
}

/// The index of the first region carrying partition id `id`, if any.
fn find_id(regions: &Vec<Region>, id: u32) -> (r: Option<usize>)
    ensures
        r is Some ==> is_first_with_id(extents(regions@), id, r->0 as int),
        r is None ==> forall|j: int| !is_first_with_id(extents(regions@), id, j),
{
    let ghost l = extents(regions@);
    let mut i: usize = 0;
    while i < regions.len()
        invariant
            i <= regions@.len(),
            l == extents(regions@),
            forall|k: int| 0 <= k < i ==> (#[trigger] l[k]).partition_id != Some(id),
        decreases regions@.len() - i,
    {
        let found = match regions[i].partition_id {
            Some(k) => k == id,
            None => false,
        };
        proof {
            assert(l[i as int] == regions@[i as int]@);
        }
        if found {
            return Some(i);
        }
        i = i + 1;
    }
    proof {
        assert forall|j: int| !is_first_with_id(l, id, j) by {
            if 0 <= j < l.len() {
                assert(l[j].partition_id != Some(id));
            }
        }
    }
    None
}

/// Take out of `regions` the extent that an add inserted at `p` of `prev`.
fn remove_added(
    regions: &mut Vec<Region>,
    Ghost(prev): Ghost<Seq<Extent>>,
    Ghost(p): Ghost<int>,
    start: u64,
    end: u64,
    id: u32,
)
    requires
        0 <= p <= prev.len(),
        extents(old(regions)@) == prev.insert(p, added_extent(start, end, id)),
        start < end,
        forall|j: int| 0 <= j < prev.len() ==> !overlaps(#[trigger] prev[j], added_extent(start, end, id)),
    ensures
        extents(final(regions)@) == prev,
        final(regions)@ == old(regions)@.remove(p),
{
    let ghost e = added_extent(start, end, id);
    let ghost cur = extents(regions@);
    proof {
        prev.insert_ensures(p, e);
    }
    let mut i: usize = 0;
    while i < regions.len()
        invariant
            i <= p,
            p <= prev.len(),
            0 <= p < regions@.len(),
            cur == extents(regions@),
            cur == prev.insert(p, e),
            regions@ == old(regions)@,
            cur[p] == e,
            forall|k: int| 0 <= k < p ==> cur[k] == #[trigger] prev[k],
            e == added_extent(start, end, id),
            start < end,
            forall|j: int| 0 <= j < prev.len() ==> !overlaps(#[trigger] prev[j], e),
        decreases regions@.len() - i,
    {
        let r = &regions[i];
        let hit = r.start == start && r.end == end && match r.partition_id {
            Some(k) => k == id,
            None => false,
        };
        proof {
            assert(cur[i as int] == r@);
            if (i as int) < p {
                assert(cur[i as int] == prev[i as int]);
                assert(!overlaps(prev[i as int], e));
            }
        }
        if hit {
            proof {
                assert(i as int == p);
            }
            let ghost before = regions@;
            regions.remove(i);
            proof {
                lemma_extents_remove(before, p);
                assert(prev.insert(p, e).remove(p) =~= prev);
            }
            return;
        }
        i = i + 1;
    }
}

/// Append the description of one journal entry.
fn push_change(desc: &mut String, c: &Change, disk_size: u64)
    requires
        c@ matches ChangeView::Add { start, end, .. } ==> start < end,
    ensures
        final(desc)@ == old(desc)@ + change_text(c@, disk_size),
{
    let ghost before = desc@;
    match c {
        Change::AddPartition { start, end, partition_id, .. } => {
            desc.append("Add partition ");
            push_decimal(desc, *partition_id as u64);
            desc.append(": ");
            let region = Region { start: *start, end: *end, partition_id: Some(*partition_id), attributes: None };
            let text = region.describe(disk_size);
            desc.append(text.as_str());
        },
        Change::DeletePartition { partition_id, .. } => {
            desc.append("Delete partition ");
            push_decimal(desc, *partition_id as u64);
        },
    }
    proof {
        assert(desc@ =~= before + change_text(c@, disk_size));
    }
}

/// A copy of a sequence of regions.
fn copy_regions(v: &Vec<Region>) -> (r: Vec<Region>)
    ensures
        extents(r@) == extents(v@),
{
    let mut out: Vec<Region> = Vec::new();
    let mut k: usize = 0;
    while k < v.len()
        invariant
            k <= v@.len(),
            extents(out@) == extents(v@).subrange(0, k as int),
        decreases v@.len() - k,
    {
        let d = v[k].duplicate();
        let ghost before = out@;
        out.push(d);
        proof {
            assert(out@ == before.push(d));
            assert(extents(out@) =~= extents(before).push(d@));
            assert(extents(out@) =~= extents(v@).subrange(0, k + 1));
        }
        k = k + 1;
    }
    proof {
        assert(extents(v@).subrange(0, v@.len() as int) =~= extents(v@));
    }
    out
}

} // verus!
