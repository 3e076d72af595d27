//! Allocation strategies: turning size requests into planner operations,
//! all or nothing.

use vstd::prelude::*;
use crate::attributes::PartitionAttributes;
use crate::sizing::{format_size, size_text};
use crate::text::{decimal_text, push_decimal};
use crate::planner::{
    add_error, added_extent, deletes_of, insert_pos, region_text, snap_end, snap_start,
    ChangeView, Extent, PlanError, Planner, Region,
};

verus! {

/// Where a strategy places its partitions.
#[derive(Clone, Debug)]
pub enum AllocationStrategy {
    /// Wipe the disk and use all of its usable range.
    InitializeWholeDisk,
    /// Use the largest free region of the existing table.
    LargestFree,
    /// Use the first free region of the existing table.
    FirstFit,
    /// Use this region of the existing table.
    SpecificRegion(Region),
}

/// How large a requested partition should be.
#[derive(Clone, Copy, Debug, PartialEq, Eq, Structural)]
pub enum SizeRequirement {
    /// Exactly this many bytes.
    Exact(u64),
    /// At least this many bytes, more if there is room.
    AtLeast(u64),
    /// Between `min` and `max` bytes.
    Range { min: u64, max: u64 },
    /// Whatever space is left.
    Remaining,
}

/// A partition that a strategy is asked to plan.
#[derive(Clone, Debug)]
pub struct PartitionRequest {
    pub size: SizeRequirement,
    pub attributes: Option<PartitionAttributes>,
}

/// An allocation mode and an ordered list of partition requests.
#[derive(Clone, Debug)]
pub struct Strategy {
    allocation: AllocationStrategy,
    requests: Vec<PartitionRequest>,
}

/// The planner's state as far as a strategy changes it.
pub struct PlanState {
    pub layout: Seq<Extent>,
    pub journal: Seq<ChangeView>,
    pub next: u32,
}

/// The state of a planner.
pub open spec fn state_of(p: Planner) -> PlanState {
    PlanState { layout: p.layout(), journal: p.journal(), next: p.next_id() }
}

/// The state after wiping: no partitions, one deletion journaled for each,
/// ids starting again from 1.
pub open spec fn init_state(st: PlanState) -> PlanState {
    PlanState { layout: Seq::empty(), journal: st.journal + deletes_of(st.layout), next: 1 }
}

/// The state after asking the planner for the interval `[s, e)`.
pub open spec fn model_add(st: PlanState, first: u64, last: u64, s: u64, e: u64) -> Result<PlanState, PlanError> {
    let a = snap_start(s);
    let b = snap_end(e);
    match add_error(st.layout, first, last, st.next, a, b) {
        Some(err) => Err(err),
        None => Ok(
            PlanState {
                layout: st.layout.insert(insert_pos(st.layout, a), added_extent(a, b, st.next)),
                journal: st.journal.push(ChangeView::Add { start: a, end: b, partition_id: st.next }),
                next: (st.next + 1) as u32,
            },
        ),
    }
}

/// The state after asking for each interval in turn, or the first refusal.
pub open spec fn model_adds(st: PlanState, first: u64, last: u64, ivs: Seq<(u64, u64, usize)>) -> Result<
    PlanState,
    PlanError,
>
    decreases ivs.len(),
{
    if ivs.len() == 0 {
        Ok(st)
    } else {
        match model_add(st, first, last, ivs[0].0, ivs[0].1) {
            Err(e) => Err(e),
            Ok(st2) => model_adds(st2, first, last, ivs.drop_first(), ),
        }
    }
}

/// The free gaps of a sorted layout between `cur` and `last`.
pub open spec fn gaps_from(l: Seq<Extent>, cur: u64, last: u64) -> Seq<Extent>
    decreases l.len(),
{
    if l.len() == 0 {
        if cur < last {
            seq![Extent { start: cur, end: last, partition_id: None }]
        } else {
            Seq::empty()
        }
    } else {
        let rest = gaps_from(l.drop_first(), l[0].end, last);
        if l[0].start > cur {
            seq![Extent { start: cur, end: l[0].start, partition_id: None }] + rest
        } else {
            rest
        }
    }
}

/// The length of an extent.
pub open spec fn extent_size(e: Extent) -> int {
    e.end - e.start
}

/// The index of the last of the largest extents of a non-empty sequence.
pub open spec fn last_largest(g: Seq<Extent>) -> int
    decreases g.len(),
{
    if g.len() <= 1 {
        0
    } else {
        let k = last_largest(g.drop_last());
        if extent_size(g.last()) >= extent_size(g[k]) {
            g.len() - 1
        } else {
            k
        }
    }
}

/// The region that a strategy allocates within, given the layout before it
/// runs and the usable range.
pub open spec fn target_of(alloc: AllocationStrategy, l: Seq<Extent>, first: u64, last: u64) -> Option<(u64, u64)> {
    let g = gaps_from(l, first, last);
    match alloc {
        AllocationStrategy::InitializeWholeDisk => Some((first, last)),
        AllocationStrategy::LargestFree => if g.len() == 0 {
            None
        } else {
            Some((g[last_largest(g)].start, g[last_largest(g)].end))
        },
        AllocationStrategy::FirstFit => if g.len() == 0 {
            None
        } else {
            Some((g[0].start, g[0].end))
        },
        AllocationStrategy::SpecificRegion(r) => Some((r.start, r.end)),
    }
}

/// The exact requests, with their indices, in order.
pub open spec fn exact_entries(sizes: Seq<SizeRequirement>) -> Seq<(u64, usize)>
    decreases sizes.len(),
{
    if sizes.len() == 0 {
        Seq::empty()
    } else {
        let rest = exact_entries(sizes.drop_last());
        match sizes.last() {
            SizeRequirement::Exact(n) => rest.push((n, (sizes.len() - 1) as usize)),
            _ => rest,
        }
    }
}

/// The flexible requests, as minimum, optional maximum and index, in order.
/// `Remaining` has minimum 0 and no maximum.
pub open spec fn flex_entries(sizes: Seq<SizeRequirement>) -> Seq<(u64, Option<u64>, usize)>
    decreases sizes.len(),
{
    if sizes.len() == 0 {
        Seq::empty()
    } else {
        let rest = flex_entries(sizes.drop_last());
        let i = (sizes.len() - 1) as usize;
        match sizes.last() {
            SizeRequirement::Exact(_) => rest,
            SizeRequirement::AtLeast(min) => rest.push((min, None, i)),
            SizeRequirement::Range { min, max } => rest.push((min, Some(max), i)),
            SizeRequirement::Remaining => rest.push((0, None, i)),
        }
    }
}

/// The sum of the exact sizes.
pub open spec fn exact_sum(e: Seq<(u64, usize)>) -> int
    decreases e.len(),
{
    if e.len() == 0 {
        0
    } else {
        e[0].0 + exact_sum(e.drop_first())
    }
}

/// The sum of the flexible minimums.
pub open spec fn min_sum(f: Seq<(u64, Option<u64>, usize)>) -> int
    decreases f.len(),
{
    if f.len() == 0 {
        0
    } else {
        f[0].0 + min_sum(f.drop_first())
    }
}

/// The exact partitions laid end to end from `cur`.
pub open spec fn fixed_intervals(e: Seq<(u64, usize)>, cur: int) -> Seq<(u64, u64, usize)>
    decreases e.len(),
{
    if e.len() == 0 {
        Seq::empty()
    } else {
        seq![(cur as u64, (cur + e[0].0) as u64, e[0].1)] + fixed_intervals(e.drop_first(), cur + e[0].0)
    }
}

/// `v` capped at the largest 64-bit value.
pub open spec fn cap(v: int) -> u64 {
    if v > u64::MAX { u64::MAX } else { v as u64 }
}

/// The size given to a flexible request with minimum `min` and optional
/// maximum `max`, with `rem` bytes left and `k` flexible requests left
/// counting this one: the last takes everything left, clamped to its
/// bounds; the others take their minimum plus `rem / (k + 1)`, capped at
/// their maximum.
pub open spec fn flex_size(min: u64, max: Option<u64>, rem: int, k: int) -> int {
    if k == 1 {
        match max {
            Some(m) => {
                let c = if rem < m { rem } else { m as int };
                if c > min { c } else { min as int }
            },
            None => if rem > min { rem } else { min as int },
        }
    } else {
        let s = min + rem / (k + 1);
        match max {
            Some(m) => if s < m { s } else { m as int },
            None => s,
        }
    }
}

/// The flexible partitions laid end to end from `cur` with `rem` bytes left:
/// the intervals planned, and the interval whose minimum did not fit, if one
/// did not.
pub open spec fn flex_plan(f: Seq<(u64, Option<u64>, usize)>, cur: int, rem: int) -> (Seq<(u64, u64, usize)>, Option<(u64, u64)>)
    decreases f.len(),
{
    if f.len() == 0 {
        (Seq::empty(), None)
    } else if f[0].0 > rem {
        (Seq::empty(), Some((cap(cur), cap(cur + f[0].0))))
    } else {
        let size = flex_size(f[0].0, f[0].1, rem, f.len() as int);
        let rest = flex_plan(f.drop_first(), cur + size, if size < rem { rem - size } else { 0 });
        (seq![(cap(cur), cap(cur + size), f[0].2)] + rest.0, rest.1)
    }
}

/// What laying the requests out in `[ts, te)` yields, from state `st1`.
pub open spec fn place_model(sizes: Seq<SizeRequirement>, st1: PlanState, first: u64, last: u64, ts: u64, te: u64) -> Result<PlanState, PlanError> {
    let room: int = if te >= ts { te - ts } else { 0 };
    let ex = exact_entries(sizes);
    let fl = flex_entries(sizes);
    let fixed = exact_sum(ex);
    let mins = min_sum(fl);
    if fixed + mins > room {
        Err(PlanError::RegionOutOfBounds { start: ts, end: cap(ts + fixed + mins) })
    } else {
        match model_adds(st1, first, last, fixed_intervals(ex, ts as int)) {
            Err(e) => Err(e),
            Ok(st2) => {
                let plan = flex_plan(fl, ts + fixed, room - fixed);
                match model_adds(st2, first, last, plan.0) {
                    Err(e) => Err(e),
                    Ok(st3) => match plan.1 {
                        Some((a, b)) => Err(PlanError::RegionOutOfBounds { start: a, end: b }),
                        None => Ok(st3),
                    },
                }
            },
        }
    }
}

/// What applying a strategy to a planner in state `st` with usable range
/// `[first, last]` yields.
pub open spec fn apply_model(
    alloc: AllocationStrategy,
    sizes: Seq<SizeRequirement>,
    st: PlanState,
    first: u64,
    last: u64,
) -> Result<PlanState, PlanError> {
    let st1 = if alloc is InitializeWholeDisk { init_state(st) } else { st };
    match target_of(alloc, st.layout, first, last) {
        None => Err(PlanError::NoFreeRegions),
        Some((ts, te)) => place_model(sizes, st1, first, last, ts, te),
    }
}

/// The first line of a strategy's description.
pub open spec fn allocation_text(a: AllocationStrategy) -> Seq<char> {
    match a {
        AllocationStrategy::InitializeWholeDisk => "Initialize new partition layout on entire disk"@,
        AllocationStrategy::LargestFree => "Use largest free region"@,
        AllocationStrategy::FirstFit => "Use first available region"@,
        AllocationStrategy::SpecificRegion(r) => "Use specific region: "@ + region_text(r@, (r.end - r.start) as u64),
    }
}

/// How a size requirement is phrased.
pub open spec fn requirement_text(s: SizeRequirement) -> Seq<char> {
    match s {
        SizeRequirement::Exact(n) => "exactly "@ + size_text(n as nat),
        SizeRequirement::AtLeast(n) => "at least "@ + size_text(n as nat),
        SizeRequirement::Range { min, max } => "between "@ + size_text(min as nat) + " and "@ + size_text(max as nat),
        SizeRequirement::Remaining => "remaining space"@,
    }
}

/// One numbered line per request.
pub open spec fn request_lines(sizes: Seq<SizeRequirement>) -> Seq<char>
    decreases sizes.len(),
{
    if sizes.len() == 0 {
        Seq::empty()
    } else {
        request_lines(sizes.drop_last()) + "  "@ + decimal_text(sizes.len()) + ": "@ + requirement_text(sizes.last())
            + "\n"@
    }
}

/// A strategy's description: the allocation mode, then the requests.
pub open spec fn strategy_text(a: AllocationStrategy, sizes: Seq<SizeRequirement>) -> Seq<char> {
    if sizes.len() == 0 {
        allocation_text(a)
    } else {
        allocation_text(a) + "\nRequested partitions:\n"@ + request_lines(sizes)
    }
}

/// What applying `s` to the planner `old` does, with result `r` and new
/// state `new`.
pub open spec fn apply_post(s: Strategy, old: Planner, new: Planner, r: Result<(), PlanError>) -> bool {
    &&& new.same_frame(&old)
    &&& match apply_model(s.allocation(), s.sizes(), state_of(old), old.first_usable(), old.last_usable()) {
        Ok(st) => r is Ok && state_of(new) == st && (s.allocation() is InitializeWholeDisk ==> new.wiped()),
        Err(e) => r == Err::<(), PlanError>(e) && new.same_plan(&old),
    }
}

/// A strategy that fails leaves the planner with exactly the plan it had
/// before, so whether the planner has changes is what it was.
pub proof fn lemma_failed_apply_keeps_plan(s: Strategy, old: Planner, new: Planner, r: Result<(), PlanError>)
    requires
        apply_post(s, old, new, r),
        r is Err,
    ensures
        new.dirty() == old.dirty(),
        new.layout() == old.layout(),
        new.journal() == old.journal(),
        new.wiped() == old.wiped(),
{
}

/// Undo `planner` back to the plan `start` held: first the journal entries
/// made since, then the wipe latch if it was set since.
fn rollback(planner: &mut Planner, Ghost(start): Ghost<Planner>, mark: usize, was_wiped: bool)
    requires
        old(planner).inv(),
        start.inv(),
        mark == start.journal().len(),
        was_wiped == start.wiped(),
        old(planner).same_frame(&start),
        old(planner).journal().len() >= mark,
        old(planner).history().subrange(0, mark + 1) == start.history(),
        old(planner).journal().subrange(0, mark as int) == start.journal(),
        was_wiped ==> old(planner).wiped() && old(planner).wipe_mark() == start.wipe_mark(),
        !was_wiped && old(planner).wiped() ==> old(planner).wipe_mark() == mark,
    ensures
        final(planner).inv(),
        final(planner).same_plan(&start),
{
    proof {
        crate::planner::lemma_history_shape(old(planner));
        crate::planner::lemma_history_shape(&start);
    }
    while planner.changes().len() > mark
        invariant
            planner.inv(),
            start.inv(),
            mark == start.journal().len(),
            was_wiped == start.wiped(),
            planner.same_frame(&start),
            planner.journal().len() >= mark,
            planner.history().subrange(0, mark + 1) == start.history(),
            planner.journal().subrange(0, mark as int) == start.journal(),
            was_wiped ==> planner.wiped() && planner.wipe_mark() == start.wipe_mark(),
            !was_wiped && planner.wiped() ==> planner.wipe_mark() == mark,
            !was_wiped ==> start.wipe_mark() == 0,
            was_wiped ==> start.wipe_mark() <= mark,
        decreases planner.journal().len(),
    {
        let ghost before = *planner;
        proof {
            crate::planner::lemma_history_shape(&before);
        }
        planner.undo();
        proof {
            assert(planner.history().subrange(0, mark + 1) =~= before.history().subrange(0, mark + 1));
            assert(planner.journal().subrange(0, mark as int) =~= before.journal().subrange(0, mark as int));
        }
    }
    proof {
        crate::planner::lemma_history_shape(planner);
        assert(planner.journal() =~= planner.journal().subrange(0, mark as int));
        assert(planner.history() =~= planner.history().subrange(0, mark + 1));
    }
    if planner.wipe_disk() && !was_wiped {
        planner.undo();
    }
}

/// The index of the last of the largest regions.
fn last_largest_index(g: &Vec<Region>) -> (k: usize)
    requires
        g@.len() > 0,
    ensures
        k == last_largest(crate::planner::extents(g@)),
        k < g@.len(),
{
    let ghost x = crate::planner::extents(g@);
    let mut best: usize = 0;
    let mut i: usize = 1;
    proof {
        assert(x.subrange(0, 1).len() == 1);
    }
    while i < g.len()
        invariant
            1 <= i <= g@.len(),
            x == crate::planner::extents(g@),
            best < i,
            best == last_largest(x.subrange(0, i as int)),
        decreases g@.len() - i,
    {
        let bi = g[i].end as i128 - g[i].start as i128;
        let bb = g[best].end as i128 - g[best].start as i128;
        proof {
            let t = x.subrange(0, i + 1);
            assert(t.drop_last() =~= x.subrange(0, i as int));
            assert(t.last() == g@[i as int]@);
            assert(t[best as int] == g@[best as int]@);
        }
        if bi >= bb {
            best = i;
        }
        i = i + 1;
    }
    proof {
        assert(x.subrange(0, g@.len() as int) =~= x);
    }
    best
}

/// The sum of the exact sizes.
fn exact_total(e: &Vec<(u64, usize)>) -> (r: u128)
    ensures
        r == exact_sum(e@),
{
    let mut total: u128 = 0;
    let mut j: usize = 0;
    proof {
        assert(e@.subrange(0, e@.len() as int) =~= e@);
    }
    while j < e.len()
        invariant
            j <= e@.len(),
            total <= j * (u64::MAX as int),
            total + exact_sum(e@.subrange(j as int, e@.len() as int)) == exact_sum(e@),
        decreases e@.len() - j,
    {
        proof {
            let rest = e@.subrange(j as int, e@.len() as int);
            assert(rest.drop_first() =~= e@.subrange(j + 1, e@.len() as int));
            assert(total + e@[j as int].0 <= (j + 1) * (u64::MAX as int)) by (nonlinear_arith)
                requires
                    total <= j * (u64::MAX as int),
                    e@[j as int].0 <= u64::MAX,
            ;
            assert((j + 1) * (u64::MAX as int) <= (usize::MAX as int) * (u64::MAX as int)) by (nonlinear_arith)
                requires
                    j < usize::MAX,
            ;
            assert((usize::MAX as int) * (u64::MAX as int) < u128::MAX) by (nonlinear_arith)
                requires
                    usize::MAX <= u64::MAX,
            ;
        }
        total = total + e[j].0 as u128;
        j = j + 1;
    }
    proof {
        assert(e@.subrange(e@.len() as int, e@.len() as int) =~= Seq::<(u64, usize)>::empty());
    }
    total
}

/// The sum of the flexible minimums.
fn min_total(f: &Vec<(u64, Option<u64>, usize)>) -> (r: u128)
    ensures
        r == min_sum(f@),
{
    let mut total: u128 = 0;
    let mut j: usize = 0;
    proof {
        assert(f@.subrange(0, f@.len() as int) =~= f@);
    }
    while j < f.len()
        invariant
            j <= f@.len(),
            total <= j * (u64::MAX as int),
            total + min_sum(f@.subrange(j as int, f@.len() as int)) == min_sum(f@),
        decreases f@.len() - j,
    {
        proof {
            let rest = f@.subrange(j as int, f@.len() as int);
            assert(rest.drop_first() =~= f@.subrange(j + 1, f@.len() as int));
            assert(total + f@[j as int].0 <= (j + 1) * (u64::MAX as int)) by (nonlinear_arith)
                requires
                    total <= j * (u64::MAX as int),
                    f@[j as int].0 <= u64::MAX,
            ;
            assert((j + 1) * (u64::MAX as int) <= (usize::MAX as int) * (u64::MAX as int)) by (nonlinear_arith)
                requires
                    j < usize::MAX,
            ;
            assert((usize::MAX as int) * (u64::MAX as int) < u128::MAX) by (nonlinear_arith)
                requires
                    usize::MAX <= u64::MAX,
            ;
        }
        total = total + f[j].0 as u128;
        j = j + 1;
    }
    proof {
        assert(f@.subrange(f@.len() as int, f@.len() as int) =~= Seq::<(u64, Option<u64>, usize)>::empty());
    }
    total
}

/// The exact partitions laid end to end from `start`.
fn fixed_plan(e: &Vec<(u64, usize)>, start: u64) -> (r: Vec<(u64, u64, usize)>)
    requires
        start + exact_sum(e@) <= u64::MAX,
    ensures
        r@ == fixed_intervals(e@, start as int),
{
    let mut out: Vec<(u64, u64, usize)> = Vec::new();
    let mut cur: u64 = start;
    let mut j: usize = 0;
    proof {
        assert(e@.subrange(0, e@.len() as int) =~= e@);
        assert(out@ + fixed_intervals(e@, start as int) =~= fixed_intervals(e@, start as int));
    }
    while j < e.len()
        invariant
            j <= e@.len(),
            cur + exact_sum(e@.subrange(j as int, e@.len() as int)) <= u64::MAX,
            out@ + fixed_intervals(e@.subrange(j as int, e@.len() as int), cur as int) == fixed_intervals(
                e@,
                start as int,
            ),
        decreases e@.len() - j,
    {
        let ghost rest = e@.subrange(j as int, e@.len() as int);
        proof {
            assert(rest.drop_first() =~= e@.subrange(j + 1, e@.len() as int));
            assert(rest[0] == e@[j as int]);
            assert(exact_sum(rest.drop_first()) >= 0) by {
                lemma_exact_sum_nonneg(rest.drop_first());
            }
        }
        let (n, idx) = e[j];
        let ghost before = out@;
        out.push((cur, cur + n, idx));
        proof {
            assert(out@ + fixed_intervals(e@.subrange(j + 1, e@.len() as int), cur + n) =~= before
                + fixed_intervals(rest, cur as int));
        }
        cur = cur + n;
        j = j + 1;
    }
    proof {
        assert(e@.subrange(e@.len() as int, e@.len() as int) =~= Seq::<(u64, usize)>::empty());
        assert(out@ =~= out@ + fixed_intervals(Seq::<(u64, usize)>::empty(), cur as int));
    }
    out
}

proof fn lemma_exact_sum_nonneg(e: Seq<(u64, usize)>)
    ensures
        exact_sum(e) >= 0,
    decreases e.len(),
{
    if e.len() > 0 {
        lemma_exact_sum_nonneg(e.drop_first());
    }
}

/// The flexible partitions laid end to end from `cur` with `rem` bytes left,
/// and the interval whose minimum did not fit, if one did not.
fn flexible_plan(f: &Vec<(u64, Option<u64>, usize)>, start: u128, room: u128) -> (r: (Vec<(u64, u64, usize)>, Option<(u64, u64)>))
    requires
        start + 2 * room <= 3 * (u64::MAX as int),
    ensures
        (r.0@, r.1) == flex_plan(f@, start as int, room as int),
{
    let mut out: Vec<(u64, u64, usize)> = Vec::new();
    let mut cur: u128 = start;
    let mut rem: u128 = room;
    let mut j: usize = 0;
    let ghost whole = flex_plan(f@, cur as int, rem as int);
    proof {
        assert(f@.subrange(0, f@.len() as int) =~= f@);
        assert(out@ + whole.0 =~= whole.0);
    }
    while j < f.len()
        invariant
            j <= f@.len(),
            cur + 2 * rem <= 3 * (u64::MAX as int),
            whole == flex_plan(f@, start as int, room as int),
            out@ + flex_plan(f@.subrange(j as int, f@.len() as int), cur as int, rem as int).0 == whole.0,
            flex_plan(f@.subrange(j as int, f@.len() as int), cur as int, rem as int).1 == whole.1,
        decreases f@.len() - j,
    {
        let ghost rest = f@.subrange(j as int, f@.len() as int);
        proof {
            assert(rest.drop_first() =~= f@.subrange(j + 1, f@.len() as int));
            assert(rest[0] == f@[j as int]);
        }
        let (min, max, idx) = f[j];
        let k: u128 = (f.len() - j) as u128;
        let cap_cur: u64 = if cur > u64::MAX as u128 { u64::MAX } else { cur as u64 };
        if min as u128 > rem {
            let end = cur + min as u128;
            let cap_end: u64 = if end > u64::MAX as u128 { u64::MAX } else { end as u64 };
            proof {
                assert(flex_plan(rest, cur as int, rem as int) == (Seq::<(u64, u64, usize)>::empty(), Some((cap_cur, cap_end))));
                assert(out@ + Seq::<(u64, u64, usize)>::empty() =~= out@);
                assert(out@ == whole.0);
            }
            return (out, Some((cap_cur, cap_end)));
        }
        let size: u128 = if k == 1 {
            match max {
                Some(m) => {
                    let c = if rem < m as u128 { rem } else { m as u128 };
                    if c > min as u128 { c } else { min as u128 }
                },
                None => if rem > min as u128 { rem } else { min as u128 },
            }
        } else {
            let s = min as u128 + rem / (k + 1);
            match max {
                Some(m) => if s < m as u128 { s } else { m as u128 },
                None => s,
            }
        };
        proof {
            assert(size == flex_size(min, max, rem as int, k as int));
            assert(size <= 2 * rem) by {
                assert((rem as int) / ((k + 1) as int) <= rem as int) by {
                    vstd::arithmetic::div_mod::lemma_div_is_ordered_by_denominator(rem as int, 1, (k + 1) as int);
                }
            }
        }
        let end = cur + size;
        let cap_end: u64 = if end > u64::MAX as u128 { u64::MAX } else { end as u64 };
        let ghost before = out@;
        out.push((cap_cur, cap_end, idx));
        proof {
            let next_rem: int = if size < rem { rem - size } else { 0 };
            assert(out@ + flex_plan(f@.subrange(j + 1, f@.len() as int), cur + size, next_rem).0 =~= before
                + flex_plan(rest, cur as int, rem as int).0);
        }
        cur = end;
        rem = if size < rem { rem - size } else { 0 };
        j = j + 1;
    }
    proof {
        assert(f@.subrange(f@.len() as int, f@.len() as int) =~= Seq::<(u64, Option<u64>, usize)>::empty());
        assert(out@ =~= out@ + Seq::<(u64, u64, usize)>::empty());
    }
    (out, None)
}

proof fn lemma_exact_indices(sizes: Seq<SizeRequirement>, i: int)
    requires
        0 <= i < exact_entries(sizes).len(),
    ensures
        exact_entries(sizes)[i].1 < sizes.len(),
    decreases sizes.len(),
{
    let rest = exact_entries(sizes.drop_last());
    if i < rest.len() {
        lemma_exact_indices(sizes.drop_last(), i);
    }
}

proof fn lemma_flex_entry_indices(sizes: Seq<SizeRequirement>, i: int)
    requires
        0 <= i < flex_entries(sizes).len(),
    ensures
        flex_entries(sizes)[i].2 < sizes.len(),
    decreases sizes.len(),
{
    let rest = flex_entries(sizes.drop_last());
    if i < rest.len() {
        lemma_flex_entry_indices(sizes.drop_last(), i);
    }
}

proof fn lemma_fixed_indices(e: Seq<(u64, usize)>, cur: int, sizes: Seq<SizeRequirement>, i: int)
    requires
        e == exact_entries(sizes),
        0 <= i < fixed_intervals(e, cur).len(),
    ensures
        fixed_intervals(e, cur)[i].2 < sizes.len(),
{
    lemma_fixed_shape(e, cur, i);
    lemma_exact_indices(sizes, i);
}

proof fn lemma_fixed_shape(e: Seq<(u64, usize)>, cur: int, i: int)
    requires
        0 <= i < fixed_intervals(e, cur).len(),
    ensures
        fixed_intervals(e, cur).len() == e.len(),
        fixed_intervals(e, cur)[i].2 == e[i].1,
    decreases e.len(),
{
    if e.len() > 0 && i > 0 {
        lemma_fixed_shape(e.drop_first(), cur + e[0].0, i - 1);
    } else if e.len() > 0 {
        lemma_fixed_len(e.drop_first(), cur + e[0].0);
    }
}

proof fn lemma_fixed_len(e: Seq<(u64, usize)>, cur: int)
    ensures
        fixed_intervals(e, cur).len() == e.len(),
    decreases e.len(),
{
    if e.len() > 0 {
        lemma_fixed_len(e.drop_first(), cur + e[0].0);
    }
}

proof fn lemma_flex_shape(f: Seq<(u64, Option<u64>, usize)>, cur: int, rem: int, i: int)
    requires
        0 <= i < flex_plan(f, cur, rem).0.len(),
    ensures
        exists|j: int| 0 <= j < f.len() && flex_plan(f, cur, rem).0[i].2 == #[trigger] f[j].2,
    decreases f.len(),
{
    if f.len() > 0 && f[0].0 <= rem {
        let size = flex_size(f[0].0, f[0].1, rem, f.len() as int);
        let nrem = if size < rem { rem - size } else { 0 };
        if i > 0 {
            lemma_flex_shape(f.drop_first(), cur + size, nrem, i - 1);
            let j = choose|j: int| 0 <= j < f.drop_first().len() && flex_plan(f.drop_first(), cur + size, nrem).0[i - 1].2 == #[trigger] f.drop_first()[j].2;
            assert(f[j + 1] == f.drop_first()[j]);
        } else {
            assert(f[0].2 == f[0].2);
        }
    }
}

proof fn lemma_flex_indices(f: Seq<(u64, Option<u64>, usize)>, cur: int, rem: int, sizes: Seq<SizeRequirement>, i: int)
    requires
        f == flex_entries(sizes),
        0 <= i < flex_plan(f, cur, rem).0.len(),
    ensures
        flex_plan(f, cur, rem).0[i].2 < sizes.len(),
{
    lemma_flex_shape(f, cur, rem, i);
    let j = choose|j: int| 0 <= j < f.len() && flex_plan(f, cur, rem).0[i].2 == #[trigger] f[j].2;
    lemma_flex_entry_indices(sizes, j);
}

impl Strategy {
    /// The allocation mode.
    pub closed spec fn allocation(&self) -> AllocationStrategy {
        self.allocation
    }

    /// The requested sizes, in order.
    pub closed spec fn sizes(&self) -> Seq<SizeRequirement> {
        self.requests@.map_values(|r: PartitionRequest| r.size)
    }

    /// A strategy with the given allocation mode and no requests.
    pub fn new(allocation: AllocationStrategy) -> (r: Strategy)
        ensures
            r.allocation() == allocation,
            r.sizes().len() == 0,
    {
        let r = Strategy { allocation, requests: Vec::new() };
        proof {
            assert(r.sizes() =~= Seq::<SizeRequirement>::empty());
        }
        r
    }

    /// Append a request.
    pub fn add_request(&mut self, request: PartitionRequest)
        ensures
            final(self).allocation() == old(self).allocation(),
            final(self).sizes() == old(self).sizes().push(request.size),
    {
        let ghost before = self.requests@;
        self.requests.push(request);
        proof {
            assert(self.requests@.map_values(|r: PartitionRequest| r.size) =~= before.map_values(
                |r: PartitionRequest| r.size,
            ).push(request.size));
        }
    }

    /// Ask the planner for each interval in turn, with the attributes of the
    /// request it belongs to; stop at the first refusal.
    fn add_all(&self, planner: &mut Planner, ivs: &Vec<(u64, u64, usize)>) -> (r: Result<(), PlanError>)
        requires
            old(planner).inv(),
            forall|i: int| 0 <= i < ivs@.len() ==> (#[trigger] ivs@[i]).2 < self.requests@.len(),
        ensures
            final(planner).inv(),
            final(planner).same_frame(old(planner)),
            final(planner).wiped() == old(planner).wiped(),
            final(planner).wipe_mark() == old(planner).wipe_mark(),
            final(planner).journal().len() >= old(planner).journal().len(),
            final(planner).history().len() >= old(planner).history().len(),
            final(planner).history().subrange(0, old(planner).history().len() as int) == old(planner).history(),
            final(planner).journal().subrange(0, old(planner).journal().len() as int) == old(planner).journal(),
            match model_adds(state_of(*old(planner)), old(planner).first_usable(), old(planner).last_usable(), ivs@) {
                Ok(st) => r is Ok && state_of(*final(planner)) == st,
                Err(e) => r == Err::<(), PlanError>(e),
            },
    {
        let ghost first = old(planner).first_usable();
        let ghost last = old(planner).last_usable();
        let mut i: usize = 0;
        proof {
            assert(ivs@.subrange(0, ivs@.len() as int) =~= ivs@);
            crate::planner::lemma_history_shape(planner);
        }
        while i < ivs.len()
            invariant
                i <= ivs@.len(),
                forall|k: int| 0 <= k < ivs@.len() ==> (#[trigger] ivs@[k]).2 < self.requests@.len(),
                planner.inv(),
                planner.same_frame(old(planner)),
                first == old(planner).first_usable(),
                last == old(planner).last_usable(),
                planner.wiped() == old(planner).wiped(),
                planner.wipe_mark() == old(planner).wipe_mark(),
                planner.journal().len() >= old(planner).journal().len(),
                planner.history().len() >= old(planner).history().len(),
                planner.history().subrange(0, old(planner).history().len() as int) == old(planner).history(),
                planner.journal().subrange(0, old(planner).journal().len() as int) == old(planner).journal(),
                model_adds(state_of(*old(planner)), first, last, ivs@) == model_adds(
                    state_of(*planner),
                    first,
                    last,
                    ivs@.subrange(i as int, ivs@.len() as int),
                ),
            decreases ivs@.len() - i,
        {
            let (s, e, idx) = ivs[i];
            let attrs = self.requests[idx].attributes.clone();
            let ghost before = *planner;
            let ghost rest = ivs@.subrange(i as int, ivs@.len() as int);
            proof {
                assert(rest[0] == ivs@[i as int]);
                assert(rest.drop_first() =~= ivs@.subrange(i + 1, ivs@.len() as int));
            }
            match planner.plan_add_partition_with_attributes(s, e, attrs) {
                Ok(_) => {},
                Err(err) => {
                    return Err(err);
                },
            }
            proof {
                crate::planner::lemma_history_shape(&before);
                assert(model_add(state_of(before), first, last, s, e) == Ok::<PlanState, PlanError>(state_of(*planner)));
                assert(planner.history().subrange(0, old(planner).history().len() as int) =~= before.history().subrange(0, old(planner).history().len() as int));
                assert(planner.journal().subrange(0, old(planner).journal().len() as int) =~= before.journal().subrange(0, old(planner).journal().len() as int));
            }
            i = i + 1;
        }
        proof {
            assert(ivs@.subrange(ivs@.len() as int, ivs@.len() as int) =~= Seq::<(u64, u64, usize)>::empty());
        }
        Ok(())
    }

    /// A description of the strategy: the allocation mode on the first line,
    /// then one numbered line per request.
    pub fn describe(&self) -> (r: String)
        requires
            self.allocation() is SpecificRegion ==> self.allocation()->0.start <= self.allocation()->0.end,
        ensures
            r@ == strategy_text(self.allocation(), self.sizes()),
    {
        let mut desc = match &self.allocation {
            AllocationStrategy::InitializeWholeDisk => String::from_str("Initialize new partition layout on entire disk"),
            AllocationStrategy::LargestFree => String::from_str("Use largest free region"),
            AllocationStrategy::FirstFit => String::from_str("Use first available region"),
            AllocationStrategy::SpecificRegion(r) => {
                let mut d = String::from_str("Use specific region: ");
                let t = r.describe(r.end - r.start);
                d.append(t.as_str());
                d
            },
        };
        if self.requests.len() > 0 {
            desc.append("\nRequested partitions:\n");
            let ghost head = desc@;
            let mut i: usize = 0;
            while i < self.requests.len()
                invariant
                    i <= self.requests@.len(),
                    self.sizes().len() == self.requests@.len(),
                    desc@ == head + request_lines(self.sizes().subrange(0, i as int)),
                decreases self.requests@.len() - i,
            {
                let ghost t = self.sizes().subrange(0, i + 1);
                proof {
                    assert(t.drop_last() =~= self.sizes().subrange(0, i as int));
                    assert(t.last() == self.requests@[i as int].size);
                }
                desc.append("  ");
                push_decimal(&mut desc, (i + 1) as u64);
                desc.append(": ");
                match self.requests[i].size {
                    SizeRequirement::Exact(n) => {
                        desc.append("exactly ");
                        let f = format_size(n);
                        desc.append(f.as_str());
                    },
                    SizeRequirement::AtLeast(n) => {
                        desc.append("at least ");
                        let f = format_size(n);
                        desc.append(f.as_str());
                    },
                    SizeRequirement::Range { min, max } => {
                        desc.append("between ");
                        let f = format_size(min);
                        desc.append(f.as_str());
                        desc.append(" and ");
                        let g = format_size(max);
                        desc.append(g.as_str());
                    },
                    SizeRequirement::Remaining => {
                        desc.append("remaining space");
                    },
                }
                desc.append("\n");
                proof {
                    assert(desc@ =~= head + request_lines(t));
                }
                i = i + 1;
            }
            proof {
                assert(self.sizes().subrange(0, self.sizes().len() as int) =~= self.sizes());
            }
        }
        proof {
            assert(desc@ =~= strategy_text(self.allocation(), self.sizes()));
        }
        desc
    }

    /// The exact and the flexible requests, each in request order.
    fn classify(&self) -> (r: (Vec<(u64, usize)>, Vec<(u64, Option<u64>, usize)>))
        ensures
            r.0@ == exact_entries(self.sizes()),
            r.1@ == flex_entries(self.sizes()),
    {
        let mut exact: Vec<(u64, usize)> = Vec::new();
        let mut flex: Vec<(u64, Option<u64>, usize)> = Vec::new();
        let ghost sizes = self.sizes();
        let mut i: usize = 0;
        proof {
            assert(sizes.subrange(0, 0) =~= Seq::<SizeRequirement>::empty());
            assert(exact@ =~= exact_entries(sizes.subrange(0, 0)));
            assert(flex@ =~= flex_entries(sizes.subrange(0, 0)));
        }
        while i < self.requests.len()
            invariant
                i <= self.requests@.len(),
                sizes == self.sizes(),
                sizes.len() == self.requests@.len(),
                exact@ == exact_entries(sizes.subrange(0, i as int)),
                flex@ == flex_entries(sizes.subrange(0, i as int)),
            decreases self.requests@.len() - i,
        {
            let ghost t = sizes.subrange(0, i + 1);
            proof {
                assert(t.drop_last() =~= sizes.subrange(0, i as int));
                assert(t.last() == self.requests@[i as int].size);
            }
            match self.requests[i].size {
                SizeRequirement::Exact(n) => exact.push((n, i)),
                SizeRequirement::AtLeast(min) => flex.push((min, None, i)),
                SizeRequirement::Range { min, max } => flex.push((min, Some(max), i)),
                SizeRequirement::Remaining => flex.push((0, None, i)),
            }
            i = i + 1;
        }
        proof {
            assert(sizes.subrange(0, sizes.len() as int) =~= sizes);
        }
        (exact, flex)
    }

    /// Plan every request on `planner`, or none. The target region comes from
    /// the allocation mode; exact requests are laid out first, in request
    /// order, then the flexible ones. On any failure the planner is returned
    /// to the plan it held before the call.
    pub fn apply(&self, planner: &mut Planner) -> (r: Result<(), PlanError>)
        requires
            old(planner).inv(),
        ensures
            final(planner).inv(),
            apply_post(*self, *old(planner), *final(planner), r),
    {
        let ghost start = *planner;
        let ghost first = planner.first_usable();
        let ghost last = planner.last_usable();
        let mark = planner.changes().len();
        let was_wiped = planner.wipe_disk();
        proof {
            crate::planner::lemma_history_shape(planner);
        }
        let target: (u64, u64) = match &self.allocation {
            AllocationStrategy::InitializeWholeDisk => {
                let _ = planner.plan_initialize_disk();
                planner.offsets()
            },
            AllocationStrategy::LargestFree => {
                let free = self.find_free_regions(planner);
                if free.len() == 0 {
                    return Err(PlanError::NoFreeRegions);
                }
                let k = last_largest_index(&free);
                proof {
                    assert(crate::planner::extents(free@)[k as int] == free@[k as int]@);
                }
                (free[k].start, free[k].end)
            },
            AllocationStrategy::FirstFit => {
                let free = self.find_free_regions(planner);
                if free.len() == 0 {
                    return Err(PlanError::NoFreeRegions);
                }
                proof {
                    assert(crate::planner::extents(free@)[0] == free@[0]@);
                }
                (free[0].start, free[0].end)
            },
            AllocationStrategy::SpecificRegion(region) => (region.start, region.end),
        };
        let (ts, te) = target;
        proof {
            crate::planner::lemma_history_shape(planner);
            assert(planner.journal().subrange(0, mark as int) =~= start.journal());
            assert(planner.history().subrange(0, mark + 1) =~= start.history());
            assert(target_of(self.allocation(), start.layout(), first, last) == Some(target));
            if self.allocation() is InitializeWholeDisk {
                assert(planner.layout() =~= Seq::<Extent>::empty());
                assert(state_of(*planner) == init_state(state_of(start)));
            } else {
                assert(state_of(*planner) == state_of(start));
            }
        }
        self.place(planner, ts, te, Ghost(start), mark, was_wiped)
    }

    /// Lay the requests out in `[ts, te)` on a planner that holds `start`'s
    /// plan, possibly wiped since; on failure return to `start`'s plan.
    fn place(
        &self,
        planner: &mut Planner,
        ts: u64,
        te: u64,
        Ghost(start): Ghost<Planner>,
        mark: usize,
        was_wiped: bool,
    ) -> (r: Result<(), PlanError>)
        requires
            old(planner).inv(),
            start.inv(),
            mark == start.journal().len(),
            was_wiped == start.wiped(),
            old(planner).same_frame(&start),
            old(planner).journal().len() >= mark,
            old(planner).history().subrange(0, mark + 1) == start.history(),
            old(planner).journal().subrange(0, mark as int) == start.journal(),
            was_wiped ==> old(planner).wiped() && old(planner).wipe_mark() == start.wipe_mark(),
            !was_wiped && old(planner).wiped() ==> old(planner).wipe_mark() == mark,
        ensures
            final(planner).inv(),
            final(planner).same_frame(&start),
            r is Ok ==> final(planner).wiped() == old(planner).wiped(),
            match place_model(
                self.sizes(),
                state_of(*old(planner)),
                start.first_usable(),
                start.last_usable(),
                ts,
                te,
            ) {
                Ok(st) => r is Ok && state_of(*final(planner)) == st,
                Err(e) => r == Err::<(), PlanError>(e) && final(planner).same_plan(&start),
            },
    {
        let room: u64 = if te >= ts { te - ts } else { 0 };
        let (exact, flex) = self.classify();
        let fixed = exact_total(&exact);
        let mins = min_total(&flex);
        if fixed > room as u128 || mins > room as u128 - fixed {
            let cap_end: u64 = if fixed > u64::MAX as u128 || mins > u64::MAX as u128 {
                u64::MAX
            } else {
                let end: u128 = ts as u128 + fixed + mins;
                if end > u64::MAX as u128 { u64::MAX } else { end as u64 }
            };
            proof {
                crate::planner::lemma_history_shape(planner);
                assert(planner.history().subrange(0, mark + 1) =~= start.history());
            }
            rollback(planner, Ghost(start), mark, was_wiped);
            return Err(PlanError::RegionOutOfBounds { start: ts, end: cap_end });
        }
        let fixed_ivs = fixed_plan(&exact, ts);
        proof {
            assert forall|i: int| 0 <= i < fixed_ivs@.len() implies (#[trigger] fixed_ivs@[i]).2 < self.requests@.len() by {
                lemma_fixed_indices(exact@, ts as int, self.sizes(), i);
            }
        }
        let ghost before_fixed = *planner;
        let added = self.add_all(planner, &fixed_ivs);
        proof {
            crate::planner::lemma_history_shape(planner);
            crate::planner::lemma_history_shape(&before_fixed);
            assert(planner.history().subrange(0, mark + 1) =~= before_fixed.history().subrange(0, mark + 1));
            assert(planner.journal().subrange(0, mark as int) =~= before_fixed.journal().subrange(0, mark as int));
        }
        if let Err(e) = added {
            rollback(planner, Ghost(start), mark, was_wiped);
            return Err(e);
        }
        let (flex_ivs, fail) = flexible_plan(&flex, ts as u128 + fixed, room as u128 - fixed);
        proof {
            assert forall|i: int| 0 <= i < flex_ivs@.len() implies (#[trigger] flex_ivs@[i]).2 < self.requests@.len() by {
                lemma_flex_indices(flex@, (ts + fixed) as int, (room - fixed) as int, self.sizes(), i);
            }
        }
        let ghost before_flex = *planner;
        let added = self.add_all(planner, &flex_ivs);
        proof {
            crate::planner::lemma_history_shape(planner);
            crate::planner::lemma_history_shape(&before_flex);
            assert(planner.history().subrange(0, mark + 1) =~= before_flex.history().subrange(0, mark + 1));
            assert(planner.journal().subrange(0, mark as int) =~= before_flex.journal().subrange(0, mark as int));
        }
        if let Err(e) = added {
            rollback(planner, Ghost(start), mark, was_wiped);
            return Err(e);
        }
        if let Some((a, b)) = fail {
            rollback(planner, Ghost(start), mark, was_wiped);
            return Err(PlanError::RegionOutOfBounds { start: a, end: b });
        }
        Ok(())
    }

    /// The free regions of the planner's layout: the gaps between partitions
    /// in start order and the space after the last one, within the usable range.
    fn find_free_regions(&self, planner: &Planner) -> (r: Vec<Region>)
        ensures
            crate::planner::extents(r@) == gaps_from(planner.layout(), planner.first_usable(), planner.last_usable()),
    {
        let mut regions: Vec<Region> = Vec::new();
        let (first, last) = planner.offsets();
        let mut current = first;
        let layout = planner.current_layout();
        let ghost l = crate::planner::extents(layout@);
        let mut i: usize = 0;
        proof {
            assert(l.subrange(0, l.len() as int) =~= l);
            assert(crate::planner::extents(regions@) =~= Seq::<Extent>::empty());
            assert(crate::planner::extents(regions@) + l =~= l);
        }
        while i < layout.len()
            invariant
                i <= layout@.len(),
                l == crate::planner::extents(layout@),
                l == planner.layout(),
                first == planner.first_usable(),
                last == planner.last_usable(),
                crate::planner::extents(regions@) + gaps_from(l.subrange(i as int, l.len() as int), current, last)
                    == gaps_from(l, first, last),
            decreases layout@.len() - i,
        {
            let ghost rest = l.subrange(i as int, l.len() as int);
            let ghost before = regions@;
            proof {
                assert(rest[0] == layout@[i as int]@);
                assert(rest.drop_first() =~= l.subrange(i + 1, l.len() as int));
            }
            if layout[i].start > current {
                regions.push(Region::new(current, layout[i].start));
                proof {
                    assert(crate::planner::extents(regions@) =~= crate::planner::extents(before).push(
                        Extent { start: current, end: layout@[i as int].start, partition_id: None },
                    ));
                }
            }
            current = layout[i].end;
            i = i + 1;
        }
        proof {
            assert(l.subrange(l.len() as int, l.len() as int) =~= Seq::<Extent>::empty());
        }
        if current < last {
            let ghost before = regions@;
            regions.push(Region::new(current, last));
            proof {
                assert(crate::planner::extents(regions@) =~= crate::planner::extents(before).push(
                    Extent { start: current, end: last, partition_id: None },
                ));
            }
        }
        proof {
            assert(crate::planner::extents(regions@) =~= gaps_from(l, first, last));
        }
        regions
    }
}

} // verus!
