//! The arc-expansion model: how the arc of freshest timestamps around the newest
//! element of a ring grows, stated over sequences and integers.
//!
//! A ring is a sequence read circularly. Starting beside the newest element, one
//! walk leaves clockwise (towards higher indices) and one counter-clockwise. Each
//! step takes the next element of the walk whose head is larger, so the two walks
//! are merged from freshest to oldest.

use vstd::prelude::*;
use vstd::arithmetic::div_mod::{
    lemma_add_mod_noop_right,
    lemma_mod_add_multiples_vanish,
    lemma_mod_self_0,
    lemma_small_mod,
};
use crate::sae_types::SaeTime;

verus! {

/// Ring position of the `j`-th element met walking clockwise from `newest`.
pub open spec fn cw_pos(n: int, newest: int, j: int) -> int {
    (newest + 1 + j) % n
}

/// Ring position of the `j`-th element met walking counter-clockwise from `newest`.
pub open spec fn ccw_pos(n: int, newest: int, j: int) -> int {
    (newest - 1 - j) % n
}

/// The `j`-th timestamp of the clockwise walk.
pub open spec fn cw_val(ring: Seq<SaeTime>, newest: int, j: int) -> SaeTime {
    ring[cw_pos(ring.len() as int, newest, j)]
}

/// The `j`-th timestamp of the counter-clockwise walk.
pub open spec fn ccw_val(ring: Seq<SaeTime>, newest: int, j: int) -> SaeTime {
    ring[ccw_pos(ring.len() as int, newest, j)]
}

/// The smaller of two timestamps.
pub open spec fn older(a: SaeTime, b: SaeTime) -> SaeTime {
    if b < a {
        b
    } else {
        a
    }
}

/// The oldest of the first `j + 1` timestamps of the clockwise walk.
pub open spec fn cw_oldest(ring: Seq<SaeTime>, newest: int, j: int) -> SaeTime
    decreases j,
{
    if j <= 0 {
        cw_val(ring, newest, 0)
    } else {
        older(cw_oldest(ring, newest, j - 1), cw_val(ring, newest, j))
    }
}

/// The oldest of the first `j + 1` timestamps of the counter-clockwise walk.
pub open spec fn ccw_oldest(ring: Seq<SaeTime>, newest: int, j: int) -> SaeTime
    decreases j,
{
    if j <= 0 {
        ccw_val(ring, newest, 0)
    } else {
        older(ccw_oldest(ring, newest, j - 1), ccw_val(ring, newest, j))
    }
}

/// Where an expansion stands between two steps.
pub struct Expansion {
    /// How many elements the clockwise walk has given up.
    pub cw: int,
    /// How many elements the counter-clockwise walk has given up.
    pub ccw: int,
    /// The oldest timestamp admitted to the segment so far.
    pub segment_oldest: SaeTime,
    /// The arc length recorded so far.
    pub arc_len: int,
}

/// Whether the next step takes from the clockwise walk: only when its head is
/// strictly fresher than the counter-clockwise one.
pub open spec fn takes_cw(ring: Seq<SaeTime>, newest: int, e: Expansion) -> bool {
    cw_val(ring, newest, e.cw) > ccw_val(ring, newest, e.ccw)
}

/// The timestamp that the next step takes.
pub open spec fn taken_val(ring: Seq<SaeTime>, newest: int, e: Expansion) -> SaeTime {
    if takes_cw(ring, newest, e) {
        cw_val(ring, newest, e.cw)
    } else {
        ccw_val(ring, newest, e.ccw)
    }
}

/// The oldest timestamp of the walk that the next step takes from, the taken
/// element included.
pub open spec fn taken_oldest(ring: Seq<SaeTime>, newest: int, e: Expansion) -> SaeTime {
    if takes_cw(ring, newest, e) {
        cw_oldest(ring, newest, e.cw)
    } else {
        ccw_oldest(ring, newest, e.ccw)
    }
}

/// The walks after the next step: the fresher head has been taken.
pub open spec fn advance(ring: Seq<SaeTime>, newest: int, e: Expansion) -> Expansion {
    if takes_cw(ring, newest, e) {
        Expansion { cw: e.cw + 1, ..e }
    } else {
        Expansion { ccw: e.ccw + 1, ..e }
    }
}

/// One bootstrap step: the taken element joins the segment unconditionally.
pub open spec fn bootstrap_step(ring: Seq<SaeTime>, newest: int, e: Expansion) -> Expansion {
    Expansion {
        segment_oldest: older(e.segment_oldest, taken_oldest(ring, newest, e)),
        ..advance(ring, newest, e)
    }
}

/// One growth step, numbered `step`: the taken element joins the segment only if
/// it is no older than the segment's oldest, and the arc then spans `step + 1`
/// elements.
pub open spec fn growth_step(ring: Seq<SaeTime>, newest: int, step: int, e: Expansion) -> Expansion {
    if taken_val(ring, newest, e) >= e.segment_oldest {
        Expansion {
            segment_oldest: older(e.segment_oldest, taken_oldest(ring, newest, e)),
            arc_len: step + 1,
            ..advance(ring, newest, e)
        }
    } else {
        advance(ring, newest, e)
    }
}

/// The expansion after `steps` bootstrap steps.
pub open spec fn after_bootstrap(ring: Seq<SaeTime>, newest: int, lmin: int, steps: int) -> Expansion
    decreases steps,
{
    if steps <= 0 {
        Expansion { cw: 0, ccw: 0, segment_oldest: SaeTime::MAX, arc_len: lmin }
    } else {
        bootstrap_step(ring, newest, after_bootstrap(ring, newest, lmin, steps - 1))
    }
}

/// The expansion once the growth steps numbered `lmin` up to, not including,
/// `upto` have followed the `lmin - 1` bootstrap steps.
pub open spec fn after_growth(ring: Seq<SaeTime>, newest: int, lmin: int, upto: int) -> Expansion
    decreases upto - lmin,
{
    if upto <= lmin {
        after_bootstrap(ring, newest, lmin, lmin - 1)
    } else {
        growth_step(ring, newest, upto - 1, after_growth(ring, newest, lmin, upto - 1))
    }
}

/// The length of the arc of freshest timestamps around `newest` in `ring`, with
/// minimum arc length `lmin`.
pub open spec fn arc_length(ring: Seq<SaeTime>, lmin: int, newest: int) -> int {
    after_growth(ring, newest, lmin, ring.len() as int).arc_len
}

/// Whether an arc of `len` elements marks a corner on a ring of `n`: the arc is
/// short enough itself, or its complement is an arc between `lmin` and `lmax`.
pub open spec fn arc_is_valid(len: int, n: int, lmin: int, lmax: int) -> bool {
    len <= lmax || (len >= n - lmax && len <= n - lmin)
}

/// The freshest of the first `n` timestamps of `vals`, or 0 where there is none.
pub open spec fn freshest_val_upto(vals: Seq<SaeTime>, n: int) -> SaeTime
    decreases n,
{
    if n <= 0 {
        0
    } else if vals[n - 1] > freshest_val_upto(vals, n - 1) {
        vals[n - 1]
    } else {
        freshest_val_upto(vals, n - 1)
    }
}

/// Where the freshest of the first `n` timestamps of `vals` first occurs, or 0
/// where none of them is above 0.
pub open spec fn freshest_idx_upto(vals: Seq<SaeTime>, n: int) -> int
    decreases n,
{
    if n <= 0 {
        0
    } else if vals[n - 1] > freshest_val_upto(vals, n - 1) {
        n - 1
    } else {
        freshest_idx_upto(vals, n - 1)
    }
}

/// The freshest timestamp of `vals`.
pub open spec fn freshest_val(vals: Seq<SaeTime>) -> SaeTime {
    freshest_val_upto(vals, vals.len() as int)
}

/// The index of the freshest timestamp of `vals`.
pub open spec fn freshest_idx(vals: Seq<SaeTime>) -> int {
    freshest_idx_upto(vals, vals.len() as int)
}

/// Whether `val` is the largest timestamp among the first `n` of `vals`, and
/// `idx` the lowest index that holds it; (0, 0) where there is no timestamp.
pub open spec fn is_freshest_upto(vals: Seq<SaeTime>, n: int, idx: int, val: SaeTime) -> bool {
    &&& forall|i: int| 0 <= i < n ==> #[trigger] vals[i] <= val
    &&& forall|i: int| 0 <= i < idx ==> #[trigger] vals[i] < val
    &&& if n <= 0 {
        idx == 0 && val == 0
    } else {
        0 <= idx < n && vals[idx] == val
    }
}

/// Whether `val` is the largest timestamp of `vals` and `idx` the lowest index
/// that holds it.
pub open spec fn is_freshest(vals: Seq<SaeTime>, idx: int, val: SaeTime) -> bool {
    is_freshest_upto(vals, vals.len() as int, idx, val)
}

/// The freshest element is the maximum, and among equal maxima the first.
pub proof fn lemma_freshest_upto(vals: Seq<SaeTime>, n: int)
    ensures
        is_freshest_upto(vals, n, freshest_idx_upto(vals, n), freshest_val_upto(vals, n)),
    decreases n,
{
    if n > 0 {
        lemma_freshest_upto(vals, n - 1);
    }
}

/// The freshest element is the maximum, and among equal maxima the first.
pub proof fn lemma_freshest(vals: Seq<SaeTime>)
    ensures
        is_freshest(vals, freshest_idx(vals), freshest_val(vals)),
{
    lemma_freshest_upto(vals, vals.len() as int);
}

/// Only one index and value are the freshest of a sequence.
pub proof fn lemma_freshest_unique(
    vals: Seq<SaeTime>,
    idx1: int,
    val1: SaeTime,
    idx2: int,
    val2: SaeTime,
)
    requires
        is_freshest(vals, idx1, val1),
        is_freshest(vals, idx2, val2),
    ensures
        idx1 == idx2,
        val1 == val2,
{
}

/// Both walks stay on the ring.
pub proof fn lemma_walk_on_ring(n: int, newest: int, j: int)
    requires
        0 < n,
    ensures
        0 <= cw_pos(n, newest, j) < n,
        0 <= ccw_pos(n, newest, j) < n,
{
}

/// The clockwise walk moves to the next higher position, wrapping to 0.
pub proof fn lemma_cw_next(n: int, newest: int, j: int)
    requires
        0 < n,
    ensures
        cw_pos(n, newest, j + 1) == if cw_pos(n, newest, j) + 1 == n {
            0
        } else {
            cw_pos(n, newest, j) + 1
        },
{
    let p = cw_pos(n, newest, j);
    lemma_add_mod_noop_right(1, newest + 1 + j, n);
    assert(cw_pos(n, newest, j + 1) == (1 + p) % n);
    if p + 1 == n {
        lemma_mod_self_0(n);
    } else {
        lemma_small_mod((p + 1) as nat, n as nat);
    }
}

/// The counter-clockwise walk moves to the next lower position, wrapping to `n - 1`.
pub proof fn lemma_ccw_next(n: int, newest: int, j: int)
    requires
        0 < n,
    ensures
        ccw_pos(n, newest, j + 1) == if ccw_pos(n, newest, j) == 0 {
            n - 1
        } else {
            ccw_pos(n, newest, j) - 1
        },
{
    let p = ccw_pos(n, newest, j);
    lemma_add_mod_noop_right(-1, newest - 1 - j, n);
    assert(ccw_pos(n, newest, j + 1) == (-1 + p) % n);
    if p == 0 {
        lemma_mod_add_multiples_vanish(-1, n);
        lemma_small_mod((n - 1) as nat, n as nat);
    } else {
        lemma_small_mod((p - 1) as nat, n as nat);
    }
}

/// From a position on the ring, the walks start on its two neighbours.
pub proof fn lemma_walk_start(n: int, newest: int)
    requires
        0 <= newest < n,
    ensures
        cw_pos(n, newest, 0) == if newest + 1 == n {
            0
        } else {
            newest + 1
        },
        ccw_pos(n, newest, 0) == if newest == 0 {
            n - 1
        } else {
            newest - 1
        },
{
    if newest + 1 == n {
        lemma_mod_self_0(n);
    } else {
        lemma_small_mod((newest + 1) as nat, n as nat);
    }
    if newest == 0 {
        lemma_mod_add_multiples_vanish(-1, n);
        lemma_small_mod((n - 1) as nat, n as nat);
    } else {
        lemma_small_mod((newest - 1) as nat, n as nat);
    }
}

/// On a ring whose timestamps are all `v`, both walks meet only `v`.
pub proof fn lemma_uniform_walks(ring: Seq<SaeTime>, newest: int, v: SaeTime, j: int)
    requires
        ring.len() > 0,
        forall|i: int| 0 <= i < ring.len() ==> ring[i] == v,
    ensures
        cw_val(ring, newest, j) == v,
        ccw_val(ring, newest, j) == v,
        cw_oldest(ring, newest, j) == v,
        ccw_oldest(ring, newest, j) == v,
    decreases j,
{
    lemma_walk_on_ring(ring.len() as int, newest, j);
    lemma_walk_on_ring(ring.len() as int, newest, 0);
    if j > 0 {
        lemma_uniform_walks(ring, newest, v, j - 1);
    }
}

/// On a ring whose timestamps are all `v`, every bootstrap step takes from the
/// counter-clockwise walk, and the first one sets the segment's oldest to `v`.
pub proof fn lemma_uniform_bootstrap(
    ring: Seq<SaeTime>,
    newest: int,
    lmin: int,
    v: SaeTime,
    steps: int,
)
    requires
        ring.len() > 0,
        forall|i: int| 0 <= i < ring.len() ==> ring[i] == v,
        0 <= steps,
    ensures
        after_bootstrap(ring, newest, lmin, steps) == (Expansion {
            cw: 0,
            ccw: steps,
            segment_oldest: if steps == 0 {
                SaeTime::MAX
            } else {
                v
            },
            arc_len: lmin,
        }),
    decreases steps,
{
    if steps > 0 {
        lemma_uniform_bootstrap(ring, newest, lmin, v, steps - 1);
        lemma_uniform_walks(ring, newest, v, 0);
        lemma_uniform_walks(ring, newest, v, steps - 1);
    }
}

/// On a ring whose timestamps are all `v`, every growth step lengthens the arc.
pub proof fn lemma_uniform_growth(ring: Seq<SaeTime>, newest: int, lmin: int, v: SaeTime, upto: int)
    requires
        ring.len() > 0,
        forall|i: int| 0 <= i < ring.len() ==> ring[i] == v,
        2 <= lmin <= upto,
    ensures
        after_growth(ring, newest, lmin, upto) == (Expansion {
            cw: 0,
            ccw: upto - 1,
            segment_oldest: v,
            arc_len: upto,
        }),
    decreases upto - lmin,
{
    if upto <= lmin {
        lemma_uniform_bootstrap(ring, newest, lmin, v, lmin - 1);
    } else {
        lemma_uniform_growth(ring, newest, lmin, v, upto - 1);
        lemma_uniform_walks(ring, newest, v, 0);
        lemma_uniform_walks(ring, newest, v, upto - 2);
    }
}

/// On a ring whose timestamps are all alike, the arc of freshest timestamps is the
/// whole ring, whichever element is taken for the newest.
pub proof fn lemma_uniform_ring_is_one_arc(ring: Seq<SaeTime>, lmin: int, newest: int)
    requires
        2 <= lmin <= ring.len(),
        forall|i: int, j: int| 0 <= i < ring.len() && 0 <= j < ring.len() ==> ring[i] == ring[j],
    ensures
        arc_length(ring, lmin, newest) == ring.len(),
{
    lemma_uniform_growth(ring, newest, lmin, ring[0], ring.len() as int);
}

/// The bootstrap steps leave the recorded arc length at `lmin`.
pub proof fn lemma_bootstrap_keeps_arc_len(ring: Seq<SaeTime>, newest: int, lmin: int, steps: int)
    ensures
        after_bootstrap(ring, newest, lmin, steps).arc_len == lmin,
    decreases steps,
{
    if steps > 0 {
        lemma_bootstrap_keeps_arc_len(ring, newest, lmin, steps - 1);
    }
}

/// The recorded arc length never falls below `lmin` and never exceeds the number
/// of steps made.
pub proof fn lemma_growth_arc_len_bounds(ring: Seq<SaeTime>, newest: int, lmin: int, upto: int)
    ensures
        lmin <= after_growth(ring, newest, lmin, upto).arc_len,
        after_growth(ring, newest, lmin, upto).arc_len <= if upto <= lmin {
            lmin
        } else {
            upto
        },
    decreases upto - lmin,
{
    if upto <= lmin {
        lemma_bootstrap_keeps_arc_len(ring, newest, lmin, lmin - 1);
    } else {
        lemma_growth_arc_len_bounds(ring, newest, lmin, upto - 1);
    }
}

/// An arc is at least `lmin` long, and no longer than the ring unless `lmin` is.
pub proof fn lemma_arc_length_bounds(ring: Seq<SaeTime>, lmin: int, newest: int)
    ensures
        lmin <= arc_length(ring, lmin, newest),
        arc_length(ring, lmin, newest) <= if ring.len() <= lmin {
            lmin
        } else {
            ring.len() as int
        },
{
    lemma_growth_arc_len_bounds(ring, newest, lmin, ring.len() as int);
}

} // verus!
