//! The Arc* corner detector: ring sampling, freshest-element search, arc
//! expansion and the corner decision for one event.

use vstd::prelude::*;
use crate::arc::{
    after_bootstrap,
    after_growth,
    arc_is_valid,
    arc_length,
    bootstrap_step,
    ccw_oldest,
    ccw_pos,
    cw_oldest,
    cw_pos,
    freshest_idx,
    freshest_idx_upto,
    freshest_val,
    freshest_val_upto,
    growth_step,
    is_freshest,
    lemma_ccw_next,
    lemma_cw_next,
    lemma_freshest,
    lemma_uniform_ring_is_one_arc,
    lemma_walk_start,
    Expansion,
};
use crate::ring::{ring_as_slice, ring_new, ring_push, ring_vals, RingVals};
use crate::sae_types::{NormDescriptor, SaeEvent, SaeTime, NORM_DESCRIPTOR_LEN};
use crate::surface::{on_surface, sae_cells, sae_shape, SaeMatrix};

verus! {

/// The number of pixels on the circle of radius 3.
pub const CIRCLE3_DIM: usize = 16;

/// Pixel offsets (row, column) of the circle of radius 3 around the point of
/// interest, clockwise from the offset (0, 3).
pub const CIRCLE3_GEN: [[i32; 2]; CIRCLE3_DIM] = [
    [0, 3],
    [1, 3],
    [2, 2],
    [3, 1],
    [3, 0],
    [3, -1],
    [2, -2],
    [1, -3],
    [0, -3],
    [-1, -3],
    [-2, -2],
    [-3, -1],
    [-3, 0],
    [-3, 1],
    [-2, 2],
    [-1, 3],
];

/// The shortest arc on the circle of radius 3 that marks a corner.
pub const CIRCLE3_MIN_ARC_LEN: usize = 3;

/// The longest arc on the circle of radius 3 that marks a corner.
pub const CIRCLE3_MAX_ARC_LEN: usize = 6;

/// The number of pixels on the circle of radius 4.
pub const CIRCLE4_DIM: usize = 20;

/// Pixel offsets (row, column) of the circle of radius 4 around the point of
/// interest, clockwise from the offset (0, 4).
pub const CIRCLE4_GEN: [[i32; 2]; CIRCLE4_DIM] = [
    [0, 4],
    [1, 4],
    [2, 3],
    [3, 2],
    [4, 1],
    [4, 0],
    [4, -1],
    [3, -2],
    [2, -3],
    [1, -4],
    [0, -4],
    [-1, -4],
    [-2, -3],
    [-3, -2],
    [-4, -1],
    [-4, 0],
    [-4, 1],
    [-3, 2],
    [-2, 3],
    [-1, 4],
];

/// The shortest arc on the circle of radius 4 that marks a corner.
pub const CIRCLE4_MIN_ARC_LEN: usize = 4;

/// The longest arc on the circle of radius 4 that marks a corner.
pub const CIRCLE4_MAX_ARC_LEN: usize = 8;

/// Number of pixels inset from all borders where corners can be evaluated.
pub const BORDER_INSET: usize = 4;

/// Whether a pixel keeps at least `inset` pixels between itself and every edge
/// of a surface with the given extent.
pub open spec fn is_inset(shape: (usize, usize), row: int, col: int, inset: int) -> bool {
    &&& inset <= row < shape.0 - inset
    &&& inset <= col < shape.1 - inset
}

/// The timestamps on the circle of radius 3 around (`row`, `col`), in the order
/// of `CIRCLE3_GEN`.
pub open spec fn circle3_at(cells: Map<(int, int), SaeTime>, row: int, col: int) -> Seq<SaeTime> {
    Seq::new(
        CIRCLE3_DIM as nat,
        |i: int| cells[(row + CIRCLE3_GEN[i][0], col + CIRCLE3_GEN[i][1])],
    )
}

/// The timestamps on the circle of radius 4 around (`row`, `col`), in the order
/// of `CIRCLE4_GEN`.
pub open spec fn circle4_at(cells: Map<(int, int), SaeTime>, row: int, col: int) -> Seq<SaeTime> {
    Seq::new(
        CIRCLE4_DIM as nat,
        |i: int| cells[(row + CIRCLE4_GEN[i][0], col + CIRCLE4_GEN[i][1])],
    )
}

/// No offset of the circle of radius 3 reaches further than 3 pixels on an axis.
pub proof fn lemma_circle3_reach()
    ensures
        forall|i: int|
            0 <= i < CIRCLE3_DIM ==> {
                &&& -3 <= (#[trigger] CIRCLE3_GEN[i])[0] <= 3
                &&& -3 <= CIRCLE3_GEN[i][1] <= 3
            },
{
}

/// No offset of the circle of radius 4 reaches further than 4 pixels on an axis.
pub proof fn lemma_circle4_reach()
    ensures
        forall|i: int|
            0 <= i < CIRCLE4_DIM ==> {
                &&& -4 <= (#[trigger] CIRCLE4_GEN[i])[0] <= 4
                &&& -4 <= CIRCLE4_GEN[i][1] <= 4
            },
{
}

/// The coordinate `delta` pixels away from `base`.
fn shifted(base: usize, delta: i32) -> (at: usize)
    requires
        0 <= base + delta <= usize::MAX,
    ensures
        at == base + delta,
{
    if delta >= 0 {
        base + (delta as usize)
    } else {
        base - ((0 - (delta as i64)) as usize)
    }
}

/// Get the timestamps from the circle of radius 3 that surrounds the given point.
pub fn c3_vals_for_point(sae_pol: &SaeMatrix, row: usize, col: usize) -> (res: RingVals)
    requires
        is_inset(sae_shape(*sae_pol), row as int, col as int, 3),
    ensures
        ring_vals(res) == circle3_at(sae_cells(*sae_pol), row as int, col as int),
{
    let mut res = ring_new();
    let mut i: usize = 0;
    while i < CIRCLE3_DIM
        invariant
            i <= CIRCLE3_DIM,
            is_inset(sae_shape(*sae_pol), row as int, col as int, 3),
            ring_vals(res) == circle3_at(sae_cells(*sae_pol), row as int, col as int).take(
                i as int,
            ),
        decreases CIRCLE3_DIM - i,
    {
        proof {
            lemma_circle3_reach();
        }
        let item = CIRCLE3_GEN[i];
        let a = shifted(row, item[0]);
        let b = shifted(col, item[1]);
        ring_push(&mut res, sae_pol.grid_at(a, b));
        i = i + 1;
    }
    res
}

/// Get the timestamps from the circle of radius 4 that surrounds the given point.
pub fn c4_vals_for_point(sae_pol: &SaeMatrix, row: usize, col: usize) -> (res: RingVals)
    requires
        is_inset(sae_shape(*sae_pol), row as int, col as int, 4),
    ensures
        ring_vals(res) == circle4_at(sae_cells(*sae_pol), row as int, col as int),
{
    let mut res = ring_new();
    let mut i: usize = 0;
    while i < CIRCLE4_DIM
        invariant
            i <= CIRCLE4_DIM,
            is_inset(sae_shape(*sae_pol), row as int, col as int, 4),
            ring_vals(res) == circle4_at(sae_cells(*sae_pol), row as int, col as int).take(
                i as int,
            ),
        decreases CIRCLE4_DIM - i,
    {
        proof {
            lemma_circle4_reach();
        }
        let item = CIRCLE4_GEN[i];
        let a = shifted(row, item[0]);
        let b = shifted(col, item[1]);
        ring_push(&mut res, sae_pol.grid_at(a, b));
        i = i + 1;
    }
    res
}

/// Find the freshest timestamp in the given circle: its index and its value.
/// Among equal timestamps the first one counts; an empty circle, or one that
/// holds only zeroes, gives (0, 0).
pub fn find_freshest_in_circle(circle_vals: &[SaeTime]) -> (newest: (usize, SaeTime))
    ensures
        newest.0 == freshest_idx(circle_vals@),
        newest.1 == freshest_val(circle_vals@),
        is_freshest(circle_vals@, newest.0 as int, newest.1),
{
    let mut newest_idx: usize = 0;
    let mut newest_val: SaeTime = 0;
    let mut i: usize = 0;
    while i < circle_vals.len()
        invariant
            i <= circle_vals@.len(),
            newest_idx == freshest_idx_upto(circle_vals@, i as int),
            newest_val == freshest_val_upto(circle_vals@, i as int),
        decreases circle_vals@.len() - i,
    {
        let val = circle_vals[i];
        if val > newest_val {
            newest_val = val;
            newest_idx = i;
        }
        i = i + 1;
    }
    proof {
        lemma_freshest(circle_vals@);
    }
    (newest_idx, newest_val)
}

/// The ring position after `idx`, clockwise.
fn ring_next(idx: usize, circle_dim: usize) -> (next: usize)
    requires
        idx < circle_dim,
    ensures
        next == if idx + 1 == circle_dim {
            0
        } else {
            idx + 1
        },
{
    if idx + 1 == circle_dim {
        0
    } else {
        idx + 1
    }
}

/// The ring position before `idx`, clockwise.
fn ring_prev(idx: usize, circle_dim: usize) -> (prev: usize)
    requires
        idx < circle_dim,
    ensures
        prev == if idx == 0 {
            circle_dim - 1
        } else {
            idx - 1
        },
{
    if idx == 0 {
        circle_dim - 1
    } else {
        idx - 1
    }
}

/// What ties the cursors and running minima of an expansion to its model.
spec fn cursors_match(
    ring: Seq<SaeTime>,
    newest: int,
    e: Expansion,
    cw_idx: usize,
    ccw_idx: usize,
    arc_cw_val: SaeTime,
    arc_ccw_val: SaeTime,
    arc_cw_oldest: SaeTime,
    arc_ccw_oldest: SaeTime,
    segment_oldest: SaeTime,
) -> bool {
    &&& 0 <= e.cw
    &&& 0 <= e.ccw
    &&& cw_idx == cw_pos(ring.len() as int, newest, e.cw)
    &&& ccw_idx == ccw_pos(ring.len() as int, newest, e.ccw)
    &&& arc_cw_val == ring[cw_idx as int]
    &&& arc_ccw_val == ring[ccw_idx as int]
    &&& arc_cw_oldest == cw_oldest(ring, newest, e.cw)
    &&& arc_ccw_oldest == ccw_oldest(ring, newest, e.ccw)
    &&& segment_oldest == e.segment_oldest
}

/// Returns the size of the arc segment that holds the freshest timestamps of the
/// ring made of the first `circle_dim` values, around the element at `newest_idx`.
pub fn arcstar_expand(
    circle_vals: &[SaeTime],
    circle_dim: usize,
    min_arc_size: usize,
    newest_idx: usize,
) -> (arc: usize)
    requires
        0 < circle_dim <= circle_vals@.len(),
        newest_idx < circle_dim,
    ensures
        arc == arc_length(
            circle_vals@.take(circle_dim as int),
            min_arc_size as int,
            newest_idx as int,
        ),
{
    let ghost ring = circle_vals@.take(circle_dim as int);
    let ghost newest = newest_idx as int;
    let ghost lmin = min_arc_size as int;

    let mut cw_idx: usize = ring_next(newest_idx, circle_dim);
    let mut ccw_idx: usize = ring_prev(newest_idx, circle_dim);

    let mut arc_cw_val = circle_vals[cw_idx];
    let mut arc_ccw_val = circle_vals[ccw_idx];
    let mut arc_cw_oldest = arc_cw_val;
    let mut arc_ccw_oldest = arc_ccw_val;
    let mut segment_oldest = SaeTime::MAX;

    let ghost mut e = after_bootstrap(ring, newest, lmin, 0);
    proof {
        lemma_walk_start(circle_dim as int, newest);
    }

    // Expand beginning with the elements that neighbour the newest one.
    let mut iteration: usize = 1;
    while iteration < min_arc_size
        invariant
            1 <= iteration,
            iteration <= min_arc_size || iteration == 1,
            0 < circle_dim <= circle_vals@.len(),
            lmin == min_arc_size,
            ring == circle_vals@.take(circle_dim as int),
            e == after_bootstrap(ring, newest, lmin, iteration - 1),
            e.arc_len == lmin,
            cursors_match(
                ring,
                newest,
                e,
                cw_idx,
                ccw_idx,
                arc_cw_val,
                arc_ccw_val,
                arc_cw_oldest,
                arc_ccw_oldest,
                segment_oldest,
            ),
        decreases min_arc_size - iteration,
    {
        proof {
            lemma_cw_next(circle_dim as int, newest, e.cw);
            lemma_ccw_next(circle_dim as int, newest, e.ccw);
            e = bootstrap_step(ring, newest, e);
        }
        // The walk whose head is fresher gives its head to the segment.
        if arc_cw_val > arc_ccw_val {
            if arc_cw_oldest < segment_oldest {
                segment_oldest = arc_cw_oldest;
            }
            cw_idx = ring_next(cw_idx, circle_dim);
            arc_cw_val = circle_vals[cw_idx];
            if arc_cw_val < arc_cw_oldest {
                arc_cw_oldest = arc_cw_val;
            }
        } else {
            if arc_ccw_oldest < segment_oldest {
                segment_oldest = arc_ccw_oldest;
            }
            ccw_idx = ring_prev(ccw_idx, circle_dim);
            arc_ccw_val = circle_vals[ccw_idx];
            if arc_ccw_val < arc_ccw_oldest {
                arc_ccw_oldest = arc_ccw_val;
            }
        }
        iteration = iteration + 1;
    }

    let mut freshest_arc_size: usize = min_arc_size;

    // Continue while the fresher head is no older than the segment.
    let mut iteration: usize = min_arc_size;
    while iteration < circle_dim
        invariant
            min_arc_size <= iteration,
            iteration <= circle_dim || iteration == min_arc_size,
            0 < circle_dim <= circle_vals@.len(),
            lmin == min_arc_size,
            ring == circle_vals@.take(circle_dim as int),
            e == after_growth(ring, newest, lmin, iteration as int),
            freshest_arc_size == e.arc_len,
            cursors_match(
                ring,
                newest,
                e,
                cw_idx,
                ccw_idx,
                arc_cw_val,
                arc_ccw_val,
                arc_cw_oldest,
                arc_ccw_oldest,
                segment_oldest,
            ),
        decreases circle_dim - iteration,
    {
        proof {
            lemma_cw_next(circle_dim as int, newest, e.cw);
            lemma_ccw_next(circle_dim as int, newest, e.ccw);
            e = growth_step(ring, newest, iteration as int, e);
        }
        if arc_cw_val > arc_ccw_val {
            if arc_cw_val >= segment_oldest {
                freshest_arc_size = iteration + 1;
                if arc_cw_oldest < segment_oldest {
                    segment_oldest = arc_cw_oldest;
                }
            }
            cw_idx = ring_next(cw_idx, circle_dim);
            arc_cw_val = circle_vals[cw_idx];
            if arc_cw_val < arc_cw_oldest {
                arc_cw_oldest = arc_cw_val;
            }
        } else {
            if arc_ccw_val >= segment_oldest {
                freshest_arc_size = iteration + 1;
                if arc_ccw_oldest < segment_oldest {
                    segment_oldest = arc_ccw_oldest;
                }
            }
            ccw_idx = ring_prev(ccw_idx, circle_dim);
            arc_ccw_val = circle_vals[ccw_idx];
            if arc_ccw_val < arc_ccw_oldest {
                arc_ccw_oldest = arc_ccw_val;
            }
        }
        iteration = iteration + 1;
    }

    freshest_arc_size
}

/// A ring read once around, starting at index `start`.
pub open spec fn rotated(ring: Seq<SaeTime>, start: int) -> Seq<SaeTime> {
    Seq::new(ring.len(), |i: int| ring[(i + start) % (ring.len() as int)])
}

/// The numerators of the descriptor built from an inner and an outer ring:
/// each ring read once around from its own freshest element, the inner ring
/// first.
pub open spec fn descriptor_samples(c3: Seq<SaeTime>, c4: Seq<SaeTime>) -> Seq<SaeTime> {
    rotated(c3, freshest_idx(c3)) + rotated(c4, freshest_idx(c4))
}

/// The denominator of the descriptor built from an inner and an outer ring: the
/// freshest timestamp of both.
pub open spec fn descriptor_freshest(c3: Seq<SaeTime>, c4: Seq<SaeTime>) -> SaeTime {
    if freshest_val(c3) >= freshest_val(c4) {
        freshest_val(c3)
    } else {
        freshest_val(c4)
    }
}

/// Whether the arc of freshest timestamps on an inner ring marks a corner.
pub open spec fn ring3_is_valid(c3: Seq<SaeTime>) -> bool {
    arc_is_valid(
        arc_length(c3, CIRCLE3_MIN_ARC_LEN as int, freshest_idx(c3)),
        CIRCLE3_DIM as int,
        CIRCLE3_MIN_ARC_LEN as int,
        CIRCLE3_MAX_ARC_LEN as int,
    )
}

/// Whether the arc of freshest timestamps on an outer ring marks a corner.
pub open spec fn ring4_is_valid(c4: Seq<SaeTime>) -> bool {
    arc_is_valid(
        arc_length(c4, CIRCLE4_MIN_ARC_LEN as int, freshest_idx(c4)),
        CIRCLE4_DIM as int,
        CIRCLE4_MIN_ARC_LEN as int,
        CIRCLE4_MAX_ARC_LEN as int,
    )
}

/// Whether both rings around (`row`, `col`) mark a corner.
pub open spec fn rings_are_valid(cells: Map<(int, int), SaeTime>, row: int, col: int) -> bool {
    ring3_is_valid(circle3_at(cells, row, col)) && ring4_is_valid(circle4_at(cells, row, col))
}

/// Whether `desc` is the descriptor of the surface around (`row`, `col`).
pub open spec fn is_descriptor_at(
    desc: NormDescriptor,
    cells: Map<(int, int), SaeTime>,
    row: int,
    col: int,
) -> bool {
    &&& desc.samples@ == descriptor_samples(circle3_at(cells, row, col), circle4_at(cells, row, col))
    &&& desc.freshest == descriptor_freshest(
        circle3_at(cells, row, col),
        circle4_at(cells, row, col),
    )
}

/// Whether the pixel (`row`, `col`) of a surface is a corner: it lies off the
/// border, and both rings around it mark a corner.
pub open spec fn is_corner(
    cells: Map<(int, int), SaeTime>,
    shape: (usize, usize),
    row: int,
    col: int,
) -> bool {
    is_inset(shape, row, col, BORDER_INSET as int) && rings_are_valid(cells, row, col)
}

/// Whether `after` is `before` with nothing but the descriptor changed.
pub open spec fn same_event(before: SaeEvent, after: SaeEvent) -> bool {
    &&& after.row == before.row
    &&& after.col == before.col
    &&& after.polarity == before.polarity
    &&& after.timestamp == before.timestamp
}

/// A ring of 16 whose arc marks a corner holds a timestamp above 0: on a ring
/// of zeroes the arc is the whole ring.
pub proof fn lemma_valid_ring3_has_event(c3: Seq<SaeTime>)
    requires
        c3.len() == CIRCLE3_DIM,
        ring3_is_valid(c3),
    ensures
        freshest_val(c3) > 0,
{
    lemma_freshest(c3);
    if freshest_val(c3) == 0 {
        lemma_uniform_ring_is_one_arc(c3, CIRCLE3_MIN_ARC_LEN as int, freshest_idx(c3));
    }
}

/// Where the inner ring marks a corner, the descriptor built from the two rings
/// has a positive denominator, and no numerator above it.
pub proof fn lemma_descriptor_is_normalized(c3: Seq<SaeTime>, c4: Seq<SaeTime>)
    requires
        c3.len() == CIRCLE3_DIM,
        c4.len() == CIRCLE4_DIM,
        ring3_is_valid(c3),
    ensures
        descriptor_freshest(c3, c4) > 0,
        descriptor_samples(c3, c4).len() == NORM_DESCRIPTOR_LEN,
        forall|k: int|
            0 <= k < NORM_DESCRIPTOR_LEN ==> #[trigger] descriptor_samples(c3, c4)[k]
                <= descriptor_freshest(c3, c4),
{
    lemma_valid_ring3_has_event(c3);
    lemma_freshest(c3);
    lemma_freshest(c4);
    assert forall|k: int| 0 <= k < NORM_DESCRIPTOR_LEN implies #[trigger] descriptor_samples(
        c3,
        c4,
    )[k] <= descriptor_freshest(c3, c4) by {
        if k < CIRCLE3_DIM {
            let at = (k + freshest_idx(c3)) % (CIRCLE3_DIM as int);
            assert(descriptor_samples(c3, c4)[k] == c3[at]);
        } else {
            let at = (k - CIRCLE3_DIM + freshest_idx(c4)) % (CIRCLE4_DIM as int);
            assert(descriptor_samples(c3, c4)[k] == c4[at]);
        }
    }
}

/// Returns whether the given point of the surface is a corner by its two rings,
/// and attaches the descriptor to the event if so.
pub fn arcstar_check_for_point(sae_pol: &SaeMatrix, evt: &mut SaeEvent) -> (valid: bool)
    requires
        is_inset(sae_shape(*sae_pol), old(evt).row as int, old(evt).col as int, BORDER_INSET as int),
    ensures
        valid == rings_are_valid(sae_cells(*sae_pol), old(evt).row as int, old(evt).col as int),
        same_event(*old(evt), *final(evt)),
        valid ==> {
            &&& final(evt).norm_descriptor matches Some(desc)
            &&& is_descriptor_at(
                *desc,
                sae_cells(*sae_pol),
                old(evt).row as int,
                old(evt).col as int,
            )
            &&& desc.is_normalized()
        },
        !valid ==> final(evt).norm_descriptor == old(evt).norm_descriptor,
{
    let row = evt.row as usize;
    let col = evt.col as usize;

    let c3_vals: RingVals = c3_vals_for_point(sae_pol, row, col);
    let c3_vals_slice = ring_as_slice(&c3_vals);
    let (freshest_c3_idx, freshest_c3_val) = find_freshest_in_circle(c3_vals_slice);
    assert(c3_vals_slice@.take(CIRCLE3_DIM as int) == c3_vals_slice@);
    let freshest_c3_segment_size = arcstar_expand(
        c3_vals_slice,
        CIRCLE3_DIM,
        CIRCLE3_MIN_ARC_LEN,
        freshest_c3_idx,
    );

    let mut arc_valid = (freshest_c3_segment_size <= CIRCLE3_MAX_ARC_LEN) || ((
    freshest_c3_segment_size >= (CIRCLE3_DIM - CIRCLE3_MAX_ARC_LEN)) && (freshest_c3_segment_size
        <= (CIRCLE3_DIM - CIRCLE3_MIN_ARC_LEN)));

    if arc_valid {
        let c4_vals: RingVals = c4_vals_for_point(sae_pol, row, col);
        let c4_vals_slice = ring_as_slice(&c4_vals);

        let (freshest_c4_idx, freshest_c4_val) = find_freshest_in_circle(c4_vals_slice);
        assert(c4_vals_slice@.take(CIRCLE4_DIM as int) == c4_vals_slice@);
        let freshest_c4_segment_size = arcstar_expand(
            c4_vals_slice,
            CIRCLE4_DIM,
            CIRCLE4_MIN_ARC_LEN,
            freshest_c4_idx,
        );
        arc_valid = (freshest_c4_segment_size <= CIRCLE4_MAX_ARC_LEN) || ((freshest_c4_segment_size
            >= (CIRCLE4_DIM - CIRCLE4_MAX_ARC_LEN)) && (freshest_c4_segment_size <= (CIRCLE4_DIM
            - CIRCLE4_MIN_ARC_LEN)));

        if arc_valid {
            // The descriptor is a fingerprint of the event, taken from the shape of
            // the surface around it.
            let freshest_seg_val: SaeTime = if freshest_c3_val >= freshest_c4_val {
                freshest_c3_val
            } else {
                freshest_c4_val
            };
            let mut desc_idx: usize = 0;
            let mut samples: [SaeTime; NORM_DESCRIPTOR_LEN] = [0;NORM_DESCRIPTOR_LEN];
            let ghost wanted = descriptor_samples(c3_vals_slice@, c4_vals_slice@);
            // Walk around the inner ring from its freshest element.
            let mut c3_idx: usize = 0;
            while c3_idx < c3_vals_slice.len()
                invariant
                    c3_vals_slice@.len() == CIRCLE3_DIM,
                    c4_vals_slice@.len() == CIRCLE4_DIM,
                    c3_idx <= CIRCLE3_DIM,
                    desc_idx == c3_idx,
                    freshest_c3_idx == freshest_idx(c3_vals_slice@),
                    freshest_c3_idx < CIRCLE3_DIM,
                    wanted == descriptor_samples(c3_vals_slice@, c4_vals_slice@),
                    forall|k: int| 0 <= k < desc_idx ==> samples@[k] == wanted[k],
                decreases CIRCLE3_DIM - c3_idx,
            {
                let true_idx = (c3_idx + freshest_c3_idx) % c3_vals_slice.len();
                let val = c3_vals_slice[true_idx];
                samples[desc_idx] = val;
                desc_idx += 1;
                c3_idx += 1;
            }
            // Walk around the outer ring from its freshest element.
            let mut c4_idx: usize = 0;
            while c4_idx < c4_vals_slice.len()
                invariant
                    c3_vals_slice@.len() == CIRCLE3_DIM,
                    c4_vals_slice@.len() == CIRCLE4_DIM,
                    c4_idx <= CIRCLE4_DIM,
                    desc_idx == CIRCLE3_DIM + c4_idx,
                    freshest_c4_idx == freshest_idx(c4_vals_slice@),
                    freshest_c4_idx < CIRCLE4_DIM,
                    wanted == descriptor_samples(c3_vals_slice@, c4_vals_slice@),
                    forall|k: int| 0 <= k < desc_idx ==> samples@[k] == wanted[k],
                decreases CIRCLE4_DIM - c4_idx,
            {
                let true_idx = (c4_idx + freshest_c4_idx) % c4_vals_slice.len();
                let val = c4_vals_slice[true_idx];
                samples[desc_idx] = val;
                desc_idx += 1;
                c4_idx += 1;
            }
            assert(samples@ =~= wanted);
            proof {
                lemma_descriptor_is_normalized(c3_vals_slice@, c4_vals_slice@);
            }

            evt.norm_descriptor = Some(
                Box::new(NormDescriptor { samples, freshest: freshest_seg_val }),
            );
        }
    }

    arc_valid
}

/// Whether no event has been recorded anywhere on a surface.
pub open spec fn is_blank(cells: Map<(int, int), SaeTime>, shape: (usize, usize)) -> bool {
    forall|r: int, c: int| on_surface(shape, r, c) ==> #[trigger] cells[(r, c)] == 0
}

/// Whether two surfaces of one extent hold the same timestamps.
pub open spec fn same_cells(
    cells1: Map<(int, int), SaeTime>,
    cells2: Map<(int, int), SaeTime>,
    shape: (usize, usize),
) -> bool {
    forall|r: int, c: int| on_surface(shape, r, c) ==> #[trigger] cells1[(r, c)] == cells2[(r, c)]
}

/// Around a pixel that is off the border, both rings lie on the surface.
pub proof fn lemma_rings_on_surface(shape: (usize, usize), row: int, col: int)
    requires
        is_inset(shape, row, col, BORDER_INSET as int),
    ensures
        forall|i: int|
            0 <= i < CIRCLE3_DIM ==> on_surface(
                shape,
                row + (#[trigger] CIRCLE3_GEN[i])[0],
                col + CIRCLE3_GEN[i][1],
            ),
        forall|i: int|
            0 <= i < CIRCLE4_DIM ==> on_surface(
                shape,
                row + (#[trigger] CIRCLE4_GEN[i])[0],
                col + CIRCLE4_GEN[i][1],
            ),
{
    lemma_circle3_reach();
    lemma_circle4_reach();
}

/// A pixel within `BORDER_INSET` pixels of an edge of the surface is never a
/// corner, whatever the surface holds.
pub proof fn lemma_border_is_no_corner(
    cells: Map<(int, int), SaeTime>,
    shape: (usize, usize),
    row: int,
    col: int,
)
    requires
        row < BORDER_INSET || row >= shape.0 - BORDER_INSET || col < BORDER_INSET || col >= shape.1
            - BORDER_INSET,
    ensures
        !is_corner(cells, shape, row, col),
{
}

/// A pixel whose inner ring holds one timestamp all around is never a corner.
pub proof fn lemma_flat_ring_is_no_corner(
    cells: Map<(int, int), SaeTime>,
    shape: (usize, usize),
    row: int,
    col: int,
)
    requires
        forall|i: int, j: int|
            0 <= i < CIRCLE3_DIM && 0 <= j < CIRCLE3_DIM ==> circle3_at(cells, row, col)[i]
                == circle3_at(cells, row, col)[j],
    ensures
        !is_corner(cells, shape, row, col),
{
    let c3 = circle3_at(cells, row, col);
    lemma_uniform_ring_is_one_arc(c3, CIRCLE3_MIN_ARC_LEN as int, freshest_idx(c3));
}

/// A surface on which no event has been recorded has no corner.
pub proof fn lemma_blank_surface_has_no_corner(
    cells: Map<(int, int), SaeTime>,
    shape: (usize, usize),
    row: int,
    col: int,
)
    requires
        is_blank(cells, shape),
    ensures
        !is_corner(cells, shape, row, col),
{
    if is_inset(shape, row, col, BORDER_INSET as int) {
        lemma_rings_on_surface(shape, row, col);
        let c3 = circle3_at(cells, row, col);
        assert forall|i: int| 0 <= i < CIRCLE3_DIM implies c3[i] == 0 by {
            assert(on_surface(shape, row + CIRCLE3_GEN[i][0], col + CIRCLE3_GEN[i][1]));
        }
        lemma_flat_ring_is_no_corner(cells, shape, row, col);
    }
}

/// The decision and the descriptor at a pixel are determined by the surface:
/// two surfaces of one extent that hold the same timestamps agree on whether the
/// pixel is a corner, and on its descriptor.
pub proof fn lemma_detection_is_determined(
    cells1: Map<(int, int), SaeTime>,
    cells2: Map<(int, int), SaeTime>,
    shape: (usize, usize),
    row: int,
    col: int,
    desc1: NormDescriptor,
    desc2: NormDescriptor,
)
    requires
        same_cells(cells1, cells2, shape),
    ensures
        is_corner(cells1, shape, row, col) == is_corner(cells2, shape, row, col),
        is_inset(shape, row, col, BORDER_INSET as int) && is_descriptor_at(desc1, cells1, row, col)
            && is_descriptor_at(desc2, cells2, row, col) ==> desc1 == desc2,
{
    if is_inset(shape, row, col, BORDER_INSET as int) {
        lemma_rings_on_surface(shape, row, col);
        assert forall|i: int| 0 <= i < CIRCLE3_DIM implies circle3_at(cells1, row, col)[i]
            == circle3_at(cells2, row, col)[i] by {
            assert(on_surface(shape, row + CIRCLE3_GEN[i][0], col + CIRCLE3_GEN[i][1]));
        }
        assert forall|i: int| 0 <= i < CIRCLE4_DIM implies circle4_at(cells1, row, col)[i]
            == circle4_at(cells2, row, col)[i] by {
            assert(on_surface(shape, row + CIRCLE4_GEN[i][0], col + CIRCLE4_GEN[i][1]));
        }
        assert(circle3_at(cells1, row, col) =~= circle3_at(cells2, row, col));
        assert(circle4_at(cells1, row, col) =~= circle4_at(cells2, row, col));
        if is_descriptor_at(desc1, cells1, row, col) && is_descriptor_at(desc2, cells2, row, col) {
            assert(desc1.samples@ == desc2.samples@);
            assert(desc1.samples =~= desc2.samples);
        }
    }
}

/// Returns whether the event sits on a corner of the surface, and attaches the
/// descriptor to the event if so. An event within `BORDER_INSET` pixels of an
/// edge is never a corner.
pub fn arcstar_is_event_corner(sae_pol: &SaeMatrix, evt: &mut SaeEvent) -> (corner: bool)
    ensures
        corner == is_corner(
            sae_cells(*sae_pol),
            sae_shape(*sae_pol),
            old(evt).row as int,
            old(evt).col as int,
        ),
        same_event(*old(evt), *final(evt)),
        corner ==> {
            &&& final(evt).norm_descriptor matches Some(desc)
            &&& is_descriptor_at(
                *desc,
                sae_cells(*sae_pol),
                old(evt).row as int,
                old(evt).col as int,
            )
            &&& desc.is_normalized()
        },
        !corner ==> final(evt).norm_descriptor == old(evt).norm_descriptor,
{
    let row = evt.row as usize;
    let col = evt.col as usize;

    // Filter out events too close to the border of the surface.
    let (nrows, ncols) = sae_pol.grid_shape();
    if (col < BORDER_INSET) || (ncols < BORDER_INSET) || (col >= (ncols - BORDER_INSET)) || (row
        < BORDER_INSET) || (nrows < BORDER_INSET) || (row >= (nrows - BORDER_INSET)) {
        return false;
    }
    arcstar_check_for_point(sae_pol, evt)
}

/// Detect whether the input event is a corner, and compute its descriptor if so:
/// returns a copy of the event with the computed descriptor if it is a corner,
/// and nothing if it is not.
pub fn detect_and_compute_one(sae_pol: &SaeMatrix, evt: &SaeEvent) -> (found: Option<SaeEvent>)
    ensures
        found is Some <==> is_corner(
            sae_cells(*sae_pol),
            sae_shape(*sae_pol),
            evt.row as int,
            evt.col as int,
        ),
        found matches Some(out_evt) ==> {
            &&& same_event(*evt, out_evt)
            &&& out_evt.norm_descriptor matches Some(desc)
            &&& is_descriptor_at(*desc, sae_cells(*sae_pol), evt.row as int, evt.col as int)
            &&& desc.is_normalized()
            &&& desc.samples@.len() == NORM_DESCRIPTOR_LEN
        },
        !is_inset(sae_shape(*sae_pol), evt.row as int, evt.col as int, BORDER_INSET as int)
            ==> found is None,
        is_blank(sae_cells(*sae_pol), sae_shape(*sae_pol)) ==> found is None,
{
    proof {
        if is_blank(sae_cells(*sae_pol), sae_shape(*sae_pol)) {
            lemma_blank_surface_has_no_corner(
                sae_cells(*sae_pol),
                sae_shape(*sae_pol),
                evt.row as int,
                evt.col as int,
            );
        }
    }
    let mut out_evt = SaeEvent {
        row: evt.row,
        col: evt.col,
        polarity: evt.polarity,
        timestamp: evt.timestamp,
        norm_descriptor: None,
    };

    match arcstar_is_event_corner(sae_pol, &mut out_evt) {
        true => Some(out_evt),
        false => None,
    }
}

} // verus!
