//! Types for a surface of active events (SAE), as used with event cameras: the
//! change event, its appearance descriptor, and the measures that compare two
//! events.

use vstd::prelude::*;

verus! {

/// The type used to store timestamps in the surface of active events.
pub type SaeTime = u32;

/// The number of values in an appearance descriptor: 16 from the inner ring
/// followed by 20 from the outer ring.
pub const NORM_DESCRIPTOR_LEN: usize = 36;

/// A crude feature descriptor that allows a limited number of comparison points.
///
/// The descriptor holds normalized values as exact fractions over one common
/// denominator: value `i` is `samples[i] / freshest`.
#[derive(Clone, Copy, Debug, PartialEq, Eq)]
pub struct NormDescriptor {
    /// The numerators: timestamps sampled around the event.
    pub samples: [SaeTime; NORM_DESCRIPTOR_LEN],
    /// The common denominator: the freshest timestamp that was sampled.
    pub freshest: SaeTime,
}

impl NormDescriptor {
    /// Every value is a fraction between 0 and 1.
    pub open spec fn is_normalized(&self) -> bool {
        &&& self.freshest > 0
        &&& forall|i: int| 0 <= i < NORM_DESCRIPTOR_LEN ==> #[trigger] self.samples@[i] <= self.freshest
    }

    /// Value `i`, scaled to the denominator shared with a descriptor whose
    /// denominator is `other_freshest`.
    pub open spec fn scaled(&self, i: int, other_freshest: SaeTime) -> nat {
        self.samples@[i] as nat * other_freshest as nat
    }

    /// The sum of the first `n` values, scaled as in `scaled`.
    pub open spec fn weight(&self, other_freshest: SaeTime, n: int) -> nat
        decreases n,
    {
        if n <= 0 {
            0
        } else {
            self.weight(other_freshest, n - 1) + self.scaled(n - 1, other_freshest)
        }
    }

    /// The sum, over the first `n` positions, of the smaller of the two
    /// descriptors' values, both scaled to their shared denominator.
    pub open spec fn shared_weight(&self, other: NormDescriptor, n: int) -> nat
        decreases n,
    {
        if n <= 0 {
            0
        } else {
            self.shared_weight(other, n - 1) + smaller(
                self.scaled(n - 1, other.freshest),
                other.scaled(n - 1, self.freshest),
            )
        }
    }
}

/// The smaller of two numbers.
pub open spec fn smaller(x: nat, y: nat) -> nat {
    if x <= y {
        x
    } else {
        y
    }
}

/// The larger of two numbers.
pub open spec fn larger(x: nat, y: nat) -> nat {
    if x <= y {
        y
    } else {
        x
    }
}

/// How alike two descriptors are, as the exact fraction `shared / total`.
#[derive(Clone, Copy, Debug, PartialEq, Eq)]
pub struct Likeness {
    /// The weight that the two descriptors have in common.
    pub shared: u128,
    /// The weight of the heavier descriptor.
    pub total: u128,
}

/// The main change event struct.
#[derive(Clone, Debug)]
pub struct SaeEvent {
    pub row: u16,
    pub col: u16,
    pub polarity: u8,
    pub timestamp: SaeTime,
    pub norm_descriptor: Option<Box<NormDescriptor>>,
}

impl PartialEq for SaeEvent {
    /// Two events are equal when they agree on place, polarity and time; the
    /// descriptors are not compared.
    fn eq(&self, other: &SaeEvent) -> (r: bool) {
        self.row == other.row && self.col == other.col && self.polarity == other.polarity
            && self.timestamp == other.timestamp
    }
}

impl vstd::std_specs::cmp::PartialEqSpecImpl for SaeEvent {
    open spec fn obeys_eq_spec() -> bool {
        true
    }

    open spec fn eq_spec(&self, other: &SaeEvent) -> bool {
        self.row == other.row && self.col == other.col && self.polarity == other.polarity
            && self.timestamp == other.timestamp
    }
}

impl Default for SaeEvent {
    fn default() -> (evt: Self)
        ensures
            evt.row == 0,
            evt.col == 0,
            evt.polarity == 0,
            evt.timestamp == 0,
            evt.norm_descriptor is None,
    {
        SaeEvent { row: 0, col: 0, polarity: 0, timestamp: 0, norm_descriptor: None }
    }
}

/// The distance between two coordinates on one axis.
pub open spec fn axis_dist(a: u16, b: u16) -> nat {
    if a <= b {
        (b - a) as nat
    } else {
        (a - b) as nat
    }
}

/// The distance between two coordinates on one axis.
fn axis_delta(a: u16, b: u16) -> (d: u32)
    ensures
        d == axis_dist(a, b),
{
    if a <= b {
        (b - a) as u32
    } else {
        (a - b) as u32
    }
}

impl SaeEvent {
    /// The square of the euclidean distance between the pixels of two events.
    pub open spec fn dist_2(&self, other: &SaeEvent) -> nat {
        axis_dist(self.row, other.row) * axis_dist(self.row, other.row) + axis_dist(
            self.col,
            other.col,
        ) * axis_dist(self.col, other.col)
    }

    /// The manhattan distance between the pixels of two events.
    pub open spec fn rl_dist(&self, other: &SaeEvent) -> nat {
        axis_dist(self.row, other.row) + axis_dist(self.col, other.col)
    }

    /// The weight that the descriptors of two events share: 0 when either has none.
    pub open spec fn likeness_shared(&self, b: &SaeEvent) -> nat {
        match (self.norm_descriptor, b.norm_descriptor) {
            (Some(a_desc), Some(b_desc)) => a_desc.shared_weight(
                *b_desc,
                NORM_DESCRIPTOR_LEN as int,
            ),
            _ => 0,
        }
    }

    /// The weight of the heavier of the descriptors of two events: 1 when either
    /// has none.
    pub open spec fn likeness_total(&self, b: &SaeEvent) -> nat {
        match (self.norm_descriptor, b.norm_descriptor) {
            (Some(a_desc), Some(b_desc)) => larger(
                a_desc.weight(b_desc.freshest, NORM_DESCRIPTOR_LEN as int),
                b_desc.weight(a_desc.freshest, NORM_DESCRIPTOR_LEN as int),
            ),
            _ => 1,
        }
    }

    /// An event at the origin, at time 0, without a descriptor.
    pub fn new() -> (evt: Self)
        ensures
            evt.row == 0,
            evt.col == 0,
            evt.polarity == 0,
            evt.timestamp == 0,
            evt.norm_descriptor is None,
    {
        Self::default()
    }

    /// Square of the euclidean distance between two events.
    pub fn spatial_dist_2(&self, other: &Self) -> (d: u32)
        requires
            self.dist_2(other) <= u32::MAX,
        ensures
            d == self.dist_2(other),
    {
        let drow: u32 = axis_delta(self.row, other.row);
        let dcol: u32 = axis_delta(self.col, other.col);
        assert(0 <= drow * drow && 0 <= dcol * dcol) by (nonlinear_arith);
        drow * drow + dcol * dcol
    }

    /// Manhattan distance or rectilinear distance between two events.
    pub fn spatial_rl_dist(&self, other: &Self) -> (d: u32)
        ensures
            d == self.rl_dist(other),
    {
        let drow: u32 = axis_delta(self.row, other.row);
        let dcol: u32 = axis_delta(self.col, other.col);
        drow + dcol
    }

    /// How alike the descriptors of two events are, from 0 (nothing in common) to
    /// 1 (the same): the sum of the pairwise smaller values over the larger of the
    /// two sums. Without a descriptor on either side the likeness is 0.
    ///
    /// The quotient `shared / total` is that likeness whenever both descriptors
    /// have a positive denominator. Where it is 0 / 0, both descriptors hold only
    /// zeroes and the likeness is undefined.
    pub fn likeness(&self, b: &SaeEvent) -> (r: Likeness)
        ensures
            r.shared == self.likeness_shared(b),
            r.total == self.likeness_total(b),
            self.norm_descriptor is None || b.norm_descriptor is None ==> r.shared == 0 && r.total
                == 1,
    {
        let a_desc = match &self.norm_descriptor {
            Some(p) => p,
            None => {
                return Likeness { shared: 0, total: 1 };
            },
        };
        let b_desc = match &b.norm_descriptor {
            Some(p) => p,
            None => {
                return Likeness { shared: 0, total: 1 };
            },
        };

        let fa: u128 = a_desc.freshest as u128;
        let fb: u128 = b_desc.freshest as u128;
        let mut da_total: u128 = 0;
        let mut db_total: u128 = 0;
        let mut min_total: u128 = 0;

        let mut i: usize = 0;
        while i < NORM_DESCRIPTOR_LEN
            invariant
                i <= NORM_DESCRIPTOR_LEN,
                fa == a_desc.freshest,
                fb == b_desc.freshest,
                da_total == a_desc.weight(b_desc.freshest, i as int),
                db_total == b_desc.weight(a_desc.freshest, i as int),
                min_total == a_desc.shared_weight(**b_desc, i as int),
                da_total <= i * 0x1_0000_0000_0000_0000,
                db_total <= i * 0x1_0000_0000_0000_0000,
                min_total <= i * 0x1_0000_0000_0000_0000,
            decreases NORM_DESCRIPTOR_LEN - i,
        {
            let sa: u128 = a_desc.samples[i] as u128;
            let sb: u128 = b_desc.samples[i] as u128;
            assert(sa * fb <= 0xffff_ffff * 0xffff_ffff && sb * fa <= 0xffff_ffff * 0xffff_ffff)
                by (nonlinear_arith)
                requires
                    sa <= 0xffff_ffff,
                    sb <= 0xffff_ffff,
                    fa <= 0xffff_ffff,
                    fb <= 0xffff_ffff,
            ;
            let da: u128 = sa * fb;
            let db: u128 = sb * fa;
            da_total = da_total + da;
            db_total = db_total + db;
            min_total = min_total + if da <= db {
                da
            } else {
                db
            };
            i = i + 1;
        }

        let max_total = if da_total <= db_total {
            db_total
        } else {
            da_total
        };

        Likeness { shared: min_total, total: max_total }
    }
}

/// Both distances are the same in either direction.
pub proof fn lemma_dist_symmetric(a: SaeEvent, b: SaeEvent)
    ensures
        a.dist_2(&b) == b.dist_2(&a),
        a.rl_dist(&b) == b.rl_dist(&a),
{
}

/// Both distances are 0 between events on one pixel, and only between those.
pub proof fn lemma_dist_zero_iff_same_pixel(a: SaeEvent, b: SaeEvent)
    ensures
        a.dist_2(&b) == 0 <==> a.row == b.row && a.col == b.col,
        a.rl_dist(&b) == 0 <==> a.row == b.row && a.col == b.col,
{
    let drow = axis_dist(a.row, b.row);
    let dcol = axis_dist(a.col, b.col);
    assert(drow * drow + dcol * dcol == 0 <==> drow == 0 && dcol == 0) by (nonlinear_arith);
}

/// What two descriptors share weighs no more than either of them.
pub proof fn lemma_shared_weight_bounded(a: NormDescriptor, b: NormDescriptor, n: int)
    ensures
        a.shared_weight(b, n) <= a.weight(b.freshest, n),
        a.shared_weight(b, n) <= b.weight(a.freshest, n),
    decreases n,
{
    if n > 0 {
        lemma_shared_weight_bounded(a, b, n - 1);
    }
}

/// What two descriptors share does not depend on their order.
pub proof fn lemma_shared_weight_symmetric(a: NormDescriptor, b: NormDescriptor, n: int)
    ensures
        a.shared_weight(b, n) == b.shared_weight(a, n),
    decreases n,
{
    if n > 0 {
        lemma_shared_weight_symmetric(a, b, n - 1);
    }
}

/// Two descriptors share the whole weight of both exactly when they hold the same
/// values.
pub proof fn lemma_shared_weight_is_whole_iff_same(a: NormDescriptor, b: NormDescriptor, n: int)
    ensures
        (a.shared_weight(b, n) == a.weight(b.freshest, n) && a.shared_weight(b, n) == b.weight(
            a.freshest,
            n,
        )) <==> (forall|i: int|
            0 <= i < n ==> #[trigger] a.scaled(i, b.freshest) == b.scaled(i, a.freshest)),
    decreases n,
{
    if n > 0 {
        lemma_shared_weight_is_whole_iff_same(a, b, n - 1);
        lemma_shared_weight_bounded(a, b, n - 1);
        if forall|i: int|
            0 <= i < n ==> #[trigger] a.scaled(i, b.freshest) == b.scaled(i, a.freshest) {
            assert(a.scaled(n - 1, b.freshest) == b.scaled(n - 1, a.freshest));
        }
    }
}

/// The likeness of two events is a fraction of at most 1.
pub proof fn lemma_likeness_bounded(a: SaeEvent, b: SaeEvent)
    ensures
        a.likeness_shared(&b) <= a.likeness_total(&b),
{
    if let (Some(a_desc), Some(b_desc)) = (a.norm_descriptor, b.norm_descriptor) {
        lemma_shared_weight_bounded(*a_desc, *b_desc, NORM_DESCRIPTOR_LEN as int);
    }
}

/// The likeness of two events does not depend on their order.
pub proof fn lemma_likeness_symmetric(a: SaeEvent, b: SaeEvent)
    ensures
        a.likeness_shared(&b) == b.likeness_shared(&a),
        a.likeness_total(&b) == b.likeness_total(&a),
{
    if let (Some(a_desc), Some(b_desc)) = (a.norm_descriptor, b.norm_descriptor) {
        lemma_shared_weight_symmetric(*a_desc, *b_desc, NORM_DESCRIPTOR_LEN as int);
    }
}

/// The likeness of an event that has a descriptor to itself is `total / total`:
/// 1 unless the descriptor holds only zeroes.
pub proof fn lemma_likeness_to_itself(a: SaeEvent)
    requires
        a.norm_descriptor is Some,
    ensures
        a.likeness_shared(&a) == a.likeness_total(&a),
{
    let desc = *a.norm_descriptor->0;
    lemma_shared_weight_is_whole_iff_same(desc, desc, NORM_DESCRIPTOR_LEN as int);
}

/// The likeness of two events with descriptors is 1 exactly when the descriptors
/// hold the same values, not all of them 0.
pub proof fn lemma_likeness_is_one_iff_same(a: SaeEvent, b: SaeEvent)
    requires
        a.norm_descriptor is Some,
        b.norm_descriptor is Some,
    ensures
        (a.likeness_shared(&b) == a.likeness_total(&b) && a.likeness_total(&b) > 0) <==> ((forall|
            i: int,
        |
            0 <= i < NORM_DESCRIPTOR_LEN ==> #[trigger] a.norm_descriptor->0.scaled(
                i,
                b.norm_descriptor->0.freshest,
            ) == b.norm_descriptor->0.scaled(i, a.norm_descriptor->0.freshest))
            && a.likeness_total(&b) > 0),
{
    let a_desc = *a.norm_descriptor->0;
    let b_desc = *b.norm_descriptor->0;
    lemma_shared_weight_is_whole_iff_same(a_desc, b_desc, NORM_DESCRIPTOR_LEN as int);
    lemma_shared_weight_bounded(a_desc, b_desc, NORM_DESCRIPTOR_LEN as int);
}

/// Without a descriptor on either side, the likeness of two events is 0.
pub proof fn lemma_likeness_without_descriptor(a: SaeEvent, b: SaeEvent)
    requires
        a.norm_descriptor is None || b.norm_descriptor is None,
    ensures
        a.likeness_shared(&b) == 0,
        a.likeness_total(&b) == 1,
{
}

} // verus!
