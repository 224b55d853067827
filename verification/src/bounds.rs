//! The bounding box of a sequence of complex numbers.
//!
//! The numbers are held as bit patterns (see [`crate::binary64`]), so that the
//! extremes can be found with integer comparisons alone.

use vstd::prelude::*;
use crate::binary64::{
    greater, lemma_rank_is_injective, lesser, maximum, minimum, spec_is_nan, spec_rank,
    NEGATIVE_INFINITY, POSITIVE_INFINITY,
};
use crate::error::RenderError;

verus! {

/// A complex number: the bit patterns of its real and imaginary parts.
#[derive(Clone, Copy, Debug, PartialEq, Eq, Structural)]
pub struct ComplexBits {
    pub re: u64,
    pub im: u64,
}

/// The smallest axis-aligned rectangle around a sequence, as four bit patterns.
#[derive(Clone, Copy, Debug, PartialEq, Eq, Structural)]
pub struct BoundingBox {
    pub min_re: u64,
    pub max_re: u64,
    pub min_im: u64,
    pub max_im: u64,
}

/// The real parts of a sequence, in order.
pub open spec fn real_parts(samples: Seq<ComplexBits>) -> Seq<u64> {
    Seq::new(samples.len(), |i: int| samples[i].re)
}

/// The imaginary parts of a sequence, in order.
pub open spec fn imaginary_parts(samples: Seq<ComplexBits>) -> Seq<u64> {
    Seq::new(samples.len(), |i: int| samples[i].im)
}

/// Whether some entry of `values` is a number, that is, not a NaN.
pub open spec fn holds_a_number(values: Seq<u64>) -> bool {
    exists|i: int| 0 <= i < values.len() && !spec_is_nan(#[trigger] values[i])
}

/// `m` is the least number among `values`: it occurs there, it is not a NaN,
/// and no number there ranks below it. Where `values` holds no number at all
/// the minimum is positive infinity.
pub open spec fn is_minimum_of(values: Seq<u64>, m: u64) -> bool {
    if holds_a_number(values) {
        &&& !spec_is_nan(m)
        &&& values.contains(m)
        &&& forall|i: int|
            0 <= i < values.len() && !spec_is_nan(#[trigger] values[i]) ==> spec_rank(m)
                <= spec_rank(values[i])
    } else {
        m == POSITIVE_INFINITY
    }
}

/// `m` is the greatest number among `values`: it occurs there, it is not a
/// NaN, and no number there ranks above it. Where `values` holds no number at
/// all the maximum is negative infinity.
pub open spec fn is_maximum_of(values: Seq<u64>, m: u64) -> bool {
    if holds_a_number(values) {
        &&& !spec_is_nan(m)
        &&& values.contains(m)
        &&& forall|i: int|
            0 <= i < values.len() && !spec_is_nan(#[trigger] values[i]) ==> spec_rank(values[i])
                <= spec_rank(m)
    } else {
        m == NEGATIVE_INFINITY
    }
}

/// `b` bounds `samples` on both axes.
pub open spec fn is_bounding_box_of(samples: Seq<ComplexBits>, b: BoundingBox) -> bool {
    &&& is_minimum_of(real_parts(samples), b.min_re)
    &&& is_maximum_of(real_parts(samples), b.max_re)
    &&& is_minimum_of(imaginary_parts(samples), b.min_im)
    &&& is_maximum_of(imaginary_parts(samples), b.max_im)
}

/// The minimum of a sequence with one more value at its end is the lesser
/// of the old minimum and that value.
proof fn lemma_minimum_extends(values: Seq<u64>, m: u64, x: u64)
    requires
        is_minimum_of(values, m),
    ensures
        is_minimum_of(values.push(x), lesser(m, x)),
{
    let longer = values.push(x);
    let r = lesser(m, x);
    assert(forall|i: int| 0 <= i < values.len() ==> longer[i] == values[i]);
    assert(longer[values.len() as int] == x);
    if holds_a_number(values) {
        let w = choose|i: int| 0 <= i < values.len() && !spec_is_nan(#[trigger] values[i]);
        assert(!spec_is_nan(longer[w]));
        assert(holds_a_number(longer));
        let at = choose|i: int| 0 <= i < values.len() && values[i] == m;
        assert(longer[at] == m);
        assert(longer.contains(r));
    } else if spec_is_nan(x) {
        assert forall|i: int| 0 <= i < longer.len() implies spec_is_nan(#[trigger] longer[i]) by {
            if i < values.len() {
                assert(longer[i] == values[i]);
            }
        }
        assert(!holds_a_number(longer));
    } else {
        assert(holds_a_number(longer));
        if spec_rank(x) >= spec_rank(POSITIVE_INFINITY) {
            lemma_rank_is_injective(x, POSITIVE_INFINITY);
        }
        assert(longer.contains(r));
        assert forall|i: int|
            0 <= i < longer.len() && !spec_is_nan(#[trigger] longer[i]) implies spec_rank(r)
            <= spec_rank(longer[i]) by {
            if i < values.len() {
                assert(longer[i] == values[i]);
                assert(!spec_is_nan(values[i]));
            }
        }
    }
}

/// The maximum of a sequence with one more value at its end is the greater
/// of the old maximum and that value.
proof fn lemma_maximum_extends(values: Seq<u64>, m: u64, x: u64)
    requires
        is_maximum_of(values, m),
    ensures
        is_maximum_of(values.push(x), greater(m, x)),
{
    let longer = values.push(x);
    let r = greater(m, x);
    assert(forall|i: int| 0 <= i < values.len() ==> longer[i] == values[i]);
    assert(longer[values.len() as int] == x);
    if holds_a_number(values) {
        let w = choose|i: int| 0 <= i < values.len() && !spec_is_nan(#[trigger] values[i]);
        assert(!spec_is_nan(longer[w]));
        assert(holds_a_number(longer));
        let at = choose|i: int| 0 <= i < values.len() && values[i] == m;
        assert(longer[at] == m);
        assert(longer.contains(r));
    } else if spec_is_nan(x) {
        assert forall|i: int| 0 <= i < longer.len() implies spec_is_nan(#[trigger] longer[i]) by {
            if i < values.len() {
                assert(longer[i] == values[i]);
            }
        }
        assert(!holds_a_number(longer));
    } else {
        assert(holds_a_number(longer));
        if spec_rank(x) <= spec_rank(NEGATIVE_INFINITY) {
            lemma_rank_is_injective(x, NEGATIVE_INFINITY);
        }
        assert(longer.contains(r));
        assert forall|i: int|
            0 <= i < longer.len() && !spec_is_nan(#[trigger] longer[i]) implies spec_rank(
            longer[i],
        ) <= spec_rank(r) by {
            if i < values.len() {
                assert(longer[i] == values[i]);
                assert(!spec_is_nan(values[i]));
            }
        }
    }
}

/// Finds the bounding box of `samples`.
///
/// An empty sequence has no bounding box and is refused. A part that is a NaN
/// is passed over; an axis on which every part is a NaN gets positive
/// infinity as its minimum and negative infinity as its maximum.
pub fn bounding_box(samples: &Vec<ComplexBits>) -> (r: Result<BoundingBox, RenderError>)
    ensures
        samples@.len() == 0 ==> r == Err::<BoundingBox, RenderError>(RenderError::InvalidInput),
        samples@.len() > 0 ==> r is Ok,
        r matches Ok(b) ==> is_bounding_box_of(samples@, b),
{
    if samples.len() == 0 {
        return Err(RenderError::InvalidInput);
    }
    let mut b = BoundingBox {
        min_re: POSITIVE_INFINITY,
        max_re: NEGATIVE_INFINITY,
        min_im: POSITIVE_INFINITY,
        max_im: NEGATIVE_INFINITY,
    };
    let mut i: usize = 0;
    assert(real_parts(samples@.take(0)) =~= Seq::<u64>::empty());
    assert(imaginary_parts(samples@.take(0)) =~= Seq::<u64>::empty());
    while i < samples.len()
        invariant
            i <= samples.len(),
            is_bounding_box_of(samples@.take(i as int), b),
        decreases samples.len() - i,
    {
        let s = samples[i];
        proof {
            let before = samples@.take(i as int);
            let after = samples@.take(i + 1);
            assert(real_parts(after) =~= real_parts(before).push(s.re));
            assert(imaginary_parts(after) =~= imaginary_parts(before).push(s.im));
            lemma_minimum_extends(real_parts(before), b.min_re, s.re);
            lemma_maximum_extends(real_parts(before), b.max_re, s.re);
            lemma_minimum_extends(imaginary_parts(before), b.min_im, s.im);
            lemma_maximum_extends(imaginary_parts(before), b.max_im, s.im);
        }
        b = BoundingBox {
            min_re: minimum(b.min_re, s.re),
            max_re: maximum(b.max_re, s.re),
            min_im: minimum(b.min_im, s.im),
            max_im: maximum(b.max_im, s.im),
        };
        i = i + 1;
    }
    assert(samples@.take(i as int) =~= samples@);
    Ok(b)
}

/// A sequence of values has one minimum and one maximum only.
pub proof fn lemma_extremes_are_unique(values: Seq<u64>, a: u64, b: u64)
    ensures
        is_minimum_of(values, a) && is_minimum_of(values, b) ==> a == b,
        is_maximum_of(values, a) && is_maximum_of(values, b) ==> a == b,
{
    if holds_a_number(values) {
        if is_minimum_of(values, a) && is_minimum_of(values, b) {
            let i = choose|i: int| 0 <= i < values.len() && values[i] == a;
            let j = choose|j: int| 0 <= j < values.len() && values[j] == b;
            assert(spec_rank(a) <= spec_rank(values[j]));
            assert(spec_rank(b) <= spec_rank(values[i]));
            lemma_rank_is_injective(a, b);
        }
        if is_maximum_of(values, a) && is_maximum_of(values, b) {
            let i = choose|i: int| 0 <= i < values.len() && values[i] == a;
            let j = choose|j: int| 0 <= j < values.len() && values[j] == b;
            assert(spec_rank(values[j]) <= spec_rank(a));
            assert(spec_rank(values[i]) <= spec_rank(b));
            lemma_rank_is_injective(a, b);
        }
    }
}

/// A sequence has one bounding box only: what `bounding_box` promises of its
/// result holds of no other box.
pub proof fn lemma_bounding_box_is_unique(samples: Seq<ComplexBits>, a: BoundingBox, b: BoundingBox)
    requires
        is_bounding_box_of(samples, a),
        is_bounding_box_of(samples, b),
    ensures
        a == b,
{
    lemma_extremes_are_unique(real_parts(samples), a.min_re, b.min_re);
    lemma_extremes_are_unique(real_parts(samples), a.max_re, b.max_re);
    lemma_extremes_are_unique(imaginary_parts(samples), a.min_im, b.min_im);
    lemma_extremes_are_unique(imaginary_parts(samples), a.max_im, b.max_im);
}

/// On an axis that holds a number the minimum does not rank above the
/// maximum, and every number on it lies between the two.
pub proof fn lemma_minimum_is_not_above_maximum(values: Seq<u64>, low: u64, high: u64)
    requires
        holds_a_number(values),
        is_minimum_of(values, low),
        is_maximum_of(values, high),
    ensures
        spec_rank(low) <= spec_rank(high),
        forall|i: int|
            0 <= i < values.len() && !spec_is_nan(#[trigger] values[i]) ==> spec_rank(low)
                <= spec_rank(values[i]) <= spec_rank(high),
{
    let i = choose|i: int| 0 <= i < values.len() && values[i] == low;
    assert(spec_rank(values[i]) <= spec_rank(high));
}

/// The box of a sequence whose points are all the same point, with parts
/// that are numbers, has no extent: on each axis its minimum and its maximum
/// are the part of that point.
pub proof fn lemma_identical_samples_have_a_point_box(
    samples: Seq<ComplexBits>,
    point: ComplexBits,
    b: BoundingBox,
)
    requires
        samples.len() > 0,
        forall|i: int| 0 <= i < samples.len() ==> samples[i] == point,
        !spec_is_nan(point.re),
        !spec_is_nan(point.im),
        is_bounding_box_of(samples, b),
    ensures
        b == (BoundingBox {
            min_re: point.re,
            max_re: point.re,
            min_im: point.im,
            max_im: point.im,
        }),
{
    let reals = real_parts(samples);
    let imaginaries = imaginary_parts(samples);
    assert(reals[0] == point.re);
    assert(imaginaries[0] == point.im);
    assert(reals.contains(point.re));
    assert(imaginaries.contains(point.im));
    assert(is_minimum_of(reals, point.re));
    assert(is_maximum_of(reals, point.re));
    assert(is_minimum_of(imaginaries, point.im));
    assert(is_maximum_of(imaginaries, point.im));
    lemma_extremes_are_unique(reals, b.min_re, point.re);
    lemma_extremes_are_unique(reals, b.max_re, point.re);
    lemma_extremes_are_unique(imaginaries, b.min_im, point.im);
    lemma_extremes_are_unique(imaginaries, b.max_im, point.im);
}

/// A sequence of which no part is a number, on either axis, has the two
/// infinities as its box, the positive one as each minimum.
pub proof fn lemma_box_without_numbers(samples: Seq<ComplexBits>, b: BoundingBox)
    requires
        forall|i: int|
            0 <= i < samples.len() ==> spec_is_nan(#[trigger] samples[i].re) && spec_is_nan(
                samples[i].im,
            ),
        is_bounding_box_of(samples, b),
    ensures
        b == (BoundingBox {
            min_re: POSITIVE_INFINITY,
            max_re: NEGATIVE_INFINITY,
            min_im: POSITIVE_INFINITY,
            max_im: NEGATIVE_INFINITY,
        }),
{
    let reals = real_parts(samples);
    let imaginaries = imaginary_parts(samples);
    assert forall|i: int| 0 <= i < reals.len() implies spec_is_nan(#[trigger] reals[i]) by {
        assert(spec_is_nan(samples[i].re));
    }
    assert forall|i: int| 0 <= i < imaginaries.len() implies spec_is_nan(
        #[trigger] imaginaries[i],
    ) by {
        assert(spec_is_nan(samples[i].re));
    }
}

} // verus!
