//! Data coordinates and ranges.
//!
//! A coordinate is the order key of an IEEE-754 double: the bit pattern with
//! the magnitude bits flipped for negative values, read as a signed integer.
//! Keys compare exactly as the doubles do under the IEEE total order, so the
//! minimum and maximum of keys are the keys of the minimum and maximum.

use vstd::prelude::*;

verus! {

/// Key of positive infinity.
pub const POS_INFINITY: i64 = 0x7FF0_0000_0000_0000;

/// Key of negative infinity.
pub const NEG_INFINITY: i64 = -0x7FF0_0000_0000_0001;

/// The order key of the double whose bit pattern is `bits`.
pub open spec fn key_of_bits(bits: u64) -> int {
    if bits < 0x8000_0000_0000_0000 {
        bits as int
    } else {
        0x7FFF_FFFF_FFFF_FFFF - bits
    }
}

/// The order key of the double whose bit pattern is `bits`.
pub fn coord_from_bits(bits: u64) -> (k: i64)
    ensures
        k == key_of_bits(bits),
{
    if bits < 0x8000_0000_0000_0000 {
        bits as i64
    } else {
        (0x7FFF_FFFF_FFFF_FFFFu64 as i128 - bits as i128) as i64
    }
}

/// The bit pattern of the double whose order key is `k`.
pub fn coord_to_bits(k: i64) -> (bits: u64)
    ensures
        key_of_bits(bits) == k,
{
    if k >= 0 {
        k as u64
    } else {
        (0x7FFF_FFFF_FFFF_FFFFi128 - k as i128) as u64
    }
}

/// A closed interval of coordinates. It is not required that `lower <= upper`.
#[derive(Clone, Copy, Debug, PartialEq, Eq, Structural)]
pub struct Range {
    pub lower: i64,
    pub upper: i64,
}

impl Range {
    pub fn new(lower: i64, upper: i64) -> (r: Range)
        ensures
            r.lower == lower,
            r.upper == upper,
    {
        Range { lower, upper }
    }

    /// The interval with no points, which any reduction by minimum and maximum
    /// starts from: from positive to negative infinity.
    pub open spec fn empty_spec() -> Range {
        Range { lower: POS_INFINITY, upper: NEG_INFINITY }
    }

    pub fn empty() -> (r: Range)
        ensures
            r == Range::empty_spec(),
    {
        Range { lower: POS_INFINITY, upper: NEG_INFINITY }
    }

    /// Whether the interval holds no point.
    pub open spec fn is_inverted_spec(self) -> bool {
        self.lower > self.upper
    }

    pub fn is_inverted(&self) -> (b: bool)
        ensures
            b == self.is_inverted_spec(),
    {
        self.lower > self.upper
    }
}

pub open spec fn min_int(a: int, b: int) -> int {
    if a <= b { a } else { b }
}

pub open spec fn max_int(a: int, b: int) -> int {
    if a >= b { a } else { b }
}

/// Whether `k` is the key of a number or an infinity: the keys of NaNs lie
/// above that of positive infinity or below that of negative infinity.
pub open spec fn is_ordered(k: int) -> bool {
    NEG_INFINITY <= k <= POS_INFINITY
}

/// Whether `k` is the key of a finite number.
pub open spec fn is_finite(k: int) -> bool {
    NEG_INFINITY < k < POS_INFINITY
}

/// Whether `k` is the key of a number or an infinity, not of a NaN.
pub fn is_ordered_key(k: i64) -> (b: bool)
    ensures
        b == is_ordered(k as int),
{
    NEG_INFINITY <= k && k <= POS_INFINITY
}

/// The least lower bound over `rs`, starting from positive infinity. A lower
/// end that is a NaN is passed over, as the minimum of doubles passes over
/// a NaN operand.
pub open spec fn min_lower(rs: Seq<Range>) -> int
    decreases rs.len(),
{
    if rs.len() == 0 {
        POS_INFINITY as int
    } else if is_ordered(rs.last().lower as int) {
        min_int(min_lower(rs.drop_last()), rs.last().lower as int)
    } else {
        min_lower(rs.drop_last())
    }
}

/// The greatest upper bound over `rs`, starting from negative infinity. An
/// upper end that is a NaN is passed over, as the maximum of doubles passes
/// over a NaN operand.
pub open spec fn max_upper(rs: Seq<Range>) -> int
    decreases rs.len(),
{
    if rs.len() == 0 {
        NEG_INFINITY as int
    } else if is_ordered(rs.last().upper as int) {
        max_int(max_upper(rs.drop_last()), rs.last().upper as int)
    } else {
        max_upper(rs.drop_last())
    }
}

/// The smallest interval that covers every interval of `rs`, NaN ends left
/// aside; the empty interval when no end is left.
pub open spec fn span(rs: Seq<Range>) -> Range {
    Range { lower: min_lower(rs) as i64, upper: max_upper(rs) as i64 }
}

proof fn lemma_min_lower_bounds(rs: Seq<Range>)
    ensures
        is_ordered(min_lower(rs)),
        forall|i: int|
            0 <= i < rs.len() && is_ordered(rs[i].lower as int) ==> min_lower(rs) <= rs[i].lower,
        min_lower(rs) == POS_INFINITY || exists|i: int|
            0 <= i < rs.len() && is_ordered(rs[i].lower as int) && min_lower(rs) == rs[i].lower,
    decreases rs.len(),
{
    if rs.len() > 0 {
        let p = rs.drop_last();
        lemma_min_lower_bounds(p);
        assert forall|i: int|
            0 <= i < rs.len() && is_ordered(rs[i].lower as int) implies min_lower(rs)
            <= rs[i].lower by {
            if i < rs.len() - 1 {
                assert(rs[i] == p[i]);
            }
        }
        if min_lower(rs) != POS_INFINITY {
            if is_ordered(rs.last().lower as int) && min_lower(rs) == rs.last().lower {
                assert(rs[rs.len() - 1] == rs.last());
            } else {
                let j = choose|j: int|
                    0 <= j < p.len() && is_ordered(p[j].lower as int) && min_lower(p)
                        == p[j].lower;
                assert(rs[j] == p[j]);
            }
        }
    }
}

proof fn lemma_max_upper_bounds(rs: Seq<Range>)
    ensures
        is_ordered(max_upper(rs)),
        forall|i: int|
            0 <= i < rs.len() && is_ordered(rs[i].upper as int) ==> rs[i].upper <= max_upper(rs),
        max_upper(rs) == NEG_INFINITY || exists|i: int|
            0 <= i < rs.len() && is_ordered(rs[i].upper as int) && max_upper(rs) == rs[i].upper,
    decreases rs.len(),
{
    if rs.len() > 0 {
        let p = rs.drop_last();
        lemma_max_upper_bounds(p);
        assert forall|i: int|
            0 <= i < rs.len() && is_ordered(rs[i].upper as int) implies rs[i].upper
            <= max_upper(rs) by {
            if i < rs.len() - 1 {
                assert(rs[i] == p[i]);
            }
        }
        if max_upper(rs) != NEG_INFINITY {
            if is_ordered(rs.last().upper as int) && max_upper(rs) == rs.last().upper {
                assert(rs[rs.len() - 1] == rs.last());
            } else {
                let j = choose|j: int|
                    0 <= j < p.len() && is_ordered(p[j].upper as int) && max_upper(p)
                        == p[j].upper;
                assert(rs[j] == p[j]);
            }
        }
    }
}

/// The span of non-empty data is exact: its lower end is the least lower end
/// of the intervals and its upper end the greatest upper end. The intervals'
/// ends are keys of numbers or infinities, never of a NaN.
pub proof fn lemma_span_is_exact(rs: Seq<Range>)
    requires
        rs.len() > 0,
        forall|i: int|
            0 <= i < rs.len() ==> is_ordered((#[trigger] rs[i]).lower as int) && is_ordered(
                rs[i].upper as int,
            ),
    ensures
        forall|i: int|
            0 <= i < rs.len() ==> span(rs).lower <= rs[i].lower && rs[i].upper <= span(rs).upper,
        exists|i: int| 0 <= i < rs.len() && span(rs).lower == rs[i].lower,
        exists|i: int| 0 <= i < rs.len() && span(rs).upper == rs[i].upper,
{
    lemma_min_lower_bounds(rs);
    lemma_max_upper_bounds(rs);
    assert(is_ordered(rs[0].lower as int) && is_ordered(rs[0].upper as int));
    assert(rs[0].lower >= min_lower(rs));
    assert(rs[0].upper <= max_upper(rs));
    if min_lower(rs) == POS_INFINITY {
        assert(span(rs).lower == rs[0].lower);
    }
    if max_upper(rs) == NEG_INFINITY {
        assert(span(rs).upper == rs[0].upper);
    }
}

/// The ends of a span are never NaNs, whatever the intervals hold; and where
/// there is at least one interval and every end is finite, so are the span's
/// ends, the lower not above the upper when each interval is so.
pub proof fn lemma_span_ends_are_numbers(rs: Seq<Range>)
    ensures
        is_ordered(span(rs).lower as int),
        is_ordered(span(rs).upper as int),
        rs.len() > 0 && (forall|i: int|
            0 <= i < rs.len() ==> is_finite((#[trigger] rs[i]).lower as int) && is_finite(
                rs[i].upper as int,
            )) ==> is_finite(span(rs).lower as int) && is_finite(span(rs).upper as int),
        rs.len() > 0 && (forall|i: int|
            0 <= i < rs.len() ==> is_ordered((#[trigger] rs[i]).lower as int) && is_ordered(
                rs[i].upper as int,
            ) && rs[i].lower <= rs[i].upper) ==> span(rs).lower <= span(rs).upper,
{
    lemma_min_lower_bounds(rs);
    lemma_max_upper_bounds(rs);
    if rs.len() > 0 && (forall|i: int|
        0 <= i < rs.len() ==> is_finite((#[trigger] rs[i]).lower as int) && is_finite(
            rs[i].upper as int,
        )) {
        assert(is_finite(rs[0].lower as int) && is_finite(rs[0].upper as int));
        lemma_span_is_exact(rs);
    }
    if rs.len() > 0 && (forall|i: int|
        0 <= i < rs.len() ==> is_ordered((#[trigger] rs[i]).lower as int) && is_ordered(
            rs[i].upper as int,
        ) && rs[i].lower <= rs[i].upper) {
        assert(rs[0].lower <= rs[0].upper);
        lemma_span_is_exact(rs);
    }
}

/// The span depends only on which intervals occur: not on their order, nor
/// on how often each occurs.
pub proof fn lemma_span_same_members(a: Seq<Range>, b: Seq<Range>)
    requires
        forall|x: Range| a.contains(x) <==> b.contains(x),
    ensures
        span(a) == span(b),
{
    lemma_min_lower_bounds(a);
    lemma_min_lower_bounds(b);
    lemma_max_upper_bounds(a);
    lemma_max_upper_bounds(b);
    assert(min_lower(a) == min_lower(b)) by {
        if min_lower(a) != POS_INFINITY {
            let i = choose|i: int|
                0 <= i < a.len() && is_ordered(a[i].lower as int) && min_lower(a) == a[i].lower;
            assert(a.contains(a[i]));
            let j = choose|j: int| 0 <= j < b.len() && b[j] == a[i];
            assert(min_lower(b) <= min_lower(a));
        }
        if min_lower(b) != POS_INFINITY {
            let i = choose|i: int|
                0 <= i < b.len() && is_ordered(b[i].lower as int) && min_lower(b) == b[i].lower;
            assert(b.contains(b[i]));
            let j = choose|j: int| 0 <= j < a.len() && a[j] == b[i];
            assert(min_lower(a) <= min_lower(b));
        }
    }
    assert(max_upper(a) == max_upper(b)) by {
        if max_upper(a) != NEG_INFINITY {
            let i = choose|i: int|
                0 <= i < a.len() && is_ordered(a[i].upper as int) && max_upper(a) == a[i].upper;
            assert(a.contains(a[i]));
            let j = choose|j: int| 0 <= j < b.len() && b[j] == a[i];
            assert(max_upper(b) >= max_upper(a));
        }
        if max_upper(b) != NEG_INFINITY {
            let i = choose|i: int|
                0 <= i < b.len() && is_ordered(b[i].upper as int) && max_upper(b) == b[i].upper;
            assert(b.contains(b[i]));
            let j = choose|j: int| 0 <= j < a.len() && a[j] == b[i];
            assert(max_upper(a) >= max_upper(b));
        }
    }
}

/// The span of `rs`, computed by one pass over it; NaN ends are passed over.
pub fn span_of(rs: &Vec<Range>) -> (r: Range)
    ensures
        r == span(rs@),
{
    let mut acc = Range::empty();
    let mut i: usize = 0;
    while i < rs.len()
        invariant
            i <= rs.len(),
            acc.lower == min_lower(rs@.take(i as int)),
            acc.upper == max_upper(rs@.take(i as int)),
        decreases rs.len() - i,
    {
        proof {
            assert(rs@.take(i as int + 1).drop_last() == rs@.take(i as int));
        }
        let r = rs[i];
        if is_ordered_key(r.lower) && r.lower < acc.lower {
            acc.lower = r.lower;
        }
        if is_ordered_key(r.upper) && r.upper > acc.upper {
            acc.upper = r.upper;
        }
        i = i + 1;
    }
    proof {
        assert(rs@.take(rs.len() as int) == rs@);
    }
    acc
}

} // verus!
