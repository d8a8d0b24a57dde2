//! Descriptive statistics over 32-bit IEEE 754 samples.
//!
//! A sample is carried as the raw bit pattern of its 32-bit value, so the
//! whole numeric policy (NaN entries are absent, empty input is undefined,
//! intermediate results are reused) is stated and checked over plain
//! integers.  The arithmetic itself is performed by outside software
//! implementations of the IEEE 754 operations, reached through the trusted
//! wrappers near the top of this module.

use rustc_apfloat::Float;
use vstd::prelude::*;
use vstd::seq_lib::group_to_multiset_ensures;

verus! {

/// Bit pattern of the quiet NaN returned where a statistic is undefined.
pub const NAN_BITS: u32 = 0x7FC0_0000;

/// A 32-bit pattern encodes NaN exactly when its exponent field is all
/// ones and its mantissa field is not zero.
pub open spec fn is_nan_spec(b: u32) -> bool {
    (b >> 23) & 0xFF == 0xFF && b & 0x007F_FFFF != 0
}

/// Whether the given bit pattern encodes NaN: the explicit "is this
/// result defined?" test for the NaN-as-undefined convention used here.
pub fn is_nan(b: u32) -> (r: bool)
    ensures
        r == is_nan_spec(b),
{
    (b >> 23) & 0xFF == 0xFF && b & 0x007F_FFFF != 0
}

/// Order-preserving key: mapping each non-NaN pattern to its key is
/// strictly increasing in the encoded value (with the negative zero
/// placed directly below the positive one), so comparing keys compares
/// encoded values.
pub open spec fn sort_key(b: u32) -> u32 {
    if b >> 31 == 1 {
        !b
    } else {
        b ^ 0x8000_0000
    }
}

fn key_of(b: u32) -> (r: u32)
    ensures
        r == sort_key(b),
{
    if b >> 31 == 1 {
        !b
    } else {
        b ^ 0x8000_0000
    }
}

/// The accumulator step of the minimum fold: a NaN operand loses, and of
/// two non-NaN operands the one with the smaller key wins.
pub open spec fn min2(a: u32, b: u32) -> u32 {
    if is_nan_spec(b) {
        a
    } else if is_nan_spec(a) {
        b
    } else if sort_key(b) < sort_key(a) {
        b
    } else {
        a
    }
}

/// The accumulator step of the maximum fold.
pub open spec fn max2(a: u32, b: u32) -> u32 {
    if is_nan_spec(b) {
        a
    } else if is_nan_spec(a) {
        b
    } else if sort_key(b) > sort_key(a) {
        b
    } else {
        a
    }
}

/// Left-to-right minimum fold, starting from the NaN sentinel.
pub open spec fn min_spec(s: Seq<u32>) -> u32
    decreases s.len(),
{
    if s.len() == 0 {
        NAN_BITS
    } else {
        min2(min_spec(s.drop_last()), s.last())
    }
}

/// Left-to-right maximum fold, starting from the NaN sentinel.
pub open spec fn max_spec(s: Seq<u32>) -> u32
    decreases s.len(),
{
    if s.len() == 0 {
        NAN_BITS
    } else {
        max2(max_spec(s.drop_last()), s.last())
    }
}

/// How many entries are not NaN.
pub open spec fn count_valid(s: Seq<u32>) -> nat
    decreases s.len(),
{
    if s.len() == 0 {
        0
    } else {
        count_valid(s.drop_last()) + if is_nan_spec(s.last()) {
            0nat
        } else {
            1nat
        }
    }
}

/// The sequence with its NaN entries removed, order kept.
pub open spec fn strip_nan(s: Seq<u32>) -> Seq<u32>
    decreases s.len(),
{
    if s.len() == 0 {
        Seq::empty()
    } else if is_nan_spec(s.last()) {
        strip_nan(s.drop_last())
    } else {
        strip_nan(s.drop_last()).push(s.last())
    }
}

/// Result bits of the IEEE 754 32-bit addition of the two operand bits,
/// rounded to nearest, ties to even.
pub uninterp spec fn add_of(a: u32, b: u32) -> u32;

/// Result bits of the IEEE 754 32-bit subtraction of the operand bits.
pub uninterp spec fn sub_of(a: u32, b: u32) -> u32;

/// Result bits of the IEEE 754 32-bit multiplication of the operand bits.
pub uninterp spec fn mul_of(a: u32, b: u32) -> u32;

/// Result bits of the IEEE 754 32-bit division of the operand bits.
pub uninterp spec fn div_of(a: u32, b: u32) -> u32;

/// Result bits of the correctly rounded IEEE 754 32-bit square root of
/// the operand bits.
pub uninterp spec fn sqrt_of(b: u32) -> u32;

/// Bits of the 32-bit value nearest to the given count, as an integer
/// cast to this width would produce.
pub uninterp spec fn value_of_count(n: int) -> u32;

/// Relies on rustc_apfloat's 32-bit `add` (`Single::add_r`): the rounded
/// IEEE 754 sum is a function of the operand bits alone.
#[verifier::external_body]
fn add_bits(a: u32, b: u32) -> (r: u32)
    ensures
        r == add_of(a, b),
{
    let x = rustc_apfloat::ieee::Single::from_bits(a as u128);
    let y = rustc_apfloat::ieee::Single::from_bits(b as u128);
    (x + y).value.to_bits() as u32
}

/// Relies on rustc_apfloat's 32-bit `sub` (`Single::sub_r`): the rounded
/// IEEE 754 difference is a function of the operand bits alone.
#[verifier::external_body]
fn sub_bits(a: u32, b: u32) -> (r: u32)
    ensures
        r == sub_of(a, b),
{
    let x = rustc_apfloat::ieee::Single::from_bits(a as u128);
    let y = rustc_apfloat::ieee::Single::from_bits(b as u128);
    (x - y).value.to_bits() as u32
}

/// Relies on rustc_apfloat's 32-bit `mul` (`Single::mul_r`): the rounded
/// IEEE 754 product is a function of the operand bits alone.
#[verifier::external_body]
fn mul_bits(a: u32, b: u32) -> (r: u32)
    ensures
        r == mul_of(a, b),
{
    let x = rustc_apfloat::ieee::Single::from_bits(a as u128);
    let y = rustc_apfloat::ieee::Single::from_bits(b as u128);
    (x * y).value.to_bits() as u32
}

/// Relies on rustc_apfloat's 32-bit `div` (`Single::div_r`): the rounded
/// IEEE 754 quotient is a function of the operand bits alone, and the
/// quotient of the two positive zeros is an invalid operation, so NaN.
#[verifier::external_body]
fn div_bits(a: u32, b: u32) -> (r: u32)
    ensures
        r == div_of(a, b),
        a == 0 && b == 0 ==> is_nan_spec(r),
{
    let x = rustc_apfloat::ieee::Single::from_bits(a as u128);
    let y = rustc_apfloat::ieee::Single::from_bits(b as u128);
    (x / y).value.to_bits() as u32
}

/// Relies on ieee_apsqrt::sqrt_accurate over 32-bit patterns: the
/// correctly rounded IEEE 754 square root is a function of the operand
/// bits alone; the root of NaN is NaN and the root of positive zero is
/// positive zero.
#[verifier::external_body]
fn sqrt_bits(b: u32) -> (r: u32)
    ensures
        r == sqrt_of(b),
        is_nan_spec(b) ==> is_nan_spec(r),
        b == 0 ==> r == 0,
{
    ieee_apsqrt::sqrt_accurate(b, rustc_apfloat::Round::NearestTiesToEven).0.value
}

/// Relies on rustc_apfloat's `Single::from_u128`: conversion of a count
/// to the nearest 32-bit value, deterministic, with zero mapped to the
/// positive zero pattern.
#[verifier::external_body]
fn count_bits(n: usize) -> (r: u32)
    ensures
        r == value_of_count(n as int),
        n == 0 ==> r == 0,
{
    rustc_apfloat::ieee::Single::from_u128(n as u128).value.to_bits() as u32
}

/// The arithmetic mean of the non-NaN entries: their rounded running sum
/// divided by their count, or the NaN sentinel for an empty input.
pub open spec fn average_spec(s: Seq<u32>) -> u32 {
    if s.len() == 0 {
        NAN_BITS
    } else {
        div_of(sum_spec(s), value_of_count(count_valid(s) as int))
    }
}

/// Left-to-right rounded sum of the non-NaN entries, from positive zero.
pub open spec fn sum_spec(s: Seq<u32>) -> u32
    decreases s.len(),
{
    if s.len() == 0 {
        0
    } else if is_nan_spec(s.last()) {
        sum_spec(s.drop_last())
    } else {
        add_of(sum_spec(s.drop_last()), s.last())
    }
}

/// Left-to-right rounded sum of the squared deviations of the non-NaN
/// entries from the given precomputed average.
pub open spec fn dev_sq_sum_spec(s: Seq<u32>, average: u32) -> u32
    decreases s.len(),
{
    if s.len() == 0 {
        0
    } else if is_nan_spec(s.last()) {
        dev_sq_sum_spec(s.drop_last(), average)
    } else {
        add_of(
            dev_sq_sum_spec(s.drop_last(), average),
            mul_of(sub_of(s.last(), average), sub_of(s.last(), average)),
        )
    }
}

/// Sample variance against a caller-supplied average: the squared
/// deviations from that average, Bessel-corrected (divisor one less than
/// the count of non-NaN entries).  A single valid entry has variance
/// exactly zero; no valid entry leaves it undefined.
pub open spec fn variance_with_average_spec(s: Seq<u32>, average: u32) -> u32 {
    if s.len() == 0 || count_valid(s) == 0 {
        NAN_BITS
    } else if count_valid(s) == 1 {
        0
    } else {
        div_of(dev_sq_sum_spec(s, average), value_of_count(count_valid(s) - 1))
    }
}

/// Sample variance computed against the input's own average.
pub open spec fn variance_spec(s: Seq<u32>) -> u32 {
    if s.len() == 0 {
        NAN_BITS
    } else {
        variance_with_average_spec(s, average_spec(s))
    }
}

/// The standard deviation is always the square root of the variance.
pub open spec fn standard_deviation_spec(s: Seq<u32>) -> u32 {
    sqrt_of(variance_spec(s))
}

/// Statistical minimum of the non-NaN entries, or NaN if there is none.
pub fn min(values: &[u32]) -> (r: u32)
    ensures
        r == min_spec(values@),
        is_nan_spec(r) <==> count_valid(values@) == 0,
{
    proof {
        lemma_min_characterization(values@);
        lemma_nan_sentinel();
    }
    let mut acc: u32 = NAN_BITS;
    let mut i: usize = 0;
    proof {
        assert(values@.take(0) =~= Seq::<u32>::empty());
    }
    while i < values.len()
        invariant
            0 <= i <= values@.len(),
            acc == min_spec(values@.take(i as int)),
        decreases values@.len() - i,
    {
        let x = values[i];
        proof {
            assert(values@.take(i + 1).drop_last() =~= values@.take(i as int));
            assert(values@.take(i + 1).last() == values@[i as int]);
        }
        if !is_nan(x) {
            if is_nan(acc) || key_of(x) < key_of(acc) {
                acc = x;
            }
        }
        i += 1;
    }
    proof {
        assert(values@.take(values@.len() as int) =~= values@);
    }
    acc
}

/// Statistical maximum of the non-NaN entries, or NaN if there is none.
pub fn max(values: &[u32]) -> (r: u32)
    ensures
        r == max_spec(values@),
        is_nan_spec(r) <==> count_valid(values@) == 0,
{
    proof {
        lemma_max_characterization(values@);
        lemma_nan_sentinel();
    }
    let mut acc: u32 = NAN_BITS;
    let mut i: usize = 0;
    proof {
        assert(values@.take(0) =~= Seq::<u32>::empty());
    }
    while i < values.len()
        invariant
            0 <= i <= values@.len(),
            acc == max_spec(values@.take(i as int)),
        decreases values@.len() - i,
    {
        let x = values[i];
        proof {
            assert(values@.take(i + 1).drop_last() =~= values@.take(i as int));
            assert(values@.take(i + 1).last() == values@[i as int]);
        }
        if !is_nan(x) {
            if is_nan(acc) || key_of(x) > key_of(acc) {
                acc = x;
            }
        }
        i += 1;
    }
    proof {
        assert(values@.take(values@.len() as int) =~= values@);
    }
    acc
}

/// Arithmetic mean of the non-NaN entries.  NaN entries contribute
/// neither to the sum nor to the divisor; an empty input, and an input
/// with no valid entry, give NaN.
pub fn average(values: &[u32]) -> (r: u32)
    ensures
        r == average_spec(values@),
        values@.len() == 0 ==> r == NAN_BITS,
        count_valid(values@) == 0 ==> is_nan_spec(r),
{
    proof {
        lemma_nan_sentinel();
    }
    if values.len() == 0 {
        return NAN_BITS;
    }
    let mut sum: u32 = 0;
    let mut count: usize = 0;
    let mut i: usize = 0;
    proof {
        assert(values@.take(0) =~= Seq::<u32>::empty());
    }
    while i < values.len()
        invariant
            0 <= i <= values@.len(),
            count <= i,
            sum == sum_spec(values@.take(i as int)),
            count == count_valid(values@.take(i as int)),
        decreases values@.len() - i,
    {
        let x = values[i];
        proof {
            assert(values@.take(i + 1).drop_last() =~= values@.take(i as int));
            assert(values@.take(i + 1).last() == values@[i as int]);
        }
        if !is_nan(x) {
            sum = add_bits(sum, x);
            count += 1;
        }
        i += 1;
    }
    proof {
        assert(values@.take(values@.len() as int) =~= values@);
        if count_valid(values@) == 0 {
            lemma_sum_no_valid(values@);
        }
    }
    let divisor = count_bits(count);
    div_bits(sum, divisor)
}

/// Sample variance of the non-NaN entries, computing their average first.
pub fn variance(values: &[u32]) -> (r: u32)
    ensures
        r == variance_spec(values@),
        count_valid(values@) == 0 ==> r == NAN_BITS,
        count_valid(values@) == 1 ==> r == 0,
{
    if values.len() == 0 {
        return NAN_BITS;
    }
    let average = average(values);
    variance_with_average(values, average)
}

/// Sample variance of the non-NaN entries against a caller-supplied
/// average.  The average is taken on trust and is not checked against
/// the values: a caller that hands in an average computed from other
/// data gets the deviations from that other average.
pub fn variance_with_average(values: &[u32], average: u32) -> (r: u32)
    ensures
        r == variance_with_average_spec(values@, average),
        count_valid(values@) == 0 ==> r == NAN_BITS,
        count_valid(values@) == 1 ==> r == 0,
{
    if values.len() == 0 {
        return NAN_BITS;
    }
    let mut delta_square_sum: u32 = 0;
    let mut count: usize = 0;
    let mut i: usize = 0;
    proof {
        assert(values@.take(0) =~= Seq::<u32>::empty());
    }
    while i < values.len()
        invariant
            0 <= i <= values@.len(),
            count <= i,
            delta_square_sum == dev_sq_sum_spec(values@.take(i as int), average),
            count == count_valid(values@.take(i as int)),
        decreases values@.len() - i,
    {
        let x = values[i];
        proof {
            assert(values@.take(i + 1).drop_last() =~= values@.take(i as int));
            assert(values@.take(i + 1).last() == values@[i as int]);
        }
        if !is_nan(x) {
            let delta = sub_bits(x, average);
            delta_square_sum = add_bits(delta_square_sum, mul_bits(delta, delta));
            count += 1;
        }
        i += 1;
    }
    proof {
        assert(values@.take(values@.len() as int) =~= values@);
    }
    if count == 0 {
        NAN_BITS
    } else if count == 1 {
        0
    } else {
        let divisor = count_bits(count - 1);
        div_bits(delta_square_sum, divisor)
    }
}

/// Standard deviation of the non-NaN entries: the square root of their
/// sample variance.
pub fn standard_deviation(values: &[u32]) -> (r: u32)
    ensures
        r == standard_deviation_spec(values@),
        count_valid(values@) == 0 ==> is_nan_spec(r),
        count_valid(values@) == 1 ==> r == 0,
{
    proof {
        lemma_nan_sentinel();
    }
    standard_deviation_with_variance(variance(values))
}

/// Square root of a precomputed variance: the composition entry point
/// that lets a caller reuse a variance it already holds.
pub fn standard_deviation_with_variance(variance: u32) -> (r: u32)
    ensures
        r == sqrt_of(variance),
        is_nan_spec(variance) ==> is_nan_spec(r),
        variance == 0 ==> r == 0,
{
    sqrt_bits(variance)
}

/// One snapshot of all five statistics of one sample sequence.  The
/// variance is computed from the stored average, and the standard
/// deviation from the stored variance, so the five fields are mutually
/// consistent by construction.
#[derive(Debug, Clone)]
pub struct All {
    pub min: u32,
    pub max: u32,
    pub average: u32,
    pub variance: u32,
    pub standard_deviation: u32,
}

impl All {
    /// Compute the five statistics, reusing the average for the variance
    /// and the variance for the standard deviation.
    pub fn new(values: &[u32]) -> (r: All)
        ensures
            r.min == min_spec(values@),
            r.max == max_spec(values@),
            r.average == average_spec(values@),
            r.variance == variance_with_average_spec(values@, r.average),
            r.variance == variance_spec(values@),
            r.standard_deviation == sqrt_of(r.variance),
            r.standard_deviation == standard_deviation_spec(values@),
            count_valid(values@) == 0 ==> is_nan_spec(r.min) && is_nan_spec(r.max)
                && is_nan_spec(r.average) && is_nan_spec(r.variance)
                && is_nan_spec(r.standard_deviation),
            count_valid(values@) == 1 ==> r.variance == 0 && r.standard_deviation == 0,
    {
        proof {
            lemma_nan_sentinel();
        }
        let min = min(values);
        let max = max(values);
        let average = average(values);
        let variance = variance_with_average(values, average);
        let standard_deviation = standard_deviation_with_variance(variance);
        All { min, max, average, variance, standard_deviation }
    }
}

/// The sentinel returned for an undefined statistic is itself NaN.
pub proof fn lemma_nan_sentinel()
    ensures
        is_nan_spec(NAN_BITS),
{
    assert((0x7FC0_0000u32 >> 23) & 0xFF == 0xFF) by (bit_vector);
    assert(0x7FC0_0000u32 & 0x007F_FFFF != 0) by (bit_vector);
}

/// Two patterns with the same sort key are the same pattern.
proof fn lemma_sort_key_injective(a: u32, b: u32)
    requires
        sort_key(a) == sort_key(b),
    ensures
        a == b,
{
    assert((if a >> 31 == 1 {
        !a
    } else {
        a ^ 0x8000_0000u32
    }) == (if b >> 31 == 1 {
        !b
    } else {
        b ^ 0x8000_0000u32
    }) ==> a == b) by (bit_vector);
}

/// What the minimum fold returns: the NaN sentinel exactly when no
/// entry is valid, and otherwise a valid entry whose key is least among
/// the valid entries.
pub proof fn lemma_min_characterization(s: Seq<u32>)
    ensures
        count_valid(s) == 0 ==> min_spec(s) == NAN_BITS,
        count_valid(s) == 0 ==> forall|i: int| 0 <= i < s.len() ==> is_nan_spec(#[trigger] s[i]),
        count_valid(s) > 0 ==> !is_nan_spec(min_spec(s)) && s.contains(min_spec(s)),
        forall|i: int|
            0 <= i < s.len() && !is_nan_spec(#[trigger] s[i]) ==> sort_key(min_spec(s))
                <= sort_key(s[i]),
    decreases s.len(),
{
    lemma_nan_sentinel();
    if s.len() > 0 {
        let t = s.drop_last();
        lemma_min_characterization(t);
        if count_valid(s) == 0 {
            assert(is_nan_spec(s.last()));
            assert forall|i: int| 0 <= i < s.len() implies is_nan_spec(#[trigger] s[i]) by {
                if i < s.len() - 1 {
                    assert(t[i] == s[i]);
                    assert(is_nan_spec(t[i]));
                } else {
                    assert(s[i] == s.last());
                }
            }
        }
        assert forall|i: int| 0 <= i < s.len() && !is_nan_spec(#[trigger] s[i]) implies sort_key(
            min_spec(s),
        ) <= sort_key(s[i]) by {
            if i < s.len() - 1 {
                assert(t[i] == s[i]);
            }
        }
        if count_valid(s) > 0 {
            let m = min_spec(s);
            if m == s.last() {
                assert(s[s.len() - 1] == m);
            } else {
                assert(m == min_spec(t) && count_valid(t) > 0);
                let j = choose|j: int| 0 <= j < t.len() && t[j] == m;
                assert(s[j] == m);
            }
        }
    }
}

/// What the maximum fold returns: the NaN sentinel exactly when no
/// entry is valid, and otherwise a valid entry whose key is greatest
/// among the valid entries.
pub proof fn lemma_max_characterization(s: Seq<u32>)
    ensures
        count_valid(s) == 0 ==> max_spec(s) == NAN_BITS,
        count_valid(s) == 0 ==> forall|i: int| 0 <= i < s.len() ==> is_nan_spec(#[trigger] s[i]),
        count_valid(s) > 0 ==> !is_nan_spec(max_spec(s)) && s.contains(max_spec(s)),
        forall|i: int|
            0 <= i < s.len() && !is_nan_spec(#[trigger] s[i]) ==> sort_key(s[i]) <= sort_key(
                max_spec(s),
            ),
    decreases s.len(),
{
    lemma_nan_sentinel();
    if s.len() > 0 {
        let t = s.drop_last();
        lemma_max_characterization(t);
        if count_valid(s) == 0 {
            assert(is_nan_spec(s.last()));
            assert forall|i: int| 0 <= i < s.len() implies is_nan_spec(#[trigger] s[i]) by {
                if i < s.len() - 1 {
                    assert(t[i] == s[i]);
                    assert(is_nan_spec(t[i]));
                } else {
                    assert(s[i] == s.last());
                }
            }
        }
        assert forall|i: int| 0 <= i < s.len() && !is_nan_spec(#[trigger] s[i]) implies sort_key(
            s[i],
        ) <= sort_key(max_spec(s)) by {
            if i < s.len() - 1 {
                assert(t[i] == s[i]);
            }
        }
        if count_valid(s) > 0 {
            let m = max_spec(s);
            if m == s.last() {
                assert(s[s.len() - 1] == m);
            } else {
                assert(m == max_spec(t) && count_valid(t) > 0);
                let j = choose|j: int| 0 <= j < t.len() && t[j] == m;
                assert(s[j] == m);
            }
        }
    }
}

/// Whenever some entry is valid, the minimum does not exceed the
/// maximum: their keys compare as the encoded values do.
pub proof fn lemma_min_le_max(s: Seq<u32>)
    requires
        count_valid(s) > 0,
    ensures
        sort_key(min_spec(s)) <= sort_key(max_spec(s)),
        !is_nan_spec(min_spec(s)),
        !is_nan_spec(max_spec(s)),
{
    lemma_min_characterization(s);
    lemma_max_characterization(s);
    let m = min_spec(s);
    let j = choose|j: int| 0 <= j < s.len() && s[j] == m;
    assert(sort_key(s[j]) <= sort_key(max_spec(s)));
}

/// A sequence whose entries are all NaN has no valid entry.
proof fn lemma_all_nan_count_zero(s: Seq<u32>)
    requires
        forall|i: int| 0 <= i < s.len() ==> is_nan_spec(#[trigger] s[i]),
    ensures
        count_valid(s) == 0,
    decreases s.len(),
{
    if s.len() > 0 {
        let t = s.drop_last();
        assert(forall|i: int| 0 <= i < t.len() ==> t[i] == s[i]);
        lemma_all_nan_count_zero(t);
    }
}

/// Reordering the entries does not change the minimum.
pub proof fn lemma_min_permutation(s1: Seq<u32>, s2: Seq<u32>)
    requires
        s1.to_multiset() == s2.to_multiset(),
    ensures
        min_spec(s1) == min_spec(s2),
{
    broadcast use group_to_multiset_ensures;

    lemma_min_characterization(s1);
    lemma_min_characterization(s2);
    if count_valid(s1) == 0 {
        assert forall|i: int| 0 <= i < s2.len() implies is_nan_spec(#[trigger] s2[i]) by {
            assert(s2.contains(s2[i]));
            assert(s2.to_multiset().count(s2[i]) > 0);
            assert(s1.contains(s2[i]));
            let j = choose|j: int| 0 <= j < s1.len() && s1[j] == s2[i];
            assert(is_nan_spec(s1[j]));
        }
        lemma_all_nan_count_zero(s2);
    } else {
        let m1 = min_spec(s1);
        let m2 = min_spec(s2);
        assert(s1.to_multiset().count(m1) > 0);
        assert(s2.contains(m1));
        let j1 = choose|j: int| 0 <= j < s2.len() && s2[j] == m1;
        if count_valid(s2) == 0 {
            assert(is_nan_spec(s2[j1]));
        }
        assert(sort_key(m2) <= sort_key(m1));
        assert(s2.to_multiset().count(m2) > 0);
        assert(s1.contains(m2));
        let j2 = choose|j: int| 0 <= j < s1.len() && s1[j] == m2;
        assert(sort_key(m1) <= sort_key(m2));
        lemma_sort_key_injective(m1, m2);
    }
}

/// Reordering the entries does not change the maximum.
pub proof fn lemma_max_permutation(s1: Seq<u32>, s2: Seq<u32>)
    requires
        s1.to_multiset() == s2.to_multiset(),
    ensures
        max_spec(s1) == max_spec(s2),
{
    broadcast use group_to_multiset_ensures;

    lemma_max_characterization(s1);
    lemma_max_characterization(s2);
    if count_valid(s1) == 0 {
        assert forall|i: int| 0 <= i < s2.len() implies is_nan_spec(#[trigger] s2[i]) by {
            assert(s2.contains(s2[i]));
            assert(s2.to_multiset().count(s2[i]) > 0);
            assert(s1.contains(s2[i]));
            let j = choose|j: int| 0 <= j < s1.len() && s1[j] == s2[i];
            assert(is_nan_spec(s1[j]));
        }
        lemma_all_nan_count_zero(s2);
    } else {
        let m1 = max_spec(s1);
        let m2 = max_spec(s2);
        assert(s1.to_multiset().count(m1) > 0);
        assert(s2.contains(m1));
        let j1 = choose|j: int| 0 <= j < s2.len() && s2[j] == m1;
        if count_valid(s2) == 0 {
            assert(is_nan_spec(s2[j1]));
        }
        assert(sort_key(m1) <= sort_key(m2));
        assert(s2.to_multiset().count(m2) > 0);
        assert(s1.contains(m2));
        let j2 = choose|j: int| 0 <= j < s1.len() && s1[j] == m2;
        assert(sort_key(m2) <= sort_key(m1));
        lemma_sort_key_injective(m1, m2);
    }
}

/// Every fold over the entries with their NaN entries removed agrees
/// with the fold over the original entries.
proof fn lemma_strip_folds(s: Seq<u32>, average: u32)
    ensures
        min_spec(strip_nan(s)) == min_spec(s),
        max_spec(strip_nan(s)) == max_spec(s),
        sum_spec(strip_nan(s)) == sum_spec(s),
        count_valid(strip_nan(s)) == count_valid(s),
        strip_nan(s).len() == count_valid(s),
        dev_sq_sum_spec(strip_nan(s), average) == dev_sq_sum_spec(s, average),
    decreases s.len(),
{
    if s.len() == 0 {
    } else {
        let t = s.drop_last();
        lemma_strip_folds(t, average);
        if !is_nan_spec(s.last()) {
            let u = strip_nan(t).push(s.last());
            assert(strip_nan(s) == u);
            assert(u.drop_last() =~= strip_nan(t));
            assert(u.last() == s.last());
        }
    }
}

/// NaN entries are as if absent: every statistic of a sequence equals
/// the same statistic of the sequence with its NaN entries removed.
/// (For the average the two are the same bit pattern whenever a valid
/// entry exists; with no valid entry both are NaN, as the contracts of
/// `average` and `lemma_all_nan_undefined` state.)
pub proof fn lemma_nan_entries_ignored(s: Seq<u32>)
    ensures
        min_spec(strip_nan(s)) == min_spec(s),
        max_spec(strip_nan(s)) == max_spec(s),
        variance_spec(strip_nan(s)) == variance_spec(s),
        standard_deviation_spec(strip_nan(s)) == standard_deviation_spec(s),
        count_valid(s) > 0 ==> average_spec(strip_nan(s)) == average_spec(s),
{
    lemma_strip_folds(s, average_spec(s));
}

/// A single valid entry has no dispersion: its variance is exactly
/// (positive zero) rather than NaN.
pub proof fn lemma_single_valid_entry(s: Seq<u32>)
    requires
        count_valid(s) == 1,
    ensures
        variance_spec(s) == 0,
        variance_with_average_spec(s, average_spec(s)) == 0,
{
}

/// The standard deviation is never computed independently: it is the
/// square root of the variance of the same sequence.
pub proof fn lemma_std_dev_is_root_of_variance(s: Seq<u32>)
    ensures
        standard_deviation_spec(s) == sqrt_of(variance_spec(s)),
{
}

/// The one-argument variance is the two-argument variance fed with the
/// sequence's own average.
pub proof fn lemma_variance_uses_own_average(s: Seq<u32>)
    ensures
        variance_with_average_spec(s, average_spec(s)) == variance_spec(s),
{
}

/// On an empty sequence every statistic is undefined: the first four
/// are the NaN sentinel, and the standard deviation is its square root,
/// which the contract of `standard_deviation` shows to be NaN as well.
pub proof fn lemma_empty_undefined(s: Seq<u32>)
    requires
        s.len() == 0,
    ensures
        min_spec(s) == NAN_BITS,
        max_spec(s) == NAN_BITS,
        average_spec(s) == NAN_BITS,
        variance_spec(s) == NAN_BITS,
        standard_deviation_spec(s) == sqrt_of(NAN_BITS),
        is_nan_spec(min_spec(s)),
        is_nan_spec(max_spec(s)),
        is_nan_spec(average_spec(s)),
        is_nan_spec(variance_spec(s)),
{
    lemma_nan_sentinel();
}

/// A sequence of NaN entries only behaves as the empty one: minimum,
/// maximum and variance are the NaN sentinel.  (That the average and
/// the standard deviation are then NaN too stands in the contracts of
/// `average` and `standard_deviation`.)
pub proof fn lemma_all_nan_undefined(s: Seq<u32>)
    requires
        count_valid(s) == 0,
    ensures
        min_spec(s) == NAN_BITS,
        max_spec(s) == NAN_BITS,
        variance_spec(s) == NAN_BITS,
        is_nan_spec(min_spec(s)),
        is_nan_spec(max_spec(s)),
        is_nan_spec(variance_spec(s)),
{
    lemma_min_characterization(s);
    lemma_max_characterization(s);
    lemma_nan_sentinel();
}

/// With no valid entry the running sum never leaves positive zero.
proof fn lemma_sum_no_valid(s: Seq<u32>)
    requires
        count_valid(s) == 0,
    ensures
        sum_spec(s) == 0,
    decreases s.len(),
{
    if s.len() > 0 {
        lemma_sum_no_valid(s.drop_last());
    }
}

} // verus!
