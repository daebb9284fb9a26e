//! Scalars as IEEE-754 single precision bit patterns.
//!
//! The interpreter never computes with floating-point numbers itself.  A
//! scalar travels as the 32 bits of its encoding; comparisons, truth tests and
//! conversions to and from whole numbers are decided on those bits, and all
//! other arithmetic is requested from the caller.
use vstd::arithmetic::power2::lemma2_to64;
use vstd::arithmetic::power2::lemma2_to64_rest;
use vstd::arithmetic::power2::lemma_pow2_strictly_increases;
use vstd::arithmetic::power2::lemma_pow2_unfold;
use vstd::arithmetic::power2::pow2;
use vstd::prelude::*;

verus! {

/// The bit pattern of a scalar.
pub type Buffer = u32;

/// Positive zero, the false value.
pub const ZERO: Buffer = 0;

/// One, the true value.
pub const ONE: Buffer = 0x3f80_0000;

/// The single precision number nearest to pi.
pub const PI: Buffer = 0x4049_0fdb;

/// The encoding without its sign bit.
pub open spec fn magnitude(b: Buffer) -> int {
    if b >= 0x8000_0000 {
        b - 0x8000_0000
    } else {
        b as int
    }
}

/// Whether the sign bit is set.
pub open spec fn is_negative(b: Buffer) -> bool {
    b >= 0x8000_0000
}

/// Whether the pattern encodes no number.
pub open spec fn is_nan(b: Buffer) -> bool {
    magnitude(b) > 0x7f80_0000
}

/// An integer that orders the encoded numbers as the numbers themselves are
/// ordered; both zeros share the key 0.
pub open spec fn order_key(b: Buffer) -> int {
    if is_negative(b) {
        -magnitude(b)
    } else {
        magnitude(b)
    }
}

/// Numeric equality: false when either side is not a number, true for the two
/// zeros.
pub open spec fn spec_equal(l: Buffer, r: Buffer) -> bool {
    !is_nan(l) && !is_nan(r) && order_key(l) == order_key(r)
}

/// Numeric strict order: false when either side is not a number.
pub open spec fn spec_less(l: Buffer, r: Buffer) -> bool {
    !is_nan(l) && !is_nan(r) && order_key(l) < order_key(r)
}

/// A condition holds when the scalar differs from zero; a pattern that is not
/// a number counts as different.
pub open spec fn spec_truthy(b: Buffer) -> bool {
    magnitude(b) != 0
}

/// The truth value as a scalar.
pub open spec fn spec_from_bool(b: bool) -> Buffer {
    if b {
        ONE
    } else {
        ZERO
    }
}

/// Logical negation: one for either zero, zero for everything else.
pub open spec fn spec_not(b: Buffer) -> Buffer {
    spec_from_bool(!spec_truthy(b))
}

/// The biased exponent field.
pub open spec fn exponent(b: Buffer) -> int {
    magnitude(b) / 0x80_0000
}

/// The significand of a normal number, with its leading one.
pub open spec fn significand(b: Buffer) -> int {
    0x80_0000 + magnitude(b) % 0x80_0000
}

/// The whole part of the absolute value of the encoded number, for a pattern
/// that is a number or an infinity.  For an infinity the result is a large
/// number out of every machine range.
pub open spec fn whole_part(b: Buffer) -> nat {
    let e = exponent(b);
    if e < 127 {
        0
    } else if e >= 150 {
        (significand(b) * pow2((e - 150) as nat)) as nat
    } else {
        (significand(b) / (pow2((150 - e) as nat) as int)) as nat
    }
}

/// Truncation toward zero into a signed 32-bit count: zero for a pattern that
/// is not a number, the nearest bound for a number out of range.
pub open spec fn spec_to_count(b: Buffer) -> int {
    if is_nan(b) {
        0
    } else if is_negative(b) {
        if whole_part(b) >= 0x8000_0000 {
            -0x8000_0000
        } else {
            -(whole_part(b) as int)
        }
    } else {
        if whole_part(b) > 0x7fff_ffff {
            0x7fff_ffff
        } else {
            whole_part(b) as int
        }
    }
}

/// Truncation toward zero into an index: zero for a negative number and for a
/// pattern that is not a number.
pub open spec fn spec_to_index(b: Buffer) -> nat {
    if is_nan(b) || is_negative(b) {
        0
    } else {
        whole_part(b)
    }
}

/// The position of the highest set bit of a positive number.
pub open spec fn top_bit(v: nat) -> nat
    decreases v,
{
    if v <= 1 {
        0
    } else {
        1 + top_bit(v / 2)
    }
}

/// The pattern of the number nearest to `v`, ties going to the even
/// significand.
pub open spec fn spec_from_count(v: nat) -> int {
    if v == 0 {
        0
    } else {
        let e = top_bit(v);
        if e <= 23 {
            (127 + e) * 0x80_0000 + (v * pow2((23 - e) as nat) - 0x80_0000)
        } else {
            let unit = pow2((e - 23) as nat) as int;
            let q = v as int / unit;
            let r = v as int % unit;
            let up = 2 * r > unit || (2 * r == unit && q % 2 == 1);
            (127 + e) * 0x80_0000 + (q + if up { 1int } else { 0int } - 0x80_0000)
        }
    }
}

proof fn lemma_pow2_below_64(n: nat)
    requires
        n < 64,
    ensures
        0 < pow2(n) <= 0x8000_0000_0000_0000,
{
    lemma2_to64();
    lemma2_to64_rest();
    if n < 63 {
        lemma_pow2_strictly_increases(n, 63);
    }
    vstd::arithmetic::power2::lemma_pow2_pos(n);
}

fn power_of_two(n: u32) -> (out: u64)
    requires
        n < 64,
    ensures
        out == pow2(n as nat),
{
    let mut p: u64 = 1;
    let mut k: u32 = 0;
    proof {
        lemma2_to64();
    }
    while k < n
        invariant
            k <= n,
            n < 64,
            p == pow2(k as nat),
        decreases n - k,
    {
        proof {
            lemma_pow2_below_64(k as nat);
            lemma_pow2_below_64((k + 1) as nat);
            lemma_pow2_unfold((k + 1) as nat);
        }
        p = p * 2;
        k = k + 1;
    }
    p
}

fn magnitude_of(b: Buffer) -> (out: u32)
    ensures
        out == magnitude(b),
{
    if b >= 0x8000_0000 {
        b - 0x8000_0000
    } else {
        b
    }
}

/// Whether the pattern encodes no number.
pub fn not_a_number(b: Buffer) -> (out: bool)
    ensures
        out == is_nan(b),
{
    magnitude_of(b) > 0x7f80_0000
}

fn key_of(b: Buffer) -> (out: i64)
    ensures
        out == order_key(b),
{
    let m: u32 = magnitude_of(b);
    if b >= 0x8000_0000 {
        0 - (m as i64)
    } else {
        m as i64
    }
}

/// Truth test of a condition.
pub fn truthy(b: Buffer) -> (out: bool)
    ensures
        out == spec_truthy(b),
{
    magnitude_of(b) != 0
}

/// The scalar for a truth value.
pub fn from_bool(b: bool) -> (out: Buffer)
    ensures
        out == spec_from_bool(b),
{
    if b {
        ONE
    } else {
        ZERO
    }
}

/// `==` on scalars.
pub fn equal(l: Buffer, r: Buffer) -> (out: Buffer)
    ensures
        out == spec_from_bool(spec_equal(l, r)),
{
    from_bool(!not_a_number(l) && !not_a_number(r) && key_of(l) == key_of(r))
}

/// `<` on scalars.
pub fn less(l: Buffer, r: Buffer) -> (out: Buffer)
    ensures
        out == spec_from_bool(spec_less(l, r)),
{
    from_bool(!not_a_number(l) && !not_a_number(r) && key_of(l) < key_of(r))
}

/// `>` on scalars.
pub fn greater(l: Buffer, r: Buffer) -> (out: Buffer)
    ensures
        out == spec_from_bool(spec_less(r, l)),
{
    less(r, l)
}

/// `!` on a scalar.
pub fn not(b: Buffer) -> (out: Buffer)
    ensures
        out == spec_not(b),
{
    from_bool(!truthy(b))
}

/// `||` on scalars: true when either side is exactly one.
pub fn or(l: Buffer, r: Buffer) -> (out: Buffer)
    ensures
        out == spec_from_bool(l == ONE || r == ONE),
{
    from_bool(l == ONE || r == ONE)
}

/// `&&` on scalars: true when both sides are exactly one.
pub fn and(l: Buffer, r: Buffer) -> (out: Buffer)
    ensures
        out == spec_from_bool(l == ONE && r == ONE),
{
    from_bool(l == ONE && r == ONE)
}

/// The whole part of the absolute value when it is below `bound`.
fn whole_part_below(b: Buffer, bound: u64) -> (out: Option<u64>)
    requires
        !is_nan(b),
    ensures
        out == if whole_part(b) < bound {
            Some(whole_part(b) as u64)
        } else {
            None::<u64>
        },
{
    let m: u32 = magnitude_of(b);
    let e: u32 = m / 0x80_0000;
    let s: u64 = 0x80_0000 + (m % 0x80_0000) as u64;
    if e < 127 {
        if 0 < bound {
            Some(0)
        } else {
            None
        }
    } else if e >= 150 {
        if e >= 191 {
            proof {
                if e > 191 {
                    lemma_pow2_strictly_increases(41, (e - 150) as nat);
                }
                lemma2_to64_rest();
                assert(s * pow2((e - 150) as nat) >= 0x80_0000 * pow2(41)) by (nonlinear_arith)
                    requires
                        s >= 0x80_0000,
                        pow2((e - 150) as nat) >= pow2(41),
                ;
            }
            None
        } else {
            let p: u64 = power_of_two(e - 150);
            proof {
                lemma2_to64_rest();
                if e < 190 {
                    lemma_pow2_strictly_increases((e - 150) as nat, 40);
                }
                assert(s * p < 0x100_0000 * 0x100_0000_0000) by (nonlinear_arith)
                    requires
                        0 <= s < 0x100_0000,
                        0 <= p <= 0x100_0000_0000,
                ;
            }
            let w: u64 = s * p;
            if w < bound {
                Some(w)
            } else {
                None
            }
        }
    } else {
        let p: u64 = power_of_two(150 - e);
        proof {
            lemma_pow2_below_64((150 - e) as nat);
        }
        let w: u64 = s / p;
        if w < bound {
            Some(w)
        } else {
            None
        }
    }
}

/// Truncates a scalar to a loop count.
pub fn to_count(b: Buffer) -> (out: i32)
    ensures
        out == spec_to_count(b),
{
    if not_a_number(b) {
        0
    } else if b >= 0x8000_0000 {
        match whole_part_below(b, 0x8000_0000) {
            Some(w) => (0 - (w as i64)) as i32,
            None => -0x8000_0000,
        }
    } else {
        match whole_part_below(b, 0x8000_0000) {
            Some(w) => w as i32,
            None => 0x7fff_ffff,
        }
    }
}

/// Truncates a scalar to a position in a sequence of `len` items; `None` when
/// the position is past the end.
pub fn to_index(b: Buffer, len: usize) -> (out: Option<usize>)
    ensures
        out == if spec_to_index(b) < len {
            Some(spec_to_index(b) as usize)
        } else {
            None::<usize>
        },
{
    if len == 0 {
        None
    } else if not_a_number(b) || b >= 0x8000_0000 {
        Some(0)
    } else {
        match whole_part_below(b, len as u64) {
            Some(w) => Some(w as usize),
            None => None,
        }
    }
}

/// Negation is an involution on the two truth values.
pub proof fn law_not_involution(b: Buffer)
    requires
        b == ZERO || b == ONE,
    ensures
        spec_not(spec_not(b)) == b,
{
}

/// `==` yields one exactly when the two patterns are the same, for operands
/// that are numbers and not the two zeros of opposite sign.
pub proof fn law_equal_is_bit_equality(l: Buffer, r: Buffer)
    requires
        !is_nan(l),
        !is_nan(r),
        !(magnitude(l) == 0 && magnitude(r) == 0 && l != r),
    ensures
        (spec_from_bool(spec_equal(l, r)) == ONE) <==> l == r,
{
}

/// `==` yields one or zero, and one exactly when the operands are equal as
/// numbers.
pub proof fn law_equal_decides(l: Buffer, r: Buffer)
    ensures
        spec_from_bool(spec_equal(l, r)) == ONE || spec_from_bool(spec_equal(l, r)) == ZERO,
        (spec_from_bool(spec_equal(l, r)) == ONE) <==> spec_equal(l, r),
{
}

proof fn lemma_top_bit_bounds(v: nat)
    requires
        v > 0,
    ensures
        pow2(top_bit(v)) <= v < pow2(top_bit(v) + 1),
    decreases v,
{
    lemma2_to64();
    if v > 1 {
        lemma_top_bit_bounds(v / 2);
        lemma_pow2_unfold(top_bit(v));
        lemma_pow2_unfold(top_bit(v) + 1);
    }
}

/// The scalar nearest to a whole number.
pub fn from_count(v: u32) -> (out: Buffer)
    ensures
        out == spec_from_count(v as nat),
{
    if v == 0 {
        return 0;
    }
    let mut e: u32 = 0;
    let mut t: u32 = v;
    proof {
        lemma2_to64();
    }
    while t > 1
        invariant
            t >= 1,
            e <= 31,
            top_bit(v as nat) == e + top_bit(t as nat),
            t * pow2(e as nat) <= v,
        decreases t,
    {
        proof {
            lemma_pow2_unfold((e + 1) as nat);
            assert((t / 2) * (2 * pow2(e as nat)) <= t * pow2(e as nat)) by (nonlinear_arith)
                requires
                    t >= 0,
                    pow2(e as nat) >= 0,
            ;
            if e == 31 {
                lemma2_to64();
                assert((t / 2) * pow2(32) >= pow2(32)) by (nonlinear_arith)
                    requires
                        t / 2 >= 1,
                ;
            }
        }
        t = t / 2;
        e = e + 1;
    }
    proof {
        lemma_top_bit_bounds(v as nat);
        lemma2_to64();
    }
    if e <= 23 {
        let p: u64 = power_of_two(23 - e);
        proof {
            vstd::arithmetic::power2::lemma_pow2_adds(e as nat, (23 - e) as nat);
            vstd::arithmetic::power2::lemma_pow2_adds((e + 1) as nat, (23 - e) as nat);
            assert(pow2(e as nat) * p <= v * p < pow2((e + 1) as nat) * p) by (nonlinear_arith)
                requires
                    pow2(e as nat) <= v < pow2((e + 1) as nat),
                    p > 0,
            ;
        }
        let scaled: u64 = (v as u64) * p;
        ((127 + e as u64) * 0x80_0000 + (scaled - 0x80_0000)) as u32
    } else {
        let unit: u64 = power_of_two(e - 23);
        let q: u64 = (v as u64) / unit;
        let r: u64 = (v as u64) % unit;
        proof {
            vstd::arithmetic::power2::lemma_pow2_adds(23, (e - 23) as nat);
            vstd::arithmetic::power2::lemma_pow2_adds(24, (e - 23) as nat);
            assert(0x80_0000 <= (v as int) / (unit as int) && (v as int) / (unit as int) < 0x100_0000) by (nonlinear_arith)
                requires
                    0x80_0000 * unit <= v < 0x100_0000 * unit,
                    unit > 0,
            ;
        }
        let up: bool = 2 * r > unit || (2 * r == unit && q % 2 == 1);
        let bump: u64 = if up {
            1
        } else {
            0
        };
        ((127 + e as u64) * 0x80_0000 + (q + bump - 0x80_0000)) as u32
    }
}

} // verus!
