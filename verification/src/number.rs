//! Floating-point numbers as the rules of this crate read them: by an integer
//! that orders them, and by the text they print as.

use vstd::prelude::*;

verus! {

/// A number: `key` is the order key of its double-precision bits, `text` what
/// it prints as. What no number compares with has a key beyond those of the two
/// infinities, such as `UNORDERED`.
#[derive(Clone, Debug, PartialEq, Eq)]
pub struct Number {
    pub key: i64,
    pub text: String,
}

/// What a text says as a number.
#[derive(Clone, Copy, Debug, PartialEq, Eq, Structural)]
pub enum Reading {
    /// The text is no number.
    Words,
    /// The text is a number that no other compares with.
    Unordered,
    /// The text is the number with this order key.
    Ordered(i64),
}

/// The key of a limit that is no number. No number has it.
pub const UNORDERED: i64 = i64::MIN;

/// The order key of infinity; that of negative infinity is its negation.
pub const INFINITY: i64 = 0x7ff0_0000_0000_0000;

/// Whether an order key is that of something that numbers compare with.
pub open spec fn compares(key: i64) -> bool {
    -INFINITY <= key <= INFINITY
}

/// Whether an order key is that of something that numbers compare with.
pub fn is_comparable(key: i64) -> (b: bool)
    ensures
        b == compares(key),
{
    -INFINITY <= key && key <= INFINITY
}

/// The bit that marks a negative number.
pub const SIGN: u64 = 0x8000_0000_0000_0000;

/// The order key of a number with the given double-precision bits: the
/// magnitude bits, negated for a negative number.
pub open spec fn key_of(bits: u64) -> int {
    if bits < SIGN {
        bits as int
    } else {
        SIGN - bits
    }
}

/// The double-precision bits that belong to an order key.
pub open spec fn bits_at(key: i64) -> int {
    if key >= 0 {
        key as int
    } else {
        SIGN - key
    }
}

/// The order key of a number with the given double-precision bits.
pub fn order_key(bits: u64) -> (key: i64)
    ensures
        key == key_of(bits),
{
    if bits < SIGN {
        bits as i64
    } else {
        -((bits - SIGN) as i64)
    }
}

/// The double-precision bits that belong to an order key.
pub fn key_bits(key: i64) -> (bits: u64)
    requires
        key > UNORDERED,
    ensures
        bits == bits_at(key),
{
    if key >= 0 {
        key as u64
    } else {
        (-key) as u64 + SIGN
    }
}

/// Every number but the negative zero is the one that its order key stands
/// for; the key of the negative zero is that of zero.
pub proof fn law_key_round_trip(bits: u64)
    ensures
        UNORDERED < key_of(bits) <= i64::MAX,
        bits != SIGN ==> bits_at(key_of(bits) as i64) == bits,
        bits == SIGN ==> key_of(bits) == 0,
{
}

/// The magnitude that double-precision bits without a sign stand for, in units
/// of the smallest one.
pub open spec fn magnitude(bits: int) -> int {
    let exponent = bits / 0x10_0000_0000_0000;
    let fraction = bits % 0x10_0000_0000_0000;
    if exponent == 0 {
        fraction
    } else {
        (0x10_0000_0000_0000 + fraction) * vstd::arithmetic::power2::pow2((exponent - 1) as nat)
    }
}

/// The number that double-precision bits stand for, in units of the smallest
/// positive one.
pub open spec fn value_of(bits: u64) -> int {
    if bits < SIGN {
        magnitude(bits as int)
    } else {
        -magnitude(bits - SIGN)
    }
}

/// Whether double-precision bits stand for a finite number.
pub open spec fn finite(bits: u64) -> bool {
    let unsigned = if bits < SIGN { bits as int } else { bits - SIGN };
    unsigned < 0x7ff0_0000_0000_0000
}

proof fn lemma_magnitude_step(bits: int)
    requires
        0 <= bits,
    ensures
        magnitude(bits) < magnitude(bits + 1),
        0 <= magnitude(bits),
{
    let exponent = bits / 0x10_0000_0000_0000;
    let fraction = bits % 0x10_0000_0000_0000;
    vstd::arithmetic::power2::lemma_pow2(0);
    assert(vstd::arithmetic::power2::pow2(0) == 1) by {
        vstd::arithmetic::power2::lemma2_to64();
    }
    if exponent > 0 {
        let p = vstd::arithmetic::power2::pow2((exponent - 1) as nat) as int;
        assert(p > 0) by {
            vstd::arithmetic::power2::lemma_pow2_pos((exponent - 1) as nat);
        }
        assert((0x10_0000_0000_0000 + fraction) * p >= 0) by (nonlinear_arith)
            requires
                fraction >= 0,
                p > 0,
        ;
        if fraction + 1 < 0x10_0000_0000_0000 {
            assert((bits + 1) / 0x10_0000_0000_0000 == exponent);
            assert((bits + 1) % 0x10_0000_0000_0000 == fraction + 1);
            assert((0x10_0000_0000_0000 + fraction) * p < (0x10_0000_0000_0000 + fraction + 1) * p)
                by (nonlinear_arith)
                requires
                    p > 0,
            ;
        } else {
            assert((bits + 1) / 0x10_0000_0000_0000 == exponent + 1);
            assert((bits + 1) % 0x10_0000_0000_0000 == 0);
            assert(vstd::arithmetic::power2::pow2(exponent as nat) == 2 * p) by {
                vstd::arithmetic::power2::lemma_pow2_unfold(exponent as nat);
            }
            assert((0x10_0000_0000_0000 + fraction) * p < 0x10_0000_0000_0000 * (2 * p))
                by (nonlinear_arith)
                requires
                    p > 0,
                    fraction < 0x10_0000_0000_0000,
            ;
        }
    } else if fraction + 1 < 0x10_0000_0000_0000 {
        assert((bits + 1) / 0x10_0000_0000_0000 == 0);
        assert((bits + 1) % 0x10_0000_0000_0000 == fraction + 1);
    } else {
        assert((bits + 1) / 0x10_0000_0000_0000 == 1);
        assert((bits + 1) % 0x10_0000_0000_0000 == 0);
    }
}

proof fn lemma_magnitude_grows(a: int, b: int)
    requires
        0 <= a < b,
    ensures
        magnitude(a) < magnitude(b),
    decreases b - a,
{
    lemma_magnitude_step(b - 1);
    if a < b - 1 {
        lemma_magnitude_grows(a, b - 1);
    }
}

/// Order keys order finite numbers as their values do.
pub proof fn law_keys_order_numbers(a: u64, b: u64)
    requires
        finite(a),
        finite(b),
    ensures
        key_of(a) < key_of(b) <==> value_of(a) < value_of(b),
        key_of(a) == key_of(b) <==> value_of(a) == value_of(b),
{
    let x = if a < SIGN { a as int } else { a - SIGN };
    let y = if b < SIGN { b as int } else { b - SIGN };
    assert(magnitude(0) == 0);
    if x < y {
        lemma_magnitude_grows(x, y);
    }
    if y < x {
        lemma_magnitude_grows(y, x);
    }
    if 0 < x {
        lemma_magnitude_grows(0, x);
    }
    if 0 < y {
        lemma_magnitude_grows(0, y);
    }
}

/// The magnitude that single-precision bits without a sign stand for, in units
/// of the smallest one.
pub open spec fn single_magnitude(bits: int) -> int {
    let exponent = bits / 0x80_0000;
    let fraction = bits % 0x80_0000;
    if exponent == 0 {
        fraction
    } else {
        (0x80_0000 + fraction) * vstd::arithmetic::power2::pow2((exponent - 1) as nat)
    }
}

/// Whether single-precision bits stand for a natural number.
pub open spec fn denotes(bits: u32, n: nat) -> bool {
    bits < 0x7f80_0000 && single_magnitude(bits as int) == n * vstd::arithmetic::power2::pow2(149)
}

proof fn lemma_single_step(bits: int)
    requires
        0 <= bits,
    ensures
        single_magnitude(bits) < single_magnitude(bits + 1),
{
    let exponent = bits / 0x80_0000;
    let fraction = bits % 0x80_0000;
    assert(vstd::arithmetic::power2::pow2(0) == 1) by {
        vstd::arithmetic::power2::lemma2_to64();
    }
    if exponent > 0 {
        let p = vstd::arithmetic::power2::pow2((exponent - 1) as nat) as int;
        assert(p > 0) by {
            vstd::arithmetic::power2::lemma_pow2_pos((exponent - 1) as nat);
        }
        if fraction + 1 < 0x80_0000 {
            assert((bits + 1) / 0x80_0000 == exponent);
            assert((bits + 1) % 0x80_0000 == fraction + 1);
            assert((0x80_0000 + fraction) * p < (0x80_0000 + (fraction + 1)) * p)
                by (nonlinear_arith)
                requires
                    p > 0,
            ;
        } else {
            assert((bits + 1) / 0x80_0000 == exponent + 1);
            assert((bits + 1) % 0x80_0000 == 0);
            assert(vstd::arithmetic::power2::pow2(exponent as nat) == 2 * p) by {
                vstd::arithmetic::power2::lemma_pow2_unfold(exponent as nat);
            }
            assert((0x80_0000 + fraction) * p < 0x80_0000 * (2 * p)) by (nonlinear_arith)
                requires
                    p > 0,
                    fraction < 0x80_0000,
            ;
            assert(single_magnitude(bits + 1) == 0x80_0000 * (2 * p)) by {
                assert((exponent + 1 - 1) as nat == exponent as nat);
            }
        }
    } else if fraction + 1 < 0x80_0000 {
        assert((bits + 1) / 0x80_0000 == 0);
        assert((bits + 1) % 0x80_0000 == fraction + 1);
    } else {
        assert((bits + 1) / 0x80_0000 == 1);
        assert((bits + 1) % 0x80_0000 == 0);
        let p = vstd::arithmetic::power2::pow2(0) as int;
        assert(single_magnitude(bits + 1) == (0x80_0000 + 0) * p);
        assert((0x80_0000 + 0) * p == 0x80_0000) by (nonlinear_arith)
            requires
                p == 1,
        ;
    }
}

proof fn lemma_single_grows(a: int, b: int)
    requires
        0 <= a < b,
    ensures
        single_magnitude(a) < single_magnitude(b),
    decreases b - a,
{
    lemma_single_step(b - 1);
    if a < b - 1 {
        lemma_single_grows(a, b - 1);
    }
}

/// A natural number has one form in single precision at most.
pub proof fn law_denotes_once(a: u32, b: u32, n: nat)
    requires
        denotes(a, n),
        denotes(b, n),
    ensures
        a == b,
{
    if a < b {
        lemma_single_grows(a as int, b as int);
    }
    if b < a {
        lemma_single_grows(b as int, a as int);
    }
}

/// The single-precision bits of a number that single precision holds exactly.
pub fn single_bits(n: u32) -> (bits: u32)
    requires
        n < 0x100_0000,
    ensures
        denotes(bits, n as nat),
{
    if n == 0 {
        assert(0 * vstd::arithmetic::power2::pow2(149) == 0) by (nonlinear_arith);
        return 0;
    }
    let mut scaled: u32 = n;
    let mut exponent: u32 = 23;
    proof {
        vstd::arithmetic::power2::lemma2_to64();
        assert(n * vstd::arithmetic::power2::pow2(0) == n) by (nonlinear_arith)
            requires
                vstd::arithmetic::power2::pow2(0) == 1,
        ;
    }
    while scaled < 0x80_0000
        invariant
            0 < n,
            0 < scaled < 0x100_0000,
            exponent <= 23,
            scaled == n * vstd::arithmetic::power2::pow2((23 - exponent) as nat),
        decreases exponent,
    {
        proof {
            if exponent == 0 {
                assert(vstd::arithmetic::power2::pow2(23) == 0x80_0000) by {
                    vstd::arithmetic::power2::lemma2_to64();
                }
                assert(n * vstd::arithmetic::power2::pow2(23) >= 0x80_0000) by (nonlinear_arith)
                    requires
                        n >= 1,
                        vstd::arithmetic::power2::pow2(23) == 0x80_0000,
                ;
            }
            let k = (23 - exponent) as nat;
            vstd::arithmetic::power2::lemma_pow2_unfold(k + 1);
            let p = vstd::arithmetic::power2::pow2(k) as int;
            assert(n * (2 * p) == 2 * (n * p)) by (nonlinear_arith);
        }
        scaled = scaled * 2;
        exponent = exponent - 1;
    }
    let bits: u32 = (127 + exponent) * 0x80_0000 + (scaled - 0x80_0000);
    proof {
        let fraction = scaled - 0x80_0000;
        assert(bits as int == (127 + exponent) * 0x80_0000 + fraction);
        assert(bits as int / 0x80_0000 == 127 + exponent);
        assert(bits as int % 0x80_0000 == fraction);
        let k = (23 - exponent) as nat;
        let e = (126 + exponent) as nat;
        vstd::arithmetic::power2::lemma_pow2_adds(k, e);
        let a = vstd::arithmetic::power2::pow2(k) as int;
        let b = vstd::arithmetic::power2::pow2(e) as int;
        assert(k + e == 149);
        assert((n * a) * b == n * (a * b)) by (nonlinear_arith);
    }
    bits
}

} // verus!
