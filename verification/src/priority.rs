//! Ranking keys.
//!
//! A priority is carried as the bit pattern of an IEEE-754 single-precision
//! number. Lower priorities rank earlier. The order of two priorities is the
//! numeric order of the numbers they encode; a pattern that encodes no
//! number (NaN) is comparable with nothing.

use vstd::prelude::*;

verus! {

/// Bit pattern of the positive infinity; every larger magnitude is a NaN.
pub const INFINITY_BITS: u32 = 0x7f80_0000;

/// Weight of the sign bit.
pub const SIGN_BIT: u32 = 0x8000_0000;

/// Bit pattern of the number one.
pub const ONE_BITS: u32 = 0x3f80_0000;

/// A ranking key, ascending: the smaller number sorts first.
#[derive(Clone, Copy, Debug, PartialEq, Eq, Structural)]
pub struct Priority {
    pub bits: u32,
}

/// The pattern without its sign bit.
pub open spec fn magnitude(bits: u32) -> int {
    if bits >= SIGN_BIT {
        bits - SIGN_BIT
    } else {
        bits as int
    }
}

/// Whether the pattern encodes no number.
pub open spec fn is_nan_bits(bits: u32) -> bool {
    magnitude(bits) > INFINITY_BITS
}

/// An integer that orders the numbers as their values do: the magnitude for
/// a positive pattern, its negation for a negative one. Both zeros map to 0.
pub open spec fn order_key(bits: u32) -> int {
    if bits >= SIGN_BIT {
        -magnitude(bits)
    } else {
        magnitude(bits)
    }
}

/// Whether `a` encodes a number strictly below the number of `b`. False as
/// soon as either side is a NaN.
pub open spec fn bits_less(a: u32, b: u32) -> bool {
    !is_nan_bits(a) && !is_nan_bits(b) && order_key(a) < order_key(b)
}

/// Ranking strictly before is a strict order: nothing ranks before itself,
/// no two priorities rank before each other, and ranking before carries
/// over. Of two numbers that differ in value, one ranks before the other.
pub proof fn lemma_less_is_a_strict_order(a: u32, b: u32, c: u32)
    ensures
        !bits_less(a, a),
        bits_less(a, b) ==> !bits_less(b, a),
        bits_less(a, b) && bits_less(b, c) ==> bits_less(a, c),
        !is_nan_bits(a) && !is_nan_bits(b) ==> bits_less(a, b) || bits_less(b, a) || order_key(a)
            == order_key(b),
        // among numbers, not ranking before carries over as well
        !is_nan_bits(a) && !is_nan_bits(b) && !is_nan_bits(c) && !bits_less(b, a) && !bits_less(c, b)
            ==> !bits_less(c, a),
{
}

/// Both zeros rank alike, and every other number has one pattern only.
pub proof fn lemma_order_key_tells_numbers_apart(a: u32, b: u32)
    requires
        order_key(a) == order_key(b),
    ensures
        a == b || (magnitude(a) == 0 && magnitude(b) == 0),
{
}

impl Priority {
    /// The priority with the given bit pattern.
    pub fn from_bits(bits: u32) -> (p: Priority)
        ensures
            p.bits == bits,
    {
        Priority { bits }
    }

    /// The bit pattern of this priority.
    pub fn to_bits(&self) -> (bits: u32)
        ensures
            bits == self.bits,
    {
        self.bits
    }

    /// Whether this priority encodes no number.
    pub open spec fn spec_is_nan(&self) -> bool {
        is_nan_bits(self.bits)
    }

    /// Whether this priority encodes no number.
    #[verifier::when_used_as_spec(spec_is_nan)]
    pub fn is_nan(&self) -> (nan: bool)
        ensures
            nan == self.spec_is_nan(),
    {
        let mag: u32 = if self.bits >= SIGN_BIT {
            self.bits - SIGN_BIT
        } else {
            self.bits
        };
        mag > INFINITY_BITS
    }

    /// Whether this priority ranks strictly before `other`.
    pub open spec fn spec_less(&self, other: &Priority) -> bool {
        bits_less(self.bits, other.bits)
    }

    /// Whether this priority ranks strictly before `other`.
    #[verifier::when_used_as_spec(spec_less)]
    pub fn less(&self, other: &Priority) -> (lt: bool)
        ensures
            lt == self.spec_less(other),
            lt ==> !other.spec_less(self),
    {
        if self.is_nan() || other.is_nan() {
            return false;
        }
        let a_neg = self.bits >= SIGN_BIT;
        let b_neg = other.bits >= SIGN_BIT;
        let a_mag: u32 = if a_neg {
            self.bits - SIGN_BIT
        } else {
            self.bits
        };
        let b_mag: u32 = if b_neg {
            other.bits - SIGN_BIT
        } else {
            other.bits
        };
        if a_neg {
            if b_neg {
                a_mag > b_mag
            } else {
                a_mag > 0 || b_mag > 0
            }
        } else {
            if b_neg {
                false
            } else {
                a_mag < b_mag
            }
        }
    }
}

/// Two to the power `e`.
pub open spec fn pow2(e: nat) -> nat
    decreases e,
{
    if e == 0 {
        1
    } else {
        2 * pow2((e - 1) as nat)
    }
}

/// Number of binary digits of `n`; zero has none.
pub open spec fn bit_length(n: nat) -> nat
    decreases n,
{
    if n == 0 {
        0
    } else {
        1 + bit_length(n / 2)
    }
}

/// The pattern of the single-precision number nearest to the integer `n`,
/// a tie going to the even significand. An integer of up to 24 binary
/// digits is encoded exactly: with `len` digits it has the biased exponent
/// `len + 126` and the significand `n * 2^(24 - len)`, whose leading digit
/// is not stored. A longer integer loses its `len - 24` lowest digits, and
/// is rounded up where they amount to more than half a unit of the last
/// kept digit, or to exactly half while the kept significand is odd.
pub open spec fn u32_pattern(n: u32) -> int {
    let len = bit_length(n as nat);
    if n == 0 {
        0
    } else if len <= 24 {
        (len + 126) * pow2(23) + (n * pow2((24 - len) as nat) - pow2(23))
    } else {
        let cut = pow2((len - 24) as nat);
        let kept = n as nat / cut;
        let lost = n as nat % cut;
        let up: int = if 2 * lost > cut || (2 * lost == cut && kept % 2 == 1) {
            1
        } else {
            0
        };
        (len + 126) * pow2(23) + (kept - pow2(23)) + up
    }
}

/// The number that the pattern of a positive normal number encodes,
/// scaled by `2^149` to make it whole: the significand with its leading
/// digit, times two to the power of the biased exponent less one.
pub open spec fn scaled_value(bits: int) -> int {
    (pow2(23) + bits % (pow2(23) as int)) * pow2((bits / (pow2(23) as int) - 1) as nat)
}

/// The pattern of an integer of up to 24 binary digits encodes that
/// integer exactly.
pub proof fn lemma_small_integers_are_exact(n: u32)
    requires
        n > 0,
        bit_length(n as nat) <= 24,
    ensures
        scaled_value(u32_pattern(n)) == n * pow2(149),
{
    let len = bit_length(n as nat);
    lemma_bit_length_bounds(n as nat);
    lemma_pow2_values();
    let shift = (24 - len) as nat;
    let widened = n * pow2(shift);
    // the widened significand has exactly 24 digits
    lemma_pow2_add((len - 1) as nat, shift);
    lemma_pow2_add(len, shift);
    assert(pow2(23) <= widened < pow2(24)) by (nonlinear_arith)
        requires
            widened == n * pow2(shift),
            pow2((len - 1) as nat) <= n < pow2(len),
            pow2((len - 1) as nat) * pow2(shift) == pow2(23),
            pow2(len) * pow2(shift) == pow2(24),
            pow2(shift) > 0,
    ;
    let frac = widened - pow2(23);
    let exponent = len + 126;
    let bits = exponent * pow2(23) + frac;
    assert(u32_pattern(n) == bits);
    assert(bits / (pow2(23) as int) == exponent && bits % (pow2(23) as int) == frac) by {
        vstd::arithmetic::div_mod::lemma_fundamental_div_mod_converse(
            bits,
            pow2(23) as int,
            exponent as int,
            frac,
        );
    }
    // n * 2^shift * 2^(len + 125) is n * 2^149
    lemma_pow2_add(shift, (len + 125) as nat);
    assert(widened * pow2((len + 125) as nat) == n * pow2(149)) by (nonlinear_arith)
        requires
            widened == n * pow2(shift),
            pow2(shift) * pow2((len + 125) as nat) == pow2(149),
    ;
}

/// A positive number lies between the power of two below its digit count
/// and the power of two at it.
pub proof fn lemma_bit_length_bounds(n: nat)
    requires
        n > 0,
    ensures
        bit_length(n) >= 1,
        pow2((bit_length(n) - 1) as nat) <= n < pow2(bit_length(n)),
    decreases n,
{
    if n >= 2 {
        lemma_bit_length_bounds(n / 2);
        let d = bit_length(n / 2);
        assert(pow2(d) == 2 * pow2((d - 1) as nat));
        assert(bit_length(n) == d + 1);
    } else {
        assert(bit_length(n / 2) == 0);
        assert(pow2(1) == 2 * pow2(0));
    }
}

/// The digit count is the only exponent whose powers of two enclose `n`.
pub proof fn lemma_bit_length_unique(n: nat, len: nat)
    requires
        len >= 1,
        pow2((len - 1) as nat) <= n < pow2(len),
    ensures
        bit_length(n) == len,
    decreases len,
{
    assert(pow2(0) == 1);
    if len == 1 {
        assert(pow2(1) == 2 * pow2(0));
        assert(n == 1);
        assert(bit_length(1) == 1 + bit_length(0));
    } else {
        assert(pow2(len) == 2 * pow2((len - 1) as nat));
        assert(pow2((len - 1) as nat) == 2 * pow2((len - 2) as nat));
        lemma_bit_length_unique(n / 2, (len - 1) as nat);
    }
}

proof fn lemma_pow2_values()
    ensures
        pow2(0) == 1,
        pow2(1) == 2,
        pow2(2) == 4,
        pow2(3) == 8,
        pow2(4) == 16,
        pow2(5) == 32,
        pow2(6) == 64,
        pow2(7) == 128,
        pow2(8) == 256,
        pow2(23) == 0x80_0000,
        pow2(24) == 0x100_0000,
        pow2(32) == 0x1_0000_0000,
        forall|e: nat| pow2(e) > 0,
{
    reveal_with_fuel(pow2, 33);
    assert forall|e: nat| pow2(e) > 0 by {
        lemma_pow2_positive(e);
    }
}

proof fn lemma_pow2_positive(e: nat)
    ensures
        pow2(e) > 0,
    decreases e,
{
    if e > 0 {
        lemma_pow2_positive((e - 1) as nat);
    }
}

proof fn lemma_pow2_add(a: nat, b: nat)
    ensures
        pow2(a + b) == pow2(a) * pow2(b),
    decreases a,
{
    if a == 0 {
        assert(pow2(0) == 1);
        assert(pow2(0 + b) == 1 * pow2(b));
    } else {
        lemma_pow2_add((a - 1) as nat, b);
        assert(pow2(a + b) == 2 * pow2((a + b - 1) as nat));
        assert(pow2(a) == 2 * pow2((a - 1) as nat));
        assert(2 * (pow2((a - 1) as nat) * pow2(b)) == (2 * pow2((a - 1) as nat)) * pow2(b))
            by (nonlinear_arith);
    }
}

impl Priority {
    /// The priority that encodes the integer `n`, rounded to the nearest
    /// number that a pattern can hold.
    pub fn from_u32(n: u32) -> (p: Priority)
        ensures
            p.bits == u32_pattern(n),
            !p.spec_is_nan(),
            p.bits < SIGN_BIT,
    {
        if n == 0 {
            return Priority { bits: 0 };
        }
        proof {
            lemma_pow2_values();
            lemma_bit_length_bounds(n as nat);
        }
        if n < 0x100_0000 {
            // widen the significand until its leading digit is the 24th
            let mut m: u32 = n;
            let mut k: u32 = 0;
            while m < 0x80_0000
                invariant
                    0 < m < 0x100_0000,
                    k <= 23,
                    m == n * pow2(k as nat),
                    pow2(23) == 0x80_0000,
                    pow2(24) == 0x100_0000,
                decreases 0x100_0000 - m,
            {
                proof {
                    assert(pow2((k + 1) as nat) == 2 * pow2(k as nat));
                    assert(n * (2 * pow2(k as nat)) == 2 * (n * pow2(k as nat))) by (nonlinear_arith);
                    if k == 23 {
                        assert(n * pow2(23) >= pow2(23)) by (nonlinear_arith)
                            requires
                                n >= 1,
                        ;
                    }
                }
                m = m * 2;
                k = k + 1;
            }
            proof {
                // n * 2^k lies in [2^23, 2^24): n has 24 - k digits
                let len = (24 - k) as nat;
                lemma_pow2_add((len - 1) as nat, k as nat);
                lemma_pow2_add(len, k as nat);
                assert(pow2((len - 1) as nat) <= n < pow2(len)) by (nonlinear_arith)
                    requires
                        pow2((len - 1) as nat) * pow2(k as nat) == 0x80_0000,
                        pow2(len) * pow2(k as nat) == 0x100_0000,
                        0x80_0000 <= n * pow2(k as nat) < 0x100_0000,
                        pow2(k as nat) > 0,
                ;
                lemma_bit_length_unique(n as nat, len);
            }
            let exponent: u32 = 150 - k;
            let bits: u32 = exponent * 0x80_0000 + (m - 0x80_0000);
            Priority { bits }
        } else {
            // drop low digits until 24 are left, keeping what was dropped
            let mut kept: u32 = n;
            let mut lost: u32 = 0;
            let mut cut: u32 = 1;
            let mut sh: u32 = 0;
            while kept >= 0x100_0000
                invariant
                    sh <= 8,
                    cut == pow2(sh as nat),
                    lost < cut,
                    n == kept * cut + lost,
                    kept >= 0x80_0000,
                    pow2(8) == 256,
                    pow2(23) == 0x80_0000,
                    pow2(24) == 0x100_0000,
                decreases kept,
            {
                proof {
                    assert(pow2((sh + 1) as nat) == 2 * pow2(sh as nat));
                    if sh == 8 {
                        assert(kept * cut >= 0x1_0000_0000) by (nonlinear_arith)
                            requires
                                kept >= 0x100_0000,
                                cut == 256,
                        ;
                    }
                    assert(kept * cut == (kept / 2) * (2 * cut) + (kept % 2) * cut)
                        by (nonlinear_arith)
                        requires
                            kept == 2 * (kept / 2) + kept % 2,
                    ;
                    assert((kept % 2) * cut <= cut) by (nonlinear_arith)
                        requires
                            kept % 2 <= 1,
                            cut >= 0,
                    ;
                    lemma_pow2_cut_bound(sh as nat);
                }
                lost = lost + (kept % 2) * cut;
                kept = kept / 2;
                cut = cut * 2;
                sh = sh + 1;
            }
            proof {
                let len = (24 + sh) as nat;
                lemma_pow2_add(23, sh as nat);
                lemma_pow2_add(24, sh as nat);
                assert(pow2((len - 1) as nat) <= n < pow2(len)) by (nonlinear_arith)
                    requires
                        pow2((len - 1) as nat) == 0x80_0000 * cut,
                        pow2(len) == 0x100_0000 * cut,
                        n == kept * cut + lost,
                        0x80_0000 <= kept < 0x100_0000,
                        0 <= lost < cut,
                ;
                lemma_bit_length_unique(n as nat, len);
                assert(n as nat / (cut as nat) == kept && n as nat % (cut as nat) == lost) by {
                    vstd::arithmetic::div_mod::lemma_fundamental_div_mod_converse(
                        n as int,
                        cut as int,
                        kept as int,
                        lost as int,
                    );
                }
            }
            let up: u32 = if 2 * (lost as u64) > cut as u64 || (2 * (lost as u64) == cut as u64
                && kept % 2 == 1) {
                1
            } else {
                0
            };
            let exponent: u32 = 150 + sh;
            let bits: u32 = exponent * 0x80_0000 + (kept - 0x80_0000) + up;
            Priority { bits }
        }
    }
}

proof fn lemma_pow2_cut_bound(sh: nat)
    requires
        sh <= 8,
    ensures
        pow2(sh) <= 256,
{
    reveal_with_fuel(pow2, 10);
}

/// Number of decimal digits of `n`; zero has none.
pub open spec fn decimal_digits(n: nat) -> nat
    decreases n,
{
    if n == 0 {
        0
    } else {
        1 + decimal_digits(n / 10)
    }
}

/// Ten to the power `e`.
pub open spec fn pow10(e: nat) -> nat
    decreases e,
{
    if e == 0 {
        1
    } else {
        10 * pow10((e - 1) as nat)
    }
}

/// A positive number lies between the power of ten below its digit count
/// and the power of ten at it: `digits = floor(log10(n)) + 1`.
pub proof fn lemma_decimal_digits_bounds(n: nat)
    requires
        n > 0,
    ensures
        decimal_digits(n) >= 1,
        pow10((decimal_digits(n) - 1) as nat) <= n < pow10(decimal_digits(n)),
    decreases n,
{
    if n >= 10 {
        lemma_decimal_digits_bounds(n / 10);
        let d = decimal_digits(n / 10);
        assert(pow10(d) == 10 * pow10((d - 1) as nat));
        assert(decimal_digits(n) == d + 1);
    } else {
        assert(decimal_digits(n / 10) == 0);
        assert(pow10(1) == 10 * pow10(0));
    }
}

/// Every count up to the largest one stays below ten to the power of the
/// precision: scaled down by that power, a count takes less than one
/// whole from a priority.
pub proof fn lemma_counts_stay_below_one(count: nat, max_count: nat)
    requires
        count <= max_count,
        max_count > 0,
    ensures
        count < pow10(decimal_digits(max_count)),
{
    lemma_decimal_digits_bounds(max_count);
}

/// The decimal precision for a pass whose largest usage count is
/// `max_count`: its number of decimal digits, so that
/// `count / 10^precision < 1` for every count of the pass.
pub fn decimal_precision(max_count: u32) -> (precision: i32)
    ensures
        precision == decimal_digits(max_count as nat),
        max_count == 0 ==> precision == 0,
        0 <= precision <= 10,
{
    let mut rest: u32 = max_count;
    let mut digits: i32 = 0;
    assert(pow10(0) == 1);
    assert(rest as nat * pow10(digits as nat) <= max_count) by (nonlinear_arith)
        requires
            pow10(digits as nat) == 1,
            rest == max_count,
    ;
    while rest > 0
        invariant
            0 <= digits <= 10,
            digits + decimal_digits(rest as nat) == decimal_digits(max_count as nat),
            rest as nat * pow10(digits as nat) <= max_count,
        decreases rest,
    {
        proof {
            assert(pow10((digits + 1) as nat) == 10 * pow10(digits as nat));
            assert((rest / 10) as nat * pow10((digits + 1) as nat) <= rest as nat * pow10(
                digits as nat,
            )) by (nonlinear_arith)
                requires
                    pow10((digits + 1) as nat) == 10 * pow10(digits as nat),
            ;
            if digits == 10 {
                lemma_pow10_ten();
            }
        }
        rest = rest / 10;
        digits = digits + 1;
    }
    digits
}

proof fn lemma_pow10_ten()
    ensures
        pow10(10) == 10_000_000_000nat,
{
    reveal_with_fuel(pow10, 11);
}

} // verus!
