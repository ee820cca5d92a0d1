//! Lengths carried as IEEE 754 binary floating-point numbers.
//!
//! A frame length may be written as an `f32` or an `f64`. On the wire such a
//! number is its bit pattern; this module works on those bit patterns as
//! integers. Writing a length rounds it to the nearest value the format holds
//! (ties to an even significand); reading one truncates toward zero, maps NaN
//! and negative values to zero, and saturates at `u64::MAX`.

use vstd::prelude::*;
use vstd::arithmetic::power2::{
    pow2,
    lemma_pow2_adds,
    lemma_pow2_pos,
    lemma_pow2_unfold,
    lemma_pow2_strictly_increases,
    lemma2_to64,
    lemma2_to64_rest,
};
use vstd::arithmetic::mul::{
    lemma_mul_inequality,
    lemma_mul_strict_inequality,
    lemma_mul_is_commutative,
};
use vstd::arithmetic::div_mod::{
    lemma_div_by_multiple,
    lemma_fundamental_div_mod,
    lemma_div_multiples_vanish_fancy,
    lemma_mod_multiples_vanish,
};

verus! {

/// The two binary interchange formats a length may be written in.
#[derive(Debug, Clone, Copy, PartialEq, Eq, Structural)]
pub enum FloatFormat {
    /// `f32`: 23 fraction bits, 8 exponent bits.
    Single,
    /// `f64`: 52 fraction bits, 11 exponent bits.
    Double,
}

impl FloatFormat {
    /// Number of stored fraction (mantissa) bits.
    pub open spec fn fraction_bits(self) -> nat {
        match self {
            FloatFormat::Single => 23,
            FloatFormat::Double => 52,
        }
    }

    /// Number of exponent bits.
    pub open spec fn exponent_bits(self) -> nat {
        match self {
            FloatFormat::Single => 8,
            FloatFormat::Double => 11,
        }
    }

    /// Exponent bias.
    pub open spec fn bias(self) -> nat {
        match self {
            FloatFormat::Single => 127,
            FloatFormat::Double => 1023,
        }
    }

    /// Size of the bit pattern in bytes.
    pub open spec fn byte_width(self) -> nat {
        match self {
            FloatFormat::Single => 4,
            FloatFormat::Double => 8,
        }
    }
}

/// Number of binary digits of `n` (0 for 0).
pub open spec fn bit_len(n: nat) -> nat
    decreases n,
{
    if n == 0 {
        0
    } else {
        1 + bit_len(n / 2)
    }
}

/// The length `as u64` gives for the float whose bit pattern is `bits`:
/// NaN, negative values and values below one give 0, positive infinity and
/// values of `2^64` or more give `u64::MAX`, other values are truncated
/// toward zero.
pub open spec fn truncated_length(bits: nat, f: FloatFormat) -> nat {
    let p = f.fraction_bits();
    let fraction = bits % pow2(p);
    let exponent = (bits / pow2(p)) % pow2(f.exponent_bits());
    let negative = (bits / pow2(p + f.exponent_bits())) % 2 == 1;
    if exponent == pow2(f.exponent_bits()) - 1 {
        if fraction == 0 && !negative {
            u64::MAX as nat
        } else {
            0
        }
    } else if exponent < f.bias() || negative {
        0
    } else {
        let value = (pow2(p) + fraction) * pow2((exponent - f.bias()) as nat) / pow2(p);
        if value > u64::MAX {
            u64::MAX as nat
        } else {
            value
        }
    }
}

/// `n` rounded to `digits` significant binary digits, ties going to the
/// value whose last kept digit is even.
pub open spec fn round_to_digits(n: nat, digits: nat) -> nat {
    if bit_len(n) <= digits {
        n
    } else {
        let s = (bit_len(n) - digits) as nat;
        let q = n / pow2(s);
        let r = n % pow2(s);
        let up = 2 * r > pow2(s) || (2 * r == pow2(s) && q % 2 == 1);
        (if up {
            q + 1
        } else {
            q
        }) * pow2(s)
    }
}

/// The bit pattern of the positive float whose value is the integer `v`
/// (which the format must hold exactly); 0 for `v == 0`.
pub open spec fn integer_float_bits(v: nat, f: FloatFormat) -> nat {
    if v == 0 {
        0
    } else {
        let p = f.fraction_bits();
        let k = (bit_len(v) - 1) as nat;
        let significand = if k >= p {
            v / pow2((k - p) as nat)
        } else {
            v * pow2((p - k) as nat)
        };
        ((k + f.bias()) * pow2(p) + (significand - pow2(p))) as nat
    }
}

/// The bit pattern of `n as f32` / `n as f64`: `n` rounded to the nearest
/// value of the format, ties to even.
pub open spec fn rounded_float_bits(n: nat, f: FloatFormat) -> nat {
    integer_float_bits(round_to_digits(n, f.fraction_bits() + 1), f)
}

/// An integer `v` is held exactly by a format with `p` fraction bits.
pub open spec fn representable(v: nat, p: nat) -> bool {
    bit_len(v) <= p + 1 || v % pow2((bit_len(v) - (p + 1)) as nat) == 0
}

// ----------------------------------------------------------------------
// Facts about powers of two and bit lengths

proof fn lemma_pow2_128()
    ensures
        pow2(128) == 0x1_0000_0000_0000_0000_0000_0000_0000_0000,
{
    lemma2_to64();
    lemma_pow2_adds(64, 64);
}

proof fn lemma_pow2_mono(a: nat, b: nat)
    requires
        a <= b,
    ensures
        pow2(a) <= pow2(b),
{
    if a < b {
        lemma_pow2_strictly_increases(a, b);
    }
}

/// `2^(len-1) <= n < 2^len` where `len` is the bit length of a positive `n`.
pub proof fn lemma_bit_len_bounds(n: nat)
    ensures
        n < pow2(bit_len(n)),
        n > 0 ==> pow2((bit_len(n) - 1) as nat) <= n,
    decreases n,
{
    if n > 0 {
        lemma_bit_len_bounds(n / 2);
        lemma_pow2_unfold(bit_len(n));
        if n / 2 > 0 {
            lemma_pow2_unfold((bit_len(n) - 1) as nat);
        } else {
            lemma2_to64();
        }
    } else {
        lemma2_to64();
    }
}

/// The bit length of `n` is `k + 1` exactly when `2^k <= n < 2^(k+1)`.
pub proof fn lemma_bit_len_unique(n: nat, k: nat)
    requires
        pow2(k) <= n < pow2(k + 1),
    ensures
        bit_len(n) == k + 1,
{
    lemma_bit_len_bounds(n);
    lemma_pow2_pos(k);
    let b = bit_len(n);
    if b < k + 1 {
        lemma_pow2_mono(b, k);
    } else if b > k + 1 {
        lemma_pow2_mono(k + 1, (b - 1) as nat);
    }
}

/// `n < 2^d` exactly when `n` has at most `d` binary digits.
pub proof fn lemma_bit_len_le(n: nat, d: nat)
    ensures
        bit_len(n) <= d <==> n < pow2(d),
{
    lemma_bit_len_bounds(n);
    if bit_len(n) <= d {
        lemma_pow2_mono(bit_len(n), d);
    } else {
        lemma_pow2_mono(d, (bit_len(n) - 1) as nat);
    }
}

// ----------------------------------------------------------------------
// Executable helpers

/// `2^e`.
fn pow2_u128(e: u64) -> (r: u128)
    requires
        e < 128,
    ensures
        r == pow2(e as nat),
{
    let mut r: u128 = 1;
    let mut i: u64 = 0;
    proof {
        lemma2_to64();
    }
    while i < e
        invariant
            i <= e,
            e < 128,
            r == pow2(i as nat),
        decreases e - i,
    {
        proof {
            lemma_pow2_unfold((i + 1) as nat);
            lemma_pow2_mono((i + 1) as nat, 127);
            lemma_pow2_strictly_increases(127, 128);
            lemma_pow2_128();
        }
        r = r * 2;
        i = i + 1;
    }
    r
}

/// Number of binary digits of `n`.
fn bit_length(n: u128) -> (len: u64)
    ensures
        len == bit_len(n as nat),
        len <= 128,
{
    let mut x: u128 = n;
    let mut len: u64 = 0;
    proof {
        lemma_bit_len_bounds(n as nat);
        lemma_pow2_128();
        lemma_bit_len_le(n as nat, 128);
    }
    while x > 0
        invariant
            bit_len(n as nat) == len + bit_len(x as nat),
            bit_len(n as nat) <= 128,
        decreases x,
    {
        x = x / 2;
        len = len + 1;
    }
    len
}

/// The fraction width, exponent width and bias of `f`.
fn format_params(f: FloatFormat) -> (r: (u64, u64, u64))
    ensures
        r.0 == f.fraction_bits(),
        r.1 == f.exponent_bits(),
        r.2 == f.bias(),
{
    match f {
        FloatFormat::Single => (23, 8, 127),
        FloatFormat::Double => (52, 11, 1023),
    }
}

/// The length `bits`, read as a float of format `f`, stands for: what
/// `as u64` gives for that float.
pub fn float_bits_to_length(bits: u64, f: FloatFormat) -> (len: u64)
    ensures
        len == truncated_length(bits as nat, f),
{
    let (p, ebits, bias) = format_params(f);
    let two_p = pow2_u128(p);
    let two_e = pow2_u128(ebits);
    let two_pe = pow2_u128(p + ebits);
    let b = bits as u128;
    proof {
        lemma_pow2_pos(p as nat);
        lemma_pow2_pos(ebits as nat);
        lemma_pow2_pos((p + ebits) as nat);
        lemma_pow2_mono(p as nat, 52);
        lemma_pow2_mono(ebits as nat, 11);
        lemma2_to64();
        lemma2_to64_rest();
    }
    let fraction = b % two_p;
    let exponent = (b / two_p) % two_e;
    let negative = (b / two_pe) % 2 == 1;
    if exponent == two_e - 1 {
        if fraction == 0 && !negative {
            u64::MAX
        } else {
            0
        }
    } else if exponent < bias as u128 || negative {
        0
    } else {
        let e = (exponent - bias as u128) as u64;
        let significand = two_p + fraction;
        proof {
            assert(exponent < two_e);
            lemma2_to64();
            assert(e < 2048);
        }
        if e >= 64 {
            proof {
                // the value is at least 2^e >= 2^64
                let v = ((pow2(p as nat) + fraction) * pow2(e as nat)) as nat / pow2(p as nat);
                lemma_mul_inequality(pow2(p as nat) as int, significand as int, pow2(e as nat) as int);
                lemma_mul_is_commutative(pow2(p as nat) as int, pow2(e as nat) as int);
                lemma_div_by_multiple(pow2(e as nat) as int, pow2(p as nat) as int);
                vstd::arithmetic::div_mod::lemma_div_is_ordered(
                    (pow2(e as nat) * pow2(p as nat)) as int,
                    (significand * pow2(e as nat)) as int,
                    pow2(p as nat) as int,
                );
                lemma_pow2_mono(64, e as nat);
                lemma2_to64();
                assert(v >= pow2(64));
            }
            u64::MAX
        } else {
            let scale = pow2_u128(e);
            proof {
                // significand < 2^(p+1) <= 2^53 and scale < 2^64
                lemma_pow2_unfold((p + 1) as nat);
                lemma_pow2_mono((p + 1) as nat, 53);
                lemma_pow2_mono(e as nat, 63);
                lemma2_to64();
                lemma2_to64_rest();
                lemma_mul_inequality(significand as int, pow2(53) as int, scale as int);
                lemma_mul_inequality(scale as int, pow2(63) as int, pow2(53) as int);
                lemma_mul_is_commutative(scale as int, pow2(53) as int);
                lemma_pow2_adds(53, 63);
                lemma_pow2_mono(116, 127);
                lemma_pow2_strictly_increases(127, 128);
                lemma_pow2_128();
            }
            let value = significand * scale / two_p;
            if value > u64::MAX as u128 {
                u64::MAX
            } else {
                value as u64
            }
        }
    }
}


/// `x / b` lies between `a` and `c` when `x` lies between `a * b` and `c * b`.
proof fn lemma_div_between(x: nat, a: nat, c: nat, b: nat)
    requires
        b > 0,
        a * b <= x < c * b,
    ensures
        a <= x / b < c,
{
    lemma_fundamental_div_mod(x as int, b as int);
    let q = x / b;
    let r = x % b;
    assert(a <= q < c) by (nonlinear_arith)
        requires
            x == b * q + r,
            0 <= r < b,
            a * b <= x < c * b,
            b > 0,
            q >= 0,
    ;
}

/// `n` rounded to `digits` significant binary digits.
fn round_length(n: u64, digits: u64) -> (v: u128)
    requires
        1 <= digits <= 64,
    ensures
        v == round_to_digits(n as nat, digits as nat),
        v <= pow2(64),
        n > 0 ==> v > 0,
{
    let len = bit_length(n as u128);
    proof {
        lemma_bit_len_le(n as nat, 64);
        lemma2_to64();
        lemma_pow2_128();
        lemma_pow2_strictly_increases(64, 128);
    }
    if len <= digits {
        n as u128
    } else {
        let s = len - digits;
        let pw = pow2_u128(s);
        proof {
            lemma_pow2_pos(s as nat);
            lemma_pow2_mono(s as nat, 64);
        }
        let x = n as u128;
        let q = x / pw;
        let r = x % pw;
        let up = 2 * r > pw || (2 * r == pw && q % 2 == 1);
        proof {
            // n < 2^len = 2^digits * 2^s, so q < 2^digits
            lemma_bit_len_bounds(n as nat);
            lemma_pow2_adds(digits as nat, s as nat);
            lemma_pow2_mono(s as nat, (len - 1) as nat);
            lemma_div_between(n as nat, 1, pow2(digits as nat), pow2(s as nat));
            lemma_pow2_mono(digits as nat, 64);
            lemma_mul_inequality((q + 1) as int, pow2(digits as nat) as int, pow2(s as nat) as int);
            lemma_pow2_mono(len as nat, 64);
        }
        let q2 = if up { q + 1 } else { q };
        proof {
            lemma_mul_inequality(q2 as int, (q + 1) as int, pw as int);
            lemma_mul_inequality(1, q2 as int, pw as int);
        }
        q2 * pw
    }
}

/// The bit pattern of the float of format `f` whose value is `v`.
fn integer_to_float_bits(v: u128, f: FloatFormat) -> (bits: u64)
    requires
        v <= pow2(64),
    ensures
        bits == integer_float_bits(v as nat, f),
        bits < pow2(8 * f.byte_width()),
{
    let (p, _ebits, bias) = format_params(f);
    proof {
        lemma2_to64();
        lemma2_to64_rest();
        lemma_pow2_128();
    }
    if v == 0 {
        return 0;
    }
    let len = bit_length(v);
    proof {
        lemma_bit_len_bounds(v as nat);
        lemma_bit_len_le(v as nat, 65);
        lemma_pow2_unfold(65);
    }
    let k = len - 1;
    let two_p = pow2_u128(p);
    proof {
        lemma_pow2_mono(p as nat, 52);
    }
    let significand: u128 = if k >= p {
        let d = pow2_u128(k - p);
        proof {
            lemma_pow2_pos((k - p) as nat);
            lemma_pow2_adds(p as nat, (k - p) as nat);
            lemma_pow2_adds((p + 1) as nat, (k - p) as nat);
            lemma_pow2_unfold((p + 1) as nat);
            lemma_div_between(v as nat, pow2(p as nat), pow2((p + 1) as nat), pow2((k - p) as nat));
        }
        v / d
    } else {
        let d = pow2_u128(p - k);
        proof {
            lemma_pow2_adds(k as nat, (p - k) as nat);
            lemma_pow2_adds((k + 1) as nat, (p - k) as nat);
            lemma_pow2_unfold((k + 1) as nat);
            lemma_pow2_unfold((p + 1) as nat);
            lemma_mul_inequality(pow2(k as nat) as int, v as int, pow2((p - k) as nat) as int);
            lemma_mul_strict_inequality(v as int, pow2((k + 1) as nat) as int, pow2((p - k) as nat) as int);
            lemma_pow2_mono((p + 1) as nat, 53);
        }
        v * d
    };
    proof {
        lemma_pow2_unfold((p + 1) as nat);
        assert(two_p <= significand < 2 * two_p);
        assert((k + bias) * two_p + (significand - two_p) < (k + bias + 1) * two_p) by (nonlinear_arith)
            requires significand - two_p < two_p;
        assert((k + bias + 1) * two_p <= 1088 * two_p) by (nonlinear_arith)
            requires k + bias + 1 <= 1088;
        match f {
            FloatFormat::Single => {
                assert((k + bias + 1) * two_p <= 192 * 0x800000) by (nonlinear_arith)
                    requires k + bias + 1 <= 192, two_p == 0x800000;
            },
            FloatFormat::Double => {
                assert(1088 * two_p <= 1088 * 0x10_0000_0000_0000) by (nonlinear_arith)
                    requires two_p == 0x10_0000_0000_0000;
            },
        }
    }
    ((k as u128 + bias as u128) * two_p + (significand - two_p)) as u64
}

/// The bit pattern of `len as f32` (format `Single`) or `len as f64`
/// (format `Double`).
pub fn length_to_float_bits(len: u64, f: FloatFormat) -> (bits: u64)
    ensures
        bits == rounded_float_bits(len as nat, f),
        bits < pow2(8 * f.byte_width()),
{
    let (p, _ebits, _bias) = format_params(f);
    let v = round_length(len, p + 1);
    integer_to_float_bits(v, f)
}

// ----------------------------------------------------------------------
// Laws

/// Reading back the bit pattern of an integer the format holds exactly gives
/// that integer (saturated at `u64::MAX`).
pub proof fn lemma_read_integer_float(v: nat, f: FloatFormat)
    requires
        representable(v, f.fraction_bits()),
        v <= pow2(64),
    ensures
        truncated_length(integer_float_bits(v, f), f) == if v > u64::MAX {
            u64::MAX as nat
        } else {
            v
        },
{
    let p = f.fraction_bits();
    let eb = f.exponent_bits();
    let bias = f.bias();
    lemma2_to64();
    lemma2_to64_rest();
    if v == 0 {
        lemma_pow2_pos(p);
        lemma_pow2_pos(eb);
        lemma_pow2_pos(p + eb);
        assert(0nat % pow2(p) == 0);
        assert(0nat / pow2(p) == 0);
        assert(0nat / pow2(p + eb) == 0);
        assert(0nat % pow2(eb) == 0);
        return;
    }
    lemma_bit_len_bounds(v);
    lemma_bit_len_le(v, 65);
    lemma_pow2_unfold(65);
    let k = (bit_len(v) - 1) as nat;
    lemma_pow2_pos(p);
    lemma_pow2_unfold(p + 1);
    let sig: nat = if k >= p {
        v / pow2((k - p) as nat)
    } else {
        v * pow2((p - k) as nat)
    };
    // sig * 2^k == v * 2^p, and 2^p <= sig < 2^(p+1)
    if k >= p {
        let d = pow2((k - p) as nat);
        lemma_pow2_pos((k - p) as nat);
        lemma_pow2_adds(p, (k - p) as nat);
        lemma_pow2_adds(p + 1, (k - p) as nat);
        lemma_div_between(v, pow2(p), pow2(p + 1), d);
        assert(v % d == 0);
        lemma_fundamental_div_mod(v as int, d as int);
        assert(v == d * sig);
        assert(sig * pow2(k) == v * pow2(p)) by (nonlinear_arith)
            requires
                v == d * sig,
                pow2(k) == pow2(p) * d,
        ;
    } else {
        let d = pow2((p - k) as nat);
        lemma_pow2_adds(k, (p - k) as nat);
        lemma_pow2_adds(k + 1, (p - k) as nat);
        lemma_pow2_unfold(k + 1);
        lemma_mul_inequality(pow2(k) as int, v as int, d as int);
        lemma_mul_strict_inequality(v as int, pow2(k + 1) as int, d as int);
        assert(sig * pow2(k) == v * pow2(p)) by (nonlinear_arith)
            requires
                sig == v * d,
                pow2(p) == pow2(k) * d,
        ;
    }
    let m = (sig - pow2(p)) as nat;
    let ex = k + bias;
    let bits = integer_float_bits(v, f);
    assert(bits == ex * pow2(p) + m);
    // fields of the bit pattern
    lemma_div_multiples_vanish_fancy(ex as int, m as int, pow2(p) as int);
    lemma_mul_is_commutative(ex as int, pow2(p) as int);
    assert(bits / pow2(p) == ex);
    lemma_mod_multiples_vanish(ex as int, m as int, pow2(p) as int);
    assert(m % pow2(p) == m) by {
        vstd::arithmetic::div_mod::lemma_small_mod(m, pow2(p));
    }
    assert(bits % pow2(p) == m);
    lemma_pow2_pos(eb);
    assert(ex < pow2(eb) - 1);
    vstd::arithmetic::div_mod::lemma_small_mod(ex, pow2(eb));
    // the sign bit is clear
    lemma_pow2_adds(p, eb);
    assert(bits < (ex + 1) * pow2(p)) by (nonlinear_arith)
        requires bits == ex * pow2(p) + m, m < pow2(p);
    assert((ex + 1) * pow2(p) <= pow2(eb) * pow2(p)) by (nonlinear_arith)
        requires ex + 1 <= pow2(eb);
    lemma_mul_is_commutative(pow2(eb) as int, pow2(p) as int);
    lemma_pow2_pos(p + eb);
    vstd::arithmetic::div_mod::lemma_basic_div(bits as int, pow2(p + eb) as int);
    assert(bits / pow2(p + eb) == 0);
    // the value
    assert(pow2(p) + m == sig);
    lemma_mul_is_commutative(v as int, pow2(p) as int);
    lemma_div_by_multiple(v as int, pow2(p) as int);
    assert((sig * pow2((ex - bias) as nat)) as nat / pow2(p) == v);
}

/// Rounding to `digits` significant digits gives a value the format with
/// `digits - 1` fraction bits holds exactly, no larger than `2^bit_len(n)`;
/// it is a multiple of `2^s` (`s` the number of dropped digits) and lies
/// within half of `2^s` of `n`.
pub proof fn lemma_round_to_digits(n: nat, digits: nat)
    requires
        digits >= 1,
    ensures
        representable(round_to_digits(n, digits), (digits - 1) as nat),
        round_to_digits(n, digits) <= pow2(bit_len(n)),
        n > 0 ==> round_to_digits(n, digits) > 0,
        bit_len(n) > digits ==> ({
            let s = (bit_len(n) - digits) as nat;
            let v = round_to_digits(n, digits);
            &&& v % pow2(s) == 0
            &&& 2 * (v - n) <= pow2(s)
            &&& 2 * (n - v) <= pow2(s)
        }),
{
    let v = round_to_digits(n, digits);
    lemma_bit_len_bounds(n);
    if bit_len(n) <= digits {
        return;
    }
    let len = bit_len(n);
    let s = (len - digits) as nat;
    let pw = pow2(s);
    lemma_pow2_pos(s);
    let q = n / pw;
    let r = n % pw;
    let up = 2 * r > pw || (2 * r == pw && q % 2 == 1);
    let q2: nat = if up { q + 1 } else { q };
    assert(v == q2 * pw);
    lemma_fundamental_div_mod(n as int, pw as int);
    // 2^(digits-1) <= q < 2^digits
    lemma_pow2_adds(digits, s);
    lemma_pow2_adds((digits - 1) as nat, s);
    lemma_div_between(n, pow2((digits - 1) as nat), pow2(digits), pw);
    // nearness
    assert(2 * (v - n) <= pw && 2 * (n - v) <= pw) by (nonlinear_arith)
        requires
            n == pw * q + r,
            0 <= r < pw,
            v == q2 * pw,
            up ==> 2 * r >= pw && q2 == q + 1,
            !up ==> 2 * r <= pw && q2 == q,
    ;
    // v is a multiple of pw
    lemma_mul_is_commutative(q2 as int, pw as int);
    lemma_mod_multiples_vanish(q2 as int, 0, pw as int);
    assert(0int % (pw as int) == 0);
    // bounds
    lemma_mul_inequality(q2 as int, pow2(digits) as int, pw as int);
    lemma_mul_inequality(pow2((digits - 1) as nat) as int, q2 as int, pw as int);
    lemma_pow2_pos((digits - 1) as nat);
    if q2 < pow2(digits) {
        lemma_mul_strict_inequality(q2 as int, pow2(digits) as int, pw as int);
        lemma_bit_len_unique(v, (digits - 1 + s) as nat);
        assert(bit_len(v) - digits == s);
    } else {
        assert(q2 == pow2(digits));
        lemma_pow2_unfold(digits);
        lemma_pow2_adds(digits, s);
        lemma_pow2_unfold(digits + s + 1);
        lemma_bit_len_unique(v, digits + s);
        let s1 = (s + 1) as nat;
        lemma_pow2_adds((digits - 1) as nat, s1);
        lemma_pow2_pos(s1);
        lemma_mod_multiples_vanish(pow2((digits - 1) as nat) as int, 0, pow2(s1) as int);
        lemma_mul_is_commutative(pow2((digits - 1) as nat) as int, pow2(s1) as int);
        assert(bit_len(v) - digits == s1);
    }
}

/// A length written as a float and read back is the length rounded to the
/// format's precision (saturated at `u64::MAX`); below `2^24` for `f32` and
/// `2^53` for `f64` it is the length itself.
pub proof fn lemma_float_length_roundtrip(len: u64, f: FloatFormat)
    ensures
        truncated_length(rounded_float_bits(len as nat, f), f) == if round_to_digits(
            len as nat,
            f.fraction_bits() + 1,
        ) > u64::MAX {
            u64::MAX as nat
        } else {
            round_to_digits(len as nat, f.fraction_bits() + 1)
        },
        len < pow2(f.fraction_bits() + 1) ==> truncated_length(
            rounded_float_bits(len as nat, f),
            f,
        ) == len,
{
    let digits = f.fraction_bits() + 1;
    lemma_round_to_digits(len as nat, digits);
    lemma_bit_len_le(len as nat, 64);
    lemma2_to64();
    lemma_pow2_mono(bit_len(len as nat), 64);
    lemma_read_integer_float(round_to_digits(len as nat, digits), f);
    if len < pow2(digits) {
        lemma_bit_len_le(len as nat, digits);
    }
}
} // verus!
