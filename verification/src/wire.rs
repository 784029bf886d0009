//! Decimal text: how quantities are read from and written to the wire.
//!
//! The wire form of a quantity is its fixed eight-decimal expansion with
//! trailing zeros, and then a trailing dot, taken away.

use vstd::arithmetic::div_mod::*;
use vstd::arithmetic::mul::*;
use vstd::prelude::*;
use vstd::string::*;
use vstd::utf8::*;
use crate::decimal::{
    abs_i64, abs_spec, div_round, lemma_div_bounds, snap_to_tick, snap_to_tick_spec, SCALE,
    SNAP_LIMIT,
};

verus! {

/// `String::push` appends one character.
pub assume_specification[ String::push ](s: &mut String, ch: char)
    ensures
        final(s)@ == old(s)@.push(ch),
;

pub open spec fn is_digit(b: u8) -> bool {
    48 <= b <= 57
}

pub open spec fn all_digits(s: Seq<u8>) -> bool {
    forall|i: int| 0 <= i < s.len() ==> is_digit(#[trigger] s[i])
}

/// The number that a string of decimal digits writes.
pub open spec fn digits_value(s: Seq<u8>) -> nat
    decreases s.len(),
{
    if s.len() == 0 {
        0
    } else {
        digits_value(s.drop_last()) * 10 + (s.last() - 48) as nat
    }
}

/// The decimal digits of a number, without leading zeros.
pub open spec fn dec_digits(n: nat) -> Seq<u8>
    decreases n,
{
    if n < 10 {
        seq![(48 + n) as u8]
    } else {
        dec_digits(n / 10).push((48 + n % 10) as u8)
    }
}

/// The last `width` decimal digits of a number, with leading zeros.
pub open spec fn padded_digits(n: nat, width: nat) -> Seq<u8>
    decreases width,
{
    if width == 0 {
        Seq::empty()
    } else {
        padded_digits(n / 10, (width - 1) as nat).push((48 + n % 10) as u8)
    }
}

pub open spec fn pow10(k: nat) -> nat
    decreases k,
{
    if k == 0 {
        1
    } else {
        10 * pow10((k - 1) as nat)
    }
}

/// A digit string without its trailing zeros.
pub open spec fn strip_zeros(s: Seq<u8>) -> Seq<u8>
    decreases s.len(),
{
    if s.len() > 0 && s.last() == 48 {
        strip_zeros(s.drop_last())
    } else {
        s
    }
}

/// The bytes of a text as characters, one for one.
pub open spec fn bytes_as_chars(s: Seq<u8>) -> Seq<char> {
    Seq::new(s.len(), |i: int| s[i] as char)
}

/// The wire form of a quantity.
pub open spec fn wire_spec(x: int) -> Seq<u8> {
    let m = abs_spec(x);
    let sign = if x < 0 {
        seq![45u8]
    } else {
        Seq::<u8>::empty()
    };
    let frac = if m % (SCALE as int) == 0 {
        Seq::<u8>::empty()
    } else {
        seq![46u8] + strip_zeros(padded_digits((m % (SCALE as int)) as nat, 8))
    };
    sign + dec_digits((m / (SCALE as int)) as nat) + frac
}

/// Number of digit bytes that a text starts with.
pub open spec fn digit_prefix_len(s: Seq<u8>) -> int
    decreases s.len(),
{
    if s.len() == 0 || !is_digit(s[0]) {
        0
    } else {
        1 + digit_prefix_len(s.drop_first())
    }
}

/// What the digits after the dot are worth, in hundred-millionths: digits
/// past the eighth are dropped.
pub open spec fn frac_value(frac: Seq<u8>) -> nat {
    if frac.len() >= 8 {
        digits_value(frac.subrange(0, 8))
    } else {
        digits_value(frac) * pow10((8 - frac.len()) as nat)
    }
}

/// The quantity that an unsigned decimal text writes: digits, then
/// optionally a dot and more digits, with at least one digit in all.
pub open spec fn unsigned_decimal(body: Seq<u8>) -> Option<nat> {
    let k = digit_prefix_len(body);
    if k == body.len() {
        if k >= 1 {
            Some(digits_value(body) * (SCALE as nat))
        } else {
            None
        }
    } else if body[k] == 46 {
        let frac = body.subrange(k + 1, body.len() as int);
        if all_digits(frac) && k + frac.len() >= 1 {
            Some(digits_value(body.subrange(0, k)) * (SCALE as nat) + frac_value(frac))
        } else {
            None
        }
    } else {
        None
    }
}

/// The quantity that a decimal text writes: an optional sign, then an
/// unsigned decimal of at most `i64::MAX` hundred-millionths.
pub open spec fn parse_decimal_spec(s: Seq<u8>) -> Option<int> {
    let negative = s.len() > 0 && s[0] == 45;
    let signed = s.len() > 0 && (s[0] == 45 || s[0] == 43);
    let body = if signed {
        s.subrange(1, s.len() as int)
    } else {
        s
    };
    match unsigned_decimal(body) {
        Some(v) => if v <= i64::MAX {
            Some(
                if negative {
                    -(v as int)
                } else {
                    v as int
                },
            )
        } else {
            None
        },
        None => None,
    }
}

pub proof fn lemma_pow10_values()
    ensures
        pow10(0) == 1,
        pow10(1) == 10,
        pow10(2) == 100,
        pow10(3) == 1_000,
        pow10(4) == 10_000,
        pow10(5) == 100_000,
        pow10(6) == 1_000_000,
        pow10(7) == 10_000_000,
        pow10(8) == 100_000_000,
{
    reveal_with_fuel(pow10, 10);
}

/// The digits of a number are digits, at least one, and write the number.
pub proof fn lemma_dec_digits(n: nat)
    ensures
        all_digits(dec_digits(n)),
        dec_digits(n).len() >= 1,
        digits_value(dec_digits(n)) == n,
    decreases n,
{
    if n < 10 {
        let s = dec_digits(n);
        assert(s.drop_last() =~= Seq::<u8>::empty());
        assert(digits_value(s.drop_last()) == 0);
    } else {
        lemma_dec_digits(n / 10);
        let s = dec_digits(n);
        assert(s.drop_last() =~= dec_digits(n / 10));
        lemma_fundamental_div_mod(n as int, 10);
    }
}

/// Padded digits are `width` digits and write the number where it fits.
pub proof fn lemma_padded_digits(n: nat, width: nat)
    ensures
        all_digits(padded_digits(n, width)),
        padded_digits(n, width).len() == width,
        n < pow10(width) ==> digits_value(padded_digits(n, width)) == n,
    decreases width,
{
    if width > 0 {
        lemma_padded_digits(n / 10, (width - 1) as nat);
        let s = padded_digits(n, width);
        assert(s.drop_last() =~= padded_digits(n / 10, (width - 1) as nat));
        lemma_fundamental_div_mod(n as int, 10);
        if n < pow10(width) {
            assert(n / 10 < pow10((width - 1) as nat)) by {
                lemma_div_is_ordered(n as int, 10 * pow10((width - 1) as nat) - 1, 10);
                assert((10 * pow10((width - 1) as nat) - 1) / 10 == pow10((width - 1) as nat) - 1)
                    by {
                    lemma_fundamental_div_mod_converse(
                        10 * pow10((width - 1) as nat) - 1,
                        10,
                        pow10((width - 1) as nat) - 1,
                        9,
                    );
                }
            }
        }
    } else {
        assert(n < 1 ==> n == 0);
    }
}

/// Stripping trailing zeros divides the value by a power of ten and leaves
/// no trailing zero.
pub proof fn lemma_strip_zeros(s: Seq<u8>)
    requires
        all_digits(s),
    ensures
        all_digits(strip_zeros(s)),
        strip_zeros(s).len() <= s.len(),
        digits_value(strip_zeros(s)) * pow10((s.len() - strip_zeros(s).len()) as nat)
            == digits_value(s),
        strip_zeros(s).len() > 0 ==> strip_zeros(s).last() != 48,
    decreases s.len(),
{
    if s.len() > 0 && s.last() == 48 {
        let t = s.drop_last();
        lemma_strip_zeros(t);
        let z = strip_zeros(t);
        let k = (t.len() - z.len()) as nat;
        assert(pow10(k + 1) == 10 * pow10(k));
        assert(digits_value(z) * pow10(k + 1) == digits_value(z) * pow10(k) * 10)
            by (nonlinear_arith)
            requires
                pow10(k + 1) == 10 * pow10(k),
        ;
        assert(strip_zeros(s) == z);
        assert(digits_value(s) == digits_value(t) * 10);
        assert((s.len() - z.len()) as nat == k + 1);
    } else {
        assert(pow10(0) == 1);
        assert(strip_zeros(s) == s);
        assert(digits_value(s) * pow10(0) == digits_value(s)) by (nonlinear_arith)
            requires
                pow10(0) == 1,
        ;
    }
}

/// The number of leading digits is `i` where the first `i` bytes are digits
/// and the next one, if any, is not.
pub proof fn lemma_digit_prefix_len(s: Seq<u8>, i: int)
    requires
        0 <= i <= s.len(),
        forall|j: int| 0 <= j < i ==> is_digit(#[trigger] s[j]),
        i == s.len() || !is_digit(s[i]),
    ensures
        digit_prefix_len(s) == i,
    decreases i,
{
    if i > 0 {
        let t = s.drop_first();
        assert forall|j: int| 0 <= j < i - 1 implies is_digit(#[trigger] t[j]) by {
            assert(t[j] == s[j + 1]);
        }
        if i < s.len() {
            assert(t[i - 1] == s[i]);
        }
        lemma_digit_prefix_len(t, i - 1);
    }
}

/// The wire round trip: reading the wire form of a quantity gives the
/// quantity back. The wire form never ends in a dot, and after a dot it
/// never ends in a zero.
pub proof fn lemma_wire_round_trip(x: int)
    requires
        -(i64::MAX as int) <= x <= i64::MAX,
    ensures
        parse_decimal_spec(wire_spec(x)) == Some(x),
        wire_spec(x).len() >= 1,
        wire_spec(x).last() != 46,
        wire_spec(x).contains(46u8) ==> wire_spec(x).last() != 48,
{
    let m = abs_spec(x);
    let ip = (m / (SCALE as int)) as nat;
    let fp = (m % (SCALE as int)) as nat;
    lemma_fundamental_div_mod(m, SCALE as int);
    lemma_div_pos_is_pos(m, SCALE as int);
    lemma_mod_bound(m, SCALE as int);
    lemma_pow10_values();
    let d = dec_digits(ip);
    lemma_dec_digits(ip);
    let padded = padded_digits(fp, 8);
    lemma_padded_digits(fp, 8);
    lemma_strip_zeros(padded);
    let z = strip_zeros(padded);
    let frac = if fp == 0 {
        Seq::<u8>::empty()
    } else {
        seq![46u8] + z
    };
    let sign = if x < 0 {
        seq![45u8]
    } else {
        Seq::<u8>::empty()
    };
    let body = d + frac;
    let w = wire_spec(x);
    assert(w == sign + d + frac);
    assert(is_digit(d[0]));
    if x < 0 {
        assert(w[0] == 45);
        assert(w.subrange(1, w.len() as int) =~= body);
    } else {
        assert(w =~= body);
        assert(w[0] == d[0]);
    }
    if fp != 0 {
        if z.len() == 0 {
            assert(digits_value(z) == 0);
            assert(digits_value(z) * pow10((8 - z.len()) as nat) == 0) by (nonlinear_arith)
                requires
                    digits_value(z) == 0,
            ;
        }
        assert(z.len() >= 1);
        assert(body[d.len() as int] == 46);
        assert(body.subrange(d.len() as int + 1, body.len() as int) =~= z);
        assert(body.subrange(0, d.len() as int) =~= d);
        assert(digits_value(z) * pow10((8 - z.len()) as nat) == fp);
        if z.len() >= 8 {
            assert(z.subrange(0, 8) =~= z);
            assert(pow10(0) == 1);
            assert(digits_value(z) * pow10(0) == digits_value(z)) by (nonlinear_arith)
                requires
                    pow10(0) == 1,
            ;
        }
        assert(frac_value(z) == fp);
        assert(w.last() == z.last());
    } else {
        assert(body =~= d);
        assert(w.last() == d.last());
        assert forall|i: int| 0 <= i < w.len() implies w[i] != 46 by {
            if x < 0 {
                if i > 0 {
                    assert(w[i] == d[i - 1]);
                    assert(is_digit(d[i - 1]));
                }
            } else {
                assert(is_digit(d[i]));
            }
        }
    }
    assert forall|j: int| 0 <= j < d.len() implies is_digit(#[trigger] body[j]) by {
        assert(body[j] == d[j]);
    }
    lemma_digit_prefix_len(body, d.len() as int);
    assert(ip * (SCALE as nat) + fp == m) by {
        lemma_mul_is_commutative(ip as int, SCALE as int);
    }
    assert(unsigned_decimal(body) == Some(m as nat));
}

/// Number of decimal digits of a number.
pub fn decimal_len(n: u64) -> (r: usize)
    ensures
        r == dec_digits(n as nat).len(),
        1 <= r <= 20,
{
    let mut len: usize = 1;
    let mut rest: u64 = n;
    proof {
        assert(pow10(0) == 1);
        assert(rest as nat * pow10(0) == rest) by (nonlinear_arith)
            requires
                pow10(0) == 1,
        ;
    }
    while rest >= 10
        invariant
            1 <= len,
            len + dec_digits(rest as nat).len() == dec_digits(n as nat).len() + 1,
            len <= 20,
            rest as nat * pow10((len - 1) as nat) <= n,
        decreases rest,
    {
        proof {
            assert(dec_digits(rest as nat).len() == dec_digits((rest / 10) as nat).len() + 1);
            assert(pow10(len as nat) == 10 * pow10((len - 1) as nat));
            lemma_fundamental_div_mod(rest as int, 10);
            assert((rest / 10) as nat * pow10(len as nat) <= n) by (nonlinear_arith)
                requires
                    rest as nat * pow10((len - 1) as nat) <= n,
                    pow10(len as nat) == 10 * pow10((len - 1) as nat),
                    (rest / 10) * 10 <= rest,
            ;
            if len == 20 {
                reveal_with_fuel(pow10, 21);
                assert(pow10(20) == 100_000_000_000_000_000_000);
                assert(false) by (nonlinear_arith)
                    requires
                        (rest / 10) as nat * pow10(20) <= n,
                        rest / 10 >= 1,
                        pow10(20) == 100_000_000_000_000_000_000,
                        n < 18_446_744_073_709_551_616,
                ;
            }
        }
        rest = rest / 10;
        len = len + 1;
    }
    len
}

/// The decimal digits of a number.
pub fn push_decimal(out: &mut Vec<u8>, n: u64)
    ensures
        final(out)@ == old(out)@ + dec_digits(n as nat),
    decreases n,
{
    if n >= 10 {
        push_decimal(out, n / 10);
    }
    out.push(48 + (n % 10) as u8);
    proof {
        if n < 10 {
            assert(final(out)@ =~= old(out)@ + dec_digits(n as nat));
        } else {
            assert(final(out)@ =~= old(out)@ + dec_digits(n as nat));
        }
    }
}

/// The wire form of a quantity, as bytes.
pub fn wire_bytes(x: i64) -> (out: Vec<u8>)
    ensures
        out@ == wire_spec(x as int),
{
    let mut out: Vec<u8> = Vec::new();
    let m: u64 = abs_i64(x);
    if x < 0 {
        out.push(45);
    }
    let ghost sign = out@;
    push_decimal(&mut out, m / (SCALE as u64));
    let fp: u64 = m % (SCALE as u64);
    if fp != 0 {
        let mut digits: [u8; 8] = [48; 8];
        let mut rest: u64 = fp;
        let mut i: usize = 8;
        proof {
            lemma_pow10_values();
            lemma_padded_digits(fp as nat, 8);
            assert(digits@.subrange(8, 8) =~= padded_digits(fp as nat, 8).subrange(8, 8));
            assert(padded_digits(fp as nat, 8) =~= padded_digits(fp as nat, 8).subrange(0, 8));
        }
        while i > 0
            invariant
                i <= 8,
                digits@.len() == 8,
                digits@.subrange(i as int, 8) == padded_digits(fp as nat, 8).subrange(i as int, 8),
                padded_digits(rest as nat, i as nat) == padded_digits(fp as nat, 8).subrange(
                    0,
                    i as int,
                ),
            decreases i,
        {
            proof {
                lemma_padded_digits(fp as nat, 8);
                lemma_padded_digits(rest as nat, i as nat);
                let p = padded_digits(rest as nat, i as nat);
                assert(p.drop_last() =~= padded_digits((rest / 10) as nat, (i - 1) as nat));
                assert(p.last() == (48 + rest % 10) as u8);
                assert(p.last() == padded_digits(fp as nat, 8)[i - 1]);
                assert(p.drop_last() =~= padded_digits(fp as nat, 8).subrange(0, i - 1));
            }
            i = i - 1;
            let ghost before = digits@;
            digits[i] = 48 + (rest % 10) as u8;
            rest = rest / 10;
            proof {
                assert(digits@.subrange(i as int, 8) =~= padded_digits(fp as nat, 8).subrange(
                    i as int,
                    8,
                )) by {
                    assert forall|j: int| i < j < 8 implies digits@[j] == padded_digits(
                        fp as nat,
                        8,
                    )[j] by {
                        assert(digits@[j] == before[j]);
                        assert(before.subrange(i as int + 1, 8)[j - i - 1] == before[j]);
                    }
                }
            }
        }
        proof {
            lemma_padded_digits(fp as nat, 8);
            assert(digits@ =~= padded_digits(fp as nat, 8));
        }
        let mut keep: usize = 8;
        while keep > 0 && digits[keep - 1] == 48
            invariant
                keep <= 8,
                digits@.len() == 8,
                strip_zeros(digits@.subrange(0, keep as int)) == strip_zeros(digits@),
            decreases keep,
        {
            proof {
                let s = digits@.subrange(0, keep as int);
                assert(s.last() == 48);
                assert(s.drop_last() =~= digits@.subrange(0, keep as int - 1));
            }
            keep = keep - 1;
        }
        proof {
            let s = digits@.subrange(0, keep as int);
            if keep > 0 {
                assert(s.last() == digits@[keep - 1]);
            }
            assert(strip_zeros(s) == s);
            assert(digits@.subrange(0, 8) =~= digits@);
        }
        out.push(46);
        let ghost head = out@;
        let mut j: usize = 0;
        while j < keep
            invariant
                j <= keep <= 8,
                digits@.len() == 8,
                out@ == head + digits@.subrange(0, j as int),
            decreases keep - j,
        {
            out.push(digits[j]);
            proof {
                assert(out@ =~= head + digits@.subrange(0, j as int + 1));
            }
            j += 1;
        }
        proof {
            assert(out@ =~= sign + dec_digits((m / (SCALE as u64)) as nat) + (seq![46u8]
                + strip_zeros(padded_digits(fp as nat, 8))));
        }
    } else {
        proof {
            assert(out@ =~= sign + dec_digits((m / (SCALE as u64)) as nat) + Seq::<u8>::empty());
        }
    }
    out
}

/// A text of ASCII bytes as a string.
pub fn ascii_string(bytes: &Vec<u8>) -> (s: String)
    requires
        forall|i: int| 0 <= i < bytes@.len() ==> (#[trigger] bytes@[i]) < 128,
    ensures
        s@ == bytes_as_chars(bytes@),
        encode_utf8(s@) == bytes@,
{
    let mut s = String::new();
    let mut i: usize = 0;
    while i < bytes.len()
        invariant
            i <= bytes@.len(),
            s@ == bytes_as_chars(bytes@.subrange(0, i as int)),
        decreases bytes@.len() - i,
    {
        s.push(bytes[i] as char);
        proof {
            assert(s@ =~= bytes_as_chars(bytes@.subrange(0, i as int + 1)));
        }
        i += 1;
    }
    proof {
        assert(bytes@.subrange(0, bytes@.len() as int) =~= bytes@);
        let chars = s@;
        assert(is_ascii_chars(chars)) by {
            assert forall|k: int| 0 <= k < chars.len() implies '\0' <= #[trigger] chars[k]
                <= '\u{7f}' by {
                assert(chars[k] == bytes@[k] as char);
            }
        }
        is_ascii_chars_encode_utf8(chars);
        assert(encode_utf8(chars) =~= bytes@) by {
            assert forall|k: int| 0 <= k < chars.len() implies encode_utf8(chars)[k]
                == bytes@[k] by {
                assert(chars[k] as u8 == encode_utf8(chars)[k]);
                assert(chars[k] == bytes@[k] as char);
            }
        }
    }
    s
}

/// Every byte of a wire form is ASCII.
pub proof fn lemma_wire_is_ascii(x: int)
    ensures
        forall|i: int| 0 <= i < wire_spec(x).len() ==> (#[trigger] wire_spec(x)[i]) < 128,
{
    let m = abs_spec(x);
    lemma_div_pos_is_pos(m, SCALE as int);
    lemma_mod_bound(m, SCALE as int);
    let d = dec_digits((m / (SCALE as int)) as nat);
    lemma_dec_digits((m / (SCALE as int)) as nat);
    let padded = padded_digits((m % (SCALE as int)) as nat, 8);
    lemma_padded_digits((m % (SCALE as int)) as nat, 8);
    lemma_strip_zeros(padded);
    let z = strip_zeros(padded);
    let w = wire_spec(x);
    assert forall|i: int| 0 <= i < w.len() implies (#[trigger] w[i]) < 128 by {
        let sign_len: int = if x < 0 {
            1
        } else {
            0
        };
        if i < sign_len {
        } else if i < sign_len + d.len() {
            assert(w[i] == d[i - sign_len]);
            assert(is_digit(d[i - sign_len]));
        } else if i == sign_len + d.len() {
        } else {
            assert(w[i] == z[i - sign_len - d.len() - 1]);
            assert(is_digit(z[i - sign_len - d.len() - 1]));
        }
    }
}

/// Writes a quantity in its wire form: eight decimals, trailing zeros
/// stripped, no trailing dot.
pub fn float_to_wire(x: i64) -> (s: String)
    ensures
        encode_utf8(s@) == wire_spec(x as int),
        s@ == bytes_as_chars(wire_spec(x as int)),
{
    let bytes = wire_bytes(x);
    proof {
        lemma_wire_is_ascii(x as int);
    }
    ascii_string(&bytes)
}

/// A power of ten up to `10^8`.
pub fn pow10_u64(k: usize) -> (r: u64)
    requires
        k <= 8,
    ensures
        r == pow10(k as nat),
        1 <= r <= 100_000_000,
{
    proof {
        lemma_pow10_values();
    }
    let mut r: u64 = 1;
    let mut i: usize = 0;
    while i < k
        invariant
            i <= k <= 8,
            r == pow10(i as nat),
            r <= 100_000_000,
        decreases k - i,
    {
        proof {
            lemma_pow10_values();
            assert(pow10((i + 1) as nat) == 10 * pow10(i as nat));
        }
        r = r * 10;
        i += 1;
        proof {
            assert(r <= 100_000_000) by {
                lemma_pow10_values();
                if i == 1 {
                } else if i == 2 {
                } else if i == 3 {
                } else if i == 4 {
                } else if i == 5 {
                } else if i == 6 {
                } else if i == 7 {
                } else {
                }
            }
        }
    }
    r
}

/// A quantity rounded to `decimals` places, ties away from zero; eight
/// places or more leave it as it is.
pub open spec fn round_decimals_spec(val: int, decimals: int) -> int {
    if decimals >= 8 {
        val
    } else {
        snap_to_tick_spec(val, pow10((8 - decimals) as nat) as int)
    }
}

/// Rounds a quantity to `decimals` decimal places.
pub fn round_f64(val: i64, decimals: usize) -> (r: i64)
    requires
        -SNAP_LIMIT <= val <= SNAP_LIMIT,
    ensures
        r == round_decimals_spec(val as int, decimals as int),
{
    if decimals >= 8 {
        return val;
    }
    let tick = pow10_u64(8 - decimals);
    snap_to_tick(val, tick as i64)
}

/// Decimal places that five significant figures leave to a quantity:
/// four minus the decimal exponent of its magnitude, held to `[0, 10]`.
pub open spec fn sig_fig_decimals(val: int) -> int {
    let digits = dec_digits(abs_spec(val) as nat).len() as int;
    if 13 - digits < 0 {
        0
    } else if 13 - digits > 10 {
        10
    } else {
        13 - digits
    }
}

/// A quantity rounded to five significant figures; a quantity of 100 000
/// or more is rounded to a whole number.
pub open spec fn round_to_5_sig_figs_spec(val: int) -> int {
    if val == 0 {
        0
    } else {
        round_decimals_spec(val, sig_fig_decimals(val))
    }
}

/// Rounds a price to five significant figures.
pub fn round_to_5_sig_figs(val: i64) -> (r: i64)
    requires
        -SNAP_LIMIT <= val <= SNAP_LIMIT,
    ensures
        r == round_to_5_sig_figs_spec(val as int),
{
    if val == 0 {
        return 0;
    }
    let digits: usize = decimal_len(abs_i64(val));
    let d: usize = if digits >= 13 {
        0
    } else if 13 - digits > 10 {
        10
    } else {
        13 - digits
    };
    round_f64(val, d)
}

/// Powers of ten up to the eighth.
pub proof fn lemma_pow10_bound(k: nat)
    requires
        k <= 8,
    ensures
        1 <= pow10(k) <= 100_000_000,
{
    lemma_pow10_values();
    if k == 0 {
    } else if k == 1 {
    } else if k == 2 {
    } else if k == 3 {
    } else if k == 4 {
    } else if k == 5 {
    } else if k == 6 {
    } else if k == 7 {
    } else {
    }
}

/// Whole part from which a quantity cannot fit in an `i64`.
pub const WHOLE_CAP: u128 = 100_000_000_000;

/// The whole part of a decimal text from `start` on: where its digits end,
/// and what they are worth, held at `WHOLE_CAP`.
fn scan_whole(b: &[u8], start: usize) -> (res: (usize, u128))
    requires
        start <= b@.len(),
    ensures
        start <= res.0 <= b@.len(),
        digit_prefix_len(b@.subrange(start as int, b@.len() as int)) == res.0 - start,
        res.1 <= WHOLE_CAP,
        res.1 == ({
            let whole = digits_value(b@.subrange(start as int, res.0 as int));
            if whole > WHOLE_CAP {
                WHOLE_CAP as nat
            } else {
                whole
            }
        }),
{
    let n = b.len();
    let ghost body = b@.subrange(start as int, n as int);
    let mut i: usize = start;
    let mut acc: u128 = 0;
    proof {
        assert(b@.subrange(start as int, start as int) =~= Seq::<u8>::empty());
    }
    while i < n && 48 <= b[i] && b[i] <= 57
        invariant
            start <= i <= n,
            n == b@.len(),
            body == b@.subrange(start as int, n as int),
            forall|j: int| 0 <= j < i - start ==> is_digit(#[trigger] body[j]),
            acc <= WHOLE_CAP,
            acc == (if digits_value(b@.subrange(start as int, i as int)) > WHOLE_CAP {
                WHOLE_CAP as nat
            } else {
                digits_value(b@.subrange(start as int, i as int))
            }),
        decreases n - i,
    {
        let d: u128 = (b[i] - 48) as u128;
        proof {
            let next = b@.subrange(start as int, i as int + 1);
            assert(next.drop_last() =~= b@.subrange(start as int, i as int));
            assert(next.last() == b@[i as int]);
            assert(body[i - start] == b@[i as int]);
        }
        acc = acc * 10 + d;
        if acc > WHOLE_CAP {
            acc = WHOLE_CAP;
        }
        i += 1;
    }
    proof {
        if i < n {
            assert(body[i - start] == b@[i as int]);
        }
        lemma_digit_prefix_len(body, i - start);
    }
    (i, acc)
}

/// The digits after the dot, from `fstart` to the end of the text: what
/// they are worth, or `None` where one of them is no digit.
fn scan_frac(b: &[u8], fstart: usize) -> (r: Option<u128>)
    requires
        fstart <= b@.len(),
    ensures
        match r {
            Some(v) => all_digits(b@.subrange(fstart as int, b@.len() as int)) && v == frac_value(
                b@.subrange(fstart as int, b@.len() as int),
            ) && v < 100_000_000,
            None => !all_digits(b@.subrange(fstart as int, b@.len() as int)),
        },
{
    let n = b.len();
    let ghost frac = b@.subrange(fstart as int, n as int);
    let mut j: usize = fstart;
    let mut facc: u128 = 0;
    let mut taken: usize = 0;
    proof {
        assert(frac.subrange(0, 0) =~= Seq::<u8>::empty());
        lemma_pow10_values();
    }
    while j < n
        invariant
            fstart <= j <= n,
            n == b@.len(),
            frac == b@.subrange(fstart as int, n as int),
            forall|t: int| 0 <= t < j - fstart ==> is_digit(#[trigger] frac[t]),
            taken <= 8,
            taken == (if j - fstart < 8 {
                j - fstart
            } else {
                8
            }),
            facc == digits_value(frac.subrange(0, taken as int)),
            facc < pow10(taken as nat),
        decreases n - j,
    {
        proof {
            assert(frac[j - fstart] == b@[j as int]);
        }
        if !(48 <= b[j] && b[j] <= 57) {
            return None;
        }
        if taken < 8 {
            proof {
                let next = frac.subrange(0, taken as int + 1);
                assert(next.drop_last() =~= frac.subrange(0, taken as int));
                assert(next.last() == b@[j as int]);
                lemma_pow10_bound(taken as nat);
                assert(pow10((taken + 1) as nat) == 10 * pow10(taken as nat));
            }
            facc = facc * 10 + (b[j] - 48) as u128;
            taken += 1;
        }
        j += 1;
    }
    proof {
        lemma_pow10_bound(taken as nat);
        lemma_pow10_bound((8 - taken) as nat);
        lemma_pow10_product(taken as nat);
        if frac.len() < 8 {
            assert(frac.subrange(0, taken as int) =~= frac);
        } else {
            assert(pow10(0) == 1);
        }
        assert(facc * pow10((8 - taken) as nat) < pow10(taken as nat) * pow10(
            (8 - taken) as nat,
        )) by (nonlinear_arith)
            requires
                facc < pow10(taken as nat),
                pow10((8 - taken) as nat) >= 1,
        ;
    }
    let scale: u64 = pow10_u64(8 - taken);
    let fval: u128 = facc * (scale as u128);
    proof {
        if frac.len() >= 8 {
            assert(fval == facc) by (nonlinear_arith)
                requires
                    fval == facc * scale,
                    scale == 1,
            ;
        }
    }
    Some(fval)
}

/// `10^k * 10^(8-k)` is `10^8`.
pub proof fn lemma_pow10_product(k: nat)
    requires
        k <= 8,
    ensures
        pow10(k) * pow10((8 - k) as nat) == 100_000_000,
{
    lemma_pow10_values();
    let a = pow10(k) as int;
    let b = pow10((8 - k) as nat) as int;
    assert(a * b == 100_000_000) by (nonlinear_arith)
        requires
            (a == 1 && b == 100_000_000) || (a == 10 && b == 10_000_000) || (a == 100 && b
                == 1_000_000) || (a == 1_000 && b == 100_000) || (a == 10_000 && b == 10_000) || (a
                == 100_000 && b == 1_000) || (a == 1_000_000 && b == 100) || (a == 10_000_000 && b
                == 10) || (a == 100_000_000 && b == 1),
    ;
}

/// Reads a decimal text: an optional sign, digits, optionally a dot and
/// more digits, at least one digit in all. Digits past the eighth decimal
/// are dropped. `None` for any other text and for a magnitude beyond
/// `i64::MAX` hundred-millionths.
pub fn parse_decimal_bytes(b: &[u8]) -> (r: Option<i64>)
    ensures
        match parse_decimal_spec(b@) {
            Some(v) => r == Some(v as i64),
            None => r is None,
        },
{
    let n = b.len();
    let mut start: usize = 0;
    let mut negative = false;
    if n > 0 && (b[0] == 45 || b[0] == 43) {
        negative = b[0] == 45;
        start = 1;
    }
    let ghost body = b@.subrange(start as int, n as int);
    proof {
        if start == 0 {
            assert(body =~= b@);
        }
    }
    let (i, acc) = scan_whole(b, start);
    let ghost k: int = i - start;
    let ghost whole = digits_value(b@.subrange(start as int, i as int));
    proof {
        assert(body.subrange(0, k) =~= b@.subrange(start as int, i as int));
        if i < n {
            assert(body[k] == b@[i as int]);
        }
    }
    let mut fval: u128 = 0;
    if i == n {
        if i == start {
            return None;
        }
        proof {
            assert(body.subrange(0, k) =~= body);
        }
    } else if b[i] == 46 {
        proof {
            assert(body.subrange(k + 1, body.len() as int) =~= b@.subrange(i as int + 1, n as int));
        }
        match scan_frac(b, i + 1) {
            None => {
                return None;
            },
            Some(v) => {
                if i == start && i + 1 == n {
                    return None;
                }
                fval = v;
            },
        }
    } else {
        return None;
    }
    proof {
        assert(unsigned_decimal(body) == Some((whole * (SCALE as nat) + fval) as nat));
        if whole >= WHOLE_CAP {
            assert(whole * (SCALE as nat) >= WHOLE_CAP * (SCALE as nat)) by (nonlinear_arith)
                requires
                    whole >= WHOLE_CAP,
            ;
        } else {
            assert(acc as nat * (SCALE as nat) == whole * (SCALE as nat));
        }
        assert(acc * (SCALE as u128) <= WHOLE_CAP * (SCALE as u128)) by (nonlinear_arith)
            requires
                acc <= WHOLE_CAP,
        ;
    }
    let total: u128 = acc * (SCALE as u128) + fval;
    if total > i64::MAX as u128 {
        return None;
    }
    if negative {
        Some(-(total as i64))
    } else {
        Some(total as i64)
    }
}

/// Reads a decimal text, as `parse_decimal_bytes` does.
pub fn parse_decimal(s: &str) -> (r: Option<i64>)
    ensures
        match parse_decimal_spec(s.spec_bytes()) {
            Some(v) => r == Some(v as i64),
            None => r is None,
        },
{
    parse_decimal_bytes(s.as_bytes())
}

/// Writing a quantity and reading it back gives the quantity.
pub fn wire_round_trip(x: i64) -> (r: Option<i64>)
    requires
        x > i64::MIN,
    ensures
        r == Some(x),
{
    let s = float_to_wire(x);
    proof {
        lemma_wire_round_trip(x as int);
    }
    parse_decimal(s.as_str())
}

/// A number below `10^k` has at most `k` digits.
pub proof fn lemma_dec_digits_len(n: nat, k: nat)
    requires
        k >= 1,
        n < pow10(k),
    ensures
        dec_digits(n).len() <= k,
    decreases k,
{
    if n >= 10 {
        assert(pow10(1) == 10) by {
            reveal_with_fuel(pow10, 2);
        }
        assert(k >= 2) by {
            if k == 1 {
                assert(n < 10);
            }
        }
        assert(pow10(k) == 10 * pow10((k - 1) as nat));
        lemma_dec_digits_len(n / 10, (k - 1) as nat);
    }
}

/// A wire form is at most thirty bytes long.
pub proof fn lemma_wire_len(x: int)
    requires
        i64::MIN <= x <= i64::MAX,
    ensures
        wire_spec(x).len() <= 30,
{
    let m = abs_spec(x);
    lemma_div_pos_is_pos(m, SCALE as int);
    lemma_mod_bound(m, SCALE as int);
    lemma_fundamental_div_mod(m, SCALE as int);
    let ip = (m / (SCALE as int)) as nat;
    assert(ip <= m);
    reveal_with_fuel(pow10, 21);
    assert(pow10(20) == 100_000_000_000_000_000_000);
    lemma_dec_digits_len(ip, 20);
    let padded = padded_digits((m % (SCALE as int)) as nat, 8);
    lemma_padded_digits((m % (SCALE as int)) as nat, 8);
    lemma_strip_zeros(padded);
}

/// A quantity written with exactly `places` decimals (at most eight),
/// rounded to the nearest, ties away from zero.
pub open spec fn fixed_text_spec(x: int, places: nat) -> Seq<u8> {
    let q = div_round(x, pow10((8 - places) as nat) as int);
    let m = abs_spec(q);
    let sign = if q < 0 {
        seq![45u8]
    } else {
        Seq::<u8>::empty()
    };
    let frac = if places == 0 {
        Seq::<u8>::empty()
    } else {
        seq![46u8] + padded_digits((m % (pow10(places) as int)) as nat, places)
    };
    sign + dec_digits((m / (pow10(places) as int)) as nat) + frac
}

/// Appends the last `width` decimal digits of a number, with leading
/// zeros.
pub fn push_padded(out: &mut Vec<u8>, n: u64, width: usize)
    ensures
        final(out)@ == old(out)@ + padded_digits(n as nat, width as nat),
    decreases width,
{
    if width > 0 {
        push_padded(out, n / 10, width - 1);
        out.push(48 + (n % 10) as u8);
    }
    assert(out@ =~= old(out)@ + padded_digits(n as nat, width as nat));
}

/// Appends a quantity with exactly `places` decimals.
pub fn push_fixed(out: &mut Vec<u8>, x: i64, places: usize)
    requires
        places <= 8,
    ensures
        final(out)@ == old(out)@ + fixed_text_spec(x as int, places as nat),
{
    let unit: u64 = pow10_u64(8 - places);
    let whole: u64 = pow10_u64(places);
    let mag: u128 = abs_i64(x) as u128;
    let q: u128 = (2 * mag + unit as u128) / (2 * unit as u128);
    proof {
        lemma_div_bounds(2 * mag as int + unit as int, 2 * unit as int);
        assert(q <= mag + 1) by (nonlinear_arith)
            requires
                q * (2 * unit) <= 2 * mag + unit,
                unit >= 1,
        ;
    }
    let negative = x < 0 && q > 0;
    let ip: u64 = (q / (whole as u128)) as u64;
    let fp: u64 = (q % (whole as u128)) as u64;
    if negative {
        out.push(45);
    }
    let ghost sign = if negative {
        seq![45u8]
    } else {
        Seq::<u8>::empty()
    };
    assert(out@ =~= old(out)@ + sign);
    push_decimal(out, ip);
    if places > 0 {
        out.push(46);
        push_padded(out, fp, places);
        assert(out@ =~= old(out)@ + (sign + dec_digits(ip as nat) + (seq![46u8] + padded_digits(
            fp as nat,
            places as nat,
        ))));
    } else {
        assert(out@ =~= old(out)@ + (sign + dec_digits(ip as nat) + Seq::<u8>::empty()));
    }
}

/// Every byte of a fixed-decimal text is ASCII.
pub proof fn lemma_fixed_is_ascii(x: int, places: nat)
    requires
        places <= 8,
    ensures
        forall|i: int|
            0 <= i < fixed_text_spec(x, places).len() ==> (#[trigger] fixed_text_spec(x, places)[i])
                < 128,
{
    lemma_pow10_bound(places);
    let q = div_round(x, pow10((8 - places) as nat) as int);
    let m = abs_spec(q);
    lemma_div_pos_is_pos(m, pow10(places) as int);
    lemma_mod_bound(m, pow10(places) as int);
    let d = dec_digits((m / (pow10(places) as int)) as nat);
    lemma_dec_digits((m / (pow10(places) as int)) as nat);
    let z = padded_digits((m % (pow10(places) as int)) as nat, places);
    lemma_padded_digits((m % (pow10(places) as int)) as nat, places);
    let w = fixed_text_spec(x, places);
    assert forall|i: int| 0 <= i < w.len() implies (#[trigger] w[i]) < 128 by {
        let sign_len: int = if q < 0 {
            1
        } else {
            0
        };
        if i < sign_len {
        } else if i < sign_len + d.len() {
            assert(w[i] == d[i - sign_len]);
            assert(is_digit(d[i - sign_len]));
        } else if i == sign_len + d.len() {
        } else {
            assert(w[i] == z[i - sign_len - d.len() - 1]);
            assert(is_digit(z[i - sign_len - d.len() - 1]));
        }
    }
}

/// A quantity written with exactly `places` decimals, as a text.
pub fn fixed_text(x: i64, places: usize) -> (s: String)
    requires
        places <= 8,
    ensures
        s@ == bytes_as_chars(fixed_text_spec(x as int, places as nat)),
{
    let mut out: Vec<u8> = Vec::new();
    push_fixed(&mut out, x, places);
    proof {
        lemma_fixed_is_ascii(x as int, places as nat);
        assert(out@ =~= fixed_text_spec(x as int, places as nat));
    }
    ascii_string(&out)
}

/// A whole number with its sign.
pub open spec fn int_text_spec(x: int) -> Seq<u8> {
    (if x < 0 {
        seq![45u8]
    } else {
        Seq::<u8>::empty()
    }) + dec_digits(abs_spec(x) as nat)
}

/// A whole number written in decimal, as a text.
pub fn int_text(x: i64) -> (s: String)
    ensures
        s@ == bytes_as_chars(int_text_spec(x as int)),
{
    let mut out: Vec<u8> = Vec::new();
    if x < 0 {
        out.push(45);
    }
    let ghost sign = out@;
    push_decimal(&mut out, abs_i64(x));
    proof {
        lemma_dec_digits(abs_spec(x as int) as nat);
        assert(out@ =~= int_text_spec(x as int));
        assert forall|i: int| 0 <= i < out@.len() implies (#[trigger] out@[i]) < 128 by {
            if i >= sign.len() {
                assert(out@[i] == dec_digits(abs_spec(x as int) as nat)[i - sign.len()]);
                assert(is_digit(dec_digits(abs_spec(x as int) as nat)[i - sign.len()]));
            }
        }
    }
    ascii_string(&out)
}

/// A count written in decimal, as a text.
pub fn count_text(n: u64) -> (s: String)
    ensures
        s@ == bytes_as_chars(dec_digits(n as nat)),
{
    let mut out: Vec<u8> = Vec::new();
    push_decimal(&mut out, n);
    proof {
        lemma_dec_digits(n as nat);
        assert(out@ =~= dec_digits(n as nat));
        assert forall|i: int| 0 <= i < out@.len() implies (#[trigger] out@[i]) < 128 by {
            assert(is_digit(dec_digits(n as nat)[i]));
        }
    }
    ascii_string(&out)
}

} // verus!
