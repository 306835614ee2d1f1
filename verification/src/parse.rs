//! Parsing of the textual render parameters.
//!
//! A delimited pair `<left><sep><right>` is accepted only when the
//! separator occurs and both sides parse in full as numerals: empty input,
//! a missing delimiter, an empty side, and trailing garbage are all
//! rejected. Raster bounds are unsigned decimal numbers; coordinates are
//! signed decimal fixed-point numerals such as `-1.25`.
//!
//! The grammar is deliberately this strict: plain digits for bounds, and
//! for coordinates an optional minus sign, an integer part and an optional
//! fraction — no leading plus sign, exponent, leading dot or trailing dot.
//! Fraction digits beyond the sixth lie below the fixed-point resolution
//! and fall away toward zero (`frac_raw`). The contracts below state the
//! accepted language and each numeral's value in full.

use vstd::prelude::*;
use vstd::slice::slice_subrange;
use vstd::string::StringSliceAdditionalSpecFns;

use crate::complex::Cx;
use crate::fixed::{lemma_mul_le, Fx, COORD_MAG_MAX, SCALE};

verus! {

pub open spec fn is_digit(b: u8) -> bool {
    48 <= b <= 57
}

pub open spec fn digit_val(b: u8) -> int {
    b as int - 48
}

/// The value of a digit string read in base ten.
pub open spec fn digits_val(s: Seq<u8>) -> int
    decreases s.len(),
{
    if s.len() == 0 {
        0
    } else {
        digits_val(s.drop_last()) * 10 + digit_val(s.last())
    }
}

pub open spec fn all_digits(s: Seq<u8>) -> bool {
    forall|i: int| 0 <= i < s.len() ==> is_digit(#[trigger] s[i])
}

/// A valid unsigned numeral: nonempty, all digits, within the u64 range.
pub open spec fn is_u64_numeral(s: Seq<u8>) -> bool {
    s.len() > 0 && all_digits(s) && digits_val(s) <= u64::MAX
}

/// The index of the first occurrence of `b` in `s`, or `s.len()` if none.
pub open spec fn first_index(s: Seq<u8>, b: u8) -> int
    decreases s.len(),
{
    if s.len() == 0 {
        0
    } else if s[0] == b {
        0
    } else {
        1 + first_index(s.skip(1), b)
    }
}

pub open spec fn pow10(n: nat) -> int
    decreases n,
{
    if n == 0 {
        1
    } else {
        10 * pow10((n - 1) as nat)
    }
}

proof fn lemma_first_index(s: Seq<u8>, b: u8)
    ensures
        0 <= first_index(s, b) <= s.len(),
        first_index(s, b) < s.len() ==> s[first_index(s, b)] == b,
        forall|j: int| 0 <= j < first_index(s, b) ==> s[j] != b,
    decreases s.len(),
{
    if s.len() > 0 && s[0] != b {
        lemma_first_index(s.skip(1), b);
        assert forall|j: int| 0 <= j < first_index(s, b) implies s[j] != b by {
            if j > 0 {
                assert(s.skip(1)[j - 1] == s[j]);
            }
        }
    }
}

proof fn lemma_digits_val_nonneg(s: Seq<u8>)
    requires
        all_digits(s),
    ensures
        digits_val(s) >= 0,
    decreases s.len(),
{
    if s.len() > 0 {
        assert(all_digits(s.drop_last()));
        lemma_digits_val_nonneg(s.drop_last());
    }
}

/// A digit string of length n has value below 10^n.
proof fn lemma_digits_val_bound(s: Seq<u8>)
    requires
        all_digits(s),
    ensures
        0 <= digits_val(s) < pow10(s.len()),
    decreases s.len(),
{
    if s.len() > 0 {
        assert(all_digits(s.drop_last()));
        lemma_digits_val_bound(s.drop_last());
    }
}

/// Reading further digits can only enlarge the value.
proof fn lemma_digits_prefix_le(s: Seq<u8>, k: int)
    requires
        all_digits(s),
        0 <= k <= s.len(),
    ensures
        0 <= digits_val(s.take(k)) <= digits_val(s),
    decreases s.len() - k,
{
    assert(all_digits(s.take(k)));
    lemma_digits_val_nonneg(s.take(k));
    if k < s.len() {
        assert(s.take(k + 1).drop_last() =~= s.take(k));
        assert(s.take(k + 1).last() == s[k]);
        lemma_digits_prefix_le(s, k + 1);
    } else {
        assert(s.take(k) =~= s);
    }
}

/// The overflow test used while accumulating digits is exact.
proof fn lemma_accumulate_overflow(acc: int, d: int)
    requires
        0 <= d <= 9,
        acc >= 0,
    ensures
        (acc > (u64::MAX - d) / 10) <==> (10 * acc + d > u64::MAX),
{
    vstd::arithmetic::div_mod::lemma_fundamental_div_mod(u64::MAX - d, 10);
    vstd::arithmetic::div_mod::lemma_mod_bound(u64::MAX - d, 10);
}

/// The index of the first occurrence of `b`, or the length if `b` does not
/// occur.
fn find_byte(s: &[u8], b: u8) -> (r: usize)
    ensures
        r as int == first_index(s@, b),
{
    let n = s.len();
    let mut i: usize = 0;
    while i < n
        invariant
            i <= n,
            n == s@.len(),
            forall|j: int| 0 <= j < i ==> s@[j] != b,
        decreases n - i,
    {
        if s[i] == b {
            proof {
                lemma_first_index(s@, b);
            }
            return i;
        }
        i = i + 1;
    }
    proof {
        lemma_first_index(s@, b);
    }
    i
}

/// Parse an unsigned decimal numeral in full.
fn parse_u64_digits(s: &[u8]) -> (r: Option<u64>)
    ensures
        match r {
            Some(v) => is_u64_numeral(s@) && v as int == digits_val(s@),
            None => !is_u64_numeral(s@),
        },
{
    let n = s.len();
    if n == 0 {
        return None;
    }
    let mut acc: u64 = 0;
    let mut i: usize = 0;
    while i < n
        invariant
            i <= n,
            n == s@.len(),
            all_digits(s@.take(i as int)),
            acc as int == digits_val(s@.take(i as int)),
        decreases n - i,
    {
        let b = s[i];
        if b < 48 || b > 57 {
            return None;
        }
        let d = b - 48;
        proof {
            lemma_digits_val_nonneg(s@.take(i as int));
            lemma_accumulate_overflow(acc as int, d as int);
            assert(s@.take(i as int + 1).drop_last() =~= s@.take(i as int));
            assert(s@.take(i as int + 1).last() == s@[i as int]);
        }
        if acc > (u64::MAX - d as u64) / 10 {
            proof {
                if is_u64_numeral(s@) {
                    lemma_digits_prefix_le(s@, i as int + 1);
                }
            }
            return None;
        }
        acc = acc * 10 + d as u64;
        i = i + 1;
    }
    proof {
        assert(s@.take(n as int) =~= s@);
    }
    Some(acc)
}

/// A delimited pair of unsigned numerals: the first separator splits the
/// input, and both sides must be numerals in full.
pub open spec fn pair_spec(s: Seq<u8>, sep: u8) -> Option<(u64, u64)> {
    let i = first_index(s, sep);
    if i == s.len() {
        None
    } else {
        if is_u64_numeral(s.take(i)) && is_u64_numeral(s.skip(i + 1)) {
            Some((digits_val(s.take(i)) as u64, digits_val(s.skip(i + 1)) as u64))
        } else {
            None
        }
    }
}

/// Parse a delimited string into a pair of unsigned numbers.
///
/// The input must be `<left><sep><right>`; any other form — no separator,
/// an empty side, a side with anything but digits, or a value out of
/// range — is rejected.
pub fn parse_pair(s: &str, separator: u8) -> (r: Option<(u64, u64)>)
    ensures
        r == pair_spec(s.spec_bytes(), separator),
{
    let bytes = s.as_bytes();
    let i = find_byte(bytes, separator);
    proof {
        lemma_first_index(bytes@, separator);
    }
    if i == bytes.len() {
        return None;
    }
    let left = slice_subrange(bytes, 0, i);
    let right = slice_subrange(bytes, i + 1, bytes.len());
    proof {
        assert(left@ =~= bytes@.take(i as int));
        assert(right@ =~= bytes@.skip(i as int + 1));
    }
    let lv = parse_u64_digits(left);
    let rv = parse_u64_digits(right);
    proof {
        if is_u64_numeral(left@) {
            lemma_digits_val_nonneg(left@);
        }
        if is_u64_numeral(right@) {
            lemma_digits_val_nonneg(right@);
        }
    }
    match (lv, rv) {
        (Some(a), Some(b)) => Some((a, b)),
        _ => None,
    }
}

/// Does the numeral start with a minus sign?
pub open spec fn is_neg_str(s: Seq<u8>) -> bool {
    s.len() > 0 && s[0] == 45
}

/// The magnitude part: everything after any leading minus sign.
pub open spec fn body_of(s: Seq<u8>) -> Seq<u8> {
    if is_neg_str(s) {
        s.skip(1)
    } else {
        s
    }
}

/// Raw value of the fractional digits: the first six digits, padded with
/// zeros to six places; further digits are beyond the resolution and fall
/// away toward zero.
pub open spec fn frac_raw(s: Seq<u8>) -> int {
    if s.len() >= 6 {
        digits_val(s.take(6))
    } else {
        digits_val(s) * pow10((6 - s.len()) as nat)
    }
}

/// A well-formed magnitude: `<digits>` or `<digits>.<digits>`, with the
/// resulting raw value within the coordinate range.
pub open spec fn mag_ok(body: Seq<u8>) -> bool {
    let i = first_index(body, 46);
    if i == body.len() {
        body.len() > 0 && all_digits(body) && digits_val(body) * (SCALE as int) <= COORD_MAG_MAX
    } else {
        body.take(i).len() > 0 && all_digits(body.take(i)) && body.skip(i + 1).len() > 0
            && all_digits(body.skip(i + 1)) && digits_val(body.take(i)) * (SCALE as int)
            + frac_raw(body.skip(i + 1)) <= COORD_MAG_MAX
    }
}

/// The raw (millionths) value of a well-formed magnitude.
pub open spec fn mag_raw(body: Seq<u8>) -> int {
    let i = first_index(body, 46);
    if i == body.len() {
        digits_val(body) * (SCALE as int)
    } else {
        digits_val(body.take(i)) * (SCALE as int) + frac_raw(body.skip(i + 1))
    }
}

/// A fixed-point numeral: an optional minus sign, then a magnitude.
pub open spec fn fx_ok(s: Seq<u8>) -> bool {
    mag_ok(body_of(s))
}

pub open spec fn fx_val_of(s: Seq<u8>) -> int {
    if is_neg_str(s) {
        -mag_raw(body_of(s))
    } else {
        mag_raw(body_of(s))
    }
}

proof fn lemma_pow10_values()
    ensures
        pow10(0) == 1,
        pow10(1) == 10,
        pow10(2) == 100,
        pow10(3) == 1000,
        pow10(4) == 10000,
        pow10(5) == 100000,
        pow10(6) == 1000000,
{
    assert(pow10(0) == 1);
    assert(pow10(1) == 10);
    assert(pow10(2) == 100);
    assert(pow10(3) == 1000);
    assert(pow10(4) == 10000);
    assert(pow10(5) == 100000);
    assert(pow10(6) == 1000000);
}

proof fn lemma_pow10_pos(n: nat)
    ensures
        pow10(n) >= 1,
    decreases n,
{
    if n > 0 {
        lemma_pow10_pos((n - 1) as nat);
    }
}

proof fn lemma_pow10_mono(a: nat, b: nat)
    requires
        a <= b,
    ensures
        1 <= pow10(a) <= pow10(b),
    decreases b,
{
    lemma_pow10_pos(a);
    if a < b {
        lemma_pow10_mono(a, (b - 1) as nat);
    }
}

proof fn lemma_pow10_add(a: nat, b: nat)
    ensures
        pow10(a) * pow10(b) == pow10(a + b),
    decreases a,
{
    if a == 0 {
        assert(pow10(0) == 1);
        assert(1 * pow10(b) == pow10(b)) by (nonlinear_arith);
    } else {
        lemma_pow10_add((a - 1) as nat, b);
        assert((10 * pow10((a - 1) as nat)) * pow10(b) == 10 * (pow10((a - 1) as nat) * pow10(b)))
            by (nonlinear_arith);
    }
}

proof fn lemma_frac_raw_nonneg(s: Seq<u8>)
    requires
        all_digits(s),
    ensures
        frac_raw(s) >= 0,
{
    if s.len() >= 6 {
        assert(all_digits(s.take(6)));
        lemma_digits_val_nonneg(s.take(6));
    } else {
        lemma_digits_val_nonneg(s);
        lemma_pow10_mono(0, (6 - s.len()) as nat);
        lemma_mul_le(0, 0, digits_val(s), pow10((6 - s.len()) as nat));
    }
}

fn pow10_small(k: usize) -> (r: u64)
    requires
        k <= 6,
    ensures
        r as int == pow10(k as nat),
        1 <= r <= 1_000_000,
{
    proof {
        lemma_pow10_values();
    }
    if k == 0 {
        1
    } else if k == 1 {
        10
    } else if k == 2 {
        100
    } else if k == 3 {
        1_000
    } else if k == 4 {
        10_000
    } else if k == 5 {
        100_000
    } else {
        1_000_000
    }
}

/// Parse the fractional digits of a numeral: all bytes must be digits; the
/// first six give the raw value, padded with zeros to six places.
fn parse_frac(fp: &[u8]) -> (r: Option<u64>)
    requires
        fp@.len() > 0,
    ensures
        match r {
            Some(v) => all_digits(fp@) && v as int == frac_raw(fp@) && v < SCALE,
            None => !all_digits(fp@),
        },
{
    let n = fp.len();
    let mut acc: u64 = 0;
    let mut i: usize = 0;
    while i < n
        invariant
            i <= n,
            n == fp@.len(),
            all_digits(fp@.take(i as int)),
            acc as int == digits_val(
                fp@.take(
                    if i as int <= 6 {
                        i as int
                    } else {
                        6
                    },
                ),
            ),
            acc < 1_000_000,
        decreases n - i,
    {
        let b = fp[i];
        if b < 48 || b > 57 {
            return None;
        }
        proof {
            assert(fp@.take(i as int + 1).drop_last() =~= fp@.take(i as int));
            assert(fp@.take(i as int + 1).last() == fp@[i as int]);
        }
        if i < 6 {
            proof {
                lemma_digits_val_nonneg(fp@.take(i as int));
                lemma_digits_val_bound(fp@.take(i as int + 1));
                lemma_pow10_mono((i + 1) as nat, 6);
                lemma_pow10_values();
            }
            acc = acc * 10 + (b - 48) as u64;
        } else {
            proof {
                assert(fp@.take(6int) =~= fp@.take(i as int + 1).take(6int));
            }
        }
        i = i + 1;
    }
    proof {
        assert(fp@.take(n as int) =~= fp@);
    }
    if n >= 6 {
        Some(acc)
    } else {
        let mult = pow10_small(6 - n);
        proof {
            lemma_digits_val_bound(fp@);
            lemma_pow10_values();
            lemma_pow10_pos((6 - n) as nat);
            lemma_pow10_add(n as nat, (6 - n) as nat);
            lemma_mul_le(acc as int, mult as int, 999_999, 1_000_000);
            vstd::arithmetic::mul::lemma_mul_inequality(
                acc as int,
                pow10(n as nat) - 1,
                pow10((6 - n) as nat),
            );
            assert((pow10(n as nat) - 1) * pow10((6 - n) as nat) == pow10(n as nat) * pow10(
                (6 - n) as nat,
            ) - pow10((6 - n) as nat)) by (nonlinear_arith);
        }
        Some(acc * mult)
    }
}

/// Parse a magnitude: `<digits>` or `<digits>.<digits>`, rejecting any
/// other shape and any value beyond the coordinate range.
fn parse_mag(body: &[u8]) -> (r: Option<u64>)
    ensures
        match r {
            Some(v) => mag_ok(body@) && v as int == mag_raw(body@) && v <= COORD_MAG_MAX,
            None => !mag_ok(body@),
        },
{
    let dot = find_byte(body, 46);
    proof {
        lemma_first_index(body@, 46);
    }
    if dot == body.len() {
        match parse_u64_digits(body) {
            None => {
                proof {
                    if body@.len() > 0 && all_digits(body@) {
                        lemma_digits_val_nonneg(body@);
                        vstd::arithmetic::mul::lemma_mul_inequality(
                            1,
                            SCALE as int,
                            digits_val(body@),
                        );
                        assert((SCALE as int) * digits_val(body@) == digits_val(body@) * (
                        SCALE as int)) by (nonlinear_arith);
                        assert(1 * digits_val(body@) == digits_val(body@)) by (nonlinear_arith);
                    }
                }
                None
            },
            Some(v) => {
                if v > 1_000_000 {
                    proof {
                        vstd::arithmetic::mul::lemma_mul_strict_inequality(
                            1_000_000,
                            v as int,
                            SCALE as int,
                        );
                    }
                    None
                } else {
                    Some(v * SCALE)
                }
            },
        }
    } else {
        let ip = slice_subrange(body, 0, dot);
        let fp = slice_subrange(body, dot + 1, body.len());
        proof {
            assert(ip@ =~= body@.take(dot as int));
            assert(fp@ =~= body@.skip(dot as int + 1));
        }
        if fp.len() == 0 {
            return None;
        }
        let ipv = match parse_u64_digits(ip) {
            None => {
                proof {
                    if mag_ok(body@) {
                        lemma_digits_val_nonneg(ip@);
                        lemma_frac_raw_nonneg(fp@);
                        vstd::arithmetic::mul::lemma_mul_inequality(1, SCALE as int, digits_val(ip@));
                        assert((SCALE as int) * digits_val(ip@) == digits_val(ip@) * (
                        SCALE as int)) by (nonlinear_arith);
                        assert(1 * digits_val(ip@) == digits_val(ip@)) by (nonlinear_arith);
                    }
                }
                return None;
            },
            Some(v) => v,
        };
        let fr = match parse_frac(fp) {
            None => {
                return None;
            },
            Some(f) => f,
        };
        if ipv > 1_000_000 {
            proof {
                vstd::arithmetic::mul::lemma_mul_strict_inequality(
                    1_000_000,
                    ipv as int,
                    SCALE as int,
                );
            }
            return None;
        }
        let raw = ipv * SCALE + fr;
        if raw > COORD_MAG_MAX {
            None
        } else {
            Some(raw)
        }
    }
}

/// Parse a signed fixed-point numeral such as `-1.25`.
fn parse_fx(b: &[u8]) -> (r: Option<Fx>)
    ensures
        match r {
            Some(f) => fx_ok(b@) && f.wf() && f.val() == fx_val_of(b@) && f.mag <= COORD_MAG_MAX,
            None => !fx_ok(b@),
        },
{
    let neg = b.len() > 0 && b[0] == 45;
    let start: usize = if neg {
        1
    } else {
        0
    };
    let body = slice_subrange(b, start, b.len());
    proof {
        assert(body@ =~= body_of(b@));
    }
    match parse_mag(body) {
        None => None,
        Some(m) => Some(Fx::from_raw(neg, m)),
    }
}

/// A delimited pair of fixed-point numerals.
pub open spec fn fx_pair_ok(s: Seq<u8>, sep: u8) -> bool {
    let i = first_index(s, sep);
    i < s.len() && fx_ok(s.take(i)) && fx_ok(s.skip(i + 1))
}

pub open spec fn fx_pair_left(s: Seq<u8>, sep: u8) -> int {
    fx_val_of(s.take(first_index(s, sep)))
}

pub open spec fn fx_pair_right(s: Seq<u8>, sep: u8) -> int {
    fx_val_of(s.skip(first_index(s, sep) + 1))
}

/// Parse a delimited string into a pair of fixed-point numbers; the same
/// rejection rules as for `parse_pair` apply.
pub fn parse_fx_pair(s: &str, separator: u8) -> (r: Option<(Fx, Fx)>)
    ensures
        match r {
            Some(p) => fx_pair_ok(s.spec_bytes(), separator) && p.0.wf() && p.1.wf() && p.0.val()
                == fx_pair_left(s.spec_bytes(), separator) && p.1.val() == fx_pair_right(
                s.spec_bytes(),
                separator,
            ) && p.0.mag <= COORD_MAG_MAX && p.1.mag <= COORD_MAG_MAX,
            None => !fx_pair_ok(s.spec_bytes(), separator),
        },
{
    let bytes = s.as_bytes();
    let i = find_byte(bytes, separator);
    proof {
        lemma_first_index(bytes@, separator);
    }
    if i == bytes.len() {
        return None;
    }
    let left = slice_subrange(bytes, 0, i);
    let right = slice_subrange(bytes, i + 1, bytes.len());
    proof {
        assert(left@ =~= bytes@.take(i as int));
        assert(right@ =~= bytes@.skip(i as int + 1));
    }
    match (parse_fx(left), parse_fx(right)) {
        (Some(a), Some(b)) => Some((a, b)),
        _ => None,
    }
}

/// Parse the `<real>,<imaginary>` representation of a complex number.
pub fn parse_complex(s: &str) -> (r: Option<Cx>)
    ensures
        match r {
            Some(c) => fx_pair_ok(s.spec_bytes(), 44) && c.wf() && c.bounded(COORD_MAG_MAX as int)
                && c.re.val() == fx_pair_left(s.spec_bytes(), 44) && c.im.val() == fx_pair_right(
                s.spec_bytes(),
                44,
            ),
            None => !fx_pair_ok(s.spec_bytes(), 44),
        },
{
    match parse_fx_pair(s, 44) {
        Some((re, im)) => Some(Cx { re, im }),
        None => None,
    }
}

} // verus!
