//! Amounts held exactly as integer millionths ("micros"), read from and
//! written as decimal text.
//!
//! A broker cell such as `$1,234.56` or `(12.5)` is read to a whole number of
//! micros: the text is read as `f64::from_str` reads numbers (an exponent
//! such as `1e3` included) and the exact value it spells is rounded to the
//! nearest micro, halves to even. Amounts are
//! printed back in the two forms the importer needs: the shortest decimal
//! that names the value exactly, and a fixed four-place form.

use vstd::prelude::*;
use crate::text::{is_blank, string_of, trim, trim_end, trim_start, ends_with, is_ws, strip_suffixes, strip_leading, chars_of, trim_bounds, strip_leading_start, strip_suffixes_end};

verus! {

/// Micros in one unit (one dollar, one share).
pub const MICROS: i64 = 1_000_000;

pub open spec fn is_digit(c: char) -> bool {
    '0' <= c && c <= '9'
}

pub open spec fn digit_val(c: char) -> int {
    c as int - '0' as int
}

pub open spec fn all_digits(s: Seq<char>) -> bool {
    forall|i: int| 0 <= i < s.len() ==> is_digit(#[trigger] s[i])
}

/// The number a run of decimal digits denotes.
pub open spec fn digits_val(s: Seq<char>) -> int
    decreases s.len(),
{
    if s.len() == 0 {
        0
    } else {
        digits_val(s.drop_last()) * 10 + digit_val(s.last())
    }
}

pub open spec fn pow10(n: nat) -> int
    decreases n,
{
    if n == 0 {
        1
    } else {
        10 * pow10((n - 1) as nat)
    }
}

/// Index of the first `.` in `s`, or `s.len()` when there is none.
pub open spec fn first_dot(s: Seq<char>) -> int
    decreases s.len(),
{
    if s.len() == 0 {
        0
    } else if s[0] == '.' {
        0
    } else {
        1 + first_dot(s.drop_first())
    }
}

/// Micros contributed by at most six fraction digits `f`.
pub open spec fn frac_micros(f: Seq<char>) -> int {
    digits_val(f) * pow10((6 - f.len()) as nat)
}

/// Digits with at most one decimal point and at least one digit, such as
/// `12`, `12.`, `.5` or `12.50`.
pub open spec fn unsigned_decimal_ok(b: Seq<char>) -> bool {
    let k = first_dot(b);
    &&& all_digits(b.take(k))
    &&& (k == b.len() || all_digits(b.skip(k + 1)))
    &&& b.len() - (if k < b.len() { 1int } else { 0int }) > 0
}

/// The magnitude, in micros, of an unsigned decimal with at most six
/// fraction digits (see [`unsigned_micros`] for any number).
pub open spec fn unsigned_decimal_micros(b: Seq<char>) -> int {
    let k = first_dot(b);
    digits_val(b.take(k)) * 1_000_000 + (if k < b.len() { frac_micros(b.skip(k + 1)) } else { 0 })
}

/// `c` after an optional leading `+` or `-`.
pub open spec fn sign_stripped(c: Seq<char>) -> Seq<char> {
    if c.len() > 0 && (c[0] == '+' || c[0] == '-') {
        c.drop_first()
    } else {
        c
    }
}

/// Index of the first exponent mark (`e` or `E`) in `s`, or `s.len()`.
pub open spec fn first_exp(s: Seq<char>) -> int
    decreases s.len(),
{
    if s.len() == 0 {
        0
    } else if s[0] == 'e' || s[0] == 'E' {
        0
    } else {
        1 + first_exp(s.drop_first())
    }
}

/// An exponent: an optional sign, then at least one digit.
pub open spec fn exponent_ok(x: Seq<char>) -> bool {
    sign_stripped(x).len() > 0 && all_digits(sign_stripped(x))
}

/// The value of an exponent.
pub open spec fn exponent_val(x: Seq<char>) -> int {
    let v = digits_val(sign_stripped(x));
    if x.len() > 0 && x[0] == '-' { -v } else { v }
}

/// The digits of a mantissa with its point taken out.
pub open spec fn mantissa_digits(m: Seq<char>) -> Seq<char> {
    let k = first_dot(m);
    if k < m.len() { m.take(k) + m.skip(k + 1) } else { m }
}

/// How many digits of a mantissa follow its point.
pub open spec fn fraction_len(m: Seq<char>) -> int {
    let k = first_dot(m);
    if k < m.len() { m.len() - k - 1 } else { 0 }
}

/// `d` times 10^`s`, rounded to a whole number (halves to even).
pub open spec fn scaled(d: nat, s: int) -> int {
    if s >= 0 { d * pow10(s as nat) } else { round_half_even(d, pow10((-s) as nat) as nat) as int }
}

/// The magnitude in micros of unsigned number text: a mantissa (digits with
/// at most one point, at least one digit) and an optional exponent, read as
/// the exact decimal it spells and rounded to the nearest micro, halves to
/// even. `None` when the text is not such a number.
#[verifier::opaque]
pub open spec fn unsigned_micros(b: Seq<char>) -> Option<int> {
    let k = first_exp(b);
    let m = b.take(k);
    if unsigned_decimal_ok(m) && (k == b.len() || exponent_ok(b.skip(k + 1))) {
        let e = if k == b.len() { 0 } else { exponent_val(b.skip(k + 1)) };
        Some(scaled(digits_val(mantissa_digits(m)) as nat, 6 + e - fraction_len(m)))
    } else {
        None
    }
}

/// The value in micros of number text as `f64::from_str` reads it
/// (`-12.5`, `+3`, `.25`, `1e3`, `2.5E-2`), rounded to the nearest micro
/// (halves to even); `None` when the text is not such a number. The
/// spellings of infinity and not-a-number, which no amount can hold, are
/// not numbers here.
pub open spec fn decimal_micros(c: Seq<char>) -> Option<int> {
    match unsigned_micros(sign_stripped(c)) {
        Some(m) => Some(if c.len() > 0 && c[0] == '-' { -m } else { m }),
        None => None,
    }
}

/// The characters that money cells carry as decoration.
pub open spec fn is_money_noise(c: char) -> bool {
    c == '$' || c == ',' || c == ' ' || c == '\u{a0}'
}

/// `s` without its decoration characters.
pub open spec fn without_noise(s: Seq<char>) -> Seq<char>
    decreases s.len(),
{
    if s.len() == 0 {
        s
    } else if is_money_noise(s.last()) {
        without_noise(s.drop_last())
    } else {
        without_noise(s.drop_last()).push(s.last())
    }
}

/// A cell written in accounting style, `(123)`, once trimmed.
pub open spec fn parenthesised(t: Seq<char>) -> bool {
    t.len() > 0 && t[0] == '(' && t.last() == ')'
}

/// The numeric text of a money cell: trimmed, outer parentheses, currency
/// marks, separators and a trailing `USD`/`usd` removed.
pub open spec fn money_core(s: Seq<char>) -> Seq<char> {
    let t = trim(s);
    let u = strip_suffixes(strip_leading(t, '('), seq![')']);
    strip_suffixes(strip_suffixes(without_noise(u), "USD"@), "usd"@)
}

/// The value of a money cell in micros, before any range limit: `None` when
/// the cell is blank or what is left is not a number; accounting-style
/// parentheses make the value negative whatever sign it carried.
pub open spec fn money_micros(s: Seq<char>) -> Option<int> {
    let t = trim(s);
    if t.len() == 0 {
        None
    } else {
        match decimal_micros(money_core(s)) {
            Some(v) => Some(if parenthesised(t) { if v < 0 { v } else { -v } } else { v }),
            None => None,
        }
    }
}

pub open spec fn fits_i64(v: int) -> bool {
    i64::MIN <= v <= i64::MAX
}

/// What [`parse_money`] returns for `s`.
pub open spec fn parsed_money(s: Seq<char>) -> Option<i64> {
    match money_micros(s) {
        Some(v) => if fits_i64(v) { Some(v as i64) } else { None },
        None => None,
    }
}

proof fn lemma_first_dot(s: Seq<char>)
    ensures
        0 <= first_dot(s) <= s.len(),
        forall|j: int| 0 <= j < first_dot(s) ==> s[j] != '.',
        first_dot(s) < s.len() ==> s[first_dot(s)] == '.',
    decreases s.len(),
{
    if s.len() > 0 && s[0] != '.' {
        lemma_first_dot(s.drop_first());
        assert forall|j: int| 0 <= j < first_dot(s) implies s[j] != '.' by {
            if j > 0 {
                assert(s[j] == s.drop_first()[j - 1]);
            }
        }
    }
}

proof fn lemma_first_dot_at(s: Seq<char>, i: int)
    requires
        0 <= i <= s.len(),
        forall|j: int| 0 <= j < i ==> s[j] != '.',
        i == s.len() || s[i] == '.',
    ensures
        first_dot(s) == i,
    decreases i,
{
    if i > 0 {
        assert forall|j: int| 0 <= j < i - 1 implies s.drop_first()[j] != '.' by {
            assert(s.drop_first()[j] == s[j + 1]);
        }
        if i < s.len() {
            assert(s.drop_first()[i - 1] == s[i]);
        }
        lemma_first_dot_at(s.drop_first(), i - 1);
    }
}

proof fn lemma_first_exp_at(s: Seq<char>, i: int)
    requires
        0 <= i <= s.len(),
        forall|j: int| 0 <= j < i ==> s[j] != 'e' && s[j] != 'E',
        i == s.len() || s[i] == 'e' || s[i] == 'E',
    ensures
        first_exp(s) == i,
    decreases i,
{
    if i > 0 {
        assert forall|j: int| 0 <= j < i - 1 implies s.drop_first()[j] != 'e' && s.drop_first()[j] != 'E' by {
            assert(s.drop_first()[j] == s[j + 1]);
        }
        if i < s.len() {
            assert(s.drop_first()[i - 1] == s[i]);
        }
        lemma_first_exp_at(s.drop_first(), i - 1);
    }
}

proof fn lemma_first_exp_upto(s: Seq<char>, i: int)
    requires
        0 <= i <= s.len(),
        forall|j: int| 0 <= j < i ==> s[j] != 'e' && s[j] != 'E',
    ensures
        i <= first_exp(s) <= s.len(),
        first_exp(s) < s.len() ==> (s[first_exp(s)] == 'e' || s[first_exp(s)] == 'E'),
    decreases s.len(),
{
    if s.len() > 0 && s[0] != 'e' && s[0] != 'E' {
        let t = s.drop_first();
        assert forall|j: int| 0 <= j < (if i > 0 { i - 1 } else { 0 }) implies t[j] != 'e' && t[j] != 'E' by {
            assert(t[j] == s[j + 1]);
        }
        lemma_first_exp_upto(t, if i > 0 { i - 1 } else { 0 });
        if first_exp(t) < t.len() {
            assert(s[first_exp(s)] == t[first_exp(t)]);
        }
    }
}

proof fn lemma_pow10_add(a: nat, b: nat)
    ensures
        pow10(a + b) == pow10(a) * pow10(b),
    decreases b,
{
    if b > 0 {
        lemma_pow10_add(a, (b - 1) as nat);
        assert(pow10(a + b) == 10 * pow10((a + b - 1) as nat));
        assert(pow10(a) * (10 * pow10((b - 1) as nat)) == 10 * (pow10(a) * pow10((b - 1) as nat))) by (nonlinear_arith);
    }
}

/// The digits of `a` then `b` are worth `a` shifted past `b`, plus `b`.
proof fn lemma_digits_concat(a: Seq<char>, b: Seq<char>)
    ensures
        digits_val(a + b) == digits_val(a) * pow10(b.len()) + digits_val(b),
    decreases b.len(),
{
    if b.len() == 0 {
        assert(a + b == a);
    } else {
        lemma_digits_concat(a, b.drop_last());
        assert((a + b).drop_last() == a + b.drop_last());
        assert((a + b).last() == b.last());
        let p = pow10((b.len() - 1) as nat);
        assert(digits_val(a) * (10 * p) == (digits_val(a) * p) * 10) by (nonlinear_arith);
    }
}

/// Text with no exponent mark and at most six digits after its point reads
/// as its whole part in micros plus its scaled fraction.
proof fn lemma_short_decimal(b: Seq<char>)
    requires
        unsigned_decimal_ok(b),
        forall|j: int| 0 <= j < b.len() ==> b[j] != 'e' && b[j] != 'E',
        fraction_len(b) <= 6,
    ensures
        unsigned_micros(b) == Some(unsigned_decimal_micros(b)),
{
    reveal(unsigned_micros);
    lemma_first_exp_at(b, b.len() as int);
    assert(b.take(b.len() as int) == b);
    let k = first_dot(b);
    lemma_first_dot(b);
    let w = b.take(k);
    let fl = fraction_len(b);
    if k < b.len() {
        let f = b.skip(k + 1);
        lemma_digits_concat(w, f);
        lemma_pow10_add(f.len(), (6 - f.len()) as nat);
        assert(f.len() + (6 - f.len()) as nat == 6);
        assert(pow10(6) == 1_000_000) by {
            reveal_with_fuel(pow10, 7);
        }
        let dw = digits_val(w);
        let df = digits_val(f);
        let pf = pow10(f.len());
        let pr = pow10((6 - f.len()) as nat);
        assert((dw * pf + df) * pr == dw * (pf * pr) + df * pr) by (nonlinear_arith);
        assert(mantissa_digits(b) == w + f);
        assert(fraction_len(b) == f.len());
        lemma_digits_bound(w + f);
        assert(digits_val(w + f) >= 0) by {
            assert(all_digits(w + f)) by {
                assert forall|i: int| 0 <= i < (w + f).len() implies is_digit(#[trigger] (w + f)[i]) by {
                    if i < w.len() { assert((w + f)[i] == w[i]); } else { assert((w + f)[i] == f[i - w.len()]); }
                }
            }
            lemma_digits_bound(w + f);
        }
        assert(scaled(digits_val(w + f) as nat, 6 - f.len()) == digits_val(w + f) * pr);
        assert(frac_micros(f) == df * pr);
    } else {
        assert(pow10(6) == 1_000_000) by {
            reveal_with_fuel(pow10, 7);
        }
        assert(w == b);
        assert(mantissa_digits(b) == b);
        lemma_digits_bound(b);
        assert(scaled(digits_val(b) as nat, 6) == digits_val(b) * pow10(6));
    }
}

proof fn lemma_digits_bound(s: Seq<char>)
    requires
        all_digits(s),
    ensures
        0 <= digits_val(s) < pow10(s.len()),
    decreases s.len(),
{
    if s.len() > 0 {
        lemma_digits_bound(s.drop_last());
        assert(is_digit(s[s.len() - 1]));
    }
}

proof fn lemma_digits_range_push(s: Seq<char>, a: int, i: int)
    requires
        0 <= a <= i < s.len(),
    ensures
        digits_val(s.subrange(a, i + 1)) == digits_val(s.subrange(a, i)) * 10 + digit_val(s[i]),
{
    assert(s.subrange(a, i + 1).drop_last() == s.subrange(a, i));
}

/// Digits from `i` on: the index of the first non-digit at or after `i`
/// (or `hi`), and their value saturated at 10^13.
fn scan_int_digits(c: &Vec<char>, i: usize, hi: usize) -> (r: (usize, u128))
    requires
        i <= hi <= c.len(),
    ensures
        i <= r.0 <= hi,
        all_digits(c@.subrange(i as int, r.0 as int)),
        r.0 < hi ==> !is_digit(c@[r.0 as int]),
        r.1 <= 10_000_000_000_000,
        r.1 as int == if digits_val(c@.subrange(i as int, r.0 as int)) < 10_000_000_000_000 {
            digits_val(c@.subrange(i as int, r.0 as int))
        } else {
            10_000_000_000_000
        },
{
    let big: u128 = 10_000_000_000_000;
    let mut j = i;
    let mut v: u128 = 0;
    while j < hi && '0' <= c[j] && c[j] <= '9'
        invariant
            i <= j <= hi <= c.len(),
            big == 10_000_000_000_000,
            all_digits(c@.subrange(i as int, j as int)),
            v <= big,
            v as int == if digits_val(c@.subrange(i as int, j as int)) < big { digits_val(c@.subrange(i as int, j as int)) } else { big as int },
        decreases hi - j,
    {
        proof {
            lemma_digits_range_push(c@, i as int, j as int);
            lemma_digits_bound(c@.subrange(i as int, j as int));
        }
        let d = (c[j] as u32 - '0' as u32) as u128;
        let nx = v * 10 + d;
        v = if nx < big { nx } else { big };
        j += 1;
    }
    (j, v)
}

proof fn lemma_pow10_mono(a: nat, b: nat)
    requires
        a <= b,
    ensures
        pow10(a) <= pow10(b),
    decreases b,
{
    lemma_pow10_positive(a);
    if a < b {
        lemma_pow10_mono(a, (b - 1) as nat);
        lemma_pow10_positive((b - 1) as nat);
    }
}

/// The value of the digits `g[lo..hi]`, saturated at `cap`.
fn capped_digits(g: &Vec<char>, lo: usize, hi: usize, cap: u128) -> (r: u128)
    requires
        lo <= hi <= g.len(),
        all_digits(g@.subrange(lo as int, hi as int)),
        1 <= cap <= 0x1_0000_0000_0000_0000_0000_0000_0000,
    ensures
        r as int == if digits_val(g@.subrange(lo as int, hi as int)) < cap { digits_val(g@.subrange(lo as int, hi as int)) } else { cap as int },
{
    let mut v: u128 = 0;
    let mut j = lo;
    while j < hi
        invariant
            lo <= j <= hi <= g.len(),
            all_digits(g@.subrange(lo as int, hi as int)),
            1 <= cap <= 0x1_0000_0000_0000_0000_0000_0000_0000,
            v as int == if digits_val(g@.subrange(lo as int, j as int)) < cap { digits_val(g@.subrange(lo as int, j as int)) } else { cap as int },
        decreases hi - j,
    {
        proof {
            lemma_digits_range_push(g@, lo as int, j as int);
            assert(g@.subrange(lo as int, hi as int)[j - lo] == g@[j as int]);
            assert(all_digits(g@.subrange(lo as int, j as int))) by {
                assert forall|i: int| 0 <= i < j - lo implies is_digit(#[trigger] g@.subrange(lo as int, j as int)[i]) by {
                    assert(g@.subrange(lo as int, j as int)[i] == g@.subrange(lo as int, hi as int)[i]);
                }
            }
            lemma_digits_val_nonneg(g@.subrange(lo as int, j as int));
        }
        let d = (g[j] as u32 - '0' as u32) as u128;
        let nx = v * 10 + d;
        v = if nx < cap { nx } else { cap };
        j += 1;
    }
    v
}

/// Whether the digits `g[lo..hi]` are worth more than zero.
fn has_nonzero(g: &Vec<char>, lo: usize, hi: usize) -> (r: bool)
    requires
        lo <= hi <= g.len(),
        all_digits(g@.subrange(lo as int, hi as int)),
    ensures
        r == (digits_val(g@.subrange(lo as int, hi as int)) > 0),
{
    let v = capped_digits(g, lo, hi, 1);
    proof {
        lemma_digits_val_nonneg(g@.subrange(lo as int, hi as int));
    }
    v > 0
}

fn pow10_wide(n: u32) -> (r: u128)
    requires
        n <= 19,
    ensures
        r as int == pow10(n as nat),
        r <= 10_000_000_000_000_000_000,
    decreases n,
{
    if n == 0 {
        1
    } else {
        let p = pow10_wide(n - 1);
        proof {
            lemma_pow10_mono((n - 1) as nat, 18);
            assert(pow10(18) == 1_000_000_000_000_000_000) by {
                reveal_with_fuel(pow10, 19);
            }
        }
        p * 10
    }
}

/// The digits `g` times 10^`s`, rounded to a whole number (halves to
/// even), when that is at most 2^63.
fn round_scaled(g: &Vec<char>, s: i128) -> (r: Option<u128>)
    requires
        all_digits(g@),
        -0x1_0000_0000_0000_0000_0000_0000_0000 <= s <= 0x1_0000_0000_0000_0000_0000_0000_0000,
    ensures
        r == (if scaled(digits_val(g@) as nat, s as int) <= 9_223_372_036_854_775_808 {
            Some(scaled(digits_val(g@) as nat, s as int) as u128)
        } else {
            None
        }),
{
    let ghost d = digits_val(g@);
    let len = g.len();
    proof {
        lemma_digits_bound(g@);
        assert(g@.subrange(0, len as int) == g@);
    }
    if s >= 0 {
        let nz = has_nonzero(g, 0, len);
        if !nz {
            assert(d == 0);
            assert(d * pow10(s as nat) == 0);
            return Some(0);
        }
        if s >= 20 {
            proof {
                lemma_pow10_mono(20, s as nat);
                assert(pow10(20) == 100_000_000_000_000_000_000) by {
                    reveal_with_fuel(pow10, 21);
                }
                assert(d * pow10(s as nat) >= pow10(s as nat)) by (nonlinear_arith)
                    requires d >= 1, pow10(s as nat) >= 0;
            }
            return None;
        }
        let dc = capped_digits(g, 0, len, 0x1_0000_0000_0000_0000);
        if dc > 9_223_372_036_854_775_808 {
            proof {
                lemma_pow10_positive(s as nat);
                assert(d * pow10(s as nat) >= d) by (nonlinear_arith)
                    requires d >= 0, pow10(s as nat) >= 1;
            }
            return None;
        }
        let p = pow10_wide(s as u32);
        assert(dc * p <= 9_223_372_036_854_775_808 * 10_000_000_000_000_000_000) by (nonlinear_arith)
            requires dc <= 9_223_372_036_854_775_808, p <= 10_000_000_000_000_000_000;
        let v = dc * p;
        if v > 9_223_372_036_854_775_808 {
            None
        } else {
            Some(v)
        }
    } else {
        let k: i128 = 0 - s;
        if k > len as i128 {
            // Fewer digits than places to shift: less than half a unit.
            proof {
                lemma_pow10_mono(len as nat, (k - 1) as nat);
                let p = pow10((k - 1) as nat);
                assert(pow10(k as nat) == 10 * p);
                vstd::arithmetic::div_mod::lemma_fundamental_div_mod_converse(d, 10 * p, 0, d);
            }
            return Some(0);
        }
        let j = (len as i128 - k) as usize;
        let ghost a = g@.subrange(0, j as int);
        let ghost b = g@.subrange(j as int, len as int);
        let ghost rest = g@.subrange(j + 1, len as int);
        proof {
            assert(a + b == g@);
            lemma_digits_concat(a, b);
            assert(all_digits(a)) by {
                assert forall|i: int| 0 <= i < a.len() implies is_digit(#[trigger] a[i]) by { assert(a[i] == g@[i]); }
            }
            assert(all_digits(b)) by {
                assert forall|i: int| 0 <= i < b.len() implies is_digit(#[trigger] b[i]) by { assert(b[i] == g@[i + j]); }
            }
            assert(all_digits(rest)) by {
                assert forall|i: int| 0 <= i < rest.len() implies is_digit(#[trigger] rest[i]) by { assert(rest[i] == g@[i + j + 1]); }
            }
            let one = seq![g@[j as int]];
            assert(b =~= one + rest);
            lemma_digits_concat(one, rest);
            assert(one.last() == g@[j as int]);
            assert(one.drop_last() =~= Seq::<char>::empty());
            assert(digits_val(Seq::<char>::empty()) == 0);
            assert(digits_val(one) == digits_val(one.drop_last()) * 10 + digit_val(one.last()));
            assert(digits_val(one) == digit_val(g@[j as int]));
            lemma_digits_bound(rest);
            lemma_digits_bound(b);
            lemma_digits_val_nonneg(a);
        }
        let q = capped_digits(g, 0, j, 0x1_0000_0000_0000_0000);
        let dj = (g[j] as u32 - '0' as u32) as u128;
        let more = has_nonzero(g, j + 1, len);
        proof {
            let pk = pow10(k as nat);
            let p = pow10((k - 1) as nat);
            let av = digits_val(a);
            let bv = digits_val(b);
            let rv = digits_val(rest);
            assert(rest.len() == k - 1);
            assert(pk == 10 * p);
            lemma_pow10_positive((k - 1) as nat);
            assert(bv == dj * p + rv);
            assert(d == av * pk + bv);
            vstd::arithmetic::div_mod::lemma_fundamental_div_mod_converse(d, pk, av, bv);
            assert(2 * bv > pk <==> (dj > 5 || (dj == 5 && rv > 0))) by (nonlinear_arith)
                requires bv == dj * p + rv, pk == 10 * p, 0 <= rv < p, 0 <= dj <= 9, p >= 1;
            assert(2 * bv == pk <==> (dj == 5 && rv == 0)) by (nonlinear_arith)
                requires bv == dj * p + rv, pk == 10 * p, 0 <= rv < p, 0 <= dj <= 9, p >= 1;
        }
        if q > 9_223_372_036_854_775_808 {
            return None;
        }
        let up = dj > 5 || (dj == 5 && (more || q % 2 == 1));
        let v = if up { q + 1 } else { q };
        if v > 9_223_372_036_854_775_808 {
            None
        } else {
            Some(v)
        }
    }
}

/// Magnitude at most 2^63 micros: the widest value that can still end up in
/// an `i64` once a sign is applied.
pub open spec fn within_i64_magnitude(v: int) -> bool {
    -9_223_372_036_854_775_808 <= v <= 9_223_372_036_854_775_808
}

proof fn lemma_scaled_nonneg(d: nat, s: int)
    ensures
        scaled(d, s) >= 0,
{
    if s >= 0 {
        lemma_pow10_positive(s as nat);
        assert(d * pow10(s as nat) >= 0) by (nonlinear_arith)
            requires pow10(s as nat) > 0;
    }
}

/// Shifted far to the left, every digit falls below half a unit.
proof fn lemma_scaled_far_right(g: Seq<char>, s: int)
    requires
        all_digits(g),
        s < -(g.len() as int),
    ensures
        scaled(digits_val(g) as nat, s) == 0,
{
    let d = digits_val(g);
    let k = -s;
    lemma_digits_bound(g);
    lemma_pow10_mono(g.len(), (k - 1) as nat);
    lemma_pow10_positive((k - 1) as nat);
    let p = pow10((k - 1) as nat);
    assert(pow10(k as nat) == 10 * p);
    vstd::arithmetic::div_mod::lemma_fundamental_div_mod_converse(d, 10 * p, 0, d);
}

/// Shifted twenty places or more to the left, a non-zero number is past
/// 2^63.
proof fn lemma_scaled_far_left(d: nat, s: int)
    requires
        s >= 20,
    ensures
        d == 0 ==> scaled(d, s) == 0,
        d > 0 ==> scaled(d, s) > 9_223_372_036_854_775_808,
{
    lemma_pow10_mono(20, s as nat);
    assert(pow10(20) == 100_000_000_000_000_000_000) by {
        reveal_with_fuel(pow10, 21);
    }
    if d > 0 {
        assert(d * pow10(s as nat) >= pow10(s as nat)) by (nonlinear_arith)
            requires d >= 1, pow10(s as nat) >= 0;
    }
}

/// The shape a scan finds at the start of `b`: whole digits up to `kk`, then
/// (when `has_dot`) a point and fraction digits up to `me`.
pub open spec fn mantissa_shape(b: Seq<char>, kk: int, me: int, has_dot: bool) -> bool {
    &&& 0 <= kk <= me <= b.len()
    &&& all_digits(b.subrange(0, kk))
    &&& (has_dot ==> kk < me && b[kk] == '.' && all_digits(b.subrange(kk + 1, me)))
    &&& (!has_dot ==> kk == me)
}

proof fn lemma_shape_no_mark(b: Seq<char>, kk: int, me: int, has_dot: bool)
    requires
        mantissa_shape(b, kk, me, has_dot),
    ensures
        forall|j: int| 0 <= j < me ==> b[j] != 'e' && b[j] != 'E',
        forall|j: int| 0 <= j < kk ==> b[j] != '.',
{
    assert forall|j: int| 0 <= j < me implies b[j] != 'e' && b[j] != 'E' && (j < kk ==> b[j] != '.') by {
        if j < kk {
            assert(b.subrange(0, kk)[j] == b[j]);
            assert(is_digit(b.subrange(0, kk)[j]));
        } else if j > kk {
            assert(b.subrange(kk + 1, me)[j - kk - 1] == b[j]);
            assert(is_digit(b.subrange(kk + 1, me)[j - kk - 1]));
        }
    }
}

/// A character after the mantissa that is neither an exponent mark nor, the
/// first time, a point: not a number.
proof fn lemma_stray(b: Seq<char>, kk: int, me: int, has_dot: bool)
    requires
        mantissa_shape(b, kk, me, has_dot),
        me < b.len(),
        !is_digit(b[me]),
        b[me] != 'e' && b[me] != 'E',
        !has_dot ==> b[me] != '.',
    ensures
        unsigned_micros(b) is None,
{
    reveal(unsigned_micros);
    lemma_shape_no_mark(b, kk, me, has_dot);
    assert forall|j: int| 0 <= j < me + 1 implies b[j] != 'e' && b[j] != 'E' by {}
    lemma_first_exp_upto(b, me + 1);
    let fe = first_exp(b);
    let m = b.take(fe);
    assert(m[me] == b[me]);
    if has_dot {
        assert forall|j: int| 0 <= j < kk implies m[j] != '.' by { assert(m[j] == b[j]); }
        lemma_first_dot_at(m, kk);
        assert(m.skip(kk + 1)[me - kk - 1] == m[me]);
    } else {
        assert forall|j: int| 0 <= j < kk + 1 implies m[j] != '.' by { assert(m[j] == b[j]); }
        lemma_first_dot(m);
        assert(first_dot(m) > me) by {
            if first_dot(m) <= me {
                assert(m[first_dot(m)] == '.');
            }
        }
        assert(m.take(first_dot(m))[me] == m[me]);
    }
}

/// The mantissa a scan found, when an exponent mark or the end follows it.
proof fn lemma_mantissa(b: Seq<char>, kk: int, me: int, has_dot: bool)
    requires
        mantissa_shape(b, kk, me, has_dot),
        me == b.len() || b[me] == 'e' || b[me] == 'E',
    ensures
        first_exp(b) == me,
        mantissa_digits(b.take(me)) == b.subrange(0, kk) + (if has_dot { b.subrange(kk + 1, me) } else { Seq::empty() }),
        fraction_len(b.take(me)) == if has_dot { me - kk - 1 } else { 0 },
        unsigned_decimal_ok(b.take(me)) <==> kk + (if has_dot { me - kk - 1 } else { 0 }) > 0,
{
    lemma_shape_no_mark(b, kk, me, has_dot);
    lemma_first_exp_at(b, me);
    let m = b.take(me);
    if has_dot {
        assert forall|j: int| 0 <= j < kk implies m[j] != '.' by { assert(m[j] == b[j]); }
        lemma_first_dot_at(m, kk);
        assert(m.take(kk) == b.subrange(0, kk));
        assert(m.skip(kk + 1) == b.subrange(kk + 1, me));
    } else {
        assert forall|j: int| 0 <= j < m.len() implies m[j] != '.' by { assert(m[j] == b[j]); }
        lemma_first_dot_at(m, m.len() as int);
        assert(m == b.subrange(0, kk));
        assert(m.take(m.len() as int) == m);
        assert(b.subrange(0, kk) + Seq::<char>::empty() == b.subrange(0, kk));
    }
}

/// An exponent mark followed by anything but a signed run of digits: not a
/// number.
proof fn lemma_bad_exponent(b: Seq<char>, me: int)
    requires
        first_exp(b) == me < b.len(),
        !exponent_ok(b.skip(me + 1)),
    ensures
        unsigned_micros(b) is None,
{
    reveal(unsigned_micros);
}

proof fn lemma_no_digits(b: Seq<char>, me: int)
    requires
        first_exp(b) == me,
        !unsigned_decimal_ok(b.take(me)),
    ensures
        unsigned_micros(b) is None,
{
    reveal(unsigned_micros);
}

fn push_range(out: &mut Vec<char>, c: &Vec<char>, lo: usize, hi: usize)
    requires
        lo <= hi <= c.len(),
    ensures
        final(out)@ == old(out)@ + c@.subrange(lo as int, hi as int),
{
    let mut i = lo;
    while i < hi
        invariant
            lo <= i <= hi <= c.len(),
            out@ == old(out)@ + c@.subrange(lo as int, i as int),
        decreases hi - i,
    {
        out.push(c[i]);
        proof {
            assert(c@.subrange(lo as int, i + 1) == c@.subrange(lo as int, i as int).push(c@[i as int]));
        }
        i += 1;
    }
}

/// The shift computed from a capped exponent leads to the same outcome as
/// the exact one: a capped exponent is already far beyond any digit count.
proof fn lemma_scale_matches(b: Seq<char>, me: int, g: Seq<char>, sc: int)
    requires
        0 <= me <= b.len(),
        first_exp(b) == me,
        unsigned_decimal_ok(b.take(me)),
        me == b.len() || exponent_ok(b.skip(me + 1)),
        g == mantissa_digits(b.take(me)),
        all_digits(g),
        g.len() <= 0xffff_ffff_ffff_ffff,
        0 <= fraction_len(b.take(me)) <= g.len(),
        me == b.len() ==> sc == 6 - fraction_len(b.take(me)),
        me < b.len() ==> sc == 6 + capped_exponent(b.skip(me + 1)) - fraction_len(b.take(me)),
    ensures
        unsigned_micros(b) matches Some(u) && u >= 0 && (
            if scaled(digits_val(g) as nat, sc) <= 9_223_372_036_854_775_808 {
                u == scaled(digits_val(g) as nat, sc)
            } else {
                u > 9_223_372_036_854_775_808
            }),
{
    reveal(unsigned_micros);
    let m = b.take(me);
    let st = 6 + (if me == b.len() { 0 } else { exponent_val(b.skip(me + 1)) }) - fraction_len(m);
    lemma_digits_bound(g);
    lemma_scaled_nonneg(digits_val(g) as nat, st);
    if me < b.len() {
        let x = b.skip(me + 1);
        let v = digits_val(sign_stripped(x));
        lemma_digits_val_nonneg(sign_stripped(x));
        if v >= 0x1_0000_0000_0000_0000_0000_0000 {
            if x.len() > 0 && x[0] == '-' {
                lemma_scaled_far_right(g, sc);
                lemma_scaled_far_right(g, st);
            } else {
                lemma_scaled_far_left(digits_val(g) as nat, sc);
                lemma_scaled_far_left(digits_val(g) as nat, st);
            }
        }
    }
}

/// An exponent's value with its magnitude saturated at 2^100.
pub open spec fn capped_exponent(x: Seq<char>) -> int {
    let v = digits_val(sign_stripped(x));
    let vc = if v < 0x1_0000_0000_0000_0000_0000_0000 { v } else { 0x1_0000_0000_0000_0000_0000_0000 };
    if x.len() > 0 && x[0] == '-' { -vc } else { vc }
}

/// Whole digits, then an optional point and fraction digits, from `start`.
fn scan_mantissa(c: &Vec<char>, start: usize, hi: usize) -> (r: (usize, bool, usize))
    requires
        start <= hi <= c.len(),
    ensures
        start <= r.0 <= r.2 <= hi,
        mantissa_shape(c@.subrange(start as int, hi as int), r.0 - start, r.2 - start, r.1),
        r.2 < hi ==> !is_digit(c@[r.2 as int]) && (!r.1 ==> c@[r.2 as int] != '.'),
{
    let ghost b = c@.subrange(start as int, hi as int);
    let (k, _w) = scan_int_digits(c, start, hi);
    let has_dot = k < hi && c[k] == '.';
    let mut mend = k;
    if has_dot {
        let (e1, _f) = scan_int_digits(c, k + 1, hi);
        mend = e1;
    }
    proof {
        let kk = (k - start) as int;
        let me = (mend - start) as int;
        assert(b.subrange(0, kk) == c@.subrange(start as int, k as int));
        if has_dot {
            assert(b.subrange(kk + 1, me) == c@.subrange(k + 1, mend as int));
            assert(b[kk] == c@[k as int]);
        }
    }
    (k, has_dot, mend)
}

/// The exponent after the mark at `c[mark]`: its value with the magnitude
/// saturated at 2^100, or nothing when the text after the mark is not a
/// signed run of digits.
fn read_exponent(c: &Vec<char>, mark: usize, hi: usize) -> (r: Option<i128>)
    requires
        mark < hi <= c.len(),
    ensures
        r is None <==> !exponent_ok(c@.subrange(mark + 1, hi as int)),
        r matches Some(e) ==> e == capped_exponent(c@.subrange(mark + 1, hi as int))
            && -0x1_0000_0000_0000_0000_0000_0000 <= e <= 0x1_0000_0000_0000_0000_0000_0000,
{
    let ghost x = c@.subrange(mark + 1, hi as int);
    let mut xs = mark + 1;
    let mut eneg = false;
    if xs < hi && (c[xs] == '+' || c[xs] == '-') {
        eneg = c[xs] == '-';
        xs = xs + 1;
    }
    proof {
        assert(sign_stripped(x) == c@.subrange(xs as int, hi as int));
        assert(eneg == (x.len() > 0 && x[0] == '-'));
    }
    let (xe, _ev) = scan_int_digits(c, xs, hi);
    if xe < hi || xe == xs {
        proof {
            if xe < hi {
                assert(sign_stripped(x)[xe - xs] == c@[xe as int]);
            }
        }
        return None;
    }
    let ev = capped_digits(c, xs, hi, 0x1_0000_0000_0000_0000_0000_0000);
    proof {
        lemma_digits_val_nonneg(c@.subrange(xs as int, hi as int));
    }
    Some(if eneg { 0 - (ev as i128) } else { ev as i128 })
}

/// Reads number text `c[lo..hi]` as `f64::from_str` would (optional sign,
/// digits with at most one point, optional exponent) to micros, rounded half
/// to even; `None` when it is not such a number or its magnitude exceeds
/// 2^63 micros.
#[verifier::rlimit(100)]
#[verifier::spinoff_prover]
pub fn parse_decimal(c: &Vec<char>, lo: usize, hi: usize) -> (r: Option<i128>)
    requires
        lo <= hi <= c.len(),
    ensures
        r == (match decimal_micros(c@.subrange(lo as int, hi as int)) {
            Some(v) => if within_i64_magnitude(v) { Some(v as i128) } else { None },
            None => None,
        }),
{
    let ghost cs = c@.subrange(lo as int, hi as int);
    let mut start = lo;
    let mut neg = false;
    if lo < hi && (c[lo] == '+' || c[lo] == '-') {
        neg = c[lo] == '-';
        start = lo + 1;
    }
    let ghost b = c@.subrange(start as int, hi as int);
    assert(b == sign_stripped(cs));
    assert(neg == (cs.len() > 0 && cs[0] == '-'));
    let (k, has_dot, mend) = scan_mantissa(c, start, hi);
    let ghost kk = (k - start) as int;
    let ghost me = (mend - start) as int;
    proof {
        if me < b.len() {
            assert(b[me] == c@[mend as int]);
        }
    }
    let mut e: i128 = 0;
    if mend < hi {
        if !(c[mend] == 'e' || c[mend] == 'E') {
            proof {
                lemma_stray(b, kk, me, has_dot);
            }
            return None;
        }
        proof {
            lemma_mantissa(b, kk, me, has_dot);
            assert(b.skip(me + 1) == c@.subrange(mend + 1, hi as int));
        }
        match read_exponent(c, mend, hi) {
            None => {
                proof {
                    lemma_bad_exponent(b, me);
                }
                return None;
            },
            Some(v) => e = v,
        }
    } else {
        proof {
            lemma_mantissa(b, kk, me, has_dot);
        }
    }
    let ghost m = b.take(me);
    let nd = (k - start) + if has_dot { mend - k - 1 } else { 0 };
    if nd == 0 {
        proof {
            lemma_no_digits(b, me);
        }
        return None;
    }
    let mut g: Vec<char> = Vec::new();
    push_range(&mut g, c, start, k);
    let mut flen: usize = 0;
    if has_dot {
        push_range(&mut g, c, k + 1, mend);
        flen = mend - k - 1;
    }
    proof {
        assert(b.subrange(0, kk) == c@.subrange(start as int, k as int));
        if has_dot {
            assert(b.subrange(kk + 1, me) == c@.subrange(k + 1, mend as int));
            assert(g@ == b.subrange(0, kk) + b.subrange(kk + 1, me));
        } else {
            assert(g@ == b.subrange(0, kk) + Seq::<char>::empty());
        }
        lemma_mantissa_vec(b, kk, me, has_dot, g@);
    }
    let sc: i128 = 6 + e - flen as i128;
    proof {
        lemma_scale_matches(b, me, g@, sc as int);
    }
    match round_scaled(&g, sc) {
        None => None,
        Some(mag) => {
            if neg {
                Some(0 - (mag as i128))
            } else {
                Some(mag as i128)
            }
        },
    }
}

proof fn lemma_mantissa_vec(b: Seq<char>, kk: int, me: int, has_dot: bool, g: Seq<char>)
    requires
        mantissa_shape(b, kk, me, has_dot),
        g == b.subrange(0, kk) + (if has_dot { b.subrange(kk + 1, me) } else { Seq::empty() }),
    ensures
        all_digits(g),
{
    let w = b.subrange(0, kk);
    assert forall|j: int| 0 <= j < g.len() implies is_digit(#[trigger] g[j]) by {
        if j < w.len() {
            assert(g[j] == w[j]);
        } else {
            assert(g[j] == b.subrange(kk + 1, me)[j - w.len()]);
        }
    }
}

/// `s` with the money decoration characters removed.
fn remove_noise(s: &Vec<char>, lo: usize, hi: usize) -> (r: Vec<char>)
    requires
        lo <= hi <= s.len(),
    ensures
        r@ == without_noise(s@.subrange(lo as int, hi as int)),
{
    let mut out: Vec<char> = Vec::new();
    let mut j = lo;
    while j < hi
        invariant
            lo <= j <= hi <= s.len(),
            out@ == without_noise(s@.subrange(lo as int, j as int)),
        decreases hi - j,
    {
        proof {
            assert(s@.subrange(lo as int, j + 1).drop_last() == s@.subrange(lo as int, j as int));
        }
        let c = s[j];
        if !(c == '$' || c == ',' || c == ' ' || c == '\u{a0}') {
            out.push(c);
        }
        j += 1;
    }
    out
}

/// Reads a money-ish cell to micros: `$1,234.56` is 1234560000. Currency
/// marks, thousands separators, spaces and a trailing `USD` are ignored, and
/// both `-123` and `(123)` read as negative. `None` when the cell is blank,
/// what is left is not a number (exponents allowed, see [`decimal_micros`]),
/// or the value does not fit.
pub fn parse_money(s: &str) -> (r: Option<i64>)
    ensures
        r == parsed_money(s@),
{
    let cs = chars_of(s);
    let (lo, hi) = trim_bounds(&cs);
    let ghost t = trim(s@);
    if lo == hi {
        return None;
    }
    let paren = cs[lo] == '(' && cs[hi - 1] == ')';
    proof {
        assert(t[0] == cs@[lo as int]);
        assert(t.last() == cs@[hi - 1]);
    }
    let a = strip_leading_start(&cs, lo, hi, '(');
    let close = vec![')'];
    let e = strip_suffixes_end(&cs, a, hi, &close);
    let cleaned = remove_noise(&cs, a, e);
    let usd_upper = vec!['U', 'S', 'D'];
    let usd_lower = vec!['u', 's', 'd'];
    proof {
        assert(close@ == seq![')']);
        reveal_strlit("USD");
        reveal_strlit("usd");
        assert(usd_upper@ == "USD"@);
        assert(usd_lower@ == "usd"@);
    }
    let e1 = strip_suffixes_end(&cleaned, 0, cleaned.len(), &usd_upper);
    let e2 = strip_suffixes_end(&cleaned, 0, e1, &usd_lower);
    proof {
        assert(cleaned@.subrange(0, cleaned.len() as int) == cleaned@);
        assert(cleaned@.subrange(0, e2 as int) == money_core(s@));
    }
    match parse_decimal(&cleaned, 0, e2) {
        None => None,
        Some(v) => {
            let w: i128 = if paren { if v < 0 { v } else { -v } } else { v };
            if w < -9_223_372_036_854_775_808 || w > 9_223_372_036_854_775_807 {
                None
            } else {
                Some(w as i64)
            }
        },
    }
}

/// Empty text is not an amount.
pub proof fn lemma_empty_not_amount()
    ensures
        amount_of(Seq::<char>::empty()) is None,
{
    reveal(unsigned_micros);
    assert(trim(Seq::<char>::empty()) =~= Seq::<char>::empty());
    assert(Seq::<char>::empty().take(0) =~= Seq::<char>::empty());
}

/// What [`parse_amount`] returns for `s`: the trimmed text read as a number
/// (see [`decimal_micros`]), in micros, when it is one and fits an `i64`.
pub open spec fn amount_of(s: Seq<char>) -> Option<i64> {
    match decimal_micros(trim(s)) {
        Some(v) => if fits_i64(v) { Some(v as i64) } else { None },
        None => None,
    }
}

/// Reads a typed-in amount such as `12.5`, `-3`, `.25` or `1e3` to micros,
/// rounded to the nearest micro, ignoring surrounding whitespace.
pub fn parse_amount(s: &str) -> (r: Option<i64>)
    ensures
        r == amount_of(s@),
{
    let cs = chars_of(s);
    let (lo, hi) = trim_bounds(&cs);
    match parse_decimal(&cs, lo, hi) {
        None => None,
        Some(v) => {
            if v > 9_223_372_036_854_775_807 {
                None
            } else {
                Some(v as i64)
            }
        },
    }
}

/// The digits of a typed-in count: the trimmed text after an optional `+`.
pub open spec fn count_digits(s: Seq<char>) -> Seq<char> {
    let t = trim(s);
    if t.len() > 0 && t[0] == '+' { t.drop_first() } else { t }
}

/// What [`parse_count`] returns for `s`: a whole number that fits a `u32`,
/// as `u32::from_str` reads the trimmed text.
pub open spec fn count_of(s: Seq<char>) -> Option<u32> {
    let b = count_digits(s);
    if b.len() > 0 && all_digits(b) && digits_val(b) <= u32::MAX {
        Some(digits_val(b) as u32)
    } else {
        None
    }
}

proof fn lemma_digits_val_nonneg(s: Seq<char>)
    requires
        all_digits(s),
    ensures
        digits_val(s) >= 0,
    decreases s.len(),
{
    if s.len() > 0 {
        lemma_digits_val_nonneg(s.drop_last());
    }
}

/// The value of the digit run `cs[start..hi]`, capped at 2^32 (past which
/// the exact value no longer matters); `None` when a character is not a
/// digit.
fn scan_capped(cs: &Vec<char>, start: usize, hi: usize) -> (r: Option<u64>)
    requires
        start <= hi <= cs.len(),
    ensures
        ({
            let b = cs@.subrange(start as int, hi as int);
            r == if all_digits(b) {
                Some((if digits_val(b) >= 0x1_0000_0000 { 0x1_0000_0000 } else { digits_val(b) }) as u64)
            } else {
                None
            }
        }),
{
    let ghost b = cs@.subrange(start as int, hi as int);
    let mut acc: u64 = 0;
    let mut k = start;
    while k < hi
        invariant
            start <= k <= hi <= cs.len(),
            b == cs@.subrange(start as int, hi as int),
            all_digits(cs@.subrange(start as int, k as int)),
            acc == (if digits_val(cs@.subrange(start as int, k as int)) >= 0x1_0000_0000 {
                0x1_0000_0000
            } else {
                digits_val(cs@.subrange(start as int, k as int))
            }),
        decreases hi - k,
    {
        let c = cs[k];
        if !('0' <= c && c <= '9') {
            proof {
                assert(b[k - start] == c);
                assert(!is_digit(c));
                assert(!all_digits(b));
            }
            return None;
        }
        let ghost pre = cs@.subrange(start as int, k as int);
        let ghost post = cs@.subrange(start as int, k + 1);
        proof {
            assert(post.drop_last() == pre);
            assert(post.last() == c);
            assert(all_digits(post)) by {
                assert forall|i: int| 0 <= i < post.len() implies is_digit(#[trigger] post[i]) by {
                    if i < pre.len() {
                        assert(post[i] == pre[i]);
                    }
                }
            }
            lemma_digits_val_nonneg(pre);
        }
        let d = (c as u32 - '0' as u32) as u64;
        let next = acc * 10 + d;
        acc = if next >= 0x1_0000_0000 { 0x1_0000_0000 } else { next };
        k += 1;
    }
    Some(acc)
}

/// Reads a typed-in count such as `3` or ` +12 `.
pub fn parse_count(s: &str) -> (r: Option<u32>)
    ensures
        r == count_of(s@),
{
    let cs = chars_of(s);
    let (lo, hi) = trim_bounds(&cs);
    let mut start = lo;
    if lo < hi && cs[lo] == '+' {
        start = lo + 1;
    }
    let ghost b = cs@.subrange(start as int, hi as int);
    proof {
        let t = trim(s@);
        if lo < hi && cs@[lo as int] == '+' {
            assert(t[0] == cs@[lo as int]);
            assert(b == t.drop_first());
        } else {
            assert(b == t);
        }
        assert(b == count_digits(s@));
    }
    if start == hi {
        return None;
    }
    proof {
        if all_digits(b) {
            lemma_digits_val_nonneg(b);
        }
    }
    match scan_capped(&cs, start, hi) {
        Some(v) => {
            if v > 0xFFFF_FFFF {
                None
            } else {
                Some(v as u32)
            }
        },
        None => None,
    }
}

/// The digits of a typed-in whole number: the trimmed text after an
/// optional sign.
pub open spec fn int_digits(s: Seq<char>) -> Seq<char> {
    let t = trim(s);
    if t.len() > 0 && (t[0] == '+' || t[0] == '-') { t.drop_first() } else { t }
}

/// What [`parse_int`] returns for `s`: a signed whole number that fits an
/// `i32`, as `i32::from_str` reads the trimmed text.
pub open spec fn int_of(s: Seq<char>) -> Option<i32> {
    let t = trim(s);
    let b = int_digits(s);
    let v = if t.len() > 0 && t[0] == '-' { -digits_val(b) } else { digits_val(b) };
    if b.len() > 0 && all_digits(b) && i32::MIN <= v <= i32::MAX {
        Some(v as i32)
    } else {
        None
    }
}

/// Reads a typed-in whole number such as `-5` or ` +12 `.
pub fn parse_int(s: &str) -> (r: Option<i32>)
    ensures
        r == int_of(s@),
{
    let cs = chars_of(s);
    let (lo, hi) = trim_bounds(&cs);
    let mut start = lo;
    let neg = lo < hi && cs[lo] == '-';
    if lo < hi && (cs[lo] == '+' || cs[lo] == '-') {
        start = lo + 1;
    }
    let ghost b = cs@.subrange(start as int, hi as int);
    proof {
        let t = trim(s@);
        if lo < hi {
            assert(t[0] == cs@[lo as int]);
        }
        if lo < hi && (cs@[lo as int] == '+' || cs@[lo as int] == '-') {
            assert(b == t.drop_first());
        } else {
            assert(b == t);
        }
        assert(b == int_digits(s@));
        assert(neg == (t.len() > 0 && t[0] == '-'));
    }
    if start == hi {
        return None;
    }
    proof {
        if all_digits(b) {
            lemma_digits_val_nonneg(b);
        }
    }
    match scan_capped(&cs, start, hi) {
        Some(v) => {
            if neg {
                if v > 0x8000_0000 {
                    None
                } else {
                    Some((0 - (v as i64)) as i32)
                }
            } else if v > 0x7FFF_FFFF {
                None
            } else {
                Some(v as i32)
            }
        },
        None => None,
    }
}

/// Share counts read like money, so fractional shares survive long enough
/// to be reported.
pub fn parse_quantity(s: &str) -> (r: Option<i64>)
    ensures
        r == parsed_money(s@),
{
    parse_money(s)
}

/// `n / d` rounded to the nearest integer, halves going to the even neighbour.
pub open spec fn round_half_even(n: nat, d: nat) -> nat
    recommends
        d > 0,
{
    let q = n / d;
    let r = n % d;
    if 2 * r > d || (2 * r == d && q % 2 == 1) {
        q + 1
    } else {
        q
    }
}

/// The exact quotient `n / d` (`d != 0`) rounded half-to-even, sign included.
pub open spec fn div_round(n: int, d: int) -> int {
    let m = round_half_even(abs(n) as nat, abs(d) as nat) as int;
    if (n < 0) != (d < 0) { -m } else { m }
}

/// A hundredth of an `i64`, rounded, is well within `i64`.
pub proof fn lemma_div_round_hundredth(v: int)
    requires
        fits_i64(v),
    ensures
        -100_000_000_000_000_000 <= div_round(v, 100) <= 100_000_000_000_000_000,
{
    let a = abs(v);
    assert(a / 100 <= 92_233_720_368_547_758) by (nonlinear_arith)
        requires 0 <= a <= 9_223_372_036_854_775_808;
}

pub open spec fn abs(v: int) -> int {
    if v < 0 { -v } else { v }
}

/// `n.round()`: to the nearest integer, halves away from zero.
pub open spec fn round_half_away(n: int, d: nat) -> int
    recommends
        d > 0,
{
    let m = ((abs(n) + d / 2) / (d as int)) as int;
    if n < 0 { -m } else { m }
}

pub open spec fn digit_char(d: int) -> char {
    if d == 0 { '0' } else if d == 1 { '1' } else if d == 2 { '2' } else if d == 3 { '3' }
    else if d == 4 { '4' } else if d == 5 { '5' } else if d == 6 { '6' } else if d == 7 { '7' }
    else if d == 8 { '8' } else { '9' }
}

fn digit_char_exec(d: u32) -> (c: char)
    requires
        d < 10,
    ensures
        c == digit_char(d as int),
{
    if d == 0 { '0' } else if d == 1 { '1' } else if d == 2 { '2' } else if d == 3 { '3' }
    else if d == 4 { '4' } else if d == 5 { '5' } else if d == 6 { '6' } else if d == 7 { '7' }
    else if d == 8 { '8' } else { '9' }
}

/// Decimal digits of `n`, most significant first, without leading zeros.
pub open spec fn digits_text(n: nat) -> Seq<char>
    decreases n,
{
    if n < 10 {
        seq![digit_char(n as int)]
    } else {
        digits_text(n / 10).push(digit_char((n % 10) as int))
    }
}

/// The last `w` decimal digits of `n`, zero-padded.
pub open spec fn padded_digits(n: nat, w: nat) -> Seq<char>
    decreases w,
{
    if w == 0 {
        Seq::empty()
    } else {
        padded_digits(n / 10, (w - 1) as nat).push(digit_char((n % 10) as int))
    }
}

/// The shortest plain decimal naming `v` micros exactly: `100.5`, `-3`,
/// `0.25` (how `{}` prints such a value).
pub open spec fn decimal_text(v: int) -> Seq<char> {
    let m = abs(v) as nat;
    let whole = digits_text(m / 1_000_000);
    let frac = m % 1_000_000;
    let sign: Seq<char> = if v < 0 { seq!['-'] } else { Seq::empty() };
    if frac == 0 {
        sign + whole
    } else {
        sign + whole + seq!['.'] + strip_suffixes(padded_digits(frac, 6), seq!['0'])
    }
}

/// `v` micros printed with exactly four decimals, rounded half-to-even
/// (how `{:.4}` prints such a value).
pub open spec fn fixed4_text(v: int) -> Seq<char> {
    let q = round_half_even(abs(v) as nat, 100);
    let sign: Seq<char> = if v < 0 { seq!['-'] } else { Seq::empty() };
    sign + digits_text(q / 10_000) + seq!['.'] + padded_digits(q % 10_000, 4)
}

pub fn push_digits(out: &mut Vec<char>, n: u128)
    ensures
        final(out)@ == old(out)@ + digits_text(n as nat),
    decreases n,
{
    if n >= 10 {
        push_digits(out, n / 10);
    }
    let d = (n % 10) as u32;
    out.push(digit_char_exec(d));
}

pub(crate) fn push_padded(out: &mut Vec<char>, n: u128, w: usize)
    ensures
        final(out)@ == old(out)@ + padded_digits(n as nat, w as nat),
    decreases w,
{
    if w == 0 {
        assert(old(out)@ + padded_digits(n as nat, 0) == old(out)@);
        return;
    }
    push_padded(out, n / 10, w - 1);
    let d = (n % 10) as u32;
    out.push(digit_char_exec(d));
}

/// Characters of `cs` into a `String`.
pub fn string_from(cs: &Vec<char>) -> (r: String)
    ensures
        r@ == cs@,
{
    let r = string_of(cs, 0, cs.len());
    assert(cs@.subrange(0, cs.len() as int) == cs@);
    r
}

/// The shortest decimal that names `v` micros exactly (see [`decimal_text`]).
pub fn fmt_decimal(v: i64) -> (r: String)
    ensures
        r@ == decimal_text(v as int),
{
    let m: u128 = if v < 0 { (0 - (v as i128)) as u128 } else { v as u128 };
    let mut out: Vec<char> = Vec::new();
    if v < 0 {
        out.push('-');
    }
    let ghost sign = out@;
    push_digits(&mut out, m / 1_000_000);
    let frac = m % 1_000_000;
    if frac != 0 {
        out.push('.');
        let mut f: Vec<char> = Vec::new();
        push_padded(&mut f, frac, 6);
        let zero = vec!['0'];
        let e = strip_suffixes_end(&f, 0, f.len(), &zero);
        proof {
            assert(f@.subrange(0, f.len() as int) == f@);
            assert(zero@ == seq!['0']);
        }
        let mut j: usize = 0;
        let ghost before = out@;
        while j < e
            invariant
                j <= e <= f.len(),
                out@ == before + f@.subrange(0, j as int),
            decreases e - j,
        {
            out.push(f[j]);
            proof {
                assert(f@.subrange(0, j + 1) == f@.subrange(0, j as int).push(f@[j as int]));
            }
            j += 1;
        }
    }
    proof {
        if v < 0 {
            assert(sign == seq!['-']);
        } else {
            assert(sign == Seq::<char>::empty());
        }
    }
    string_from(&out)
}

/// `v` micros with exactly four decimals (see [`fixed4_text`]).
pub fn fmt_fixed4(v: i128) -> (r: String)
    requires
        v > i128::MIN,
    ensures
        r@ == fixed4_text(v as int),
{
    let m: u128 = if v < 0 { (0 - v) as u128 } else { v as u128 };
    let q0 = m / 100;
    let rem = m % 100;
    let q: u128 = if 2 * rem > 100 || (2 * rem == 100 && q0 % 2 == 1) { q0 + 1 } else { q0 };
    let mut out: Vec<char> = Vec::new();
    if v < 0 {
        out.push('-');
    }
    let ghost sign = out@;
    push_digits(&mut out, q / 10_000);
    out.push('.');
    push_padded(&mut out, q % 10_000, 4);
    proof {
        if v < 0 {
            assert(sign == seq!['-']);
        } else {
            assert(sign == Seq::<char>::empty());
        }
    }
    string_from(&out)
}

// ── Printed amounts read back ────────────────────────────────────────────────

/// A digit is none of the characters a money cell decorates numbers with.
pub open spec fn plain_char(c: char) -> bool {
    is_digit(c) || c == '.' || c == '-'
}

proof fn lemma_digit_char(d: int)
    requires
        0 <= d < 10,
    ensures
        is_digit(digit_char(d)),
        digit_val(digit_char(d)) == d,
{
}

proof fn lemma_digits_text(n: nat)
    ensures
        all_digits(digits_text(n)),
        digits_val(digits_text(n)) == n,
        digits_text(n).len() >= 1,
    decreases n,
{
    lemma_digit_char((n % 10) as int);
    if n < 10 {
        let s = seq![digit_char(n as int)];
        assert(n % 10 == n);
        assert(s.drop_last() == Seq::<char>::empty());
        assert(digits_val(s) == digits_val(s.drop_last()) * 10 + digit_val(s.last()));
        assert(digits_text(n) == s);
    } else {
        lemma_digits_text(n / 10);
        let d = digits_text(n / 10);
        let s = d.push(digit_char((n % 10) as int));
        assert(digits_text(n) == s);
        assert(s.drop_last() == d);
        assert(s.last() == digit_char((n % 10) as int));
        assert(digits_val(s) == digits_val(d) * 10 + digit_val(s.last()));
        assert((n / 10) * 10 + n % 10 == n);
        assert forall|i: int| 0 <= i < s.len() implies is_digit(#[trigger] s[i]) by {
            if i < d.len() {
                assert(s[i] == d[i]);
            }
        }
    }
}

pub(crate) proof fn lemma_padded_digits(n: nat, w: nat)
    ensures
        all_digits(padded_digits(n, w)),
        padded_digits(n, w).len() == w,
        digits_val(padded_digits(n, w)) == (n as int) % pow10(w),
    decreases w,
{
    if w > 0 {
        lemma_digit_char((n % 10) as int);
        lemma_padded_digits(n / 10, (w - 1) as nat);
        let d = padded_digits(n / 10, (w - 1) as nat);
        let s = d.push(digit_char((n % 10) as int));
        assert(s.drop_last() == d);
        assert forall|i: int| 0 <= i < s.len() implies is_digit(#[trigger] s[i]) by {
            if i < d.len() {
                assert(s[i] == d[i]);
            }
        }
        let p = pow10((w - 1) as nat);
        assert(p > 0) by {
            lemma_pow10_positive((w - 1) as nat);
        }
        let m = n as int;
        vstd::arithmetic::div_mod::lemma_mod_breakdown(m, 10, p);
        assert(10 * ((m / 10) % p) == (m / 10) % p * 10);
        assert(pow10(w) == 10 * p);
    }
}

proof fn lemma_pow10_positive(n: nat)
    ensures
        pow10(n) > 0,
    decreases n,
{
    if n > 0 {
        lemma_pow10_positive((n - 1) as nat);
    }
}

/// Text made of digits, points and minus signs has nothing to strip as
/// decoration.
proof fn lemma_without_noise_plain(s: Seq<char>)
    requires
        forall|i: int| 0 <= i < s.len() ==> plain_char(#[trigger] s[i]),
    ensures
        without_noise(s) == s,
    decreases s.len(),
{
    if s.len() > 0 {
        let d = s.drop_last();
        assert forall|i: int| 0 <= i < d.len() implies plain_char(#[trigger] d[i]) by {
            assert(d[i] == s[i]);
        }
        lemma_without_noise_plain(d);
        assert(plain_char(s[s.len() - 1]));
        assert(d.push(s.last()) == s);
    }
}

/// Text that starts and ends with a character other than whitespace is its
/// own trimmed form.
pub(crate) proof fn lemma_trim_noop(s: Seq<char>)
    requires
        s.len() > 0,
        !is_ws(s[0]),
        !is_ws(s.last()),
    ensures
        trim(s) == s,
{
    assert(trim_start(s) == s);
}

/// Digits, a point, digits: no exponent mark, and the point first.
proof fn lemma_point_body(whole: Seq<char>, frac: Seq<char>)
    requires
        all_digits(whole),
        all_digits(frac),
    ensures
        forall|j: int| 0 <= j < (whole + seq!['.'] + frac).len()
            ==> (whole + seq!['.'] + frac)[j] != 'e' && (whole + seq!['.'] + frac)[j] != 'E',
        first_dot(whole + seq!['.'] + frac) == whole.len(),
        fraction_len(whole + seq!['.'] + frac) == frac.len(),
{
    let body = whole + seq!['.'] + frac;
    assert forall|j: int| 0 <= j < body.len() implies body[j] != 'e' && body[j] != 'E' by {
        if j < whole.len() {
            assert(body[j] == whole[j]);
            assert(is_digit(whole[j]));
        } else if j > whole.len() {
            assert(body[j] == frac[j - whole.len() - 1]);
            assert(is_digit(frac[j - whole.len() - 1]));
        }
    }
    assert forall|j: int| 0 <= j < whole.len() implies body[j] != '.' by {
        assert(body[j] == whole[j]);
        assert(is_digit(whole[j]));
    }
    lemma_first_dot_at(body, whole.len() as int);
}

/// Digits alone: no exponent mark and no point.
proof fn lemma_digit_body(whole: Seq<char>)
    requires
        all_digits(whole),
    ensures
        forall|j: int| 0 <= j < whole.len() ==> whole[j] != 'e' && whole[j] != 'E',
        fraction_len(whole) == 0,
{
    assert forall|j: int| 0 <= j < whole.len() implies whole[j] != 'e' && whole[j] != 'E' && whole[j] != '.' by {
        assert(is_digit(whole[j]));
    }
    lemma_first_dot_at(whole, whole.len() as int);
}

/// `v` micros printed to four decimals reads back as `v` rounded to the
/// nearest hundred micros (halves to even): what the import's review step
/// shows of a divided-through total cost is what the row resolves to.
#[verifier::rlimit(100)]
#[verifier::spinoff_prover]
pub proof fn fixed4_reads_back(v: int)
    requires
        fits_i64(v),
    ensures
        parsed_money(fixed4_text(v)) == Some(
            ((if v < 0 { -1int } else { 1int }) * (round_half_even(abs(v) as nat, 100) * 100)) as i64,
        ),
{
    let q = round_half_even(abs(v) as nat, 100);
    let a = q / 10_000;
    let b = q % 10_000;
    let whole = digits_text(a);
    let frac = padded_digits(b, 4);
    let sign: Seq<char> = if v < 0 { seq!['-'] } else { Seq::empty() };
    let body = whole + seq!['.'] + frac;
    let t = sign + body;
    assert(t == fixed4_text(v));
    lemma_digits_text(a);
    lemma_padded_digits(b, 4);
    assert(pow10(4) == 10_000) by {
        assert(pow10(0) == 1);
        assert(pow10(1) == 10);
        assert(pow10(2) == 100);
        assert(pow10(3) == 1000);
    }
    // The characters are digits, one point and at most a leading minus.
    assert forall|i: int| 0 <= i < t.len() implies plain_char(#[trigger] t[i]) by {
        if i < sign.len() {
            assert(t[i] == '-');
        } else if i < sign.len() + whole.len() {
            assert(t[i] == whole[i - sign.len()]);
        } else if i == sign.len() + whole.len() {
            assert(t[i] == '.');
        } else {
            assert(t[i] == frac[i - sign.len() - whole.len() - 1]);
        }
    }
    assert(t.last() == frac[3]);
    assert(is_digit(frac[3]));
    assert(t[0] == '-' || t[0] == whole[0]);
    assert(is_digit(whole[0]));
    lemma_trim_noop(t);
    assert(trim(t) == t);
    assert(strip_leading(t, '(') == t);
    assert(!ends_with(t, seq![')'])) by {
        assert(t.subrange(t.len() - 1, t.len() as int)[0] == t.last());
    }
    assert(strip_suffixes(t, seq![')']) == t);
    lemma_without_noise_plain(t);
    reveal_strlit("USD");
    reveal_strlit("usd");
    assert(!ends_with(t, "USD"@)) by {
        if ends_with(t, "USD"@) {
            assert(t.subrange(t.len() - 3, t.len() as int)[2] == t.last());
        }
    }
    assert(!ends_with(t, "usd"@)) by {
        if ends_with(t, "usd"@) {
            assert(t.subrange(t.len() - 3, t.len() as int)[2] == t.last());
        }
    }
    assert(money_core(t) == t);
    assert(!parenthesised(trim(t)));
    // Reading the unsigned part.
    assert(sign_stripped(t) == body) by {
        if v < 0 {
            assert(t.drop_first() == body);
        } else {
            assert(t == body);
        }
    }
    let k = whole.len() as int;
    assert forall|j: int| 0 <= j < k implies body[j] != '.' by {
        assert(body[j] == whole[j]);
        assert(is_digit(whole[j]));
    }
    assert(body[k] == '.');
    lemma_first_dot_at(body, k);
    assert(body.take(k) == whole);
    assert(body.skip(k + 1) == frac);
    assert(unsigned_decimal_ok(body));
    lemma_point_body(whole, frac);
    lemma_short_decimal(body);
    assert(frac_micros(frac) == b * 100) by {
        assert(pow10(2) == 100) by {
            assert(pow10(0) == 1);
            assert(pow10(1) == 10);
        }
    }
    assert(unsigned_decimal_micros(body) == q * 100);
    assert(t.len() > 0 && t[0] == '-' <==> v < 0) by {
        if v >= 0 {
            assert(t[0] == whole[0]);
        }
    }
    assert(q * 100 <= abs(v) + 100) by {
        assert(q <= abs(v) / 100 + 1);
    }
}


/// Trailing zeros dropped from a run of digits that is not all zeros leave a
/// shorter run, ending in a non-zero digit, worth the same once scaled back.
proof fn lemma_strip_zeros(f: Seq<char>)
    requires
        all_digits(f),
        digits_val(f) > 0,
    ensures
        ({
            let s = strip_suffixes(f, seq!['0']);
            &&& 1 <= s.len() <= f.len()
            &&& s == f.take(s.len() as int)
            &&& all_digits(s)
            &&& s.last() != '0'
            &&& digits_val(s) * pow10((f.len() - s.len()) as nat) == digits_val(f)
        }),
    decreases f.len(),
{
    let z = seq!['0'];
    let s = strip_suffixes(f, z);
    assert(f.len() > 0);
    assert(ends_with(f, z) <==> f.last() == '0') by {
        if ends_with(f, z) {
            assert(f.subrange(f.len() - 1, f.len() as int)[0] == f.last());
        }
        if f.last() == '0' {
            assert(f.subrange(f.len() - 1, f.len() as int) =~= z);
        }
    }
    if f.last() == '0' {
        let g = f.subrange(0, f.len() - 1);
        assert(g == f.drop_last());
        assert(s == strip_suffixes(g, z));
        assert(digits_val(f) == digits_val(g) * 10);
        assert(all_digits(g)) by {
            assert forall|i: int| 0 <= i < g.len() implies is_digit(#[trigger] g[i]) by {
                assert(g[i] == f[i]);
            }
        }
        lemma_strip_zeros(g);
        assert(s == f.take(s.len() as int)) by {
            assert forall|i: int| 0 <= i < s.len() implies s[i] == f[i] by {
                assert(s[i] == g[i]);
            }
        }
        let n = (g.len() - s.len()) as nat;
        assert(pow10((f.len() - s.len()) as nat) == 10 * pow10(n));
        let a = digits_val(s);
        let p = pow10(n);
        assert(a * (10 * p) == (a * p) * 10) by (nonlinear_arith);
    } else {
        assert(s == f);
        assert(f.take(f.len() as int) == f);
        assert(pow10(0) == 1);
    }
}

/// The shortest decimal naming `v` micros reads back as `v`: what an input
/// field is filled with is what saving it records.
#[verifier::rlimit(60)]
#[verifier::spinoff_prover]
pub proof fn decimal_reads_back(v: int)
    requires
        fits_i64(v),
    ensures
        amount_of(decimal_text(v)) == Some(v as i64),
        !is_blank(decimal_text(v)),
{
    let m = abs(v) as nat;
    let a = m / 1_000_000;
    let fr = m % 1_000_000;
    let whole = digits_text(a);
    let sign: Seq<char> = if v < 0 { seq!['-'] } else { Seq::empty() };
    lemma_digits_text(a);
    assert(is_digit(whole[0]));
    let t = decimal_text(v);
    assert(t[0] == '-' || t[0] == whole[0]);
    assert(!is_ws(t[0]));
    if fr == 0 {
        let body = whole;
        assert(t == sign + body);
        assert(t.last() == whole.last());
        assert(is_digit(whole.last()));
        assert(t[0] == '-' || t[0] == whole[0]);
        lemma_trim_noop(t);
        assert(sign_stripped(t) == body) by {
            if v < 0 {
                assert(t.drop_first() == body);
            } else {
                assert(t == body);
            }
        }
        assert forall|j: int| 0 <= j < body.len() implies body[j] != '.' by {
            assert(is_digit(body[j]));
        }
        lemma_first_dot_at(body, body.len() as int);
        assert(body.take(body.len() as int) == body);
        assert(unsigned_decimal_ok(body));
        lemma_digit_body(whole);
        lemma_short_decimal(body);
        assert(unsigned_decimal_micros(body) == a * 1_000_000);
        assert(t.len() > 0 && t[0] == '-' <==> v < 0) by {
            if v >= 0 {
                assert(t[0] == whole[0]);
            }
        }
    } else {
        let f = padded_digits(fr, 6);
        lemma_padded_digits(fr, 6);
        assert(pow10(6) == 1_000_000) by {
            assert(pow10(0) == 1);
            assert(pow10(1) == 10);
            assert(pow10(2) == 100);
            assert(pow10(3) == 1000);
            assert(pow10(4) == 10_000);
            assert(pow10(5) == 100_000);
        }
        assert(digits_val(f) == fr);
        lemma_strip_zeros(f);
        let frac = strip_suffixes(f, seq!['0']);
        let body = whole + seq!['.'] + frac;
        assert(t == sign + body);
        assert(t.last() == frac.last());
        assert(is_digit(frac.last()));
        assert(t[0] == '-' || t[0] == whole[0]);
        lemma_trim_noop(t);
        assert(sign_stripped(t) == body) by {
            if v < 0 {
                assert(t.drop_first() == body);
            } else {
                assert(t == body);
            }
        }
        let k = whole.len() as int;
        assert forall|j: int| 0 <= j < k implies body[j] != '.' by {
            assert(body[j] == whole[j]);
            assert(is_digit(whole[j]));
        }
        assert(body[k] == '.');
        lemma_first_dot_at(body, k);
        assert(body.take(k) == whole);
        assert(body.skip(k + 1) == frac);
        assert(unsigned_decimal_ok(body));
        lemma_point_body(whole, frac);
        lemma_short_decimal(body);
        assert(frac_micros(frac) == fr);
        assert(unsigned_decimal_micros(body) == a * 1_000_000 + fr);
        assert(t.len() > 0 && t[0] == '-' <==> v < 0) by {
            if v >= 0 {
                assert(t[0] == whole[0]);
            }
        }
    }
}

/// A whole number as `{}` prints it: an optional minus, then the digits.
pub open spec fn integer_text(v: int) -> Seq<char> {
    let sign: Seq<char> = if v < 0 { seq!['-'] } else { Seq::empty() };
    sign + digits_text(abs(v) as nat)
}

/// A whole number printed as `{}` prints it (see [`integer_text`]).
pub fn fmt_integer(v: i64) -> (r: String)
    ensures
        r@ == integer_text(v as int),
{
    let m: u128 = if v < 0 { (0 - (v as i128)) as u128 } else { v as u128 };
    let mut out: Vec<char> = Vec::new();
    if v < 0 {
        out.push('-');
    }
    let ghost sign = out@;
    push_digits(&mut out, m);
    proof {
        if v < 0 {
            assert(sign == seq!['-']);
        } else {
            assert(sign == Seq::<char>::empty());
        }
    }
    string_from(&out)
}

/// A printed whole number reads back: as a signed number when it fits an
/// `i32`, and as a count when it fits a `u32`.
pub proof fn integer_reads_back(v: int)
    ensures
        i32::MIN <= v <= i32::MAX ==> int_of(integer_text(v)) == Some(v as i32),
        0 <= v <= u32::MAX ==> count_of(integer_text(v)) == Some(v as u32),
        !is_blank(integer_text(v)),
{
    let d = digits_text(abs(v) as nat);
    lemma_digits_text(abs(v) as nat);
    let t = integer_text(v);
    assert(is_digit(d[0]) && is_digit(d.last()));
    assert(t[0] == '-' || t[0] == d[0]);
    assert(!is_ws(t[0]));
    assert(t.last() == d.last());
    lemma_trim_noop(t);
    if v < 0 {
        assert(t.drop_first() == d);
        assert(int_digits(t) == d);
    } else {
        assert(t == d);
        assert(int_digits(t) == d);
        assert(count_digits(t) == d);
    }
}

/// Digits, a point and up to six more digits, after an optional minus, read
/// as the decimal they spell.
pub(crate) proof fn lemma_point_text(neg: bool, a: nat, frac: Seq<char>)
    requires
        1 <= frac.len() <= 6,
        all_digits(frac),
    ensures
        ({
            let sign: Seq<char> = if neg { seq!['-'] } else { Seq::empty() };
            let t = sign + digits_text(a) + seq!['.'] + frac;
            let m = a * 1_000_000 + digits_val(frac) * pow10((6 - frac.len()) as nat);
            &&& decimal_micros(trim(t)) == Some(if neg { -m } else { m })
            &&& !is_blank(t)
        }),
{
    let sign: Seq<char> = if neg { seq!['-'] } else { Seq::empty() };
    let whole = digits_text(a);
    lemma_digits_text(a);
    let body = whole + seq!['.'] + frac;
    let t = sign + body;
    assert(t == sign + digits_text(a) + seq!['.'] + frac);
    assert(t[0] == '-' || t[0] == whole[0]);
    assert(is_digit(whole[0]));
    assert(!is_ws(t[0]));
    assert(t.last() == frac.last());
    assert(is_digit(frac[frac.len() - 1]));
    lemma_trim_noop(t);
    assert(sign_stripped(t) == body) by {
        if neg {
            assert(t.drop_first() == body);
        } else {
            assert(t == body);
        }
    }
    let k = whole.len() as int;
    assert forall|j: int| 0 <= j < k implies body[j] != '.' by {
        assert(body[j] == whole[j]);
        assert(is_digit(whole[j]));
    }
    assert(body[k] == '.');
    lemma_first_dot_at(body, k);
    assert(body.take(k) == whole);
    assert(body.skip(k + 1) == frac);
    assert(unsigned_decimal_ok(body));
    lemma_point_body(whole, frac);
    lemma_short_decimal(body);
    assert(t.len() > 0 && t[0] == '-' <==> neg) by {
        if !neg {
            assert(t[0] == whole[0]);
        }
    }
}

} // verus!
