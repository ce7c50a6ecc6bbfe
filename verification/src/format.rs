//! Money as the app prints it: in full to the cent, or abbreviated to
//! thousands, millions or billions for narrow screens. Amounts are micros;
//! rounding is to the nearest, halves to even.

use vstd::prelude::*;
use crate::money::{
    abs, amount_of, decimal_text, digits_text, fits_i64, fmt_decimal, lemma_padded_digits, lemma_point_text, padded_digits, pow10, push_digits,
    push_padded, round_half_even, string_from,
};
use crate::text::is_blank;
use vstd::string::StringExecFns;

verus! {

/// `m` micros to the cent: whole units, a point, two digits.
pub open spec fn cents_text(m: nat) -> Seq<char> {
    let q = round_half_even(m, 10_000);
    digits_text(q / 100) + seq!['.'] + padded_digits(q % 100, 2)
}

/// `m` micros in units of `unit` micros, to one decimal.
pub open spec fn tenths_text(m: nat, unit: nat) -> Seq<char> {
    let q = round_half_even(m, unit / 10);
    digits_text(q / 10) + seq!['.'] + digits_text(q % 10)
}

/// The sign mark: `+$` for a non-negative amount when a plus is wanted,
/// `-$` for a negative one, `$` otherwise.
pub open spec fn money_prefix(v: int, show_plus: bool) -> Seq<char> {
    if show_plus && v >= 0 {
        "+$"@
    } else if v < 0 {
        "-$"@
    } else {
        "$"@
    }
}

/// Abbreviated money: billions, millions and (from ten thousand) thousands
/// to one decimal with `B`, `M` or `K`; smaller amounts to the cent.
pub open spec fn signed_text(v: int, show_plus: bool) -> Seq<char> {
    let m = abs(v) as nat;
    if m >= 1_000_000_000_000_000 {
        money_prefix(v, show_plus) + tenths_text(m, 1_000_000_000_000_000) + "B"@
    } else if m >= 1_000_000_000_000 {
        money_prefix(v, show_plus) + tenths_text(m, 1_000_000_000_000) + "M"@
    } else if m >= 10_000_000_000 {
        money_prefix(v, show_plus) + tenths_text(m, 1_000_000_000) + "K"@
    } else {
        money_prefix(v, show_plus) + cents_text(m)
    }
}

/// Full-precision money: `-$` or `$`, then the amount to the cent.
pub open spec fn currency_full_text(v: int) -> Seq<char> {
    (if v < 0 { "-$"@ } else { "$"@ }) + cents_text(abs(v) as nat)
}

/// Full-precision cash with its sign: `+$` or `-$`, then the amount to the cent.
pub open spec fn cash_full_text(v: int) -> Seq<char> {
    (if v >= 0 { "+$"@ } else { "-$"@ }) + cents_text(abs(v) as nat)
}

fn magnitude(v: i128) -> (r: u128)
    requires
        v > i128::MIN,
    ensures
        r == abs(v as int),
{
    if v < 0 { (0 - v) as u128 } else { v as u128 }
}

/// `n / d` rounded to the nearest, halves to even.
fn round_even(n: u128, d: u128) -> (r: u128)
    requires
        d > 0,
    ensures
        r == round_half_even(n as nat, d as nat),
{
    let q = n / d;
    let rem = n % d;
    if rem > d - rem || (rem == d - rem && q % 2 == 1) {
        assert(q < u128::MAX) by (nonlinear_arith)
            requires
                q == n / d,
                rem == n % d,
                d > 0,
                2 * rem >= d,
                n <= u128::MAX;
        q + 1
    } else {
        q
    }
}

fn cents_string(m: u128) -> (r: String)
    ensures
        r@ == cents_text(m as nat),
{
    let q = round_even(m, 10_000);
    let mut cs: Vec<char> = Vec::new();
    push_digits(&mut cs, q / 100);
    cs.push('.');
    push_padded(&mut cs, q % 100, 2);
    string_from(&cs)
}

fn tenths_string(m: u128, unit: u128) -> (r: String)
    requires
        unit >= 10,
    ensures
        r@ == tenths_text(m as nat, unit as nat),
{
    let q = round_even(m, unit / 10);
    let mut cs: Vec<char> = Vec::new();
    push_digits(&mut cs, q / 10);
    cs.push('.');
    push_digits(&mut cs, q % 10);
    string_from(&cs)
}

fn prefix_str(v: i128, show_plus: bool) -> (r: &'static str)
    ensures
        r@ == money_prefix(v as int, show_plus),
{
    if show_plus && v >= 0 {
        "+$"
    } else if v < 0 {
        "-$"
    } else {
        "$"
    }
}

fn fmt_signed(v: i128, show_plus: bool) -> (r: String)
    requires
        v > i128::MIN,
    ensures
        r@ == signed_text(v as int, show_plus),
{
    let m = magnitude(v);
    let mut out = String::from_str(prefix_str(v, show_plus));
    if m >= 1_000_000_000_000_000 {
        let t = tenths_string(m, 1_000_000_000_000_000);
        out.append(t.as_str());
        out.append("B");
    } else if m >= 1_000_000_000_000 {
        let t = tenths_string(m, 1_000_000_000_000);
        out.append(t.as_str());
        out.append("M");
    } else if m >= 10_000_000_000 {
        let t = tenths_string(m, 1_000_000_000);
        out.append(t.as_str());
        out.append("K");
    } else {
        let t = cents_string(m);
        out.append(t.as_str());
    }
    out
}

/// Money for compact display, abbreviated when large (see [`signed_text`]).
pub fn fmt_currency(v: i128) -> (r: String)
    requires
        v > i128::MIN,
    ensures
        r@ == signed_text(v as int, false),
{
    fmt_signed(v, false)
}

/// Like [`fmt_currency`], with `+` before amounts that are not negative.
pub fn fmt_cash(v: i128) -> (r: String)
    requires
        v > i128::MIN,
    ensures
        r@ == signed_text(v as int, true),
{
    fmt_signed(v, true)
}

/// Money to the cent, never abbreviated.
pub fn fmt_currency_full(v: i128) -> (r: String)
    requires
        v > i128::MIN,
    ensures
        r@ == currency_full_text(v as int),
{
    let mut out = String::from_str(if v < 0 { "-$" } else { "$" });
    let t = cents_string(magnitude(v));
    out.append(t.as_str());
    out
}

/// Cash to the cent with its sign, never abbreviated.
pub fn fmt_cash_full(v: i128) -> (r: String)
    requires
        v > i128::MIN,
    ensures
        r@ == cash_full_text(v as int),
{
    let mut out = String::from_str(if v >= 0 { "+$" } else { "-$" });
    let t = cents_string(magnitude(v));
    out.append(t.as_str());
    out
}

/// A stored amount as an input field shows it: blank for zero, otherwise the
/// shortest decimal that names it (see [`decimal_text`]).
pub fn money_str(v: i64) -> (r: String)
    ensures
        r@ == if v == 0 { Seq::<char>::empty() } else { decimal_text(v as int) },
{
    if v == 0 {
        String::new()
    } else {
        fmt_decimal(v)
    }
}

/// `v` micros to two decimals, with a minus when negative (how `{:.2}`
/// prints such a value).
pub open spec fn fixed2_text(v: int) -> Seq<char> {
    (if v < 0 { "-"@ } else { Seq::<char>::empty() }) + cents_text(abs(v) as nat)
}

/// `v` micros to two decimals (see [`fixed2_text`]).
pub fn fmt_fixed2(v: i128) -> (r: String)
    requires
        v > i128::MIN,
    ensures
        r@ == fixed2_text(v as int),
{
    let mut out = if v < 0 { String::from_str("-") } else { String::new() };
    let t = cents_string(magnitude(v));
    out.append(t.as_str());
    out
}

/// An amount printed to the cent reads back as that amount rounded to the
/// cent (halves to even), provided the rounded amount fits.
pub proof fn fixed2_reads_back(v: int)
    requires
        fits_i64(v),
    ensures
        ({
            let q = round_half_even(abs(v) as nat, 10_000) as int;
            let back = if v < 0 { -(q * 10_000) } else { q * 10_000 };
            fits_i64(back) ==> amount_of(fixed2_text(v)) == Some(back as i64)
        }),
        !is_blank(fixed2_text(v)),
{
    let q = round_half_even(abs(v) as nat, 10_000);
    let a = q / 100;
    let b = q % 100;
    let frac = padded_digits(b, 2);
    lemma_padded_digits(b, 2);
    lemma_point_text(v < 0, a, frac);
    reveal_strlit("-");
    let sign: Seq<char> = if v < 0 { seq!['-'] } else { Seq::empty() };
    assert(fixed2_text(v) == sign + digits_text(a) + seq!['.'] + frac) by {
        assert(("-"@) =~= seq!['-']);
    }
    assert(pow10(2) == 100 && pow10(4) == 10_000) by {
        assert(pow10(0) == 1);
        assert(pow10(1) == 10);
        assert(pow10(3) == 1000);
    }
    assert(a * 1_000_000 + b * 10_000 == q * 10_000) by (nonlinear_arith)
        requires
            a == q / 100,
            b == q % 100;
}

} // verus!
