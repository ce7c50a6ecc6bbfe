//! The data-entry forms: a new position, a tax revision, and the list of tax
//! years. Each reads the fields as typed and either builds the value or names
//! the first field that is wrong.
//!
//! Amounts are in micros (millionths of a dollar).

use vstd::prelude::*;
use crate::calendar::{chrono_parse, parse_date_with};
use crate::money::{abs, amount_of, count_of, decimal_reads_back, decimal_text, fits_i64, int_of, parse_amount, parse_count, parse_int};
use crate::format::money_str;
use crate::option::{OptionSpec, OptionType};
use crate::clock::utc_now;
use crate::import::blank_str;
use crate::position::{Position, PositionEntryMode, PositionKind};
use crate::revisions::diffable;
use crate::scenario::form_symbol;
use crate::tax::{DeductionChoice, FilingStatus, TaxProfile, TaxRevision};
use crate::text::{chars_of, is_blank, to_upper, trim, trimmed, unicode_upper};
use vstd::string::StringExecFns;

verus! {

// ── New position ─────────────────────────────────────────────────────────────

/// The first complaint about the new-position form, if any.
pub open spec fn position_form_error(
    symbol: Seq<char>,
    kind: PositionKind,
    quantity: Seq<char>,
    cost_basis: Seq<char>,
    strike: Seq<char>,
    expiry: Seq<char>,
) -> Option<Seq<char>> {
    if form_symbol(symbol).len() == 0 {
        Some("Symbol required."@)
    } else if int_of(quantity) is None {
        Some("Invalid quantity."@)
    } else if amount_of(cost_basis) is None {
        Some("Invalid cost basis."@)
    } else if kind == PositionKind::Option && amount_of(strike) is None {
        Some("Invalid strike."@)
    } else if kind == PositionKind::Option && chrono_parse(trim(expiry), "%Y-%m-%d"@) is None {
        Some("Expiry must be YYYY-MM-DD."@)
    } else {
        None
    }
}

/// A snapshot position from the fields of the new-position form: the symbol
/// trimmed and uppercased, the quantity a whole number, the cost basis (and,
/// for an option, the strike) an amount, the expiry an ISO date. The first
/// invalid field is reported instead.
pub fn position_from_form(
    symbol: &str,
    kind: PositionKind,
    quantity: &str,
    cost_basis: &str,
    option_type: OptionType,
    strike: &str,
    expiry: &str,
) -> (r: Result<Position, String>)
    ensures
        match r {
            Err(e) => position_form_error(symbol@, kind, quantity@, cost_basis@, strike@, expiry@) == Some(e@),
            Ok(p) => {
                let sym = form_symbol(symbol@);
                &&& position_form_error(symbol@, kind, quantity@, cost_basis@, strike@, expiry@) is None
                &&& p.symbol@ == unicode_upper(sym)
                &&& p.kind == kind
                &&& int_of(quantity@) == Some(p.quantity)
                &&& amount_of(cost_basis@) == Some(p.cost_basis)
                &&& p.entry_mode == PositionEntryMode::Snapshot
                &&& p.trades@.len() == 0
                &&& p.notes@.len() == 0
                &&& if kind == PositionKind::Option {
                    &&& p.option_spec matches Some(s)
                    &&& s.symbol@ == sym
                    &&& s.option_type == option_type
                    &&& amount_of(strike@) == Some(s.strike)
                    &&& chrono_parse(trim(expiry@), "%Y-%m-%d"@) == Some(s.expiry)
                } else {
                    p.option_spec is None
                }
            },
        },
{
    let t = trimmed(symbol);
    let sym = to_upper(t.as_str());
    if chars_of(sym.as_str()).len() == 0 {
        return Err(String::from_str("Symbol required."));
    }
    let qty = match parse_int(quantity) {
        Some(q) => q,
        None => return Err(String::from_str("Invalid quantity.")),
    };
    let cb = match parse_amount(cost_basis) {
        Some(v) => v,
        None => return Err(String::from_str("Invalid cost basis.")),
    };
    match kind {
        PositionKind::Stock => Ok(Position::new_stock(sym.as_str(), qty, cb)),
        PositionKind::Option => {
            let k = match parse_amount(strike) {
                Some(k) => k,
                None => return Err(String::from_str("Invalid strike.")),
            };
            let e = trimmed(expiry);
            let exp = match parse_date_with(e.as_str(), "%Y-%m-%d") {
                Some(d) => d,
                None => return Err(String::from_str("Expiry must be YYYY-MM-DD.")),
            };
            let spec = OptionSpec { symbol: sym.clone(), option_type, strike: k, expiry: exp };
            Ok(Position::new_option(sym.as_str(), qty, cb, spec))
        },
    }
}

// ── Tax revision ─────────────────────────────────────────────────────────────

/// The tax-revision form as typed: the two choices and ten amount fields.
/// Dividends are entered split, non-qualified beside qualified.
#[derive(Debug, Clone)]
pub struct RevisionForm {
    pub filing_status: FilingStatus,
    pub deduction_choice: DeductionChoice,
    pub w2: String,
    pub interest: String,
    pub non_qual_div: String,
    pub qual_div: String,
    pub st_gains: String,
    pub lt_gains: String,
    pub rental: String,
    pub itemized: String,
    pub cf_st: String,
    pub cf_lt: String,
}

/// What an amount field holds: zero when left blank, otherwise the typed
/// amount, or nothing when that is not a number.
pub open spec fn field_amount(s: Seq<char>) -> Option<i64> {
    if is_blank(s) { Some(0i64) } else { amount_of(s) }
}

/// The complaint about field `name` when it is not a number.
pub open spec fn not_a_number(name: Seq<char>) -> Seq<char> {
    name + " must be a number"@
}

/// The fields in the order they are read, each with the name a complaint
/// gives it.
pub open spec fn revision_fields(f: RevisionForm) -> Seq<(Seq<char>, Seq<char>)> {
    seq![
        ("Qual dividends"@, f.qual_div@),
        ("Non-qual dividends"@, f.non_qual_div@),
        ("W-2 income"@, f.w2@),
        ("Interest"@, f.interest@),
        ("Short-term gains"@, f.st_gains@),
        ("Long-term gains"@, f.lt_gains@),
        ("Rental income"@, f.rental@),
        ("Itemized deductions"@, f.itemized@),
        ("ST carryforward loss"@, f.cf_st@),
        ("LT carryforward loss"@, f.cf_lt@),
    ]
}

/// The complaint about the first field, from the `i`-th on, that is not a
/// number.
pub open spec fn first_bad_field(fields: Seq<(Seq<char>, Seq<char>)>, i: int) -> Option<Seq<char>>
    decreases fields.len() - i,
{
    if i < 0 || i >= fields.len() {
        None
    } else if field_amount(fields[i].1) is None {
        Some(not_a_number(fields[i].0))
    } else {
        first_bad_field(fields, i + 1)
    }
}

/// The complaint about the revision form, if any.
pub open spec fn revision_form_error(f: RevisionForm) -> Option<Seq<char>> {
    first_bad_field(revision_fields(f), 0)
}

/// The amounts a valid form gives, field by field.
pub open spec fn form_amount(s: Seq<char>) -> int {
    match field_amount(s) {
        Some(v) => v as int,
        None => 0,
    }
}

/// The revision a valid form describes, apart from when it is entered:
/// ordinary dividends are the two dividend fields added.
pub open spec fn describes(r: TaxRevision, f: RevisionForm) -> bool {
    &&& r.filing_status == f.filing_status
    &&& r.deduction_choice == f.deduction_choice
    &&& r.w2_income == form_amount(f.w2@)
    &&& r.interest_income == form_amount(f.interest@)
    &&& r.ordinary_dividends == form_amount(f.non_qual_div@) + form_amount(f.qual_div@)
    &&& r.qualified_dividends == form_amount(f.qual_div@)
    &&& r.st_capital_gains == form_amount(f.st_gains@)
    &&& r.lt_capital_gains == form_amount(f.lt_gains@)
    &&& r.rental_income == form_amount(f.rental@)
    &&& r.itemized_deductions == form_amount(f.itemized@)
    &&& r.carryforward_st_loss == form_amount(f.cf_st@)
    &&& r.carryforward_lt_loss == form_amount(f.cf_lt@)
}

/// Reads one amount field, naming it in the complaint.
fn read_field(s: &String, name: &str) -> (r: Result<i64, String>)
    ensures
        match r {
            Ok(v) => field_amount(s@) == Some(v),
            Err(e) => field_amount(s@) is None && e@ == not_a_number(name@),
        },
{
    if blank_str(s) {
        return Ok(0);
    }
    match parse_amount(s.as_str()) {
        Some(v) => Ok(v),
        None => {
            proof {
                assert(!is_blank(s@));
            }
            let mut e = String::from_str(name);
            e.append(" must be a number");
            Err(e)
        },
    }
}

/// A new revision from the revision form, stamped with the current time; a
/// blank field counts as zero. The first field that is not a number is
/// reported instead.
pub fn revision_from_form(form: &RevisionForm) -> (r: Result<TaxRevision, String>)
    ensures
        match r {
            Err(e) => revision_form_error(*form) == Some(e@),
            Ok(rev) => revision_form_error(*form) is None && describes(rev, *form),
        },
{
    let ghost fs = revision_fields(*form);
    proof {
        reveal_strlit("Qual dividends");
        reveal_strlit("Non-qual dividends");
        reveal_strlit("W-2 income");
        reveal_strlit("Interest");
        reveal_strlit("Short-term gains");
        reveal_strlit("Long-term gains");
        reveal_strlit("Rental income");
        reveal_strlit("Itemized deductions");
        reveal_strlit("ST carryforward loss");
        reveal_strlit("LT carryforward loss");
        reveal_with_fuel(first_bad_field, 11);
    }
    let qual = match read_field(&form.qual_div, "Qual dividends") {
        Ok(v) => v,
        Err(e) => return Err(e),
    };
    let non_qual = match read_field(&form.non_qual_div, "Non-qual dividends") {
        Ok(v) => v,
        Err(e) => return Err(e),
    };
    let w2 = match read_field(&form.w2, "W-2 income") {
        Ok(v) => v,
        Err(e) => return Err(e),
    };
    let interest = match read_field(&form.interest, "Interest") {
        Ok(v) => v,
        Err(e) => return Err(e),
    };
    let st = match read_field(&form.st_gains, "Short-term gains") {
        Ok(v) => v,
        Err(e) => return Err(e),
    };
    let lt = match read_field(&form.lt_gains, "Long-term gains") {
        Ok(v) => v,
        Err(e) => return Err(e),
    };
    let rental = match read_field(&form.rental, "Rental income") {
        Ok(v) => v,
        Err(e) => return Err(e),
    };
    let itemized = match read_field(&form.itemized, "Itemized deductions") {
        Ok(v) => v,
        Err(e) => return Err(e),
    };
    let cf_st = match read_field(&form.cf_st, "ST carryforward loss") {
        Ok(v) => v,
        Err(e) => return Err(e),
    };
    let cf_lt = match read_field(&form.cf_lt, "LT carryforward loss") {
        Ok(v) => v,
        Err(e) => return Err(e),
    };
    Ok(TaxRevision {
        entered_at: utc_now(),
        filing_status: form.filing_status,
        w2_income: w2 as i128,
        interest_income: interest as i128,
        ordinary_dividends: non_qual as i128 + qual as i128,
        qualified_dividends: qual as i128,
        st_capital_gains: st as i128,
        lt_capital_gains: lt as i128,
        rental_income: rental as i128,
        deduction_choice: form.deduction_choice,
        itemized_deductions: itemized as i128,
        carryforward_st_loss: cf_st as i128,
        carryforward_lt_loss: cf_lt as i128,
    })
}

/// An amount field as the dirty check reads it: the typed amount, or zero
/// when it is blank or not a number.
pub open spec fn lenient_amount(s: Seq<char>) -> int {
    match amount_of(s) {
        Some(v) => v as int,
        None => 0,
    }
}

/// Two amounts differ once they are more than half a cent apart.
pub open spec fn amounts_differ(a: int, b: int) -> bool {
    abs(a - b) > 5000
}

/// Non-qualified dividends of a revision as the form shows them: the
/// ordinary dividends that are not qualified, never below zero.
pub open spec fn non_qualified_of(r: TaxRevision) -> int {
    if r.ordinary_dividends - r.qualified_dividends > 0 {
        r.ordinary_dividends - r.qualified_dividends
    } else {
        0
    }
}

/// The form says something other than the saved revision `s`: a choice
/// differs, or an amount by more than half a cent.
pub open spec fn form_is_dirty(f: RevisionForm, s: TaxRevision) -> bool {
    ||| f.filing_status != s.filing_status
    ||| f.deduction_choice != s.deduction_choice
    ||| amounts_differ(lenient_amount(f.w2@), s.w2_income as int)
    ||| amounts_differ(lenient_amount(f.interest@), s.interest_income as int)
    ||| amounts_differ(lenient_amount(f.non_qual_div@), non_qualified_of(s))
    ||| amounts_differ(lenient_amount(f.qual_div@), s.qualified_dividends as int)
    ||| amounts_differ(lenient_amount(f.st_gains@), s.st_capital_gains as int)
    ||| amounts_differ(lenient_amount(f.lt_gains@), s.lt_capital_gains as int)
    ||| amounts_differ(lenient_amount(f.rental@), s.rental_income as int)
    ||| amounts_differ(lenient_amount(f.itemized@), s.itemized_deductions as int)
    ||| amounts_differ(lenient_amount(f.cf_st@), s.carryforward_st_loss as int)
    ||| amounts_differ(lenient_amount(f.cf_lt@), s.carryforward_lt_loss as int)
}

fn field_differs(s: &String, saved: i128) -> (r: bool)
    requires
        -0x2000_0000_0000_0000_0000_0000_0000_0000int <= saved <= 0x2000_0000_0000_0000_0000_0000_0000_0000int,
    ensures
        r == amounts_differ(lenient_amount(s@), saved as int),
{
    let typed: i128 = match parse_amount(s.as_str()) {
        Some(v) => v as i128,
        None => 0,
    };
    let d = typed - saved;
    d > 5000 || d < -5000
}

/// Whether the revision form holds anything other than the saved revision
/// `seed`, so that saving would record a change.
pub fn form_differs(form: &RevisionForm, seed: &TaxRevision) -> (r: bool)
    requires
        diffable(*seed),
    ensures
        r == form_is_dirty(*form, *seed),
{
    let nq = seed.ordinary_dividends - seed.qualified_dividends;
    let nq = if nq > 0 { nq } else { 0 };
    form.filing_status != seed.filing_status
        || form.deduction_choice != seed.deduction_choice
        || field_differs(&form.w2, seed.w2_income)
        || field_differs(&form.interest, seed.interest_income)
        || field_differs(&form.non_qual_div, nq)
        || field_differs(&form.qual_div, seed.qualified_dividends)
        || field_differs(&form.st_gains, seed.st_capital_gains)
        || field_differs(&form.lt_gains, seed.lt_capital_gains)
        || field_differs(&form.rental, seed.rental_income)
        || field_differs(&form.itemized, seed.itemized_deductions)
        || field_differs(&form.cf_st, seed.carryforward_st_loss)
        || field_differs(&form.cf_lt, seed.carryforward_lt_loss)
}

/// What an input field shows of a stored amount: blank for zero, otherwise
/// the shortest decimal naming it.
pub open spec fn shown(v: int) -> Seq<char> {
    if v == 0 { Seq::<char>::empty() } else { decimal_text(v) }
}

/// Every amount the form shows of `r` fits the 64-bit amounts an input
/// field is read into.
pub open spec fn fillable(r: TaxRevision) -> bool {
    &&& fits_i64(r.w2_income as int)
    &&& fits_i64(r.interest_income as int)
    &&& fits_i64(r.ordinary_dividends as int)
    &&& fits_i64(non_qualified_of(r))
    &&& fits_i64(r.qualified_dividends as int)
    &&& fits_i64(r.st_capital_gains as int)
    &&& fits_i64(r.lt_capital_gains as int)
    &&& fits_i64(r.rental_income as int)
    &&& fits_i64(r.itemized_deductions as int)
    &&& fits_i64(r.carryforward_st_loss as int)
    &&& fits_i64(r.carryforward_lt_loss as int)
}

/// `f` is the revision form filled from `r`.
pub open spec fn fills(f: RevisionForm, r: TaxRevision) -> bool {
    &&& f.filing_status == r.filing_status
    &&& f.deduction_choice == r.deduction_choice
    &&& f.w2@ == shown(r.w2_income as int)
    &&& f.interest@ == shown(r.interest_income as int)
    &&& f.non_qual_div@ == shown(non_qualified_of(r))
    &&& f.qual_div@ == shown(r.qualified_dividends as int)
    &&& f.st_gains@ == shown(r.st_capital_gains as int)
    &&& f.lt_gains@ == shown(r.lt_capital_gains as int)
    &&& f.rental@ == shown(r.rental_income as int)
    &&& f.itemized@ == shown(r.itemized_deductions as int)
    &&& f.cf_st@ == shown(r.carryforward_st_loss as int)
    &&& f.cf_lt@ == shown(r.carryforward_lt_loss as int)
}

/// The revision form filled from a saved revision, dividends split into the
/// non-qualified and qualified parts.
pub fn form_from_revision(r: &TaxRevision) -> (f: RevisionForm)
    requires
        fillable(*r),
    ensures
        fills(f, *r),
{
    let nq = r.ordinary_dividends - r.qualified_dividends;
    let nq = if nq > 0 { nq } else { 0 };
    RevisionForm {
        filing_status: r.filing_status,
        deduction_choice: r.deduction_choice,
        w2: money_str(r.w2_income as i64),
        interest: money_str(r.interest_income as i64),
        non_qual_div: money_str(nq as i64),
        qual_div: money_str(r.qualified_dividends as i64),
        st_gains: money_str(r.st_capital_gains as i64),
        lt_gains: money_str(r.lt_capital_gains as i64),
        rental: money_str(r.rental_income as i64),
        itemized: money_str(r.itemized_deductions as i64),
        cf_st: money_str(r.carryforward_st_loss as i64),
        cf_lt: money_str(r.carryforward_lt_loss as i64),
    }
}

proof fn lemma_shown_reads_back(v: int)
    requires
        fits_i64(v),
    ensures
        field_amount(shown(v)) == Some(v as i64),
        lenient_amount(shown(v)) == v,
{
    if v != 0 {
        decimal_reads_back(v);
    } else {
        assert(is_blank(Seq::<char>::empty()));
        crate::money::lemma_empty_not_amount();
        assert(amount_of(Seq::<char>::empty()) is None) by {
            assert(trim(Seq::<char>::empty()) =~= Seq::<char>::empty());
        }
    }
}

/// A form filled from a saved revision shows no unsaved change.
pub proof fn filled_form_is_clean(r: TaxRevision, f: RevisionForm)
    requires
        fillable(r),
        fills(f, r),
    ensures
        !form_is_dirty(f, r),
{
    lemma_shown_reads_back(r.w2_income as int);
    lemma_shown_reads_back(r.interest_income as int);
    lemma_shown_reads_back(non_qualified_of(r));
    lemma_shown_reads_back(r.qualified_dividends as int);
    lemma_shown_reads_back(r.st_capital_gains as int);
    lemma_shown_reads_back(r.lt_capital_gains as int);
    lemma_shown_reads_back(r.rental_income as int);
    lemma_shown_reads_back(r.itemized_deductions as int);
    lemma_shown_reads_back(r.carryforward_st_loss as int);
    lemma_shown_reads_back(r.carryforward_lt_loss as int);
}

/// Saving a form filled from a revision whose qualified dividends are part
/// of its ordinary dividends succeeds and records the same amounts and
/// choices again.
pub proof fn filled_form_saves_back(r: TaxRevision, f: RevisionForm, saved: TaxRevision)
    requires
        fillable(r),
        fills(f, r),
        r.qualified_dividends <= r.ordinary_dividends,
        describes(saved, f),
    ensures
        revision_form_error(f) is None,
        saved == (TaxRevision { entered_at: saved.entered_at, ..r }),
{
    lemma_shown_reads_back(r.w2_income as int);
    lemma_shown_reads_back(r.interest_income as int);
    lemma_shown_reads_back(non_qualified_of(r));
    lemma_shown_reads_back(r.qualified_dividends as int);
    lemma_shown_reads_back(r.st_capital_gains as int);
    lemma_shown_reads_back(r.lt_capital_gains as int);
    lemma_shown_reads_back(r.rental_income as int);
    lemma_shown_reads_back(r.itemized_deductions as int);
    lemma_shown_reads_back(r.carryforward_st_loss as int);
    lemma_shown_reads_back(r.carryforward_lt_loss as int);
    reveal_with_fuel(first_bad_field, 11);
}

// ── Tax years ────────────────────────────────────────────────────────────────

/// The year a typed-in "add year" entry names, when it is a whole number
/// from 1990 to 2100.
pub open spec fn year_of_input(s: Seq<char>) -> Option<u16> {
    match count_of(s) {
        Some(y) => if 1990 <= y <= 2100 { Some(y as u16) } else { None },
        None => None,
    }
}

/// Reads a typed-in year; see [`year_of_input`].
pub fn year_from_input(s: &str) -> (r: Option<u16>)
    ensures
        r == year_of_input(s@),
{
    match parse_count(s) {
        Some(y) => if 1990 <= y && y <= 2100 { Some(y as u16) } else { None },
        None => None,
    }
}

/// Adds the year typed in `input` to the years added by hand, unless it is
/// already there. Returns whether the entry named a year (the entry is then
/// cleared).
pub fn add_year(added: &mut Vec<u16>, input: &str) -> (accepted: bool)
    ensures
        accepted == year_of_input(input@) is Some,
        final(added)@ == match year_of_input(input@) {
            Some(y) => if old(added)@.contains(y) { old(added)@ } else { old(added)@.push(y) },
            None => old(added)@,
        },
{
    match year_from_input(input) {
        Some(y) => {
            let mut i: usize = 0;
            while i < added.len()
                invariant
                    i <= added.len(),
                    added@ == old(added)@,
                    year_of_input(input@) == Some(y),
                    forall|k: int| 0 <= k < i ==> added@[k] != y,
                decreases added.len() - i,
            {
                if added[i] == y {
                    assert(old(added)@.contains(y)) by {
                        assert(old(added)@[i as int] == y);
                    }
                    return true;
                }
                i += 1;
            }
            added.push(y);
            true
        },
        None => false,
    }
}

/// Strictly decreasing: newest year first, none twice.
pub open spec fn newest_first(v: Seq<u16>) -> bool {
    forall|a: int, b: int| 0 <= a < b < v.len() ==> #[trigger] v[a] > #[trigger] v[b]
}

fn insert_year(out: &mut Vec<u16>, y: u16)
    requires
        newest_first(old(out)@),
    ensures
        newest_first(final(out)@),
        final(out)@.to_set() == old(out)@.to_set().insert(y),
{
    let ghost v = out@;
    let mut j = out.len();
    while j > 0 && out[j - 1] < y
        invariant
            j <= out.len(),
            v == out@,
            forall|k: int| j <= k < out.len() ==> #[trigger] v[k] < y,
        decreases j,
    {
        j -= 1;
    }
    if j > 0 && out[j - 1] == y {
        assert(v.to_set().insert(y) =~= v.to_set());
        return;
    }
    out.insert(j, y);
    let ghost w = out@;
    proof {
        v.insert_ensures(j as int, y);
        assert(w == v.insert(j as int, y));
        assert forall|a: int, b: int| 0 <= a < b < w.len() implies #[trigger] w[a] > #[trigger] w[b] by {
            if b < j {
                assert(w[a] == v[a] && w[b] == v[b]);
            } else if b == j {
                assert(w[a] == v[a]);
                if a < j - 1 {
                    assert(v[a] > v[j - 1]);
                }
            } else if a < j {
                assert(w[a] == v[a] && w[b] == v[b - 1]);
            } else if a == j {
                assert(w[b] == v[b - 1]);
            } else {
                assert(w[a] == v[a - 1] && w[b] == v[b - 1]);
            }
        }
        assert forall|x: u16| w.to_set().contains(x) <==> v.to_set().insert(y).contains(x) by {
            if w.contains(x) {
                let k = choose|k: int| 0 <= k < w.len() && w[k] == x;
                if k < j {
                    assert(v[k] == x);
                } else if k > j {
                    assert(v[k - 1] == x);
                }
            }
            if v.contains(x) {
                let k = choose|k: int| 0 <= k < v.len() && v[k] == x;
                if k < j {
                    assert(w[k] == x);
                } else {
                    assert(w[k + 1] == x);
                }
            }
            if x == y {
                assert(w[j as int] == x);
            }
        }
        assert(w.to_set() =~= v.to_set().insert(y));
    }
}

/// The years the tax page lists, newest first and each once: the current
/// year, every year with a profile, and the years added by hand.
pub fn tax_years(current: u16, profiles: &[TaxProfile], added: &[u16]) -> (r: Vec<u16>)
    ensures
        newest_first(r@),
        forall|y: u16| #[trigger] r@.contains(y) <==> {
            ||| y == current
            ||| exists|i: int| 0 <= i < profiles@.len() && (#[trigger] profiles@[i]).tax_year == y
            ||| added@.contains(y)
        },
{
    let mut out: Vec<u16> = Vec::new();
    out.push(current);
    proof {
        assert forall|y: u16| #[trigger] out@.to_set().contains(y) <==> y == current by {
            assert(out@.to_set().contains(y) <==> out@.contains(y));
            if y == current {
                assert(out@[0] == current);
            }
        }
    }
    let mut i: usize = 0;
    while i < profiles.len()
        invariant
            i <= profiles.len(),
            newest_first(out@),
            forall|y: u16| #[trigger] out@.to_set().contains(y) <==> {
                ||| y == current
                ||| exists|k: int| 0 <= k < i && (#[trigger] profiles@[k]).tax_year == y
            },
        decreases profiles.len() - i,
    {
        let ghost before = out@.to_set();
        insert_year(&mut out, profiles[i].tax_year);
        proof {
            assert forall|y: u16| #[trigger] out@.to_set().contains(y) <==> {
                ||| y == current
                ||| exists|k: int| 0 <= k < i + 1 && (#[trigger] profiles@[k]).tax_year == y
            } by {
                if exists|k: int| 0 <= k < i + 1 && (#[trigger] profiles@[k]).tax_year == y {
                    let k = choose|k: int| 0 <= k < i + 1 && (#[trigger] profiles@[k]).tax_year == y;
                    if k < i {
                        assert(before.contains(y));
                    }
                }
                if before.contains(y) && y != current {
                    let k = choose|k: int| 0 <= k < i && (#[trigger] profiles@[k]).tax_year == y;
                    assert(0 <= k < i + 1 && profiles@[k].tax_year == y);
                }
            }
        }
        i += 1;
    }
    let mut j: usize = 0;
    while j < added.len()
        invariant
            j <= added.len(),
            i == profiles.len(),
            newest_first(out@),
            forall|y: u16| #[trigger] out@.to_set().contains(y) <==> {
                ||| y == current
                ||| exists|k: int| 0 <= k < profiles@.len() && (#[trigger] profiles@[k]).tax_year == y
                ||| exists|k: int| 0 <= k < j && added@[k] == y
            },
        decreases added.len() - j,
    {
        let ghost before = out@.to_set();
        insert_year(&mut out, added[j]);
        proof {
            assert forall|y: u16| #[trigger] out@.to_set().contains(y) <==> {
                ||| y == current
                ||| exists|k: int| 0 <= k < profiles@.len() && (#[trigger] profiles@[k]).tax_year == y
                ||| exists|k: int| 0 <= k < j + 1 && added@[k] == y
            } by {
                if exists|k: int| 0 <= k < j + 1 && added@[k] == y {
                    let k = choose|k: int| 0 <= k < j + 1 && added@[k] == y;
                    if k < j {
                        assert(before.contains(y));
                    }
                }
                if before.contains(y) && exists|k: int| 0 <= k < j && added@[k] == y {
                    let k = choose|k: int| 0 <= k < j && added@[k] == y;
                    assert(0 <= k < j + 1 && added@[k] == y);
                }
            }
        }
        j += 1;
    }
    proof {
        assert forall|y: u16| #[trigger] out@.contains(y) <==> {
            ||| y == current
            ||| exists|i: int| 0 <= i < profiles@.len() && (#[trigger] profiles@[i]).tax_year == y
            ||| added@.contains(y)
        } by {
            assert(out@.contains(y) <==> out@.to_set().contains(y));
            if added@.contains(y) {
                let k = choose|k: int| 0 <= k < added@.len() && added@[k] == y;
                assert(exists|k: int| 0 <= k < j && added@[k] == y);
            }
        }
    }
    out
}

} // verus!
