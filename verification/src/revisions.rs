//! What changed between two revisions of a tax profile, in words.

use vstd::prelude::*;
use crate::format::{fmt_cash, signed_text};
use crate::money::abs;
use crate::tax::{deduction_code, filing_status_label, TaxRevision};
use crate::text::names;
use vstd::string::StringExecFns;

verus! {

/// "W-2: +$50.0K → +$60.0K".
pub open spec fn change_text(label: Seq<char>, old: int, new: int) -> Seq<char> {
    label + ": "@ + signed_text(old, true) + " → "@ + signed_text(new, true)
}

/// The amounts a comparison of revisions looks at, with their labels.
/// Non-qualified dividends are the ordinary ones less the qualified.
pub open spec fn compared_amounts(o: TaxRevision, n: TaxRevision) -> Seq<(Seq<char>, int, int)> {
    seq![
        ("W-2"@, o.w2_income as int, n.w2_income as int),
        ("Interest"@, o.interest_income as int, n.interest_income as int),
        ("Non-qual div."@, o.ordinary_dividends - o.qualified_dividends, n.ordinary_dividends - n.qualified_dividends),
        ("Qual div."@, o.qualified_dividends as int, n.qualified_dividends as int),
        ("ST gains"@, o.st_capital_gains as int, n.st_capital_gains as int),
        ("LT gains"@, o.lt_capital_gains as int, n.lt_capital_gains as int),
        ("Rental"@, o.rental_income as int, n.rental_income as int),
        ("Itemized ded."@, o.itemized_deductions as int, n.itemized_deductions as int),
        ("CF ST loss"@, o.carryforward_st_loss as int, n.carryforward_st_loss as int),
        ("CF LT loss"@, o.carryforward_lt_loss as int, n.carryforward_lt_loss as int),
    ]
}

/// A line for each amount that moved by more than half a cent.
pub open spec fn amount_changes(fs: Seq<(Seq<char>, int, int)>) -> Seq<Seq<char>>
    decreases fs.len(),
{
    if fs.len() == 0 {
        Seq::empty()
    } else {
        let f = fs.last();
        amount_changes(fs.drop_last()) + if abs(f.1 - f.2) > 5_000 {
            seq![change_text(f.0, f.1, f.2)]
        } else {
            Seq::empty()
        }
    }
}

/// The changes from `o` to `n`: filing status, deduction choice, then each
/// amount that moved.
pub open spec fn revision_changes(o: TaxRevision, n: TaxRevision) -> Seq<Seq<char>> {
    (if o.filing_status != n.filing_status {
        seq!["Filing: "@ + filing_status_label(o.filing_status) + " → "@ + filing_status_label(n.filing_status)]
    } else {
        Seq::empty()
    }) + (if o.deduction_choice != n.deduction_choice {
        seq!["Deduction: "@ + deduction_code(o.deduction_choice) + " → "@ + deduction_code(n.deduction_choice)]
    } else {
        Seq::empty()
    }) + amount_changes(compared_amounts(o, n))
}

/// Amounts small enough that their differences can be formed: within 2^124.
pub open spec fn diffable(r: TaxRevision) -> bool {
    let b = 0x1000_0000_0000_0000_0000_0000_0000_0000int;
    &&& -b <= r.w2_income <= b
    &&& -b <= r.interest_income <= b
    &&& -b <= r.ordinary_dividends <= b
    &&& -b <= r.qualified_dividends <= b
    &&& -b <= r.st_capital_gains <= b
    &&& -b <= r.lt_capital_gains <= b
    &&& -b <= r.rental_income <= b
    &&& -b <= r.itemized_deductions <= b
    &&& -b <= r.carryforward_st_loss <= b
    &&& -b <= r.carryforward_lt_loss <= b
}

/// The amounts compared, as exec values (see [`compared_amounts`]).
fn amounts(o: &TaxRevision, n: &TaxRevision) -> (r: Vec<(&'static str, i128, i128)>)
    requires
        diffable(*o),
        diffable(*n),
    ensures
        r@.len() == compared_amounts(*o, *n).len(),
        forall|k: int| 0 <= k < r@.len() ==> {
            &&& (#[trigger] r@[k]).0@ == compared_amounts(*o, *n)[k].0
            &&& r@[k].1 == compared_amounts(*o, *n)[k].1
            &&& r@[k].2 == compared_amounts(*o, *n)[k].2
            &&& -0x2000_0000_0000_0000_0000_0000_0000_0000int <= r@[k].1 <= 0x2000_0000_0000_0000_0000_0000_0000_0000int
            &&& -0x2000_0000_0000_0000_0000_0000_0000_0000int <= r@[k].2 <= 0x2000_0000_0000_0000_0000_0000_0000_0000int
        },
{
    let mut v: Vec<(&'static str, i128, i128)> = Vec::new();
    v.push(("W-2", o.w2_income, n.w2_income));
    v.push(("Interest", o.interest_income, n.interest_income));
    v.push(("Non-qual div.", o.ordinary_dividends - o.qualified_dividends, n.ordinary_dividends - n.qualified_dividends));
    v.push(("Qual div.", o.qualified_dividends, n.qualified_dividends));
    v.push(("ST gains", o.st_capital_gains, n.st_capital_gains));
    v.push(("LT gains", o.lt_capital_gains, n.lt_capital_gains));
    v.push(("Rental", o.rental_income, n.rental_income));
    v.push(("Itemized ded.", o.itemized_deductions, n.itemized_deductions));
    v.push(("CF ST loss", o.carryforward_st_loss, n.carryforward_st_loss));
    v.push(("CF LT loss", o.carryforward_lt_loss, n.carryforward_lt_loss));
    v
}

/// Human-readable descriptions of what changed from `older` to `newer` (see
/// [`revision_changes`]).
pub fn revision_diff(older: &TaxRevision, newer: &TaxRevision) -> (r: Vec<String>)
    requires
        diffable(*older),
        diffable(*newer),
    ensures
        names(r@) == revision_changes(*older, *newer),
{
    let mut changes: Vec<String> = Vec::new();
    if older.filing_status != newer.filing_status {
        let mut s = String::from_str("Filing: ");
        s.append(older.filing_status.label());
        s.append(" → ");
        s.append(newer.filing_status.label());
        changes.push(s);
    }
    if older.deduction_choice != newer.deduction_choice {
        let mut s = String::from_str("Deduction: ");
        s.append(older.deduction_choice.as_str());
        s.append(" → ");
        s.append(newer.deduction_choice.as_str());
        changes.push(s);
    }
    let ghost head = names(changes@);
    let fields = amounts(older, newer);
    let ghost fs = compared_amounts(*older, *newer);
    let mut i: usize = 0;
    while i < fields.len()
        invariant
            i <= fields.len() == fs.len(),
            fs == compared_amounts(*older, *newer),
            forall|k: int| 0 <= k < fields@.len() ==> {
                &&& (#[trigger] fields@[k]).0@ == fs[k].0
                &&& fields@[k].1 == fs[k].1
                &&& fields@[k].2 == fs[k].2
                &&& -0x2000_0000_0000_0000_0000_0000_0000_0000int <= fields@[k].1 <= 0x2000_0000_0000_0000_0000_0000_0000_0000int
                &&& -0x2000_0000_0000_0000_0000_0000_0000_0000int <= fields@[k].2 <= 0x2000_0000_0000_0000_0000_0000_0000_0000int
            },
            names(changes@) == head + amount_changes(fs.take(i as int)),
        decreases fields.len() - i,
    {
        let (label, old_v, new_v) = fields[i];
        proof {
            assert(fs.take(i + 1).drop_last() == fs.take(i as int));
            assert(fs.take(i + 1).last() == fs[i as int]);
            assert(fields@[i as int].1 == old_v && fields@[i as int].2 == new_v);
        }
        let d = old_v - new_v;
        if d > 5_000 || d < -5_000 {
            let mut s = String::from_str(label);
            s.append(": ");
            let a = fmt_cash(old_v);
            s.append(a.as_str());
            s.append(" → ");
            let b = fmt_cash(new_v);
            s.append(b.as_str());
            let ghost before = changes@;
            changes.push(s);
            proof {
                assert(names(changes@) == names(before).push(s@));
            }
        }
        i += 1;
    }
    proof {
        assert(fs.take(fs.len() as int) == fs);
    }
    changes
}

} // verus!
