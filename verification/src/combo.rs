//! Tracked option combinations: what is saved of one, the leg rows of the
//! combination editor, and the legs that are complete enough to price.
//!
//! Strikes are in micros (millionths of a dollar); a leg's quantity is signed
//! contracts, positive long and negative short.

use vstd::prelude::*;
use crate::calendar::{chrono_parse, day_number, day_number_exec, parse_date_with, valid_date, Date};
use crate::money::{
    amount_of, decimal_reads_back, decimal_text, fmt_decimal, fmt_integer, int_of, integer_reads_back, integer_text,
    parse_amount, parse_int,
};
use crate::option::OptionType;
use crate::text::{insert_distinct, names, str_eq, strictly_sorted, text_lt, trim, trimmed};
use vstd::string::StringExecFns;

verus! {

/// One leg of a saved combination; `expiry` is kept as typed (`YYYY-MM-DD`).
#[derive(Debug, Clone)]
pub struct ComboLegSpec {
    pub option_type: OptionType,
    pub strike: i64,
    pub expiry: String,
    pub quantity: i32,
}

/// A tracked option combination as it is saved. Spot, volatility and rate are
/// not part of it: they come back from live market data.
#[derive(Debug, Clone)]
pub struct Combo {
    pub id: u128,
    pub label: String,
    pub symbol: String,
    pub legs: Vec<ComboLegSpec>,
    pub vol_mode: bool,
}

/// One leg row of the combination editor, as typed.
#[derive(Debug, Clone)]
pub struct LegFields {
    pub option_type: OptionType,
    pub strike: String,
    pub expiry: String,
    pub quantity: String,
}

/// A leg row is saved when its strike is a number and its quantity a
/// non-zero whole number.
pub open spec fn leg_kept(f: LegFields) -> bool {
    &&& amount_of(f.strike@) is Some
    &&& int_of(f.quantity@) matches Some(q) && q != 0
}

/// The leg rows that are saved, in order.
pub open spec fn kept_legs(fs: Seq<LegFields>) -> Seq<LegFields>
    decreases fs.len(),
{
    if fs.len() == 0 {
        Seq::empty()
    } else {
        let r = kept_legs(fs.drop_last());
        if leg_kept(fs.last()) { r.push(fs.last()) } else { r }
    }
}

/// `l` is what saving the leg row `f` records.
pub open spec fn saves_as(l: ComboLegSpec, f: LegFields) -> bool {
    &&& l.option_type == f.option_type
    &&& amount_of(f.strike@) == Some(l.strike)
    &&& l.expiry@ == f.expiry@
    &&& int_of(f.quantity@) == Some(l.quantity)
}

/// The combination to save from the editor: its leg rows with an incomplete
/// strike or quantity, or a zero quantity, left out.
pub fn combo_from_fields(id: u128, label: &String, symbol: &String, legs: &[LegFields], vol_mode: bool) -> (c: Combo)
    ensures
        c.id == id,
        c.label@ == label@,
        c.symbol@ == symbol@,
        c.vol_mode == vol_mode,
        c.legs@.len() == kept_legs(legs@).len(),
        forall|k: int| 0 <= k < c.legs@.len() ==> saves_as(#[trigger] c.legs@[k], kept_legs(legs@)[k]),
{
    let mut out: Vec<ComboLegSpec> = Vec::new();
    let mut i: usize = 0;
    while i < legs.len()
        invariant
            i <= legs.len(),
            out@.len() == kept_legs(legs@.take(i as int)).len(),
            forall|k: int| 0 <= k < out@.len() ==> saves_as(#[trigger] out@[k], kept_legs(legs@.take(i as int))[k]),
        decreases legs.len() - i,
    {
        let ghost before = legs@.take(i as int);
        proof {
            assert(legs@.take(i + 1).drop_last() == before);
            assert(legs@.take(i + 1).last() == legs@[i as int]);
        }
        let l = &legs[i];
        match parse_amount(l.strike.as_str()) {
            Some(k) => match parse_int(l.quantity.as_str()) {
                Some(q) => {
                    if q != 0 {
                        out.push(ComboLegSpec { option_type: l.option_type, strike: k, expiry: l.expiry.clone(), quantity: q });
                    }
                },
                None => {},
            },
            None => {},
        }
        i += 1;
    }
    proof {
        assert(legs@.take(legs.len() as int) == legs@);
    }
    Combo { id, label: label.clone(), symbol: symbol.clone(), legs: out, vol_mode }
}

/// The leg row that shows a saved leg: its strike and quantity printed as
/// plain numbers, its expiry as saved.
pub open spec fn shows_leg(f: LegFields, l: ComboLegSpec) -> bool {
    &&& f.option_type == l.option_type
    &&& f.strike@ == decimal_text(l.strike as int)
    &&& f.expiry@ == l.expiry@
    &&& f.quantity@ == integer_text(l.quantity as int)
}

/// The row a combination without legs is opened with: one long call, the
/// rest to be filled in.
pub open spec fn is_starter_leg(f: LegFields) -> bool {
    &&& f.option_type == OptionType::Call
    &&& f.strike@.len() == 0
    &&& f.expiry@.len() == 0
    &&& f.quantity@ == "1"@
}

/// The editor's leg rows for a saved combination `legs`.
pub open spec fn opens_as(fs: Seq<LegFields>, legs: Seq<ComboLegSpec>) -> bool {
    if legs.len() == 0 {
        fs.len() == 1 && is_starter_leg(fs[0])
    } else {
        fs.len() == legs.len() && forall|k: int| 0 <= k < fs.len() ==> shows_leg(#[trigger] fs[k], legs[k])
    }
}

/// The leg rows a saved combination is reopened with.
pub fn leg_fields_of(c: &Combo) -> (r: Vec<LegFields>)
    ensures
        opens_as(r@, c.legs@),
{
    let mut out: Vec<LegFields> = Vec::new();
    if c.legs.len() == 0 {
        proof {
            reveal_strlit("1");
        }
        out.push(LegFields {
            option_type: OptionType::Call,
            strike: String::new(),
            expiry: String::new(),
            quantity: String::from_str("1"),
        });
        return out;
    }
    let mut i: usize = 0;
    while i < c.legs.len()
        invariant
            i <= c.legs.len(),
            out@.len() == i,
            forall|k: int| 0 <= k < i ==> shows_leg(#[trigger] out@[k], c.legs@[k]),
        decreases c.legs.len() - i,
    {
        let l = &c.legs[i];
        out.push(LegFields {
            option_type: l.option_type,
            strike: fmt_decimal(l.strike),
            expiry: l.expiry.clone(),
            quantity: fmt_integer(l.quantity as i64),
        });
        i += 1;
    }
    out
}

proof fn lemma_all_kept(fs: Seq<LegFields>, legs: Seq<ComboLegSpec>)
    requires
        fs.len() == legs.len(),
        forall|k: int| 0 <= k < fs.len() ==> shows_leg(#[trigger] fs[k], legs[k]),
        forall|k: int| 0 <= k < legs.len() ==> (#[trigger] legs[k]).quantity != 0,
    ensures
        kept_legs(fs) == fs,
    decreases fs.len(),
{
    if fs.len() > 0 {
        let n = fs.len() - 1;
        lemma_all_kept(fs.drop_last(), legs.drop_last());
        assert(shows_leg(fs[n], legs[n]));
        assert(legs[n].quantity != 0);
        decimal_reads_back(legs[n].strike as int);
        integer_reads_back(legs[n].quantity as int);
        assert(leg_kept(fs.last()));
        assert(fs.drop_last().push(fs.last()) == fs);
    }
}

/// A saved combination whose legs all have a quantity, reopened in the
/// editor and saved again, records the same legs.
pub proof fn reopened_combo_saves_its_legs(legs: Seq<ComboLegSpec>, fs: Seq<LegFields>)
    requires
        opens_as(fs, legs),
        forall|k: int| 0 <= k < legs.len() ==> (#[trigger] legs[k]).quantity != 0,
    ensures
        kept_legs(fs).len() == legs.len(),
        forall|k: int| 0 <= k < legs.len() ==> saves_as(#[trigger] legs[k], kept_legs(fs)[k]),
{
    if legs.len() == 0 {
        reveal_with_fuel(kept_legs, 2);
        crate::money::lemma_empty_not_amount();
        assert(amount_of(fs[0].strike@) is None) by {
            assert(trim(fs[0].strike@) =~= Seq::<char>::empty());
        }
        assert(fs.drop_last() =~= Seq::<LegFields>::empty());
    } else {
        lemma_all_kept(fs, legs);
        assert forall|k: int| 0 <= k < legs.len() implies saves_as(#[trigger] legs[k], kept_legs(fs)[k]) by {
            assert(shows_leg(fs[k], legs[k]));
            decimal_reads_back(legs[k].strike as int);
            integer_reads_back(legs[k].quantity as int);
        }
    }
}

// ── Pricing the legs ─────────────────────────────────────────────────────────

/// A leg ready to price: a positive strike, a non-zero quantity, and the
/// whole days until expiry (zero once it has passed).
#[derive(Debug, Clone, Copy, PartialEq, Eq, Structural)]
pub struct PricedLeg {
    pub option_type: OptionType,
    pub strike: i64,
    pub days_to_expiry: i64,
    pub quantity: i32,
}

/// A leg row is priced when its strike is a positive number, its quantity a
/// non-zero whole number and its expiry an ISO date.
pub open spec fn leg_priceable(f: LegFields) -> bool {
    &&& amount_of(f.strike@) matches Some(k) && k > 0
    &&& int_of(f.quantity@) matches Some(q) && q != 0
    &&& chrono_parse(trim(f.expiry@), "%Y-%m-%d"@) is Some
}

/// The leg rows that are priced, in order.
pub open spec fn priceable_legs(fs: Seq<LegFields>) -> Seq<LegFields>
    decreases fs.len(),
{
    if fs.len() == 0 {
        Seq::empty()
    } else {
        let r = priceable_legs(fs.drop_last());
        if leg_priceable(fs.last()) { r.push(fs.last()) } else { r }
    }
}

/// `p` is how the leg row `f` is priced on `today`.
pub open spec fn prices_as(p: PricedLeg, f: LegFields, today: Date) -> bool {
    &&& p.option_type == f.option_type
    &&& amount_of(f.strike@) == Some(p.strike)
    &&& int_of(f.quantity@) == Some(p.quantity)
    &&& chrono_parse(trim(f.expiry@), "%Y-%m-%d"@) matches Some(d)
        && p.days_to_expiry == (if day_number(d) - day_number(today) > 0 { day_number(d) - day_number(today) } else { 0 })
}

/// The legs of the editor that can be priced on `today`, with the days each
/// has left; incomplete rows are skipped.
pub fn priced_legs(legs: &[LegFields], today: Date) -> (r: Vec<PricedLeg>)
    requires
        valid_date(today),
    ensures
        r@.len() == priceable_legs(legs@).len(),
        forall|k: int| 0 <= k < r@.len() ==> prices_as(#[trigger] r@[k], priceable_legs(legs@)[k], today),
{
    let t0 = day_number_exec(today);
    let mut out: Vec<PricedLeg> = Vec::new();
    let mut i: usize = 0;
    while i < legs.len()
        invariant
            i <= legs.len(),
            valid_date(today),
            t0 == day_number(today),
            -100_000_000 <= t0 <= 100_000_000,
            out@.len() == priceable_legs(legs@.take(i as int)).len(),
            forall|k: int| 0 <= k < out@.len() ==> prices_as(#[trigger] out@[k], priceable_legs(legs@.take(i as int))[k], today),
        decreases legs.len() - i,
    {
        proof {
            assert(legs@.take(i + 1).drop_last() == legs@.take(i as int));
            assert(legs@.take(i + 1).last() == legs@[i as int]);
        }
        let l = &legs[i];
        match parse_amount(l.strike.as_str()) {
            Some(k) => if k > 0 {
                match parse_int(l.quantity.as_str()) {
                    Some(q) => if q != 0 {
                        let e = trimmed(l.expiry.as_str());
                        match parse_date_with(e.as_str(), "%Y-%m-%d") {
                            Some(d) => {
                                let dn = day_number_exec(d);
                                let left = dn - t0;
                                out.push(PricedLeg {
                                    option_type: l.option_type,
                                    strike: k,
                                    days_to_expiry: if left > 0 { left } else { 0 },
                                    quantity: q,
                                });
                            },
                            None => {},
                        }
                    },
                    None => {},
                }
            },
            None => {},
        }
        i += 1;
    }
    proof {
        assert(legs@.take(legs.len() as int) == legs@);
    }
    out
}

// ── Historical series ────────────────────────────────────────────────────────

/// `x` is a timestamp of every leg's series (and there is a leg).
pub open spec fn in_every_leg(legs: Seq<Vec<String>>, x: Seq<char>) -> bool {
    legs.len() > 0 && forall|k: int| 0 <= k < legs.len() ==> names(#[trigger] legs[k]@).contains(x)
}

fn has_text(v: &Vec<String>, x: &String) -> (r: bool)
    ensures
        r == names(v@).contains(x@),
{
    let mut i: usize = 0;
    while i < v.len()
        invariant
            i <= v.len(),
            forall|k: int| 0 <= k < i ==> names(v@)[k] != x@,
        decreases v.len() - i,
    {
        if str_eq(v[i].as_str(), x.as_str()) {
            assert(names(v@)[i as int] == x@);
            return true;
        }
        i += 1;
    }
    proof {
        if names(v@).contains(x@) {
            let k = choose|k: int| 0 <= k < names(v@).len() && names(v@)[k] == x@;
            assert(names(v@)[k] != x@);
        }
    }
    false
}

/// The timestamps a combination's history is drawn on: those present in
/// every leg's series, ascending, each once.
pub fn common_timestamps(legs: &[Vec<String>]) -> (r: Vec<String>)
    ensures
        strictly_sorted(names(r@)),
        forall|x: Seq<char>| #[trigger] names(r@).contains(x) <==> in_every_leg(legs@, x),
{
    let mut out: Vec<String> = Vec::new();
    if legs.len() == 0 {
        proof {
            assert forall|x: Seq<char>| #[trigger] names(out@).contains(x) <==> in_every_leg(legs@, x) by {
                assert(names(out@).len() == 0);
            }
        }
        return out;
    }
    // The first leg's timestamps, sorted and distinct.
    let mut firsts: Vec<String> = Vec::new();
    let first = &legs[0];
    let mut i: usize = 0;
    proof {
        assert(names(firsts@).to_set() =~= names(first@).take(0).to_set());
    }
    while i < first.len()
        invariant
            i <= first.len(),
            first == legs@[0],
            strictly_sorted(names(firsts@)),
            names(firsts@).to_set() == names(first@).take(i as int).to_set(),
        decreases first.len() - i,
    {
        insert_distinct(&mut firsts, &first[i]);
        proof {
            assert(names(first@).take(i + 1) == names(first@).take(i as int).push(first@[i as int]@));
            names(first@).take(i as int).lemma_push_to_set_commute(first@[i as int]@);
        }
        i += 1;
    }
    proof {
        assert(names(first@).take(first.len() as int) == names(first@));
    }
    // Those of them that every other leg has too.
    let mut j: usize = 0;
    while j < firsts.len()
        invariant
            j <= firsts.len(),
            legs.len() > 0,
            first == legs@[0],
            strictly_sorted(names(firsts@)),
            names(firsts@).to_set() == names(first@).to_set(),
            strictly_sorted(names(out@)),
            forall|a: int, b: int| 0 <= a < out@.len() && j <= b < firsts@.len()
                ==> text_lt(#[trigger] names(out@)[a], #[trigger] names(firsts@)[b]),
            forall|x: Seq<char>| #[trigger] names(out@).contains(x) <==> (
                names(firsts@).take(j as int).contains(x) && in_every_leg(legs@, x)),
        decreases firsts.len() - j,
    {
        let x = &firsts[j];
        let mut every = true;
        let mut k: usize = 0;
        while k < legs.len()
            invariant
                k <= legs.len(),
                every == forall|m: int| 0 <= m < k ==> names(#[trigger] legs@[m]@).contains(x@),
            decreases legs.len() - k,
        {
            if !has_text(&legs[k], x) {
                every = false;
            }
            k += 1;
        }
        let ghost before = out@;
        let ghost fj = names(firsts@).take(j as int);
        proof {
            assert(names(firsts@).take(j + 1) == fj.push(x@));
            assert(names(firsts@)[j as int] == x@);
        }
        if every {
            out.push(x.clone());
            proof {
                assert(names(out@) == names(before).push(x@));
            }
        } else {
            proof {
                assert(names(out@) == names(before));
            }
        }
        proof {
            let nf = names(firsts@);
            let no = names(out@);
            assert forall|a: int, b: int| 0 <= a < no.len() && j + 1 <= b < nf.len()
                implies text_lt(#[trigger] no[a], #[trigger] nf[b]) by {
                if a < names(before).len() {
                    assert(no[a] == names(before)[a]);
                } else {
                    assert(no[a] == nf[j as int]);
                }
            }
            assert forall|a: int, b: int| 0 <= a < b < no.len() implies text_lt(#[trigger] no[a], #[trigger] no[b]) by {
                if b < names(before).len() {
                    assert(no[a] == names(before)[a] && no[b] == names(before)[b]);
                } else {
                    assert(no[a] == names(before)[a]);
                    assert(no[b] == nf[j as int]);
                }
            }
            assert forall|y: Seq<char>| #[trigger] no.contains(y) <==> (
                nf.take(j + 1).contains(y) && in_every_leg(legs@, y)) by {
                if no.contains(y) {
                    let a = choose|a: int| 0 <= a < no.len() && no[a] == y;
                    if a < names(before).len() {
                        assert(names(before).contains(y));
                        let c = choose|c: int| 0 <= c < fj.len() && fj[c] == y;
                        assert(nf.take(j + 1)[c] == y);
                    } else {
                        assert(nf.take(j + 1)[j as int] == y);
                    }
                }
                if nf.take(j + 1).contains(y) && in_every_leg(legs@, y) {
                    let c = choose|c: int| 0 <= c < nf.take(j + 1).len() && #[trigger] nf.take(j + 1)[c] == y;
                    if c < j {
                        assert(fj[c] == y);
                        assert(names(before).contains(y));
                        let a = choose|a: int| 0 <= a < names(before).len() && names(before)[a] == y;
                        assert(no[a] == y);
                    } else {
                        assert(y == x@);
                        assert(every);
                        assert(no[no.len() - 1] == y);
                    }
                }
            }
        }
        j += 1;
    }
    proof {
        assert(names(firsts@).take(firsts.len() as int) == names(firsts@));
        assert forall|x: Seq<char>| #[trigger] names(out@).contains(x) <==> in_every_leg(legs@, x) by {
            if in_every_leg(legs@, x) {
                assert(names(legs@[0]@).contains(x));
                assert(names(first@).to_set().contains(x));
                assert(names(firsts@).to_set().contains(x));
            }
        }
    }
    out
}

} // verus!
