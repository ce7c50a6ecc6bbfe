//! Capital gains realised by the trades in the portfolio's trade logs.
//!
//! A sell against a long lot (or a buy against a short one) closes it, and
//! the gain on that lot is taxable in the year it closed. This module turns
//! every position's trade log into a flat list of such closings,
//! characterised the way a return would characterise them.

use vstd::prelude::*;
use std::collections::BTreeMap;
use crate::keys::years_are_ordered;
use crate::calendar::{chrono_format, date_le, format_date, valid_date, Date};
use crate::lots::{matched, well_formed_trades, ClosedLot, LotAllocation};
use crate::money::{abs, digits_text, push_digits, round_half_even, string_from};
use crate::option::{contract_string, contract_text};
use crate::position::{Position, PositionKind};
use crate::tax::TradeGains;
use crate::text::{chars_of, lemma_text_le_total, lemma_text_le_transitive, text_le, text_le_exec};
use vstd::string::StringExecFns;

verus! {

/// One closed lot, with enough context to list it on its own.
#[derive(Debug, Clone, PartialEq, Eq)]
pub struct RealizedLot {
    pub symbol: String,
    /// "Stock" or the contract, e.g. "Call $150 17-Jan-25".
    pub instrument: String,
    pub is_option: bool,
    pub open_date: Date,
    pub close_date: Date,
    pub quantity: i32,
    pub open_price: i64,
    pub close_price: i64,
    /// Gain in micros (negative for a loss); options × 100 per contract.
    pub gain: i128,
    pub is_long_term: bool,
}

impl RealizedLot {
    /// The tax year of the closing.
    pub fn year(&self) -> (r: i32)
        ensures
            r == self.close_date.year,
    {
        self.close_date.year
    }
}

// ── Ordering ─────────────────────────────────────────────────────────────────

/// Closing date first, then symbol.
pub open spec fn key_le(ad: Date, asym: Seq<char>, bd: Date, bsym: Seq<char>) -> bool {
    (date_le(ad, bd) && ad != bd) || (ad == bd && text_le(asym, bsym))
}

fn lot_le(a: &RealizedLot, b: &RealizedLot) -> (r: bool)
    ensures
        r == key_le(a.close_date, a.symbol@, b.close_date, b.symbol@),
{
    let x = a.close_date;
    let y = b.close_date;
    if x.year != y.year || x.month != y.month || x.day != y.day {
        crate::calendar::date_le_exec(x, y)
    } else {
        let sa = chars_of(a.symbol.as_str());
        let sb = chars_of(b.symbol.as_str());
        text_le_exec(&sa, &sb)
    }
}

// ── What is listed ───────────────────────────────────────────────────────────

/// The closings of a position's trade log (FIFO).
pub open spec fn closings_of(p: Position) -> Seq<ClosedLot> {
    matched(p.trades@, LotAllocation::Fifo).1
}

/// `(position, closing)` index pairs in the order the portfolio lists them:
/// position by position, each position's closings in order. Positions with no
/// trades contribute nothing.
pub open spec fn entries(ps: Seq<Position>) -> Seq<(int, int)>
    decreases ps.len(),
{
    if ps.len() == 0 {
        Seq::empty()
    } else {
        entries(ps.drop_last()) + if ps.last().trades@.len() > 0 {
            Seq::new(closings_of(ps.last()).len(), |c: int| (ps.len() - 1, c))
        } else {
            Seq::empty()
        }
    }
}

pub open spec fn entry_le(ps: Seq<Position>, a: (int, int), b: (int, int)) -> bool {
    key_le(
        closings_of(ps[a.0])[a.1].close_date,
        ps[a.0].symbol@,
        closings_of(ps[b.0])[b.1].close_date,
        ps[b.0].symbol@,
    )
}

/// `e` placed after every entry that sorts on or before it.
pub open spec fn insert_entry(ps: Seq<Position>, s: Seq<(int, int)>, e: (int, int)) -> Seq<(int, int)>
    decreases s.len(),
{
    if s.len() == 0 {
        seq![e]
    } else if entry_le(ps, s.last(), e) {
        s.push(e)
    } else {
        insert_entry(ps, s.drop_last(), e).push(s.last())
    }
}

/// The entries by closing date, then symbol; ties keep their listing order.
pub open spec fn sort_entries(ps: Seq<Position>, s: Seq<(int, int)>) -> Seq<(int, int)>
    decreases s.len(),
{
    if s.len() == 0 {
        s
    } else {
        insert_entry(ps, sort_entries(ps, s.drop_last()), s.last())
    }
}

/// "Stock", or the contract, as in "Call $150 17-Jan-25".
pub open spec fn instrument_text(p: Position) -> Seq<char> {
    match p.option_spec {
        Some(s) => contract_text(s),
        None => "Stock"@,
    }
}

/// `r` lists closing `e.1` of position `e.0`: options are scaled by 100
/// shares per contract and are always short-term.
pub open spec fn describes(ps: Seq<Position>, e: (int, int), r: RealizedLot) -> bool {
    let p = ps[e.0];
    let c = closings_of(p)[e.1];
    let is_opt = p.kind == PositionKind::Option;
    &&& r.symbol@ == p.symbol@
    &&& r.instrument@ == instrument_text(p)
    &&& r.is_option == is_opt
    &&& r.open_date == c.open_date
    &&& r.close_date == c.close_date
    &&& r.quantity == c.quantity
    &&& r.open_price == c.open_price
    &&& r.close_price == c.close_price
    &&& r.gain == c.realized_pnl * (if is_opt { 100int } else { 1int })
    &&& r.is_long_term == (!is_opt && c.is_long_term)
}

/// Positions whose trade logs can be matched and whose contracts can be
/// printed.
pub open spec fn listable(ps: Seq<Position>) -> bool {
    forall|i: int| 0 <= i < ps.len() ==> {
        &&& well_formed_trades(#[trigger] ps[i].trades@)
        &&& (ps[i].option_spec matches Some(s) ==> valid_date(s.expiry))
    }
}

fn instrument_string(p: &Position) -> (r: String)
    requires
        p.option_spec matches Some(s) ==> valid_date(s.expiry),
    ensures
        r@ == instrument_text(*p),
{
    match &p.option_spec {
        Some(s) => contract_string(s),
        None => String::from_str("Stock"),
    }
}

proof fn lemma_insert_entry_at(ps: Seq<Position>, s: Seq<(int, int)>, e: (int, int), j: int)
    requires
        0 <= j <= s.len(),
        forall|k: int| j <= k < s.len() ==> !entry_le(ps, #[trigger] s[k], e),
        j == 0 || entry_le(ps, s[j - 1], e),
    ensures
        insert_entry(ps, s, e) == s.take(j).push(e) + s.skip(j),
    decreases s.len(),
{
    if s.len() == 0 {
        assert(s.take(j).push(e) + s.skip(j) == seq![e]);
    } else if j == s.len() {
        assert(s.take(j) == s);
        assert(s.take(j).push(e) + s.skip(j) == s.push(e));
    } else {
        let d = s.drop_last();
        assert(!entry_le(ps, s[s.len() - 1], e));
        assert forall|k: int| j <= k < d.len() implies !entry_le(ps, #[trigger] d[k], e) by {
            assert(d[k] == s[k]);
        }
        if j > 0 {
            assert(d[j - 1] == s[j - 1]);
        }
        lemma_insert_entry_at(ps, d, e, j);
        assert(d.take(j) == s.take(j));
        assert(d.skip(j).push(s.last()) == s.skip(j));
        assert((d.take(j).push(e) + d.skip(j)).push(s.last()) == d.take(j).push(e) + d.skip(j).push(s.last()));
    }
}

/// Inserts `lot` (which lists entry `e`) into the sorted list.
fn insert_sorted(
    sorted: &mut Vec<RealizedLot>,
    lot: RealizedLot,
    Ghost(ps): Ghost<Seq<Position>>,
    Ghost(es): Ghost<Seq<(int, int)>>,
    Ghost(e): Ghost<(int, int)>,
) -> (r: Ghost<Seq<(int, int)>>)
    requires
        old(sorted)@.len() == es.len(),
        forall|k: int| 0 <= k < es.len() ==> describes(ps, #[trigger] es[k], old(sorted)@[k]),
        describes(ps, e, lot),
    ensures
        r@ == insert_entry(ps, es, e),
        final(sorted)@.len() == r@.len(),
        forall|k: int| 0 <= k < r@.len() ==> describes(ps, #[trigger] r@[k], final(sorted)@[k]),
{
    let mut j = sorted.len();
    while j > 0 && !lot_le(&sorted[j - 1], &lot)
        invariant
            j <= sorted.len(),
            sorted@ == old(sorted)@,
            sorted@.len() == es.len(),
            forall|k: int| 0 <= k < es.len() ==> describes(ps, #[trigger] es[k], sorted@[k]),
            describes(ps, e, lot),
            forall|k: int| j <= k < es.len() ==> !entry_le(ps, #[trigger] es[k], e),
        decreases j,
    {
        proof {
            assert(describes(ps, es[j - 1], sorted@[j - 1]));
        }
        j -= 1;
    }
    proof {
        if j > 0 {
            assert(describes(ps, es[j - 1], sorted@[j - 1]));
        }
        lemma_insert_entry_at(ps, es, e, j as int);
    }
    let ghost before = sorted@;
    sorted.insert(j, lot);
    let ghost r = es.take(j as int).push(e) + es.skip(j as int);
    proof {
        assert forall|k: int| 0 <= k < r.len() implies describes(ps, #[trigger] r[k], sorted@[k]) by {
            if k < j {
                assert(r[k] == es[k]);
                assert(sorted@[k] == before[k]);
            } else if k == j {
                assert(r[k] == e);
            } else {
                assert(r[k] == es[k - 1]);
                assert(sorted@[k] == before[k - 1]);
            }
        }
    }
    Ghost(r)
}

/// Every closed lot across `positions`, FIFO-matched, ordered by closing date
/// and then symbol (ties keep portfolio order).
///
/// Long-term status follows the holding period for stock. Options are always
/// short-term here — the same rule the portfolio's mark-to-market tax uses —
/// so the two never disagree about a contract.
pub fn realized_lots(positions: &[Position]) -> (r: Vec<RealizedLot>)
    requires
        listable(positions@),
    ensures
        r@.len() == sort_entries(positions@, entries(positions@)).len(),
        forall|k: int| 0 <= k < r@.len() ==> describes(
            positions@,
            #[trigger] sort_entries(positions@, entries(positions@))[k],
            r@[k],
        ),
{
    let ghost ps = positions@;
    let mut sorted: Vec<RealizedLot> = Vec::new();
    let ghost mut es: Seq<(int, int)> = Seq::empty();
    let ghost mut ses: Seq<(int, int)> = Seq::empty();
    let mut pi: usize = 0;
    while pi < positions.len()
        invariant
            pi <= positions.len(),
            ps == positions@,
            listable(ps),
            es == entries(ps.take(pi as int)),
            ses == sort_entries(ps, es),
            sorted@.len() == ses.len(),
            forall|k: int| 0 <= k < ses.len() ==> describes(ps, #[trigger] ses[k], sorted@[k]),
        decreases positions.len() - pi,
    {
        let p = &positions[pi];
        proof {
            assert(ps.take(pi + 1).drop_last() == ps.take(pi as int));
            assert(ps.take(pi + 1).last() == ps[pi as int]);
            assert(well_formed_trades(ps[pi as int].trades@));
        }
        if p.trades.len() > 0 {
            let is_option = p.kind == PositionKind::Option;
            let instrument = instrument_string(p);
            let (_, closed) = p.compute_lots();
            let ghost base = es;
            let mut ci: usize = 0;
            while ci < closed.len()
                invariant
                    ci <= closed.len(),
                    ps == positions@,
                    pi < ps.len(),
                    well_formed_trades(ps[pi as int].trades@),
                    *p == ps[pi as int],
                    closed@ == closings_of(ps[pi as int]),
                    instrument@ == instrument_text(ps[pi as int]),
                    is_option == (ps[pi as int].kind == PositionKind::Option),
                    es == base + Seq::new(ci as nat, |c: int| (pi as int, c)),
                    ses == sort_entries(ps, es),
                    sorted@.len() == ses.len(),
                    forall|k: int| 0 <= k < ses.len() ==> describes(ps, #[trigger] ses[k], sorted@[k]),
                decreases closed.len() - ci,
            {
                let c = closed[ci];
                proof {
                    crate::lot_laws::closings_are_proper(ps[pi as int].trades@, LotAllocation::Fifo);
                    assert(crate::lot_laws::proper_closing(closed@[ci as int]));
                }
                let gain: i128 = if is_option { c.realized_pnl * 100 } else { c.realized_pnl };
                let lot = RealizedLot {
                    symbol: p.symbol.clone(),
                    instrument: instrument.clone(),
                    is_option,
                    open_date: c.open_date,
                    close_date: c.close_date,
                    quantity: c.quantity,
                    open_price: c.open_price,
                    close_price: c.close_price,
                    gain,
                    is_long_term: !is_option && c.is_long_term,
                };
                let ghost e = (pi as int, ci as int);
                let Ghost(nses) = insert_sorted(&mut sorted, lot, Ghost(ps), Ghost(ses), Ghost(e));
                proof {
                    let nes = base + Seq::new((ci + 1) as nat, |c: int| (pi as int, c));
                    assert(nes == es.push(e));
                    assert(nes.drop_last() == es);
                    es = nes;
                    ses = nses;
                }
                ci += 1;
            }
            proof {
                assert(Seq::new(closed.len() as nat, |c: int| (pi as int, c)) == Seq::new(closings_of(ps.take(pi + 1).last()).len(), |c: int| (ps.take(pi + 1).len() - 1, c)));
                assert(es == entries(ps.take(pi + 1)));
            }
        } else {
            proof {
                assert(entries(ps.take(pi + 1)) == entries(ps.take(pi as int)) + Seq::<(int, int)>::empty());
                assert(es == entries(ps.take(pi + 1)));
            }
        }
        pi += 1;
    }
    proof {
        assert(ps.take(positions.len() as int) == ps);
    }
    sorted
}

// ── Totals ───────────────────────────────────────────────────────────────────

/// Short-term gains of `lots`, summed.
pub open spec fn st_total(lots: Seq<RealizedLot>) -> int
    decreases lots.len(),
{
    if lots.len() == 0 {
        0
    } else {
        st_total(lots.drop_last()) + if lots.last().is_long_term { 0 } else { lots.last().gain as int }
    }
}

/// Long-term gains of `lots`, summed.
pub open spec fn lt_total(lots: Seq<RealizedLot>) -> int
    decreases lots.len(),
{
    if lots.len() == 0 {
        0
    } else {
        lt_total(lots.drop_last()) + if lots.last().is_long_term { lots.last().gain as int } else { 0 }
    }
}

/// The sizes of all gains and losses, summed.
pub open spec fn gross_total(lots: Seq<RealizedLot>) -> int
    decreases lots.len(),
{
    if lots.len() == 0 { 0 } else { gross_total(lots.drop_last()) + abs(lots.last().gain as int) }
}

/// Totals that an `i128` can hold however the lots are grouped.
pub open spec fn totals_fit(lots: Seq<RealizedLot>) -> bool {
    gross_total(lots) <= i128::MAX
}

/// The lots that closed in tax year `y`.
pub open spec fn closed_in(lots: Seq<RealizedLot>, y: int) -> Seq<RealizedLot>
    decreases lots.len(),
{
    if lots.len() == 0 {
        lots
    } else if lots.last().close_date.year == y {
        closed_in(lots.drop_last(), y).push(lots.last())
    } else {
        closed_in(lots.drop_last(), y)
    }
}

proof fn lemma_totals_bounded(lots: Seq<RealizedLot>)
    ensures
        abs(st_total(lots)) + abs(lt_total(lots)) <= gross_total(lots),
        gross_total(lots) >= 0,
    decreases lots.len(),
{
    if lots.len() > 0 {
        lemma_totals_bounded(lots.drop_last());
    }
}

proof fn lemma_gross_prefix(lots: Seq<RealizedLot>, i: int)
    requires
        0 <= i <= lots.len(),
    ensures
        gross_total(lots.take(i)) <= gross_total(lots),
    decreases lots.len() - i,
{
    if i < lots.len() {
        lemma_gross_prefix(lots, i + 1);
        assert(lots.take(i + 1).drop_last() == lots.take(i));
    } else {
        assert(lots.take(i) == lots);
    }
}

proof fn lemma_gross_closed_in(lots: Seq<RealizedLot>, y: int)
    ensures
        gross_total(closed_in(lots, y)) <= gross_total(lots),
    decreases lots.len(),
{
    if lots.len() > 0 {
        lemma_gross_closed_in(lots.drop_last(), y);
        if lots.last().close_date.year == y {
            assert(closed_in(lots.drop_last(), y).push(lots.last()).drop_last() == closed_in(lots.drop_last(), y));
        }
    }
}

impl TradeGains {
    /// Counts one realised lot toward its term's total.
    fn add(&mut self, l: &RealizedLot)
        requires
            abs(old(self).st as int) + abs(old(self).lt as int) + abs(l.gain as int) <= i128::MAX,
        ensures
            final(self).st == old(self).st + if l.is_long_term { 0 } else { l.gain as int },
            final(self).lt == old(self).lt + if l.is_long_term { l.gain as int } else { 0 },
    {
        if l.is_long_term {
            self.lt = self.lt + l.gain;
        } else {
            self.st = self.st + l.gain;
        }
    }
}

/// Short- and long-term totals of `lots`.
pub fn trade_gains(lots: &[RealizedLot]) -> (r: TradeGains)
    requires
        totals_fit(lots@),
    ensures
        r.st == st_total(lots@),
        r.lt == lt_total(lots@),
{
    let mut g = TradeGains::default();
    let mut i: usize = 0;
    while i < lots.len()
        invariant
            i <= lots.len(),
            totals_fit(lots@),
            g.st == st_total(lots@.take(i as int)),
            g.lt == lt_total(lots@.take(i as int)),
        decreases lots.len() - i,
    {
        proof {
            assert(lots@.take(i + 1).drop_last() == lots@.take(i as int));
            assert(lots@.take(i + 1).last() == lots@[i as int]);
            lemma_totals_bounded(lots@.take(i as int));
            lemma_gross_prefix(lots@, i + 1);
        }
        g.add(&lots[i]);
        i += 1;
    }
    proof {
        assert(lots@.take(lots.len() as int) == lots@);
    }
    g
}

/// Totals per closing year. Years with nothing closed are absent.
pub fn trade_gains_by_year(lots: &[RealizedLot]) -> (r: BTreeMap<i32, TradeGains>)
    requires
        totals_fit(lots@),
    ensures
        forall|y: i32| #[trigger] r@.contains_key(y) <==> closed_in(lots@, y as int).len() > 0,
        forall|y: i32| #[trigger] r@.contains_key(y) ==> r@[y].st == st_total(closed_in(lots@, y as int))
            && r@[y].lt == lt_total(closed_in(lots@, y as int)),
{
    proof {
        years_are_ordered();
    }
    let mut out: BTreeMap<i32, TradeGains> = BTreeMap::new();
    let mut i: usize = 0;
    while i < lots.len()
        invariant
            i <= lots.len(),
            totals_fit(lots@),
            forall|y: i32| #[trigger] out@.contains_key(y) <==> closed_in(lots@.take(i as int), y as int).len() > 0,
            forall|y: i32| #[trigger] out@.contains_key(y) ==> out@[y].st == st_total(closed_in(lots@.take(i as int), y as int))
                && out@[y].lt == lt_total(closed_in(lots@.take(i as int), y as int)),
        decreases lots.len() - i,
    {
        let l = &lots[i];
        let y = l.year();
        let ghost pre = lots@.take(i as int);
        let ghost post = lots@.take(i + 1);
        proof {
            assert(post.drop_last() == pre);
            assert(post.last() == lots@[i as int]);
            assert(closed_in(post, y as int) == closed_in(pre, y as int).push(lots@[i as int]));
            assert(closed_in(pre, y as int).push(lots@[i as int]).drop_last() == closed_in(pre, y as int));
            assert forall|z: i32| z != y implies #[trigger] closed_in(post, z as int) == closed_in(pre, z as int) by {}
            lemma_gross_closed_in(pre, y as int);
            lemma_gross_prefix(lots@, i + 1);
            lemma_totals_bounded(closed_in(pre, y as int));
        }
        let mut g = match out.get(&y) {
            Some(v) => *v,
            None => TradeGains::default(),
        };
        proof {
            if !out@.contains_key(y) {
                assert(closed_in(pre, y as int).len() == 0);
            }
        }
        g.add(l);
        out.insert(y, g);
        proof {
            assert(st_total(closed_in(post, y as int)) == g.st);
            assert(lt_total(closed_in(post, y as int)) == g.lt);
        }
        i += 1;
    }
    proof {
        assert(lots@.take(lots.len() as int) == lots@);
    }
    out
}

// ── The order of the realised lots ───────────────────────────────────────────

proof fn lemma_key_transitive(ad: Date, asym: Seq<char>, bd: Date, bsym: Seq<char>, cd: Date, csym: Seq<char>)
    requires
        key_le(ad, asym, bd, bsym),
        key_le(bd, bsym, cd, csym),
    ensures
        key_le(ad, asym, cd, csym),
{
    if ad == bd && bd == cd {
        lemma_text_le_transitive(asym, bsym, csym);
    }
}

proof fn lemma_key_total(ad: Date, asym: Seq<char>, bd: Date, bsym: Seq<char>)
    ensures
        key_le(ad, asym, bd, bsym) || key_le(bd, bsym, ad, asym),
{
    lemma_text_le_total(asym, bsym);
}

/// Each entry sorts on or before every later one.
pub open spec fn entries_sorted(ps: Seq<Position>, s: Seq<(int, int)>) -> bool {
    forall|a: int, b: int| 0 <= a < b < s.len() ==> entry_le(ps, #[trigger] s[a], #[trigger] s[b])
}

proof fn lemma_insert_entry_from(ps: Seq<Position>, s: Seq<(int, int)>, e: (int, int))
    ensures
        insert_entry(ps, s, e).len() == s.len() + 1,
        forall|k: int| 0 <= k < s.len() + 1 ==> #[trigger] insert_entry(ps, s, e)[k] == e || s.contains(insert_entry(ps, s, e)[k]),
    decreases s.len(),
{
    if s.len() > 0 && !entry_le(ps, s.last(), e) {
        let d = s.drop_last();
        lemma_insert_entry_from(ps, d, e);
        let r = insert_entry(ps, d, e);
        assert forall|k: int| 0 <= k < s.len() + 1 implies #[trigger] insert_entry(ps, s, e)[k] == e
            || s.contains(insert_entry(ps, s, e)[k]) by {
            if k < r.len() {
                assert(insert_entry(ps, s, e)[k] == r[k]);
                if r[k] != e {
                    let m = choose|m: int| 0 <= m < d.len() && d[m] == r[k];
                    assert(s[m] == d[m]);
                }
            } else {
                assert(insert_entry(ps, s, e)[k] == s.last());
                assert(s[s.len() - 1] == s.last());
            }
        }
    } else if s.len() > 0 {
        assert forall|k: int| 0 <= k < s.len() + 1 implies #[trigger] insert_entry(ps, s, e)[k] == e
            || s.contains(insert_entry(ps, s, e)[k]) by {
            if k < s.len() {
                assert(insert_entry(ps, s, e)[k] == s[k]);
            }
        }
    }
}

proof fn lemma_insert_entry_sorted(ps: Seq<Position>, s: Seq<(int, int)>, e: (int, int))
    requires
        entries_sorted(ps, s),
    ensures
        entries_sorted(ps, insert_entry(ps, s, e)),
    decreases s.len(),
{
    let key = |x: (int, int)| (closings_of(ps[x.0])[x.1].close_date, ps[x.0].symbol@);
    if s.len() == 0 {
    } else if entry_le(ps, s.last(), e) {
        let r = s.push(e);
        assert forall|a: int, b: int| 0 <= a < b < r.len() implies entry_le(ps, #[trigger] r[a], #[trigger] r[b]) by {
            if b == s.len() {
                assert(r[a] == s[a]);
                if a < s.len() - 1 {
                    assert(entry_le(ps, s[a], s[s.len() - 1]));
                    lemma_key_transitive(key(s[a]).0, key(s[a]).1, key(s.last()).0, key(s.last()).1, key(e).0, key(e).1);
                }
            } else {
                assert(r[a] == s[a] && r[b] == s[b]);
            }
        }
    } else {
        let d = s.drop_last();
        let l = s.last();
        assert(entries_sorted(ps, d)) by {
            assert forall|a: int, b: int| 0 <= a < b < d.len() implies entry_le(ps, #[trigger] d[a], #[trigger] d[b]) by {
                assert(d[a] == s[a] && d[b] == s[b]);
            }
        }
        lemma_insert_entry_sorted(ps, d, e);
        lemma_insert_entry_from(ps, d, e);
        let r = insert_entry(ps, d, e);
        let out = r.push(l);
        lemma_key_total(key(l).0, key(l).1, key(e).0, key(e).1);
        assert forall|a: int, b: int| 0 <= a < b < out.len() implies entry_le(ps, #[trigger] out[a], #[trigger] out[b]) by {
            if b == r.len() {
                assert(out[a] == r[a]);
                assert(out[b] == l);
                if r[a] != e {
                    let m = choose|m: int| 0 <= m < d.len() && d[m] == r[a];
                    assert(s[m] == d[m]);
                    assert(entry_le(ps, s[m], s[s.len() - 1]));
                }
            } else {
                assert(out[a] == r[a] && out[b] == r[b]);
            }
        }
    }
}

proof fn lemma_sort_entries_sorted(ps: Seq<Position>, s: Seq<(int, int)>)
    ensures
        entries_sorted(ps, sort_entries(ps, s)),
    decreases s.len(),
{
    if s.len() > 0 {
        lemma_sort_entries_sorted(ps, s.drop_last());
        lemma_insert_entry_sorted(ps, sort_entries(ps, s.drop_last()), s.last());
    }
}

/// The realised lots come out by closing date, then symbol: each lot sorts
/// on or before every later one.
pub proof fn realized_lots_are_in_order(ps: Seq<Position>, lots: Seq<RealizedLot>)
    requires
        lots.len() == sort_entries(ps, entries(ps)).len(),
        forall|k: int| 0 <= k < lots.len() ==> describes(ps, #[trigger] sort_entries(ps, entries(ps))[k], lots[k]),
    ensures
        forall|a: int, b: int| 0 <= a < b < lots.len()
            ==> key_le(#[trigger] lots[a].close_date, lots[a].symbol@, #[trigger] lots[b].close_date, lots[b].symbol@),
{
    let se = sort_entries(ps, entries(ps));
    lemma_sort_entries_sorted(ps, entries(ps));
    assert forall|a: int, b: int| 0 <= a < b < lots.len()
        implies key_le(#[trigger] lots[a].close_date, lots[a].symbol@, #[trigger] lots[b].close_date, lots[b].symbol@) by {
        assert(describes(ps, se[a], lots[a]));
        assert(describes(ps, se[b], lots[b]));
        assert(entry_le(ps, se[a], se[b]));
    }
}

/// Closings across the positions that have trades.
pub open spec fn closing_count(ps: Seq<Position>) -> int
    decreases ps.len(),
{
    if ps.len() == 0 {
        0
    } else {
        closing_count(ps.drop_last()) + if ps.last().trades@.len() > 0 { closings_of(ps.last()).len() as int } else { 0int }
    }
}

proof fn lemma_entries_len(ps: Seq<Position>)
    ensures
        entries(ps).len() == closing_count(ps),
    decreases ps.len(),
{
    if ps.len() > 0 {
        lemma_entries_len(ps.drop_last());
    }
}

proof fn lemma_sort_entries_len(ps: Seq<Position>, s: Seq<(int, int)>)
    ensures
        sort_entries(ps, s).len() == s.len(),
    decreases s.len(),
{
    if s.len() > 0 {
        lemma_sort_entries_len(ps, s.drop_last());
        lemma_insert_entry_from(ps, sort_entries(ps, s.drop_last()), s.last());
    }
}

/// One realised lot is listed for every closing of every position that has
/// trades.
pub proof fn realized_lots_count_every_closing(ps: Seq<Position>, lots: Seq<RealizedLot>)
    requires
        lots.len() == sort_entries(ps, entries(ps)).len(),
    ensures
        lots.len() == closing_count(ps),
{
    lemma_sort_entries_len(ps, entries(ps));
    lemma_entries_len(ps);
}

} // verus!
