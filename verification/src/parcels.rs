//! Folding imported parcels into the portfolio: complete rows grouped by
//! ticker, and each group turned into the trade-log position to save.

use vstd::prelude::*;
use crate::calendar::Date;
use crate::clock::new_id;
use crate::import::{resolution, DraftLot};
use crate::lots::Trade;
use crate::position::{Position, PositionEntryMode, PositionKind};
use crate::text::{insert_distinct, names, str_eq, strictly_sorted, unicode_upper};

verus! {

/// What to do about a ticker that's already in the portfolio.
#[derive(Debug, Clone, Copy, PartialEq, Eq, Structural)]
pub enum Conflict {
    Replace,
    Append,
    Skip,
}

pub open spec fn conflict_label(c: Conflict) -> Seq<char> {
    match c {
        Conflict::Replace => "Replace it"@,
        Conflict::Append => "Add to it"@,
        Conflict::Skip => "Skip"@,
    }
}

impl Conflict {
    pub fn label(self) -> (r: &'static str)
        ensures
            r@ == conflict_label(self),
    {
        match self {
            Conflict::Replace => "Replace it",
            Conflict::Append => "Add to it",
            Conflict::Skip => "Skip",
        }
    }
}

// ── Grouping ─────────────────────────────────────────────────────────────────

/// The tickers of the complete rows.
pub open spec fn resolved_symbols(lots: Seq<DraftLot>) -> Set<Seq<char>>
    decreases lots.len(),
{
    if lots.len() == 0 {
        Set::empty()
    } else {
        match resolution(lots.last()) {
            Some(t) => resolved_symbols(lots.drop_last()).insert(t.0),
            None => resolved_symbols(lots.drop_last()),
        }
    }
}

/// The parcels of the complete rows for `sym`, in row order.
pub open spec fn parcels_of(lots: Seq<DraftLot>, sym: Seq<char>) -> Seq<(Date, i32, i64)>
    decreases lots.len(),
{
    if lots.len() == 0 {
        Seq::empty()
    } else {
        let rest = parcels_of(lots.drop_last(), sym);
        match resolution(lots.last()) {
            Some(t) => if t.0 == sym { rest.push((t.1, t.2, t.3)) } else { rest },
            None => rest,
        }
    }
}

/// The complete rows' parcels by ticker, tickers in text order.
pub fn group_parcels(lots: &[DraftLot]) -> (r: Vec<(String, Vec<(Date, i32, i64)>)>)
    ensures
        strictly_sorted(r@.map_values(|g: (String, Vec<(Date, i32, i64)>)| g.0@)),
        r@.map_values(|g: (String, Vec<(Date, i32, i64)>)| g.0@).to_set() == resolved_symbols(lots@),
        forall|k: int| 0 <= k < r.len() ==> (#[trigger] r@[k]).1@ == parcels_of(lots@, r@[k].0@),
{
    let mut syms: Vec<String> = Vec::new();
    let mut i: usize = 0;
    assert(names(syms@).to_set() =~= Set::<Seq<char>>::empty());
    while i < lots.len()
        invariant
            i <= lots.len(),
            strictly_sorted(names(syms@)),
            names(syms@).to_set() == resolved_symbols(lots@.take(i as int)),
        decreases lots.len() - i,
    {
        proof {
            assert(lots@.take(i + 1).drop_last() == lots@.take(i as int));
            assert(lots@.take(i + 1).last() == lots@[i as int]);
        }
        match lots[i].resolved() {
            Some(t) => insert_distinct(&mut syms, &t.0),
            None => {},
        }
        i += 1;
    }
    assert(lots@.take(lots.len() as int) == lots@);
    let mut out: Vec<(String, Vec<(Date, i32, i64)>)> = Vec::new();
    let mut k: usize = 0;
    while k < syms.len()
        invariant
            k <= syms.len(),
            out.len() == k,
            forall|m: int| 0 <= m < k ==> (#[trigger] out@[m]).0@ == syms@[m]@,
            forall|m: int| 0 <= m < k ==> (#[trigger] out@[m]).1@ == parcels_of(lots@, out@[m].0@),
        decreases syms.len() - k,
    {
        let ps = parcels_for(lots, &syms[k]);
        out.push((syms[k].clone(), ps));
        proof {
            assert forall|m: int| 0 <= m < k + 1 implies (#[trigger] out@[m]).0@ == syms@[m]@ by {
                if m < k {
                    assert(out@[m] == out@.drop_last()[m]);
                }
            }
            assert forall|m: int| 0 <= m < k + 1 implies (#[trigger] out@[m]).1@ == parcels_of(lots@, out@[m].0@) by {
                if m < k {
                    assert(out@[m] == out@.drop_last()[m]);
                }
            }
        }
        k += 1;
    }
    proof {
        assert(out@.map_values(|g: (String, Vec<(Date, i32, i64)>)| g.0@) =~= names(syms@));
    }
    out
}

/// The parcels of the complete rows for `sym` (see [`parcels_of`]).
fn parcels_for(lots: &[DraftLot], sym: &String) -> (r: Vec<(Date, i32, i64)>)
    ensures
        r@ == parcels_of(lots@, sym@),
{
    let mut out: Vec<(Date, i32, i64)> = Vec::new();
    let mut i: usize = 0;
    while i < lots.len()
        invariant
            i <= lots.len(),
            out@ == parcels_of(lots@.take(i as int), sym@),
        decreases lots.len() - i,
    {
        proof {
            assert(lots@.take(i + 1).drop_last() == lots@.take(i as int));
            assert(lots@.take(i + 1).last() == lots@[i as int]);
        }
        match lots[i].resolved() {
            Some(t) => {
                if str_eq(t.0.as_str(), sym.as_str()) {
                    out.push((t.1, t.2, t.3));
                }
            },
            None => {},
        }
        i += 1;
    }
    assert(lots@.take(lots.len() as int) == lots@);
    out
}

// ── Merging ──────────────────────────────────────────────────────────────────

/// The first stock position in `ps` at `k` or later holding `sym`.
pub open spec fn stock_position(ps: Seq<Position>, sym: Seq<char>, k: int) -> Option<int>
    decreases ps.len() - k,
{
    if k < 0 || k >= ps.len() {
        None
    } else if ps[k].symbol@ == sym && ps[k].option_spec is None {
        Some(k)
    } else {
        stock_position(ps, sym, k + 1)
    }
}

/// The first stock position holding `sym` (see [`stock_position`]).
fn find_stock(existing: &[Position], sym: &String) -> (r: Option<usize>)
    ensures
        r matches Some(j) ==> stock_position(existing@, sym@, 0) == Some(j as int) && j < existing.len(),
        r is None <==> stock_position(existing@, sym@, 0) is None,
{
    let mut k: usize = 0;
    while k < existing.len()
        invariant
            k <= existing.len(),
            stock_position(existing@, sym@, 0) == stock_position(existing@, sym@, k as int),
        decreases existing.len() - k,
    {
        if str_eq(existing[k].symbol.as_str(), sym.as_str()) && existing[k].option_spec.is_none() {
            return Some(k);
        }
        k += 1;
    }
    None
}

/// `ts` records `parcels` one for one: same date, shares and price.
pub open spec fn records(ts: Seq<Trade>, parcels: Seq<(Date, i32, i64)>) -> bool {
    &&& ts.len() == parcels.len()
    &&& forall|k: int| 0 <= k < ts.len() ==> {
        &&& (#[trigger] ts[k]).date == parcels[k].0
        &&& ts[k].quantity == parcels[k].1
        &&& ts[k].price == parcels[k].2
    }
}

/// Trades for `parcels`, each under a fresh id.
fn trades_for(parcels: &[(Date, i32, i64)]) -> (r: Vec<Trade>)
    ensures
        records(r@, parcels@),
{
    let mut out: Vec<Trade> = Vec::new();
    let mut i: usize = 0;
    while i < parcels.len()
        invariant
            i <= parcels.len(),
            records(out@, parcels@.take(i as int)),
        decreases parcels.len() - i,
    {
        let (d, q, p) = parcels[i];
        out.push(Trade { id: new_id(), date: d, quantity: q, price: p });
        proof {
            assert forall|k: int| 0 <= k < out@.len() implies {
                &&& (#[trigger] out@[k]).date == parcels@.take(i + 1)[k].0
                &&& out@[k].quantity == parcels@.take(i + 1)[k].1
                &&& out@[k].price == parcels@.take(i + 1)[k].2
            } by {
                if k < i {
                    assert(out@[k] == out@.drop_last()[k]);
                    assert(parcels@.take(i + 1)[k] == parcels@.take(i as int)[k]);
                }
            }
        }
        i += 1;
    }
    assert(parcels@.take(parcels.len() as int) == parcels@);
    out
}

/// The position to save for the parcels of `sym`, or nothing when the ticker
/// is already held and the choice is to skip it. Appending extends an
/// existing trade log; otherwise an existing holding's log is replaced (its
/// snapshot quantity and basis cleared so nothing counts twice, its id kept
/// so what refers to it survives); a new ticker gets a new position. The
/// result is always in trade-log mode.
pub fn imported_position(
    existing: &[Position],
    sym: &String,
    parcels: &[(Date, i32, i64)],
    choice: Conflict,
) -> (r: Option<Position>)
    ensures
        ({
            let clash = stock_position(existing@, sym@, 0);
            match (clash, choice) {
                (Some(_), Conflict::Skip) => r is None,
                (Some(j), _) => r matches Some(p) && {
                    let q = existing@[j];
                    &&& p.id == q.id
                    &&& p.symbol@ == q.symbol@
                    &&& p.kind == q.kind
                    &&& p.option_spec is None
                    &&& p.opened_at == q.opened_at
                    &&& p.notes@ == q.notes@
                    &&& p.entry_mode == PositionEntryMode::TradeLog
                    &&& if choice == Conflict::Append && q.entry_mode == PositionEntryMode::TradeLog {
                        &&& p.quantity == q.quantity
                        &&& p.cost_basis == q.cost_basis
                        &&& p.trades@.take(q.trades@.len() as int) == q.trades@
                        &&& records(p.trades@.skip(q.trades@.len() as int), parcels@)
                    } else {
                        &&& p.quantity == 0
                        &&& p.cost_basis == 0
                        &&& records(p.trades@, parcels@)
                    }
                },
                (None, _) => r matches Some(p) && {
                    &&& p.symbol@ == unicode_upper(sym@)
                    &&& p.kind == PositionKind::Stock
                    &&& p.option_spec is None
                    &&& p.quantity == 0
                    &&& p.cost_basis == 0
                    &&& p.notes@ == Seq::<char>::empty()
                    &&& p.entry_mode == PositionEntryMode::TradeLog
                    &&& records(p.trades@, parcels@)
                },
            }
        }),
{
    let clash = find_stock(existing, sym);
    let new_trades = trades_for(parcels);
    match clash {
        Some(j) => {
            if choice == Conflict::Skip {
                return None;
            }
            let q = &existing[j];
            if choice == Conflict::Append && q.entry_mode == PositionEntryMode::TradeLog {
                let mut trades: Vec<Trade> = Vec::new();
                let mut i: usize = 0;
                while i < q.trades.len()
                    invariant
                        i <= q.trades.len(),
                        trades@ == q.trades@.take(i as int),
                    decreases q.trades.len() - i,
                {
                    trades.push(q.trades[i]);
                    proof {
                        assert(q.trades@.take(i + 1) == q.trades@.take(i as int).push(q.trades@[i as int]));
                    }
                    i += 1;
                }
                let ghost kept = trades@;
                let mut m: usize = 0;
                while m < new_trades.len()
                    invariant
                        m <= new_trades.len(),
                        trades@ == kept + new_trades@.take(m as int),
                    decreases new_trades.len() - m,
                {
                    trades.push(new_trades[m]);
                    proof {
                        assert(new_trades@.take(m + 1) == new_trades@.take(m as int).push(new_trades@[m as int]));
                    }
                    m += 1;
                }
                proof {
                    assert(q.trades@.take(q.trades.len() as int) == q.trades@);
                    assert(new_trades@.take(new_trades.len() as int) == new_trades@);
                    assert(trades@.take(q.trades@.len() as int) == q.trades@);
                    assert(trades@.skip(q.trades@.len() as int) == new_trades@);
                }
                Some(Position {
                    id: q.id,
                    symbol: q.symbol.clone(),
                    kind: q.kind,
                    quantity: q.quantity,
                    cost_basis: q.cost_basis,
                    option_spec: None,
                    opened_at: q.opened_at,
                    notes: q.notes.clone(),
                    entry_mode: PositionEntryMode::TradeLog,
                    trades,
                })
            } else {
                Some(Position {
                    id: q.id,
                    symbol: q.symbol.clone(),
                    kind: q.kind,
                    quantity: 0,
                    cost_basis: 0,
                    option_spec: None,
                    opened_at: q.opened_at,
                    notes: q.notes.clone(),
                    entry_mode: PositionEntryMode::TradeLog,
                    trades: new_trades,
                })
            }
        },
        None => {
            let mut p = Position::new_stock(sym.as_str(), 0, 0);
            p.entry_mode = PositionEntryMode::TradeLog;
            p.trades = new_trades;
            Some(p)
        },
    }
}

} // verus!
