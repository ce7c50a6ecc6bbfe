//! Portfolio positions: a stock holding or an option contract, recorded
//! either as a snapshot (quantity and per-share basis) or as a trade log.

use vstd::prelude::*;
use crate::calendar::{
    chrono_utc_date, date_le, date_le_exec, midnight, midnight_exec, utc_date, valid_date, valid_date_exec, Date, Timestamp,
};
use crate::clock::{new_id, utc_now};
use crate::lots::{abs_i, matched, match_trades, well_formed_trades, ClosedLot, LotAllocation, OpenLot, Trade};
use crate::lot_laws::trade_total;
use crate::money::{div_round, round_half_even};
use crate::option::OptionSpec;
use crate::text::{to_upper, unicode_upper};

verus! {

#[derive(Debug, Clone, Copy, PartialEq, Eq, Structural)]
pub enum PositionKind {
    Stock,
    Option,
}

#[derive(Debug, Clone, Copy, PartialEq, Eq, Structural)]
pub enum PositionEntryMode {
    Snapshot,
    TradeLog,
}

impl Default for PositionEntryMode {
    fn default() -> (r: PositionEntryMode)
        ensures
            r == PositionEntryMode::Snapshot,
    {
        PositionEntryMode::Snapshot
    }
}

/// A single position in the portfolio — stock or option contract.
///
/// `quantity` (signed: positive long, negative short) and `cost_basis` (per
/// share, in micros) are used in snapshot mode; in trade-log mode use
/// [`Position::effective_quantity`] and [`Position::effective_cost_basis`].
#[derive(Debug, Clone)]
pub struct Position {
    pub id: u128,
    pub symbol: String,
    pub kind: PositionKind,
    pub quantity: i32,
    pub cost_basis: i64,
    pub option_spec: Option<OptionSpec>,
    pub opened_at: Timestamp,
    pub notes: String,
    pub entry_mode: PositionEntryMode,
    pub trades: Vec<Trade>,
}

/// Shares (or contracts) still open across `lots`, long and short alike.
pub open spec fn open_size(lots: Seq<OpenLot>) -> int
    decreases lots.len(),
{
    if lots.len() == 0 { 0 } else { open_size(lots.drop_last()) + abs_i(lots.last().quantity as int) }
}

/// Cost of `lots` at their own prices, in micros.
pub open spec fn open_cost(lots: Seq<OpenLot>) -> int
    decreases lots.len(),
{
    if lots.len() == 0 { 0 } else { open_cost(lots.drop_last()) + lots.last().price * abs_i(lots.last().quantity as int) }
}

/// Average price of `lots` weighted by size, to the nearest micro (halves
/// to even); 0 when nothing is open.
pub open spec fn weighted_avg(lots: Seq<OpenLot>) -> int {
    if open_size(lots) == 0 { 0 } else { div_round(open_cost(lots), open_size(lots)) }
}

/// Every running total of the lots' sizes fits in an `i32`, as the
/// accumulation needs.
pub open spec fn sizes_fit(lots: Seq<OpenLot>) -> bool {
    forall|k: int| 0 <= k <= lots.len() ==> open_size(#[trigger] lots.take(k)) <= i32::MAX
}

/// Every running total of the trades' quantities fits in an `i32`.
pub open spec fn quantities_fit(trades: Seq<Trade>) -> bool {
    forall|k: int| 0 <= k <= trades.len() ==> i32::MIN <= #[trigger] trade_total(trades.take(k)) <= i32::MAX
}

/// Net signed quantity: the sum of the trades in trade-log mode, the field
/// in snapshot mode.
pub open spec fn effective_quantity_of(p: Position) -> int {
    match p.entry_mode {
        PositionEntryMode::Snapshot => p.quantity as int,
        PositionEntryMode::TradeLog => trade_total(p.trades@),
    }
}

/// Per-share basis: the weighted average of the FIFO open lots in trade-log
/// mode, the field in snapshot mode.
pub open spec fn effective_cost_basis_of(p: Position) -> int {
    match p.entry_mode {
        PositionEntryMode::Snapshot => p.cost_basis as int,
        PositionEntryMode::TradeLog => weighted_avg(matched(p.trades@, LotAllocation::Fifo).0),
    }
}

/// Start of the holding period: midnight UTC of the oldest FIFO open lot in
/// trade-log mode (the opening time when nothing is open), the opening time
/// in snapshot mode.
pub open spec fn oldest_open_of(p: Position) -> Timestamp {
    match p.entry_mode {
        PositionEntryMode::Snapshot => p.opened_at,
        PositionEntryMode::TradeLog => match earliest(matched(p.trades@, LotAllocation::Fifo).0) {
            Some(d) => midnight(d),
            None => p.opened_at,
        },
    }
}

/// A position whose trade log can be matched and summed: what the effective
/// quantity, basis and holding period need.
pub open spec fn ready(p: Position) -> bool {
    p.entry_mode == PositionEntryMode::TradeLog ==> {
        &&& well_formed_trades(p.trades@)
        &&& quantities_fit(p.trades@)
        &&& sizes_fit(matched(p.trades@, LotAllocation::Fifo).0)
    }
}

/// The earliest date among `lots`, if any.
pub open spec fn earliest(lots: Seq<OpenLot>) -> Option<Date>
    decreases lots.len(),
{
    if lots.len() == 0 {
        None
    } else {
        match earliest(lots.drop_last()) {
            None => Some(lots.last().date),
            Some(m) => if date_le(m, lots.last().date) { Some(m) } else { Some(lots.last().date) },
        }
    }
}

proof fn lemma_open_size_nonneg(lots: Seq<OpenLot>)
    ensures
        0 <= open_size(lots),
    decreases lots.len(),
{
    if lots.len() > 0 {
        lemma_open_size_nonneg(lots.drop_last());
    }
}

/// The cost of lots lies between their size times the lowest and the highest
/// price a lot can have.
proof fn lemma_open_cost_bounds(lots: Seq<OpenLot>)
    ensures
        i64::MIN * open_size(lots) <= open_cost(lots) <= i64::MAX * open_size(lots),
    decreases lots.len(),
{
    if lots.len() > 0 {
        lemma_open_cost_bounds(lots.drop_last());
        let l = lots.last();
        let a = abs_i(l.quantity as int);
        assert(i64::MIN * a <= l.price * a <= i64::MAX * a) by (nonlinear_arith)
            requires
                i64::MIN <= l.price <= i64::MAX,
                a >= 0;
        assert(i64::MIN * open_size(lots) == i64::MIN * open_size(lots.drop_last()) + i64::MIN * a) by (nonlinear_arith)
            requires open_size(lots) == open_size(lots.drop_last()) + a;
        assert(i64::MAX * open_size(lots) == i64::MAX * open_size(lots.drop_last()) + i64::MAX * a) by (nonlinear_arith)
            requires open_size(lots) == open_size(lots.drop_last()) + a;
    }
}

proof fn lemma_round_within(an: int, d: int, lo: int, hi: int)
    requires
        an >= 0,
        d > 0,
        lo * d <= an <= hi * d,
    ensures
        lo <= round_half_even(an as nat, d as nat) <= hi,
{
    let q = an / d;
    let r = an % d;
    assert(an == q * d + r && 0 <= r < d) by (nonlinear_arith)
        requires an >= 0, d > 0, q == an / d, r == an % d;
    assert(q <= hi) by (nonlinear_arith)
        requires an == q * d + r, r >= 0, an <= hi * d, d > 0;
    if q == hi {
        assert(r == 0) by (nonlinear_arith) requires an == q * d + r, an <= hi * d, q == hi, r >= 0;
    }
    assert(q >= lo) by (nonlinear_arith)
        requires lo * d <= an, an == q * d + r, r < d, d > 0;
}

/// Rounding a quotient that lies within `[lo, hi]` (integers) stays there.
proof fn lemma_div_round_within(n: int, d: int, lo: int, hi: int)
    requires
        d > 0,
        lo * d <= n <= hi * d,
    ensures
        lo <= div_round(n, d) <= hi,
{
    if n >= 0 {
        lemma_round_within(n, d, lo, hi);
    } else {
        assert((-hi) * d <= -n <= (-lo) * d) by (nonlinear_arith)
            requires lo * d <= n <= hi * d;
        lemma_round_within(-n, d, -hi, -lo);
    }
}

/// A ready position's quantity fits an `i32` and its basis an `i64`.
pub proof fn ready_values_fit(p: Position)
    requires
        ready(p),
    ensures
        i32::MIN <= effective_quantity_of(p) <= i32::MAX,
        i64::MIN <= effective_cost_basis_of(p) <= i64::MAX,
{
    if p.entry_mode == PositionEntryMode::TradeLog {
        assert(p.trades@.take(p.trades@.len() as int) == p.trades@);
        let lots = matched(p.trades@, LotAllocation::Fifo).0;
        lemma_open_size_nonneg(lots);
        lemma_open_cost_bounds(lots);
        if open_size(lots) > 0 {
            lemma_div_round_within(open_cost(lots), open_size(lots), i64::MIN as int, i64::MAX as int);
        }
    }
}

/// Weighted-average per-share cost of `open_lots`, in micros (see
/// [`weighted_avg`]).
pub fn weighted_avg_cost(open_lots: &[OpenLot]) -> (r: i64)
    requires
        sizes_fit(open_lots@),
    ensures
        r == weighted_avg(open_lots@),
{
    let mut qty: i32 = 0;
    let mut cost: i128 = 0;
    let mut i: usize = 0;
    while i < open_lots.len()
        invariant
            i <= open_lots.len(),
            sizes_fit(open_lots@),
            qty == open_size(open_lots@.take(i as int)),
            cost == open_cost(open_lots@.take(i as int)),
            i64::MIN * qty <= cost <= i64::MAX * qty,
            0 <= qty,
        decreases open_lots.len() - i,
    {
        let l = open_lots[i];
        proof {
            assert(open_lots@.take(i + 1).drop_last() == open_lots@.take(i as int));
            assert(open_lots@.take(i + 1).last() == l);
            assert(open_size(open_lots@.take(i + 1)) <= i32::MAX);
            lemma_open_cost_bounds(open_lots@.take(i + 1));
            lemma_open_size_nonneg(open_lots@.take(i as int));
            assert(l.quantity != i32::MIN) by {
                assert(open_size(open_lots@.take(i + 1)) == open_size(open_lots@.take(i as int)) + abs_i(l.quantity as int));
            }
        }
        let a: i32 = if l.quantity < 0 { -l.quantity } else { l.quantity };
        assert((l.price as i128) * (a as i128) <= 9_223_372_036_854_775_807 * 2_147_483_647
            && (l.price as i128) * (a as i128) >= -9_223_372_036_854_775_808 * 2_147_483_647) by (nonlinear_arith)
            requires
                i64::MIN <= l.price <= i64::MAX,
                0 <= a <= 2_147_483_647;
        qty = qty + a;
        cost = cost + (l.price as i128) * (a as i128);
        i += 1;
    }
    proof {
        assert(open_lots@.take(open_lots.len() as int) == open_lots@);
    }
    if qty == 0 {
        return 0;
    }
    proof {
        lemma_div_round_within(cost as int, qty as int, i64::MIN as int, i64::MAX as int);
        assert(-100_000_000_000_000_000_000_000_000_000 <= cost <= 100_000_000_000_000_000_000_000_000_000) by (nonlinear_arith)
            requires i64::MIN * qty <= cost <= i64::MAX * qty, 0 <= qty <= i32::MAX;
    }
    let n = crate::import::div_round_exec(cost, qty as i128);
    n as i64
}

/// The earliest date among `lots`, if any (see [`earliest`]).
fn earliest_date(lots: &Vec<OpenLot>) -> (r: Option<Date>)
    ensures
        r == earliest(lots@),
        r matches Some(d) ==> exists|i: int| 0 <= i < lots@.len() && lots@[i].date == d,
{
    let mut best: Option<Date> = None;
    let mut i: usize = 0;
    while i < lots.len()
        invariant
            i <= lots.len(),
            best == earliest(lots@.take(i as int)),
            best matches Some(d) ==> exists|k: int| 0 <= k < i && lots@[k].date == d,
        decreases lots.len() - i,
    {
        proof {
            assert(lots@.take(i + 1).drop_last() == lots@.take(i as int));
            assert(lots@.take(i + 1).last() == lots@[i as int]);
        }
        let d = lots[i].date;
        best = match best {
            None => Some(d),
            Some(m) => if date_le_exec(m, d) { Some(m) } else { Some(d) },
        };
        i += 1;
    }
    proof {
        assert(lots@.take(lots.len() as int) == lots@);
    }
    best
}

impl Position {
    /// A snapshot-mode stock position opened now under a fresh id, its
    /// symbol uppercased.
    pub fn new_stock(symbol: &str, quantity: i32, cost_basis: i64) -> (r: Position)
        ensures
            r.symbol@ == unicode_upper(symbol@),
            r.kind == PositionKind::Stock,
            r.quantity == quantity,
            r.cost_basis == cost_basis,
            r.option_spec is None,
            r.notes@ == Seq::<char>::empty(),
            r.entry_mode == PositionEntryMode::Snapshot,
            r.trades@.len() == 0,
    {
        Position {
            id: new_id(),
            symbol: to_upper(symbol),
            kind: PositionKind::Stock,
            quantity,
            cost_basis,
            option_spec: None,
            opened_at: utc_now(),
            notes: String::new(),
            entry_mode: PositionEntryMode::Snapshot,
            trades: Vec::new(),
        }
    }

    /// A snapshot-mode option position on contract `spec`, opened now under
    /// a fresh id, its symbol uppercased.
    pub fn new_option(symbol: &str, quantity: i32, cost_basis: i64, spec: OptionSpec) -> (r: Position)
        ensures
            r.symbol@ == unicode_upper(symbol@),
            r.kind == PositionKind::Option,
            r.quantity == quantity,
            r.cost_basis == cost_basis,
            r.option_spec == Some(spec),
            r.notes@ == Seq::<char>::empty(),
            r.entry_mode == PositionEntryMode::Snapshot,
            r.trades@.len() == 0,
    {
        Position {
            id: new_id(),
            symbol: to_upper(symbol),
            kind: PositionKind::Option,
            quantity,
            cost_basis,
            option_spec: Some(spec),
            opened_at: utc_now(),
            notes: String::new(),
            entry_mode: PositionEntryMode::Snapshot,
            trades: Vec::new(),
        }
    }

    /// Total snapshot cost in micros: basis × quantity, × 100 shares per
    /// option contract.
    pub fn total_cost(&self) -> (r: i128)
        ensures
            r == self.cost_basis * self.quantity * (if self.kind == PositionKind::Option { 100int } else { 1int }),
    {
        let c = self.cost_basis as i128;
        let q = self.quantity as i128;
        assert(-9_223_372_036_854_775_808 * 2_147_483_648 <= c * q <= 9_223_372_036_854_775_808 * 2_147_483_648) by (nonlinear_arith)
            requires
                i64::MIN <= c <= i64::MAX,
                i32::MIN <= q <= i32::MAX;
        let base: i128 = c * q;
        match self.kind {
            PositionKind::Stock => base,
            PositionKind::Option => base * 100,
        }
    }

    /// Net signed quantity: the sum of the trades in trade-log mode, the
    /// field in snapshot mode.
    pub fn effective_quantity(&self) -> (r: i32)
        requires
            self.entry_mode == PositionEntryMode::TradeLog ==> quantities_fit(self.trades@),
        ensures
            r == effective_quantity_of(*self),
    {
        match self.entry_mode {
            PositionEntryMode::Snapshot => self.quantity,
            PositionEntryMode::TradeLog => {
                let mut total: i32 = 0;
                let mut i: usize = 0;
                while i < self.trades.len()
                    invariant
                        i <= self.trades.len(),
                        quantities_fit(self.trades@),
                        total == trade_total(self.trades@.take(i as int)),
                    decreases self.trades.len() - i,
                {
                    proof {
                        assert(self.trades@.take(i + 1).drop_last() == self.trades@.take(i as int));
                        assert(self.trades@.take(i + 1).last() == self.trades@[i as int]);
                        assert(i32::MIN <= trade_total(self.trades@.take(i + 1)) <= i32::MAX);
                    }
                    total = total + self.trades[i].quantity;
                    i += 1;
                }
                proof {
                    assert(self.trades@.take(self.trades.len() as int) == self.trades@);
                }
                total
            },
        }
    }

    /// Open and closed lots for the ledger: FIFO, the standard convention for
    /// showing which lots remain open and their holding period.
    pub fn compute_lots(&self) -> (r: (Vec<OpenLot>, Vec<ClosedLot>))
        requires
            well_formed_trades(self.trades@),
        ensures
            (r.0@, r.1@) == matched(self.trades@, LotAllocation::Fifo),
    {
        match_trades(self.trades.as_slice(), LotAllocation::Fifo)
    }

    /// Weighted-average cost basis of the open lots in trade-log mode, the
    /// field in snapshot mode; micros per share.
    pub fn effective_cost_basis(&self) -> (r: i64)
        requires
            self.entry_mode == PositionEntryMode::TradeLog ==> {
                &&& well_formed_trades(self.trades@)
                &&& sizes_fit(matched(self.trades@, LotAllocation::Fifo).0)
            },
        ensures
            r == effective_cost_basis_of(*self),
    {
        match self.entry_mode {
            PositionEntryMode::Snapshot => self.cost_basis,
            PositionEntryMode::TradeLog => {
                let (open_lots, _) = self.compute_lots();
                weighted_avg_cost(open_lots.as_slice())
            },
        }
    }

    /// When the position was opened, for the holding period: in trade-log
    /// mode midnight UTC of the oldest open lot's date (the opening time when
    /// nothing is open), in snapshot mode the opening time.
    pub fn oldest_open_lot_date(&self) -> (r: Timestamp)
        requires
            self.entry_mode == PositionEntryMode::TradeLog ==> well_formed_trades(self.trades@),
        ensures
            r == oldest_open_of(*self),
    {
        match self.entry_mode {
            PositionEntryMode::Snapshot => self.opened_at,
            PositionEntryMode::TradeLog => {
                let (open_lots, _) = self.compute_lots();
                proof {
                    crate::lot_laws::open_lots_are_valid(self.trades@, LotAllocation::Fifo);
                }
                match earliest_date(&open_lots) {
                    Some(d) => {
                        proof {
                            let i = choose|i: int| 0 <= i < open_lots@.len() && open_lots@[i].date == d;
                            assert(valid_date(matched(self.trades@, LotAllocation::Fifo).0[i].date));
                        }
                        midnight_exec(d)
                    },
                    None => self.opened_at,
                }
            },
        }
    }
}

impl Position {
    /// Records `trade` in the position's log. A snapshot is first turned into
    /// a log whose opening trade holds the snapshot's quantity at its basis,
    /// dated the UTC day it was opened, so its holding period carries over;
    /// the snapshot fields are then cleared so nothing counts twice. Returns
    /// `false`, leaving the position as it was, only when a snapshot's
    /// opening instant lies outside the calendar dates can be read in.
    pub fn record_trade(&mut self, trade: Trade) -> (recorded: bool)
        ensures
            final(self).id == old(self).id,
            final(self).symbol@ == old(self).symbol@,
            final(self).kind == old(self).kind,
            final(self).option_spec == old(self).option_spec,
            final(self).opened_at == old(self).opened_at,
            final(self).notes@ == old(self).notes@,
            recorded == (old(self).entry_mode == PositionEntryMode::TradeLog || old(self).quantity == 0
                || chrono_utc_date(old(self).opened_at.secs, old(self).opened_at.nanos) is Some),
            !recorded ==> *final(self) == *old(self),
            recorded ==> final(self).entry_mode == PositionEntryMode::TradeLog,
            recorded && old(self).entry_mode == PositionEntryMode::TradeLog ==> {
                &&& final(self).trades@ == old(self).trades@.push(trade)
                &&& final(self).quantity == old(self).quantity
                &&& final(self).cost_basis == old(self).cost_basis
            },
            recorded && old(self).entry_mode == PositionEntryMode::Snapshot ==> {
                &&& final(self).quantity == 0
                &&& final(self).cost_basis == 0
                &&& if old(self).quantity == 0 {
                    final(self).trades@ == seq![trade]
                } else {
                    let opening = final(self).trades@[0];
                    &&& final(self).trades@.len() == 2
                    &&& final(self).trades@[1] == trade
                    &&& Some(opening.date) == chrono_utc_date(old(self).opened_at.secs, old(self).opened_at.nanos)
                    &&& opening.quantity == old(self).quantity
                    &&& opening.price == old(self).cost_basis
                }
            },
    {
        match self.entry_mode {
            PositionEntryMode::TradeLog => {
                self.trades.push(trade);
                true
            },
            PositionEntryMode::Snapshot => {
                let mut log: Vec<Trade> = Vec::new();
                if self.quantity != 0 {
                    match utc_date(self.opened_at) {
                        Some(d) => {
                            log.push(Trade { id: new_id(), date: d, quantity: self.quantity, price: self.cost_basis });
                        },
                        None => return false,
                    }
                }
                log.push(trade);
                self.trades = log;
                self.entry_mode = PositionEntryMode::TradeLog;
                self.quantity = 0;
                self.cost_basis = 0;
                true
            },
        }
    }
}

/// Recording a trade moves the position's net quantity by the trade's
/// quantity.
pub proof fn recording_moves_the_net_quantity(before: Position, trade: Trade, after: Position)
    requires
        after.entry_mode == PositionEntryMode::TradeLog,
        before.entry_mode == PositionEntryMode::TradeLog ==> after.trades@ == before.trades@.push(trade),
        before.entry_mode == PositionEntryMode::Snapshot ==> {
            if before.quantity == 0 {
                after.trades@ == seq![trade]
            } else {
                &&& after.trades@.len() == 2
                &&& after.trades@[1] == trade
                &&& after.trades@[0].quantity == before.quantity
            }
        },
    ensures
        effective_quantity_of(after) == effective_quantity_of(before) + trade.quantity,
{
    let ts = after.trades@;
    assert(trade_total(ts) == trade_total(ts.drop_last()) + ts.last().quantity);
    if before.entry_mode == PositionEntryMode::TradeLog {
        assert(ts.drop_last() == before.trades@);
    } else if before.quantity == 0 {
        assert(ts.drop_last() =~= Seq::<Trade>::empty());
    } else {
        let head = ts.drop_last();
        assert(head.drop_last() =~= Seq::<Trade>::empty());
        assert(head.last() == ts[0]);
        assert(trade_total(head) == trade_total(head.drop_last()) + head.last().quantity);
    }
}


impl Position {
    /// Whether the position's trade log can be matched and summed (see
    /// [`ready`]): real dates, running totals that fit an `i32`, and open lots
    /// whose sizes add up within an `i32`. A snapshot always can.
    pub fn is_ready(&self) -> (r: bool)
        ensures
            r == ready(*self),
    {
        if self.entry_mode == PositionEntryMode::Snapshot {
            return true;
        }
        let mut i: usize = 0;
        while i < self.trades.len()
            invariant
                i <= self.trades.len(),
                self.entry_mode == PositionEntryMode::TradeLog,
                forall|k: int| #![trigger self.trades@[k]] 0 <= k < i ==> valid_date(self.trades@[k].date) && self.trades@[k].quantity != i32::MIN,
            decreases self.trades.len() - i,
        {
            if !valid_date_exec(self.trades[i].date) || self.trades[i].quantity == i32::MIN {
                proof {
                    assert(!(valid_date(self.trades@[i as int].date) && self.trades@[i as int].quantity != i32::MIN));
                }
                return false;
            }
            assert(valid_date(self.trades@[i as int].date) && self.trades@[i as int].quantity != i32::MIN);
            i += 1;
        }
        let mut total: i64 = 0;
        let mut j: usize = 0;
        while j < self.trades.len()
            invariant
                j <= self.trades.len(),
                self.entry_mode == PositionEntryMode::TradeLog,
                well_formed_trades(self.trades@),
                total == trade_total(self.trades@.take(j as int)),
                forall|k: int| 0 <= k <= j ==> i32::MIN <= #[trigger] trade_total(self.trades@.take(k)) <= i32::MAX,
            decreases self.trades.len() - j,
        {
            proof {
                assert(self.trades@.take(j + 1).drop_last() == self.trades@.take(j as int));
                assert(self.trades@.take(j + 1).last() == self.trades@[j as int]);
            }
            total = total + self.trades[j].quantity as i64;
            if total < -2_147_483_648 || total > 2_147_483_647 {
                proof {
                    assert(!(i32::MIN <= trade_total(self.trades@.take(j + 1)) <= i32::MAX));
                }
                return false;
            }
            j += 1;
        }
        proof {
            assert(self.trades@.take(self.trades.len() as int) == self.trades@);
        }
        let (open, _closed) = self.compute_lots();
        let mut size: i64 = 0;
        let mut k: usize = 0;
        while k < open.len()
            invariant
                k <= open.len(),
                self.entry_mode == PositionEntryMode::TradeLog,
                well_formed_trades(self.trades@),
                quantities_fit(self.trades@),
                open@ == matched(self.trades@, LotAllocation::Fifo).0,
                size == open_size(open@.take(k as int)),
                forall|m: int| 0 <= m <= k ==> #[trigger] open_size(open@.take(m)) <= i32::MAX,
            decreases open.len() - k,
        {
            proof {
                assert(open@.take(k + 1).drop_last() == open@.take(k as int));
                assert(open@.take(k + 1).last() == open@[k as int]);
            }
            let q = open[k].quantity as i64;
            size = size + if q < 0 { -q } else { q };
            if size > 2_147_483_647 {
                proof {
                    assert(!(open_size(open@.take(k + 1)) <= i32::MAX));
                }
                return false;
            }
            k += 1;
        }
        proof {
            assert(open@.take(open.len() as int) == open@);
        }
        true
    }
}

} // verus!
