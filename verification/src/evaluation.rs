//! Evaluating a scenario against the portfolio: the cash and gains of its
//! trades, the assignments its market implies for short options at expiry,
//! and how each stock holding stands against the calls written on it.
//!
//! Everything here is exact integer arithmetic in micros. The option Greeks
//! a scenario also reports are floating point and are computed elsewhere.

use vstd::prelude::*;
use crate::calendar::{date_le, date_le_exec, day_number, day_number_exec, utc_day, utc_day_exec, valid_date, valid_date_exec, Date};
use crate::money::{digits_text, push_digits, string_from};
use crate::option::{contract_string, contract_text, OptionSpec, OptionType};
use crate::position::{effective_cost_basis_of, effective_quantity_of, oldest_open_of, ready, ready_values_fit, Position};
use crate::scenario::{
    cash_flow_of, dated_trade, gain_of, long_term_of, price_in, AssignmentEvent, Scenario,
    ScenarioMarketInput, ScenarioTrade, TradeResult, SCENARIO_CAPACITY,
};
use crate::clock::utc_now;
use crate::coverage::{coverage, lists_stock_symbols, reports_coverage};
use crate::scenario::{CoverageSummary, ScenarioResult};
use vstd::string::StringExecFns;

verus! {

// ── Trades ───────────────────────────────────────────────────────────────────

/// `r` reports trade `t` evaluated on `eval_date`.
pub open spec fn reports_trade(t: ScenarioTrade, eval_date: Date, r: TradeResult) -> bool {
    &&& r.label@ == t.label@
    &&& r.cash_flow == cash_flow_of(t)
    &&& (r.realized_gain matches Some(g) ==> gain_of(t) == Some(g as int))
    &&& (r.realized_gain is None <==> gain_of(t) is None)
    &&& r.is_long_term == long_term_of(t, eval_date)
}

/// The short-term part of a trade's realised gain.
pub open spec fn st_part(t: ScenarioTrade, eval_date: Date) -> int {
    match gain_of(t) {
        Some(g) => if long_term_of(t, eval_date) { 0 } else { g },
        None => 0,
    }
}

/// The long-term part of a trade's realised gain.
pub open spec fn lt_part(t: ScenarioTrade, eval_date: Date) -> int {
    match gain_of(t) {
        Some(g) => if long_term_of(t, eval_date) { g } else { 0 },
        None => 0,
    }
}

pub open spec fn trades_cash(ts: Seq<ScenarioTrade>) -> int
    decreases ts.len(),
{
    if ts.len() == 0 { 0 } else { trades_cash(ts.drop_last()) + cash_flow_of(ts.last()) }
}

pub open spec fn trades_st(ts: Seq<ScenarioTrade>, eval_date: Date) -> int
    decreases ts.len(),
{
    if ts.len() == 0 { 0 } else { trades_st(ts.drop_last(), eval_date) + st_part(ts.last(), eval_date) }
}

pub open spec fn trades_lt(ts: Seq<ScenarioTrade>, eval_date: Date) -> int
    decreases ts.len(),
{
    if ts.len() == 0 { 0 } else { trades_lt(ts.drop_last(), eval_date) + lt_part(ts.last(), eval_date) }
}

/// 2^102 and 2^103: bounds on one trade's cash and gain.
const CASH_BOUND: i128 = 0x40_0000_0000_0000_0000_0000_0000;
const GAIN_BOUND: i128 = 0x80_0000_0000_0000_0000_0000_0000;

proof fn lemma_trade_bounds(t: ScenarioTrade)
    ensures
        -CASH_BOUND <= cash_flow_of(t) <= CASH_BOUND,
        gain_of(t) matches Some(g) ==> -GAIN_BOUND <= g <= GAIN_BOUND,
{
    let m = if t.option_spec is Some { 100int } else { 1int };
    let p = t.price as int;
    let c = t.contracts as int;
    assert(-CASH_BOUND <= p * c * m <= CASH_BOUND) by (nonlinear_arith)
        requires
            i64::MIN <= p <= i64::MAX,
            0 <= c <= u32::MAX,
            1 <= m <= 100;
    if let (Some(cb), Some(is_long)) = (t.closes_cost_basis, t.closes_is_long) {
        let d = if is_long { p - cb } else { cb - p };
        assert(-GAIN_BOUND <= d * c * m <= GAIN_BOUND) by (nonlinear_arith)
            requires
                -0x1_0000_0000_0000_0000 <= d <= 0x1_0000_0000_0000_0000,
                0 <= c <= u32::MAX,
                1 <= m <= 100;
    }
}

proof fn lemma_trade_sums_bounded(ts: Seq<ScenarioTrade>, eval_date: Date)
    ensures
        -ts.len() * CASH_BOUND <= trades_cash(ts) <= ts.len() * CASH_BOUND,
        -ts.len() * GAIN_BOUND <= trades_st(ts, eval_date) <= ts.len() * GAIN_BOUND,
        -ts.len() * GAIN_BOUND <= trades_lt(ts, eval_date) <= ts.len() * GAIN_BOUND,
    decreases ts.len(),
{
    if ts.len() > 0 {
        lemma_trade_sums_bounded(ts.drop_last(), eval_date);
        lemma_trade_bounds(ts.last());
    }
}

/// Each trade's result, with the cash, short-term and long-term totals.
fn evaluate_trades(sc: &Scenario) -> (r: (Vec<TradeResult>, i128, i128, i128))
    requires
        sc.trades.len() <= SCENARIO_CAPACITY,
        valid_date(sc.evaluation_date),
        forall|k: int| 0 <= k < sc.trades.len() ==> dated_trade(#[trigger] sc.trades@[k]),
    ensures
        r.0.len() == sc.trades.len(),
        forall|k: int| 0 <= k < sc.trades.len() ==> reports_trade(#[trigger] sc.trades@[k], sc.evaluation_date, r.0@[k]),
        r.1 == trades_cash(sc.trades@),
        r.2 == trades_st(sc.trades@, sc.evaluation_date),
        r.3 == trades_lt(sc.trades@, sc.evaluation_date),
{
    let eval = sc.evaluation_date;
    let mut out: Vec<TradeResult> = Vec::new();
    let mut cash: i128 = 0;
    let mut st: i128 = 0;
    let mut lt: i128 = 0;
    let mut i: usize = 0;
    while i < sc.trades.len()
        invariant
            i <= sc.trades.len(),
            sc.trades.len() <= SCENARIO_CAPACITY,
            eval == sc.evaluation_date,
            valid_date(eval),
            forall|k: int| 0 <= k < sc.trades.len() ==> dated_trade(#[trigger] sc.trades@[k]),
            out.len() == i,
            forall|k: int| 0 <= k < i ==> reports_trade(#[trigger] sc.trades@[k], eval, out@[k]),
            cash == trades_cash(sc.trades@.take(i as int)),
            st == trades_st(sc.trades@.take(i as int), eval),
            lt == trades_lt(sc.trades@.take(i as int), eval),
        decreases sc.trades.len() - i,
    {
        let t = &sc.trades[i];
        let ghost pre = sc.trades@.take(i as int);
        let ghost post = sc.trades@.take(i + 1);
        proof {
            assert(post.drop_last() == pre);
            assert(post.last() == sc.trades@[i as int]);
            assert(dated_trade(sc.trades@[i as int]));
            lemma_trade_sums_bounded(post, eval);
            assert(post.len() * GAIN_BOUND <= SCENARIO_CAPACITY * GAIN_BOUND) by (nonlinear_arith)
                requires post.len() <= SCENARIO_CAPACITY;
            assert(post.len() * CASH_BOUND <= SCENARIO_CAPACITY * CASH_BOUND) by (nonlinear_arith)
                requires post.len() <= SCENARIO_CAPACITY;
        }
        let cf = t.cash_flow();
        let rg = t.realized_gain();
        let is_lt = t.is_long_term(eval);
        cash = cash + cf;
        match rg {
            Some(g) => {
                if is_lt {
                    lt = lt + g;
                } else {
                    st = st + g;
                }
            },
            None => {},
        }
        out.push(TradeResult { label: t.label.clone(), cash_flow: cf, realized_gain: rg, is_long_term: is_lt });
        proof {
            assert forall|k: int| 0 <= k < i + 1 implies reports_trade(#[trigger] sc.trades@[k], eval, out@[k]) by {
                if k < i {
                    assert(out@[k] == out@.drop_last()[k]);
                }
            }
        }
        i += 1;
    }
    proof {
        assert(sc.trades@.take(sc.trades.len() as int) == sc.trades@);
    }
    (out, cash, st, lt)
}

// ── Assignments ──────────────────────────────────────────────────────────────

/// The first position at index `k` or later that holds `sym` long as stock.
pub open spec fn holder_from(ps: Seq<Position>, sym: Seq<char>, k: int) -> Option<int>
    decreases ps.len() - k,
{
    if k < 0 || k >= ps.len() {
        None
    } else if ps[k].option_spec is None && ps[k].symbol@ == sym && effective_quantity_of(ps[k]) > 0 {
        Some(k)
    } else {
        holder_from(ps, sym, k + 1)
    }
}

/// How far an option is in the money at underlying price `price`.
pub open spec fn intrinsic_of(s: OptionSpec, price: int) -> int {
    match s.option_type {
        OptionType::Call => price - s.strike,
        OptionType::Put => s.strike - price,
    }
}

/// The assignment that position `i` meets in the scenario's market on
/// `eval_date`, as (gain, long-term?, stock cash): a short option at or past
/// expiry whose underlying is quoted in the money. The stock trades at the
/// strike, 100 shares a contract. A call written against stock in the
/// portfolio is folded into the stock's sale, the premium lowering its basis,
/// and takes the stock's holding period; any other assignment realises the
/// premium less the intrinsic value, over the option's own holding period.
pub open spec fn assignment_at(
    ps: Seq<Position>,
    i: int,
    eval_date: Date,
    inputs: Seq<ScenarioMarketInput>,
) -> Option<(int, bool, int)> {
    let p = ps[i];
    match p.option_spec {
        None => None,
        Some(s) => {
            let q = effective_quantity_of(p);
            if q >= 0 || !date_le(s.expiry, eval_date) {
                None
            } else {
                match price_in(inputs, p.symbol@) {
                    None => None,
                    Some(price) => {
                        let intrinsic = intrinsic_of(s, price as int);
                        if intrinsic <= 0 {
                            None
                        } else {
                            let n = -q;
                            let notional = s.strike * n * 100;
                            let stock_cash = match s.option_type {
                                OptionType::Call => notional,
                                OptionType::Put => -notional,
                            };
                            let (gain, start) = match (s.option_type, holder_from(ps, p.symbol@, 0)) {
                                (OptionType::Call, Some(j)) => (
                                    (s.strike - (effective_cost_basis_of(ps[j]) - effective_cost_basis_of(p))) * n * 100,
                                    oldest_open_of(ps[j]),
                                ),
                                _ => ((effective_cost_basis_of(p) - intrinsic) * n * 100, oldest_open_of(p)),
                            };
                            Some((gain, day_number(eval_date) - utc_day(start) > 365, stock_cash))
                        }
                    },
                }
            }
        },
    }
}

/// Indices of the positions below `n` that meet an assignment, in order.
pub open spec fn assigned_upto(ps: Seq<Position>, n: int, eval_date: Date, inputs: Seq<ScenarioMarketInput>) -> Seq<int>
    decreases n,
{
    if n <= 0 {
        Seq::empty()
    } else {
        assigned_upto(ps, n - 1, eval_date, inputs) + if assignment_at(ps, n - 1, eval_date, inputs) is Some {
            seq![n - 1]
        } else {
            Seq::empty()
        }
    }
}

/// Stock cash of the assignments below `n`.
pub open spec fn assigned_cash(ps: Seq<Position>, n: int, eval_date: Date, inputs: Seq<ScenarioMarketInput>) -> int
    decreases n,
{
    if n <= 0 {
        0
    } else {
        assigned_cash(ps, n - 1, eval_date, inputs) + match assignment_at(ps, n - 1, eval_date, inputs) {
            Some(a) => a.2,
            None => 0,
        }
    }
}

/// Gains of the assignments below `n` of the given term.
pub open spec fn assigned_gain(ps: Seq<Position>, n: int, eval_date: Date, inputs: Seq<ScenarioMarketInput>, long: bool) -> int
    decreases n,
{
    if n <= 0 {
        0
    } else {
        assigned_gain(ps, n - 1, eval_date, inputs, long) + match assignment_at(ps, n - 1, eval_date, inputs) {
            Some(a) => if a.1 == long { a.0 } else { 0 },
            None => 0,
        }
    }
}

/// "Assignment: AAPL short Call $150 17-Jan-25 ×2".
pub open spec fn assignment_text(p: Position, s: OptionSpec) -> Seq<char> {
    "Assignment: "@ + p.symbol@ + " short "@ + contract_text(s) + " ×"@
        + digits_text((-effective_quantity_of(p)) as nat)
}

/// `e` reports the assignment position `i` meets.
pub open spec fn reports_assignment(
    ps: Seq<Position>,
    i: int,
    eval_date: Date,
    inputs: Seq<ScenarioMarketInput>,
    e: AssignmentEvent,
) -> bool {
    match (ps[i].option_spec, assignment_at(ps, i, eval_date, inputs)) {
        (Some(s), Some(a)) => {
            &&& e.description@ == assignment_text(ps[i], s)
            &&& e.option_pnl == a.0
            &&& e.is_long_term == a.1
            &&& e.stock_cash_flow == a.2
            &&& e.option_type == s.option_type
            &&& e.strike == s.strike
            &&& e.contracts == -effective_quantity_of(ps[i])
        },
        _ => false,
    }
}

/// Positions whose quantities, bases and holding periods can be computed
/// and whose contracts can be printed.
pub open spec fn evaluable_positions(ps: Seq<Position>) -> bool {
    forall|k: int| 0 <= k < ps.len() ==> {
        &&& ready(#[trigger] ps[k])
        &&& (ps[k].option_spec matches Some(s) ==> valid_date(s.expiry))
    }
}

/// The first stock position holding `sym` long (see [`holder_from`]).
fn stock_holder(positions: &[Position], sym: &str) -> (r: Option<usize>)
    requires
        evaluable_positions(positions@),
    ensures
        r matches Some(j) ==> holder_from(positions@, sym@, 0) == Some(j as int),
        r is None <==> holder_from(positions@, sym@, 0) is None,
{
    let mut k: usize = 0;
    while k < positions.len()
        invariant
            k <= positions.len(),
            evaluable_positions(positions@),
            holder_from(positions@, sym@, 0) == holder_from(positions@, sym@, k as int),
        decreases positions.len() - k,
    {
        let p = &positions[k];
        assert(ready(positions@[k as int]));
        if p.option_spec.is_none() && crate::text::str_eq(p.symbol.as_str(), sym) && p.effective_quantity() > 0 {
            return Some(k);
        }
        k += 1;
    }
    None
}

const NOTIONAL_BOUND: i128 = 0x20_0000_0000_0000_0000_0000_0000;

proof fn lemma_assignment_bounds(ps: Seq<Position>, i: int, eval_date: Date, inputs: Seq<ScenarioMarketInput>)
    requires
        0 <= i < ps.len(),
        evaluable_positions(ps),
    ensures
        assignment_at(ps, i, eval_date, inputs) matches Some(a) ==> {
            &&& -GAIN_BOUND <= a.0 <= GAIN_BOUND
            &&& -NOTIONAL_BOUND <= a.2 <= NOTIONAL_BOUND
        },
{
    let p = ps[i];
    ready_values_fit(ps[i]);
    if let Some(s) = p.option_spec {
        let q = effective_quantity_of(p);
        if q < 0 {
            if let Some(price) = price_in(inputs, p.symbol@) {
                let n = -q;
                let st = s.strike as int;
                assert(-NOTIONAL_BOUND <= st * n * 100 <= NOTIONAL_BOUND) by (nonlinear_arith)
                    requires
                        i64::MIN <= st <= i64::MAX,
                        0 < n <= 0x8000_0000;
                let bp = effective_cost_basis_of(p);
                let intrinsic = intrinsic_of(s, price as int);
                assert(-GAIN_BOUND <= (bp - intrinsic) * n * 100 <= GAIN_BOUND) by (nonlinear_arith)
                    requires
                        -0x1_8000_0000_0000_0000 <= bp - intrinsic <= 0x1_8000_0000_0000_0000,
                        0 < n <= 0x8000_0000;
                if let Some(j) = holder_from(ps, p.symbol@, 0) {
                    lemma_holder_in_range(ps, p.symbol@, 0);
                    ready_values_fit(ps[j]);
                    let bj = effective_cost_basis_of(ps[j]);
                    assert(-GAIN_BOUND <= (st - (bj - bp)) * n * 100 <= GAIN_BOUND) by (nonlinear_arith)
                        requires
                            -0x1_8000_0000_0000_0000 <= st - (bj - bp) <= 0x1_8000_0000_0000_0000,
                            0 < n <= 0x8000_0000;
                }
            }
        }
    }
}

proof fn lemma_holder_in_range(ps: Seq<Position>, sym: Seq<char>, k: int)
    requires
        0 <= k,
    ensures
        holder_from(ps, sym, k) matches Some(j) ==> k <= j < ps.len(),
    decreases ps.len() - k,
{
    if k < ps.len() {
        lemma_holder_in_range(ps, sym, k + 1);
    }
}

proof fn lemma_assigned_sums_bounded(ps: Seq<Position>, n: int, eval_date: Date, inputs: Seq<ScenarioMarketInput>)
    requires
        0 <= n <= ps.len(),
        evaluable_positions(ps),
    ensures
        -n * NOTIONAL_BOUND <= assigned_cash(ps, n, eval_date, inputs) <= n * NOTIONAL_BOUND,
        -n * GAIN_BOUND <= assigned_gain(ps, n, eval_date, inputs, true) <= n * GAIN_BOUND,
        -n * GAIN_BOUND <= assigned_gain(ps, n, eval_date, inputs, false) <= n * GAIN_BOUND,
    decreases n,
{
    if n > 0 {
        lemma_assigned_sums_bounded(ps, n - 1, eval_date, inputs);
        lemma_assignment_bounds(ps, n - 1, eval_date, inputs);
    }
}

/// The assignments the scenario implies, with their stock cash and their
/// short- and long-term gains.
fn evaluate_assignments(sc: &Scenario, positions: &[Position]) -> (r: (Vec<AssignmentEvent>, i128, i128, i128))
    requires
        positions.len() <= SCENARIO_CAPACITY,
        valid_date(sc.evaluation_date),
        evaluable_positions(positions@),
    ensures
        ({
            let ps = positions@;
            let idx = assigned_upto(ps, ps.len() as int, sc.evaluation_date, sc.market_inputs@);
            &&& r.0.len() == idx.len()
            &&& forall|k: int| 0 <= k < idx.len() ==> reports_assignment(ps, #[trigger] idx[k], sc.evaluation_date, sc.market_inputs@, r.0@[k])
            &&& r.1 == assigned_cash(ps, ps.len() as int, sc.evaluation_date, sc.market_inputs@)
            &&& r.2 == assigned_gain(ps, ps.len() as int, sc.evaluation_date, sc.market_inputs@, false)
            &&& r.3 == assigned_gain(ps, ps.len() as int, sc.evaluation_date, sc.market_inputs@, true)
        }),
{
    let ghost ps = positions@;
    let ghost inputs = sc.market_inputs@;
    let eval = sc.evaluation_date;
    let mut out: Vec<AssignmentEvent> = Vec::new();
    let mut cash: i128 = 0;
    let mut st: i128 = 0;
    let mut lt: i128 = 0;
    let mut i: usize = 0;
    while i < positions.len()
        invariant
            i <= positions.len(),
            ps == positions@,
            inputs == sc.market_inputs@,
            positions.len() <= SCENARIO_CAPACITY,
            eval == sc.evaluation_date,
            valid_date(eval),
            evaluable_positions(ps),
            out.len() == assigned_upto(ps, i as int, eval, inputs).len(),
            forall|k: int| 0 <= k < out.len() ==>
                reports_assignment(ps, #[trigger] assigned_upto(ps, i as int, eval, inputs)[k], eval, inputs, out@[k]),
            cash == assigned_cash(ps, i as int, eval, inputs),
            st == assigned_gain(ps, i as int, eval, inputs, false),
            lt == assigned_gain(ps, i as int, eval, inputs, true),
        decreases positions.len() - i,
    {
        proof {
            lemma_assigned_sums_bounded(ps, i + 1, eval, inputs);
            assert((i + 1) * GAIN_BOUND <= SCENARIO_CAPACITY * GAIN_BOUND) by (nonlinear_arith)
                requires i + 1 <= SCENARIO_CAPACITY;
            assert((i + 1) * NOTIONAL_BOUND <= SCENARIO_CAPACITY * NOTIONAL_BOUND) by (nonlinear_arith)
                requires i + 1 <= SCENARIO_CAPACITY;
            lemma_assignment_bounds(ps, i as int, eval, inputs);
            ready_values_fit(ps[i as int]);
        }
        let ghost prev = assigned_upto(ps, i as int, eval, inputs);
        let p = &positions[i];
        let event = assignment_for(sc, positions, i);
        match event {
            Some(e) => {
                let ghost a = assignment_at(ps, i as int, eval, inputs)->Some_0;
                cash = cash + e.stock_cash_flow;
                if e.is_long_term {
                    lt = lt + e.option_pnl;
                } else {
                    st = st + e.option_pnl;
                }
                out.push(e);
                proof {
                    assert(assigned_upto(ps, i + 1, eval, inputs) == prev + seq![i as int]);
                    assert forall|k: int| 0 <= k < out.len() implies
                        reports_assignment(ps, #[trigger] assigned_upto(ps, i + 1, eval, inputs)[k], eval, inputs, out@[k]) by {
                        if k < prev.len() {
                            assert(assigned_upto(ps, i + 1, eval, inputs)[k] == prev[k]);
                            assert(out@[k] == out@.drop_last()[k]);
                        }
                    }
                }
            },
            None => {
                proof {
                    assert(assigned_upto(ps, i + 1, eval, inputs) == prev);
                }
            },
        }
        i += 1;
    }
    (out, cash, st, lt)
}

/// The assignment position `i` meets, if any (see [`assignment_at`]).
fn assignment_for(sc: &Scenario, positions: &[Position], i: usize) -> (r: Option<AssignmentEvent>)
    requires
        i < positions.len(),
        valid_date(sc.evaluation_date),
        evaluable_positions(positions@),
    ensures
        r is Some <==> assignment_at(positions@, i as int, sc.evaluation_date, sc.market_inputs@) is Some,
        r matches Some(e) ==> {
            &&& reports_assignment(positions@, i as int, sc.evaluation_date, sc.market_inputs@, e)
            &&& e.option_pnl == assignment_at(positions@, i as int, sc.evaluation_date, sc.market_inputs@)->Some_0.0
            &&& e.is_long_term == assignment_at(positions@, i as int, sc.evaluation_date, sc.market_inputs@)->Some_0.1
            &&& e.stock_cash_flow == assignment_at(positions@, i as int, sc.evaluation_date, sc.market_inputs@)->Some_0.2
        },
{
    let ghost ps = positions@;
    let eval = sc.evaluation_date;
    let p = &positions[i];
    proof {
        assert(ready(ps[i as int]));
        ready_values_fit(ps[i as int]);
        lemma_assignment_bounds(ps, i as int, eval, sc.market_inputs@);
    }
    let s = match &p.option_spec {
        Some(s) => s,
        None => return None,
    };
    let q = p.effective_quantity();
    if q >= 0 || !date_le_exec(s.expiry, eval) {
        return None;
    }
    let price = match sc.price_for(p.symbol.as_str()) {
        Some(price) => price,
        None => return None,
    };
    let intrinsic: i128 = match s.option_type {
        OptionType::Call => price as i128 - s.strike as i128,
        OptionType::Put => s.strike as i128 - price as i128,
    };
    if intrinsic <= 0 {
        return None;
    }
    let n: i128 = -(q as i128);
    let strike = s.strike as i128;
    assert(-NOTIONAL_BOUND <= strike * n * 100 <= NOTIONAL_BOUND) by (nonlinear_arith)
        requires
            i64::MIN <= strike <= i64::MAX,
            0 < n <= 0x8000_0000;
    let notional: i128 = strike * n * 100;
    let stock_cash: i128 = match s.option_type {
        OptionType::Call => notional,
        OptionType::Put => -notional,
    };
    let own_basis = p.effective_cost_basis() as i128;
    let holder = match s.option_type {
        OptionType::Call => stock_holder(positions, p.symbol.as_str()),
        OptionType::Put => None,
    };
    let (gain, start) = match holder {
        Some(j) => {
            proof {
                lemma_holder_in_range(ps, p.symbol@, 0);
                assert(ready(ps[j as int]));
                ready_values_fit(ps[j as int]);
            }
            let adjusted = positions[j].effective_cost_basis() as i128 - own_basis;
            assert(-GAIN_BOUND <= (strike - adjusted) * n * 100 <= GAIN_BOUND) by (nonlinear_arith)
                requires
                    -0x1_8000_0000_0000_0000 <= strike - adjusted <= 0x1_8000_0000_0000_0000,
                    0 < n <= 0x8000_0000;
            ((strike - adjusted) * n * 100, positions[j].oldest_open_lot_date())
        },
        None => {
            assert(-GAIN_BOUND <= (own_basis - intrinsic) * n * 100 <= GAIN_BOUND) by (nonlinear_arith)
                requires
                    -0x1_8000_0000_0000_0000 <= own_basis - intrinsic <= 0x1_8000_0000_0000_0000,
                    0 < n <= 0x8000_0000;
            ((own_basis - intrinsic) * n * 100, p.oldest_open_lot_date())
        },
    };
    let held_long = day_number_exec(eval) - utc_day_exec(start) > 365;
    let mut description = String::from_str("Assignment: ");
    description.append(p.symbol.as_str());
    description.append(" short ");
    let contract = contract_string(s);
    description.append(contract.as_str());
    description.append(" ×");
    let mut digits: Vec<char> = Vec::new();
    push_digits(&mut digits, n as u128);
    let count = string_from(&digits);
    description.append(count.as_str());
    Some(AssignmentEvent {
        description,
        option_pnl: gain,
        is_long_term: held_long,
        stock_cash_flow: stock_cash,
        option_type: s.option_type,
        strike: s.strike,
        contracts: n as u32,
    })
}

// ── The whole evaluation ─────────────────────────────────────────────────────

/// A scenario and portfolio that can be evaluated: dates that exist,
/// positions whose trade logs can be matched, and no more entries than
/// [`SCENARIO_CAPACITY`].
pub open spec fn evaluable(sc: Scenario, ps: Seq<Position>) -> bool {
    &&& ps.len() <= SCENARIO_CAPACITY
    &&& sc.trades.len() <= SCENARIO_CAPACITY
    &&& valid_date(sc.evaluation_date)
    &&& forall|k: int| 0 <= k < sc.trades.len() ==> dated_trade(#[trigger] sc.trades@[k])
    &&& evaluable_positions(ps)
}

/// Whether [`evaluate`] can take `scenario` and `positions` (see
/// [`evaluable`]); callers test this first.
pub fn is_evaluable(scenario: &Scenario, positions: &[Position]) -> (r: bool)
    ensures
        r == evaluable(*scenario, positions@),
{
    if positions.len() > SCENARIO_CAPACITY || scenario.trades.len() > SCENARIO_CAPACITY {
        return false;
    }
    if !valid_date_exec(scenario.evaluation_date) {
        return false;
    }
    let mut i: usize = 0;
    while i < scenario.trades.len()
        invariant
            i <= scenario.trades.len(),
            forall|k: int| 0 <= k < i ==> dated_trade(#[trigger] scenario.trades@[k]),
        decreases scenario.trades.len() - i,
    {
        match scenario.trades[i].closes_opened_at {
            Some(d) => if !valid_date_exec(d) {
                assert(!dated_trade(scenario.trades@[i as int]));
                return false;
            },
            None => {},
        }
        i += 1;
    }
    let mut j: usize = 0;
    while j < positions.len()
        invariant
            j <= positions.len(),
            forall|k: int| 0 <= k < j ==> {
                &&& ready(#[trigger] positions@[k])
                &&& (positions@[k].option_spec matches Some(s) ==> valid_date(s.expiry))
            },
        decreases positions.len() - j,
    {
        let p = &positions[j];
        if !p.is_ready() {
            return false;
        }
        match &p.option_spec {
            Some(s) => if !valid_date_exec(s.expiry) {
                return false;
            },
            None => {},
        }
        j += 1;
    }
    true
}

/// Evaluates `scenario` against `positions`: each trade's cash and realised
/// gain; the assignments of short options in the money at or past expiry;
/// the net cash of both (pre-tax); the gains split by term; and the call
/// coverage of every stock holding.
pub fn evaluate(scenario: &Scenario, positions: &[Position]) -> (r: ScenarioResult)
    requires
        evaluable(*scenario, positions@),
    ensures
        ({
            let ps = positions@;
            let ts = scenario.trades@;
            let eval = scenario.evaluation_date;
            let inputs = scenario.market_inputs@;
            let idx = assigned_upto(ps, ps.len() as int, eval, inputs);
            &&& r.trade_results.len() == ts.len()
            &&& forall|k: int| 0 <= k < ts.len() ==> reports_trade(#[trigger] ts[k], eval, r.trade_results@[k])
            &&& r.assignments.len() == idx.len()
            &&& forall|k: int| 0 <= k < idx.len() ==> reports_assignment(ps, #[trigger] idx[k], eval, inputs, r.assignments@[k])
            &&& r.net_cash == trades_cash(ts) + assigned_cash(ps, ps.len() as int, eval, inputs)
            &&& r.total_st_gain == trades_st(ts, eval) + assigned_gain(ps, ps.len() as int, eval, inputs, false)
            &&& r.total_lt_gain == trades_lt(ts, eval) + assigned_gain(ps, ps.len() as int, eval, inputs, true)
            &&& lists_stock_symbols(ps, r.coverage@.map_values(|c: CoverageSummary| c.symbol@))
            &&& forall|k: int| 0 <= k < r.coverage.len() ==> reports_coverage(ps, ts, (#[trigger] r.coverage@[k]).symbol@, r.coverage@[k])
        }),
{
    let (trade_results, trade_cash, trade_st, trade_lt) = evaluate_trades(scenario);
    let (assignments, stock_cash, assigned_st, assigned_lt) = evaluate_assignments(scenario, positions);
    proof {
        let ps = positions@;
        let eval = scenario.evaluation_date;
        let inputs = scenario.market_inputs@;
        lemma_trade_sums_bounded(scenario.trades@, eval);
        lemma_assigned_sums_bounded(ps, ps.len() as int, eval, inputs);
        let n = scenario.trades.len() as int;
        let m = ps.len() as int;
        assert(n * GAIN_BOUND <= SCENARIO_CAPACITY * GAIN_BOUND) by (nonlinear_arith)
            requires n <= SCENARIO_CAPACITY;
        assert(n * CASH_BOUND <= SCENARIO_CAPACITY * CASH_BOUND) by (nonlinear_arith)
            requires n <= SCENARIO_CAPACITY;
        assert(m * GAIN_BOUND <= SCENARIO_CAPACITY * GAIN_BOUND) by (nonlinear_arith)
            requires m <= SCENARIO_CAPACITY;
        assert(m * NOTIONAL_BOUND <= SCENARIO_CAPACITY * NOTIONAL_BOUND) by (nonlinear_arith)
            requires m <= SCENARIO_CAPACITY;
    }
    let coverage = coverage(positions, scenario.trades.as_slice());
    ScenarioResult {
        evaluated_at: utc_now(),
        trade_results,
        assignments,
        net_cash: trade_cash + stock_cash,
        total_st_gain: trade_st + assigned_st,
        total_lt_gain: trade_lt + assigned_lt,
        coverage,
    }
}

// ── What an assignment realises ──────────────────────────────────────────────

/// What a reported assignment realises, from the position, the strike and
/// the scenario's price of the underlying. The option was in the money: the
/// price above the strike for a call, below it for a put; the stock changes
/// hands at the strike, 100 shares a contract, cash coming in for a call and
/// going out for a put. A put, or a call
/// with no long stock of its underlying in the portfolio, gains the premium
/// basis less that intrinsic value (price − strike for a call, strike − price
/// for a put), 100 shares a contract. A call written against stock held long
/// is folded into the stock's sale at the strike, its premium lowering the
/// stock's basis.
pub proof fn assignment_gain_is_premium_less_intrinsic(
    ps: Seq<Position>,
    i: int,
    eval_date: Date,
    inputs: Seq<ScenarioMarketInput>,
    e: AssignmentEvent,
)
    requires
        0 <= i < ps.len(),
        reports_assignment(ps, i, eval_date, inputs, e),
    ensures
        price_in(inputs, ps[i].symbol@) is Some,
        ({
            let price = price_in(inputs, ps[i].symbol@).unwrap() as int;
            let basis = effective_cost_basis_of(ps[i]);
            let n = e.contracts as int;
            &&& n > 0
            &&& e.option_type == OptionType::Call ==> price > e.strike
            &&& e.option_type == OptionType::Put ==> price < e.strike
            &&& e.option_type == OptionType::Call ==> e.stock_cash_flow == e.strike * n * 100
            &&& e.option_type == OptionType::Put ==> e.stock_cash_flow == -(e.strike * n * 100)
            &&& e.option_type == OptionType::Call && holder_from(ps, ps[i].symbol@, 0) is None
                ==> e.option_pnl == (basis - (price - e.strike)) * n * 100
            &&& e.option_type == OptionType::Put
                ==> e.option_pnl == (basis - (e.strike - price)) * n * 100
            &&& (holder_from(ps, ps[i].symbol@, 0) matches Some(j) ==> e.option_type == OptionType::Call
                ==> e.option_pnl == (e.strike - (effective_cost_basis_of(ps[j]) - basis)) * n * 100)
        }),
{
}

} // verus!
