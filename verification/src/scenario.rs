//! What-if scenarios: hypothetical trades evaluated against the portfolio.
//!
//! Money is in micros (millionths of a dollar) throughout; a trade's price is
//! per share, or the per-share premium of an option, whose contracts cover
//! 100 shares each.

use vstd::prelude::*;
use crate::calendar::{
    chrono_format, chrono_parse, chrono_utc_date, format_date, iso_text, day_number_exec, days_between, parse_date_with, utc_date, valid_date, Date,
    Timestamp,
};
use crate::clock::{new_id, utc_now};
use crate::coverage::{find_position, position_by_id};
use crate::evaluation::evaluable_positions;
use crate::import::{blank_str, div_round_exec};
use crate::money::{
    abs, amount_of, count_of, decimal_reads_back, decimal_text, div_round, fits_i64, fmt_decimal, fmt_integer,
    integer_reads_back, integer_text, parse_amount, parse_count, round_half_even,
};
use crate::format::{fixed2_reads_back, fixed2_text, fmt_fixed2};
use crate::option::{OptionSpec, OptionType};
use crate::position::{effective_cost_basis_of, effective_quantity_of, oldest_open_of, ready, ready_values_fit, Position};
use crate::text::{chars_of, is_blank, str_eq, to_upper, trim, trimmed, unicode_upper};
use vstd::string::StringExecFns;

verus! {

/// The most trades a scenario, and the most positions a portfolio, are
/// evaluated over: totals of this many entries stay within `i128`.
pub const SCENARIO_CAPACITY: usize = 1_000_000;

// ── Market inputs ────────────────────────────────────────────────────────────

/// The market a scenario is evaluated in, for one underlying. `vol` and `rate`
/// are fractions in millionths (250_000 is 25%).
#[derive(Debug, Clone, PartialEq, Eq)]
pub struct ScenarioMarketInput {
    pub symbol: String,
    pub price: i64,
    pub vol: i64,
    pub rate: i64,
}

// ── Trades ───────────────────────────────────────────────────────────────────

#[derive(Debug, Clone, Copy, PartialEq, Eq, Structural)]
pub enum TradeDirection {
    Buy,
    Sell,
}

pub open spec fn direction_label(d: TradeDirection) -> Seq<char> {
    match d {
        TradeDirection::Buy => "Buy"@,
        TradeDirection::Sell => "Sell"@,
    }
}

/// +1 for a purchase, −1 for a sale.
pub open spec fn direction_sign(d: TradeDirection) -> int {
    match d {
        TradeDirection::Buy => 1,
        TradeDirection::Sell => -1,
    }
}

impl TradeDirection {
    pub fn label(&self) -> (r: &'static str)
        ensures
            r@ == direction_label(*self),
    {
        match self {
            TradeDirection::Buy => "Buy",
            TradeDirection::Sell => "Sell",
        }
    }

    pub fn sign(&self) -> (r: i64)
        ensures
            r == direction_sign(*self),
    {
        match self {
            TradeDirection::Buy => 1,
            TradeDirection::Sell => -1,
        }
    }
}

/// One leg of a hypothetical trade within a scenario.
#[derive(Debug, Clone)]
pub struct ScenarioTrade {
    pub id: u128,
    pub label: String,
    pub symbol: String,
    pub direction: TradeDirection,
    /// Always positive; the direction carries the sign.
    pub contracts: u32,
    /// Per share, or the per-share premium; micros.
    pub price: i64,
    pub option_spec: Option<OptionSpec>,
    /// Set when the trade closes an existing portfolio position.
    pub closes_position_id: Option<u128>,
    pub closes_cost_basis: Option<i64>,
    /// Whether the position it closes was long.
    pub closes_is_long: Option<bool>,
    pub closes_opened_at: Option<Date>,
}

/// Shares per unit traded: 100 for an option contract, 1 for stock.
pub open spec fn multiplier_of(t: ScenarioTrade) -> int {
    if t.option_spec is Some { 100 } else { 1 }
}

/// Cash the trade moves: received on a sale, paid (negative) on a purchase.
pub open spec fn cash_flow_of(t: ScenarioTrade) -> int {
    let v = t.price * t.contracts * multiplier_of(t);
    match t.direction {
        TradeDirection::Buy => -v,
        TradeDirection::Sell => v,
    }
}

/// The gain realised when the trade closes a position whose basis and side
/// are known: price above basis for a long, below it for a short.
pub open spec fn gain_of(t: ScenarioTrade) -> Option<int> {
    match (t.closes_cost_basis, t.closes_is_long) {
        (Some(cb), Some(is_long)) => Some(
            (if is_long { t.price - cb } else { cb - t.price }) * t.contracts * multiplier_of(t),
        ),
        _ => None,
    }
}

/// Long-term when the closed stock position was held more than 365 days;
/// options are always short-term.
pub open spec fn long_term_of(t: ScenarioTrade, eval_date: Date) -> bool {
    &&& t.option_spec is None
    &&& match t.closes_opened_at {
        Some(d) => days_between(d, eval_date) > 365,
        None => false,
    }
}

/// Dates that a trade's holding period can be measured with.
pub open spec fn dated_trade(t: ScenarioTrade) -> bool {
    t.closes_opened_at matches Some(d) ==> valid_date(d)
}

impl ScenarioTrade {
    pub fn multiplier(&self) -> (r: i64)
        ensures
            r == multiplier_of(*self),
    {
        if self.option_spec.is_some() { 100 } else { 1 }
    }

    /// Positive = cash received, negative = cash paid.
    pub fn cash_flow(&self) -> (r: i128)
        ensures
            r == cash_flow_of(*self),
    {
        let p = self.price as i128;
        let c = self.contracts as i128;
        let m = self.multiplier() as i128;
        assert(-0x8000_0000_0000_0000 * 0x1_0000_0000 <= p * c <= 0x8000_0000_0000_0000 * 0x1_0000_0000) by (nonlinear_arith)
            requires
                i64::MIN <= p <= i64::MAX,
                0 <= c <= u32::MAX;
        let pc = p * c;
        assert(-0x8000_0000_0000_0000 * 0x1_0000_0000 * 100 <= pc * m <= 0x8000_0000_0000_0000 * 0x1_0000_0000 * 100) by (nonlinear_arith)
            requires
                -0x8000_0000_0000_0000 * 0x1_0000_0000 <= pc <= 0x8000_0000_0000_0000 * 0x1_0000_0000,
                1 <= m <= 100;
        let v = pc * m;
        assert(v == self.price * self.contracts * multiplier_of(*self));
        match self.direction {
            TradeDirection::Buy => -v,
            TradeDirection::Sell => v,
        }
    }

    /// Realised gain or loss if this closes an existing position; `None` for
    /// an opening trade.
    pub fn realized_gain(&self) -> (r: Option<i128>)
        ensures
            r matches Some(g) ==> gain_of(*self) == Some(g as int),
            r is None <==> gain_of(*self) is None,
    {
        let cb = match self.closes_cost_basis {
            Some(cb) => cb,
            None => return None,
        };
        let is_long = match self.closes_is_long {
            Some(l) => l,
            None => return None,
        };
        let diff: i128 = if is_long { self.price as i128 - cb as i128 } else { cb as i128 - self.price as i128 };
        let c = self.contracts as i128;
        let m = self.multiplier() as i128;
        assert(-0x1_0000_0000_0000_0000 * 0x1_0000_0000 <= diff * c <= 0x1_0000_0000_0000_0000 * 0x1_0000_0000) by (nonlinear_arith)
            requires
                -0x1_0000_0000_0000_0000 <= diff <= 0x1_0000_0000_0000_0000,
                0 <= c <= u32::MAX;
        let dc = diff * c;
        assert(-0x1_0000_0000_0000_0000 * 0x1_0000_0000 * 100 <= dc * m <= 0x1_0000_0000_0000_0000 * 0x1_0000_0000 * 100) by (nonlinear_arith)
            requires
                -0x1_0000_0000_0000_0000 * 0x1_0000_0000 <= dc <= 0x1_0000_0000_0000_0000 * 0x1_0000_0000,
                1 <= m <= 100;
        Some(dc * m)
    }

    /// Long-term when the closed stock position was held more than 365 days
    /// at `eval_date`; options are always short-term.
    pub fn is_long_term(&self, eval_date: Date) -> (r: bool)
        requires
            valid_date(eval_date),
            dated_trade(*self),
        ensures
            r == long_term_of(*self, eval_date),
    {
        if self.option_spec.is_some() {
            return false;
        }
        match self.closes_opened_at {
            Some(d) => day_number_exec(eval_date) - day_number_exec(d) > 365,
            None => false,
        }
    }
}

// ── Results ──────────────────────────────────────────────────────────────────

/// What one scenario trade does: its cash and, when it closes a position,
/// the gain and its term.
#[derive(Debug, Clone)]
pub struct TradeResult {
    pub label: String,
    pub cash_flow: i128,
    pub realized_gain: Option<i128>,
    pub is_long_term: bool,
}

/// An assignment the scenario implies: a short option in the money at or
/// past expiry.
#[derive(Debug, Clone)]
pub struct AssignmentEvent {
    pub description: String,
    /// Gain or loss realised by the assignment.
    pub option_pnl: i128,
    pub is_long_term: bool,
    /// Cash from the resulting stock transaction (positive = received).
    pub stock_cash_flow: i128,
    pub option_type: OptionType,
    pub strike: i64,
    pub contracts: u32,
}

/// How a stock holding stands against the short calls written on it, before
/// and after the scenario's trades.
#[derive(Debug, Clone)]
pub struct CoverageSummary {
    pub symbol: String,
    pub net_shares: i64,
    pub net_short_call_contracts: i64,
    /// Proceeds if every short call is assigned, lowest strike first.
    pub upside_before: i128,
    pub upside_after: i128,
}

/// The outcome of a scenario: per-trade results, implied assignments, the
/// cash it moves and the gains it realises by term, and call coverage.
#[derive(Debug, Clone)]
pub struct ScenarioResult {
    pub evaluated_at: Timestamp,
    pub trade_results: Vec<TradeResult>,
    pub assignments: Vec<AssignmentEvent>,
    pub net_cash: i128,
    pub total_st_gain: i128,
    pub total_lt_gain: i128,
    pub coverage: Vec<CoverageSummary>,
}

impl ScenarioResult {
    /// Short- plus long-term gain.
    pub fn total_realized(&self) -> (r: i128)
        requires
            i128::MIN <= self.total_st_gain + self.total_lt_gain <= i128::MAX,
        ensures
            r == self.total_st_gain + self.total_lt_gain,
    {
        self.total_st_gain + self.total_lt_gain
    }
}

// ── Scenario ─────────────────────────────────────────────────────────────────

pub struct Scenario {
    pub id: u128,
    pub name: String,
    pub created_at: Timestamp,
    pub evaluation_date: Date,
    pub market_inputs: Vec<ScenarioMarketInput>,
    pub trades: Vec<ScenarioTrade>,
    pub archived: bool,
}

/// The price of the first market input quoted for `symbol`.
pub open spec fn price_in(inputs: Seq<ScenarioMarketInput>, symbol: Seq<char>) -> Option<i64>
    decreases inputs.len(),
{
    if inputs.len() == 0 {
        None
    } else if inputs[0].symbol@ == symbol {
        Some(inputs[0].price)
    } else {
        price_in(inputs.drop_first(), symbol)
    }
}

impl Scenario {
    /// An empty, unarchived scenario with a fresh id, created now.
    pub fn new(name: &str, evaluation_date: Date) -> (r: Scenario)
        ensures
            r.name@ == name@,
            r.evaluation_date == evaluation_date,
            r.market_inputs@.len() == 0,
            r.trades@.len() == 0,
            !r.archived,
    {
        Scenario {
            id: new_id(),
            name: String::from_str(name),
            created_at: utc_now(),
            evaluation_date,
            market_inputs: Vec::new(),
            trades: Vec::new(),
            archived: false,
        }
    }

    /// The price of `symbol` in this scenario's market, if it is quoted.
    pub fn price_for(&self, symbol: &str) -> (r: Option<i64>)
        ensures
            r == price_in(self.market_inputs@, symbol@),
    {
        let mut i: usize = 0;
        assert(self.market_inputs@.skip(0) == self.market_inputs@);
        while i < self.market_inputs.len()
            invariant
                i <= self.market_inputs.len(),
                price_in(self.market_inputs@, symbol@) == price_in(self.market_inputs@.skip(i as int), symbol@),
            decreases self.market_inputs.len() - i,
        {
            proof {
                assert(self.market_inputs@.skip(i as int).drop_first() == self.market_inputs@.skip(i + 1));
            }
            if str_eq(self.market_inputs[i].symbol.as_str(), symbol) {
                return Some(self.market_inputs[i].price);
            }
            i += 1;
        }
        None
    }
}

// ── Covered-call upside ──────────────────────────────────────────────────────

/// `t` placed into strike-sorted `s` after every tier of equal or lower strike.
pub open spec fn insert_tier(s: Seq<(i64, i64)>, t: (i64, i64)) -> Seq<(i64, i64)>
    decreases s.len(),
{
    if s.len() == 0 {
        seq![t]
    } else if s.last().0 <= t.0 {
        s.push(t)
    } else {
        insert_tier(s.drop_last(), t).push(s.last())
    }
}

/// `(strike, contracts)` tiers by strike, lowest first; equal strikes keep
/// their order.
pub open spec fn by_strike(s: Seq<(i64, i64)>) -> Seq<(i64, i64)>
    decreases s.len(),
{
    if s.len() == 0 {
        s
    } else {
        insert_tier(by_strike(s.drop_last()), s.last())
    }
}

/// `remaining` shares called away tier by tier: each tier takes up to 100
/// shares per contract at its strike, until the shares run out.
pub open spec fn upside_from(remaining: int, tiers: Seq<(i64, i64)>) -> int
    decreases tiers.len(),
{
    if tiers.len() == 0 || remaining <= 0 {
        0
    } else {
        let cap = tiers[0].1 * 100;
        let a = if remaining <= cap { remaining } else { cap };
        a * tiers[0].0 + upside_from(remaining - a, tiers.drop_first())
    }
}

/// The proceeds of `shares` called away by short calls, the lowest strikes
/// first: the upside the calls cap the holding at.
pub open spec fn covered_upside_of(shares: int, tiers: Seq<(i64, i64)>) -> int {
    upside_from(shares, by_strike(tiers))
}

proof fn lemma_insert_tier_at(s: Seq<(i64, i64)>, t: (i64, i64), j: int)
    requires
        0 <= j <= s.len(),
        forall|k: int| j <= k < s.len() ==> #[trigger] s[k].0 > t.0,
        j == 0 || s[j - 1].0 <= t.0,
    ensures
        insert_tier(s, t) == s.take(j).push(t) + s.skip(j),
    decreases s.len(),
{
    if s.len() == 0 {
        assert(s.take(j).push(t) + s.skip(j) == seq![t]);
    } else if j == s.len() {
        assert(s.take(j) == s);
        assert(s.take(j).push(t) + s.skip(j) == s.push(t));
    } else {
        let d = s.drop_last();
        assert(s[s.len() - 1].0 > t.0);
        assert forall|k: int| j <= k < d.len() implies #[trigger] d[k].0 > t.0 by {
            assert(d[k] == s[k]);
        }
        if j > 0 {
            assert(d[j - 1] == s[j - 1]);
        }
        lemma_insert_tier_at(d, t, j);
        assert(d.take(j) == s.take(j));
        assert(d.skip(j).push(s.last()) == s.skip(j));
        assert((d.take(j).push(t) + d.skip(j)).push(s.last()) == d.take(j).push(t) + d.skip(j).push(s.last()));
    }
}

/// The tiers by strike (see [`by_strike`]).
fn sort_tiers(tiers: &Vec<(i64, i64)>) -> (r: Vec<(i64, i64)>)
    requires
        forall|k: int| 0 <= k < tiers.len() ==> #[trigger] tiers@[k].1 > 0,
    ensures
        r@ == by_strike(tiers@),
        forall|k: int| 0 <= k < r.len() ==> #[trigger] r@[k].1 > 0,
{
    let mut out: Vec<(i64, i64)> = Vec::new();
    let mut i: usize = 0;
    while i < tiers.len()
        invariant
            i <= tiers.len(),
            out@ == by_strike(tiers@.take(i as int)),
            forall|k: int| 0 <= k < tiers.len() ==> #[trigger] tiers@[k].1 > 0,
            forall|k: int| 0 <= k < out.len() ==> #[trigger] out@[k].1 > 0,
        decreases tiers.len() - i,
    {
        let t = tiers[i];
        let mut j = out.len();
        while j > 0 && out[j - 1].0 > t.0
            invariant
                j <= out.len(),
                forall|k: int| j <= k < out.len() ==> #[trigger] out@[k].0 > t.0,
            decreases j,
        {
            j -= 1;
        }
        proof {
            lemma_insert_tier_at(out@, t, j as int);
            assert(tiers@.take(i + 1).drop_last() == tiers@.take(i as int));
            assert(tiers@.take(i + 1).last() == t);
        }
        let ghost before = out@;
        out.insert(j, t);
        assert(out@ == before.take(j as int).push(t) + before.skip(j as int));
        proof {
            assert forall|k: int| 0 <= k < out.len() implies #[trigger] out@[k].1 > 0 by {
                if k < j {
                    assert(out@[k] == before[k]);
                } else if k > j {
                    assert(out@[k] == before[k - 1]);
                }
            }
        }
        i += 1;
    }
    assert(tiers@.take(tiers.len() as int) == tiers@);
    out
}

/// Allocates `shares` against short-call tiers, lowest strike first, and
/// returns the proceeds: Σ min(remaining shares, 100 × contracts) × strike.
pub(crate) fn covered_upside(shares: i64, tiers: &Vec<(i64, i64)>) -> (r: i128)
    requires
        forall|k: int| 0 <= k < tiers.len() ==> #[trigger] tiers@[k].1 > 0,
    ensures
        r == covered_upside_of(shares as int, tiers@),
{
    let sorted = sort_tiers(tiers);
    if shares <= 0 {
        return 0;
    }
    let mut remaining: i128 = shares as i128;
    let mut upside: i128 = 0;
    let mut i: usize = 0;
    assert(sorted@.skip(0) == sorted@);
    while i < sorted.len() && remaining > 0
        invariant
            i <= sorted.len(),
            0 <= remaining <= shares,
            forall|k: int| 0 <= k < sorted.len() ==> #[trigger] sorted@[k].1 > 0,
            -(shares - remaining) * 0x8000_0000_0000_0000 <= upside <= (shares - remaining) * 0x8000_0000_0000_0000,
            upside + upside_from(remaining as int, sorted@.skip(i as int)) == upside_from(shares as int, sorted@),
        decreases sorted.len() - i,
    {
        let (strike, contracts) = sorted[i];
        assert(sorted@[i as int].1 > 0);
        let cap: i128 = contracts as i128 * 100;
        let a: i128 = if remaining <= cap { remaining } else { cap };
        assert(-a * 0x8000_0000_0000_0000 <= a * (strike as i128) <= a * 0x8000_0000_0000_0000) by (nonlinear_arith)
            requires
                0 < a,
                i64::MIN <= strike <= i64::MAX;
        assert((shares - remaining) * 0x8000_0000_0000_0000 + a * 0x8000_0000_0000_0000
            == (shares - (remaining - a)) * 0x8000_0000_0000_0000) by (nonlinear_arith);
        assert(shares * 0x8000_0000_0000_0000 <= 0x8000_0000_0000_0000 * 0x8000_0000_0000_0000) by (nonlinear_arith)
            requires
                shares <= i64::MAX;
        assert((shares - (remaining - a)) * 0x8000_0000_0000_0000 <= shares * 0x8000_0000_0000_0000) by (nonlinear_arith)
            requires
                remaining - a >= 0;
        proof {
            let rest = sorted@.skip(i as int);
            assert(rest[0] == sorted@[i as int]);
            assert(rest.drop_first() == sorted@.skip(i + 1));
        }
        upside = upside + a * (strike as i128);
        remaining = remaining - a;
        i += 1;
    }
    proof {
        if i == sorted.len() {
            assert(sorted@.skip(i as int).len() == 0);
        }
    }
    upside
}

// ── Forms ────────────────────────────────────────────────────────────────────

/// The symbol a form's text names: trimmed and uppercased.
pub open spec fn form_symbol(s: Seq<char>) -> Seq<char> {
    unicode_upper(trim(s))
}

/// The first complaint about a trade form, if any.
pub open spec fn trade_form_error(
    symbol: Seq<char>,
    contracts: Seq<char>,
    price: Seq<char>,
    is_option: bool,
    strike: Seq<char>,
    expiry: Seq<char>,
) -> Option<Seq<char>> {
    if form_symbol(symbol).len() == 0 {
        Some("Symbol required"@)
    } else if count_of(contracts) is None {
        Some("Invalid contracts"@)
    } else if amount_of(price) is None {
        Some("Invalid price"@)
    } else if is_option && amount_of(strike) is None {
        Some("Invalid strike"@)
    } else if is_option && chrono_parse(trim(expiry), "%Y-%m-%d"@) is None {
        Some("Expiry must be YYYY-MM-DD"@)
    } else {
        None
    }
}

/// The label a trade gets when none is typed, as in "Buy AAPL option".
pub open spec fn default_label(d: TradeDirection, sym: Seq<char>, is_option: bool) -> Seq<char> {
    direction_label(d) + " "@ + sym + " "@ + (if is_option { "option"@ } else { "stock"@ })
}

/// What a trade records of the position it closes: the id, the basis, whether
/// it was long, and the date its holding period starts. Nothing when the id
/// names no position.
pub open spec fn closing_details(ps: Seq<Position>, closes_id: Option<u128>) -> (
    Option<u128>,
    Option<i64>,
    Option<bool>,
    Option<Date>,
) {
    match closes_id {
        Some(pid) => match position_by_id(ps, pid, 0) {
            Some(j) => (
                Some(pid),
                Some(effective_cost_basis_of(ps[j]) as i64),
                Some(effective_quantity_of(ps[j]) > 0),
                chrono_utc_date(oldest_open_of(ps[j]).secs, oldest_open_of(ps[j]).nanos),
            ),
            None => (None, None, None, None),
        },
        None => (None, None, None, None),
    }
}

/// `t` is the trade read from valid trade-form fields: the symbol trimmed
/// and uppercased, the label typed or a default one, counts and amounts read
/// from text, and the closing details taken from the position it closes.
pub open spec fn trade_read(
    t: ScenarioTrade,
    id: u128,
    label: Seq<char>,
    symbol: Seq<char>,
    direction: TradeDirection,
    contracts: Seq<char>,
    price: Seq<char>,
    is_option: bool,
    option_type: OptionType,
    strike: Seq<char>,
    expiry: Seq<char>,
    closes_id: Option<u128>,
    ps: Seq<Position>,
) -> bool {
    let sym = form_symbol(symbol);
    &&& t.id == id
    &&& t.symbol@ == sym
    &&& t.label@ == if is_blank(label) { default_label(direction, sym, is_option) } else { label }
    &&& t.direction == direction
    &&& count_of(contracts) == Some(t.contracts)
    &&& amount_of(price) == Some(t.price)
    &&& if is_option {
        &&& t.option_spec matches Some(s)
        &&& s.symbol@ == sym
        &&& s.option_type == option_type
        &&& amount_of(strike) == Some(s.strike)
        &&& chrono_parse(trim(expiry), "%Y-%m-%d"@) == Some(s.expiry)
    } else {
        t.option_spec is None
    }
    &&& (t.closes_position_id, t.closes_cost_basis, t.closes_is_long, t.closes_opened_at)
        == closing_details(ps, closes_id)
}

/// A scenario trade from the fields of the trade form, as typed: the symbol
/// trimmed and uppercased, counts and amounts read from text, and the
/// closing details taken from the position it closes. The first invalid
/// field is reported instead.
pub fn trade_from_form(
    id: u128,
    label: &String,
    symbol: &str,
    direction: TradeDirection,
    contracts: &str,
    price: &str,
    is_option: bool,
    option_type: OptionType,
    strike: &str,
    expiry: &str,
    closes_id: Option<u128>,
    positions: &[Position],
) -> (r: Result<ScenarioTrade, String>)
    requires
        evaluable_positions(positions@),
    ensures
        match r {
            Err(e) => trade_form_error(symbol@, contracts@, price@, is_option, strike@, expiry@) == Some(e@),
            Ok(t) => {
                &&& trade_form_error(symbol@, contracts@, price@, is_option, strike@, expiry@) is None
                &&& trade_read(
                    t, id, label@, symbol@, direction, contracts@, price@, is_option, option_type, strike@,
                    expiry@, closes_id, positions@,
                )
            },
        },
{
    let t = trimmed(symbol);
    let sym = to_upper(t.as_str());
    if chars_of(sym.as_str()).len() == 0 {
        return Err(String::from_str("Symbol required"));
    }
    let qty = match parse_count(contracts) {
        Some(q) => q,
        None => return Err(String::from_str("Invalid contracts")),
    };
    let px = match parse_amount(price) {
        Some(p) => p,
        None => return Err(String::from_str("Invalid price")),
    };
    let option_spec = if is_option {
        let k = match parse_amount(strike) {
            Some(k) => k,
            None => return Err(String::from_str("Invalid strike")),
        };
        let e = trimmed(expiry);
        let exp = match parse_date_with(e.as_str(), "%Y-%m-%d") {
            Some(d) => d,
            None => return Err(String::from_str("Expiry must be YYYY-MM-DD")),
        };
        Some(OptionSpec { symbol: sym.clone(), option_type, strike: k, expiry: exp })
    } else {
        None
    };
    let (closes_position_id, closes_cost_basis, closes_is_long, closes_opened_at) = match closes_id {
        Some(pid) => match find_position(positions, pid) {
            Some(j) => {
                let p = &positions[j];
                proof {
                    assert(ready(positions@[j as int]));
                    ready_values_fit(positions@[j as int]);
                }
                (
                    Some(pid),
                    Some(p.effective_cost_basis()),
                    Some(p.effective_quantity() > 0),
                    utc_date(p.oldest_open_lot_date()),
                )
            },
            None => (None, None, None, None),
        },
        None => (None, None, None, None),
    };
    let lab = if blank_str(label) {
        let mut l = String::from_str(direction.label());
        l.append(" ");
        l.append(sym.as_str());
        l.append(" ");
        l.append(if is_option { "option" } else { "stock" });
        l
    } else {
        label.clone()
    };
    Ok(ScenarioTrade {
        id,
        label: lab,
        symbol: sym,
        direction,
        contracts: qty,
        price: px,
        option_spec,
        closes_position_id,
        closes_cost_basis,
        closes_is_long,
        closes_opened_at,
    })
}

/// The first complaint about a market-input form, if any.
pub open spec fn market_form_error(symbol: Seq<char>, price: Seq<char>, vol: Seq<char>, rate: Seq<char>) -> Option<Seq<char>> {
    if form_symbol(symbol).len() == 0 {
        Some("Symbol required"@)
    } else if amount_of(price) is None {
        Some("Invalid price"@)
    } else if amount_of(vol) is None {
        Some("Invalid vol"@)
    } else if amount_of(rate) is None {
        Some("Invalid rate"@)
    } else {
        None
    }
}

/// `m` is the market input read from valid market-form fields: the symbol
/// trimmed and uppercased, volatility and rate typed as percentages and kept
/// as fractions in millionths (to the nearest, halves to even).
pub open spec fn market_read(m: ScenarioMarketInput, symbol: Seq<char>, price: Seq<char>, vol: Seq<char>, rate: Seq<char>) -> bool {
    &&& m.symbol@ == form_symbol(symbol)
    &&& amount_of(price) == Some(m.price)
    &&& m.vol == div_round(amount_of(vol)->Some_0 as int, 100)
    &&& m.rate == div_round(amount_of(rate)->Some_0 as int, 100)
}

/// A market input from the fields of its form: volatility and rate are typed
/// as percentages and kept as fractions (in millionths, to the nearest, halves
/// to even). The first invalid field is reported instead.
pub fn market_input_from_form(symbol: &str, price: &str, vol: &str, rate: &str) -> (r: Result<ScenarioMarketInput, String>)
    ensures
        match r {
            Err(e) => market_form_error(symbol@, price@, vol@, rate@) == Some(e@),
            Ok(m) => market_form_error(symbol@, price@, vol@, rate@) is None && market_read(m, symbol@, price@, vol@, rate@),
        },
{
    let t = trimmed(symbol);
    let sym = to_upper(t.as_str());
    if chars_of(sym.as_str()).len() == 0 {
        return Err(String::from_str("Symbol required"));
    }
    let px = match parse_amount(price) {
        Some(p) => p,
        None => return Err(String::from_str("Invalid price")),
    };
    let v = match parse_amount(vol) {
        Some(v) => v,
        None => return Err(String::from_str("Invalid vol")),
    };
    let rt = match parse_amount(rate) {
        Some(v) => v,
        None => return Err(String::from_str("Invalid rate")),
    };
    let vf = div_round_exec(v as i128, 100);
    let rf = div_round_exec(rt as i128, 100);
    proof {
        crate::money::lemma_div_round_hundredth(v as int);
        crate::money::lemma_div_round_hundredth(rt as int);
    }
    Ok(ScenarioMarketInput { symbol: sym, price: px, vol: vf as i64, rate: rf as i64 })
}

/// The fields of the trade form, as text where they are typed.
#[derive(Debug, Clone)]
pub struct TradeFields {
    pub id: u128,
    pub label: String,
    pub symbol: String,
    pub direction: TradeDirection,
    pub contracts: String,
    pub price: String,
    pub is_option: bool,
    pub option_type: OptionType,
    pub strike: String,
    pub expiry: String,
    pub closes_id: Option<u128>,
}

/// `f` is the trade form filled from `t`: counts and amounts printed as plain
/// numbers, the expiry as chrono prints `%Y-%m-%d` (`YYYY-MM-DD` for a
/// four-digit year); a stock trade leaves the option fields empty (a call by
/// default).
pub open spec fn shows_trade(f: TradeFields, t: ScenarioTrade) -> bool {
    &&& f.id == t.id
    &&& f.label@ == t.label@
    &&& f.symbol@ == t.symbol@
    &&& f.direction == t.direction
    &&& f.contracts@ == integer_text(t.contracts as int)
    &&& f.price@ == decimal_text(t.price as int)
    &&& f.is_option == t.option_spec is Some
    &&& f.closes_id == t.closes_position_id
    &&& match t.option_spec {
        Some(s) => {
            &&& f.option_type == s.option_type
            &&& f.strike@ == decimal_text(s.strike as int)
            &&& f.expiry@ == chrono_format(s.expiry, "%Y-%m-%d"@)
            &&& 0 <= s.expiry.year <= 9999 ==> f.expiry@ == iso_text(s.expiry)
        },
        None => f.option_type == OptionType::Call && f.strike@.len() == 0 && f.expiry@.len() == 0,
    }
}

/// The trade form filled from a saved trade.
pub fn trade_fields_of(t: &ScenarioTrade) -> (f: TradeFields)
    requires
        t.option_spec matches Some(s) ==> valid_date(s.expiry),
    ensures
        shows_trade(f, *t),
{
    let (option_type, strike, expiry) = match &t.option_spec {
        Some(s) => {
            proof {
                reveal_strlit("%Y-%m-%d");
            }
            (s.option_type, fmt_decimal(s.strike), format_date(s.expiry, "%Y-%m-%d"))
        },
        None => (OptionType::Call, String::new(), String::new()),
    };
    TradeFields {
        id: t.id,
        label: t.label.clone(),
        symbol: t.symbol.clone(),
        direction: t.direction,
        contracts: fmt_integer(t.contracts as i64),
        price: fmt_decimal(t.price),
        is_option: t.option_spec.is_some(),
        option_type,
        strike,
        expiry,
        closes_id: t.closes_position_id,
    }
}

/// The fields of the market-input form.
#[derive(Debug, Clone)]
pub struct MarketFields {
    pub symbol: String,
    pub price: String,
    pub vol: String,
    pub rate: String,
}

/// `f` is the market-input form filled from `mi`: the price to the cent,
/// volatility and rate as percentages to two decimals.
pub open spec fn shows_market(f: MarketFields, mi: ScenarioMarketInput) -> bool {
    &&& f.symbol@ == mi.symbol@
    &&& f.price@ == fixed2_text(mi.price as int)
    &&& f.vol@ == fixed2_text(mi.vol * 100)
    &&& f.rate@ == fixed2_text(mi.rate * 100)
}

/// The market-input form filled from a saved input.
pub fn market_fields_of(mi: &ScenarioMarketInput) -> (f: MarketFields)
    ensures
        shows_market(f, *mi),
{
    MarketFields {
        symbol: mi.symbol.clone(),
        price: fmt_fixed2(mi.price as i128),
        vol: fmt_fixed2(mi.vol as i128 * 100),
        rate: fmt_fixed2(mi.rate as i128 * 100),
    }
}

/// A saved trade's form reads back the same count, price and strike.
pub proof fn trade_fields_read_back(t: ScenarioTrade, f: TradeFields)
    requires
        shows_trade(f, t),
    ensures
        count_of(f.contracts@) == Some(t.contracts),
        amount_of(f.price@) == Some(t.price),
        t.option_spec matches Some(s) ==> amount_of(f.strike@) == Some(s.strike),
{
    integer_reads_back(t.contracts as int);
    decimal_reads_back(t.price as int);
    if let Some(s) = t.option_spec {
        decimal_reads_back(s.strike as int);
    }
}

/// A percentage printed to two decimals and read back names the same
/// fraction, when the fraction is a whole number of hundredths of a percent.
proof fn lemma_percent_reads_back(x: i64)
    requires
        x % 100 == 0,
        fits_i64(x * 100),
    ensures
        amount_of(fixed2_text(x * 100)) matches Some(v) && div_round(v as int, 100) == x,
{
    let y = x * 100;
    fixed2_reads_back(y);
    let ay = abs(y);
    assert(ay % 10_000 == 0 && ay / 10_000 * 10_000 == ay) by (nonlinear_arith)
        requires
            x % 100 == 0,
            y == x * 100,
            ay == if y < 0 { -y } else { y };
    assert(round_half_even(ay as nat, 10_000) == ay / 10_000);
    assert(round_half_even(ay as nat, 100) == ay / 100) by (nonlinear_arith)
        requires
            ay % 10_000 == 0,
            ay >= 0;
    assert(ay / 100 == abs(x as int)) by (nonlinear_arith)
        requires
            y == x * 100,
            ay == if y < 0 { -y } else { y };
}

/// Saved market inputs reopen and read back unchanged when the price is a
/// whole number of cents and volatility and rate whole hundredths of a
/// percent.
pub proof fn market_fields_read_back(mi: ScenarioMarketInput, f: MarketFields)
    requires
        shows_market(f, mi),
        mi.price % 10_000 == 0,
        mi.vol % 100 == 0,
        mi.rate % 100 == 0,
        fits_i64(mi.vol * 100),
        fits_i64(mi.rate * 100),
    ensures
        amount_of(f.price@) == Some(mi.price),
        amount_of(f.vol@) matches Some(v) && div_round(v as int, 100) == mi.vol,
        amount_of(f.rate@) matches Some(v) && div_round(v as int, 100) == mi.rate,
{
    let p = mi.price as int;
    fixed2_reads_back(p);
    let ap = abs(p);
    assert(ap % 10_000 == 0 && ap / 10_000 * 10_000 == ap) by (nonlinear_arith)
        requires
            p % 10_000 == 0,
            ap == if p < 0 { -p } else { p };
    assert(round_half_even(ap as nat, 10_000) == ap / 10_000);
    lemma_percent_reads_back(mi.vol);
    lemma_percent_reads_back(mi.rate);
}

// ── The scenario form ───────────────────────────────────────────────────────

/// The first complaint in `errs` from index `i` on.
pub open spec fn first_error(errs: Seq<Option<Seq<char>>>, i: int) -> Option<Seq<char>>
    decreases errs.len() - i,
{
    if i < 0 || i >= errs.len() {
        None
    } else if errs[i] is Some {
        errs[i]
    } else {
        first_error(errs, i + 1)
    }
}

proof fn lemma_first_error_skip(errs: Seq<Option<Seq<char>>>, j: int, i: int)
    requires
        0 <= j <= i <= errs.len(),
        forall|k: int| j <= k < i ==> errs[k] is None,
    ensures
        first_error(errs, j) == first_error(errs, i),
    decreases i - j,
{
    if j < i {
        lemma_first_error_skip(errs, j + 1, i);
    }
}

/// What each market entry of the form complains about, if anything.
pub open spec fn market_errors(ms: Seq<MarketFields>) -> Seq<Option<Seq<char>>> {
    Seq::new(ms.len(), |k: int| market_form_error(ms[k].symbol@, ms[k].price@, ms[k].vol@, ms[k].rate@))
}

/// What each trade entry of the form complains about, if anything.
pub open spec fn trade_errors(ts: Seq<TradeFields>) -> Seq<Option<Seq<char>>> {
    Seq::new(
        ts.len(),
        |k: int| trade_form_error(ts[k].symbol@, ts[k].contracts@, ts[k].price@, ts[k].is_option, ts[k].strike@, ts[k].expiry@),
    )
}

/// `m` is what the market entry `f` reads as.
pub open spec fn reads_market(m: ScenarioMarketInput, f: MarketFields) -> bool {
    market_read(m, f.symbol@, f.price@, f.vol@, f.rate@)
}

/// `t` is what the trade entry `f` reads as, given the portfolio `ps`.
pub open spec fn reads_trade(t: ScenarioTrade, f: TradeFields, ps: Seq<Position>) -> bool {
    trade_read(
        t, f.id, f.label@, f.symbol@, f.direction, f.contracts@, f.price@, f.is_option, f.option_type, f.strike@,
        f.expiry@, f.closes_id, ps,
    )
}

/// The first complaint about the scenario form: the name, then the
/// evaluation date, then the market entries in order, then the trade entries.
pub open spec fn scenario_form_error(
    name: Seq<char>,
    evaluation_date: Seq<char>,
    ms: Seq<MarketFields>,
    ts: Seq<TradeFields>,
) -> Option<Seq<char>> {
    if trim(name).len() == 0 {
        Some("Name required."@)
    } else if chrono_parse(trim(evaluation_date), "%Y-%m-%d"@) is None {
        Some("Evaluation date must be YYYY-MM-DD."@)
    } else {
        match first_error(market_errors(ms), 0) {
            Some(m) => Some("Market input: "@ + m),
            None => match first_error(trade_errors(ts), 0) {
                Some(t) => Some("Trade: "@ + t),
                None => None,
            },
        }
    }
}

/// The scenario the scenario form describes: a trimmed name, an ISO
/// evaluation date, and every market and trade entry read in order. Editing
/// keeps the scenario's id, creation time and archived flag; a new scenario
/// is unarchived, with a fresh id, created now. The first complaint is
/// reported instead (see [`scenario_form_error`]).
pub fn scenario_from_form(
    existing: Option<&Scenario>,
    name: &str,
    evaluation_date: &str,
    markets: &[MarketFields],
    trades: &[TradeFields],
    positions: &[Position],
) -> (r: Result<Scenario, String>)
    requires
        evaluable_positions(positions@),
    ensures
        match r {
            Err(e) => scenario_form_error(name@, evaluation_date@, markets@, trades@) == Some(e@),
            Ok(s) => {
                &&& scenario_form_error(name@, evaluation_date@, markets@, trades@) is None
                &&& s.name@ == trim(name@)
                &&& chrono_parse(trim(evaluation_date@), "%Y-%m-%d"@) == Some(s.evaluation_date)
                &&& s.market_inputs@.len() == markets@.len()
                &&& forall|k: int| 0 <= k < markets@.len() ==> reads_market(#[trigger] s.market_inputs@[k], markets@[k])
                &&& s.trades@.len() == trades@.len()
                &&& forall|k: int| 0 <= k < trades@.len() ==> reads_trade(#[trigger] s.trades@[k], trades@[k], positions@)
                &&& match existing {
                    Some(ex) => s.id == ex.id && s.created_at == ex.created_at && s.archived == ex.archived,
                    None => !s.archived,
                }
            },
        },
{
    let n = trimmed(name);
    if chars_of(n.as_str()).len() == 0 {
        return Err(String::from_str("Name required."));
    }
    let e = trimmed(evaluation_date);
    let ed = match parse_date_with(e.as_str(), "%Y-%m-%d") {
        Some(d) => d,
        None => return Err(String::from_str("Evaluation date must be YYYY-MM-DD.")),
    };
    let ghost merrs = market_errors(markets@);
    let ghost terrs = trade_errors(trades@);
    let mut market_inputs: Vec<ScenarioMarketInput> = Vec::new();
    let mut i: usize = 0;
    while i < markets.len()
        invariant
            i <= markets.len(),
            trim(name@).len() > 0,
            chrono_parse(trim(evaluation_date@), "%Y-%m-%d"@) is Some,
            merrs == market_errors(markets@),
            forall|k: int| 0 <= k < i ==> merrs[k] is None,
            market_inputs@.len() == i,
            forall|k: int| 0 <= k < i ==> reads_market(#[trigger] market_inputs@[k], markets@[k]),
        decreases markets.len() - i,
    {
        let f = &markets[i];
        match market_input_from_form(f.symbol.as_str(), f.price.as_str(), f.vol.as_str(), f.rate.as_str()) {
            Ok(m) => market_inputs.push(m),
            Err(msg) => {
                proof {
                    lemma_first_error_skip(merrs, 0, i as int);
                }
                let mut out = String::from_str("Market input: ");
                out.append(msg.as_str());
                return Err(out);
            },
        }
        i += 1;
    }
    proof {
        lemma_first_error_skip(merrs, 0, markets.len() as int);
    }
    let mut scenario_trades: Vec<ScenarioTrade> = Vec::new();
    let mut j: usize = 0;
    while j < trades.len()
        invariant
            j <= trades.len(),
            evaluable_positions(positions@),
            trim(name@).len() > 0,
            chrono_parse(trim(evaluation_date@), "%Y-%m-%d"@) is Some,
            first_error(market_errors(markets@), 0) is None,
            terrs == trade_errors(trades@),
            forall|k: int| 0 <= k < j ==> terrs[k] is None,
            scenario_trades@.len() == j,
            forall|k: int| 0 <= k < j ==> reads_trade(#[trigger] scenario_trades@[k], trades@[k], positions@),
        decreases trades.len() - j,
    {
        let f = &trades[j];
        match trade_from_form(
            f.id, &f.label, f.symbol.as_str(), f.direction, f.contracts.as_str(), f.price.as_str(), f.is_option,
            f.option_type, f.strike.as_str(), f.expiry.as_str(), f.closes_id, positions,
        ) {
            Ok(t) => scenario_trades.push(t),
            Err(msg) => {
                proof {
                    lemma_first_error_skip(terrs, 0, j as int);
                }
                let mut out = String::from_str("Trade: ");
                out.append(msg.as_str());
                return Err(out);
            },
        }
        j += 1;
    }
    proof {
        lemma_first_error_skip(terrs, 0, trades.len() as int);
    }
    match existing {
        Some(ex) => Ok(Scenario {
            id: ex.id,
            name: n,
            created_at: ex.created_at,
            evaluation_date: ed,
            market_inputs,
            trades: scenario_trades,
            archived: ex.archived,
        }),
        None => {
            let mut s = Scenario::new(n.as_str(), ed);
            s.market_inputs = market_inputs;
            s.trades = scenario_trades;
            Ok(s)
        },
    }
}

} // verus!
