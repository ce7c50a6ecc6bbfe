//! Covered-call coverage: for each stock held long, the shares, the short
//! calls written against them, and what the holding fetches if every call is
//! assigned, before and after a scenario's trades.

use vstd::prelude::*;
use crate::option::OptionType;
use crate::position::Position;
use crate::scenario::{covered_upside, covered_upside_of, CoverageSummary, ScenarioTrade, TradeDirection, SCENARIO_CAPACITY};
use crate::text::{insert_distinct, names, str_eq, strictly_sorted};

verus! {

/// Σ `f` over `s`.
pub open spec fn total<T>(s: Seq<T>, f: spec_fn(T) -> int) -> int
    decreases s.len(),
{
    if s.len() == 0 { 0 } else { total(s.drop_last(), f) + f(s.last()) }
}

proof fn lemma_total_bounded<T>(s: Seq<T>, f: spec_fn(T) -> int, b: int)
    requires
        b >= 0,
        forall|x: T| -b <= #[trigger] f(x) <= b,
    ensures
        -(s.len() * b) <= total(s, f) <= s.len() * b,
    decreases s.len(),
{
    if s.len() > 0 {
        lemma_total_bounded(s.drop_last(), f, b);
        assert(s.len() * b == (s.len() - 1) * b + b) by (nonlinear_arith);
    }
}

proof fn lemma_total_step<T>(s: Seq<T>, f: spec_fn(T) -> int, i: int)
    requires
        0 <= i < s.len(),
    ensures
        total(s.take(i + 1), f) == total(s.take(i), f) + f(s[i]),
{
    assert(s.take(i + 1).drop_last() == s.take(i));
    assert(s.take(i + 1).last() == s[i]);
}

// ── What is held and written ─────────────────────────────────────────────────

/// Stock held long (by its recorded quantity).
pub open spec fn holds_stock(p: Position) -> bool {
    p.option_spec is None && p.quantity > 0
}

/// A short call position (by its recorded quantity).
pub open spec fn is_short_call(p: Position) -> bool {
    p.quantity < 0 && (p.option_spec matches Some(s) && s.option_type == OptionType::Call)
}

/// The first position at `k` or later with id `id`.
pub open spec fn position_by_id(ps: Seq<Position>, id: u128, k: int) -> Option<int>
    decreases ps.len() - k,
{
    if k < 0 || k >= ps.len() {
        None
    } else if ps[k].id == id {
        Some(k)
    } else {
        position_by_id(ps, id, k + 1)
    }
}

/// A scenario trade that closes a call position of the portfolio.
pub open spec fn closes_call(ps: Seq<Position>, t: ScenarioTrade) -> bool {
    t.closes_position_id matches Some(pid) && (position_by_id(ps, pid, 0) matches Some(j)
        && (ps[j].option_spec matches Some(s) && s.option_type == OptionType::Call))
}

/// A scenario trade that writes a new call.
pub open spec fn opens_short_call(t: ScenarioTrade) -> bool {
    &&& t.closes_position_id is None
    &&& t.direction == TradeDirection::Sell
    &&& (t.option_spec matches Some(s) && s.option_type == OptionType::Call)
}

pub open spec fn held_weight(sym: Seq<char>) -> spec_fn(Position) -> int {
    |p: Position| if holds_stock(p) && p.symbol@ == sym { p.quantity as int } else { 0 }
}

pub open spec fn traded_weight(sym: Seq<char>) -> spec_fn(ScenarioTrade) -> int {
    |t: ScenarioTrade| if t.option_spec is None && t.symbol@ == sym {
        match t.direction {
            TradeDirection::Buy => t.contracts as int,
            TradeDirection::Sell => -t.contracts,
        }
    } else {
        0
    }
}

pub open spec fn short_call_weight(sym: Seq<char>) -> spec_fn(Position) -> int {
    |p: Position| if p.symbol@ == sym && is_short_call(p) { -p.quantity } else { 0 }
}

pub open spec fn closed_call_weight(ps: Seq<Position>, sym: Seq<char>) -> spec_fn(ScenarioTrade) -> int {
    |t: ScenarioTrade| if t.symbol@ == sym && closes_call(ps, t) { t.contracts as int } else { 0 }
}

pub open spec fn new_call_weight(sym: Seq<char>) -> spec_fn(ScenarioTrade) -> int {
    |t: ScenarioTrade| if t.symbol@ == sym && opens_short_call(t) { t.contracts as int } else { 0 }
}

/// Shares of `sym` the portfolio holds long.
pub open spec fn held_shares(ps: Seq<Position>, sym: Seq<char>) -> int {
    total(ps, held_weight(sym))
}

/// Shares of `sym` the scenario buys (positive) or sells.
pub open spec fn traded_shares(ts: Seq<ScenarioTrade>, sym: Seq<char>) -> int {
    total(ts, traded_weight(sym))
}

/// Short call contracts on `sym` in the portfolio.
pub open spec fn short_calls(ps: Seq<Position>, sym: Seq<char>) -> int {
    total(ps, short_call_weight(sym))
}

/// Call contracts on `sym` the scenario closes.
pub open spec fn calls_closed(ps: Seq<Position>, ts: Seq<ScenarioTrade>, sym: Seq<char>) -> int {
    total(ts, closed_call_weight(ps, sym))
}

/// Call contracts on `sym` the scenario writes.
pub open spec fn calls_written(ts: Seq<ScenarioTrade>, sym: Seq<char>) -> int {
    total(ts, new_call_weight(sym))
}

/// 2^31 and 2^32: bounds on one position's or one trade's share count.
const POSITION_UNIT: i64 = 0x8000_0000;
const TRADE_UNIT: i64 = 0x1_0000_0000;

fn held_shares_exec(positions: &[Position], sym: &str) -> (r: i64)
    requires
        positions.len() <= SCENARIO_CAPACITY,
    ensures
        r == held_shares(positions@, sym@),
        -SCENARIO_CAPACITY * POSITION_UNIT <= r <= SCENARIO_CAPACITY * POSITION_UNIT,
{
    let ghost f = held_weight(sym@);
    let mut acc: i64 = 0;
    let mut i: usize = 0;
    while i < positions.len()
        invariant
            i <= positions.len() <= SCENARIO_CAPACITY,
            f == held_weight(sym@),
            acc == total(positions@.take(i as int), f),
        decreases positions.len() - i,
    {
        proof {
            lemma_total_step(positions@, f, i as int);
            lemma_total_bounded(positions@.take(i + 1), f, POSITION_UNIT as int);
            assert((i + 1) * POSITION_UNIT <= SCENARIO_CAPACITY * POSITION_UNIT) by (nonlinear_arith)
                requires i + 1 <= SCENARIO_CAPACITY;
        }
        let p = &positions[i];
        if p.option_spec.is_none() && p.quantity > 0 && str_eq(p.symbol.as_str(), sym) {
            acc = acc + p.quantity as i64;
        }
        i += 1;
    }
    proof {
        assert(positions@.take(positions.len() as int) == positions@);
        lemma_total_bounded(positions@, f, POSITION_UNIT as int);
        assert(positions.len() * POSITION_UNIT <= SCENARIO_CAPACITY * POSITION_UNIT) by (nonlinear_arith)
            requires positions.len() <= SCENARIO_CAPACITY;
    }
    acc
}

fn traded_shares_exec(trades: &[ScenarioTrade], sym: &str) -> (r: i64)
    requires
        trades.len() <= SCENARIO_CAPACITY,
    ensures
        r == traded_shares(trades@, sym@),
        -SCENARIO_CAPACITY * TRADE_UNIT <= r <= SCENARIO_CAPACITY * TRADE_UNIT,
{
    let ghost f = traded_weight(sym@);
    let mut acc: i64 = 0;
    let mut i: usize = 0;
    while i < trades.len()
        invariant
            i <= trades.len() <= SCENARIO_CAPACITY,
            f == traded_weight(sym@),
            acc == total(trades@.take(i as int), f),
        decreases trades.len() - i,
    {
        proof {
            lemma_total_step(trades@, f, i as int);
            lemma_total_bounded(trades@.take(i + 1), f, TRADE_UNIT as int);
            assert((i + 1) * TRADE_UNIT <= SCENARIO_CAPACITY * TRADE_UNIT) by (nonlinear_arith)
                requires i + 1 <= SCENARIO_CAPACITY;
        }
        let t = &trades[i];
        if t.option_spec.is_none() && str_eq(t.symbol.as_str(), sym) {
            match t.direction {
                TradeDirection::Buy => acc = acc + t.contracts as i64,
                TradeDirection::Sell => acc = acc - t.contracts as i64,
            }
        }
        i += 1;
    }
    proof {
        assert(trades@.take(trades.len() as int) == trades@);
        lemma_total_bounded(trades@, f, TRADE_UNIT as int);
        assert(trades.len() * TRADE_UNIT <= SCENARIO_CAPACITY * TRADE_UNIT) by (nonlinear_arith)
            requires trades.len() <= SCENARIO_CAPACITY;
    }
    acc
}

fn short_calls_exec(positions: &[Position], sym: &str) -> (r: i64)
    requires
        positions.len() <= SCENARIO_CAPACITY,
    ensures
        r == short_calls(positions@, sym@),
        -SCENARIO_CAPACITY * POSITION_UNIT <= r <= SCENARIO_CAPACITY * POSITION_UNIT,
{
    let ghost f = short_call_weight(sym@);
    let mut acc: i64 = 0;
    let mut i: usize = 0;
    while i < positions.len()
        invariant
            i <= positions.len() <= SCENARIO_CAPACITY,
            f == short_call_weight(sym@),
            acc == total(positions@.take(i as int), f),
        decreases positions.len() - i,
    {
        proof {
            lemma_total_step(positions@, f, i as int);
            lemma_total_bounded(positions@.take(i + 1), f, POSITION_UNIT as int);
            assert((i + 1) * POSITION_UNIT <= SCENARIO_CAPACITY * POSITION_UNIT) by (nonlinear_arith)
                requires i + 1 <= SCENARIO_CAPACITY;
        }
        let p = &positions[i];
        let call = match &p.option_spec {
            Some(s) => s.option_type == OptionType::Call,
            None => false,
        };
        if p.quantity < 0 && call && str_eq(p.symbol.as_str(), sym) {
            acc = acc - p.quantity as i64;
        }
        i += 1;
    }
    proof {
        assert(positions@.take(positions.len() as int) == positions@);
        lemma_total_bounded(positions@, f, POSITION_UNIT as int);
        assert(positions.len() * POSITION_UNIT <= SCENARIO_CAPACITY * POSITION_UNIT) by (nonlinear_arith)
            requires positions.len() <= SCENARIO_CAPACITY;
    }
    acc
}

/// The first position with id `id` (see [`position_by_id`]).
pub(crate) fn find_position(positions: &[Position], id: u128) -> (r: Option<usize>)
    ensures
        r matches Some(j) ==> position_by_id(positions@, id, 0) == Some(j as int) && j < positions.len(),
        r is None <==> position_by_id(positions@, id, 0) is None,
{
    let mut k: usize = 0;
    while k < positions.len()
        invariant
            k <= positions.len(),
            position_by_id(positions@, id, 0) == position_by_id(positions@, id, k as int),
        decreases positions.len() - k,
    {
        if positions[k].id == id {
            return Some(k);
        }
        k += 1;
    }
    None
}

/// Whether `t` closes a call position (see [`closes_call`]).
fn closes_call_exec(positions: &[Position], t: &ScenarioTrade) -> (r: bool)
    ensures
        r == closes_call(positions@, *t),
{
    match t.closes_position_id {
        Some(pid) => match find_position(positions, pid) {
            Some(j) => match &positions[j].option_spec {
                Some(s) => s.option_type == OptionType::Call,
                None => false,
            },
            None => false,
        },
        None => false,
    }
}

fn calls_closed_exec(positions: &[Position], trades: &[ScenarioTrade], sym: &str) -> (r: i64)
    requires
        trades.len() <= SCENARIO_CAPACITY,
    ensures
        r == calls_closed(positions@, trades@, sym@),
        -SCENARIO_CAPACITY * TRADE_UNIT <= r <= SCENARIO_CAPACITY * TRADE_UNIT,
{
    let ghost f = closed_call_weight(positions@, sym@);
    let mut acc: i64 = 0;
    let mut i: usize = 0;
    while i < trades.len()
        invariant
            i <= trades.len() <= SCENARIO_CAPACITY,
            f == closed_call_weight(positions@, sym@),
            acc == total(trades@.take(i as int), f),
        decreases trades.len() - i,
    {
        proof {
            lemma_total_step(trades@, f, i as int);
            lemma_total_bounded(trades@.take(i + 1), f, TRADE_UNIT as int);
            assert((i + 1) * TRADE_UNIT <= SCENARIO_CAPACITY * TRADE_UNIT) by (nonlinear_arith)
                requires i + 1 <= SCENARIO_CAPACITY;
        }
        let t = &trades[i];
        if str_eq(t.symbol.as_str(), sym) && closes_call_exec(positions, t) {
            acc = acc + t.contracts as i64;
        }
        i += 1;
    }
    proof {
        assert(trades@.take(trades.len() as int) == trades@);
        lemma_total_bounded(trades@, f, TRADE_UNIT as int);
        assert(trades.len() * TRADE_UNIT <= SCENARIO_CAPACITY * TRADE_UNIT) by (nonlinear_arith)
            requires trades.len() <= SCENARIO_CAPACITY;
    }
    acc
}

/// Whether `t` writes a new call (see [`opens_short_call`]).
fn opens_short_call_exec(t: &ScenarioTrade) -> (r: bool)
    ensures
        r == opens_short_call(*t),
{
    let call = match &t.option_spec {
        Some(s) => s.option_type == OptionType::Call,
        None => false,
    };
    t.closes_position_id.is_none() && t.direction == TradeDirection::Sell && call
}

fn calls_written_exec(trades: &[ScenarioTrade], sym: &str) -> (r: i64)
    requires
        trades.len() <= SCENARIO_CAPACITY,
    ensures
        r == calls_written(trades@, sym@),
        -SCENARIO_CAPACITY * TRADE_UNIT <= r <= SCENARIO_CAPACITY * TRADE_UNIT,
{
    let ghost f = new_call_weight(sym@);
    let mut acc: i64 = 0;
    let mut i: usize = 0;
    while i < trades.len()
        invariant
            i <= trades.len() <= SCENARIO_CAPACITY,
            f == new_call_weight(sym@),
            acc == total(trades@.take(i as int), f),
        decreases trades.len() - i,
    {
        proof {
            lemma_total_step(trades@, f, i as int);
            lemma_total_bounded(trades@.take(i + 1), f, TRADE_UNIT as int);
            assert((i + 1) * TRADE_UNIT <= SCENARIO_CAPACITY * TRADE_UNIT) by (nonlinear_arith)
                requires i + 1 <= SCENARIO_CAPACITY;
        }
        let t = &trades[i];
        if str_eq(t.symbol.as_str(), sym) && opens_short_call_exec(t) {
            acc = acc + t.contracts as i64;
        }
        i += 1;
    }
    proof {
        assert(trades@.take(trades.len() as int) == trades@);
        lemma_total_bounded(trades@, f, TRADE_UNIT as int);
        assert(trades.len() * TRADE_UNIT <= SCENARIO_CAPACITY * TRADE_UNIT) by (nonlinear_arith)
            requires trades.len() <= SCENARIO_CAPACITY;
    }
    acc
}

// ── Call tiers ───────────────────────────────────────────────────────────────

/// Strikes less than a tenth of a cent apart count as one tier.
pub open spec fn near(a: i64, b: i64) -> bool {
    -1000 < a - b < 1000
}

/// The first tier at `k` or later whose strike is near `strike`.
pub open spec fn near_from(tiers: Seq<(i64, i64)>, strike: i64, k: int) -> Option<int>
    decreases tiers.len() - k,
{
    if k < 0 || k >= tiers.len() {
        None
    } else if near(tiers[k].0, strike) {
        Some(k)
    } else {
        near_from(tiers, strike, k + 1)
    }
}

/// `n` more contracts at `strike`: onto the first tier near it, else as a
/// new tier at the end.
pub open spec fn added(tiers: Seq<(i64, i64)>, strike: i64, n: int) -> Seq<(i64, i64)> {
    match near_from(tiers, strike, 0) {
        Some(j) => tiers.update(j, (tiers[j].0, (tiers[j].1 + n) as i64)),
        None => tiers.push((strike, n as i64)),
    }
}

/// `n` fewer contracts on the first tier near `strike`, if there is one.
pub open spec fn taken(tiers: Seq<(i64, i64)>, strike: i64, n: int) -> Seq<(i64, i64)> {
    match near_from(tiers, strike, 0) {
        Some(j) => tiers.update(j, (tiers[j].0, (tiers[j].1 - n) as i64)),
        None => tiers,
    }
}

/// The portfolio's short calls on `sym` as `(strike, contracts)` tiers, in
/// the order their strikes first appear.
pub open spec fn tiers_before(ps: Seq<Position>, sym: Seq<char>) -> Seq<(i64, i64)>
    decreases ps.len(),
{
    if ps.len() == 0 {
        Seq::empty()
    } else {
        let t = tiers_before(ps.drop_last(), sym);
        let p = ps.last();
        if p.symbol@ == sym && is_short_call(p) {
            added(t, p.option_spec->Some_0.strike, -p.quantity)
        } else {
            t
        }
    }
}

/// `base` less the short calls on `sym` the trades close.
pub open spec fn closings_applied(
    ps: Seq<Position>,
    ts: Seq<ScenarioTrade>,
    sym: Seq<char>,
    base: Seq<(i64, i64)>,
) -> Seq<(i64, i64)>
    decreases ts.len(),
{
    if ts.len() == 0 {
        base
    } else {
        let t = closings_applied(ps, ts.drop_last(), sym, base);
        let tr = ts.last();
        match tr.closes_position_id {
            Some(pid) => match position_by_id(ps, pid, 0) {
                Some(j) => if tr.symbol@ == sym && is_short_call(ps[j]) {
                    taken(t, ps[j].option_spec->Some_0.strike, tr.contracts as int)
                } else {
                    t
                },
                None => t,
            },
            None => t,
        }
    }
}

/// `base` plus the calls on `sym` the trades write.
pub open spec fn openings_applied(ts: Seq<ScenarioTrade>, sym: Seq<char>, base: Seq<(i64, i64)>) -> Seq<(i64, i64)>
    decreases ts.len(),
{
    if ts.len() == 0 {
        base
    } else {
        let t = openings_applied(ts.drop_last(), sym, base);
        let tr = ts.last();
        if tr.symbol@ == sym && opens_short_call(tr) {
            added(t, tr.option_spec->Some_0.strike, tr.contracts as int)
        } else {
            t
        }
    }
}

/// The short-call tiers on `sym` once the scenario's trades are done; tiers
/// left with no contracts are dropped.
pub open spec fn tiers_after(ps: Seq<Position>, ts: Seq<ScenarioTrade>, sym: Seq<char>) -> Seq<(i64, i64)> {
    openings_applied(ts, sym, closings_applied(ps, ts, sym, tiers_before(ps, sym))).filter(holds_contracts())
}

/// A tier that holds contracts.
pub open spec fn holds_contracts() -> spec_fn((i64, i64)) -> bool {
    |t: (i64, i64)| t.1 > 0
}

/// Every tier's count lies within `[-b, b]`.
pub open spec fn bounded(tiers: Seq<(i64, i64)>, b: int) -> bool {
    forall|k: int| 0 <= k < tiers.len() ==> -b <= #[trigger] tiers[k].1 <= b
}

/// Every tier holds contracts.
pub open spec fn positive(tiers: Seq<(i64, i64)>) -> bool {
    forall|k: int| 0 <= k < tiers.len() ==> #[trigger] tiers[k].1 > 0
}

/// The first tier near `strike` (see [`near_from`]).
fn near_tier(tiers: &Vec<(i64, i64)>, strike: i64) -> (r: Option<usize>)
    ensures
        r matches Some(j) ==> near_from(tiers@, strike, 0) == Some(j as int) && j < tiers.len(),
        r is None <==> near_from(tiers@, strike, 0) is None,
{
    let mut k: usize = 0;
    while k < tiers.len()
        invariant
            k <= tiers.len(),
            near_from(tiers@, strike, 0) == near_from(tiers@, strike, k as int),
        decreases tiers.len() - k,
    {
        let d = tiers[k].0 as i128 - strike as i128;
        if -1000 < d && d < 1000 {
            return Some(k);
        }
        k += 1;
    }
    None
}

/// Adds `n` contracts at `strike` (see [`added`]).
fn add_contracts(tiers: &mut Vec<(i64, i64)>, strike: i64, n: i64, Ghost(b): Ghost<int>)
    requires
        0 <= b,
        b + TRADE_UNIT <= i64::MAX,
        0 <= n <= TRADE_UNIT,
        bounded(old(tiers)@, b),
    ensures
        final(tiers)@ == added(old(tiers)@, strike, n as int),
        bounded(final(tiers)@, b + TRADE_UNIT),
        positive(old(tiers)@) && n > 0 ==> positive(final(tiers)@),
{
    match near_tier(tiers, strike) {
        Some(j) => {
            let (k, c) = tiers[j];
            assert(-b <= c <= b);
            tiers.set(j, (k, c + n));
        },
        None => {
            tiers.push((strike, n));
        },
    }
}

/// Takes `n` contracts off the tier near `strike` (see [`taken`]).
fn take_contracts(tiers: &mut Vec<(i64, i64)>, strike: i64, n: i64, Ghost(b): Ghost<int>)
    requires
        0 <= b,
        b + TRADE_UNIT <= i64::MAX,
        0 <= n <= TRADE_UNIT,
        bounded(old(tiers)@, b),
    ensures
        final(tiers)@ == taken(old(tiers)@, strike, n as int),
        bounded(final(tiers)@, b + TRADE_UNIT),
{
    match near_tier(tiers, strike) {
        Some(j) => {
            let (k, c) = tiers[j];
            assert(-b <= c <= b);
            tiers.set(j, (k, c - n));
        },
        None => {},
    }
}

fn tiers_before_exec(positions: &[Position], sym: &str) -> (r: Vec<(i64, i64)>)
    requires
        positions.len() <= SCENARIO_CAPACITY,
    ensures
        r@ == tiers_before(positions@, sym@),
        bounded(r@, positions.len() * TRADE_UNIT),
        positive(r@),
{
    let mut tiers: Vec<(i64, i64)> = Vec::new();
    let mut i: usize = 0;
    while i < positions.len()
        invariant
            i <= positions.len() <= SCENARIO_CAPACITY,
            tiers@ == tiers_before(positions@.take(i as int), sym@),
            bounded(tiers@, i * TRADE_UNIT),
            positive(tiers@),
        decreases positions.len() - i,
    {
        proof {
            assert(positions@.take(i + 1).drop_last() == positions@.take(i as int));
            assert(positions@.take(i + 1).last() == positions@[i as int]);
            assert((i + 1) * TRADE_UNIT <= SCENARIO_CAPACITY * TRADE_UNIT) by (nonlinear_arith)
                requires i + 1 <= SCENARIO_CAPACITY;
            assert(i * TRADE_UNIT + TRADE_UNIT == (i + 1) * TRADE_UNIT) by (nonlinear_arith);
        }
        let p = &positions[i];
        if p.quantity < 0 && str_eq(p.symbol.as_str(), sym) {
            match &p.option_spec {
                Some(s) => {
                    if s.option_type == OptionType::Call {
                        add_contracts(&mut tiers, s.strike, -(p.quantity as i64), Ghost(i * TRADE_UNIT));
                    }
                },
                None => {},
            }
        }
        proof {
            assert forall|k: int| 0 <= k < tiers@.len() implies -((i + 1) * TRADE_UNIT) <= #[trigger] tiers@[k].1 <= (i + 1) * TRADE_UNIT by {
            }
        }
        i += 1;
    }
    proof {
        assert(positions@.take(positions.len() as int) == positions@);
    }
    tiers
}

fn closings_applied_exec(
    positions: &[Position],
    trades: &[ScenarioTrade],
    sym: &str,
    base: Vec<(i64, i64)>,
    Ghost(b): Ghost<int>,
) -> (r: Vec<(i64, i64)>)
    requires
        trades.len() <= SCENARIO_CAPACITY,
        0 <= b <= SCENARIO_CAPACITY * TRADE_UNIT,
        bounded(base@, b),
    ensures
        r@ == closings_applied(positions@, trades@, sym@, base@),
        bounded(r@, b + trades.len() * TRADE_UNIT),
{
    let mut tiers = base;
    let ghost start = tiers@;
    let mut i: usize = 0;
    while i < trades.len()
        invariant
            i <= trades.len() <= SCENARIO_CAPACITY,
            0 <= b <= SCENARIO_CAPACITY * TRADE_UNIT,
            tiers@ == closings_applied(positions@, trades@.take(i as int), sym@, start),
            bounded(tiers@, b + i * TRADE_UNIT),
        decreases trades.len() - i,
    {
        proof {
            assert(trades@.take(i + 1).drop_last() == trades@.take(i as int));
            assert(trades@.take(i + 1).last() == trades@[i as int]);
            assert((i + 1) * TRADE_UNIT <= SCENARIO_CAPACITY * TRADE_UNIT) by (nonlinear_arith)
                requires i + 1 <= SCENARIO_CAPACITY;
            assert(i * TRADE_UNIT + TRADE_UNIT == (i + 1) * TRADE_UNIT) by (nonlinear_arith);
        }
        let t = &trades[i];
        match t.closes_position_id {
            Some(pid) => match find_position(positions, pid) {
                Some(j) => {
                    let p = &positions[j];
                    if p.quantity < 0 && str_eq(t.symbol.as_str(), sym) {
                        match &p.option_spec {
                            Some(s) => {
                                if s.option_type == OptionType::Call {
                                    take_contracts(&mut tiers, s.strike, t.contracts as i64, Ghost(b + i * TRADE_UNIT));
                                }
                            },
                            None => {},
                        }
                    }
                },
                None => {},
            },
            None => {},
        }
        proof {
            assert forall|k: int| 0 <= k < tiers@.len() implies
                -(b + (i + 1) * TRADE_UNIT) <= #[trigger] tiers@[k].1 <= b + (i + 1) * TRADE_UNIT by {
            }
        }
        i += 1;
    }
    proof {
        assert(trades@.take(trades.len() as int) == trades@);
    }
    tiers
}

fn openings_applied_exec(trades: &[ScenarioTrade], sym: &str, base: Vec<(i64, i64)>, Ghost(b): Ghost<int>) -> (r: Vec<(i64, i64)>)
    requires
        trades.len() <= SCENARIO_CAPACITY,
        0 <= b <= 2 * SCENARIO_CAPACITY * TRADE_UNIT,
        bounded(base@, b),
    ensures
        r@ == openings_applied(trades@, sym@, base@),
        bounded(r@, b + trades.len() * TRADE_UNIT),
{
    let mut tiers = base;
    let ghost start = tiers@;
    let mut i: usize = 0;
    while i < trades.len()
        invariant
            i <= trades.len() <= SCENARIO_CAPACITY,
            0 <= b <= 2 * SCENARIO_CAPACITY * TRADE_UNIT,
            tiers@ == openings_applied(trades@.take(i as int), sym@, start),
            bounded(tiers@, b + i * TRADE_UNIT),
        decreases trades.len() - i,
    {
        proof {
            assert(trades@.take(i + 1).drop_last() == trades@.take(i as int));
            assert(trades@.take(i + 1).last() == trades@[i as int]);
            assert((i + 1) * TRADE_UNIT <= SCENARIO_CAPACITY * TRADE_UNIT) by (nonlinear_arith)
                requires i + 1 <= SCENARIO_CAPACITY;
            assert(i * TRADE_UNIT + TRADE_UNIT == (i + 1) * TRADE_UNIT) by (nonlinear_arith);
        }
        let t = &trades[i];
        if str_eq(t.symbol.as_str(), sym) && opens_short_call_exec(t) {
            match &t.option_spec {
                Some(s) => add_contracts(&mut tiers, s.strike, t.contracts as i64, Ghost(b + i * TRADE_UNIT)),
                None => {},
            }
        }
        proof {
            assert forall|k: int| 0 <= k < tiers@.len() implies
                -(b + (i + 1) * TRADE_UNIT) <= #[trigger] tiers@[k].1 <= b + (i + 1) * TRADE_UNIT by {
            }
        }
        i += 1;
    }
    proof {
        assert(trades@.take(trades.len() as int) == trades@);
    }
    tiers
}

/// The tiers that still hold contracts.
fn keep_held(tiers: &Vec<(i64, i64)>) -> (r: Vec<(i64, i64)>)
    ensures
        r@ == tiers@.filter(holds_contracts()),
        positive(r@),
{
    let ghost keep = holds_contracts();
    proof {
        reveal(Seq::filter);
    }
    let mut out: Vec<(i64, i64)> = Vec::new();
    let mut i: usize = 0;
    while i < tiers.len()
        invariant
            i <= tiers.len(),
            keep == holds_contracts(),
            out@ == tiers@.take(i as int).filter(keep),
            positive(out@),
        decreases tiers.len() - i,
    {
        proof {
            assert(tiers@.take(i + 1).drop_last() == tiers@.take(i as int));
            assert(tiers@.take(i + 1).last() == tiers@[i as int]);
        }
        let ghost pre = tiers@.take(i as int);
        let ghost post = tiers@.take(i + 1);
        assert(post.filter(keep) == if keep(post.last()) { pre.filter(keep).push(post.last()) } else { pre.filter(keep) }) by {
            reveal(Seq::filter);
        }
        assert(keep(tiers@[i as int]) == (tiers@[i as int].1 > 0));
        if tiers[i].1 > 0 {
            out.push(tiers[i]);
        }
        i += 1;
    }
    proof {
        assert(tiers@.take(tiers.len() as int) == tiers@);
    }
    out
}

// ── Symbols ──────────────────────────────────────────────────────────────────

/// The symbols of the stock held long in `ps`.
pub open spec fn stock_set(ps: Seq<Position>) -> Set<Seq<char>>
    decreases ps.len(),
{
    if ps.len() == 0 {
        Set::empty()
    } else if holds_stock(ps.last()) {
        stock_set(ps.drop_last()).insert(ps.last().symbol@)
    } else {
        stock_set(ps.drop_last())
    }
}

/// `syms` names each stock the portfolio holds long, once, in text order.
pub open spec fn lists_stock_symbols(ps: Seq<Position>, syms: Seq<Seq<char>>) -> bool {
    strictly_sorted(syms) && syms.to_set() == stock_set(ps)
}

/// The symbols of the stock held long, sorted, each once.
fn stock_symbols(positions: &[Position]) -> (r: Vec<String>)
    ensures
        lists_stock_symbols(positions@, names(r@)),
{
    let mut out: Vec<String> = Vec::new();
    let mut i: usize = 0;
    proof {
        assert(names(out@).to_set() =~= Set::<Seq<char>>::empty());
    }
    while i < positions.len()
        invariant
            i <= positions.len(),
            strictly_sorted(names(out@)),
            names(out@).to_set() == stock_set(positions@.take(i as int)),
        decreases positions.len() - i,
    {
        proof {
            assert(positions@.take(i + 1).drop_last() == positions@.take(i as int));
            assert(positions@.take(i + 1).last() == positions@[i as int]);
        }
        let p = &positions[i];
        if p.option_spec.is_none() && p.quantity > 0 {
            insert_distinct(&mut out, &p.symbol);
        }
        i += 1;
    }
    proof {
        assert(positions@.take(positions.len() as int) == positions@);
    }
    out
}

// ── Coverage ─────────────────────────────────────────────────────────────────

/// `c` reports how the holding of `sym` stands against its short calls, in
/// the portfolio and once the trades are done.
pub open spec fn reports_coverage(ps: Seq<Position>, ts: Seq<ScenarioTrade>, sym: Seq<char>, c: CoverageSummary) -> bool {
    let net = held_shares(ps, sym) + traded_shares(ts, sym);
    &&& c.symbol@ == sym
    &&& c.net_shares == net
    &&& c.net_short_call_contracts == short_calls(ps, sym) - calls_closed(ps, ts, sym) + calls_written(ts, sym)
    &&& c.upside_before == covered_upside_of(held_shares(ps, sym), tiers_before(ps, sym))
    &&& c.upside_after == covered_upside_of(net, tiers_after(ps, ts, sym))
}

fn coverage_for(positions: &[Position], trades: &[ScenarioTrade], sym: &String) -> (r: CoverageSummary)
    requires
        positions.len() <= SCENARIO_CAPACITY,
        trades.len() <= SCENARIO_CAPACITY,
    ensures
        reports_coverage(positions@, trades@, sym@, r),
{
    let s = sym.as_str();
    let held = held_shares_exec(positions, s);
    let traded = traded_shares_exec(trades, s);
    let net = held + traded;
    let written = short_calls_exec(positions, s);
    let closed = calls_closed_exec(positions, trades, s);
    let opened = calls_written_exec(trades, s);
    let before = tiers_before_exec(positions, s);
    proof {
        assert(positions.len() * TRADE_UNIT <= SCENARIO_CAPACITY * TRADE_UNIT) by (nonlinear_arith)
            requires positions.len() <= SCENARIO_CAPACITY;
        assert(trades.len() * TRADE_UNIT <= SCENARIO_CAPACITY * TRADE_UNIT) by (nonlinear_arith)
            requires trades.len() <= SCENARIO_CAPACITY;
    }
    let upside_before = covered_upside(held, &before);
    let after_closing = closings_applied_exec(positions, trades, s, before, Ghost(positions.len() * TRADE_UNIT));
    let after_opening = openings_applied_exec(
        trades,
        s,
        after_closing,
        Ghost(positions.len() * TRADE_UNIT + trades.len() * TRADE_UNIT),
    );
    let after = keep_held(&after_opening);
    let upside_after = covered_upside(net, &after);
    CoverageSummary {
        symbol: sym.clone(),
        net_shares: net,
        net_short_call_contracts: written - closed + opened,
        upside_before,
        upside_after,
    }
}

/// For each stock the portfolio holds long, in symbol order: the shares
/// once the trades are done, the net short calls written on it, and what the
/// holding fetches if every short call is assigned, lowest strike first,
/// before and after the trades.
pub fn coverage(positions: &[Position], trades: &[ScenarioTrade]) -> (r: Vec<CoverageSummary>)
    requires
        positions.len() <= SCENARIO_CAPACITY,
        trades.len() <= SCENARIO_CAPACITY,
    ensures
        lists_stock_symbols(positions@, r@.map_values(|c: CoverageSummary| c.symbol@)),
        forall|k: int| 0 <= k < r.len() ==> reports_coverage(positions@, trades@, (#[trigger] r@[k]).symbol@, r@[k]),
{
    let syms = stock_symbols(positions);
    let mut out: Vec<CoverageSummary> = Vec::new();
    let mut i: usize = 0;
    while i < syms.len()
        invariant
            i <= syms.len(),
            positions.len() <= SCENARIO_CAPACITY,
            trades.len() <= SCENARIO_CAPACITY,
            out.len() == i,
            forall|k: int| 0 <= k < i ==> (#[trigger] out@[k]).symbol@ == syms@[k]@,
            forall|k: int| 0 <= k < i ==> reports_coverage(positions@, trades@, (#[trigger] out@[k]).symbol@, out@[k]),
        decreases syms.len() - i,
    {
        let c = coverage_for(positions, trades, &syms[i]);
        out.push(c);
        proof {
            assert forall|k: int| 0 <= k < i + 1 implies (#[trigger] out@[k]).symbol@ == syms@[k]@ by {
                if k < i {
                    assert(out@[k] == out@.drop_last()[k]);
                }
            }
            assert forall|k: int| 0 <= k < i + 1 implies reports_coverage(positions@, trades@, (#[trigger] out@[k]).symbol@, out@[k]) by {
                if k < i {
                    assert(out@[k] == out@.drop_last()[k]);
                }
            }
        }
        i += 1;
    }
    proof {
        assert(out@.map_values(|c: CoverageSummary| c.symbol@) =~= names(syms@));
    }
    out
}

/// Net shares after the scenario move with each stock trade by its size: one
/// more trade that buys `k` shares of the holding's symbol raises them by
/// `k`, one that sells `k` lowers them by `k`, and an option trade or a trade
/// in another symbol leaves them as they were. Without trades they are the
/// shares held.
pub proof fn stock_trades_move_net_shares(
    ps: Seq<Position>,
    ts: Seq<ScenarioTrade>,
    t: ScenarioTrade,
    sym: Seq<char>,
    before: CoverageSummary,
    after: CoverageSummary,
)
    requires
        reports_coverage(ps, ts, sym, before),
        reports_coverage(ps, ts.push(t), sym, after),
    ensures
        ts.len() == 0 ==> before.net_shares == held_shares(ps, sym),
        t.option_spec is None && t.symbol@ == sym && t.direction == TradeDirection::Buy
            ==> after.net_shares == before.net_shares + t.contracts,
        t.option_spec is None && t.symbol@ == sym && t.direction == TradeDirection::Sell
            ==> after.net_shares == before.net_shares - t.contracts,
        t.option_spec is Some || t.symbol@ != sym ==> after.net_shares == before.net_shares,
{
    assert(ts.push(t).drop_last() =~= ts);
    assert(traded_shares(ts.push(t), sym) == traded_shares(ts, sym) + traded_weight(sym)(t));
}

} // verus!
