use options_desk::calendar::{parse_date, Date, Timestamp};
use options_desk::evaluation::{evaluate, is_evaluable};
use options_desk::lots::Trade;
use options_desk::position::PositionEntryMode;
use options_desk::option::{OptionSpec, OptionType};
use options_desk::position::Position;
use options_desk::scenario::{
    market_fields_of, market_input_from_form, scenario_from_form, trade_fields_of, trade_from_form, Scenario, ScenarioMarketInput,
    ScenarioTrade, TradeDirection, MarketFields, TradeFields,
};

fn d(s: &str) -> Date {
    parse_date(s).unwrap()
}

fn usd(v: f64) -> i64 {
    (v * 1_000_000.0).round() as i64
}

fn stock_trade(direction: TradeDirection, contracts: u32, price: f64) -> ScenarioTrade {
    ScenarioTrade {
        id: 1,
        label: "t".to_string(),
        symbol: "AAPL".to_string(),
        direction,
        contracts,
        price: usd(price),
        option_spec: None,
        closes_position_id: None,
        closes_cost_basis: None,
        closes_is_long: None,
        closes_opened_at: None,
    }
}

fn call_spec(strike: f64, expiry: &str) -> OptionSpec {
    OptionSpec { symbol: "AAPL".into(), option_type: OptionType::Call, strike: usd(strike), expiry: d(expiry) }
}

#[test]
fn trade_directions() {
    assert_eq!(TradeDirection::Buy.label(), "Buy");
    assert_eq!(TradeDirection::Sell.label(), "Sell");
    assert_eq!(TradeDirection::Buy.sign(), 1);
    assert_eq!(TradeDirection::Sell.sign(), -1);
}

#[test]
fn buying_pays_and_selling_receives() {
    let buy = stock_trade(TradeDirection::Buy, 10, 25.5);
    assert_eq!(buy.multiplier(), 1);
    assert_eq!(buy.cash_flow(), -(usd(255.0) as i128));
    let mut sell = stock_trade(TradeDirection::Sell, 2, 3.0);
    sell.option_spec = Some(call_spec(150.0, "2026-01-16"));
    assert_eq!(sell.multiplier(), 100);
    assert_eq!(sell.cash_flow(), usd(600.0) as i128);
}

#[test]
fn opening_trades_realise_nothing() {
    let t = stock_trade(TradeDirection::Buy, 10, 25.0);
    assert_eq!(t.realized_gain(), None);
    assert!(!t.is_long_term(d("2026-01-01")));
}

#[test]
fn closing_trades_realise_their_gain() {
    let mut long = stock_trade(TradeDirection::Sell, 10, 30.0);
    long.closes_cost_basis = Some(usd(25.0));
    long.closes_is_long = Some(true);
    long.closes_opened_at = Some(d("2024-01-01"));
    assert_eq!(long.realized_gain(), Some(usd(50.0) as i128));
    assert!(long.is_long_term(d("2025-01-02")));
    assert!(!long.is_long_term(d("2024-12-31")));

    let mut short = stock_trade(TradeDirection::Buy, 1, 3.0);
    short.option_spec = Some(call_spec(150.0, "2026-01-16"));
    short.closes_cost_basis = Some(usd(5.0));
    short.closes_is_long = Some(false);
    short.closes_opened_at = Some(d("2020-01-01"));
    assert_eq!(short.realized_gain(), Some(usd(200.0) as i128));
    // Options are short-term whatever the holding period.
    assert!(!short.is_long_term(d("2025-01-01")));
}

#[test]
fn scenario_prices_come_from_the_first_quote() {
    let mut s = Scenario::new("Test", d("2025-01-20"));
    assert_eq!(s.name, "Test");
    assert!(s.trades.is_empty() && !s.archived);
    s.market_inputs.push(ScenarioMarketInput { symbol: "AAPL".into(), price: usd(160.0), vol: 250_000, rate: 40_000 });
    s.market_inputs.push(ScenarioMarketInput { symbol: "AAPL".into(), price: usd(1.0), vol: 0, rate: 0 });
    assert_eq!(s.price_for("AAPL"), Some(usd(160.0)));
    assert_eq!(s.price_for("MSFT"), None);
}

fn covered_call_book() -> (Scenario, Vec<Position>) {
    let mut stock = Position::new_stock("AAPL", 200, usd(100.0));
    stock.id = 7;
    stock.opened_at = Timestamp { secs: 1_672_531_200, nanos: 0 }; // 2023-01-01
    let mut call = Position::new_option("AAPL", -2, usd(5.0), call_spec(150.0, "2025-01-17"));
    call.id = 8;
    call.opened_at = Timestamp { secs: 1_725_148_800, nanos: 0 }; // 2024-09-01
    let mut s = Scenario::new("Called away", d("2025-01-20"));
    s.market_inputs.push(ScenarioMarketInput { symbol: "AAPL".into(), price: usd(160.0), vol: 250_000, rate: 40_000 });
    (s, vec![stock, call])
}

#[test]
fn short_call_in_the_money_at_expiry_is_assigned() {
    let (s, positions) = covered_call_book();
    let r = evaluate(&s, &positions);
    assert!(r.trade_results.is_empty());
    assert_eq!(r.assignments.len(), 1);
    let a = &r.assignments[0];
    assert_eq!(a.description, "Assignment: AAPL short Call $150 17-Jan-25 ×2");
    assert_eq!(a.contracts, 2);
    assert_eq!(a.strike, usd(150.0));
    // Covered: the premium lowers the stock's basis to 95, sold at 150.
    assert_eq!(a.option_pnl, usd(11_000.0) as i128);
    assert!(a.is_long_term);
    assert_eq!(a.stock_cash_flow, usd(30_000.0) as i128);
    assert_eq!(r.net_cash, usd(30_000.0) as i128);
    assert_eq!(r.total_lt_gain, usd(11_000.0) as i128);
    assert_eq!(r.total_st_gain, 0);
    assert_eq!(r.total_realized(), usd(11_000.0) as i128);
}

#[test]
fn out_of_the_money_or_unexpired_calls_are_not_assigned() {
    let (mut s, positions) = covered_call_book();
    s.market_inputs[0].price = usd(140.0);
    assert!(evaluate(&s, &positions).assignments.is_empty());
    let (mut s, positions) = covered_call_book();
    s.evaluation_date = d("2025-01-10");
    assert!(evaluate(&s, &positions).assignments.is_empty());
}

#[test]
fn naked_put_assignment_realises_premium_less_intrinsic() {
    let spec = OptionSpec { symbol: "XYZ".into(), option_type: OptionType::Put, strike: usd(50.0), expiry: d("2025-03-21") };
    let mut put = Position::new_option("XYZ", -1, usd(2.0), spec);
    put.opened_at = Timestamp { secs: 1_735_689_600, nanos: 0 }; // 2025-01-01
    let mut s = Scenario::new("Put", d("2025-03-21"));
    s.market_inputs.push(ScenarioMarketInput { symbol: "XYZ".into(), price: usd(45.0), vol: 0, rate: 0 });
    let r = evaluate(&s, &[put]);
    assert_eq!(r.assignments.len(), 1);
    let a = &r.assignments[0];
    assert_eq!(a.stock_cash_flow, -(usd(5_000.0) as i128));
    assert_eq!(a.option_pnl, usd(-300.0) as i128);
    assert!(!a.is_long_term);
    assert_eq!(r.total_st_gain, usd(-300.0) as i128);
}

#[test]
fn trades_and_coverage_are_evaluated_together() {
    let (mut s, positions) = covered_call_book();
    let mut sell = stock_trade(TradeDirection::Sell, 100, 160.0);
    sell.closes_position_id = Some(7);
    sell.closes_cost_basis = Some(usd(100.0));
    sell.closes_is_long = Some(true);
    sell.closes_opened_at = Some(d("2023-01-01"));
    s.trades.push(sell);
    let r = evaluate(&s, &positions);
    assert_eq!(r.trade_results.len(), 1);
    assert_eq!(r.trade_results[0].cash_flow, usd(16_000.0) as i128);
    assert_eq!(r.trade_results[0].realized_gain, Some(usd(6_000.0) as i128));
    assert!(r.trade_results[0].is_long_term);
    assert_eq!(r.net_cash, usd(46_000.0) as i128);
    assert_eq!(r.total_lt_gain, usd(17_000.0) as i128);
    assert_eq!(r.coverage.len(), 1);
    let c = &r.coverage[0];
    assert_eq!(c.symbol, "AAPL");
    assert_eq!(c.net_shares, 100);
    assert_eq!(c.net_short_call_contracts, 2);
    assert_eq!(c.upside_before, usd(30_000.0) as i128);
    assert_eq!(c.upside_after, usd(15_000.0) as i128);
}

#[test]
fn coverage_tiers_fill_lowest_strike_first() {
    let mut stock = Position::new_stock("AAPL", 150, usd(100.0));
    stock.id = 1;
    let mut hi = Position::new_option("AAPL", -1, usd(1.0), call_spec(200.0, "2026-01-16"));
    hi.id = 2;
    let mut lo = Position::new_option("AAPL", -1, usd(3.0), call_spec(150.0, "2026-01-16"));
    lo.id = 3;
    let other = Position::new_stock("MSFT", 10, usd(300.0));
    let mut s = Scenario::new("Coverage", d("2025-01-20"));
    // Write one more call at 150 and close the 200 call.
    let mut write = stock_trade(TradeDirection::Sell, 1, 2.0);
    write.option_spec = Some(call_spec(150.0, "2026-01-16"));
    s.trades.push(write);
    let mut close = stock_trade(TradeDirection::Buy, 1, 0.5);
    close.option_spec = Some(call_spec(200.0, "2026-01-16"));
    close.closes_position_id = Some(2);
    s.trades.push(close);
    let r = evaluate(&s, &[stock, hi, lo, other]);
    assert_eq!(r.coverage.len(), 2);
    assert_eq!(r.coverage[0].symbol, "AAPL");
    assert_eq!(r.coverage[1].symbol, "MSFT");
    let c = &r.coverage[0];
    assert_eq!(c.net_short_call_contracts, 2);
    // Before: 100 shares at 150, the last 50 at 200.
    assert_eq!(c.upside_before, usd(25_000.0) as i128);
    // After: two contracts at 150 take all 150 shares.
    assert_eq!(c.upside_after, usd(22_500.0) as i128);
    assert_eq!(r.coverage[1].upside_before, 0);
}

#[test]
fn trade_form_reads_its_fields() {
    let mut p = Position::new_stock("AAPL", 100, usd(90.0));
    p.id = 42;
    p.opened_at = Timestamp { secs: 1_672_531_200 + 3_600, nanos: 0 };
    let t = trade_from_form(
        9, &"".to_string(), " aapl ", TradeDirection::Sell, " 100 ", "160", false, OptionType::Call, "", "", Some(42), &[p],
    )
    .unwrap();
    assert_eq!(t.id, 9);
    assert_eq!(t.symbol, "AAPL");
    assert_eq!(t.label, "Sell AAPL stock");
    assert_eq!(t.contracts, 100);
    assert_eq!(t.price, usd(160.0));
    assert!(t.option_spec.is_none());
    assert_eq!(t.closes_position_id, Some(42));
    assert_eq!(t.closes_cost_basis, Some(usd(90.0)));
    assert_eq!(t.closes_is_long, Some(true));
    assert_eq!(t.closes_opened_at, Some(d("2023-01-01")));

    let o = trade_from_form(
        1, &"Roll".to_string(), "msft", TradeDirection::Buy, "2", "3.5", true, OptionType::Put, "400", " 2026-01-16 ", None, &[],
    )
    .unwrap();
    assert_eq!(o.label, "Roll");
    let spec = o.option_spec.unwrap();
    assert_eq!(spec.symbol, "MSFT");
    assert_eq!(spec.option_type, OptionType::Put);
    assert_eq!(spec.strike, usd(400.0));
    assert_eq!(spec.expiry, d("2026-01-16"));
    assert_eq!(o.closes_position_id, None);
}

#[test]
fn trade_form_reports_the_first_bad_field() {
    let blank = "".to_string();
    let f = |sym: &str, n: &str, px: &str, opt: bool, k: &str, e: &str| {
        trade_from_form(1, &blank, sym, TradeDirection::Buy, n, px, opt, OptionType::Call, k, e, None, &[]).unwrap_err()
    };
    assert_eq!(f("  ", "1", "1", false, "", ""), "Symbol required");
    assert_eq!(f("A", "x", "1", false, "", ""), "Invalid contracts");
    assert_eq!(f("A", "1", "", false, "", ""), "Invalid price");
    assert_eq!(f("A", "1", "1", true, "?", "2026-01-16"), "Invalid strike");
    assert_eq!(f("A", "1", "1", true, "5", "16/01/2026"), "Expiry must be YYYY-MM-DD");
}

#[test]
fn market_form_keeps_percentages_as_fractions() {
    let m = market_input_from_form(" spy ", "512.25", "25", "3.75").unwrap();
    assert_eq!(m.symbol, "SPY");
    assert_eq!(m.price, usd(512.25));
    assert_eq!(m.vol, 250_000);
    assert_eq!(m.rate, 37_500);
    assert_eq!(market_input_from_form("", "1", "1", "1").unwrap_err(), "Symbol required");
    assert_eq!(market_input_from_form("A", "x", "1", "1").unwrap_err(), "Invalid price");
    assert_eq!(market_input_from_form("A", "1", "", "1").unwrap_err(), "Invalid vol");
    assert_eq!(market_input_from_form("A", "1", "1", "n/a").unwrap_err(), "Invalid rate");
}

#[test]
fn a_saved_trade_fills_its_form_and_reads_back() {
    let mut t = stock_trade(TradeDirection::Sell, 3, 12.5);
    t.option_spec = Some(call_spec(150.0, "2026-01-16"));
    t.closes_position_id = Some(5);
    let f = trade_fields_of(&t);
    assert_eq!(f.id, 1);
    assert_eq!(f.label, "t");
    assert_eq!(f.contracts, "3");
    assert_eq!(f.price, "12.5");
    assert!(f.is_option);
    assert_eq!(f.option_type, OptionType::Call);
    assert_eq!(f.strike, "150");
    assert_eq!(f.expiry, "2026-01-16");
    assert_eq!(f.closes_id, Some(5));
    let back = trade_from_form(
        f.id, &f.label, &f.symbol, f.direction, &f.contracts, &f.price, f.is_option, f.option_type, &f.strike,
        &f.expiry, None, &[],
    )
    .unwrap();
    assert_eq!(back.contracts, t.contracts);
    assert_eq!(back.price, t.price);
    assert_eq!(back.option_spec.unwrap().expiry, d("2026-01-16"));

    let s = trade_fields_of(&stock_trade(TradeDirection::Buy, 1, 0.25));
    assert!(!s.is_option);
    assert_eq!(s.price, "0.25");
    assert_eq!(s.strike, "");
    assert_eq!(s.expiry, "");
}

#[test]
fn market_inputs_fill_their_form_as_percentages() {
    let mi = ScenarioMarketInput { symbol: "SPY".to_string(), price: usd(512.255), vol: 250_000, rate: -3_750 };
    let f = market_fields_of(&mi);
    assert_eq!(f.symbol, "SPY");
    assert_eq!(f.price, "512.26");
    assert_eq!(f.vol, "25.00");
    assert_eq!(f.rate, "-0.38");
    let back = market_input_from_form(&f.symbol, &f.price, &f.vol, &f.rate).unwrap();
    assert_eq!(back.vol, mi.vol);
}

#[test]
fn cent_exact_market_inputs_reopen_unchanged() {
    let mi = ScenarioMarketInput { symbol: "QQQ".to_string(), price: usd(401.37), vol: 252_500, rate: -37_500 };
    let f = market_fields_of(&mi);
    assert_eq!(f.vol, "25.25");
    assert_eq!(f.rate, "-3.75");
    let back = market_input_from_form(&f.symbol, &f.price, &f.vol, &f.rate).unwrap();
    assert_eq!(back.price, mi.price);
    assert_eq!(back.vol, mi.vol);
    assert_eq!(back.rate, mi.rate);
}

fn market_row(sym: &str, price: &str) -> MarketFields {
    MarketFields { symbol: sym.to_string(), price: price.to_string(), vol: "25".to_string(), rate: "3.75".to_string() }
}

fn trade_row(sym: &str, contracts: &str) -> TradeFields {
    TradeFields {
        id: 3,
        label: String::new(),
        symbol: sym.to_string(),
        direction: TradeDirection::Buy,
        contracts: contracts.to_string(),
        price: "10".to_string(),
        is_option: false,
        option_type: OptionType::Call,
        strike: String::new(),
        expiry: String::new(),
        closes_id: None,
    }
}

#[test]
fn the_scenario_form_builds_a_new_scenario() {
    let s = match scenario_from_form(None, "  Roll June  ", " 2025-06-20 ", &[market_row("spy", "500")], &[trade_row("spy", "2")], &[]) {
        Ok(s) => s,
        Err(e) => panic!("{}", e),
    };
    assert_eq!(s.name, "Roll June");
    assert_eq!(s.evaluation_date, d("2025-06-20"));
    assert!(!s.archived);
    assert_eq!(s.market_inputs.len(), 1);
    assert_eq!(s.market_inputs[0].symbol, "SPY");
    assert_eq!(s.market_inputs[0].vol, 250_000);
    assert_eq!(s.trades.len(), 1);
    assert_eq!(s.trades[0].contracts, 2);
    assert_eq!(s.trades[0].label, "Buy SPY stock");
}

#[test]
fn editing_keeps_the_scenario_identity() {
    let mut ex = Scenario::new("old", d("2025-01-01"));
    ex.id = 77;
    ex.archived = true;
    ex.created_at = Timestamp { secs: 1_000, nanos: 0 };
    let s = match scenario_from_form(Some(&ex), "new", "2025-02-01", &[], &[], &[]) {
        Ok(s) => s,
        Err(e) => panic!("{}", e),
    };
    assert_eq!(s.id, 77);
    assert!(s.archived);
    assert_eq!(s.created_at, Timestamp { secs: 1_000, nanos: 0 });
    assert_eq!(s.name, "new");
    assert!(s.market_inputs.is_empty() && s.trades.is_empty());
}

fn complaint(r: Result<Scenario, String>) -> String {
    match r {
        Ok(_) => panic!("the form was accepted"),
        Err(e) => e,
    }
}

#[test]
fn the_scenario_form_reports_the_first_complaint() {
    let m = [market_row("A", "1"), market_row("B", "x")];
    let t = [trade_row("A", "x")];
    assert_eq!(complaint(scenario_from_form(None, " ", "bad", &m, &t, &[])), "Name required.");
    assert_eq!(complaint(scenario_from_form(None, "n", "06/20/2025", &m, &t, &[])), "Evaluation date must be YYYY-MM-DD.");
    assert_eq!(complaint(scenario_from_form(None, "n", "2025-06-20", &m, &t, &[])), "Market input: Invalid price");
    assert_eq!(complaint(scenario_from_form(None, "n", "2025-06-20", &m[..1], &t, &[])), "Trade: Invalid contracts");
}

#[test]
fn evaluability_is_checked_before_evaluating() {
    let (mut s, mut positions) = covered_call_book();
    assert!(is_evaluable(&s, &positions));
    assert!(positions[0].is_ready());

    // A trade log whose running total leaves an i32 cannot be matched.
    let mut log = Position::new_stock("MSFT", 0, 0);
    log.entry_mode = PositionEntryMode::TradeLog;
    log.trades = vec![
        Trade { id: 1, date: d("2024-01-02"), quantity: i32::MAX, price: 1 },
        Trade { id: 2, date: d("2024-01-03"), quantity: 1, price: 1 },
    ];
    assert!(!log.is_ready());
    positions.push(log);
    assert!(!is_evaluable(&s, &positions));
    positions.pop();

    // A date that does not exist.
    s.evaluation_date = Date { year: 2025, month: 2, day: 29 };
    assert!(!is_evaluable(&s, &positions));
    s.evaluation_date = Date { year: 2024, month: 2, day: 29 };
    assert!(is_evaluable(&s, &positions));
}
