use options_desk::calendar::{midnight_exec, parse_date, Date, Timestamp};
use options_desk::lots::Trade;
use options_desk::option::{OptionSpec, OptionType};
use options_desk::position::{Position, PositionEntryMode};
use options_desk::realized::{realized_lots, trade_gains, trade_gains_by_year};
use options_desk::tax::TradeGains;

fn d(s: &str) -> Date {
    parse_date(s).unwrap()
}

/// Dollars to micros.
fn usd(v: f64) -> i64 {
    (v * 1_000_000.0).round() as i64
}

fn t(date: &str, quantity: i32, price: f64) -> Trade {
    Trade { id: 0, date: d(date), quantity, price: usd(price) }
}

fn logged(mut p: Position, trades: Vec<Trade>) -> Position {
    p.entry_mode = PositionEntryMode::TradeLog;
    p.trades = trades;
    p
}

#[test]
fn stock_is_long_term_only_past_a_year_fifo() {
    // Two lots; the sell closes the older (long-term) one first, then part
    // of the newer (short-term) one.
    let p = logged(
        Position::new_stock("AAPL", 0, 0),
        vec![t("2024-01-10", 100, 100.0), t("2025-06-01", 100, 150.0), t("2025-09-01", -150, 200.0)],
    );
    let lots = realized_lots(&[p]);
    assert_eq!(lots.len(), 2);
    assert!(lots[0].is_long_term);
    assert_eq!(lots[0].quantity, 100);
    assert_eq!(lots[0].gain, usd(10_000.0) as i128);
    assert!(!lots[1].is_long_term);
    assert_eq!(lots[1].quantity, 50);
    assert_eq!(lots[1].gain, usd(2_500.0) as i128);

    let by_year = trade_gains_by_year(&lots);
    assert_eq!(by_year[&2025], TradeGains { st: usd(2_500.0) as i128, lt: usd(10_000.0) as i128 });
}

#[test]
fn options_are_always_short_term_and_scaled_by_100() {
    let spec = OptionSpec {
        symbol: "AAPL".into(),
        option_type: OptionType::Call,
        strike: usd(150.0),
        expiry: d("2026-01-16"),
    };
    // Held well over a year, yet still short-term.
    let p = logged(
        Position::new_option("AAPL", 0, 0, spec),
        vec![t("2024-01-10", 2, 5.0), t("2025-09-01", -2, 3.0)],
    );
    let lots = realized_lots(&[p]);
    assert_eq!(lots.len(), 1);
    assert!(!lots[0].is_long_term);
    assert_eq!(lots[0].gain, usd(-400.0) as i128);
    assert_eq!(trade_gains(&lots), TradeGains { st: usd(-400.0) as i128, lt: 0 });
}

#[test]
fn open_positions_realise_nothing() {
    let p = logged(Position::new_stock("AAPL", 0, 0), vec![t("2025-01-10", 100, 100.0)]);
    assert!(realized_lots(&[p]).is_empty());
    assert!(trade_gains_by_year(&[]).is_empty());
}

#[test]
fn realized_lots_list_closings_by_date_then_symbol() {
    let msft = logged(
        Position::new_stock("MSFT", 0, 0),
        vec![t("2024-02-01", 10, 300.0), t("2024-05-01", -10, 310.0)],
    );
    let aapl = logged(
        Position::new_stock("AAPL", 0, 0),
        vec![t("2024-02-01", 10, 100.0), t("2024-05-01", -5, 90.0), t("2024-03-01", -5, 120.0)],
    );
    let lots = realized_lots(&[msft, aapl]);
    assert_eq!(lots.len(), 3);
    assert_eq!(lots[0].symbol, "AAPL");
    assert_eq!(lots[0].close_date, d("2024-03-01"));
    assert_eq!(lots[0].gain, usd(100.0) as i128);
    // Same closing day: AAPL sorts before MSFT.
    assert_eq!(lots[1].symbol, "AAPL");
    assert_eq!(lots[1].gain, usd(-50.0) as i128);
    assert_eq!(lots[2].symbol, "MSFT");
    assert_eq!(lots[2].gain, usd(100.0) as i128);
    assert_eq!(lots[0].instrument, "Stock");
}

#[test]
fn option_lots_name_their_contract() {
    let spec = OptionSpec {
        symbol: "AAPL".into(),
        option_type: OptionType::Put,
        strike: usd(152.5),
        expiry: d("2026-01-16"),
    };
    let p = logged(
        Position::new_option("aapl", 0, 0, spec),
        vec![t("2025-01-10", -1, 4.0), t("2025-02-10", 1, 1.0)],
    );
    let lots = realized_lots(&[p]);
    assert_eq!(lots.len(), 1);
    // Halves round to even: $152.5 prints as 152.
    assert_eq!(lots[0].instrument, "Put $152 16-Jan-26");
    assert_eq!(lots[0].symbol, "AAPL");
    assert!(lots[0].is_option);
    // Short sold at 4, bought back at 1: a $300 gain on one contract.
    assert_eq!(lots[0].gain, usd(300.0) as i128);
    assert_eq!(lots[0].year(), 2025);
}

#[test]
fn year_totals_add_up_to_the_overall_totals() {
    let p = logged(
        Position::new_stock("AAPL", 0, 0),
        vec![
            t("2023-01-10", 100, 100.0),
            t("2023-06-01", -40, 110.0),
            t("2024-06-01", -30, 90.0),
            t("2025-06-01", -30, 150.0),
        ],
    );
    let lots = realized_lots(&[p]);
    let all = trade_gains(&lots);
    let by_year = trade_gains_by_year(&lots);
    assert_eq!(by_year.len(), 3);
    let st: i128 = by_year.values().map(|g| g.st).sum();
    let lt: i128 = by_year.values().map(|g| g.lt).sum();
    assert_eq!(st, all.st);
    assert_eq!(lt, all.lt);
    assert_eq!(by_year[&2023], TradeGains { st: usd(400.0) as i128, lt: 0 });
    assert_eq!(by_year[&2024], TradeGains { st: 0, lt: usd(-300.0) as i128 });
    assert_eq!(by_year[&2025], TradeGains { st: 0, lt: usd(1_500.0) as i128 });
}

#[test]
fn a_snapshot_converted_by_record_trade_keeps_its_holding_period() {
    let mut p = Position::new_stock("MSFT", 100, usd(50.0));
    p.opened_at = midnight_exec(d("2023-03-01"));
    assert!(p.record_trade(t("2025-09-01", -40, 80.0)));
    let lots = realized_lots(&[p.clone()]);
    assert_eq!(lots.len(), 1);
    assert!(lots[0].is_long_term);
    assert_eq!(lots[0].gain, usd(1_200.0) as i128);
    assert_eq!(p.effective_quantity(), 60);
}

#[test]
fn recording_extends_a_log_and_converts_an_empty_snapshot() {
    let mut p = logged(Position::new_stock("AAPL", 0, 0), vec![t("2024-01-10", 10, 100.0)]);
    assert!(p.record_trade(t("2024-02-10", 5, 110.0)));
    assert_eq!(p.trades.len(), 2);
    assert_eq!(p.effective_quantity(), 15);

    let mut q = Position::new_stock("IBM", 0, 0);
    assert!(q.record_trade(t("2024-02-10", -3, 190.0)));
    assert_eq!(q.entry_mode, PositionEntryMode::TradeLog);
    assert_eq!(q.trades.len(), 1);
    assert_eq!(q.effective_quantity(), -3);

    // A snapshot opened at an instant no calendar date can be read for is
    // left as it was.
    let mut r = Position::new_stock("XYZ", 5, usd(1.0));
    r.opened_at = Timestamp { secs: i64::MAX, nanos: 0 };
    assert!(!r.record_trade(t("2024-02-10", 1, 1.0)));
    assert_eq!(r.entry_mode, PositionEntryMode::Snapshot);
    assert_eq!(r.quantity, 5);
}
