use options_desk::calendar::{parse_date, Date, Timestamp};
use options_desk::lots::{match_trades, LotAllocation, OpenLot, Trade};
use options_desk::option::{OptionSpec, OptionType};
use options_desk::position::{weighted_avg_cost, Position, PositionEntryMode, PositionKind};

fn d(s: &str) -> Date {
    parse_date(s).unwrap()
}

fn t(id: u128, date: &str, quantity: i32, price: i64) -> Trade {
    Trade { id, date: d(date), quantity, price: price * 1_000_000 }
}

#[test]
fn fifo_closes_the_oldest_lot_and_min_tax_the_dearest() {
    let trades = vec![t(1, "2024-01-01", 10, 100), t(2, "2024-06-01", 10, 200), t(3, "2024-07-01", -10, 150)];
    let (open, closed) = match_trades(&trades, LotAllocation::Fifo);
    assert_eq!(open.len(), 1);
    assert_eq!(open[0].trade_id, 2);
    assert_eq!(closed.len(), 1);
    assert_eq!(closed[0].realized_pnl, 500_000_000);
    assert!(!closed[0].is_long_term);

    let (open, closed) = match_trades(&trades, LotAllocation::MinTax);
    assert_eq!(open[0].trade_id, 1);
    assert_eq!(closed[0].realized_pnl, -500_000_000);
    assert_eq!(LotAllocation::default(), LotAllocation::Fifo);
}

#[test]
fn trades_are_matched_in_date_order() {
    // Logged out of order: the sale is dated after both purchases.
    let trades = vec![t(3, "2025-03-01", -15, 120), t(1, "2024-01-01", 10, 100), t(2, "2024-02-01", 10, 110)];
    let (open, closed) = match_trades(&trades, LotAllocation::Fifo);
    assert_eq!(closed.len(), 2);
    assert_eq!(closed[0].quantity, 10);
    assert!(closed[0].is_long_term);
    assert_eq!(closed[1].quantity, 5);
    assert!(closed[1].is_long_term);
    assert_eq!(open, vec![OpenLot { trade_id: 2, date: d("2024-02-01"), quantity: 5, price: 110_000_000 }]);
}

#[test]
fn selling_through_zero_opens_a_short() {
    let trades = vec![t(1, "2024-01-01", 10, 100), t(2, "2024-02-01", -15, 90)];
    let (open, closed) = match_trades(&trades, LotAllocation::Fifo);
    assert_eq!(closed.len(), 1);
    assert_eq!(closed[0].realized_pnl, -100_000_000);
    assert_eq!(open.len(), 1);
    assert_eq!(open[0].quantity, -5);
    assert_eq!(open[0].price, 90_000_000);
}

#[test]
fn weighted_average_cost_of_open_lots() {
    let lots = vec![
        OpenLot { trade_id: 1, date: d("2024-01-01"), quantity: 10, price: 100_000_000 },
        OpenLot { trade_id: 2, date: d("2024-02-01"), quantity: 30, price: 200_000_000 },
    ];
    assert_eq!(weighted_avg_cost(&lots), 175_000_000);
    assert_eq!(weighted_avg_cost(&[]), 0);
}

#[test]
fn positions_in_both_modes() {
    let s = Position::new_stock("msft", 100, 250_000_000);
    assert_eq!(s.symbol, "MSFT");
    assert_eq!(s.kind, PositionKind::Stock);
    assert_eq!(s.entry_mode, PositionEntryMode::Snapshot);
    assert_eq!(s.effective_quantity(), 100);
    assert_eq!(s.effective_cost_basis(), 250_000_000);
    assert_eq!(s.total_cost(), 25_000_000_000);

    let spec = OptionSpec { symbol: "MSFT".into(), option_type: OptionType::Call, strike: 400_000_000, expiry: d("2026-01-16") };
    let o = Position::new_option("MSFT", -2, 5_000_000, spec);
    assert_eq!(o.kind, PositionKind::Option);
    assert_eq!(o.total_cost(), -1_000_000_000);

    let mut l = Position::new_stock("AAPL", 0, 0);
    l.entry_mode = PositionEntryMode::TradeLog;
    l.trades = vec![t(1, "2024-03-05", 10, 100), t(2, "2024-01-02", 30, 200), t(3, "2024-04-01", -10, 150)];
    assert_eq!(l.effective_quantity(), 30);
    // The first lot (Jan) is closed first; 20 of it and the March lot remain.
    assert_eq!(l.effective_cost_basis(), 166_666_667);
    assert_eq!(l.oldest_open_lot_date(), Timestamp { secs: 1_704_153_600, nanos: 0 });
    let (open, _) = l.compute_lots();
    let held: i32 = open.iter().map(|x| x.quantity).sum();
    assert_eq!(held, l.effective_quantity());
}

#[test]
fn closings_follow_the_trade_that_closed_them() {
    // A short opened, then bought back: the closing gains open minus close,
    // even though the log lists the purchase first.
    let trades = vec![t(2, "2024-03-01", 10, 80), t(1, "2024-01-02", -10, 100)];
    let (open, closed) = match_trades(&trades, LotAllocation::Fifo);
    assert!(open.is_empty());
    assert_eq!(closed.len(), 1);
    let c = &closed[0];
    assert_eq!(c.open_date, d("2024-01-02"));
    assert_eq!(c.close_date, d("2024-03-01"));
    assert_eq!(c.realized_pnl, (100 - 80) * 10 * 1_000_000);
    // A long sold at a loss gains close minus open.
    let (_, closed) = match_trades(&[t(1, "2024-01-02", 5, 100), t(2, "2024-01-03", -5, 90)], LotAllocation::MinTax);
    assert_eq!(closed[0].realized_pnl, (90 - 100) * 5 * 1_000_000);
    // Shares traded are held or closed, twice for each closing.
    let (open, closed) = match_trades(&[t(1, "2024-01-02", 7, 1), t(2, "2024-01-03", -3, 1)], LotAllocation::Fifo);
    let traded = 7 + 3;
    let held: i32 = open.iter().map(|l| l.quantity.abs()).sum();
    let shut: i32 = closed.iter().map(|c| c.quantity).sum();
    assert_eq!(traded, held + 2 * shut);
}
