use options_desk::calendar::{parse_date, Date};
use options_desk::import::{blocked_count, draft_lots, guess_column, split_csv, BasisKind, DraftLot, Role};
use options_desk::parcels::{group_parcels, imported_position, Conflict};
use options_desk::position::{Position, PositionEntryMode};

fn d(s: &str) -> Date {
    parse_date(s).unwrap()
}

fn row(cells: &[&str]) -> Vec<String> {
    cells.iter().map(|c| c.to_string()).collect()
}

fn lot(symbol: &str, date: &str, quantity: &str, price: &str) -> DraftLot {
    DraftLot { symbol: symbol.into(), date: date.into(), quantity: quantity.into(), price: price.into() }
}

#[test]
fn csv_honours_quotes_and_drops_blank_rows() {
    let rows = split_csv("Symbol,Qty,Note\r\nAAPL,10,\"a, b\"\n\n , \nMSFT,\"5\",\"say \"\"hi\"\"\nthere\"");
    assert_eq!(rows.len(), 3);
    assert_eq!(rows[0], row(&["Symbol", "Qty", "Note"]));
    assert_eq!(rows[1], row(&["AAPL", "10", "a, b"]));
    assert_eq!(rows[2], row(&["MSFT", "5", "say \"hi\"\nthere"]));
}

#[test]
fn csv_without_a_final_newline_keeps_its_last_row() {
    assert_eq!(split_csv("a,b\nc,d"), vec![row(&["a", "b"]), row(&["c", "d"])]);
    assert!(split_csv("").is_empty());
    assert!(split_csv("\n\n").is_empty());
}

#[test]
fn broker_dates_in_many_orderings() {
    for s in ["2024-03-15", "2024/03/15", "03/15/2024", "3-15-2024", "3/15/24", "15-Mar-2024", "15 Mar 2024",
              "Mar 15, 2024", "March 15, 2024", "2024-03-15 09:30:00"] {
        assert_eq!(parse_date(s), Some(d("2024-03-15")), "{s}");
    }
    assert_eq!(parse_date("15/03/2024"), None);
    assert_eq!(parse_date(""), None);
    assert_eq!(parse_date("3/15/1850"), None);
}

#[test]
fn total_cost_is_divided_through_per_share() {
    assert_eq!(BasisKind::TotalCost.per_share(1_000_000_000, 3_000_000), Some(333_333_333));
    assert_eq!(BasisKind::TotalCost.per_share(1_000_000_000, 0), None);
    assert_eq!(BasisKind::PerShare.per_share(12, 0), Some(12));
}

#[test]
fn rows_become_draft_lots() {
    let rows = vec![
        row(&["Date", "Shares", "Cost", "Ticker"]),
        row(&[" 2024-01-10 ", "10", "$1,000.00", " aapl "]),
        row(&["2024-02-10", "3"]),
    ];
    let lots = draft_lots(&rows, true, 0, 1, 2, Some(3), "", BasisKind::TotalCost);
    assert_eq!(lots.len(), 2);
    assert_eq!(lots[0], lot("AAPL", "2024-01-10", "10", "100.0000"));
    assert_eq!(lots[1], lot("", "2024-02-10", "3", ""));
    let fixed = draft_lots(&rows[1..], false, 0, 1, 2, None, " msft ", BasisKind::PerShare);
    assert_eq!(fixed[0].symbol, "MSFT");
    assert_eq!(fixed[0].price, "$1,000.00");
}

#[test]
fn draft_lots_say_what_is_wrong() {
    let good = lot("aapl", "2024-01-10", "10", "100");
    let i = good.issues();
    assert!(!i.blocking());
    assert_eq!(i.warning, None);
    assert_eq!(good.resolved(), Some(("AAPL".to_string(), d("2024-01-10"), 10, 100_000_000)));

    let bad = lot(" ", "someday", "0.2", "-1");
    let i = bad.issues();
    assert!(i.blocking());
    assert_eq!(i.symbol, Some("needs a ticker"));
    assert_eq!(i.date, Some("unreadable date"));
    assert_eq!(i.quantity, Some("can't be zero"));
    assert_eq!(i.price, Some("can't be negative"));
    assert_eq!(bad.resolved(), None);

    let odd = lot("X", "2024-01-10", "10.6", "abc");
    let i = odd.issues();
    assert_eq!(i.quantity, None);
    assert_eq!(i.price, Some("not a number"));
    assert_eq!(i.warning, Some("10.6 shares rounded to 11".to_string()));

    let blank = DraftLot::blank();
    assert_eq!(blank.issues().quantity, Some("not a number"));
}

#[test]
fn fractional_shares_round_half_away_from_zero() {
    let l = lot("X", "2024-01-10", "-2.5", "1");
    assert_eq!(l.resolved().unwrap().2, -3);
    assert_eq!(l.issues().warning, Some("-2.5 shares rounded to -3".to_string()));
}

#[test]
fn columns_are_guessed_from_headers() {
    let headers = row(&["Symbol", "Date Acquired", "Quantity", "Cost Basis", "Price"]);
    assert_eq!(guess_column(&headers, Role::Symbol), Some(0));
    assert_eq!(guess_column(&headers, Role::Date), Some(1));
    assert_eq!(guess_column(&headers, Role::Quantity), Some(2));
    // "cost basis" is a better match than "price".
    assert_eq!(guess_column(&headers, Role::Price), Some(3));
    let loose = row(&["Trade Date (local)", "No. of units", "Security Name"]);
    assert_eq!(guess_column(&loose, Role::Date), Some(0));
    assert_eq!(guess_column(&loose, Role::Quantity), Some(1));
    assert_eq!(guess_column(&loose, Role::Symbol), Some(2));
    assert_eq!(guess_column(&loose, Role::Price), None);
}

#[test]
fn complete_rows_are_grouped_by_ticker() {
    let lots = vec![
        lot("msft", "2024-01-10", "5", "300"),
        lot("aapl", "2024-02-10", "10", "100"),
        lot("", "2024-02-10", "10", "100"),
        lot("MSFT", "2024-03-10", "2", "310"),
    ];
    let groups = group_parcels(&lots);
    assert_eq!(groups.len(), 2);
    assert_eq!(groups[0].0, "AAPL");
    assert_eq!(groups[0].1, vec![(d("2024-02-10"), 10, 100_000_000)]);
    assert_eq!(groups[1].0, "MSFT");
    assert_eq!(groups[1].1, vec![(d("2024-01-10"), 5, 300_000_000), (d("2024-03-10"), 2, 310_000_000)]);
}

#[test]
fn imported_parcels_become_trade_logs() {
    let parcels = vec![(d("2024-02-10"), 10, 100_000_000)];
    let mut held = Position::new_stock("AAPL", 50, 90_000_000);
    held.id = 5;
    let existing = vec![held];
    let sym = "AAPL".to_string();

    assert!(imported_position(&existing, &sym, &parcels, Conflict::Skip).is_none());

    let replaced = imported_position(&existing, &sym, &parcels, Conflict::Replace).unwrap();
    assert_eq!(replaced.id, 5);
    assert_eq!(replaced.entry_mode, PositionEntryMode::TradeLog);
    assert_eq!(replaced.quantity, 0);
    assert_eq!(replaced.cost_basis, 0);
    assert_eq!(replaced.trades.len(), 1);
    assert_eq!(replaced.trades[0].quantity, 10);
    assert_eq!(replaced.effective_quantity(), 10);

    // A snapshot cannot be appended to: it is replaced.
    let appended = imported_position(&existing, &sym, &parcels, Conflict::Append).unwrap();
    assert_eq!(appended.quantity, 0);
    assert_eq!(appended.trades.len(), 1);

    let logged = imported_position(&[replaced], &sym, &[(d("2024-03-10"), -4, 120_000_000)], Conflict::Append).unwrap();
    assert_eq!(logged.trades.len(), 2);
    assert_eq!(logged.trades[0].date, d("2024-02-10"));
    assert_eq!(logged.trades[1].quantity, -4);
    assert_eq!(logged.effective_quantity(), 6);

    let fresh = imported_position(&existing, &"MSFT".to_string(), &parcels, Conflict::Skip).unwrap();
    assert_eq!(fresh.symbol, "MSFT");
    assert_eq!(fresh.entry_mode, PositionEntryMode::TradeLog);
    assert_eq!(fresh.trades.len(), 1);
    assert_eq!(Conflict::Append.label(), "Add to it");
    assert_eq!(Conflict::Replace.label(), "Replace it");
    assert_eq!(Conflict::Skip.label(), "Skip");
}

#[test]
fn divided_through_costs_resolve_to_what_the_review_shows() {
    let rows = vec![row(&["2024-01-10", "3", "$1,000", "XYZ"])];
    let lots = draft_lots(&rows, false, 0, 1, 2, Some(3), "", BasisKind::TotalCost);
    assert_eq!(lots[0].price, "333.3333");
    let (_, _, shares, price) = lots[0].resolved().unwrap();
    assert_eq!(shares, 3);
    assert_eq!(price, 333_333_300);
}

#[test]
fn blocked_rows_are_counted() {
    let lots = vec![
        lot("AAPL", "2024-01-10", "10", "100"),
        lot("", "2024-01-10", "10", "100"),
        lot("MSFT", "someday", "10", "100"),
        lot("MSFT", "2024-01-10", "10.4", "100"),
    ];
    assert_eq!(blocked_count(&lots), 2);
    assert_eq!(blocked_count(&[]), 0);
}

#[test]
fn quote_free_text_splits_on_newlines_and_commas() {
    let text = "Symbol,Qty\nAAPL,10\n\n , \nMSFT,,5\n";
    let plain: Vec<Vec<String>> = text
        .split('\n')
        .map(|l| l.split(',').map(String::from).collect::<Vec<_>>())
        .filter(|r| r.iter().any(|f| !f.trim().is_empty()))
        .collect();
    assert_eq!(split_csv(text), plain);
    assert_eq!(plain.len(), 3);
}

#[test]
fn an_exact_header_beats_an_earlier_substring_match() {
    let headers: Vec<String> = vec!["Cost Basis Total".into(), " COST BASIS ".into(), "Price".into()];
    assert_eq!(guess_column(&headers, Role::Price), Some(1));
    let none: Vec<String> = vec!["Notes".into(), "Account".into()];
    assert_eq!(guess_column(&none, Role::Price), None);
}
