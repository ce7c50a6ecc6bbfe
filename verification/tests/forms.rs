use options_desk::calendar::{Date, Timestamp};
use options_desk::forms::{
    add_year, form_differs, form_from_revision, position_from_form, revision_from_form, tax_years, year_from_input,
    RevisionForm,
};
use options_desk::option::OptionType;
use options_desk::position::{PositionEntryMode, PositionKind};
use options_desk::tax::{DeductionChoice, FilingStatus, TaxProfile, TaxRevision};

fn blank_form() -> RevisionForm {
    RevisionForm {
        filing_status: FilingStatus::Single,
        deduction_choice: DeductionChoice::Standard,
        w2: String::new(),
        interest: String::new(),
        non_qual_div: String::new(),
        qual_div: String::new(),
        st_gains: String::new(),
        lt_gains: String::new(),
        rental: String::new(),
        itemized: String::new(),
        cf_st: String::new(),
        cf_lt: String::new(),
    }
}

fn saved() -> TaxRevision {
    TaxRevision {
        entered_at: Timestamp { secs: 1_700_000_000, nanos: 0 },
        filing_status: FilingStatus::Mfj,
        w2_income: 150_000_000_000,
        interest_income: 1_250_500_000,
        ordinary_dividends: 3_000_000_000,
        qualified_dividends: 2_000_000_000,
        st_capital_gains: -4_500_250_000,
        lt_capital_gains: 0,
        rental_income: 12_000_000_000,
        deduction_choice: DeductionChoice::Itemized,
        itemized_deductions: 30_000_000_000,
        carryforward_st_loss: 0,
        carryforward_lt_loss: 1_000_000,
    }
}

#[test]
fn a_stock_position_is_built_from_its_form() {
    let p = position_from_form(" aapl ", PositionKind::Stock, " 100 ", "150.25", OptionType::Call, "", "").unwrap();
    assert_eq!(p.symbol, "AAPL");
    assert_eq!(p.kind, PositionKind::Stock);
    assert_eq!(p.quantity, 100);
    assert_eq!(p.cost_basis, 150_250_000);
    assert!(p.option_spec.is_none());
    assert_eq!(p.entry_mode, PositionEntryMode::Snapshot);
    assert!(p.trades.is_empty());
}

#[test]
fn an_option_position_carries_its_contract() {
    let p = position_from_form("tsla", PositionKind::Option, "-2", "3.5", OptionType::Put, "200", " 2025-06-20 ")
        .unwrap();
    assert_eq!(p.quantity, -2);
    let s = p.option_spec.unwrap();
    assert_eq!(s.symbol, "TSLA");
    assert_eq!(s.option_type, OptionType::Put);
    assert_eq!(s.strike, 200_000_000);
    assert_eq!(s.expiry, Date { year: 2025, month: 6, day: 20 });
}

#[test]
fn the_position_form_names_the_first_bad_field() {
    let e = |sym: &str, kind: PositionKind, q: &str, cb: &str, k: &str, x: &str| {
        position_from_form(sym, kind, q, cb, OptionType::Call, k, x).unwrap_err()
    };
    assert_eq!(e("  ", PositionKind::Stock, "x", "x", "", ""), "Symbol required.");
    assert_eq!(e("A", PositionKind::Stock, "1.5", "x", "", ""), "Invalid quantity.");
    assert_eq!(e("A", PositionKind::Stock, "3000000000", "1", "", ""), "Invalid quantity.");
    assert_eq!(e("A", PositionKind::Stock, "1", "abc", "", ""), "Invalid cost basis.");
    assert_eq!(e("A", PositionKind::Option, "1", "1", "", "2025-01-01"), "Invalid strike.");
    assert_eq!(e("A", PositionKind::Option, "1", "1", "100", "01/02/2025"), "Expiry must be YYYY-MM-DD.");
    // A stock ignores the option fields.
    assert!(position_from_form("A", PositionKind::Stock, "1", "1", OptionType::Call, "bad", "bad").is_ok());
}

#[test]
fn a_revision_is_read_from_its_form() {
    let mut f = blank_form();
    f.filing_status = FilingStatus::Hoh;
    f.w2 = " 85000 ".to_string();
    f.qual_div = "200.5".to_string();
    f.non_qual_div = "100".to_string();
    f.st_gains = "-1500".to_string();
    let r = revision_from_form(&f).unwrap();
    assert_eq!(r.filing_status, FilingStatus::Hoh);
    assert_eq!(r.deduction_choice, DeductionChoice::Standard);
    assert_eq!(r.w2_income, 85_000_000_000);
    assert_eq!(r.qualified_dividends, 200_500_000);
    assert_eq!(r.ordinary_dividends, 300_500_000);
    assert_eq!(r.st_capital_gains, -1_500_000_000);
    assert_eq!(r.interest_income, 0);
    assert_eq!(r.carryforward_lt_loss, 0);
}

#[test]
fn the_revision_form_names_the_first_field_that_is_not_a_number() {
    let mut f = blank_form();
    f.rental = "lots".to_string();
    f.cf_lt = "?".to_string();
    assert_eq!(revision_from_form(&f).unwrap_err(), "Rental income must be a number");
    f.qual_div = "1,000".to_string();
    assert_eq!(revision_from_form(&f).unwrap_err(), "Qual dividends must be a number");
    let mut g = blank_form();
    g.cf_lt = "x".to_string();
    assert_eq!(revision_from_form(&g).unwrap_err(), "LT carryforward loss must be a number");
}

#[test]
fn a_form_filled_from_a_revision_is_clean_and_saves_back() {
    let r = saved();
    let f = form_from_revision(&r);
    assert_eq!(f.w2, "150000");
    assert_eq!(f.interest, "1250.5");
    assert_eq!(f.non_qual_div, "1000");
    assert_eq!(f.st_gains, "-4500.25");
    assert_eq!(f.lt_gains, "");
    assert_eq!(f.cf_lt, "1");
    assert!(!form_differs(&f, &r));
    let back = revision_from_form(&f).unwrap();
    assert_eq!(TaxRevision { entered_at: r.entered_at, ..back }, r);
}

#[test]
fn the_dirty_check_allows_half_a_cent() {
    let r = saved();
    let mut f = form_from_revision(&r);
    f.w2 = "150000.005".to_string();
    assert!(!form_differs(&f, &r));
    f.w2 = "150000.006".to_string();
    assert!(form_differs(&f, &r));
    let mut g = form_from_revision(&r);
    g.deduction_choice = DeductionChoice::Standard;
    assert!(form_differs(&g, &r));
    // Text that is not a number reads as zero.
    let mut h = form_from_revision(&r);
    h.w2 = "n/a".to_string();
    assert!(form_differs(&h, &r));
    h.w2 = "150000".to_string();
    h.lt_gains = "n/a".to_string();
    assert!(!form_differs(&h, &r));
}

#[test]
fn years_are_accepted_from_1990_to_2100() {
    assert_eq!(year_from_input(" 2024 "), Some(2024));
    assert_eq!(year_from_input("1990"), Some(1990));
    assert_eq!(year_from_input("2100"), Some(2100));
    assert_eq!(year_from_input("1989"), None);
    assert_eq!(year_from_input("2101"), None);
    assert_eq!(year_from_input("70000"), None);
    assert_eq!(year_from_input("twenty"), None);
    let mut added = vec![2020u16];
    assert!(add_year(&mut added, "2021"));
    assert!(add_year(&mut added, "2020"));
    assert!(!add_year(&mut added, "1800"));
    assert_eq!(added, vec![2020, 2021]);
}

#[test]
fn tax_years_are_listed_newest_first_once_each() {
    let profiles = vec![TaxProfile::new(2022), TaxProfile::new(2024), TaxProfile::new(2022)];
    assert_eq!(tax_years(2025, &profiles, &[2019, 2024]), vec![2025, 2024, 2022, 2019]);
    assert_eq!(tax_years(2025, &[], &[]), vec![2025]);
}
