use options_desk::calendar::Date;
use options_desk::combo::{combo_from_fields, common_timestamps, leg_fields_of, priced_legs, Combo, ComboLegSpec, LegFields};
use options_desk::option::OptionType;

fn row(t: OptionType, strike: &str, expiry: &str, quantity: &str) -> LegFields {
    LegFields { option_type: t, strike: strike.to_string(), expiry: expiry.to_string(), quantity: quantity.to_string() }
}

#[test]
fn incomplete_leg_rows_are_not_saved() {
    let rows = vec![
        row(OptionType::Call, "105", "2025-03-21", "-1"),
        row(OptionType::Call, "", "2025-03-21", "1"),
        row(OptionType::Put, "95.5", "2025-06-20", "0"),
        row(OptionType::Put, "95.5", "", " 2 "),
        row(OptionType::Call, "110", "2025-06-20", "1.5"),
    ];
    let c = combo_from_fields(7, &"roll".to_string(), &"SPY".to_string(), &rows, true);
    assert_eq!(c.id, 7);
    assert_eq!(c.label, "roll");
    assert_eq!(c.symbol, "SPY");
    assert!(c.vol_mode);
    assert_eq!(c.legs.len(), 2);
    assert_eq!(c.legs[0].strike, 105_000_000);
    assert_eq!(c.legs[0].quantity, -1);
    assert_eq!(c.legs[0].expiry, "2025-03-21");
    assert_eq!(c.legs[1].option_type, OptionType::Put);
    assert_eq!(c.legs[1].strike, 95_500_000);
    assert_eq!(c.legs[1].quantity, 2);
    assert_eq!(c.legs[1].expiry, "");
}

#[test]
fn a_saved_combo_reopens_with_its_legs_and_saves_the_same() {
    let c = Combo {
        id: 1,
        label: "calendar".to_string(),
        symbol: "QQQ".to_string(),
        legs: vec![
            ComboLegSpec { option_type: OptionType::Call, strike: 402_500_000, expiry: "2025-01-17".to_string(), quantity: -3 },
            ComboLegSpec { option_type: OptionType::Put, strike: 400_000_000, expiry: "2025-02-21".to_string(), quantity: 12 },
        ],
        vol_mode: false,
    };
    let rows = leg_fields_of(&c);
    assert_eq!(rows.len(), 2);
    assert_eq!(rows[0].strike, "402.5");
    assert_eq!(rows[0].quantity, "-3");
    assert_eq!(rows[1].strike, "400");
    assert_eq!(rows[1].quantity, "12");
    assert_eq!(rows[1].expiry, "2025-02-21");
    let again = combo_from_fields(c.id, &c.label, &c.symbol, &rows, c.vol_mode);
    assert_eq!(again.legs.len(), 2);
    for (a, b) in again.legs.iter().zip(c.legs.iter()) {
        assert_eq!(a.option_type, b.option_type);
        assert_eq!(a.strike, b.strike);
        assert_eq!(a.expiry, b.expiry);
        assert_eq!(a.quantity, b.quantity);
    }
}

#[test]
fn a_combo_without_legs_opens_with_one_long_call() {
    let c = Combo { id: 2, label: String::new(), symbol: "IWM".to_string(), legs: vec![], vol_mode: false };
    let rows = leg_fields_of(&c);
    assert_eq!(rows.len(), 1);
    assert_eq!(rows[0].option_type, OptionType::Call);
    assert_eq!(rows[0].quantity, "1");
    assert_eq!(rows[0].strike, "");
    assert!(combo_from_fields(2, &c.label, &c.symbol, &rows, false).legs.is_empty());
}

#[test]
fn priced_legs_count_the_days_left() {
    let today = Date { year: 2025, month: 1, day: 1 };
    let rows = vec![
        row(OptionType::Call, "100", " 2025-01-31 ", "1"),
        row(OptionType::Put, "0", "2025-01-31", "1"),
        row(OptionType::Put, "90", "2024-12-20", "-2"),
        row(OptionType::Call, "100", "01/31/2025", "1"),
        row(OptionType::Call, "100", "2025-01-31", "0"),
    ];
    let legs = priced_legs(&rows, today);
    assert_eq!(legs.len(), 2);
    assert_eq!(legs[0].days_to_expiry, 30);
    assert_eq!(legs[0].strike, 100_000_000);
    assert_eq!(legs[1].option_type, OptionType::Put);
    assert_eq!(legs[1].days_to_expiry, 0);
    assert_eq!(legs[1].quantity, -2);
}

#[test]
fn history_is_drawn_on_the_timestamps_every_leg_has() {
    let v = |xs: &[&str]| xs.iter().map(|x| x.to_string()).collect::<Vec<String>>();
    // A timestamp repeated within one leg does not stand in for another leg.
    let legs = vec![v(&["2024-01-03", "2024-01-01", "2024-01-02", "2024-01-01"]), v(&["2024-01-02", "2024-01-03", "2024-01-04"])];
    assert_eq!(common_timestamps(&legs), v(&["2024-01-02", "2024-01-03"]));
    let lopsided = vec![v(&["a", "a"]), v(&["b"])];
    assert!(common_timestamps(&lopsided).is_empty());
    assert!(common_timestamps(&[]).is_empty());
}
