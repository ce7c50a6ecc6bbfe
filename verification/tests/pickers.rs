use options_desk::calendar::canonical_date;

#[test]
fn common_date_spellings_become_iso() {
    for s in ["2028-01-21", "01/21/2028", "1/21/28", "21-Jan-2028", "21-jan-28", "21 Jan 2028", "Jan 21 2028", "20280121"] {
        assert_eq!(canonical_date(s), "2028-01-21", "{s}");
    }
}

#[test]
fn unparseable_input_is_left_alone() {
    assert_eq!(canonical_date("2028-01"), "2028-01");
    assert_eq!(canonical_date("  soon "), "soon");
    assert_eq!(canonical_date(""), "");
}

#[test]
fn canonical_dates_stay_canonical() {
    let once = canonical_date(" 3/7/29 ");
    assert_eq!(once, "2029-03-07");
    assert_eq!(canonical_date(&once), once);
}
