use options_desk::calendar::Timestamp;
use options_desk::revisions::revision_diff;
use options_desk::tax::{
    DeductionChoice, FilingStatus, LineItemCategory, TaxEntryMode, TaxLineItem, TaxProfile, TaxRevision, TaxSettings,
};

fn item(category: LineItemCategory, amount: i64) -> TaxLineItem {
    TaxLineItem { id: 0, entered_at: Timestamp { secs: 0, nanos: 0 }, date: None, category, amount, description: String::new() }
}

fn revision() -> TaxRevision {
    TaxRevision {
        entered_at: Timestamp { secs: 0, nanos: 0 },
        filing_status: FilingStatus::Single,
        w2_income: 0,
        interest_income: 0,
        ordinary_dividends: 0,
        qualified_dividends: 0,
        st_capital_gains: 0,
        lt_capital_gains: 0,
        rental_income: 0,
        deduction_choice: DeductionChoice::Standard,
        itemized_deductions: 0,
        carryforward_st_loss: 0,
        carryforward_lt_loss: 0,
    }
}

#[test]
fn filing_statuses_round_trip_through_their_codes() {
    for f in FilingStatus::all() {
        assert_eq!(FilingStatus::from_str(f.as_str()), Some(f));
    }
    assert_eq!(FilingStatus::Mfj.label(), "Married filing jointly");
    assert_eq!(FilingStatus::from_str("MFJ"), None);
    assert_eq!(FilingStatus::default(), FilingStatus::Single);
}

#[test]
fn deductions_and_categories_round_trip() {
    for d in [DeductionChoice::Standard, DeductionChoice::Itemized] {
        assert_eq!(DeductionChoice::from_str(d.as_str()), Some(d));
    }
    assert_eq!(DeductionChoice::from_str(""), None);
    for c in LineItemCategory::all() {
        assert_eq!(LineItemCategory::from_str(c.as_str()), Some(c));
    }
    assert_eq!(LineItemCategory::NonQualDiv.as_str(), "non_qual_div");
    assert_eq!(LineItemCategory::StGain.label(), "Short-term gain");
    assert_eq!(LineItemCategory::from_str("w-2"), None);
}

#[test]
fn new_profiles_start_empty_in_snapshot_mode() {
    let p = TaxProfile::new(2025);
    assert_eq!(p.tax_year, 2025);
    assert_eq!(p.mode, TaxEntryMode::Snapshot);
    assert!(p.current().is_none());
    assert_eq!(p.settings, TaxSettings::default());
    let r = p.effective_revision();
    assert_eq!(r.filing_status, FilingStatus::Single);
    assert_eq!(r.w2_income, 0);
}

#[test]
fn snapshot_mode_uses_the_last_revision() {
    let mut p = TaxProfile::new(2025);
    let mut first = revision();
    first.w2_income = 1;
    let mut second = revision();
    second.w2_income = 2;
    p.revisions = vec![first, second];
    assert_eq!(p.current().unwrap().w2_income, 2);
    assert_eq!(p.effective_revision().w2_income, 2);
    p.sync_revisions();
    assert_eq!(p.revisions.len(), 2);
}

#[test]
fn line_items_are_summed_by_category() {
    let mut p = TaxProfile::new(2025);
    p.mode = TaxEntryMode::LineItem;
    p.settings.filing_status = FilingStatus::Mfj;
    p.settings.itemized_deductions = 30_000_000_000;
    p.line_items = vec![
        item(LineItemCategory::W2, 100_000_000_000),
        item(LineItemCategory::W2, 20_000_000_000),
        item(LineItemCategory::QualDiv, 1_000_000_000),
        item(LineItemCategory::NonQualDiv, 500_000_000),
        item(LineItemCategory::StGain, -2_000_000_000),
    ];
    let r = p.effective_revision();
    assert_eq!(r.w2_income, 120_000_000_000);
    assert_eq!(r.qualified_dividends, 1_000_000_000);
    assert_eq!(r.ordinary_dividends, 1_500_000_000);
    assert!(r.qualified_dividends <= r.ordinary_dividends);
    assert_eq!(r.st_capital_gains, -2_000_000_000);
    assert_eq!(r.lt_capital_gains, 0);
    assert_eq!(r.filing_status, FilingStatus::Mfj);
    assert_eq!(r.itemized_deductions, 30_000_000_000);

    p.revisions = vec![revision(), revision()];
    p.sync_revisions();
    assert_eq!(p.revisions.len(), 1);
    assert_eq!(p.current().unwrap().w2_income, 120_000_000_000);
    assert_eq!(p.current().unwrap().ordinary_dividends, 1_500_000_000);
}

#[test]
fn revision_diff_names_what_changed() {
    let older = revision();
    let mut newer = revision();
    newer.filing_status = FilingStatus::Hoh;
    newer.deduction_choice = DeductionChoice::Itemized;
    newer.w2_income = 85_000_000_000;
    newer.ordinary_dividends = 2_000_000_000;
    newer.qualified_dividends = 500_000_000;
    newer.rental_income = 4_000;
    let changes = revision_diff(&older, &newer);
    assert_eq!(
        changes,
        vec![
            "Filing: Single → Head of household".to_string(),
            "Deduction: standard → itemized".to_string(),
            "W-2: +$0.00 → +$85.0K".to_string(),
            "Non-qual div.: +$0.00 → +$1500.00".to_string(),
            "Qual div.: +$0.00 → +$500.00".to_string(),
        ]
    );
}

#[test]
fn a_revision_compared_with_itself_has_no_changes() {
    let mut r = revision();
    r.w2_income = 10;
    r.carryforward_lt_loss = 5_000_000_000;
    assert!(revision_diff(&r, &r).is_empty());
}
