//! A user's tax profile for one year: filing status, deduction choice,
//! income line items, and the immutable revisions the tax estimate reads.

use vstd::prelude::*;
use crate::calendar::{Date, Timestamp};
use crate::clock::{new_id, utc_now};
use crate::text::str_eq;

verus! {

/// How a return is filed.
#[derive(Debug, Clone, Copy, PartialEq, Eq, Structural)]
pub enum FilingStatus {
    Single,
    Mfj,
    Mfs,
    Hoh,
}

/// The stored spelling of each filing status.
pub open spec fn filing_status_code(f: FilingStatus) -> Seq<char> {
    match f {
        FilingStatus::Single => "single"@,
        FilingStatus::Mfj => "mfj"@,
        FilingStatus::Mfs => "mfs"@,
        FilingStatus::Hoh => "hoh"@,
    }
}

pub open spec fn filing_status_label(f: FilingStatus) -> Seq<char> {
    match f {
        FilingStatus::Single => "Single"@,
        FilingStatus::Mfj => "Married filing jointly"@,
        FilingStatus::Mfs => "Married filing separately"@,
        FilingStatus::Hoh => "Head of household"@,
    }
}

/// The filing status stored as `s`, if any.
pub open spec fn filing_status_from(s: Seq<char>) -> Option<FilingStatus> {
    if s == "single"@ {
        Some(FilingStatus::Single)
    } else if s == "mfj"@ {
        Some(FilingStatus::Mfj)
    } else if s == "mfs"@ {
        Some(FilingStatus::Mfs)
    } else if s == "hoh"@ {
        Some(FilingStatus::Hoh)
    } else {
        None
    }
}

impl FilingStatus {
    pub fn label(&self) -> (r: &'static str)
        ensures
            r@ == filing_status_label(*self),
    {
        match self {
            FilingStatus::Single => "Single",
            FilingStatus::Mfj => "Married filing jointly",
            FilingStatus::Mfs => "Married filing separately",
            FilingStatus::Hoh => "Head of household",
        }
    }

    pub fn as_str(&self) -> (r: &'static str)
        ensures
            r@ == filing_status_code(*self),
    {
        match self {
            FilingStatus::Single => "single",
            FilingStatus::Mfj => "mfj",
            FilingStatus::Mfs => "mfs",
            FilingStatus::Hoh => "hoh",
        }
    }

    pub fn from_str(s: &str) -> (r: Option<FilingStatus>)
        ensures
            r == filing_status_from(s@),
    {
        if str_eq(s, "single") {
            Some(FilingStatus::Single)
        } else if str_eq(s, "mfj") {
            Some(FilingStatus::Mfj)
        } else if str_eq(s, "mfs") {
            Some(FilingStatus::Mfs)
        } else if str_eq(s, "hoh") {
            Some(FilingStatus::Hoh)
        } else {
            None
        }
    }

    /// Every filing status, in display order.
    pub fn all() -> (r: [FilingStatus; 4])
        ensures
            r@ == seq![FilingStatus::Single, FilingStatus::Mfj, FilingStatus::Mfs, FilingStatus::Hoh],
    {
        [FilingStatus::Single, FilingStatus::Mfj, FilingStatus::Mfs, FilingStatus::Hoh]
    }
}

impl Default for FilingStatus {
    fn default() -> (r: FilingStatus)
        ensures
            r == FilingStatus::Single,
    {
        FilingStatus::Single
    }
}

/// Standard or itemised deduction.
#[derive(Debug, Clone, Copy, PartialEq, Eq, Structural)]
pub enum DeductionChoice {
    Standard,
    Itemized,
}

pub open spec fn deduction_code(d: DeductionChoice) -> Seq<char> {
    match d {
        DeductionChoice::Standard => "standard"@,
        DeductionChoice::Itemized => "itemized"@,
    }
}

pub open spec fn deduction_from(s: Seq<char>) -> Option<DeductionChoice> {
    if s == "standard"@ {
        Some(DeductionChoice::Standard)
    } else if s == "itemized"@ {
        Some(DeductionChoice::Itemized)
    } else {
        None
    }
}

impl DeductionChoice {
    pub fn as_str(&self) -> (r: &'static str)
        ensures
            r@ == deduction_code(*self),
    {
        match self {
            DeductionChoice::Standard => "standard",
            DeductionChoice::Itemized => "itemized",
        }
    }

    pub fn from_str(s: &str) -> (r: Option<DeductionChoice>)
        ensures
            r == deduction_from(s@),
    {
        if str_eq(s, "standard") {
            Some(DeductionChoice::Standard)
        } else if str_eq(s, "itemized") {
            Some(DeductionChoice::Itemized)
        } else {
            None
        }
    }
}

impl Default for DeductionChoice {
    fn default() -> (r: DeductionChoice)
        ensures
            r == DeductionChoice::Standard,
    {
        DeductionChoice::Standard
    }
}

/// Whether income is entered as one snapshot per revision or built up from
/// line items.
#[derive(Debug, Clone, Copy, PartialEq, Eq, Structural)]
pub enum TaxEntryMode {
    Snapshot,
    LineItem,
}

impl Default for TaxEntryMode {
    fn default() -> (r: TaxEntryMode)
        ensures
            r == TaxEntryMode::Snapshot,
    {
        TaxEntryMode::Snapshot
    }
}

/// Kinds of income a line item records.
#[derive(Debug, Clone, Copy, PartialEq, Eq, Structural)]
pub enum LineItemCategory {
    W2,
    Interest,
    NonQualDiv,
    QualDiv,
    StGain,
    LtGain,
    Rental,
}

pub open spec fn category_label(c: LineItemCategory) -> Seq<char> {
    match c {
        LineItemCategory::W2 => "W-2 income"@,
        LineItemCategory::Interest => "Interest income"@,
        LineItemCategory::NonQualDiv => "Non-qual dividends"@,
        LineItemCategory::QualDiv => "Qual dividends"@,
        LineItemCategory::StGain => "Short-term gain"@,
        LineItemCategory::LtGain => "Long-term gain"@,
        LineItemCategory::Rental => "Rental income"@,
    }
}

pub open spec fn category_code(c: LineItemCategory) -> Seq<char> {
    match c {
        LineItemCategory::W2 => "w2"@,
        LineItemCategory::Interest => "interest"@,
        LineItemCategory::NonQualDiv => "non_qual_div"@,
        LineItemCategory::QualDiv => "qual_div"@,
        LineItemCategory::StGain => "st_gain"@,
        LineItemCategory::LtGain => "lt_gain"@,
        LineItemCategory::Rental => "rental"@,
    }
}

pub open spec fn category_from(s: Seq<char>) -> Option<LineItemCategory> {
    if s == "w2"@ {
        Some(LineItemCategory::W2)
    } else if s == "interest"@ {
        Some(LineItemCategory::Interest)
    } else if s == "non_qual_div"@ {
        Some(LineItemCategory::NonQualDiv)
    } else if s == "qual_div"@ {
        Some(LineItemCategory::QualDiv)
    } else if s == "st_gain"@ {
        Some(LineItemCategory::StGain)
    } else if s == "lt_gain"@ {
        Some(LineItemCategory::LtGain)
    } else if s == "rental"@ {
        Some(LineItemCategory::Rental)
    } else {
        None
    }
}

impl LineItemCategory {
    pub fn label(self) -> (r: &'static str)
        ensures
            r@ == category_label(self),
    {
        match self {
            LineItemCategory::W2 => "W-2 income",
            LineItemCategory::Interest => "Interest income",
            LineItemCategory::NonQualDiv => "Non-qual dividends",
            LineItemCategory::QualDiv => "Qual dividends",
            LineItemCategory::StGain => "Short-term gain",
            LineItemCategory::LtGain => "Long-term gain",
            LineItemCategory::Rental => "Rental income",
        }
    }

    pub fn as_str(self) -> (r: &'static str)
        ensures
            r@ == category_code(self),
    {
        match self {
            LineItemCategory::W2 => "w2",
            LineItemCategory::Interest => "interest",
            LineItemCategory::NonQualDiv => "non_qual_div",
            LineItemCategory::QualDiv => "qual_div",
            LineItemCategory::StGain => "st_gain",
            LineItemCategory::LtGain => "lt_gain",
            LineItemCategory::Rental => "rental",
        }
    }

    pub fn from_str(s: &str) -> (r: Option<LineItemCategory>)
        ensures
            r == category_from(s@),
    {
        if str_eq(s, "w2") {
            Some(LineItemCategory::W2)
        } else if str_eq(s, "interest") {
            Some(LineItemCategory::Interest)
        } else if str_eq(s, "non_qual_div") {
            Some(LineItemCategory::NonQualDiv)
        } else if str_eq(s, "qual_div") {
            Some(LineItemCategory::QualDiv)
        } else if str_eq(s, "st_gain") {
            Some(LineItemCategory::StGain)
        } else if str_eq(s, "lt_gain") {
            Some(LineItemCategory::LtGain)
        } else if str_eq(s, "rental") {
            Some(LineItemCategory::Rental)
        } else {
            None
        }
    }

    /// Every category, in display order.
    pub fn all() -> (r: [LineItemCategory; 7])
        ensures
            r@ == seq![
                LineItemCategory::W2,
                LineItemCategory::Interest,
                LineItemCategory::NonQualDiv,
                LineItemCategory::QualDiv,
                LineItemCategory::StGain,
                LineItemCategory::LtGain,
                LineItemCategory::Rental,
            ],
    {
        [
            LineItemCategory::W2,
            LineItemCategory::Interest,
            LineItemCategory::NonQualDiv,
            LineItemCategory::QualDiv,
            LineItemCategory::StGain,
            LineItemCategory::LtGain,
            LineItemCategory::Rental,
        ]
    }
}

impl Default for LineItemCategory {
    fn default() -> (r: LineItemCategory)
        ensures
            r == LineItemCategory::W2,
    {
        LineItemCategory::W2
    }
}

/// Parsing a stored spelling gives back the filing status it was stored from.
pub proof fn filing_status_round_trip(f: FilingStatus)
    ensures
        filing_status_from(filing_status_code(f)) == Some(f),
{
    reveal_strlit("single");
    reveal_strlit("mfj");
    reveal_strlit("mfs");
    reveal_strlit("hoh");
    assert("single"@[0] != "mfj"@[0]);
    assert("single"@[0] != "mfs"@[0]);
    assert("single"@[0] != "hoh"@[0]);
    assert("mfj"@[2] != "mfs"@[2]);
    assert("mfj"@[0] != "hoh"@[0]);
    assert("mfs"@[0] != "hoh"@[0]);
}

/// A text names at most one filing status: whatever parses was stored as
/// exactly that text.
pub proof fn filing_status_parse_is_exact(s: Seq<char>)
    ensures
        filing_status_from(s) matches Some(f) ==> filing_status_code(f) == s,
{
}

/// Parsing a stored spelling gives back the deduction choice it was stored from.
pub proof fn deduction_round_trip(d: DeductionChoice)
    ensures
        deduction_from(deduction_code(d)) == Some(d),
{
    reveal_strlit("standard");
    reveal_strlit("itemized");
    assert("standard"@[0] != "itemized"@[0]);
}

/// A text names at most one deduction choice.
pub proof fn deduction_parse_is_exact(s: Seq<char>)
    ensures
        deduction_from(s) matches Some(d) ==> deduction_code(d) == s,
{
}

/// Parsing a stored spelling gives back the category it was stored from.
pub proof fn category_round_trip(c: LineItemCategory)
    ensures
        category_from(category_code(c)) == Some(c),
{
    reveal_strlit("w2");
    reveal_strlit("interest");
    reveal_strlit("non_qual_div");
    reveal_strlit("qual_div");
    reveal_strlit("st_gain");
    reveal_strlit("lt_gain");
    reveal_strlit("rental");
    assert("w2"@[0] != "interest"@[0]);
    assert("w2"@[0] != "non_qual_div"@[0]);
    assert("w2"@[0] != "qual_div"@[0]);
    assert("w2"@[0] != "st_gain"@[0]);
    assert("w2"@[0] != "lt_gain"@[0]);
    assert("w2"@[0] != "rental"@[0]);
    assert("interest"@[0] != "non_qual_div"@[0]);
    assert("interest"@[0] != "qual_div"@[0]);
    assert("interest"@[0] != "st_gain"@[0]);
    assert("interest"@[0] != "lt_gain"@[0]);
    assert("interest"@[0] != "rental"@[0]);
    assert("non_qual_div"@[0] != "qual_div"@[0]);
    assert("non_qual_div"@[0] != "st_gain"@[0]);
    assert("non_qual_div"@[0] != "lt_gain"@[0]);
    assert("non_qual_div"@[0] != "rental"@[0]);
    assert("qual_div"@[0] != "st_gain"@[0]);
    assert("qual_div"@[0] != "lt_gain"@[0]);
    assert("qual_div"@[0] != "rental"@[0]);
    assert("st_gain"@[0] != "lt_gain"@[0]);
    assert("st_gain"@[0] != "rental"@[0]);
    assert("lt_gain"@[0] != "rental"@[0]);
}

/// A text names at most one category.
pub proof fn category_parse_is_exact(s: Seq<char>)
    ensures
        category_from(s) matches Some(c) ==> category_code(c) == s,
{
}

// ── Profile ──────────────────────────────────────────────────────────────────

/// One income entry in line-item mode; `amount` in micros.
#[derive(Debug, Clone)]
pub struct TaxLineItem {
    pub id: u128,
    pub entered_at: Timestamp,
    pub date: Option<Date>,
    pub category: LineItemCategory,
    pub amount: i64,
    pub description: String,
}

/// Personal settings used in line-item mode; amounts in micros.
#[derive(Debug, Clone, Copy, PartialEq, Eq, Structural)]
pub struct TaxSettings {
    pub filing_status: FilingStatus,
    pub deduction_choice: DeductionChoice,
    pub itemized_deductions: i64,
    pub carryforward_st_loss: i64,
    pub carryforward_lt_loss: i64,
}

impl Default for TaxSettings {
    fn default() -> (r: TaxSettings)
        ensures
            r == (TaxSettings {
                filing_status: FilingStatus::Single,
                deduction_choice: DeductionChoice::Standard,
                itemized_deductions: 0,
                carryforward_st_loss: 0,
                carryforward_lt_loss: 0,
            }),
    {
        TaxSettings {
            filing_status: FilingStatus::Single,
            deduction_choice: DeductionChoice::Standard,
            itemized_deductions: 0,
            carryforward_st_loss: 0,
            carryforward_lt_loss: 0,
        }
    }
}

/// One timestamped snapshot of the tax inputs for a year; amounts in micros.
/// `qualified_dividends` is a subset of `ordinary_dividends`; carried-forward
/// losses are positive numbers.
#[derive(Debug, Clone, Copy, PartialEq, Eq, Structural)]
pub struct TaxRevision {
    pub entered_at: Timestamp,
    pub filing_status: FilingStatus,
    pub w2_income: i128,
    pub interest_income: i128,
    pub ordinary_dividends: i128,
    pub qualified_dividends: i128,
    pub st_capital_gains: i128,
    pub lt_capital_gains: i128,
    pub rental_income: i128,
    pub deduction_choice: DeductionChoice,
    pub itemized_deductions: i128,
    pub carryforward_st_loss: i128,
    pub carryforward_lt_loss: i128,
}

/// A revision with every amount zero, single filing, standard deduction:
/// the inputs used before anything has been entered.
pub open spec fn is_blank_revision(r: TaxRevision) -> bool {
    &&& r.filing_status == FilingStatus::Single
    &&& r.deduction_choice == DeductionChoice::Standard
    &&& r.w2_income == 0 && r.interest_income == 0 && r.ordinary_dividends == 0
    &&& r.qualified_dividends == 0 && r.st_capital_gains == 0 && r.lt_capital_gains == 0
    &&& r.rental_income == 0 && r.itemized_deductions == 0
    &&& r.carryforward_st_loss == 0 && r.carryforward_lt_loss == 0
}

impl Default for TaxRevision {
    /// A blank revision stamped with the current time.
    fn default() -> (r: TaxRevision)
        ensures
            is_blank_revision(r),
    {
        TaxRevision {
            entered_at: utc_now(),
            filing_status: FilingStatus::Single,
            w2_income: 0,
            interest_income: 0,
            ordinary_dividends: 0,
            qualified_dividends: 0,
            st_capital_gains: 0,
            lt_capital_gains: 0,
            rental_income: 0,
            deduction_choice: DeductionChoice::Standard,
            itemized_deductions: 0,
            carryforward_st_loss: 0,
            carryforward_lt_loss: 0,
        }
    }
}

/// A user's tax profile for one year. `revisions` is append-only in snapshot
/// mode; in line-item mode it holds exactly one entry, the computed aggregate,
/// so the estimator always reads a consistent last revision.
#[derive(Debug, Clone)]
pub struct TaxProfile {
    pub id: u128,
    pub tax_year: u16,
    pub revisions: Vec<TaxRevision>,
    pub mode: TaxEntryMode,
    pub settings: TaxSettings,
    pub line_items: Vec<TaxLineItem>,
}

/// The sum of the amounts of the items in category `c`.
pub open spec fn category_total(items: Seq<TaxLineItem>, c: LineItemCategory) -> int
    decreases items.len(),
{
    if items.len() == 0 {
        0
    } else {
        category_total(items.drop_last(), c) + if items.last().category == c { items.last().amount as int } else { 0 }
    }
}

/// The revision line-item mode computes: each income field the total of its
/// category (ordinary dividends count qualified and non-qualified ones), the
/// personal fields from the settings. Only the time stamp is left open.
pub open spec fn aggregates_line_items(r: TaxRevision, settings: TaxSettings, items: Seq<TaxLineItem>) -> bool {
    &&& r.filing_status == settings.filing_status
    &&& r.deduction_choice == settings.deduction_choice
    &&& r.itemized_deductions == settings.itemized_deductions as int
    &&& r.carryforward_st_loss == settings.carryforward_st_loss as int
    &&& r.carryforward_lt_loss == settings.carryforward_lt_loss as int
    &&& r.w2_income == category_total(items, LineItemCategory::W2)
    &&& r.interest_income == category_total(items, LineItemCategory::Interest)
    &&& r.ordinary_dividends == category_total(items, LineItemCategory::NonQualDiv)
        + category_total(items, LineItemCategory::QualDiv)
    &&& r.qualified_dividends == category_total(items, LineItemCategory::QualDiv)
    &&& r.st_capital_gains == category_total(items, LineItemCategory::StGain)
    &&& r.lt_capital_gains == category_total(items, LineItemCategory::LtGain)
    &&& r.rental_income == category_total(items, LineItemCategory::Rental)
}

/// What [`TaxProfile::effective_revision`] gives, up to its time stamp: the
/// last revision in snapshot mode (a blank one when there is none), the
/// line-item aggregate in line-item mode.
pub open spec fn is_effective_revision(p: TaxProfile, r: TaxRevision) -> bool {
    match p.mode {
        TaxEntryMode::Snapshot => if p.revisions@.len() > 0 {
            r == p.revisions@.last()
        } else {
            is_blank_revision(r)
        },
        TaxEntryMode::LineItem => aggregates_line_items(r, p.settings, p.line_items@),
    }
}

pub open spec fn abs_int(v: int) -> int {
    if v < 0 { -v } else { v }
}

const I64_SPAN: i128 = 9_223_372_036_854_775_808;

proof fn lemma_two_totals(items: Seq<TaxLineItem>, a: LineItemCategory, b: LineItemCategory)
    requires
        a != b,
    ensures
        abs_int(category_total(items, a)) + abs_int(category_total(items, b)) <= items.len() * I64_SPAN,
    decreases items.len(),
{
    if items.len() > 0 {
        lemma_two_totals(items.drop_last(), a, b);
    }
}

/// The total of the amounts in category `c`.
fn category_sum(items: &Vec<TaxLineItem>, c: LineItemCategory) -> (r: i128)
    ensures
        r == category_total(items@, c),
{
    let mut total: i128 = 0;
    let mut i: usize = 0;
    while i < items.len()
        invariant
            i <= items.len(),
            total == category_total(items@.take(i as int), c),
            abs_int(total as int) <= i * I64_SPAN,
        decreases items.len() - i,
    {
        proof {
            assert(items@.take(i + 1).drop_last() == items@.take(i as int));
            assert(items@.take(i + 1).last() == items@[i as int]);
        }
        if items[i].category == c {
            total = total + items[i].amount as i128;
        }
        i += 1;
    }
    proof {
        assert(items@.take(items.len() as int) == items@);
    }
    total
}

impl TaxProfile {
    /// An empty snapshot-mode profile for `tax_year` under a fresh id.
    pub fn new(tax_year: u16) -> (r: TaxProfile)
        ensures
            r.tax_year == tax_year,
            r.revisions@.len() == 0,
            r.mode == TaxEntryMode::Snapshot,
            r.settings == (TaxSettings {
                filing_status: FilingStatus::Single,
                deduction_choice: DeductionChoice::Standard,
                itemized_deductions: 0,
                carryforward_st_loss: 0,
                carryforward_lt_loss: 0,
            }),
            r.line_items@.len() == 0,
    {
        TaxProfile {
            id: new_id(),
            tax_year,
            revisions: Vec::new(),
            mode: TaxEntryMode::Snapshot,
            settings: TaxSettings::default(),
            line_items: Vec::new(),
        }
    }

    /// The current (most recent) revision, if any.
    pub fn current(&self) -> (r: Option<&TaxRevision>)
        ensures
            self.revisions@.len() == 0 ==> r is None,
            self.revisions@.len() > 0 ==> r == Some(&self.revisions@.last()),
    {
        let n = self.revisions.len();
        if n == 0 {
            None
        } else {
            Some(&self.revisions[n - 1])
        }
    }

    /// The tax inputs in force, whatever the entry mode; in line-item mode
    /// the line items are summed by category and the personal settings merged
    /// in.
    pub fn effective_revision(&self) -> (r: TaxRevision)
        ensures
            is_effective_revision(*self, r),
    {
        match self.mode {
            TaxEntryMode::Snapshot => {
                let n = self.revisions.len();
                if n == 0 {
                    TaxRevision::default()
                } else {
                    self.revisions[n - 1]
                }
            },
            TaxEntryMode::LineItem => {
                let items = &self.line_items;
                let w2 = category_sum(items, LineItemCategory::W2);
                let interest = category_sum(items, LineItemCategory::Interest);
                let non_qual = category_sum(items, LineItemCategory::NonQualDiv);
                let qual = category_sum(items, LineItemCategory::QualDiv);
                let st = category_sum(items, LineItemCategory::StGain);
                let lt = category_sum(items, LineItemCategory::LtGain);
                let rental = category_sum(items, LineItemCategory::Rental);
                let count = items.len();
                proof {
                    lemma_two_totals(items@, LineItemCategory::NonQualDiv, LineItemCategory::QualDiv);
                    let n = items@.len();
                    assert(n == count);
                    assert(n * I64_SPAN <= 170_141_183_460_469_231_722_463_931_679_029_329_920) by (nonlinear_arith)
                        requires n <= 18_446_744_073_709_551_615, I64_SPAN == 9_223_372_036_854_775_808;
                }
                let s = self.settings;
                TaxRevision {
                    entered_at: utc_now(),
                    filing_status: s.filing_status,
                    deduction_choice: s.deduction_choice,
                    itemized_deductions: s.itemized_deductions as i128,
                    carryforward_st_loss: s.carryforward_st_loss as i128,
                    carryforward_lt_loss: s.carryforward_lt_loss as i128,
                    w2_income: w2,
                    interest_income: interest,
                    ordinary_dividends: non_qual + qual,
                    qualified_dividends: qual,
                    st_capital_gains: st,
                    lt_capital_gains: lt,
                    rental_income: rental,
                }
            },
        }
    }

    /// In line-item mode, replaces `revisions` by the single computed
    /// aggregate so the estimator reads the current inputs as the last
    /// revision; in snapshot mode nothing changes.
    pub fn sync_revisions(&mut self)
        ensures
            synced(*old(self), *final(self)),
    {
        if self.mode == TaxEntryMode::LineItem {
            let r = self.effective_revision();
            self.revisions = vec![r];
        }
    }
}

/// `after` is `before` with its revisions brought in line with its line
/// items: in line-item mode a single revision, the aggregate; in snapshot
/// mode nothing changed. Everything else is kept.
pub open spec fn synced(before: TaxProfile, after: TaxProfile) -> bool {
    &&& after.id == before.id
    &&& after.tax_year == before.tax_year
    &&& after.mode == before.mode
    &&& after.settings == before.settings
    &&& after.line_items@ == before.line_items@
    &&& before.mode == TaxEntryMode::Snapshot ==> after.revisions@ == before.revisions@
    &&& before.mode == TaxEntryMode::LineItem ==> {
        &&& after.revisions@.len() == 1
        &&& aggregates_line_items(after.revisions@[0], before.settings, before.line_items@)
    }
}

/// Short- and long-term totals of realised gains, in micros.
#[derive(Debug, Clone, Copy, PartialEq, Eq, Structural)]
pub struct TradeGains {
    pub st: i128,
    pub lt: i128,
}

impl Default for TradeGains {
    fn default() -> (r: TradeGains)
        ensures
            r == (TradeGains { st: 0, lt: 0 }),
    {
        TradeGains { st: 0, lt: 0 }
    }
}

} // verus!
