//! CSV → lots: splitting broker exports, mapping columns to draft rows, and
//! validating each row before it becomes a trade.
//!
//! Broker exports are messy in predictable ways: quoted fields containing
//! commas, thousands separators inside numbers, currency symbols,
//! parenthesised negatives, and several date orderings. Everything here is
//! forgiving on input and explicit about what it could not read, so the
//! review step can show exactly which cells need a human.

use vstd::prelude::*;
use crate::text::{chars_of, contains, contains_seq, is_blank, is_ws, is_whitespace, seq_eq, to_lower, to_upper, trim, trimmed, unicode_lower, unicode_upper};
use crate::money::{abs, decimal_text, fixed4_text, fmt_fixed4, digits_text, div_round, fmt_decimal, parse_money, parse_quantity, parsed_money, push_digits, round_half_away, string_from};
use crate::calendar::{import_date, parse_date, Date};
use vstd::string::StringExecFns;

verus! {

// ── CSV splitting ────────────────────────────────────────────────────────────

/// Scanner state after some prefix of the text: finished rows, the row in
/// progress, the field in progress, whether inside quotes, and whether a quote
/// inside a quoted field awaits its partner.
pub type CsvScan = (Seq<Seq<Seq<char>>>, Seq<Seq<char>>, Seq<char>, bool, bool);

pub open spec fn csv_start() -> CsvScan {
    (Seq::empty(), Seq::empty(), Seq::empty(), false, false)
}

/// One character outside quotes: `"` opens quoting, `,` ends the field, `\n`
/// ends the row, `\r` is dropped, anything else joins the field.
pub open spec fn csv_plain(st: CsvScan, c: char) -> CsvScan {
    let (rows, row, field, _q, _p) = st;
    if c == '"' {
        (rows, row, field, true, false)
    } else if c == ',' {
        (rows, row.push(field), Seq::empty(), false, false)
    } else if c == '\r' {
        (rows, row, field, false, false)
    } else if c == '\n' {
        (rows.push(row.push(field)), Seq::empty(), Seq::empty(), false, false)
    } else {
        (rows, row, field.push(c), false, false)
    }
}

/// One character of RFC-4180 CSV: inside quotes everything is literal except
/// `"`, and `""` stands for one literal quote.
pub open spec fn csv_step(st: CsvScan, c: char) -> CsvScan {
    let (rows, row, field, q, p) = st;
    if q && !p {
        if c == '"' {
            (rows, row, field, true, true)
        } else {
            (rows, row, field.push(c), true, false)
        }
    } else if q && p {
        if c == '"' {
            (rows, row, field.push('"'), true, false)
        } else {
            csv_plain((rows, row, field, false, false), c)
        }
    } else {
        csv_plain(st, c)
    }
}

pub open spec fn csv_scan(s: Seq<char>) -> CsvScan
    decreases s.len(),
{
    if s.len() == 0 {
        csv_start()
    } else {
        csv_step(csv_scan(s.drop_last()), s.last())
    }
}

/// The rows once the text ends: a last row without a newline still counts.
pub open spec fn csv_rows(s: Seq<char>) -> Seq<Seq<Seq<char>>> {
    let (rows, row, field, _q, _p) = csv_scan(s);
    if field.len() > 0 || row.len() > 0 {
        rows.push(row.push(field))
    } else {
        rows
    }
}

/// A row with at least one field that is not blank.
pub open spec fn has_content(r: Seq<Seq<char>>) -> bool {
    exists|j: int| 0 <= j < r.len() && !is_blank(#[trigger] r[j])
}

pub open spec fn content_rows(rows: Seq<Seq<Seq<char>>>) -> Seq<Seq<Seq<char>>>
    decreases rows.len(),
{
    if rows.len() == 0 {
        rows
    } else if has_content(rows.last()) {
        content_rows(rows.drop_last()).push(rows.last())
    } else {
        content_rows(rows.drop_last())
    }
}

/// What [`split_csv`] returns for `s`.
pub open spec fn csv_table(s: Seq<char>) -> Seq<Seq<Seq<char>>> {
    content_rows(csv_rows(s))
}

pub(crate) fn blank_str(s: &String) -> (r: bool)
    ensures
        r == is_blank(s@),
{
    let mut all = true;
    for c in it: s.as_str().chars()
        invariant
            it.seq() == s@,
            all == (forall|k: int| 0 <= k < it.index() ==> is_ws(#[trigger] s@[k])),
    {
        if !is_whitespace(c) {
            all = false;
        }
    }
    all
}

fn row_has_content(r: &Vec<String>) -> (b: bool)
    ensures
        b == has_content(r.deep_view()),
{
    let mut i: usize = 0;
    while i < r.len()
        invariant
            i <= r.len(),
            forall|j: int| 0 <= j < i ==> is_blank(#[trigger] r.deep_view()[j]),
        decreases r.len() - i,
    {
        if !blank_str(&r[i]) {
            assert(!is_blank(r.deep_view()[i as int]));
            return true;
        }
        i += 1;
    }
    false
}

fn push_field(row: &mut Vec<String>, f: String)
    ensures
        final(row).deep_view() == old(row).deep_view().push(f@),
{
    row.push(f);
    assert(row.deep_view() =~= old(row).deep_view().push(f@));
}

fn push_row(rows: &mut Vec<Vec<String>>, r: Vec<String>)
    ensures
        final(rows).deep_view() == old(rows).deep_view().push(r.deep_view()),
{
    rows.push(r);
    assert(rows.deep_view() =~= old(rows).deep_view().push(r.deep_view()));
}

fn take_first_row(rows: &mut Vec<Vec<String>>) -> (r: Vec<String>)
    requires
        old(rows).len() > 0,
    ensures
        r.deep_view() == old(rows).deep_view()[0],
        final(rows).deep_view() == old(rows).deep_view().drop_first(),
        final(rows).len() == old(rows).len() - 1,
{
    let r = rows.remove(0);
    assert(rows.deep_view() =~= old(rows).deep_view().drop_first());
    r
}

proof fn lemma_content_rows_push(rows: Seq<Seq<Seq<char>>>, r: Seq<Seq<char>>)
    ensures
        content_rows(rows.push(r)) == if has_content(r) { content_rows(rows).push(r) } else { content_rows(rows) },
{
    assert(rows.push(r).drop_last() == rows);
}

/// `str::split(sep)`: the pieces between separators, at least one.
pub open spec fn split_on(s: Seq<char>, sep: char) -> Seq<Seq<char>>
    decreases s.len(),
{
    if s.len() == 0 {
        seq![Seq::<char>::empty()]
    } else {
        let p = split_on(s.drop_last(), sep);
        if s.last() == sep {
            p.push(Seq::empty())
        } else {
            p.update(p.len() - 1, p.last().push(s.last()))
        }
    }
}

/// Text split plainly: lines on `\n`, fields on `,`, rows without content
/// dropped.
pub open spec fn plain_table(s: Seq<char>) -> Seq<Seq<Seq<char>>> {
    content_rows(split_on(s, '\n').map_values(|l: Seq<char>| split_on(l, ',')))
}

proof fn lemma_split_on_nonempty(s: Seq<char>, sep: char)
    ensures
        split_on(s, sep).len() >= 1,
    decreases s.len(),
{
    if s.len() > 0 {
        lemma_split_on_nonempty(s.drop_last(), sep);
    }
}

proof fn lemma_plain_scan(s: Seq<char>)
    requires
        forall|i: int| 0 <= i < s.len() ==> s[i] != '"' && s[i] != '\r',
    ensures
        ({
            let (rows, row, field, q, p) = csv_scan(s);
            let lines = split_on(s, '\n');
            &&& !q && !p
            &&& lines.len() >= 1
            &&& rows == lines.drop_last().map_values(|l: Seq<char>| split_on(l, ','))
            &&& row.push(field) == split_on(lines.last(), ',')
        }),
    decreases s.len(),
{
    lemma_split_on_nonempty(s, '\n');
    if s.len() > 0 {
        let d = s.drop_last();
        let c = s.last();
        assert forall|i: int| 0 <= i < d.len() implies d[i] != '"' && d[i] != '\r' by {
            assert(d[i] == s[i]);
        }
        lemma_plain_scan(d);
        lemma_split_on_nonempty(d, '\n');
        assert(c == s[s.len() - 1]);
        let (rows, row, field, q, p) = csv_scan(d);
        let lines = split_on(d, '\n');
        let f = |l: Seq<char>| split_on(l, ',');
        if c == '\n' {
            let nl = lines.push(Seq::<char>::empty());
            assert(split_on(s, '\n') == nl);
            assert(nl.drop_last() == lines);
            assert(lines.map_values(f) == lines.drop_last().map_values(f).push(split_on(lines.last(), ','))) by {
                assert(lines.drop_last().push(lines.last()) == lines);
            }
            assert(Seq::<Seq<char>>::empty().push(Seq::<char>::empty()) == split_on(Seq::<char>::empty(), ','));
        } else if c == ',' {
            let nl = lines.update(lines.len() - 1, lines.last().push(c));
            assert(split_on(s, '\n') == nl);
            assert(nl.drop_last() == lines.drop_last());
            assert(nl.last() == lines.last().push(c));
            assert(lines.last().push(c).drop_last() == lines.last());
            assert(split_on(lines.last().push(c), ',') == split_on(lines.last(), ',').push(Seq::empty()));
        } else {
            let nl = lines.update(lines.len() - 1, lines.last().push(c));
            assert(split_on(s, '\n') == nl);
            assert(nl.drop_last() == lines.drop_last());
            assert(nl.last() == lines.last().push(c));
            assert(lines.last().push(c).drop_last() == lines.last());
            let pf = split_on(lines.last(), ',');
            lemma_split_on_nonempty(lines.last(), ',');
            assert(split_on(lines.last().push(c), ',') == pf.update(pf.len() - 1, pf.last().push(c)));
            assert(row.push(field.push(c)) == pf.update(pf.len() - 1, pf.last().push(c)));
        }
    }
}

/// Text without quotes or carriage returns splits as plain text does: lines
/// on newlines, fields on commas, blank rows dropped.
pub proof fn quote_free_text_splits_plainly(s: Seq<char>)
    requires
        forall|i: int| 0 <= i < s.len() ==> s[i] != '"' && s[i] != '\r',
    ensures
        csv_table(s) == plain_table(s),
{
    lemma_plain_scan(s);
    let (rows, row, field, q, p) = csv_scan(s);
    let lines = split_on(s, '\n');
    let f = |l: Seq<char>| split_on(l, ',');
    assert(lines.map_values(f) == rows.push(row.push(field))) by {
        assert(lines.drop_last().push(lines.last()) == lines);
    }
    if !(field.len() > 0 || row.len() > 0) {
        lemma_content_rows_push(rows, row.push(field));
        assert(row.push(field) == seq![Seq::<char>::empty()]);
        assert(is_blank(row.push(field)[0]));
        assert(!has_content(row.push(field)));
    }
}

/// Splits CSV text into rows of fields, honouring RFC-4180 quoting: fields
/// may be wrapped in `"`, a quoted field may contain commas and newlines, and
/// `""` inside a quoted field is a literal quote. LF and CRLF line endings
/// both work.
///
/// Rows whose every field is blank are dropped, so trailing newlines and the
/// blank lines brokers pad exports with don't become phantom lots.
pub fn split_csv(text: &str) -> (r: Vec<Vec<String>>)
    ensures
        r.deep_view() == csv_table(text@),
        forall|i: int| 0 <= i < r.len() ==> has_content(#[trigger] r.deep_view()[i]),
{
    let mut rows: Vec<Vec<String>> = Vec::new();
    let mut row: Vec<String> = Vec::new();
    let mut field = String::new();
    let mut in_quotes = false;
    let mut pending = false;
    for c in it: text.chars()
        invariant
            it.seq() == text@,
            (rows.deep_view(), row.deep_view(), field@, in_quotes, pending) == csv_scan(it.seq().take(it.index() as int)),
    {
        proof {
            assert(it.seq().take(it.index() + 1).drop_last() == it.seq().take(it.index() as int));
        }
        let plain: bool;
        if in_quotes && !pending {
            plain = false;
            if c == '"' {
                pending = true;
            } else {
                field.push(c);
            }
        } else if in_quotes && pending {
            if c == '"' {
                plain = false;
                field.push('"');
                pending = false;
            } else {
                plain = true;
                in_quotes = false;
                pending = false;
            }
        } else {
            plain = true;
        }
        if plain {
            if c == '"' {
                in_quotes = true;
            } else if c == ',' {
                push_field(&mut row, field);
                field = String::new();
            } else if c == '\r' {
            } else if c == '\n' {
                push_field(&mut row, field);
                field = String::new();
                push_row(&mut rows, row);
                row = Vec::new();
            } else {
                field.push(c);
            }
        }
    }
    proof {
        assert(text@.take(text@.len() as int) == text@);
    }
    assert(row.deep_view().len() == row.len());
    if !field.as_str().is_empty() || row.len() > 0 {
        push_field(&mut row, field);
        push_row(&mut rows, row);
    }
    let ghost all = rows.deep_view();
    assert(all.len() == rows.len());
    assert(all == csv_rows(text@));
    let mut out: Vec<Vec<String>> = Vec::new();
    let mut i: usize = 0;
    while rows.len() > 0
        invariant
            rows.deep_view() == all.skip(i as int),
            rows.len() + i == all.len(),
            all.len() <= usize::MAX,
            out.deep_view() == content_rows(all.take(i as int)),
            forall|k: int| 0 <= k < out.len() ==> has_content(#[trigger] out.deep_view()[k]),
        decreases rows.len(),
    {
        let r = take_first_row(&mut rows);
        proof {
            assert(all.take(i + 1) == all.take(i as int).push(all[i as int]));
            lemma_content_rows_push(all.take(i as int), all[i as int]);
            assert(r.deep_view() == all[i as int]);
            assert(rows.deep_view() == all.skip(i + 1));
        }
        let ghost rv = r.deep_view();
        if row_has_content(&r) {
            let ghost before = out.deep_view();
            push_row(&mut out, r);
            assert(out.deep_view() == before.push(rv));
            assert forall|k: int| 0 <= k < out.len() implies has_content(#[trigger] out.deep_view()[k]) by {
                if k < before.len() {
                    assert(out.deep_view()[k] == before[k]);
                }
            }
        }
        i += 1;
    }
    proof {
        assert(all.take(i as int) == all);
    }
    out
}

// ── Basis ────────────────────────────────────────────────────────────────────

/// Whether the mapped cost column holds one share's price or the whole lot's
/// cost.
#[derive(Debug, Clone, Copy, PartialEq, Eq, Structural)]
pub enum BasisKind {
    PerShare,
    TotalCost,
}

/// What [`BasisKind::per_share`] gives for a column value and share count,
/// both in micros.
pub open spec fn per_share_micros(kind: BasisKind, value: int, quantity: int) -> Option<int> {
    match kind {
        BasisKind::PerShare => Some(value),
        BasisKind::TotalCost => if quantity == 0 { None } else { Some(div_round(value * 1_000_000, quantity)) },
    }
}

impl BasisKind {
    /// Per-share basis in micros, given the raw column value and the lot's
    /// share count (both in micros). A total cost is divided through by the
    /// share count, rounded to the nearest micro; there is none for zero shares.
    pub fn per_share(self, value: i64, quantity: i64) -> (r: Option<i128>)
        ensures
            r matches Some(p) ==> per_share_micros(self, value as int, quantity as int) == Some(p as int),
            r is None <==> per_share_micros(self, value as int, quantity as int) is None,
    {
        match self {
            BasisKind::PerShare => Some(value as i128),
            BasisKind::TotalCost => {
                if quantity == 0 {
                    None
                } else {
                    Some(div_round_exec(value as i128 * 1_000_000, quantity as i128))
                }
            },
        }
    }
}

/// [`div_round`] on machine integers.
pub fn div_round_exec(n: i128, d: i128) -> (r: i128)
    requires
        d != 0,
        -100_000_000_000_000_000_000_000_000_000 <= n <= 100_000_000_000_000_000_000_000_000_000,
        -100_000_000_000_000_000_000_000_000_000 <= d <= 100_000_000_000_000_000_000_000_000_000,
    ensures
        r == div_round(n as int, d as int),
{
    let an: u128 = if n < 0 { (0 - n) as u128 } else { n as u128 };
    let ad: u128 = if d < 0 { (0 - d) as u128 } else { d as u128 };
    let q = an / ad;
    let rem = an % ad;
    let m: u128 = if 2 * rem > ad || (2 * rem == ad && q % 2 == 1) { q + 1 } else { q };
    assert(q <= an) by (nonlinear_arith)
        requires q == an / ad, ad >= 1;
    if (n < 0) != (d < 0) {
        0 - (m as i128)
    } else {
        m as i128
    }
}

// ── Draft lots ───────────────────────────────────────────────────────────────

/// One editable row in the review step. Fields stay as text so a cell the
/// parser choked on can be fixed without the value being destroyed first.
#[derive(Debug, Clone, PartialEq, Eq)]
pub struct DraftLot {
    pub symbol: String,
    pub date: String,
    pub quantity: String,
    /// Per-share by the time it lands here; the mapping step divides a
    /// total-cost column through by quantity.
    pub price: String,
}

impl DraftLot {
    /// The row's four cells as text.
    pub open spec fn texts(self) -> (Seq<char>, Seq<char>, Seq<char>, Seq<char>) {
        (self.symbol@, self.date@, self.quantity@, self.price@)
    }
}

/// What's wrong with a row, in words fit to show the user.
#[derive(Debug, Clone, PartialEq, Eq)]
pub struct LotIssues {
    pub symbol: Option<&'static str>,
    pub date: Option<&'static str>,
    pub quantity: Option<&'static str>,
    pub price: Option<&'static str>,
    /// Non-blocking: the row imports, but something was changed to make it fit.
    pub warning: Option<String>,
}

/// The text of an optional message.
pub open spec fn message(o: Option<&'static str>) -> Option<Seq<char>> {
    match o {
        Some(m) => Some(m@),
        None => None,
    }
}

pub open spec fn warning_text(o: Option<String>) -> Option<Seq<char>> {
    match o {
        Some(m) => Some(m@),
        None => None,
    }
}

/// Whether a row with these issues is held back from import.
pub open spec fn is_blocking(i: LotIssues) -> bool {
    i.symbol is Some || i.date is Some || i.quantity is Some || i.price is Some
}

impl LotIssues {
    /// A row with any field-level problem cannot be imported.
    pub fn blocking(&self) -> (r: bool)
        ensures
            r == is_blocking(*self),
    {
        self.symbol.is_some() || self.date.is_some() || self.quantity.is_some() || self.price.is_some()
    }
}

/// An integer as decimal text, with a leading `-` when negative.
pub open spec fn int_text(n: int) -> Seq<char> {
    if n < 0 { seq!['-'] + digits_text((-n) as nat) } else { digits_text(n as nat) }
}

/// Distance in micros from `q` micros to the nearest whole unit.
pub open spec fn distance_to_whole(q: int) -> int {
    let f = abs(q) % 1_000_000;
    if f <= 500_000 { f } else { 1_000_000 - f }
}

pub open spec fn symbol_issue(d: DraftLot) -> Option<Seq<char>> {
    if is_blank(d.symbol@) { Some("needs a ticker"@) } else { None }
}

pub open spec fn date_issue(d: DraftLot) -> Option<Seq<char>> {
    if import_date(d.date@) is Some { None } else { Some("unreadable date"@) }
}

pub open spec fn quantity_issue(d: DraftLot) -> Option<Seq<char>> {
    match parsed_money(d.quantity@) {
        Some(q) => if round_half_away(q as int, 1_000_000) != 0 { None } else { Some("can't be zero"@) },
        None => Some("not a number"@),
    }
}

pub open spec fn price_issue(d: DraftLot) -> Option<Seq<char>> {
    match parsed_money(d.price@) {
        Some(p) => if p >= 0 { None } else { Some("can't be negative"@) },
        None => Some("not a number"@),
    }
}

/// Share counts must be whole to become a trade. Rounding is nearly always
/// right (brokers print `100.0000`) but must never be silent: a count more
/// than a millionth from a whole number earns a warning.
pub open spec fn quantity_warning(d: DraftLot) -> Option<Seq<char>> {
    match parsed_money(d.quantity@) {
        Some(q) => if distance_to_whole(q as int) > 1 {
            Some(decimal_text(q as int) + " shares rounded to "@ + int_text(round_half_away(q as int, 1_000_000)))
        } else {
            None
        },
        None => None,
    }
}

fn round_whole(q: i64) -> (r: i64)
    ensures
        r == round_half_away(q as int, 1_000_000),
{
    let m: i128 = if q < 0 { 0 - (q as i128) } else { q as i128 };
    let w = (m + 500_000) / 1_000_000;
    if q < 0 { (0 - w) as i64 } else { w as i64 }
}

fn int_string(n: i64) -> (r: String)
    ensures
        r@ == int_text(n as int),
{
    let mut out: Vec<char> = Vec::new();
    if n < 0 {
        out.push('-');
    }
    let ghost sign = out@;
    let m: u128 = if n < 0 { (0 - (n as i128)) as u128 } else { n as u128 };
    push_digits(&mut out, m);
    proof {
        if n < 0 {
            assert(sign == seq!['-']);
        } else {
            assert(sign == Seq::<char>::empty());
            assert(out@ == digits_text(m as nat));
        }
    }
    string_from(&out)
}

impl DraftLot {
    /// A row with every cell empty.
    pub fn blank() -> (r: DraftLot)
        ensures
            r.symbol@ == Seq::<char>::empty(),
            r.date@ == Seq::<char>::empty(),
            r.quantity@ == Seq::<char>::empty(),
            r.price@ == Seq::<char>::empty(),
    {
        DraftLot { symbol: String::new(), date: String::new(), quantity: String::new(), price: String::new() }
    }

    /// The row's problems: a blank ticker, an unreadable date, a share count
    /// that is not a number or rounds to zero, a price that is not a number or
    /// is negative; plus a warning when the share count had to be rounded.
    pub fn issues(&self) -> (r: LotIssues)
        ensures
            message(r.symbol) == symbol_issue(*self),
            message(r.date) == date_issue(*self),
            message(r.quantity) == quantity_issue(*self),
            message(r.price) == price_issue(*self),
            warning_text(r.warning) == quantity_warning(*self),
    {
        let qty = parse_quantity(self.quantity.as_str());
        let mut warning: Option<String> = None;
        if let Some(q) = qty {
            let m: i128 = if q < 0 { 0 - (q as i128) } else { q as i128 };
            let f = m % 1_000_000;
            let dist = if f <= 500_000 { f } else { 1_000_000 - f };
            if dist > 1 {
                let mut w = fmt_decimal(q);
                w.append(" shares rounded to ");
                let n = int_string(round_whole(q));
                w.append(n.as_str());
                proof {
                    reveal_strlit(" shares rounded to ");
                }
                warning = Some(w);
            }
        }
        let symbol = if blank_str(&self.symbol) { Some("needs a ticker") } else { None };
        let date = match parse_date(self.date.as_str()) {
            Some(_) => None,
            None => Some("unreadable date"),
        };
        let quantity = match qty {
            Some(q) => if round_whole(q) != 0 { None } else { Some("can't be zero") },
            None => Some("not a number"),
        };
        let price = match parse_money(self.price.as_str()) {
            Some(p) => if p >= 0 { None } else { Some("can't be negative") },
            None => Some("not a number"),
        };
        LotIssues { symbol, date, quantity, price, warning }
    }
}

/// `round(q)` clamped into an `i32`, as a saturating cast does.
pub open spec fn clamp_i32(n: int) -> int {
    if n < i32::MIN { i32::MIN as int } else if n > i32::MAX { i32::MAX as int } else { n }
}

impl DraftLot {
    /// `(symbol, date, shares, per-share price in micros)` when the row is
    /// complete: the ticker trimmed and uppercased, the share count rounded to
    /// the nearest whole number (halves away from zero, clamped to `i32`).
    pub fn resolved(&self) -> (r: Option<(String, Date, i32, i64)>)
        ensures
            r is Some <==> !is_blocking_lot(*self),
            r matches Some(t) ==> resolution(*self) == Some((t.0@, t.1, t.2, t.3)),
            r matches Some(t) ==> {
                &&& t.0@ == unicode_upper(trim(self.symbol@))
                &&& import_date(self.date@) == Some(t.1)
                &&& parsed_money(self.quantity@) matches Some(q)
                    && t.2 as int == clamp_i32(round_half_away(q as int, 1_000_000))
                &&& parsed_money(self.price@) == Some(t.3)
            },
    {
        let iss = self.issues();
        if iss.blocking() {
            return None;
        }
        let sym = trimmed(self.symbol.as_str());
        let up = to_upper(sym.as_str());
        let d = match parse_date(self.date.as_str()) {
            Some(d) => d,
            None => return None,
        };
        let q = match parse_quantity(self.quantity.as_str()) {
            Some(q) => q,
            None => return None,
        };
        let p = match parse_money(self.price.as_str()) {
            Some(p) => p,
            None => return None,
        };
        let w = round_whole(q);
        let n: i32 = if w < i32::MIN as i64 { i32::MIN } else if w > i32::MAX as i64 { i32::MAX } else { w as i32 };
        Some((up, d, n, p))
    }
}

/// The parcel a complete row stands for: ticker, date, whole shares and
/// per-share price (see [`DraftLot::resolved`]).
pub open spec fn resolution(l: DraftLot) -> Option<(Seq<char>, Date, i32, i64)> {
    if is_blocking_lot(l) {
        None
    } else {
        Some((
            unicode_upper(trim(l.symbol@)),
            import_date(l.date@)->Some_0,
            clamp_i32(round_half_away(parsed_money(l.quantity@)->Some_0 as int, 1_000_000)) as i32,
            parsed_money(l.price@)->Some_0,
        ))
    }
}

/// Whether the row's issues block its import.
pub open spec fn is_blocking_lot(d: DraftLot) -> bool {
    symbol_issue(d) is Some || date_issue(d) is Some || quantity_issue(d) is Some || price_issue(d) is Some
}

/// The trimmed text of field `i` of a row, or nothing when the row is short.
pub open spec fn cell(r: Seq<Seq<char>>, i: int) -> Seq<char> {
    if 0 <= i < r.len() { trim(r[i]) } else { Seq::empty() }
}

/// The price cell of a draft: as written for a per-share column; for a
/// total-cost column, divided through by the share count and printed to four
/// places when both cells read as numbers and the count is not zero.
pub open spec fn draft_price(basis: BasisKind, price_raw: Seq<char>, qty_raw: Seq<char>) -> Seq<char> {
    match basis {
        BasisKind::PerShare => price_raw,
        BasisKind::TotalCost => match (parsed_money(price_raw), parsed_money(qty_raw)) {
            (Some(v), Some(q)) => match per_share_micros(basis, v as int, q as int) {
                Some(p) => fixed4_text(p),
                None => price_raw,
            },
            _ => price_raw,
        },
    }
}

/// The draft built from one body row.
pub open spec fn draft_texts(
    r: Seq<Seq<char>>,
    date_col: int,
    qty_col: int,
    price_col: int,
    symbol_col: Option<usize>,
    fallback_symbol: Seq<char>,
    basis: BasisKind,
) -> (Seq<char>, Seq<char>, Seq<char>, Seq<char>) {
    let qty_raw = cell(r, qty_col);
    let price_raw = cell(r, price_col);
    let symbol = match symbol_col {
        Some(i) => unicode_upper(cell(r, i as int)),
        None => unicode_upper(trim(fallback_symbol)),
    };
    (symbol, cell(r, date_col), qty_raw, draft_price(basis, price_raw, qty_raw))
}

/// The rows that hold lots: all of them, or all but the first when it is a
/// header.
pub open spec fn body_rows(rows: Seq<Seq<Seq<char>>>, skip_header: bool) -> Seq<Seq<Seq<char>>> {
    if skip_header && rows.len() > 0 { rows.drop_first() } else { rows }
}

fn cell_exec(r: &Vec<String>, i: usize) -> (c: String)
    ensures
        c@ == cell(r.deep_view(), i as int),
{
    if i < r.len() {
        trimmed(r[i].as_str())
    } else {
        String::new()
    }
}

/// Builds draft rows from split CSV data under a chosen column mapping, one
/// per body row. `symbol_col` of `None` means every row takes
/// `fallback_symbol`.
pub fn draft_lots(
    rows: &[Vec<String>],
    skip_header: bool,
    date_col: usize,
    qty_col: usize,
    price_col: usize,
    symbol_col: Option<usize>,
    fallback_symbol: &str,
    basis: BasisKind,
) -> (r: Vec<DraftLot>)
    ensures
        r.len() == body_rows(rows.deep_view(), skip_header).len(),
        forall|k: int| 0 <= k < r.len() ==> #[trigger] r[k].texts() == draft_texts(
            body_rows(rows.deep_view(), skip_header)[k],
            date_col as int,
            qty_col as int,
            price_col as int,
            symbol_col,
            fallback_symbol@,
            basis,
        ),
{
    let ghost body = body_rows(rows.deep_view(), skip_header);
    let first: usize = if skip_header && rows.len() > 0 { 1 } else { 0 };
    let mut out: Vec<DraftLot> = Vec::new();
    let mut i = first;
    while i < rows.len()
        invariant
            first <= i <= rows.len(),
            first == (if skip_header && rows.len() > 0 { 1usize } else { 0usize }),
            body == body_rows(rows.deep_view(), skip_header),
            out.len() == i - first,
            forall|k: int| 0 <= k < out.len() ==> #[trigger] out[k].texts() == draft_texts(
                body[k], date_col as int, qty_col as int, price_col as int, symbol_col, fallback_symbol@, basis),
        decreases rows.len() - i,
    {
        let r = &rows[i];
        proof {
            assert(body[i - first] == rows.deep_view()[i as int]);
            assert(r.deep_view() == rows.deep_view()[i as int]);
        }
        let qty_raw = cell_exec(r, qty_col);
        let price_raw = cell_exec(r, price_col);
        let price = match basis {
            BasisKind::PerShare => price_raw,
            BasisKind::TotalCost => {
                match (parse_money(price_raw.as_str()), parse_quantity(qty_raw.as_str())) {
                    (Some(v), Some(q)) => match basis.per_share(v, q) {
                        Some(p) => fmt_fixed4(p),
                        None => price_raw,
                    },
                    _ => price_raw,
                }
            },
        };
        let symbol = match symbol_col {
            Some(j) => {
                let c = cell_exec(r, j);
                to_upper(c.as_str())
            },
            None => {
                let t = trimmed(fallback_symbol);
                to_upper(t.as_str())
            },
        };
        let date = cell_exec(r, date_col);
        let lot = DraftLot { symbol, date, quantity: qty_raw, price };
        out.push(lot);
        i += 1;
    }
    out
}

// ── Column guessing ──────────────────────────────────────────────────────────

/// The column a mapped value comes from.
#[derive(Debug, Clone, Copy, PartialEq, Eq, Structural)]
pub enum Role {
    Date,
    Quantity,
    Price,
    Symbol,
}

/// Header words that suggest each role, most specific first.
pub open spec fn needles(role: Role) -> Seq<Seq<char>> {
    match role {
        Role::Date => seq!["date acquired"@, "acquired"@, "open date"@, "trade date"@, "purchase date"@, "date"@],
        Role::Quantity => seq!["quantity"@, "shares"@, "qty"@, "amount"@, "units"@],
        Role::Price => seq!["cost per share"@, "price per share"@, "unit cost"@, "cost basis"@, "basis"@, "price"@, "cost"@],
        Role::Symbol => seq!["symbol"@, "ticker"@, "security"@],
    }
}

fn needle_count(role: Role) -> (n: usize)
    ensures
        n == needles(role).len(),
{
    match role {
        Role::Date => 6,
        Role::Quantity => 5,
        Role::Price => 7,
        Role::Symbol => 3,
    }
}

fn needle(role: Role, j: usize) -> (r: &'static str)
    requires
        j < needles(role).len(),
    ensures
        r@ == needles(role)[j as int],
{
    match role {
        Role::Date => if j == 0 { "date acquired" } else if j == 1 { "acquired" } else if j == 2 { "open date" }
            else if j == 3 { "trade date" } else if j == 4 { "purchase date" } else { "date" },
        Role::Quantity => if j == 0 { "quantity" } else if j == 1 { "shares" } else if j == 2 { "qty" }
            else if j == 3 { "amount" } else { "units" },
        Role::Price => if j == 0 { "cost per share" } else if j == 1 { "price per share" } else if j == 2 { "unit cost" }
            else if j == 3 { "cost basis" } else if j == 4 { "basis" } else if j == 5 { "price" } else { "cost" },
        Role::Symbol => if j == 0 { "symbol" } else if j == 1 { "ticker" } else { "security" },
    }
}

/// A header matches a needle: equal to it, or (second pass) containing it.
pub open spec fn header_matches(h: Seq<char>, n: Seq<char>, exact: bool) -> bool {
    if exact { h == n } else { contains_seq(h, n) }
}

/// The first header from `i` on that matches `n`.
pub open spec fn first_match_from(lower: Seq<Seq<char>>, n: Seq<char>, exact: bool, i: int) -> Option<int>
    decreases lower.len() - i,
{
    if i < 0 || i >= lower.len() {
        None
    } else if header_matches(lower[i], n, exact) {
        Some(i)
    } else {
        first_match_from(lower, n, exact, i + 1)
    }
}

/// The first needle from `j` on that some header matches, and where.
pub open spec fn needle_match_from(lower: Seq<Seq<char>>, ns: Seq<Seq<char>>, exact: bool, j: int) -> Option<int>
    decreases ns.len() - j,
{
    if j < 0 || j >= ns.len() {
        None
    } else {
        match first_match_from(lower, ns[j], exact, 0) {
            Some(i) => Some(i),
            None => needle_match_from(lower, ns, exact, j + 1),
        }
    }
}

/// Headers as compared: trimmed and lowercased.
pub open spec fn lowered_headers(headers: Seq<Seq<char>>) -> Seq<Seq<char>> {
    Seq::new(headers.len(), |i: int| unicode_lower(trim(headers[i])))
}

/// What [`guess_column`] returns: exact matches of any needle win over
/// substring matches, so "cost basis" doesn't lose to "cost".
pub open spec fn guessed_column(headers: Seq<Seq<char>>, role: Role) -> Option<int> {
    let lower = lowered_headers(headers);
    match needle_match_from(lower, needles(role), true, 0) {
        Some(i) => Some(i),
        None => needle_match_from(lower, needles(role), false, 0),
    }
}

proof fn lemma_first_match_bound(lower: Seq<Seq<char>>, n: Seq<char>, exact: bool, i: int)
    ensures
        first_match_from(lower, n, exact, i) matches Some(k) ==> 0 <= k < lower.len(),
    decreases lower.len() - i,
{
    if 0 <= i < lower.len() && !header_matches(lower[i], n, exact) {
        lemma_first_match_bound(lower, n, exact, i + 1);
    }
}

fn find_header(lower: &Vec<Vec<char>>, n: &Vec<char>, exact: bool) -> (r: Option<usize>)
    ensures
        r matches Some(k) ==> first_match_from(lower.deep_view(), n@, exact, 0) == Some(k as int),
        r is None ==> first_match_from(lower.deep_view(), n@, exact, 0) is None,
{
    let ghost lv = lower.deep_view();
    let mut i: usize = 0;
    while i < lower.len()
        invariant
            i <= lower.len(),
            lv == lower.deep_view(),
            first_match_from(lv, n@, exact, 0) == first_match_from(lv, n@, exact, i as int),
        decreases lower.len() - i,
    {
        assert(lv[i as int] == lower[i as int]@);
        let m = if exact { seq_eq(&lower[i], n) } else { contains(&lower[i], n) };
        if m {
            return Some(i);
        }
        i += 1;
    }
    None
}

/// Best-guess column index for a role, from the header text. Saves the
/// mapping step entirely on well-formed exports; it can always be overridden.
pub fn guess_column(headers: &[String], role: Role) -> (r: Option<usize>)
    ensures
        r matches Some(k) ==> guessed_column(headers.deep_view(), role) == Some(k as int) && k < headers.len(),
        r is None ==> guessed_column(headers.deep_view(), role) is None,
{
    let ghost hv = headers.deep_view();
    assert(hv.len() == headers@.len());
    let mut lower: Vec<Vec<char>> = Vec::new();
    let mut i: usize = 0;
    while i < headers.len()
        invariant
            i <= headers.len(),
            hv == headers.deep_view(),
            lower.deep_view() == lowered_headers(hv).take(i as int),
        decreases headers.len() - i,
    {
        let t = trimmed(headers[i].as_str());
        let l = to_lower(t.as_str());
        let lc = chars_of(l.as_str());
        let ghost before = lower.deep_view();
        lower.push(lc);
        proof {
            assert(lc.deep_view() =~= lc@);
            assert(lower.deep_view() =~= before.push(lc@));
            assert(lowered_headers(hv).take(i + 1) =~= lowered_headers(hv).take(i as int).push(lc@));
        }
        i += 1;
    }
    let ghost lv = lower.deep_view();
    assert(lv =~= lowered_headers(hv));
    let count = needle_count(role);
    let mut pass: usize = 0;
    while pass < 2
        invariant
            pass <= 2,
            lv == lower.deep_view(),
            lv == lowered_headers(hv),
            count == needles(role).len(),
            pass >= 1 ==> needle_match_from(lv, needles(role), true, 0) is None,
            pass >= 2 ==> needle_match_from(lv, needles(role), false, 0) is None,
            lv.len() == headers@.len(),
            hv == headers.deep_view(),
        decreases 2 - pass,
    {
        let exact = pass == 0;
        let mut j: usize = 0;
        while j < count
            invariant
                j <= count,
                count == needles(role).len(),
                lv == lower.deep_view(),
                lv == lowered_headers(hv),
                exact == (pass == 0),
                pass >= 1 ==> needle_match_from(lv, needles(role), true, 0) is None,
                needle_match_from(lv, needles(role), exact, 0) == needle_match_from(lv, needles(role), exact, j as int),
                lv.len() == headers@.len(),
                hv == headers.deep_view(),
            decreases count - j,
        {
            let n = chars_of(needle(role, j));
            let found = find_header(&lower, &n, exact);
            proof {
                assert(n@ == needles(role)[j as int]);
                lemma_first_match_bound(lv, n@, exact, 0);
            }
            if let Some(k) = found {
                return Some(k);
            }
            j += 1;
        }
        proof {
            assert(needle_match_from(lv, needles(role), exact, count as int) is None);
        }
        pass += 1;
    }
    None
}

/// How many of `lots` cannot be imported as they stand.
pub open spec fn blocked_in(lots: Seq<DraftLot>) -> int
    decreases lots.len(),
{
    if lots.len() == 0 {
        0
    } else {
        blocked_in(lots.drop_last()) + if is_blocking_lot(lots.last()) { 1int } else { 0int }
    }
}

/// The number of rows whose issues keep them out of the import.
pub fn blocked_count(lots: &[DraftLot]) -> (r: usize)
    ensures
        r == blocked_in(lots@),
{
    let mut n: usize = 0;
    let mut i: usize = 0;
    while i < lots.len()
        invariant
            i <= lots.len(),
            n == blocked_in(lots@.take(i as int)),
            n <= i,
        decreases lots.len() - i,
    {
        proof {
            assert(lots@.take(i + 1).drop_last() == lots@.take(i as int));
            assert(lots@.take(i + 1).last() == lots@[i as int]);
        }
        if lots[i].issues().blocking() {
            n += 1;
        }
        i += 1;
    }
    proof {
        assert(lots@.take(lots.len() as int) == lots@);
    }
    n
}

// ── How a column is guessed ──────────────────────────────────────────────────

/// Header `k` is the first of `lower` to match `n`.
pub open spec fn first_matching(lower: Seq<Seq<char>>, n: Seq<char>, exact: bool, k: int) -> bool {
    &&& 0 <= k < lower.len()
    &&& header_matches(lower[k], n, exact)
    &&& forall|i: int| 0 <= i < k ==> !header_matches(#[trigger] lower[i], n, exact)
}

/// Some header matches some needle.
pub open spec fn any_match(lower: Seq<Seq<char>>, ns: Seq<Seq<char>>, exact: bool) -> bool {
    exists|i: int, j: int| 0 <= i < lower.len() && 0 <= j < ns.len() && #[trigger] header_matches(lower[i], ns[j], exact)
}

/// `k` is the first header matching the first needle that any header
/// matches.
pub open spec fn picked_by(lower: Seq<Seq<char>>, ns: Seq<Seq<char>>, exact: bool, k: int) -> bool {
    exists|j: int| {
        &&& 0 <= j < ns.len()
        &&& first_matching(lower, #[trigger] ns[j], exact, k)
        &&& forall|jj: int, i: int| 0 <= jj < j && 0 <= i < lower.len() ==> !#[trigger] header_matches(lower[i], ns[jj], exact)
    }
}

proof fn lemma_first_match_from(lower: Seq<Seq<char>>, n: Seq<char>, exact: bool, i: int)
    requires
        0 <= i <= lower.len(),
        forall|m: int| 0 <= m < i ==> !header_matches(#[trigger] lower[m], n, exact),
    ensures
        match first_match_from(lower, n, exact, i) {
            Some(k) => first_matching(lower, n, exact, k),
            None => forall|m: int| 0 <= m < lower.len() ==> !header_matches(#[trigger] lower[m], n, exact),
        },
    decreases lower.len() - i,
{
    if i < lower.len() && !header_matches(lower[i], n, exact) {
        lemma_first_match_from(lower, n, exact, i + 1);
    }
}

proof fn lemma_needle_match_from(lower: Seq<Seq<char>>, ns: Seq<Seq<char>>, exact: bool, j: int)
    requires
        0 <= j <= ns.len(),
        forall|jj: int, i: int| 0 <= jj < j && 0 <= i < lower.len() ==> !#[trigger] header_matches(lower[i], ns[jj], exact),
    ensures
        match needle_match_from(lower, ns, exact, j) {
            Some(k) => picked_by(lower, ns, exact, k),
            None => !any_match(lower, ns, exact),
        },
    decreases ns.len() - j,
{
    if j < ns.len() {
        lemma_first_match_from(lower, ns[j], exact, 0);
        match first_match_from(lower, ns[j], exact, 0) {
            Some(k) => {
                assert(first_matching(lower, ns[j], exact, k));
            },
            None => {
                assert forall|jj: int, i: int| 0 <= jj < j + 1 && 0 <= i < lower.len()
                    implies !#[trigger] header_matches(lower[i], ns[jj], exact) by {
                    if jj == j {
                        assert(!header_matches(lower[i], ns[j], exact));
                    }
                }
                lemma_needle_match_from(lower, ns, exact, j + 1);
            },
        }
    } else {
        if any_match(lower, ns, exact) {
            let (i, jj) = choose|i: int, jj: int| 0 <= i < lower.len() && 0 <= jj < ns.len()
                && #[trigger] header_matches(lower[i], ns[jj], exact);
            assert(!header_matches(lower[i], ns[jj], exact));
        }
    }
}

/// A header equal to a needle also contains it.
proof fn lemma_exact_contains(h: Seq<char>, n: Seq<char>)
    requires
        h == n,
    ensures
        contains_seq(h, n),
{
    let z: int = 0;
    assert(h.subrange(z, z + n.len()) == n);
}

/// The column guessed for a role: none exactly when no trimmed, lowercased
/// header contains any of the role's needles; otherwise, when some header
/// equals a needle, the first header equal to the first needle that any
/// header equals; else the first header containing the first needle that any
/// header contains.
pub proof fn guessed_column_prefers_exact_then_needle_order(headers: Seq<Seq<char>>, role: Role)
    ensures
        ({
            let lower = lowered_headers(headers);
            let ns = needles(role);
            &&& guessed_column(headers, role) is None <==> !any_match(lower, ns, false)
            &&& any_match(lower, ns, true) ==> (guessed_column(headers, role) matches Some(k) && picked_by(lower, ns, true, k))
            &&& !any_match(lower, ns, true) && any_match(lower, ns, false)
                ==> (guessed_column(headers, role) matches Some(k) && picked_by(lower, ns, false, k))
        }),
{
    let lower = lowered_headers(headers);
    let ns = needles(role);
    lemma_needle_match_from(lower, ns, true, 0);
    lemma_needle_match_from(lower, ns, false, 0);
    if any_match(lower, ns, true) {
        let (i, j) = choose|i: int, j: int| 0 <= i < lower.len() && 0 <= j < ns.len()
            && #[trigger] header_matches(lower[i], ns[j], true);
        lemma_exact_contains(lower[i], ns[j]);
        assert(header_matches(lower[i], ns[j], false));
    }
}

} // verus!
