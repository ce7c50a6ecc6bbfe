//! Properties that hold across the library's functions.

use vstd::prelude::*;
use crate::lot_laws::{lot_total, open_lots_net_the_log};
use crate::lots::{matched, LotAllocation};
use crate::position::{effective_quantity_of, ready, Position, PositionEntryMode};
use crate::realized::{closed_in, lt_total, st_total, RealizedLot};
use crate::revisions::{amount_changes, compared_amounts, revision_changes};
use crate::tax::{aggregates_line_items, category_total, is_effective_revision, synced, LineItemCategory, TaxEntryMode, TaxLineItem, TaxProfile, TaxRevision};

verus! {

// ── Positions ────────────────────────────────────────────────────────────────

/// A trade-log position's quantity is what its open lots hold: the lots the
/// ledger shows add up to the number the portfolio uses.
pub proof fn position_quantity_is_its_open_lots(p: Position)
    requires
        p.entry_mode == PositionEntryMode::TradeLog,
        ready(p),
    ensures
        effective_quantity_of(p) == lot_total(matched(p.trades@, LotAllocation::Fifo).0),
{
    open_lots_net_the_log(p.trades@, LotAllocation::Fifo);
}

// ── Realised gains by year ───────────────────────────────────────────────────

/// Σ over `years` of the short-term totals of the lots closed in each.
pub open spec fn st_by_years(lots: Seq<RealizedLot>, years: Seq<i32>) -> int
    decreases years.len(),
{
    if years.len() == 0 { 0 } else { st_by_years(lots, years.drop_last()) + st_total(closed_in(lots, years.last() as int)) }
}

/// Σ over `years` of the long-term totals of the lots closed in each.
pub open spec fn lt_by_years(lots: Seq<RealizedLot>, years: Seq<i32>) -> int
    decreases years.len(),
{
    if years.len() == 0 { 0 } else { lt_by_years(lots, years.drop_last()) + lt_total(closed_in(lots, years.last() as int)) }
}

/// Σ over `years` of `g` where the year is `y`.
spec fn once_in(years: Seq<i32>, y: i32, g: int) -> int
    decreases years.len(),
{
    if years.len() == 0 { 0 } else { once_in(years.drop_last(), y, g) + if years.last() == y { g } else { 0 } }
}

proof fn lemma_once_in(years: Seq<i32>, y: i32, g: int)
    requires
        years.no_duplicates(),
    ensures
        once_in(years, y, g) == if years.contains(y) { g } else { 0 },
    decreases years.len(),
{
    if years.len() > 0 {
        let d = years.drop_last();
        assert(d.no_duplicates());
        lemma_once_in(d, y, g);
        if years.last() == y {
            assert(!d.contains(y)) by {
                if d.contains(y) {
                    let k = choose|k: int| 0 <= k < d.len() && d[k] == y;
                    assert(years[k] == years[years.len() - 1]);
                }
            }
            assert(years.contains(y));
        } else {
            assert(years.contains(y) == d.contains(y)) by {
                if years.contains(y) {
                    let k = choose|k: int| 0 <= k < years.len() && years[k] == y;
                    assert(k != years.len() - 1);
                    assert(d[k] == y);
                }
                if d.contains(y) {
                    let k = choose|k: int| 0 <= k < d.len() && d[k] == y;
                    assert(years[k] == y);
                }
            }
        }
    }
}

proof fn lemma_years_step(lots: Seq<RealizedLot>, years: Seq<i32>)
    requires
        lots.len() > 0,
    ensures
        st_by_years(lots, years) == st_by_years(lots.drop_last(), years)
            + once_in(years, lots.last().close_date.year, if lots.last().is_long_term { 0 } else { lots.last().gain as int }),
        lt_by_years(lots, years) == lt_by_years(lots.drop_last(), years)
            + once_in(years, lots.last().close_date.year, if lots.last().is_long_term { lots.last().gain as int } else { 0 }),
    decreases years.len(),
{
    if years.len() > 0 {
        lemma_years_step(lots, years.drop_last());
        let y = years.last() as int;
        if lots.last().close_date.year == y {
            assert(closed_in(lots.drop_last(), y).push(lots.last()).drop_last() == closed_in(lots.drop_last(), y));
        }
    }
}

/// The per-year totals add up to the overall totals: summed over any list of
/// distinct years that includes every closing year, the year-by-year
/// short- and long-term totals are the totals of all the lots.
pub proof fn year_totals_add_up(lots: Seq<RealizedLot>, years: Seq<i32>)
    requires
        years.no_duplicates(),
        forall|k: int| 0 <= k < lots.len() ==> years.contains(#[trigger] lots[k].close_date.year),
    ensures
        st_by_years(lots, years) == st_total(lots),
        lt_by_years(lots, years) == lt_total(lots),
    decreases lots.len(),
{
    if lots.len() == 0 {
        lemma_empty_years(lots, years);
    } else {
        let d = lots.drop_last();
        assert forall|k: int| 0 <= k < d.len() implies years.contains(#[trigger] d[k].close_date.year) by {
            assert(d[k] == lots[k]);
        }
        year_totals_add_up(d, years);
        lemma_years_step(lots, years);
        let l = lots.last();
        assert(years.contains(lots[lots.len() - 1].close_date.year));
        lemma_once_in(years, l.close_date.year, if l.is_long_term { 0 } else { l.gain as int });
        lemma_once_in(years, l.close_date.year, if l.is_long_term { l.gain as int } else { 0 });
    }
}

proof fn lemma_empty_years(lots: Seq<RealizedLot>, years: Seq<i32>)
    requires
        lots.len() == 0,
    ensures
        st_by_years(lots, years) == 0,
        lt_by_years(lots, years) == 0,
    decreases years.len(),
{
    if years.len() > 0 {
        lemma_empty_years(lots, years.drop_last());
    }
}

// ── Tax profiles ─────────────────────────────────────────────────────────────

/// Once synced, a line-item profile's last revision is its effective
/// revision: the estimator reads the current inputs from it.
pub proof fn synced_profile_reads_its_inputs(before: TaxProfile, after: TaxProfile)
    requires
        before.mode == TaxEntryMode::LineItem,
        synced(before, after),
    ensures
        after.revisions@.len() == 1,
        is_effective_revision(after, after.revisions@.last()),
{
}

/// In line-item mode the qualified dividends are part of the ordinary ones,
/// as long as no non-qualified dividend is entered as negative.
pub proof fn qualified_within_ordinary(settings: crate::tax::TaxSettings, items: Seq<TaxLineItem>, r: TaxRevision)
    requires
        aggregates_line_items(r, settings, items),
        forall|k: int| 0 <= k < items.len() && (#[trigger] items[k]).category == LineItemCategory::NonQualDiv
            ==> items[k].amount >= 0,
    ensures
        r.qualified_dividends <= r.ordinary_dividends,
{
    lemma_category_nonneg(items, LineItemCategory::NonQualDiv);
}

proof fn lemma_category_nonneg(items: Seq<TaxLineItem>, c: LineItemCategory)
    requires
        forall|k: int| 0 <= k < items.len() && (#[trigger] items[k]).category == c ==> items[k].amount >= 0,
    ensures
        category_total(items, c) >= 0,
    decreases items.len(),
{
    if items.len() > 0 {
        let d = items.drop_last();
        assert forall|k: int| 0 <= k < d.len() && (#[trigger] d[k]).category == c implies d[k].amount >= 0 by {
            assert(d[k] == items[k]);
        }
        lemma_category_nonneg(d, c);
    }
}

/// A revision compared with itself shows no changes.
pub proof fn unchanged_revision_has_no_changes(r: TaxRevision)
    ensures
        revision_changes(r, r).len() == 0,
{
    let fs = compared_amounts(r, r);
    lemma_no_amount_changes(fs);
    assert(revision_changes(r, r) == amount_changes(fs));
}

proof fn lemma_no_amount_changes(fs: Seq<(Seq<char>, int, int)>)
    requires
        forall|k: int| 0 <= k < fs.len() ==> (#[trigger] fs[k]).1 == fs[k].2,
    ensures
        amount_changes(fs).len() == 0,
    decreases fs.len(),
{
    if fs.len() > 0 {
        let d = fs.drop_last();
        assert forall|k: int| 0 <= k < d.len() implies (#[trigger] d[k]).1 == d[k].2 by {
            assert(d[k] == fs[k]);
        }
        lemma_no_amount_changes(d);
        assert(fs.last() == fs[fs.len() - 1]);
    }
}

} // verus!
