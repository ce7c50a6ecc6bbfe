//! What lot matching keeps, whatever the trades: the open lots net to the
//! trade log, they all sit on one side, and every closing is a positive
//! quantity whose holding period decides its term.

use vstd::prelude::*;
use crate::calendar::{days_between, valid_date, Date};
use crate::lots::{
    abs_i, apply_trade, by_date, choice, chosen_within, closable, closing, insert_by_date, is_choice,
    matched, pool_after, rem_after, run_trades, settle, sgn, well_formed_trades, ClosedLot, LotAllocation,
    OpenLot, Trade,
};
use crate::calendar::date_le;

verus! {

/// Net shares of a set of lots.
pub open spec fn lot_total(pool: Seq<OpenLot>) -> int
    decreases pool.len(),
{
    if pool.len() == 0 { 0 } else { lot_total(pool.drop_last()) + pool.last().quantity }
}

/// Net shares bought (positive) or sold (negative) by a trade log.
pub open spec fn trade_total(ts: Seq<Trade>) -> int
    decreases ts.len(),
{
    if ts.len() == 0 { 0 } else { trade_total(ts.drop_last()) + ts.last().quantity }
}

/// Every lot is non-empty and all lie on the same side (all long or all
/// short).
pub open spec fn one_sided(pool: Seq<OpenLot>) -> bool {
    &&& forall|i: int| 0 <= i < pool.len() ==> 0 < abs_i(#[trigger] pool[i].quantity as int) <= i32::MAX
    &&& forall|i: int, j: int| 0 <= i < pool.len() && 0 <= j < pool.len()
        ==> sgn(#[trigger] pool[i].quantity as int) == sgn(#[trigger] pool[j].quantity as int)
}

/// 2^96: no price difference times a quantity reaches it.
pub const PNL_BOUND: i128 = 79_228_162_514_264_337_593_543_950_336;

/// A closing of a positive quantity, long-term exactly when the lot was held
/// more than 365 days, whose gain (below 2^96 micros) is the price difference
/// times the quantity, taken for a long lot and reversed for a short one.
pub open spec fn proper_closing(c: ClosedLot) -> bool {
    &&& c.quantity > 0
    &&& -PNL_BOUND <= c.realized_pnl <= PNL_BOUND
    &&& c.is_long_term == (days_between(c.open_date, c.close_date) > 365)
    &&& (c.realized_pnl == (c.close_price - c.open_price) * c.quantity
        || c.realized_pnl == (c.open_price - c.close_price) * c.quantity)
}

/// Every lot carries a real date.
pub open spec fn dated(pool: Seq<OpenLot>) -> bool {
    forall|i: int| 0 <= i < pool.len() ==> valid_date(#[trigger] pool[i].date)
}

pub open spec fn proper_closings(cs: Seq<ClosedLot>) -> bool {
    forall|i: int| 0 <= i < cs.len() ==> proper_closing(#[trigger] cs[i])
}

proof fn lemma_total_update(s: Seq<OpenLot>, b: int, x: OpenLot)
    requires
        0 <= b < s.len(),
    ensures
        lot_total(s.update(b, x)) == lot_total(s) - s[b].quantity + x.quantity,
    decreases s.len(),
{
    if b < s.len() - 1 {
        lemma_total_update(s.drop_last(), b, x);
        assert(s.update(b, x).drop_last() == s.drop_last().update(b, x));
    } else {
        assert(s.update(b, x).drop_last() == s.drop_last());
    }
}

proof fn lemma_total_remove(s: Seq<OpenLot>, b: int)
    requires
        0 <= b < s.len(),
    ensures
        lot_total(s.remove(b)) == lot_total(s) - s[b].quantity,
    decreases s.len(),
{
    if b < s.len() - 1 {
        lemma_total_remove(s.drop_last(), b);
        assert(s.remove(b).drop_last() == s.drop_last().remove(b));
        assert(s.remove(b).last() == s.last());
    } else {
        assert(s.remove(b) == s.drop_last());
    }
}

proof fn lemma_choice_closable(pool: Seq<OpenLot>, rem: int, alloc: LotAllocation)
    ensures
        choice(pool, rem, alloc) matches Some(b) ==> 0 <= b < pool.len() && closable(pool[b], rem),
{
    if exists|b: int| is_choice(pool, rem, alloc, b) {
        let b = choose|b: int| is_choice(pool, rem, alloc, b);
        assert(is_choice(pool, rem, alloc, b));
    }
}

/// Some lot among the closable ones in `pool[..n]` is the choice there.
proof fn lemma_choice_exists_within(pool: Seq<OpenLot>, rem: int, alloc: LotAllocation, n: int)
    requires
        0 <= n <= pool.len(),
        exists|i: int| 0 <= i < n && closable(#[trigger] pool[i], rem),
    ensures
        exists|b: int| #[trigger] chosen_within(pool, rem, alloc, b, n),
    decreases n,
{
    if exists|i: int| 0 <= i < n - 1 && closable(#[trigger] pool[i], rem) {
        lemma_choice_exists_within(pool, rem, alloc, n - 1);
        let b = choose|b: int| #[trigger] chosen_within(pool, rem, alloc, b, n - 1);
        if closable(pool[n - 1], rem) {
            let take = match alloc {
                LotAllocation::Fifo => !date_le(pool[b].date, pool[n - 1].date),
                LotAllocation::MinTax => if rem < 0 { pool[n - 1].price >= pool[b].price } else { pool[n - 1].price <= pool[b].price },
            };
            if take {
                assert(chosen_within(pool, rem, alloc, n - 1, n));
            } else {
                assert(chosen_within(pool, rem, alloc, b, n));
            }
        } else {
            assert(chosen_within(pool, rem, alloc, b, n));
        }
    } else {
        assert(closable(pool[n - 1], rem));
        assert(chosen_within(pool, rem, alloc, n - 1, n));
    }
}

/// When no lot is chosen, no lot is closable.
proof fn lemma_no_choice(pool: Seq<OpenLot>, rem: int, alloc: LotAllocation)
    requires
        choice(pool, rem, alloc) is None,
    ensures
        forall|i: int| 0 <= i < pool.len() ==> !closable(#[trigger] pool[i], rem),
{
    if exists|i: int| 0 <= i < pool.len() && closable(#[trigger] pool[i], rem) {
        lemma_choice_exists_within(pool, rem, alloc, pool.len() as int);
        let b = choose|b: int| #[trigger] chosen_within(pool, rem, alloc, b, pool.len() as int);
        assert(is_choice(pool, rem, alloc, b));
    }
}

/// Settling keeps the net of lots plus what is left to place, keeps the pool
/// one-sided, and only records proper closings.
#[verifier::spinoff_prover]
proof fn lemma_settle(pool: Seq<OpenLot>, closed: Seq<ClosedLot>, t: Trade, rem: int, alloc: LotAllocation)
    requires
        one_sided(pool),
        dated(pool),
        proper_closings(closed),
        abs_i(rem) <= i32::MAX,
    ensures
        ({
            let (p, c, r) = settle(pool, closed, t, rem, alloc);
            &&& dated(p)
            &&& lot_total(p) + r == lot_total(pool) + rem
            &&& one_sided(p)
            &&& proper_closings(c)
            &&& abs_i(r) <= abs_i(rem)
            &&& (r == 0 || sgn(r) == sgn(rem))
            &&& (r != 0 ==> forall|i: int| 0 <= i < p.len() ==> sgn(#[trigger] p[i].quantity as int) == sgn(r))
        }),
    decreases abs_i(rem),
{
    lemma_choice_closable(pool, rem, alloc);
    if rem != 0 {
        match choice(pool, rem, alloc) {
            None => {
                lemma_no_choice(pool, rem, alloc);
                assert forall|i: int| 0 <= i < pool.len() implies sgn(#[trigger] pool[i].quantity as int) == sgn(rem) by {
                    assert(!closable(pool[i], rem));
                }
            },
            Some(b) => {
                let lot = pool[b];
                let q = if abs_i(rem) < abs_i(lot.quantity as int) { abs_i(rem) } else { abs_i(lot.quantity as int) };
                let left = lot.quantity + q * sgn(rem);
                assert(closable(lot, rem));
                if rem > 0 {
                    assert(sgn(rem) == 1);
                    assert(q * sgn(rem) == q) by (nonlinear_arith) requires sgn(rem) == 1int;
                    assert(lot.quantity < 0);
                    assert(q * sgn(lot.quantity as int) == -q) by (nonlinear_arith) requires sgn(lot.quantity as int) == -1int;
                } else {
                    assert(sgn(rem) == -1);
                    assert(q * sgn(rem) == -q) by (nonlinear_arith) requires sgn(rem) == -1int;
                    assert(lot.quantity > 0);
                    assert(q * sgn(lot.quantity as int) == q) by (nonlinear_arith) requires sgn(lot.quantity as int) == 1int;
                }
                assert(rem_after(pool, b, rem) == rem + q * sgn(lot.quantity as int));
                assert(abs_i(rem_after(pool, b, rem)) < abs_i(rem));
                let p2 = pool_after(pool, b, rem);
                let c2 = closed.push(closing(pool, b, t, rem));
                let r2 = rem_after(pool, b, rem);
                if left == 0 {
                    lemma_total_remove(pool, b);
                    assert forall|i: int| 0 <= i < p2.len() implies 0 < abs_i(#[trigger] p2[i].quantity as int) <= i32::MAX by {
                        if i < b { assert(p2[i] == pool[i]); } else { assert(p2[i] == pool[i + 1]); }
                    }
                    assert forall|i: int| 0 <= i < p2.len() implies valid_date(#[trigger] p2[i].date) by {
                        if i < b { assert(p2[i] == pool[i]); } else { assert(p2[i] == pool[i + 1]); }
                    }
                    assert forall|i: int, j: int| 0 <= i < p2.len() && 0 <= j < p2.len()
                        implies sgn(#[trigger] p2[i].quantity as int) == sgn(#[trigger] p2[j].quantity as int) by {
                        let ii = if i < b { i } else { i + 1 };
                        let jj = if j < b { j } else { j + 1 };
                        assert(p2[i] == pool[ii]);
                        assert(p2[j] == pool[jj]);
                        assert(sgn(pool[ii].quantity as int) == sgn(pool[jj].quantity as int));
                    }
                } else {
                    assert(closable(lot, rem));
                    assert(sgn(rem) == -sgn(lot.quantity as int));
                    if lot.quantity > 0 {
                        assert(rem < 0);
                        assert(left == lot.quantity - q);
                    } else {
                        assert(rem > 0);
                        assert(left == lot.quantity + q);
                    }
                    assert(sgn(left) == sgn(lot.quantity as int));
                    assert(0 < abs_i(left) <= abs_i(lot.quantity as int));
                    let nl = OpenLot { quantity: left as i32, ..lot };
                    assert(p2[b] == nl);
                    lemma_total_update(pool, b, nl);
                    assert forall|i: int| 0 <= i < p2.len() implies 0 < abs_i(#[trigger] p2[i].quantity as int) <= i32::MAX by {
                        if i != b { assert(p2[i] == pool[i]); }
                    }
                    assert forall|i: int| 0 <= i < p2.len() implies valid_date(#[trigger] p2[i].date) by {
                        if i != b { assert(p2[i] == pool[i]); }
                    }
                    assert forall|i: int, j: int| 0 <= i < p2.len() && 0 <= j < p2.len()
                        implies sgn(#[trigger] p2[i].quantity as int) == sgn(#[trigger] p2[j].quantity as int) by {
                        assert(sgn(pool[i].quantity as int) == sgn(pool[b].quantity as int));
                        assert(sgn(pool[j].quantity as int) == sgn(pool[b].quantity as int));
                        if i != b { assert(p2[i] == pool[i]); }
                        if j != b { assert(p2[j] == pool[j]); }
                    }
                }
                let cl = closing(pool, b, t, rem);
                let diff = t.price - lot.price;
                assert(-PNL_BOUND <= diff * sgn(lot.quantity as int) * q <= PNL_BOUND) by (nonlinear_arith)
                    requires
                        -18_446_744_073_709_551_616 <= diff <= 18_446_744_073_709_551_616,
                        sgn(lot.quantity as int) == 1 || sgn(lot.quantity as int) == -1,
                        0 <= q <= 2_147_483_647,
                        PNL_BOUND == 79_228_162_514_264_337_593_543_950_336;
                assert(cl.realized_pnl == diff * sgn(lot.quantity as int) * q);
                assert(cl.quantity == q);
                if sgn(lot.quantity as int) == 1 {
                    assert(diff * 1 * q == diff * q) by (nonlinear_arith);
                    assert(cl.realized_pnl == (cl.close_price - cl.open_price) * cl.quantity);
                } else {
                    assert(diff * (-1) * q == (lot.price - t.price) * q) by (nonlinear_arith)
                        requires diff == t.price - lot.price;
                    assert(cl.realized_pnl == (cl.open_price - cl.close_price) * cl.quantity);
                }
                assert(proper_closing(cl));
                assert forall|i: int| 0 <= i < c2.len() implies proper_closing(#[trigger] c2[i]) by {
                    if i < closed.len() { assert(c2[i] == closed[i]); }
                }
                lemma_settle(p2, c2, t, r2, alloc);
            },
        }
    }
}

#[verifier::spinoff_prover]
proof fn lemma_run(ts: Seq<Trade>, alloc: LotAllocation)
    requires
        well_formed_trades(ts),
    ensures
        lot_total(run_trades(ts, alloc).0) == trade_total(ts),
        one_sided(run_trades(ts, alloc).0),
        dated(run_trades(ts, alloc).0),
        proper_closings(run_trades(ts, alloc).1),
    decreases ts.len(),
{
    if ts.len() > 0 {
        let d = ts.drop_last();
        assert forall|i: int| 0 <= i < d.len() implies crate::calendar::valid_date(#[trigger] d[i].date) && d[i].quantity != i32::MIN by {
            assert(d[i] == ts[i]);
        }
        lemma_run(d, alloc);
        let st = run_trades(d, alloc);
        let t = ts.last();
        let k = ts.len() - 1;
        assert(ts[k] == t);
        assert(well_formed_trades(ts));
        assert(crate::calendar::valid_date(ts[k].date));
        assert(t.quantity != i32::MIN);
        lemma_settle(st.0, st.1, t, t.quantity as int, alloc);
        let (p, c, r) = settle(st.0, st.1, t, t.quantity as int, alloc);
        if r != 0 {
            let nl = OpenLot { trade_id: t.id, date: t.date, quantity: r as i32, price: t.price };
            let p2 = p.push(nl);
            assert(p2.drop_last() == p);
            assert forall|i: int| 0 <= i < p2.len() implies 0 < abs_i(#[trigger] p2[i].quantity as int) <= i32::MAX by {
                if i < p.len() { assert(p2[i] == p[i]); }
            }
            assert forall|i: int| 0 <= i < p2.len() implies valid_date(#[trigger] p2[i].date) by {
                if i < p.len() { assert(p2[i] == p[i]); }
            }
            assert forall|i: int, j: int| 0 <= i < p2.len() && 0 <= j < p2.len()
                implies sgn(#[trigger] p2[i].quantity as int) == sgn(#[trigger] p2[j].quantity as int) by {
                if i < p.len() { assert(p2[i] == p[i]); }
                if j < p.len() { assert(p2[j] == p[j]); }
            }
        }
    }
}

proof fn lemma_insert_total(s: Seq<Trade>, t: Trade)
    ensures
        trade_total(insert_by_date(s, t)) == trade_total(s) + t.quantity,
    decreases s.len(),
{
    if s.len() > 0 {
        if date_le(s.last().date, t.date) {
            assert(s.push(t).drop_last() == s);
            assert(s.push(t).last() == t);
            assert(insert_by_date(s, t) == s.push(t));
            assert(trade_total(s.push(t)) == trade_total(s) + t.quantity);
        } else {
            lemma_insert_total(s.drop_last(), t);
            let r = insert_by_date(s.drop_last(), t);
            assert(r.push(s.last()).drop_last() == r);
            assert(r.push(s.last()).last() == s.last());
            assert(insert_by_date(s, t) == r.push(s.last()));
            assert(trade_total(r.push(s.last())) == trade_total(r) + s.last().quantity);
            assert(trade_total(s) == trade_total(s.drop_last()) + s.last().quantity);
            assert(trade_total(insert_by_date(s, t)) == trade_total(s) + t.quantity);
        }
    } else {
        assert(seq![t].drop_last() == Seq::<Trade>::empty());
        assert(seq![t].last() == t);
        assert(insert_by_date(s, t) == seq![t]);
        assert(trade_total(seq![t]) == trade_total(Seq::<Trade>::empty()) + t.quantity);
    }
}

proof fn lemma_by_date_total(s: Seq<Trade>)
    ensures
        trade_total(by_date(s)) == trade_total(s),
    decreases s.len(),
{
    if s.len() > 0 {
        lemma_by_date_total(s.drop_last());
        lemma_insert_total(by_date(s.drop_last()), s.last());
    }
}

proof fn lemma_by_date_well_formed(s: Seq<Trade>)
    requires
        well_formed_trades(s),
    ensures
        well_formed_trades(by_date(s)),
{
    crate::lots::lemma_by_date_elements(s);
    assert forall|i: int| 0 <= i < by_date(s).len() implies crate::calendar::valid_date(#[trigger] by_date(s)[i].date) && by_date(s)[i].quantity != i32::MIN by {
        assert(by_date(s).contains(by_date(s)[i]));
        let k = choose|k: int| 0 <= k < s.len() && s[k] == by_date(s)[i];
        assert(crate::calendar::valid_date(s[k].date));
    }
}

/// The open lots net to the trade log: their quantities add up to the sum of
/// the trades' signed quantities, whichever allocation method closed them.
pub proof fn open_lots_net_the_log(trades: Seq<Trade>, alloc: LotAllocation)
    requires
        well_formed_trades(trades),
    ensures
        lot_total(matched(trades, alloc).0) == trade_total(trades),
{
    lemma_by_date_well_formed(trades);
    lemma_run(by_date(trades), alloc);
    lemma_by_date_total(trades);
}

/// Long and short lots never stay open together: every open lot is non-empty
/// and all of them are long, or all short.
pub proof fn open_lots_are_one_sided(trades: Seq<Trade>, alloc: LotAllocation)
    requires
        well_formed_trades(trades),
    ensures
        one_sided(matched(trades, alloc).0),
{
    lemma_by_date_well_formed(trades);
    lemma_run(by_date(trades), alloc);
}

/// Every closed lot closes a positive number of shares, and is long-term
/// exactly when it was held more than 365 days.
pub proof fn closings_are_proper(trades: Seq<Trade>, alloc: LotAllocation)
    requires
        well_formed_trades(trades),
    ensures
        proper_closings(matched(trades, alloc).1),
{
    lemma_by_date_well_formed(trades);
    lemma_run(by_date(trades), alloc);
}

/// Open lots carry real dates.
pub proof fn open_lots_are_valid(trades: Seq<Trade>, alloc: LotAllocation)
    requires
        well_formed_trades(trades),
    ensures
        forall|i: int| 0 <= i < matched(trades, alloc).0.len() ==> valid_date(#[trigger] matched(trades, alloc).0[i].date),
{
    lemma_by_date_well_formed(trades);
    lemma_run(by_date(trades), alloc);
}

/// All trades on one side: every quantity non-negative (`sign` 1) or every
/// one non-positive (`sign` -1).
pub open spec fn all_on_side(trades: Seq<Trade>, sign: int) -> bool {
    forall|i: int| 0 <= i < trades.len() ==> #[trigger] trades[i].quantity * sign >= 0
}

proof fn lemma_run_one_side(ts: Seq<Trade>, alloc: LotAllocation, sign: int)
    requires
        sign == 1 || sign == -1,
        all_on_side(ts, sign),
    ensures
        run_trades(ts, alloc).1.len() == 0,
        forall|i: int| 0 <= i < run_trades(ts, alloc).0.len() ==> #[trigger] run_trades(ts, alloc).0[i].quantity * sign > 0,
    decreases ts.len(),
{
    if ts.len() > 0 {
        let d = ts.drop_last();
        assert forall|i: int| 0 <= i < d.len() implies #[trigger] d[i].quantity * sign >= 0 by {
            assert(d[i] == ts[i]);
        }
        lemma_run_one_side(d, alloc, sign);
        let st = run_trades(d, alloc);
        let t = ts.last();
        assert(t == ts[ts.len() - 1]);
        let rem = t.quantity as int;
        if rem != 0 {
            assert forall|b: int| !is_choice(st.0, rem, alloc, b) by {
                if 0 <= b < st.0.len() {
                    assert(st.0[b].quantity * sign > 0);
                }
            }
            assert(choice(st.0, rem, alloc) is None);
        }
        let pool2 = apply_trade(st, t, alloc).0;
        assert forall|i: int| 0 <= i < pool2.len() implies #[trigger] pool2[i].quantity * sign > 0 by {
            if i < st.0.len() {
                assert(pool2[i] == st.0[i]);
            }
        }
    }
}

/// A log that only opens (all buys, or all sells) realises nothing: FIFO or
/// MinTax, no lot is closed.
pub proof fn one_sided_log_realises_nothing(trades: Seq<Trade>, alloc: LotAllocation, sign: int)
    requires
        sign == 1 || sign == -1,
        all_on_side(trades, sign),
    ensures
        matched(trades, alloc).1.len() == 0,
{
    crate::lots::lemma_by_date_elements(trades);
    let s = by_date(trades);
    assert forall|i: int| 0 <= i < s.len() implies #[trigger] s[i].quantity * sign >= 0 by {
        assert(s.contains(s[i]));
        let k = choose|k: int| 0 <= k < trades.len() && trades[k] == s[i];
        assert(trades[k].quantity * sign >= 0);
    }
    lemma_run_one_side(s, alloc, sign);
}

// ── Shares traded, held and closed ───────────────────────────────────────────

/// Shares held across `pool`, long and short alike.
pub open spec fn lot_size(pool: Seq<OpenLot>) -> int
    decreases pool.len(),
{
    if pool.len() == 0 { 0 } else { lot_size(pool.drop_last()) + abs_i(pool.last().quantity as int) }
}

/// Shares closed across `cs`.
pub open spec fn closed_size(cs: Seq<ClosedLot>) -> int
    decreases cs.len(),
{
    if cs.len() == 0 { 0 } else { closed_size(cs.drop_last()) + cs.last().quantity }
}

/// Shares traded by a log, purchases and sales alike.
pub open spec fn trade_size(ts: Seq<Trade>) -> int
    decreases ts.len(),
{
    if ts.len() == 0 { 0 } else { trade_size(ts.drop_last()) + abs_i(ts.last().quantity as int) }
}

proof fn lemma_size_update(s: Seq<OpenLot>, b: int, x: OpenLot)
    requires
        0 <= b < s.len(),
    ensures
        lot_size(s.update(b, x)) == lot_size(s) - abs_i(s[b].quantity as int) + abs_i(x.quantity as int),
    decreases s.len(),
{
    if b < s.len() - 1 {
        lemma_size_update(s.drop_last(), b, x);
        assert(s.update(b, x).drop_last() == s.drop_last().update(b, x));
    } else {
        assert(s.update(b, x).drop_last() == s.drop_last());
    }
}

proof fn lemma_size_remove(s: Seq<OpenLot>, b: int)
    requires
        0 <= b < s.len(),
    ensures
        lot_size(s.remove(b)) == lot_size(s) - abs_i(s[b].quantity as int),
    decreases s.len(),
{
    if b < s.len() - 1 {
        lemma_size_remove(s.drop_last(), b);
        assert(s.remove(b).drop_last() == s.drop_last().remove(b));
        assert(s.remove(b).last() == s.last());
    } else {
        assert(s.remove(b) == s.drop_last());
    }
}

#[verifier::spinoff_prover]
proof fn lemma_settle_size(pool: Seq<OpenLot>, closed: Seq<ClosedLot>, t: Trade, rem: int, alloc: LotAllocation)
    requires
        abs_i(rem) <= i32::MAX,
    ensures
        ({
            let (p, c, r) = settle(pool, closed, t, rem, alloc);
            &&& lot_size(p) + abs_i(r) + 2 * closed_size(c) == lot_size(pool) + abs_i(rem) + 2 * closed_size(closed)
            &&& abs_i(r) <= abs_i(rem)
        }),
    decreases abs_i(rem),
{
    if rem != 0 {
        match choice(pool, rem, alloc) {
            None => {},
            Some(b) => {
                if 0 <= b < pool.len() && closable(pool[b], rem) {
                    let lot = pool[b];
                    let q = if abs_i(rem) < abs_i(lot.quantity as int) { abs_i(rem) } else { abs_i(lot.quantity as int) };
                    let left = lot.quantity + q * sgn(rem);
                    assert(closable(lot, rem));
                    if rem > 0 {
                        assert(sgn(rem) == 1);
                        assert(lot.quantity < 0);
                        assert(q * sgn(rem) == q) by (nonlinear_arith) requires sgn(rem) == 1int;
                        assert(q * sgn(lot.quantity as int) == -q) by (nonlinear_arith) requires sgn(lot.quantity as int) == -1int;
                    } else {
                        assert(sgn(rem) == -1);
                        assert(lot.quantity > 0);
                        assert(q * sgn(rem) == -q) by (nonlinear_arith) requires sgn(rem) == -1int;
                        assert(q * sgn(lot.quantity as int) == q) by (nonlinear_arith) requires sgn(lot.quantity as int) == 1int;
                    }
                    assert(abs_i(left) == abs_i(lot.quantity as int) - q);
                    let r2 = rem_after(pool, b, rem);
                    assert(abs_i(r2) == abs_i(rem) - q);
                    let c2 = closed.push(closing(pool, b, t, rem));
                    assert(c2.drop_last() == closed);
                    assert(closed_size(c2) == closed_size(closed) + q);
                    if left == 0 {
                        lemma_size_remove(pool, b);
                    } else {
                        lemma_size_update(pool, b, OpenLot { quantity: left as i32, ..lot });
                    }
                    lemma_settle_size(pool_after(pool, b, rem), c2, t, r2, alloc);
                }
            },
        }
    }
}

#[verifier::spinoff_prover]
proof fn lemma_run_size(ts: Seq<Trade>, alloc: LotAllocation)
    requires
        forall|i: int| 0 <= i < ts.len() ==> (#[trigger] ts[i]).quantity != i32::MIN,
    ensures
        lot_size(run_trades(ts, alloc).0) + 2 * closed_size(run_trades(ts, alloc).1) == trade_size(ts),
    decreases ts.len(),
{
    if ts.len() > 0 {
        let d = ts.drop_last();
        assert forall|i: int| 0 <= i < d.len() implies (#[trigger] d[i]).quantity != i32::MIN by {
            assert(d[i] == ts[i]);
        }
        lemma_run_size(d, alloc);
        let st = run_trades(d, alloc);
        let t = ts.last();
        assert(ts[ts.len() - 1] == t);
        lemma_settle_size(st.0, st.1, t, t.quantity as int, alloc);
        let (p, c, r) = settle(st.0, st.1, t, t.quantity as int, alloc);
        assert(abs_i(r) <= abs_i(t.quantity as int));
        assert(trade_size(ts) == trade_size(d) + abs_i(t.quantity as int));
        if r != 0 {
            let nl = OpenLot { trade_id: t.id, date: t.date, quantity: r as i32, price: t.price };
            assert(p.push(nl).drop_last() == p);
            assert(p.push(nl).last() == nl);
            assert(nl.quantity as int == r);
            assert(lot_size(p.push(nl)) == lot_size(p) + abs_i(r));
        }
    }
}

proof fn lemma_insert_size(s: Seq<Trade>, t: Trade)
    ensures
        trade_size(insert_by_date(s, t)) == trade_size(s) + abs_i(t.quantity as int),
    decreases s.len(),
{
    if s.len() > 0 {
        if date_le(s.last().date, t.date) {
            assert(s.push(t).drop_last() == s);
            assert(s.push(t).last() == t);
            assert(insert_by_date(s, t) == s.push(t));
            assert(trade_size(s.push(t)) == trade_size(s) + abs_i(t.quantity as int));
        } else {
            lemma_insert_size(s.drop_last(), t);
            let r = insert_by_date(s.drop_last(), t);
            assert(r.push(s.last()).drop_last() == r);
            assert(r.push(s.last()).last() == s.last());
            assert(insert_by_date(s, t) == r.push(s.last()));
            assert(trade_size(r.push(s.last())) == trade_size(r) + abs_i(s.last().quantity as int));
            assert(trade_size(s) == trade_size(s.drop_last()) + abs_i(s.last().quantity as int));
        }
    } else {
        assert(seq![t].drop_last() == Seq::<Trade>::empty());
        assert(seq![t].last() == t);
        assert(insert_by_date(s, t) == seq![t]);
        assert(trade_size(seq![t]) == trade_size(Seq::<Trade>::empty()) + abs_i(t.quantity as int));
    }
}

proof fn lemma_by_date_size(s: Seq<Trade>)
    ensures
        trade_size(by_date(s)) == trade_size(s),
    decreases s.len(),
{
    if s.len() > 0 {
        lemma_by_date_size(s.drop_last());
        lemma_insert_size(by_date(s.drop_last()), s.last());
    }
}

/// Every share traded is still held or was closed, and each closing accounts
/// for two of them (the opening and the closing trade): the shares traded
/// equal the shares held plus twice the shares closed.
pub proof fn traded_shares_are_held_or_closed(trades: Seq<Trade>, alloc: LotAllocation)
    requires
        well_formed_trades(trades),
    ensures
        trade_size(trades) == lot_size(matched(trades, alloc).0) + 2 * closed_size(matched(trades, alloc).1),
{
    lemma_by_date_well_formed(trades);
    let b = by_date(trades);
    assert forall|i: int| 0 <= i < b.len() implies (#[trigger] b[i]).quantity != i32::MIN by {
        assert(valid_date(b[i].date) && b[i].quantity != i32::MIN);
    }
    lemma_run_size(b, alloc);
    lemma_by_date_size(trades);
}

// ── Closings follow their trades ─────────────────────────────────────────────

/// `c` was closed by trade `t`: at its date and price, a sale closing a long
/// lot (gaining close minus open) and a purchase closing a short one
/// (gaining open minus close).
pub open spec fn closed_by(c: ClosedLot, t: Trade) -> bool {
    &&& t.date == c.close_date
    &&& t.price == c.close_price
    &&& (t.quantity < 0 ==> c.realized_pnl == (c.close_price - c.open_price) * c.quantity)
    &&& (t.quantity > 0 ==> c.realized_pnl == (c.open_price - c.close_price) * c.quantity)
}

/// Every lot of `pool` was opened on or before `d`.
pub open spec fn opened_by(pool: Seq<OpenLot>, d: Date) -> bool {
    forall|i: int| 0 <= i < pool.len() ==> date_le(#[trigger] pool[i].date, d)
}

/// Every closing opened on or before the day it closed.
pub open spec fn closings_in_order(cs: Seq<ClosedLot>) -> bool {
    forall|k: int| 0 <= k < cs.len() ==> date_le(#[trigger] cs[k].open_date, cs[k].close_date)
}

/// Trades in date order.
pub open spec fn dated_in_order(ts: Seq<Trade>) -> bool {
    forall|a: int, b: int| 0 <= a < b < ts.len() ==> date_le(#[trigger] ts[a].date, #[trigger] ts[b].date)
}

proof fn lemma_well_formed_at(ts: Seq<Trade>, n: int)
    requires
        well_formed_trades(ts),
        0 <= n < ts.len(),
    ensures
        valid_date(ts[n].date),
        ts[n].quantity != i32::MIN,
{
    assert(valid_date(ts[n].date) && ts[n].quantity != i32::MIN);
}

#[verifier::spinoff_prover]
proof fn lemma_settle_order(pool: Seq<OpenLot>, closed: Seq<ClosedLot>, t: Trade, rem: int, alloc: LotAllocation)
    requires
        opened_by(pool, t.date),
        closings_in_order(closed),
        abs_i(rem) <= i32::MAX,
        rem == 0 || sgn(rem) == sgn(t.quantity as int),
    ensures
        ({
            let (p, c, r) = settle(pool, closed, t, rem, alloc);
            &&& opened_by(p, t.date)
            &&& closings_in_order(c)
            &&& closed.len() <= c.len()
            &&& c.take(closed.len() as int) == closed
            &&& forall|k: int| closed.len() <= k < c.len() ==> closed_by(#[trigger] c[k], t)
        }),
    decreases abs_i(rem),
{
    if rem != 0 {
        match choice(pool, rem, alloc) {
            None => {
                assert(closed.take(closed.len() as int) == closed);
            },
            Some(b) => {
                if 0 <= b < pool.len() && closable(pool[b], rem) {
                    let lot = pool[b];
                    let q = if abs_i(rem) < abs_i(lot.quantity as int) { abs_i(rem) } else { abs_i(lot.quantity as int) };
                    let left = lot.quantity + q * sgn(rem);
                    assert(closable(lot, rem));
                    if rem > 0 {
                        assert(sgn(rem) == 1);
                        assert(lot.quantity < 0);
                        assert(q * sgn(lot.quantity as int) == -q) by (nonlinear_arith) requires sgn(lot.quantity as int) == -1int;
                    } else {
                        assert(sgn(rem) == -1);
                        assert(lot.quantity > 0);
                        assert(q * sgn(lot.quantity as int) == q) by (nonlinear_arith) requires sgn(lot.quantity as int) == 1int;
                    }
                    let r2 = rem_after(pool, b, rem);
                    assert(abs_i(r2) == abs_i(rem) - q);
                    assert(r2 == 0 || sgn(r2) == sgn(rem));
                    let cl = closing(pool, b, t, rem);
                    assert(date_le(lot.date, t.date));
                    assert(cl.quantity == q);
                    let diff = t.price - lot.price;
                    assert(cl.realized_pnl == diff * sgn(lot.quantity as int) * q) by {
                        assert(-18_446_744_073_709_551_616 <= diff <= 18_446_744_073_709_551_616);
                        assert(-PNL_BOUND <= diff * sgn(lot.quantity as int) * q <= PNL_BOUND) by (nonlinear_arith)
                            requires
                                -18_446_744_073_709_551_616 <= diff <= 18_446_744_073_709_551_616,
                                sgn(lot.quantity as int) == 1 || sgn(lot.quantity as int) == -1,
                                0 <= q <= 2_147_483_647,
                                PNL_BOUND == 79_228_162_514_264_337_593_543_950_336;
                    }
                    if sgn(lot.quantity as int) == 1 {
                        assert(diff * 1 * q == (t.price - lot.price) * q) by (nonlinear_arith)
                            requires diff == t.price - lot.price;
                    } else {
                        assert(diff * (-1) * q == (lot.price - t.price) * q) by (nonlinear_arith)
                            requires diff == t.price - lot.price;
                    }
                    assert(closed_by(cl, t));
                    let p2 = pool_after(pool, b, rem);
                    let c2 = closed.push(cl);
                    assert forall|i: int| 0 <= i < p2.len() implies date_le(#[trigger] p2[i].date, t.date) by {
                        if left == 0 {
                            if i < b { assert(p2[i] == pool[i]); } else { assert(p2[i] == pool[i + 1]); }
                        } else {
                            if i != b { assert(p2[i] == pool[i]); } else { assert(p2[i].date == lot.date); }
                        }
                    }
                    assert forall|k: int| 0 <= k < c2.len() implies date_le(#[trigger] c2[k].open_date, c2[k].close_date) by {
                        if k < closed.len() { assert(c2[k] == closed[k]); }
                    }
                    lemma_settle_order(p2, c2, t, r2, alloc);
                    let (p, c, r) = settle(p2, c2, t, r2, alloc);
                    assert(c.take(closed.len() as int) == closed) by {
                        assert(c.take(c2.len() as int).take(closed.len() as int) == c.take(closed.len() as int));
                        assert(c2.take(closed.len() as int) == closed);
                    }
                    assert forall|k: int| closed.len() <= k < c.len() implies closed_by(#[trigger] c[k], t) by {
                        if k == closed.len() {
                            assert(c[k] == c.take(c2.len() as int)[k]);
                            assert(c2[k] == cl);
                        }
                    }
                } else {
                    assert(closed.take(closed.len() as int) == closed);
                }
            },
        }
    } else {
        assert(closed.take(closed.len() as int) == closed);
    }
}

#[verifier::spinoff_prover]
proof fn lemma_run_order(ts: Seq<Trade>, alloc: LotAllocation)
    requires
        well_formed_trades(ts),
        dated_in_order(ts),
    ensures
        closings_in_order(run_trades(ts, alloc).1),
        forall|k: int| 0 <= k < run_trades(ts, alloc).1.len()
            ==> exists|i: int| 0 <= i < ts.len() && closed_by(#[trigger] run_trades(ts, alloc).1[k], ts[i]),
        ts.len() > 0 ==> opened_by(run_trades(ts, alloc).0, ts.last().date),
    decreases ts.len(),
{
    if ts.len() > 0 {
        let d = ts.drop_last();
        assert forall|i: int| 0 <= i < d.len() implies valid_date(#[trigger] d[i].date) && d[i].quantity != i32::MIN by {
            assert(d[i] == ts[i]);
        }
        assert forall|a: int, b: int| 0 <= a < b < d.len() implies date_le(#[trigger] d[a].date, #[trigger] d[b].date) by {
            assert(d[a] == ts[a] && d[b] == ts[b]);
        }
        lemma_run_order(d, alloc);
        let st = run_trades(d, alloc);
        let t = ts.last();
        let n = ts.len() - 1;
        assert(ts[n] == t);
        lemma_well_formed_at(ts, n);
        assert(opened_by(st.0, t.date)) by {
            if d.len() > 0 {
                assert(date_le(ts[n - 1].date, ts[n].date));
                assert(d.last() == ts[n - 1]);
            }
        }
        if t.quantity > 0 { assert(sgn(t.quantity as int) == 1); }
        if t.quantity < 0 { assert(sgn(t.quantity as int) == -1); }
        lemma_settle_order(st.0, st.1, t, t.quantity as int, alloc);
        let (p, c, r) = settle(st.0, st.1, t, t.quantity as int, alloc);
        assert forall|k: int| 0 <= k < c.len() implies exists|i: int| 0 <= i < ts.len() && closed_by(#[trigger] c[k], ts[i]) by {
            if k < st.1.len() {
                assert(c[k] == c.take(st.1.len() as int)[k]);
                let i = choose|i: int| 0 <= i < d.len() && closed_by(st.1[k], d[i]);
                assert(ts[i] == d[i]);
            } else {
                assert(closed_by(c[k], ts[n]));
            }
        }
        if r != 0 {
            let nl = OpenLot { trade_id: t.id, date: t.date, quantity: r as i32, price: t.price };
            let p2 = p.push(nl);
            assert forall|i: int| 0 <= i < p2.len() implies date_le(#[trigger] p2[i].date, t.date) by {
                if i < p.len() { assert(p2[i] == p[i]); }
            }
        }
    }
}

proof fn lemma_insert_in_order(s: Seq<Trade>, t: Trade)
    requires
        dated_in_order(s),
    ensures
        dated_in_order(insert_by_date(s, t)),
    decreases s.len(),
{
    if s.len() > 0 {
        if date_le(s.last().date, t.date) {
            let r = s.push(t);
            assert forall|a: int, b: int| 0 <= a < b < r.len() implies date_le(#[trigger] r[a].date, #[trigger] r[b].date) by {
                if b == s.len() {
                    assert(r[a] == s[a]);
                    if a < s.len() - 1 { assert(date_le(s[a].date, s[s.len() - 1].date)); }
                } else {
                    assert(r[a] == s[a] && r[b] == s[b]);
                }
            }
        } else {
            let d = s.drop_last();
            assert forall|a: int, b: int| 0 <= a < b < d.len() implies date_le(#[trigger] d[a].date, #[trigger] d[b].date) by {
                assert(d[a] == s[a] && d[b] == s[b]);
            }
            lemma_insert_in_order(d, t);
            crate::lots::lemma_insert_elements(d, t);
            let r = insert_by_date(d, t);
            let out = r.push(s.last());
            assert forall|a: int, b: int| 0 <= a < b < out.len() implies date_le(#[trigger] out[a].date, #[trigger] out[b].date) by {
                if b == r.len() {
                    assert(out[a] == r[a]);
                    assert(r.contains(r[a]));
                    if r[a] != t {
                        assert(d.contains(r[a]));
                        let m = choose|m: int| 0 <= m < d.len() && d[m] == r[a];
                        assert(s[m] == d[m]);
                        assert(date_le(s[m].date, s[s.len() - 1].date));
                    }
                } else {
                    assert(out[a] == r[a] && out[b] == r[b]);
                }
            }
        }
    }
}

proof fn lemma_by_date_in_order(s: Seq<Trade>)
    ensures
        dated_in_order(by_date(s)),
    decreases s.len(),
{
    if s.len() > 0 {
        lemma_by_date_in_order(s.drop_last());
        lemma_insert_in_order(by_date(s.drop_last()), s.last());
    }
}

/// Every closing opened on or before the day it closed, and was closed by a
/// trade of the log at its date and price: a sale closes a long lot and
/// gains close minus open; a purchase closes a short lot and gains open minus
/// close.
pub proof fn closings_follow_their_trades(trades: Seq<Trade>, alloc: LotAllocation)
    requires
        well_formed_trades(trades),
    ensures
        closings_in_order(matched(trades, alloc).1),
        forall|k: int| 0 <= k < matched(trades, alloc).1.len()
            ==> exists|i: int| 0 <= i < trades.len() && closed_by(#[trigger] matched(trades, alloc).1[k], trades[i]),
{
    let b = by_date(trades);
    lemma_by_date_well_formed(trades);
    lemma_by_date_in_order(trades);
    lemma_run_order(b, alloc);
    crate::lots::lemma_by_date_elements(trades);
    let cs = matched(trades, alloc).1;
    assert forall|k: int| 0 <= k < cs.len() implies exists|i: int| 0 <= i < trades.len() && closed_by(#[trigger] cs[k], trades[i]) by {
        let i = choose|i: int| 0 <= i < b.len() && closed_by(cs[k], b[i]);
        assert(b.contains(b[i]));
        assert(trades.contains(b[i]));
        let j = choose|j: int| 0 <= j < trades.len() && trades[j] == b[i];
        assert(closed_by(cs[k], trades[j]));
    }
}

// ── Which lot a trade closes ─────────────────────────────────────────────────

/// Under FIFO a trade closes, of the lots it can close, one opened on the
/// earliest date (the first in the pool of that date), whether it sells
/// against long lots or buys back short ones; some lot is chosen exactly
/// when one can be closed.
pub proof fn fifo_takes_the_earliest_lot(pool: Seq<OpenLot>, rem: int)
    ensures
        (exists|i: int| 0 <= i < pool.len() && closable(#[trigger] pool[i], rem))
            <==> choice(pool, rem, LotAllocation::Fifo) is Some,
        choice(pool, rem, LotAllocation::Fifo) matches Some(b) ==> {
            &&& 0 <= b < pool.len()
            &&& closable(pool[b], rem)
            &&& forall|j: int| 0 <= j < pool.len() && closable(#[trigger] pool[j], rem)
                ==> date_le(pool[b].date, pool[j].date)
            &&& forall|j: int| 0 <= j < b && closable(#[trigger] pool[j], rem)
                ==> !date_le(pool[j].date, pool[b].date)
        },
{
    lemma_choice_found(pool, rem, LotAllocation::Fifo);
}

/// Under MinTax a sale closes, of the long lots, one bought at the highest
/// price, and a purchase closes, of the short lots, one sold at the lowest
/// price (the last in the pool at that price); some lot is chosen exactly
/// when one can be closed.
pub proof fn min_tax_takes_the_least_gain(pool: Seq<OpenLot>, rem: int)
    ensures
        (exists|i: int| 0 <= i < pool.len() && closable(#[trigger] pool[i], rem))
            <==> choice(pool, rem, LotAllocation::MinTax) is Some,
        choice(pool, rem, LotAllocation::MinTax) matches Some(b) ==> {
            &&& 0 <= b < pool.len()
            &&& closable(pool[b], rem)
            &&& rem < 0 ==> forall|j: int| 0 <= j < pool.len() && closable(#[trigger] pool[j], rem)
                ==> pool[j].price <= pool[b].price
            &&& rem > 0 ==> forall|j: int| 0 <= j < pool.len() && closable(#[trigger] pool[j], rem)
                ==> pool[b].price <= pool[j].price
            &&& rem < 0 ==> forall|j: int| b < j < pool.len() && closable(#[trigger] pool[j], rem)
                ==> pool[j].price < pool[b].price
            &&& rem > 0 ==> forall|j: int| b < j < pool.len() && closable(#[trigger] pool[j], rem)
                ==> pool[b].price < pool[j].price
        },
{
    lemma_choice_found(pool, rem, LotAllocation::MinTax);
}

proof fn lemma_choice_found(pool: Seq<OpenLot>, rem: int, alloc: LotAllocation)
    ensures
        (exists|i: int| 0 <= i < pool.len() && closable(#[trigger] pool[i], rem)) <==> choice(pool, rem, alloc) is Some,
        choice(pool, rem, alloc) matches Some(b) ==> is_choice(pool, rem, alloc, b),
{
    if exists|i: int| 0 <= i < pool.len() && closable(#[trigger] pool[i], rem) {
        lemma_choice_exists_within(pool, rem, alloc, pool.len() as int);
        let b = choose|b: int| #[trigger] chosen_within(pool, rem, alloc, b, pool.len() as int);
        assert(is_choice(pool, rem, alloc, b));
    }
    if exists|b: int| is_choice(pool, rem, alloc, b) {
        let b = choose|b: int| is_choice(pool, rem, alloc, b);
        assert(is_choice(pool, rem, alloc, b));
        assert(closable(pool[b], rem));
    }
}

/// Settling only adds closings after those already recorded.
proof fn lemma_settle_extends(pool: Seq<OpenLot>, closed: Seq<ClosedLot>, t: Trade, rem: int, alloc: LotAllocation)
    ensures
        closed.len() <= settle(pool, closed, t, rem, alloc).1.len(),
        settle(pool, closed, t, rem, alloc).1.take(closed.len() as int) == closed,
    decreases abs_i(rem),
{
    let c = settle(pool, closed, t, rem, alloc).1;
    if rem != 0 {
        if let Some(b) = choice(pool, rem, alloc) {
            if 0 <= b < pool.len() && closable(pool[b], rem) {
                let lot = pool[b];
                let q = if abs_i(rem) < abs_i(lot.quantity as int) { abs_i(rem) } else { abs_i(lot.quantity as int) };
                if rem > 0 {
                    assert(q * sgn(lot.quantity as int) == -q) by (nonlinear_arith) requires sgn(lot.quantity as int) == -1int;
                } else {
                    assert(q * sgn(lot.quantity as int) == q) by (nonlinear_arith) requires sgn(lot.quantity as int) == 1int;
                }
                assert(abs_i(rem_after(pool, b, rem)) < abs_i(rem));
                let more = closed.push(closing(pool, b, t, rem));
                lemma_settle_extends(pool_after(pool, b, rem), more, t, rem_after(pool, b, rem), alloc);
                assert(c.take(more.len() as int) == more);
                assert(c.take(closed.len() as int) =~= closed) by {
                    assert forall|k: int| 0 <= k < closed.len() implies c.take(closed.len() as int)[k] == closed[k] by {
                        assert(c.take(more.len() as int)[k] == more[k]);
                    }
                }
                return;
            }
        }
    }
    assert(closed.take(closed.len() as int) =~= closed);
}

/// The first closing a trade makes takes the lot its allocation names: under
/// FIFO one opened no later than any lot it could close; under MinTax, for a
/// sale, one bought at no lower a price than any long lot, and for a
/// purchase, one sold at no higher a price than any short lot. A trade that
/// can close a lot closes one, at its own date and price.
pub proof fn first_closing_follows_the_allocation(
    pool: Seq<OpenLot>,
    closed: Seq<ClosedLot>,
    t: Trade,
    rem: int,
    alloc: LotAllocation,
)
    requires
        rem != 0,
        exists|i: int| 0 <= i < pool.len() && closable(#[trigger] pool[i], rem),
    ensures
        ({
            let c = settle(pool, closed, t, rem, alloc).1;
            let k = closed.len() as int;
            &&& k < c.len()
            &&& exists|b: int| 0 <= b < pool.len() && closable(#[trigger] pool[b], rem) && c[k] == closing(pool, b, t, rem)
            &&& c[k].close_date == t.date
            &&& c[k].close_price == t.price
            &&& alloc == LotAllocation::Fifo ==> forall|j: int| 0 <= j < pool.len() && closable(#[trigger] pool[j], rem)
                ==> date_le(c[k].open_date, pool[j].date)
            &&& alloc == LotAllocation::MinTax && rem < 0 ==> forall|j: int| 0 <= j < pool.len() && closable(#[trigger] pool[j], rem)
                ==> pool[j].price <= c[k].open_price
            &&& alloc == LotAllocation::MinTax && rem > 0 ==> forall|j: int| 0 <= j < pool.len() && closable(#[trigger] pool[j], rem)
                ==> c[k].open_price <= pool[j].price
        }),
{
    lemma_choice_found(pool, rem, alloc);
    let b = choice(pool, rem, alloc).unwrap();
    assert(is_choice(pool, rem, alloc, b));
    let more = closed.push(closing(pool, b, t, rem));
    lemma_settle_extends(pool_after(pool, b, rem), more, t, rem_after(pool, b, rem), alloc);
    let c = settle(pool, closed, t, rem, alloc).1;
    assert(c == settle(pool_after(pool, b, rem), more, t, rem_after(pool, b, rem), alloc).1);
    assert(c.take(more.len() as int)[closed.len() as int] == more[closed.len() as int]);
    assert(c[closed.len() as int] == closing(pool, b, t, rem));
}

} // verus!
