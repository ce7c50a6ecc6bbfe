//! Lot matching: turning a trade log into open lots and closed (realised)
//! lots.
//!
//! Trades are taken in date order (same-day trades in log order). A trade of
//! the opposite sign to the open lots closes them, one lot at a time, chosen
//! by the allocation method; whatever it does not close opens a new lot.

use vstd::prelude::*;
use crate::calendar::{date_le, date_le_exec, day_number_exec, days_between, valid_date, Date};

verus! {

/// Sale/exercise lot-matching method. FIFO closes the oldest lot first;
/// MinTax closes the lot that realises the least gain (highest cost for
/// longs, lowest cost for shorts).
#[derive(Debug, Clone, Copy, PartialEq, Eq, Structural)]
pub enum LotAllocation {
    Fifo,
    MinTax,
}

impl Default for LotAllocation {
    fn default() -> (r: LotAllocation)
        ensures
            r == LotAllocation::Fifo,
    {
        LotAllocation::Fifo
    }
}

/// One trade: `quantity` signed (positive buys or opens long, negative sells
/// or opens short), `price` per share in micros (for options the per-share
/// premium).
#[derive(Debug, Clone, Copy, PartialEq, Eq, Structural)]
pub struct Trade {
    pub id: u128,
    pub date: Date,
    pub quantity: i32,
    pub price: i64,
}

/// What remains open of one trade.
#[derive(Debug, Clone, Copy, PartialEq, Eq, Structural)]
pub struct OpenLot {
    pub trade_id: u128,
    pub date: Date,
    pub quantity: i32,
    pub price: i64,
}

/// Part of a lot closed by a later trade; `realized_pnl` in micros, per share
/// quantity as traded (no contract multiplier).
#[derive(Debug, Clone, Copy, PartialEq, Eq, Structural)]
pub struct ClosedLot {
    pub open_date: Date,
    pub close_date: Date,
    pub quantity: i32,
    pub open_price: i64,
    pub close_price: i64,
    pub realized_pnl: i128,
    pub is_long_term: bool,
}

pub open spec fn sgn(x: int) -> int {
    if x > 0 { 1 } else if x < 0 { -1 } else { 0 }
}

pub open spec fn abs_i(x: int) -> int {
    if x < 0 { -x } else { x }
}

// ── Date order ───────────────────────────────────────────────────────────────

/// `t` placed into date-sorted `s` after every trade dated on or before it.
pub open spec fn insert_by_date(s: Seq<Trade>, t: Trade) -> Seq<Trade>
    decreases s.len(),
{
    if s.len() == 0 {
        seq![t]
    } else if date_le(s.last().date, t.date) {
        s.push(t)
    } else {
        insert_by_date(s.drop_last(), t).push(s.last())
    }
}

/// The trades in date order; trades on the same day keep their log order.
pub open spec fn by_date(s: Seq<Trade>) -> Seq<Trade>
    decreases s.len(),
{
    if s.len() == 0 {
        s
    } else {
        insert_by_date(by_date(s.drop_last()), s.last())
    }
}

proof fn lemma_insert_at(s: Seq<Trade>, t: Trade, j: int)
    requires
        0 <= j <= s.len(),
        forall|k: int| j <= k < s.len() ==> !date_le(#[trigger] s[k].date, t.date),
        j == 0 || date_le(s[j - 1].date, t.date),
    ensures
        insert_by_date(s, t) == s.take(j).push(t) + s.skip(j),
    decreases s.len(),
{
    if s.len() == 0 {
        assert(s.take(j).push(t) + s.skip(j) == seq![t]);
    } else if j == s.len() {
        assert(s.take(j) == s);
        assert(s.skip(j).len() == 0);
        assert(s.take(j).push(t) + s.skip(j) == s.push(t));
    } else {
        let d = s.drop_last();
        assert(!date_le(s[s.len() - 1].date, t.date));
        assert forall|k: int| j <= k < d.len() implies !date_le(#[trigger] d[k].date, t.date) by {
            assert(d[k] == s[k]);
        }
        if j > 0 {
            assert(d[j - 1] == s[j - 1]);
        }
        lemma_insert_at(d, t, j);
        assert(d.take(j) == s.take(j));
        assert(d.skip(j).push(s.last()) == s.skip(j));
        assert((d.take(j).push(t) + d.skip(j)).push(s.last()) == d.take(j).push(t) + d.skip(j).push(s.last()));
    }
}

/// The trades of `trades` in date order (see [`by_date`]).
fn sort_by_date(trades: &[Trade]) -> (r: Vec<Trade>)
    ensures
        r@ == by_date(trades@),
{
    let mut out: Vec<Trade> = Vec::new();
    let mut i: usize = 0;
    while i < trades.len()
        invariant
            i <= trades.len(),
            out@ == by_date(trades@.take(i as int)),
        decreases trades.len() - i,
    {
        let t = trades[i];
        let mut j = out.len();
        while j > 0 && !date_le_exec(out[j - 1].date, t.date)
            invariant
                j <= out.len(),
                forall|k: int| j <= k < out.len() ==> !date_le(#[trigger] out@[k].date, t.date),
            decreases j,
        {
            j -= 1;
        }
        proof {
            lemma_insert_at(out@, t, j as int);
            assert(trades@.take(i + 1).drop_last() == trades@.take(i as int));
            assert(trades@.take(i + 1).last() == t);
        }
        let ghost before = out@;
        out.insert(j, t);
        assert(out@ == before.take(j as int).push(t) + before.skip(j as int));
        i += 1;
    }
    assert(trades@.take(trades.len() as int) == trades@);
    out
}

// ── Choosing the lot to close ────────────────────────────────────────────────

/// A lot that a trade with `rem` shares still to place can close: non-empty
/// and on the other side.
pub open spec fn closable(l: OpenLot, rem: int) -> bool {
    l.quantity != 0 && sgn(l.quantity as int) != sgn(rem)
}

/// Lot `b` is the choice among the closable lots of `pool[..n]`:
/// FIFO takes the earliest date (the first of equals); MinTax takes, when
/// closing longs (`rem < 0`), the highest price, and when closing shorts the
/// lowest (the last of equals in both cases).
pub open spec fn chosen_within(pool: Seq<OpenLot>, rem: int, alloc: LotAllocation, b: int, n: int) -> bool {
    &&& 0 <= b < n <= pool.len()
    &&& closable(pool[b], rem)
    &&& match alloc {
        LotAllocation::Fifo => {
            &&& forall|j: int| 0 <= j < n && closable(#[trigger] pool[j], rem) ==> date_le(pool[b].date, pool[j].date)
            &&& forall|j: int| 0 <= j < b && closable(#[trigger] pool[j], rem) ==> !date_le(pool[j].date, pool[b].date)
        },
        LotAllocation::MinTax => if rem < 0 {
            &&& forall|j: int| 0 <= j < n && closable(#[trigger] pool[j], rem) ==> pool[j].price <= pool[b].price
            &&& forall|j: int| b < j < n && closable(#[trigger] pool[j], rem) ==> pool[j].price < pool[b].price
        } else {
            &&& forall|j: int| 0 <= j < n && closable(#[trigger] pool[j], rem) ==> pool[b].price <= pool[j].price
            &&& forall|j: int| b < j < n && closable(#[trigger] pool[j], rem) ==> pool[b].price < pool[j].price
        },
    }
}

pub open spec fn is_choice(pool: Seq<OpenLot>, rem: int, alloc: LotAllocation, b: int) -> bool {
    chosen_within(pool, rem, alloc, b, pool.len() as int)
}

/// The lot the next closing takes, if any lot is closable.
pub open spec fn choice(pool: Seq<OpenLot>, rem: int, alloc: LotAllocation) -> Option<int> {
    if exists|b: int| is_choice(pool, rem, alloc, b) {
        Some(choose|b: int| is_choice(pool, rem, alloc, b))
    } else {
        None
    }
}

proof fn lemma_choice_unique(pool: Seq<OpenLot>, rem: int, alloc: LotAllocation, a: int, b: int)
    requires
        is_choice(pool, rem, alloc, a),
        is_choice(pool, rem, alloc, b),
    ensures
        a == b,
{
    if a < b {
        assert(closable(pool[a], rem));
    } else if b < a {
        assert(closable(pool[b], rem));
    }
}

proof fn lemma_choice_is(pool: Seq<OpenLot>, rem: int, alloc: LotAllocation, b: int)
    requires
        is_choice(pool, rem, alloc, b),
    ensures
        choice(pool, rem, alloc) == Some(b),
{
    let c = choose|x: int| is_choice(pool, rem, alloc, x);
    lemma_choice_unique(pool, rem, alloc, b, c);
}

/// Index of the lot to close next (see [`choice`]).
fn choose_lot(pool: &Vec<OpenLot>, rem: i32, alloc: LotAllocation) -> (r: Option<usize>)
    requires
        rem != 0,
    ensures
        r == (match choice(pool@, rem as int, alloc) { Some(b) => Some(b as usize), None => None }),
        r matches Some(b) ==> is_choice(pool@, rem as int, alloc, b as int),
{
    let mut best: Option<usize> = None;
    let mut i: usize = 0;
    while i < pool.len()
        invariant
            i <= pool.len(),
            rem != 0,
            best matches Some(b) ==> chosen_within(pool@, rem as int, alloc, b as int, i as int),
            best is None ==> forall|j: int| 0 <= j < i ==> !closable(#[trigger] pool@[j], rem as int),
        decreases pool.len() - i,
    {
        let l = pool[i];
        let cand = l.quantity != 0 && ((l.quantity > 0) != (rem > 0));
        assert(cand == closable(pool@[i as int], rem as int));
        if cand {
            match best {
                None => {
                    best = Some(i);
                },
                Some(b) => {
                    let pb = pool[b];
                    let take = match alloc {
                        LotAllocation::Fifo => !date_le_exec(pb.date, l.date),
                        LotAllocation::MinTax => if rem < 0 { l.price >= pb.price } else { l.price <= pb.price },
                    };
                    if take {
                        best = Some(i);
                    }
                },
            }
        }
        i += 1;
    }
    match best {
        Some(b) => {
            proof { lemma_choice_is(pool@, rem as int, alloc, b as int); }
            Some(b)
        },
        None => {
            proof {
                assert(!exists|b: int| is_choice(pool@, rem as int, alloc, b));
            }
            None
        },
    }
}

// ── Closing ──────────────────────────────────────────────────────────────────

/// The part of `pool[b]` that a trade `t` with `rem` still to place closes.
pub open spec fn closing(pool: Seq<OpenLot>, b: int, t: Trade, rem: int) -> ClosedLot {
    let lot = pool[b];
    let q = if abs_i(rem) < abs_i(lot.quantity as int) { abs_i(rem) } else { abs_i(lot.quantity as int) };
    ClosedLot {
        open_date: lot.date,
        close_date: t.date,
        quantity: q as i32,
        open_price: lot.price,
        close_price: t.price,
        realized_pnl: ((t.price - lot.price) * sgn(lot.quantity as int) * q) as i128,
        is_long_term: days_between(lot.date, t.date) > 365,
    }
}

/// The pool once `pool[b]` has been reduced by the closing (and removed when
/// nothing is left of it).
pub open spec fn pool_after(pool: Seq<OpenLot>, b: int, rem: int) -> Seq<OpenLot> {
    let lot = pool[b];
    let q = if abs_i(rem) < abs_i(lot.quantity as int) { abs_i(rem) } else { abs_i(lot.quantity as int) };
    let left = lot.quantity + q * sgn(rem);
    if left == 0 {
        pool.remove(b)
    } else {
        pool.update(b, OpenLot { quantity: left as i32, ..lot })
    }
}

/// What is still to place once the closing is done.
pub open spec fn rem_after(pool: Seq<OpenLot>, b: int, rem: int) -> int {
    let lot = pool[b];
    let q = if abs_i(rem) < abs_i(lot.quantity as int) { abs_i(rem) } else { abs_i(lot.quantity as int) };
    rem + q * sgn(lot.quantity as int)
}

/// Closes lots against trade `t` until nothing is left to place or no lot is
/// closable; gives the pool, the closed lots and what is left to place.
pub open spec fn settle(pool: Seq<OpenLot>, closed: Seq<ClosedLot>, t: Trade, rem: int, alloc: LotAllocation) -> (
    Seq<OpenLot>,
    Seq<ClosedLot>,
    int,
)
    decreases abs_i(rem),
{
    if rem == 0 {
        (pool, closed, 0)
    } else {
        match choice(pool, rem, alloc) {
            None => (pool, closed, rem),
            Some(b) => {
                if 0 <= b < pool.len() && closable(pool[b], rem) {
                    settle(pool_after(pool, b, rem), closed.push(closing(pool, b, t, rem)), t, rem_after(pool, b, rem), alloc)
                } else {
                    (pool, closed, rem)
                }
            },
        }
    }
}

/// The state after one more trade: it closes what it can; the rest opens a
/// new lot dated and priced as the trade.
pub open spec fn apply_trade(st: (Seq<OpenLot>, Seq<ClosedLot>), t: Trade, alloc: LotAllocation) -> (
    Seq<OpenLot>,
    Seq<ClosedLot>,
) {
    let (pool, closed, rem) = settle(st.0, st.1, t, t.quantity as int, alloc);
    if rem != 0 {
        (pool.push(OpenLot { trade_id: t.id, date: t.date, quantity: rem as i32, price: t.price }), closed)
    } else {
        (pool, closed)
    }
}

/// Open and closed lots after the trades in the given order.
pub open spec fn run_trades(trades: Seq<Trade>, alloc: LotAllocation) -> (Seq<OpenLot>, Seq<ClosedLot>)
    decreases trades.len(),
{
    if trades.len() == 0 {
        (Seq::empty(), Seq::empty())
    } else {
        apply_trade(run_trades(trades.drop_last(), alloc), trades.last(), alloc)
    }
}

/// What [`match_trades`] returns: the trades processed in date order.
pub open spec fn matched(trades: Seq<Trade>, alloc: LotAllocation) -> (Seq<OpenLot>, Seq<ClosedLot>) {
    run_trades(by_date(trades), alloc)
}

/// Trades [`match_trades`] can process: real dates, and no quantity of
/// `i32::MIN` (whose magnitude an `i32` cannot hold).
pub open spec fn well_formed_trades(trades: Seq<Trade>) -> bool {
    forall|i: int| 0 <= i < trades.len() ==> valid_date(#[trigger] trades[i].date) && trades[i].quantity != i32::MIN
}

/// Lots a pool can hold: a real date and a quantity whose magnitude fits.
pub open spec fn sound_pool(pool: Seq<OpenLot>) -> bool {
    forall|i: int| 0 <= i < pool.len() ==> valid_date(#[trigger] pool[i].date) && pool[i].quantity != i32::MIN
}

pub(crate) proof fn lemma_insert_elements(s: Seq<Trade>, t: Trade)
    ensures
        forall|x: Trade| #[trigger] insert_by_date(s, t).contains(x) ==> s.contains(x) || x == t,
        insert_by_date(s, t).len() == s.len() + 1,
    decreases s.len(),
{
    if s.len() > 0 && !date_le(s.last().date, t.date) {
        lemma_insert_elements(s.drop_last(), t);
        assert forall|x: Trade| #[trigger] insert_by_date(s, t).contains(x) implies s.contains(x) || x == t by {
            let r = insert_by_date(s.drop_last(), t);
            let k = choose|k: int| 0 <= k < r.push(s.last()).len() && r.push(s.last())[k] == x;
            if k < r.len() {
                assert(r.contains(x));
                if s.drop_last().contains(x) {
                    let m = choose|m: int| 0 <= m < s.drop_last().len() && s.drop_last()[m] == x;
                    assert(s[m] == x);
                }
            } else {
                assert(s[s.len() - 1] == x);
            }
        }
    } else if s.len() > 0 {
        assert forall|x: Trade| #[trigger] insert_by_date(s, t).contains(x) implies s.contains(x) || x == t by {
            let k = choose|k: int| 0 <= k < s.push(t).len() && s.push(t)[k] == x;
            if k < s.len() {
                assert(s[k] == x);
            }
        }
    }
}

/// Sorting by date keeps exactly the trades it was given.
pub proof fn lemma_by_date_elements(s: Seq<Trade>)
    ensures
        forall|x: Trade| #[trigger] by_date(s).contains(x) ==> s.contains(x),
        by_date(s).len() == s.len(),
    decreases s.len(),
{
    if s.len() > 0 {
        lemma_by_date_elements(s.drop_last());
        lemma_insert_elements(by_date(s.drop_last()), s.last());
        assert forall|x: Trade| #[trigger] by_date(s).contains(x) implies s.contains(x) by {
            if by_date(s.drop_last()).contains(x) {
                let m = choose|m: int| 0 <= m < s.drop_last().len() && s.drop_last()[m] == x;
                assert(s[m] == x);
            } else {
                assert(s[s.len() - 1] == x);
            }
        }
    }
}

/// Closes part of `pool[idx]` against trade `t` with `rem` still to place;
/// returns what is then left to place.
fn close_one(pool: &mut Vec<OpenLot>, closed: &mut Vec<ClosedLot>, t: Trade, rem: i32, idx: usize) -> (r: i32)
    requires
        sound_pool(old(pool)@),
        valid_date(t.date),
        rem != i32::MIN,
        rem != 0,
        idx < old(pool)@.len(),
        closable(old(pool)@[idx as int], rem as int),
    ensures
        final(pool)@ == pool_after(old(pool)@, idx as int, rem as int),
        final(closed)@ == old(closed)@.push(closing(old(pool)@, idx as int, t, rem as int)),
        r as int == rem_after(old(pool)@, idx as int, rem as int),
        sound_pool(final(pool)@),
        r != i32::MIN,
        abs_i(r as int) < abs_i(rem as int),
        r == 0 || sgn(r as int) == sgn(rem as int),
{
    let lot = pool[idx];
    let ra: i32 = if rem < 0 { -rem } else { rem };
    let la: i32 = if lot.quantity < 0 { -lot.quantity } else { lot.quantity };
    let close_qty: i32 = if ra < la { ra } else { la };
    let lot_sign: i32 = if lot.quantity > 0 { 1 } else { -1 };
    let rem_sign: i32 = if rem > 0 { 1 } else { -1 };
    let diff: i128 = t.price as i128 - lot.price as i128;
    let signed: i128 = if lot_sign == 1 { diff } else { -diff };
    assert(signed * (close_qty as i128) <= 85_070_591_730_234_615_865_843_651_857_942_052_864
        && signed * (close_qty as i128) >= -85_070_591_730_234_615_865_843_651_857_942_052_864)
        by (nonlinear_arith)
        requires
            -18_446_744_073_709_551_616 <= signed <= 18_446_744_073_709_551_616,
            0 <= close_qty <= 2_147_483_647;
    let pnl: i128 = signed * (close_qty as i128);
    assert(pnl == (t.price - lot.price) * sgn(lot.quantity as int) * close_qty) by (nonlinear_arith)
        requires
            pnl == signed * close_qty,
            lot_sign == 1 ==> signed == diff,
            lot_sign == -1 ==> signed == -diff,
            lot_sign == 1 || lot_sign == -1,
            diff == t.price - lot.price,
            lot_sign == sgn(lot.quantity as int);
    let holding = day_number_exec(t.date) - day_number_exec(lot.date);
    closed.push(ClosedLot {
        open_date: lot.date,
        close_date: t.date,
        quantity: close_qty,
        open_price: lot.price,
        close_price: t.price,
        realized_pnl: pnl,
        is_long_term: holding > 365,
    });
    let left: i32 = lot.quantity + close_qty * rem_sign;
    let ghost p0 = pool@;
    if left == 0 {
        pool.remove(idx);
    } else {
        pool.set(idx, OpenLot { trade_id: lot.trade_id, date: lot.date, quantity: left, price: lot.price });
    }
    proof {
        assert forall|i: int| 0 <= i < pool@.len() implies valid_date(#[trigger] pool@[i].date) && pool@[i].quantity != i32::MIN by {
            if left == 0 {
                if i >= idx {
                    assert(pool@[i] == p0[i + 1]);
                    assert(valid_date(p0[i + 1].date));
                } else {
                    assert(pool@[i] == p0[i]);
                    assert(valid_date(p0[i].date));
                }
            } else if i != idx {
                assert(pool@[i] == p0[i]);
                assert(valid_date(p0[i].date));
            } else {
                assert(pool@[i].quantity == left);
                assert(pool@[i].date == p0[i].date);
                assert(valid_date(p0[i].date));
            }
        }
    }
    rem + close_qty * lot_sign
}

/// Closes lots of `pool` against trade `t` (see [`settle`]); returns what is
/// left to place.
fn settle_trade(pool: &mut Vec<OpenLot>, closed: &mut Vec<ClosedLot>, t: Trade, alloc: LotAllocation) -> (rem: i32)
    requires
        sound_pool(old(pool)@),
        valid_date(t.date),
        t.quantity != i32::MIN,
    ensures
        settle(old(pool)@, old(closed)@, t, t.quantity as int, alloc) == (final(pool)@, final(closed)@, rem as int),
        sound_pool(final(pool)@),
        rem != i32::MIN,
        abs_i(rem as int) <= abs_i(t.quantity as int),
        rem == 0 || sgn(rem as int) == sgn(t.quantity as int),
{
    let mut remaining: i32 = t.quantity;
    let mut done = false;
    while !done
        invariant
            settle(old(pool)@, old(closed)@, t, t.quantity as int, alloc) == settle(pool@, closed@, t, remaining as int, alloc),
            sound_pool(pool@),
            valid_date(t.date),
            remaining != i32::MIN,
            abs_i(remaining as int) <= abs_i(t.quantity as int),
            remaining == 0 || sgn(remaining as int) == sgn(t.quantity as int),
            done ==> settle(pool@, closed@, t, remaining as int, alloc) == (pool@, closed@, remaining as int),
        decreases abs_i(remaining as int) + (if done { 0int } else { 1int }),
    {
        if remaining == 0 {
            done = true;
        } else {
            match choose_lot(pool, remaining, alloc) {
                None => {
                    done = true;
                },
                Some(idx) => {
                    let ghost p0 = pool@;
                    let ghost c0 = closed@;
                    let ghost r0 = remaining as int;
                    remaining = close_one(pool, closed, t, remaining, idx);
                    proof {
                        assert(settle(p0, c0, t, r0, alloc) == settle(pool@, closed@, t, remaining as int, alloc));
                    }
                },
            }
        }
    }
    remaining
}

/// Matches buys and sells using the given allocation method.
///
/// Processes trades in chronological order (same-day trades in log order).
/// When a trade of opposite sign to the open lots arrives, it closes them one
/// at a time: FIFO closes the oldest first; MinTax closes the lot that
/// realises the least gain. A closed lot is long-term when held more than
/// 365 days. Whatever a trade does not close opens a new lot.
pub fn match_trades(trades: &[Trade], allocation: LotAllocation) -> (r: (Vec<OpenLot>, Vec<ClosedLot>))
    requires
        well_formed_trades(trades@),
    ensures
        (r.0@, r.1@) == matched(trades@, allocation),
{
    let sorted = sort_by_date(trades);
    proof {
        lemma_by_date_elements(trades@);
        assert forall|i: int| 0 <= i < sorted@.len() implies valid_date(#[trigger] sorted@[i].date) && sorted@[i].quantity != i32::MIN by {
            assert(by_date(trades@).contains(sorted@[i]));
            let k = choose|k: int| 0 <= k < trades@.len() && trades@[k] == sorted@[i];
            assert(valid_date(trades@[k].date));
        }
    }
    let mut pool: Vec<OpenLot> = Vec::new();
    let mut closed: Vec<ClosedLot> = Vec::new();
    let mut i: usize = 0;
    while i < sorted.len()
        invariant
            i <= sorted.len(),
            (pool@, closed@) == run_trades(sorted@.take(i as int), allocation),
            sound_pool(pool@),
            forall|k: int| 0 <= k < sorted@.len() ==> valid_date(#[trigger] sorted@[k].date) && sorted@[k].quantity != i32::MIN,
        decreases sorted.len() - i,
    {
        let t = sorted[i];
        proof {
            assert(valid_date(sorted@[i as int].date));
            assert(sorted@.take(i + 1).drop_last() == sorted@.take(i as int));
            assert(sorted@.take(i + 1).last() == t);
        }
        let rem = settle_trade(&mut pool, &mut closed, t, allocation);
        if rem != 0 {
            let ghost before = pool@;
            pool.push(OpenLot { trade_id: t.id, date: t.date, quantity: rem, price: t.price });
            proof {
                assert forall|k: int| 0 <= k < pool@.len() implies valid_date(#[trigger] pool@[k].date) && pool@[k].quantity != i32::MIN by {
                    if k < before.len() {
                        assert(pool@[k] == before[k]);
                        assert(valid_date(before[k].date));
                    }
                }
            }
        }
        i += 1;
    }
    proof {
        assert(sorted@.take(sorted.len() as int) == sorted@);
    }
    (pool, closed)
}

} // verus!
