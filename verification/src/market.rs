//! Listed contracts, as the option chain snapshots record them, narrowed to
//! what a contract picker should offer.

use vstd::prelude::*;
use crate::calendar::{chrono_parse, date_le, date_le_exec, parse_date_with, Date};
use crate::money::abs;
use crate::text::{insert_distinct, lemma_text_le_antisymmetric, lemma_text_le_reflexive, names, str_eq, strictly_sorted, text_le};

verus! {

/// One listed contract: expiry as `YYYY-MM-DD`, type as `call` or `put`,
/// strike in micros.
#[derive(Debug, Clone, PartialEq, Eq)]
pub struct OptionMetaEntry {
    pub expiry: String,
    pub option_type: String,
    pub strike: i64,
}

/// The strikes listed for one expiry and option type.
pub open spec fn strike_set(meta: Seq<OptionMetaEntry>, expiry: Seq<char>, option_type: Seq<char>) -> Set<i64>
    decreases meta.len(),
{
    if meta.len() == 0 {
        Set::empty()
    } else {
        let rest = strike_set(meta.drop_last(), expiry, option_type);
        let e = meta.last();
        if e.expiry@ == expiry && e.option_type@ == option_type { rest.insert(e.strike) } else { rest }
    }
}

/// Each value strictly below the next.
pub open spec fn increasing(v: Seq<i64>) -> bool {
    forall|a: int, b: int| 0 <= a < b < v.len() ==> #[trigger] v[a] < #[trigger] v[b]
}

/// Adds `x` to the increasing values unless it is there already.
fn insert_strike(out: &mut Vec<i64>, x: i64)
    requires
        increasing(old(out)@),
    ensures
        increasing(final(out)@),
        final(out)@.to_set() == old(out)@.to_set().insert(x),
{
    let ghost v = out@;
    let mut j = out.len();
    while j > 0 && out[j - 1] > x
        invariant
            j <= out.len(),
            v == out@,
            forall|k: int| j <= k < out.len() ==> #[trigger] v[k] > x,
        decreases j,
    {
        j -= 1;
    }
    if j > 0 && out[j - 1] == x {
        assert(v.to_set().insert(x) =~= v.to_set());
        return;
    }
    out.insert(j, x);
    let ghost w = out@;
    proof {
        v.insert_ensures(j as int, x);
        assert(w == v.insert(j as int, x));
        assert forall|a: int, b: int| 0 <= a < b < w.len() implies #[trigger] w[a] < #[trigger] w[b] by {
            if b < j {
                assert(w[a] == v[a] && w[b] == v[b]);
            } else if b == j {
                assert(w[a] == v[a]);
                if a < j - 1 {
                    assert(v[a] < v[j - 1]);
                }
            } else if a < j {
                assert(w[a] == v[a] && w[b] == v[b - 1]);
            } else if a == j {
                assert(w[b] == v[b - 1]);
            } else {
                assert(w[a] == v[a - 1] && w[b] == v[b - 1]);
            }
        }
        assert forall|y: i64| w.to_set().contains(y) <==> v.to_set().insert(x).contains(y) by {
            if w.contains(y) {
                let k = choose|k: int| 0 <= k < w.len() && w[k] == y;
                if k < j {
                    assert(v[k] == y);
                } else if k > j {
                    assert(v[k - 1] == y);
                }
            }
            if v.contains(y) {
                let k = choose|k: int| 0 <= k < v.len() && v[k] == y;
                if k < j {
                    assert(w[k] == y);
                } else {
                    assert(w[k + 1] == y);
                }
            }
            if y == x {
                assert(w[j as int] == y);
            }
        }
        assert(w.to_set() =~= v.to_set().insert(x));
    }
}

/// Distinct strikes for one expiry and option type, ascending. A contract
/// appears once per snapshot taken, so the same strike is listed many times.
pub fn live_strikes(meta: &[OptionMetaEntry], expiry: &str, option_type: &str) -> (r: Vec<i64>)
    ensures
        increasing(r@),
        r@.to_set() == strike_set(meta@, expiry@, option_type@),
{
    let mut out: Vec<i64> = Vec::new();
    let mut i: usize = 0;
    assert(out@.to_set() =~= Set::<i64>::empty());
    while i < meta.len()
        invariant
            i <= meta.len(),
            increasing(out@),
            out@.to_set() == strike_set(meta@.take(i as int), expiry@, option_type@),
        decreases meta.len() - i,
    {
        proof {
            assert(meta@.take(i + 1).drop_last() == meta@.take(i as int));
            assert(meta@.take(i + 1).last() == meta@[i as int]);
        }
        let e = &meta[i];
        if str_eq(e.expiry.as_str(), expiry) && str_eq(e.option_type.as_str(), option_type) {
            insert_strike(&mut out, e.strike);
        }
        i += 1;
    }
    assert(meta@.take(meta.len() as int) == meta@);
    out
}

/// The listed expiries that have not passed by `today`: those that read as
/// `YYYY-MM-DD` and fall on or after it (an option trades up to expiry).
pub open spec fn live_expiry_set(meta: Seq<OptionMetaEntry>, today: Date) -> Set<Seq<char>>
    decreases meta.len(),
{
    if meta.len() == 0 {
        Set::empty()
    } else {
        let rest = live_expiry_set(meta.drop_last(), today);
        let e = meta.last();
        match chrono_parse(e.expiry@, "%Y-%m-%d"@) {
            Some(d) => if date_le(today, d) { rest.insert(e.expiry@) } else { rest },
            None => rest,
        }
    }
}

/// Distinct expiries in `meta` that haven't passed, sorted ascending. The
/// chain keeps dated snapshots and is never pruned; expired contracts must
/// not reach a picker. Today itself counts as live.
pub fn live_expiries(meta: &[OptionMetaEntry], today: Date) -> (r: Vec<String>)
    ensures
        strictly_sorted(names(r@)),
        names(r@).to_set() == live_expiry_set(meta@, today),
{
    let mut out: Vec<String> = Vec::new();
    let mut i: usize = 0;
    assert(names(out@).to_set() =~= Set::<Seq<char>>::empty());
    while i < meta.len()
        invariant
            i <= meta.len(),
            strictly_sorted(names(out@)),
            names(out@).to_set() == live_expiry_set(meta@.take(i as int), today),
        decreases meta.len() - i,
    {
        proof {
            assert(meta@.take(i + 1).drop_last() == meta@.take(i as int));
            assert(meta@.take(i + 1).last() == meta@[i as int]);
        }
        let e = &meta[i];
        match parse_date_with(e.expiry.as_str(), "%Y-%m-%d") {
            Some(d) => {
                if date_le_exec(today, d) {
                    insert_distinct(&mut out, &e.expiry);
                }
            },
            None => {},
        }
        i += 1;
    }
    assert(meta@.take(meta.len() as int) == meta@);
    out
}

/// Among the first `n` entries, the call listed for `expiry` whose strike is
/// nearest `spot`; the earliest listed of equally near ones.
pub open spec fn nearest_call(meta: Seq<OptionMetaEntry>, expiry: Seq<char>, spot: i64, n: int) -> Option<int>
    decreases n,
{
    if n <= 0 {
        None
    } else {
        let best = nearest_call(meta, expiry, spot, n - 1);
        let e = meta[n - 1];
        if e.expiry@ == expiry && e.option_type@ == "call"@ {
            match best {
                None => Some(n - 1),
                Some(j) => if abs(e.strike - spot) < abs(meta[j].strike - spot) { Some(n - 1) } else { Some(j) },
            }
        } else {
            best
        }
    }
}

/// `e` comes first among the live expiries.
pub open spec fn earliest_live(meta: Seq<OptionMetaEntry>, today: Date, e: Seq<char>) -> bool {
    &&& live_expiry_set(meta, today).contains(e)
    &&& forall|x: Seq<char>| #[trigger] live_expiry_set(meta, today).contains(x) ==> text_le(e, x)
}

/// The contract to quote for an at-the-money default: the call whose strike
/// is nearest `spot` in the earliest expiry that has not passed, as
/// (expiry, "call", strike).
pub fn atm_contract(meta: &[OptionMetaEntry], spot: i64, today: Date) -> (r: Option<(String, &'static str, i64)>)
    ensures
        match r {
            Some((e, t, k)) => {
                &&& t@ == "call"@
                &&& earliest_live(meta@, today, e@)
                &&& nearest_call(meta@, e@, spot, meta@.len() as int) matches Some(j) && meta@[j].strike == k
            },
            None => forall|e: Seq<char>| #[trigger] earliest_live(meta@, today, e)
                ==> nearest_call(meta@, e, spot, meta@.len() as int) is None,
        },
{
    let expiries = live_expiries(meta, today);
    if expiries.len() == 0 {
        proof {
            assert forall|e: Seq<char>| #[trigger] earliest_live(meta@, today, e)
                implies nearest_call(meta@, e, spot, meta@.len() as int) is None by {
                assert(names(expiries@).to_set().contains(e));
            }
        }
        return None;
    }
    let first = &expiries[0];
    let ghost f = first@;
    proof {
        let v = names(expiries@);
        assert(v[0] == f);
        assert(v.to_set().contains(f));
        assert forall|x: Seq<char>| #[trigger] live_expiry_set(meta@, today).contains(x) implies text_le(f, x) by {
            assert(v.to_set().contains(x));
            let k = choose|k: int| 0 <= k < v.len() && v[k] == x;
            if k == 0 {
                lemma_text_le_reflexive(f);
            } else {
                assert(crate::text::text_lt(v[0], v[k]));
            }
        }
        assert(earliest_live(meta@, today, f));
    }
    let call = "call";
    let mut best: Option<usize> = None;
    let mut i: usize = 0;
    while i < meta.len()
        invariant
            i <= meta.len(),
            f == first@,
            call@ == "call"@,
            match best {
                Some(j) => nearest_call(meta@, f, spot, i as int) == Some(j as int) && j < i,
                None => nearest_call(meta@, f, spot, i as int) is None,
            },
        decreases meta.len() - i,
    {
        let e = &meta[i];
        if str_eq(e.expiry.as_str(), first.as_str()) && str_eq(e.option_type.as_str(), call) {
            let d = abs_diff(e.strike, spot);
            best = match best {
                None => Some(i),
                Some(j) => if d < abs_diff(meta[j].strike, spot) { Some(i) } else { Some(j) },
            };
        }
        i += 1;
    }
    match best {
        Some(j) => Some((first.clone(), call, meta[j].strike)),
        None => {
            proof {
                assert forall|e: Seq<char>| #[trigger] earliest_live(meta@, today, e)
                    implies nearest_call(meta@, e, spot, meta@.len() as int) is None by {
                    lemma_text_le_antisymmetric(e, f);
                }
            }
            None
        },
    }
}

fn abs_diff(a: i64, b: i64) -> (r: i128)
    ensures
        r == abs(a - b),
{
    let d = a as i128 - b as i128;
    if d < 0 { -d } else { d }
}

} // verus!
