//! Character-level helpers that the parsers are written against: Unicode
//! whitespace, trimming, suffix stripping, substring search and case mapping.

use vstd::prelude::*;

verus! {

/// `String::push` appends one character.
pub assume_specification[ String::push ](s: &mut String, ch: char)
    ensures
        final(s)@ == old(s)@.push(ch),
;

/// The Unicode `White_Space` property, which `char::is_whitespace` tests.
pub open spec fn is_ws(c: char) -> bool {
    ||| ('\u{9}' <= c && c <= '\u{d}')
    ||| c == ' '
    ||| c == '\u{85}'
    ||| c == '\u{a0}'
    ||| c == '\u{1680}'
    ||| ('\u{2000}' <= c && c <= '\u{200a}')
    ||| c == '\u{2028}'
    ||| c == '\u{2029}'
    ||| c == '\u{202f}'
    ||| c == '\u{205f}'
    ||| c == '\u{3000}'
}

pub fn is_whitespace(c: char) -> (r: bool)
    ensures
        r == is_ws(c),
{
    ('\u{9}' <= c && c <= '\u{d}') || c == ' ' || c == '\u{85}' || c == '\u{a0}' || c == '\u{1680}'
        || ('\u{2000}' <= c && c <= '\u{200a}') || c == '\u{2028}' || c == '\u{2029}'
        || c == '\u{202f}' || c == '\u{205f}' || c == '\u{3000}'
}

/// `s` with leading whitespace removed (`str::trim_start`).
pub open spec fn trim_start(s: Seq<char>) -> Seq<char>
    decreases s.len(),
{
    if s.len() > 0 && is_ws(s[0]) {
        trim_start(s.drop_first())
    } else {
        s
    }
}

/// `s` with trailing whitespace removed (`str::trim_end`).
pub open spec fn trim_end(s: Seq<char>) -> Seq<char>
    decreases s.len(),
{
    if s.len() > 0 && is_ws(s.last()) {
        trim_end(s.drop_last())
    } else {
        s
    }
}

/// `str::trim`: both ends stripped of whitespace.
pub open spec fn trim(s: Seq<char>) -> Seq<char> {
    trim_end(trim_start(s))
}

/// Every character is whitespace (so the trimmed text is empty).
pub open spec fn is_blank(s: Seq<char>) -> bool {
    forall|i: int| 0 <= i < s.len() ==> is_ws(#[trigger] s[i])
}

/// `s` ends with `p`.
pub open spec fn ends_with(s: Seq<char>, p: Seq<char>) -> bool {
    p.len() <= s.len() && s.subrange(s.len() - p.len(), s.len() as int) == p
}

/// `str::trim_end_matches(p)` for a non-empty pattern: every trailing copy of
/// `p` removed.
pub open spec fn strip_suffixes(s: Seq<char>, p: Seq<char>) -> Seq<char>
    decreases s.len(),
{
    if p.len() > 0 && ends_with(s, p) {
        strip_suffixes(s.subrange(0, s.len() - p.len()), p)
    } else {
        s
    }
}

/// `str::trim_start_matches(c)`: every leading `c` removed.
pub open spec fn strip_leading(s: Seq<char>, c: char) -> Seq<char>
    decreases s.len(),
{
    if s.len() > 0 && s[0] == c {
        strip_leading(s.drop_first(), c)
    } else {
        s
    }
}

/// `n` occurs in `h` as a contiguous run (`str::contains`).
pub open spec fn contains_seq(h: Seq<char>, n: Seq<char>) -> bool {
    exists|i: int| 0 <= i && i + n.len() <= h.len() && #[trigger] h.subrange(i, i + n.len()) == n
}

/// What `str::to_uppercase` returns: the Unicode uppercase mapping.
pub uninterp spec fn unicode_upper(s: Seq<char>) -> Seq<char>;

/// What `str::to_lowercase` returns: the Unicode lowercase mapping.
pub uninterp spec fn unicode_lower(s: Seq<char>) -> Seq<char>;

/// Calls `str::to_uppercase`, Unicode's full uppercase mapping of every
/// character; the contract only names the result.
#[verifier::external_body]
pub(crate) fn to_upper(s: &str) -> (r: String)
    ensures
        r@ == unicode_upper(s@),
{
    s.to_uppercase()
}

/// Calls `str::to_lowercase`, Unicode's full lowercase mapping of every
/// character; the contract only names the result.
#[verifier::external_body]
pub(crate) fn to_lower(s: &str) -> (r: String)
    ensures
        r@ == unicode_lower(s@),
{
    s.to_lowercase()
}

/// The characters of a string slice, in order.
pub fn chars_of(s: &str) -> (r: Vec<char>)
    ensures
        r@ == s@,
{
    let mut out: Vec<char> = Vec::new();
    for c in it: s.chars()
        invariant
            out@ == it.seq().take(it.index() as int),
            it.seq() == s@,
    {
        out.push(c);
    }
    out
}

/// A `String` holding `cs[lo..hi]`.
pub fn string_of(cs: &Vec<char>, lo: usize, hi: usize) -> (r: String)
    requires
        lo <= hi <= cs.len(),
    ensures
        r@ == cs@.subrange(lo as int, hi as int),
{
    let mut out = String::new();
    let mut i = lo;
    while i < hi
        invariant
            lo <= i <= hi <= cs.len(),
            out@ == cs@.subrange(lo as int, i as int),
        decreases hi - i,
    {
        out.push(cs[i]);
        proof {
            assert(cs@.subrange(lo as int, i + 1) == cs@.subrange(lo as int, i as int).push(cs@[i as int]));
        }
        i += 1;
    }
    out
}

proof fn lemma_trim_start_shape(s: Seq<char>)
    ensures
        trim_start(s).len() > 0 ==> !is_ws(trim_start(s)[0]),
    decreases s.len(),
{
    if s.len() > 0 && is_ws(s[0]) {
        lemma_trim_start_shape(s.drop_first());
    }
}

proof fn lemma_trim_end_shape(s: Seq<char>)
    ensures
        trim_end(s).len() <= s.len(),
        trim_end(s) == s.take(trim_end(s).len() as int),
        trim_end(s).len() > 0 ==> !is_ws(trim_end(s).last()),
    decreases s.len(),
{
    if s.len() > 0 && is_ws(s.last()) {
        lemma_trim_end_shape(s.drop_last());
        let t = trim_end(s.drop_last());
        assert(s.drop_last().take(t.len() as int) == s.take(t.len() as int));
    } else {
        assert(s.take(s.len() as int) == s);
    }
}

/// Trimming twice is trimming once.
pub proof fn lemma_trim_idempotent(s: Seq<char>)
    ensures
        trim(trim(s)) == trim(s),
{
    let u = trim_start(s);
    let t = trim(s);
    lemma_trim_start_shape(s);
    lemma_trim_end_shape(u);
    if t.len() > 0 {
        assert(t[0] == u[0]);
        assert(trim_start(t) == t);
        assert(trim_end(t) == t);
    } else {
        assert(trim_start(t) == t);
    }
}

proof fn lemma_trim_start_skip(s: Seq<char>, i: int)
    requires
        0 <= i <= s.len(),
        forall|k: int| 0 <= k < i ==> is_ws(#[trigger] s[k]),
    ensures
        trim_start(s) == trim_start(s.subrange(i, s.len() as int)),
    decreases i,
{
    if i > 0 {
        assert(s.drop_first().subrange(i - 1, s.drop_first().len() as int) == s.subrange(i, s.len() as int));
        lemma_trim_start_skip(s.drop_first(), i - 1);
    } else {
        assert(s.subrange(0, s.len() as int) == s);
    }
}

proof fn lemma_trim_end_cut(s: Seq<char>, j: int)
    requires
        0 <= j <= s.len(),
        forall|k: int| j <= k < s.len() ==> is_ws(#[trigger] s[k]),
    ensures
        trim_end(s) == trim_end(s.subrange(0, j)),
    decreases s.len() - j,
{
    if j < s.len() {
        assert(s.drop_last().subrange(0, j) == s.subrange(0, j));
        lemma_trim_end_cut(s.drop_last(), j);
    } else {
        assert(s.subrange(0, j) == s);
    }
}

/// Bounds `[lo, hi)` of the trimmed text inside `cs`.
pub fn trim_bounds(cs: &Vec<char>) -> (r: (usize, usize))
    ensures
        r.0 <= r.1 <= cs.len(),
        cs@.subrange(r.0 as int, r.1 as int) == trim(cs@),
{
    let n = cs.len();
    let mut lo: usize = 0;
    while lo < n && is_whitespace(cs[lo])
        invariant
            lo <= n == cs.len(),
            forall|k: int| 0 <= k < lo ==> is_ws(#[trigger] cs@[k]),
        decreases n - lo,
    {
        lo += 1;
    }
    proof {
        lemma_trim_start_skip(cs@, lo as int);
        let rest = cs@.subrange(lo as int, n as int);
        if rest.len() > 0 {
            assert(rest[0] == cs@[lo as int]);
        }
        assert(trim_start(rest) == rest);
    }
    let mut hi: usize = n;
    while hi > lo && is_whitespace(cs[hi - 1])
        invariant
            lo <= hi <= n == cs.len(),
            forall|k: int| hi <= k < n ==> is_ws(#[trigger] cs@[k]),
        decreases hi - lo,
    {
        hi -= 1;
    }
    proof {
        let rest = cs@.subrange(lo as int, n as int);
        lemma_trim_end_cut(rest, hi - lo);
        assert(rest.subrange(0, hi - lo) == cs@.subrange(lo as int, hi as int));
        let kept = cs@.subrange(lo as int, hi as int);
        if kept.len() > 0 {
            assert(kept.last() == cs@[hi - 1]);
        }
        assert(trim_end(kept) == kept);
    }
    (lo, hi)
}

/// `str::trim`, as an owned string.
pub fn trimmed(s: &str) -> (r: String)
    ensures
        r@ == trim(s@),
{
    let cs = chars_of(s);
    let (lo, hi) = trim_bounds(&cs);
    string_of(&cs, lo, hi)
}

/// Exact equality of two strings.
pub fn str_eq(a: &str, b: &str) -> (r: bool)
    ensures
        r == (a@ == b@),
{
    let x = chars_of(a);
    let y = chars_of(b);
    seq_eq(&x, &y)
}

/// Exact equality of two character vectors.
pub fn seq_eq(x: &Vec<char>, y: &Vec<char>) -> (r: bool)
    ensures
        r == (x@ == y@),
{
    if x.len() != y.len() {
        return false;
    }
    let mut i: usize = 0;
    while i < x.len()
        invariant
            i <= x.len() == y.len(),
            forall|k: int| 0 <= k < i ==> x@[k] == y@[k],
        decreases x.len() - i,
    {
        if x[i] != y[i] {
            return false;
        }
        i += 1;
    }
    assert(x@ == y@);
    true
}

/// Whether `x[at..at + y.len()] == y`.
pub fn matches_at(x: &Vec<char>, at: usize, y: &Vec<char>) -> (r: bool)
    requires
        at + y.len() <= x.len(),
    ensures
        r == (x@.subrange(at as int, at + y.len()) == y@),
{
    let mut i: usize = 0;
    while i < y.len()
        invariant
            at + y.len() <= x.len(),
            i <= y.len(),
            forall|k: int| 0 <= k < i ==> x@[at + k] == y@[k],
        decreases y.len() - i,
    {
        if x[at + i] != y[i] {
            assert(x@.subrange(at as int, at + y.len())[i as int] != y@[i as int]);
            return false;
        }
        i += 1;
    }
    assert(x@.subrange(at as int, at + y.len()) == y@);
    true
}

/// `str::contains` for a string pattern.
pub fn contains(h: &Vec<char>, n: &Vec<char>) -> (r: bool)
    ensures
        r == contains_seq(h@, n@),
{
    if n.len() > h.len() {
        return false;
    }
    let last = h.len() - n.len();
    let mut i: usize = 0;
    loop
        invariant
            last + n.len() == h.len(),
            i <= last,
            forall|k: int| 0 <= k < i ==> #[trigger] h@.subrange(k, k + n.len()) != n@,
        decreases last - i,
    {
        if matches_at(h, i, n) {
            return true;
        }
        if i == last {
            assert forall|k: int| 0 <= k && k + n.len() <= h.len() implies #[trigger] h@.subrange(k, k + n.len()) != n@ by {
                if k == i as int {
                }
            }
            return false;
        }
        i += 1;
    }
}

/// `s[start..end]` with every trailing copy of `p` removed, as an end index.
pub fn strip_suffixes_end(s: &Vec<char>, start: usize, end: usize, p: &Vec<char>) -> (r: usize)
    requires
        start <= end <= s.len(),
        p.len() > 0,
    ensures
        start <= r <= end,
        s@.subrange(start as int, r as int) == strip_suffixes(s@.subrange(start as int, end as int), p@),
{
    let mut e = end;
    while e - start >= p.len() && matches_at(s, e - p.len(), p)
        invariant
            start <= e <= end <= s.len(),
            p.len() > 0,
            strip_suffixes(s@.subrange(start as int, e as int), p@) == strip_suffixes(s@.subrange(start as int, end as int), p@),
        decreases e,
    {
        proof {
            let cur = s@.subrange(start as int, e as int);
            assert(cur.subrange(cur.len() - p.len(), cur.len() as int) == s@.subrange(e - p.len(), e as int));
            assert(cur.subrange(0, cur.len() - p.len()) == s@.subrange(start as int, e - p.len()));
        }
        e = e - p.len();
    }
    proof {
        let cur = s@.subrange(start as int, e as int);
        if ends_with(cur, p@) {
            assert(cur.subrange(cur.len() - p.len(), cur.len() as int) == s@.subrange(e - p.len(), e as int));
        }
    }
    e
}

/// `s[start..end]` with every leading `c` removed, as a start index.
pub fn strip_leading_start(s: &Vec<char>, start: usize, end: usize, c: char) -> (r: usize)
    requires
        start <= end <= s.len(),
    ensures
        start <= r <= end,
        s@.subrange(r as int, end as int) == strip_leading(s@.subrange(start as int, end as int), c),
{
    let mut a = start;
    while a < end && s[a] == c
        invariant
            start <= a <= end <= s.len(),
            strip_leading(s@.subrange(a as int, end as int), c) == strip_leading(s@.subrange(start as int, end as int), c),
        decreases end - a,
    {
        proof {
            assert(s@.subrange(a as int, end as int).drop_first() == s@.subrange(a + 1, end as int));
        }
        a += 1;
    }
    proof {
        let cur = s@.subrange(a as int, end as int);
        if cur.len() > 0 {
            assert(cur[0] == s@[a as int]);
        }
    }
    a
}

/// Lexicographic order of texts by character, the order `String` sorts in.
pub open spec fn text_le(a: Seq<char>, b: Seq<char>) -> bool
    decreases a.len(),
{
    if a.len() == 0 {
        true
    } else if b.len() == 0 {
        false
    } else if a[0] != b[0] {
        (a[0] as int) < (b[0] as int)
    } else {
        text_le(a.drop_first(), b.drop_first())
    }
}

pub fn text_le_exec(a: &Vec<char>, b: &Vec<char>) -> (r: bool)
    ensures
        r == text_le(a@, b@),
{
    let mut i: usize = 0;
    assert(a@.skip(0) == a@ && b@.skip(0) == b@);
    while i < a.len() && i < b.len() && a[i] == b[i]
        invariant
            i <= a.len(),
            i <= b.len(),
            text_le(a@, b@) == text_le(a@.skip(i as int), b@.skip(i as int)),
        decreases a.len() - i,
    {
        proof {
            assert(a@.skip(i as int).drop_first() == a@.skip(i + 1));
            assert(b@.skip(i as int).drop_first() == b@.skip(i + 1));
        }
        i += 1;
    }
    if i == a.len() {
        true
    } else if i == b.len() {
        false
    } else {
        a[i] < b[i]
    }
}

/// Strictly before in [`text_le`] order.
pub open spec fn text_lt(a: Seq<char>, b: Seq<char>) -> bool {
    text_le(a, b) && a != b
}

/// Every text is ordered before or at itself.
pub proof fn lemma_text_le_reflexive(a: Seq<char>)
    ensures
        text_le(a, a),
    decreases a.len(),
{
    if a.len() > 0 {
        lemma_text_le_reflexive(a.drop_first());
    }
}

/// Any two texts are ordered one way or the other.
pub proof fn lemma_text_le_total(a: Seq<char>, b: Seq<char>)
    ensures
        text_le(a, b) || text_le(b, a),
    decreases a.len(),
{
    if a.len() > 0 && b.len() > 0 {
        if a[0] == b[0] {
            lemma_text_le_total(a.drop_first(), b.drop_first());
        } else {
        }
    }
}

/// Texts ordered both ways are equal.
pub proof fn lemma_text_le_antisymmetric(a: Seq<char>, b: Seq<char>)
    requires
        text_le(a, b),
        text_le(b, a),
    ensures
        a == b,
    decreases a.len(),
{
    if a.len() > 0 && b.len() > 0 {
        if a[0] == b[0] {
            lemma_text_le_antisymmetric(a.drop_first(), b.drop_first());
            assert(a == seq![a[0]] + a.drop_first());
            assert(b == seq![b[0]] + b.drop_first());
        } else {
        }
    }
}

pub proof fn lemma_text_le_transitive(a: Seq<char>, b: Seq<char>, c: Seq<char>)
    requires
        text_le(a, b),
        text_le(b, c),
    ensures
        text_le(a, c),
    decreases a.len(),
{
    if a.len() > 0 && b.len() > 0 && c.len() > 0 {
        if a[0] == b[0] && b[0] == c[0] {
            lemma_text_le_transitive(a.drop_first(), b.drop_first(), c.drop_first());
        } else {
        }
    }
}

/// Each text strictly before the next: sorted, with no repeats.
pub open spec fn strictly_sorted(v: Seq<Seq<char>>) -> bool {
    forall|a: int, b: int| 0 <= a < b < v.len() ==> text_lt(#[trigger] v[a], #[trigger] v[b])
}

/// The texts of `v`.
pub open spec fn names(v: Seq<String>) -> Seq<Seq<char>> {
    v.map_values(|x: String| x@)
}

/// Adds `s` to the sorted names unless it is there already.
pub fn insert_distinct(out: &mut Vec<String>, s: &String)
    requires
        strictly_sorted(names(old(out)@)),
    ensures
        strictly_sorted(names(final(out)@)),
        names(final(out)@).to_set() == names(old(out)@).to_set().insert(s@),
{
    let ghost v = names(out@);
    let ghost x = s@;
    let sym = chars_of(s.as_str());
    let mut j = out.len();
    while j > 0 && !text_le_exec(&chars_of(out[j - 1].as_str()), &sym)
        invariant
            j <= out.len(),
            v == names(out@),
            sym@ == x,
            forall|k: int| j <= k < out.len() ==> !text_le(#[trigger] v[k], x),
        decreases j,
    {
        proof {
            assert(v[j - 1] == out@[j - 1]@);
        }
        j -= 1;
    }
    proof {
        if j > 0 {
            assert(v[j - 1] == out@[j - 1]@);
        }
    }
    if j > 0 && str_eq(out[j - 1].as_str(), s.as_str()) {
        proof {
            assert(v[j - 1] == x);
            assert(v.to_set().insert(x) =~= v.to_set());
        }
        return;
    }
    proof {
        if j > 0 {
            assert(text_le(v[j - 1], x));
            assert(v[j - 1] != x);
        }
    }
    let ghost old_out = out@;
    out.insert(j, s.clone());
    let ghost w = names(out@);
    proof {
        assert(w =~= v.insert(j as int, x));
        v.insert_ensures(j as int, x);
        assert forall|a: int, b: int| 0 <= a < b < w.len() implies text_lt(#[trigger] w[a], #[trigger] w[b]) by {
            if b < j {
                assert(w[a] == v[a] && w[b] == v[b]);
            } else if b == j {
                assert(w[a] == v[a] && w[b] == x);
                if a < j - 1 {
                    assert(text_lt(v[a], v[j - 1]));
                    lemma_text_le_transitive(v[a], v[j - 1], x);
                    if v[a] == x {
                        lemma_text_le_antisymmetric(v[a], v[j - 1]);
                    }
                }
            } else if a < j {
                assert(w[a] == v[a] && w[b] == v[b - 1]);
            } else if a == j {
                assert(w[a] == x && w[b] == v[b - 1]);
                assert(!text_le(v[b - 1], x));
                lemma_text_le_total(v[b - 1], x);
                lemma_text_le_reflexive(x);
            } else {
                assert(w[a] == v[a - 1] && w[b] == v[b - 1]);
            }
        }
        assert forall|y: Seq<char>| w.to_set().contains(y) <==> v.to_set().insert(x).contains(y) by {
            if w.contains(y) {
                let k = choose|k: int| 0 <= k < w.len() && w[k] == y;
                if k < j {
                    assert(v[k] == y);
                } else if k > j {
                    assert(v[k - 1] == y);
                }
            }
            if v.contains(y) {
                let k = choose|k: int| 0 <= k < v.len() && v[k] == y;
                if k < j {
                    assert(w[k] == y);
                } else {
                    assert(w[k + 1] == y);
                }
            }
            if y == x {
                assert(w[j as int] == y);
            }
        }
        assert(w.to_set() =~= v.to_set().insert(x));
    }
}

} // verus!
