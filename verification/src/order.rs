//! Orderings on text: lexicographic order by code point (the order of
//! `str`'s `Ord`, since UTF-8 preserves code point order) and a stable
//! merge sort of positions by key.

use vstd::prelude::*;

verus! {

/// `a` sorts strictly before `b`, character by character by code point,
/// a proper prefix first.
pub open spec fn lex_lt(a: Seq<char>, b: Seq<char>) -> bool
    decreases a.len(),
{
    if a.len() == 0 {
        b.len() > 0
    } else if b.len() == 0 {
        false
    } else if a[0] != b[0] {
        a[0] < b[0]
    } else {
        lex_lt(a.drop_first(), b.drop_first())
    }
}

/// No text sorts before itself, and of two texts at most one sorts first.
pub proof fn lemma_lex_asymmetric(a: Seq<char>, b: Seq<char>)
    ensures
        lex_lt(a, b) ==> !lex_lt(b, a),
        !lex_lt(a, a),
    decreases a.len(),
{
    if a.len() > 0 && b.len() > 0 {
        lemma_lex_asymmetric(a.drop_first(), b.drop_first());
    }
    if a.len() > 0 {
        lemma_lex_asymmetric(a.drop_first(), a.drop_first());
    }
}

/// The order is transitive.
pub proof fn lemma_lex_transitive(a: Seq<char>, b: Seq<char>, c: Seq<char>)
    requires
        lex_lt(a, b),
        lex_lt(b, c),
    ensures
        lex_lt(a, c),
    decreases a.len(),
{
    if a.len() > 0 && a[0] == b[0] && b[0] == c[0] {
        lemma_lex_transitive(a.drop_first(), b.drop_first(), c.drop_first());
    }
}

/// Any two texts are equal or one sorts before the other.
pub proof fn lemma_lex_total(a: Seq<char>, b: Seq<char>)
    ensures
        lex_lt(a, b) || a == b || lex_lt(b, a),
    decreases a.len(),
{
    if a.len() == 0 && b.len() == 0 {
        assert(a =~= b);
    } else if a.len() > 0 && b.len() > 0 && a[0] == b[0] {
        lemma_lex_total(a.drop_first(), b.drop_first());
        if a.drop_first() == b.drop_first() {
            assert(a.drop_first().len() == a.len() - 1);
            assert(b.drop_first().len() == b.len() - 1);
            assert(a.len() == b.len());
            assert forall|i: int| 0 <= i < a.len() implies a[i] == b[i] by {
                if i > 0 {
                    assert(a[i] == a.drop_first()[i - 1]);
                    assert(b[i] == b.drop_first()[i - 1]);
                }
            }
            assert(a =~= b);
        }
    } else if a.len() > 0 && b.len() > 0 {
    }
}

/// Whether `a` sorts strictly before `b`.
pub fn chars_lex_lt(a: &[char], b: &[char]) -> (r: bool)
    ensures
        r == lex_lt(a@, b@),
{
    let mut i: usize = 0;
    assert(a@.skip(0) =~= a@);
    assert(b@.skip(0) =~= b@);
    while i < a.len() && i < b.len()
        invariant
            i <= a@.len(),
            i <= b@.len(),
            lex_lt(a@, b@) == lex_lt(a@.skip(i as int), b@.skip(i as int)),
        decreases a@.len() - i,
    {
        let x = a[i];
        let y = b[i];
        assert(a@.skip(i as int)[0] == a@[i as int]);
        assert(b@.skip(i as int)[0] == b@[i as int]);
        if x != y {
            return x < y;
        }
        assert(a@.skip(i as int).drop_first() =~= a@.skip(i + 1));
        assert(b@.skip(i as int).drop_first() =~= b@.skip(i + 1));
        i = i + 1;
    }
    i == a.len() && i < b.len()
}

/// Position `i` comes before position `j`: by key, then by position.
pub open spec fn key_before(keys: Seq<Seq<char>>, i: int, j: int) -> bool {
    lex_lt(keys[i], keys[j]) || (keys[i] == keys[j] && i < j)
}

/// `order` lists positions of `keys` in strictly increasing
/// [`key_before`] order (so each position at most once).
pub open spec fn in_key_order(keys: Seq<Seq<char>>, order: Seq<usize>) -> bool {
    &&& forall|k: int| 0 <= k < order.len() ==> (#[trigger] order[k] as int) < keys.len()
    &&& forall|k: int, l: int|
        0 <= k < l < order.len() ==> key_before(keys, #[trigger] order[k] as int, #[trigger] order[l] as int)
}

proof fn lemma_key_before_transitive(keys: Seq<Seq<char>>, i: int, j: int, k: int)
    requires
        key_before(keys, i, j),
        key_before(keys, j, k),
    ensures
        key_before(keys, i, k),
{
    if lex_lt(keys[i], keys[j]) && lex_lt(keys[j], keys[k]) {
        lemma_lex_transitive(keys[i], keys[j], keys[k]);
    }
}

proof fn lemma_key_before_irreflexive(keys: Seq<Seq<char>>, i: int)
    ensures
        !key_before(keys, i, i),
{
    lemma_lex_asymmetric(keys[i], keys[i]);
}

/// Positions listed in key order are distinct.
pub proof fn lemma_in_key_order_distinct(keys: Seq<Seq<char>>, order: Seq<usize>, k: int, l: int)
    requires
        in_key_order(keys, order),
        0 <= k < order.len(),
        0 <= l < order.len(),
        k != l,
    ensures
        order[k] != order[l],
{
    if k < l {
        assert(key_before(keys, order[k] as int, order[l] as int));
    } else {
        assert(key_before(keys, order[l] as int, order[k] as int));
    }
    lemma_key_before_irreflexive(keys, order[k] as int);
}

pub open spec fn key_views(keys: Seq<Vec<char>>) -> Seq<Seq<char>> {
    keys.map_values(|k: Vec<char>| k@)
}

/// Merges two runs in key order, every position of `a` below every
/// position of `b`.
fn merge_runs(keys: &Vec<Vec<char>>, a: &Vec<usize>, b: &Vec<usize>, lo: usize, mid: usize, hi: usize) -> (r:
    Vec<usize>)
    requires
        lo <= mid <= hi <= keys@.len(),
        in_key_order(key_views(keys@), a@),
        in_key_order(key_views(keys@), b@),
        forall|k: int| 0 <= k < a@.len() ==> lo <= #[trigger] a@[k] < mid,
        forall|k: int| 0 <= k < b@.len() ==> mid <= #[trigger] b@[k] < hi,
        a@.len() + b@.len() <= hi - lo,
    ensures
        r@.len() == a@.len() + b@.len(),
        in_key_order(key_views(keys@), r@),
        forall|k: int| 0 <= k < r@.len() ==> lo <= #[trigger] r@[k] < hi,
{
    let ghost ks = key_views(keys@);
    let mut out: Vec<usize> = Vec::new();
    let mut i: usize = 0;
    let mut j: usize = 0;
    while i < a.len() || j < b.len()
        invariant
            i <= a@.len(),
            j <= b@.len(),
            out@.len() == i + j,
            lo <= mid <= hi <= keys@.len(),
            a@.len() + b@.len() <= hi - lo,
            ks == key_views(keys@),
            in_key_order(ks, a@),
            in_key_order(ks, b@),
            forall|k: int| 0 <= k < a@.len() ==> lo <= #[trigger] a@[k] < mid,
            forall|k: int| 0 <= k < b@.len() ==> mid <= #[trigger] b@[k] < hi,
            in_key_order(ks, out@),
            forall|k: int| 0 <= k < out@.len() ==> lo <= #[trigger] out@[k] < hi,
            out@.len() > 0 && i < a@.len() ==> key_before(ks, out@.last() as int, a@[i as int] as int),
            out@.len() > 0 && j < b@.len() ==> key_before(ks, out@.last() as int, b@[j as int] as int),
        decreases a@.len() + b@.len() - i - j,
    {
        let take_a = if i < a.len() && j < b.len() {
            !chars_lex_lt(keys[b[j]].as_slice(), keys[a[i]].as_slice())
        } else {
            i < a.len()
        };
        let ghost prev = out@;
        if take_a {
            let x = a[i];
            proof {
                if j < b@.len() {
                    lemma_lex_total(ks[x as int], ks[b@[j as int] as int]);
                    assert(key_before(ks, x as int, b@[j as int] as int));
                }
                assert forall|k: int| 0 <= k < prev.len() implies key_before(
                    ks,
                    prev[k] as int,
                    x as int,
                ) by {
                    if k < prev.len() - 1 {
                        assert(key_before(ks, prev[k] as int, prev.last() as int));
                        lemma_key_before_transitive(ks, prev[k] as int, prev.last() as int, x as int);
                    }
                }
                if i + 1 < a@.len() {
                    assert(key_before(ks, a@[i as int] as int, a@[i + 1] as int));
                }
            }
            out.push(x);
            i = i + 1;
        } else {
            let y = b[j];
            proof {
                if i < a@.len() {
                    assert(lex_lt(ks[y as int], ks[a@[i as int] as int]));
                    assert(key_before(ks, y as int, a@[i as int] as int));
                }
                assert forall|k: int| 0 <= k < prev.len() implies key_before(
                    ks,
                    prev[k] as int,
                    y as int,
                ) by {
                    if k < prev.len() - 1 {
                        assert(key_before(ks, prev[k] as int, prev.last() as int));
                        lemma_key_before_transitive(ks, prev[k] as int, prev.last() as int, y as int);
                    }
                }
                if j + 1 < b@.len() {
                    assert(key_before(ks, b@[j as int] as int, b@[j + 1] as int));
                }
            }
            out.push(y);
            j = j + 1;
        }
        proof {
            assert forall|k: int, l: int| 0 <= k < l < out@.len() implies key_before(
                ks,
                #[trigger] out@[k] as int,
                #[trigger] out@[l] as int,
            ) by {
                if l < prev.len() {
                    assert(out@[k] == prev[k] && out@[l] == prev[l]);
                }
            }
        }
    }
    out
}

/// The positions `lo..hi` of `keys` in key order: by key, equal keys in
/// position order.
pub fn sort_positions(keys: &Vec<Vec<char>>, lo: usize, hi: usize) -> (r: Vec<usize>)
    requires
        lo <= hi <= keys@.len(),
    ensures
        r@.len() == hi - lo,
        in_key_order(key_views(keys@), r@),
        forall|k: int| 0 <= k < r@.len() ==> lo <= #[trigger] r@[k] < hi,
    decreases hi - lo,
{
    if hi - lo <= 1 {
        let mut v: Vec<usize> = Vec::new();
        if hi > lo {
            v.push(lo);
        }
        v
    } else {
        let mid = lo + (hi - lo) / 2;
        let a = sort_positions(keys, lo, mid);
        let b = sort_positions(keys, mid, hi);
        merge_runs(keys, &a, &b, lo, mid, hi)
    }
}

// ------------------------------------------------------------------
// Stable order by a numeric key
// ------------------------------------------------------------------

/// Position `i` comes before position `j`: by key, then by position.
pub open spec fn num_before(keys: Seq<u64>, i: int, j: int) -> bool {
    keys[i] < keys[j] || (keys[i] == keys[j] && i < j)
}

/// `order` lists positions of `keys` in strictly increasing
/// [`num_before`] order.
pub open spec fn in_num_order(keys: Seq<u64>, order: Seq<usize>) -> bool {
    &&& forall|k: int| 0 <= k < order.len() ==> (#[trigger] order[k] as int) < keys.len()
    &&& forall|k: int, l: int|
        0 <= k < l < order.len() ==> num_before(keys, #[trigger] order[k] as int, #[trigger] order[l] as int)
}

/// The positions of `keys` ordered by key, equal keys in position order
/// (the order a stable sort by key gives).
pub fn sort_by_number(keys: &Vec<u64>) -> (r: Vec<usize>)
    ensures
        r@.len() == keys@.len(),
        in_num_order(keys@, r@),
{
    let mut out: Vec<usize> = Vec::new();
    let mut i: usize = 0;
    while i < keys.len()
        invariant
            i <= keys@.len(),
            out@.len() == i,
            in_num_order(keys@, out@),
            forall|k: int| 0 <= k < out@.len() ==> (#[trigger] out@[k]) < i,
        decreases keys@.len() - i,
    {
        let mut p: usize = 0;
        while p < out.len() && keys[out[p]] <= keys[i]
            invariant
                p <= out@.len(),
                i < keys@.len(),
                in_num_order(keys@, out@),
                forall|k: int| 0 <= k < p ==> keys@[(#[trigger] out@[k]) as int] <= keys@[i as int],
            decreases out@.len() - p,
        {
            p = p + 1;
        }
        let ghost before = out@;
        out.insert(p, i);
        proof {
            assert(out@ =~= before.insert(p as int, i));
            assert forall|k: int, l: int| 0 <= k < l < out@.len() implies num_before(
                keys@,
                #[trigger] out@[k] as int,
                #[trigger] out@[l] as int,
            ) by {
                if l < p {
                    assert(out@[k] == before[k] && out@[l] == before[l]);
                } else if l == p {
                    assert(out@[k] == before[k]);
                    assert(keys@[before[k] as int] <= keys@[i as int]);
                } else if k == p {
                    assert(out@[l] == before[l - 1]);
                    assert(keys@[before[p as int] as int] > keys@[i as int]);
                    if l - 1 > p {
                        assert(num_before(keys@, before[p as int] as int, before[l - 1] as int));
                    }
                } else if k < p {
                    assert(out@[k] == before[k] && out@[l] == before[l - 1]);
                } else {
                    assert(out@[k] == before[k - 1] && out@[l] == before[l - 1]);
                }
            }
        }
        i = i + 1;
    }
    out
}

/// Positions listed in numeric key order are distinct.
pub proof fn lemma_in_num_order_distinct(keys: Seq<u64>, order: Seq<usize>, k: int, l: int)
    requires
        in_num_order(keys, order),
        0 <= k < order.len(),
        0 <= l < order.len(),
        k != l,
    ensures
        order[k] != order[l],
{
    if k < l {
        assert(num_before(keys, order[k] as int, order[l] as int));
    } else {
        assert(num_before(keys, order[l] as int, order[k] as int));
    }
}

} // verus!
