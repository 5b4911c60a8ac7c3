//! Text ordering: the lexicographic order of `str` (by code point), sorting
//! and de-duplicating lists of texts.

use vstd::prelude::*;
use vstd::relations::{sorted_by, total_ordering};
use crate::text::{slice_copy, views};

verus! {

broadcast use vstd::seq_lib::group_to_multiset_ensures;

/// `a <= b` in the order of `str` (lexicographic by code point; for UTF-8
/// this is also the byte order).
pub open spec fn text_le(a: Seq<char>, b: Seq<char>) -> bool
    decreases a.len(),
{
    if a.len() == 0 {
        true
    } else if b.len() == 0 {
        false
    } else if a[0] != b[0] {
        (a[0] as int) < (b[0] as int)
    } else {
        text_le(a.drop_first(), b.drop_first())
    }
}

/// [`text_le`] as a relation.
pub open spec fn text_order() -> spec_fn(Seq<char>, Seq<char>) -> bool {
    |a: Seq<char>, b: Seq<char>| text_le(a, b)
}

pub proof fn lemma_text_le_refl(a: Seq<char>)
    ensures
        text_le(a, a),
    decreases a.len(),
{
    if a.len() > 0 {
        lemma_text_le_refl(a.drop_first());
    }
}

pub proof fn lemma_text_le_antisym(a: Seq<char>, b: Seq<char>)
    requires
        text_le(a, b),
        text_le(b, a),
    ensures
        a == b,
    decreases a.len(),
{
    if a.len() > 0 && b.len() > 0 {
        if a[0] == b[0] {
            lemma_text_le_antisym(a.drop_first(), b.drop_first());
            assert(a =~= seq![a[0]] + a.drop_first());
            assert(b =~= seq![b[0]] + b.drop_first());
        } else {
            assert((a[0] as int) != (b[0] as int));
        }
    }
    assert(a =~= b);
}

pub proof fn lemma_text_le_trans(a: Seq<char>, b: Seq<char>, c: Seq<char>)
    requires
        text_le(a, b),
        text_le(b, c),
    ensures
        text_le(a, c),
    decreases a.len(),
{
    if a.len() > 0 && b.len() > 0 && c.len() > 0 {
        if a[0] == b[0] && b[0] == c[0] {
            lemma_text_le_trans(a.drop_first(), b.drop_first(), c.drop_first());
        } else if a[0] != b[0] && b[0] != c[0] {
            if a[0] == c[0] {
                assert((a[0] as int) == (c[0] as int));
            }
        }
    }
}

pub proof fn lemma_text_le_total(a: Seq<char>, b: Seq<char>)
    ensures
        text_le(a, b) || text_le(b, a),
    decreases a.len(),
{
    if a.len() > 0 && b.len() > 0 {
        if a[0] == b[0] {
            lemma_text_le_total(a.drop_first(), b.drop_first());
        } else {
            assert((a[0] as int) != (b[0] as int));
        }
    }
}

/// The order of `str` is a total order.
pub proof fn lemma_text_order_total()
    ensures
        total_ordering(text_order()),
{
    assert forall|a: Seq<char>| #[trigger] text_order()(a, a) by {
        lemma_text_le_refl(a);
    }
    assert forall|a: Seq<char>, b: Seq<char>|
        #[trigger] text_order()(a, b) && #[trigger] text_order()(b, a) implies a == b by {
        lemma_text_le_antisym(a, b);
    }
    assert forall|a: Seq<char>, b: Seq<char>, c: Seq<char>|
        #[trigger] text_order()(a, b) && #[trigger] text_order()(b, c) implies text_order()(
        a,
        c,
    ) by {
        lemma_text_le_trans(a, b, c);
    }
    assert forall|a: Seq<char>, b: Seq<char>|
        #[trigger] text_order()(a, b) || #[trigger] text_order()(b, a) by {
        lemma_text_le_total(a, b);
    }
}

/// `a <= b` for texts.
pub fn text_le_chars(a: &[char], b: &[char]) -> (r: bool)
    ensures
        r == text_le(a@, b@),
{
    let mut i: usize = 0;
    assert(a@.skip(0) =~= a@);
    assert(b@.skip(0) =~= b@);
    loop
        invariant
            i <= a@.len(),
            i <= b@.len(),
            text_le(a@, b@) == text_le(a@.skip(i as int), b@.skip(i as int)),
        decreases a@.len() - i,
    {
        if i == a.len() {
            return true;
        }
        if i == b.len() {
            return false;
        }
        assert(a@.skip(i as int)[0] == a@[i as int]);
        assert(b@.skip(i as int)[0] == b@[i as int]);
        if a[i] != b[i] {
            return a[i] < b[i];
        }
        assert(a@.skip(i as int).drop_first() =~= a@.skip(i + 1));
        assert(b@.skip(i as int).drop_first() =~= b@.skip(i + 1));
        i = i + 1;
    }
}

/// The texts of `v` in the order of `str` (`sort`).
pub fn sort_texts(v: &Vec<Vec<char>>) -> (r: Vec<Vec<char>>)
    ensures
        views(r@) == views(v@).sort_by(text_order()),
{
    proof {
        lemma_text_order_total();
    }
    let ghost le = text_order();
    let ghost orig = views(v@);
    let mut r: Vec<Vec<char>> = Vec::new();
    let mut i: usize = 0;
    while i < v.len()
        invariant
            i <= v@.len(),
            total_ordering(le),
            le == text_order(),
            orig == views(v@),
            sorted_by(views(r@), le),
            views(r@).to_multiset() == orig.take(i as int).to_multiset(),
        decreases v@.len() - i,
    {
        let x = slice_copy(v[i].as_slice(), 0, v[i].len());
        assert(x@ =~= orig[i as int]);
        // First position whose element is greater than `x` (stable insertion).
        let mut p: usize = 0;
        while p < r.len() && text_le_chars(r[p].as_slice(), x.as_slice())
            invariant
                p <= r@.len(),
                forall|j: int| 0 <= j < p ==> text_le(#[trigger] views(r@)[j], x@),
            decreases r@.len() - p,
        {
            assert(views(r@)[p as int] == r@[p as int]@);
            p = p + 1;
        }
        let ghost old_r = views(r@);
        proof {
            if p < r@.len() {
                assert(old_r[p as int] == r@[p as int]@);
                assert(!text_le(old_r[p as int], x@));
                assert(le(x@, old_r[p as int]) || le(old_r[p as int], x@));
            }
        }
        r.insert(p, x);
        proof {
            let nr = views(r@);
            assert(nr =~= old_r.insert(p as int, x@));
            assert forall|a: int, b: int| 0 <= a < b < nr.len() implies #[trigger] le(nr[a], nr[b]) by {
                if b < p {
                    assert(le(old_r[a], old_r[b]));
                } else if a < p && b == p {
                    assert(le(old_r[a], x@));
                } else if a < p && b > p {
                    assert(le(old_r[a], x@));
                    assert(le(x@, old_r[p as int]));
                    if b - 1 > p {
                        assert(le(old_r[p as int], old_r[b - 1]));
                    }
                    assert(le(x@, old_r[b - 1]));
                } else if a == p {
                    assert(le(x@, old_r[p as int]));
                    if b - 1 > p {
                        assert(le(old_r[p as int], old_r[b - 1]));
                    }
                } else {
                    assert(le(old_r[a - 1], old_r[b - 1]));
                }
            }
            vstd::seq_lib::to_multiset_insert(old_r, p as int, x@);
            assert(orig.take(i + 1) =~= orig.take(i as int).push(x@));
            vstd::seq_lib::to_multiset_build(orig.take(i as int), x@);
        }
        i = i + 1;
    }
    proof {
        assert(orig.take(v@.len() as int) =~= orig);
        orig.lemma_sort_by_ensures(le);
        vstd::seq_lib::lemma_sorted_unique(views(r@), orig.sort_by(le), le);
    }
    r
}

/// `s` with each run of equal neighbours kept once (`Vec::dedup`).
pub open spec fn dedup_adjacent(s: Seq<Seq<char>>) -> Seq<Seq<char>>
    decreases s.len(),
{
    if s.len() == 0 {
        s
    } else {
        let d = dedup_adjacent(s.drop_last());
        if d.len() > 0 && d.last() == s.last() {
            d
        } else {
            d.push(s.last())
        }
    }
}

/// `v` with runs of equal neighbours collapsed (`Vec::dedup`).
pub fn dedup_texts(v: &Vec<Vec<char>>) -> (r: Vec<Vec<char>>)
    ensures
        views(r@) == dedup_adjacent(views(v@)),
{
    let ghost s = views(v@);
    let mut r: Vec<Vec<char>> = Vec::new();
    let mut i: usize = 0;
    assert(s.take(0) =~= Seq::<Seq<char>>::empty());
    while i < v.len()
        invariant
            i <= v@.len(),
            s == views(v@),
            views(r@) == dedup_adjacent(s.take(i as int)),
        decreases v@.len() - i,
    {
        let x = slice_copy(v[i].as_slice(), 0, v[i].len());
        assert(x@ =~= s[i as int]);
        assert(s.take(i + 1).drop_last() =~= s.take(i as int));
        assert(s.take(i + 1).last() == s[i as int]);
        let n = r.len();
        let same = n > 0 && crate::text::chars_eq(r[n - 1].as_slice(), x.as_slice());
        proof {
            if n > 0 {
                assert(views(r@).last() == r@[n - 1]@);
            }
        }
        if !same {
            let ghost before = views(r@);
            r.push(x);
            assert(views(r@) =~= before.push(x@));
        }
        i = i + 1;
    }
    assert(s.take(v@.len() as int) =~= s);
    r
}

/// Strictly increasing texts: sorted, no two equal.
pub open spec fn strictly_sorted(s: Seq<Seq<char>>) -> bool {
    forall|i: int, j: int| 0 <= i < j < s.len() ==> text_le(#[trigger] s[i], #[trigger] s[j]) && s[i] != s[j]
}

proof fn lemma_dedup_shape(s: Seq<Seq<char>>)
    ensures
        s.len() > 0 ==> dedup_adjacent(s).len() > 0 && dedup_adjacent(s).last() == s.last(),
        forall|i: int| 0 <= i < dedup_adjacent(s).len() ==> s.contains(#[trigger] dedup_adjacent(s)[i]),
    decreases s.len(),
{
    if s.len() > 0 {
        lemma_dedup_shape(s.drop_last());
        let d = dedup_adjacent(s.drop_last());
        assert forall|i: int| 0 <= i < dedup_adjacent(s).len() implies s.contains(#[trigger] dedup_adjacent(s)[i]) by {
            if i < d.len() {
                assert(s.drop_last().contains(d[i]));
                let k = choose|k: int| 0 <= k < s.drop_last().len() && s.drop_last()[k] == d[i];
                assert(s[k] == d[i]);
            } else {
                assert(dedup_adjacent(s)[i] == s[s.len() - 1]);
            }
        }
    }
}

/// De-duplicating a sorted list of texts leaves it strictly increasing.
pub proof fn lemma_dedup_strictly_sorted(s: Seq<Seq<char>>)
    requires
        sorted_by(s, text_order()),
    ensures
        strictly_sorted(dedup_adjacent(s)),
    decreases s.len(),
{
    lemma_text_order_total();
    if s.len() > 0 {
        let p = s.drop_last();
        assert(sorted_by(p, text_order())) by {
            assert forall|i: int, j: int| 0 <= i < j < p.len() implies #[trigger] text_order()(p[i], p[j]) by {
                assert(text_order()(s[i], s[j]));
            }
        }
        lemma_dedup_strictly_sorted(p);
        lemma_dedup_shape(p);
        let d = dedup_adjacent(p);
        if !(d.len() > 0 && d.last() == s.last()) {
            let r = d.push(s.last());
            assert forall|i: int, j: int| 0 <= i < j < r.len() implies text_le(#[trigger] r[i], #[trigger] r[j]) && r[i] != r[j] by {
                if j == r.len() - 1 {
                    assert(p.contains(d[i]));
                    let k = choose|k: int| 0 <= k < p.len() && p[k] == d[i];
                    assert(text_order()(s[k], s[s.len() - 1]));
                    if d.len() > 0 {
                        let lk = d.len() - 1;
                        if i < lk {
                            assert(text_le(d[i], d[lk]) && d[i] != d[lk]);
                        }
                        if r[i] == r[j] {
                            // d[i] == s.last() would put s.last() at or below d.last().
                            assert(p.len() > 0);
                            assert(d.last() == p.last());
                            assert(text_order()(p[p.len() - 1], s[s.len() - 1]));
                            if i < lk {
                                lemma_text_le_trans(s.last(), d[lk], s.last());
                                lemma_text_le_antisym(d[lk], s.last());
                            }
                        }
                    }
                }
            }
        }
    }
}

/// De-duplicating keeps exactly the texts that were there.
pub proof fn lemma_dedup_same_elements(s: Seq<Seq<char>>)
    ensures
        forall|e: Seq<char>| #[trigger] dedup_adjacent(s).contains(e) <==> s.contains(e),
    decreases s.len(),
{
    lemma_dedup_shape(s);
    if s.len() > 0 {
        let p = s.drop_last();
        lemma_dedup_same_elements(p);
        lemma_dedup_shape(p);
        let d = dedup_adjacent(p);
        let r = dedup_adjacent(s);
        assert forall|e: Seq<char>| s.contains(e) implies #[trigger] r.contains(e) by {
            let k = choose|k: int| 0 <= k < s.len() && s[k] == e;
            if k < s.len() - 1 {
                assert(p[k] == e);
                assert(p.contains(e));
                assert(d.contains(e));
                let q = choose|q: int| 0 <= q < d.len() && d[q] == e;
                if d.len() > 0 && d.last() == s.last() {
                    assert(r[q] == e);
                } else {
                    assert(r[q] == e);
                }
            } else {
                assert(r.last() == s.last());
            }
        }
        assert forall|e: Seq<char>| r.contains(e) implies #[trigger] s.contains(e) by {
            let q = choose|q: int| 0 <= q < r.len() && r[q] == e;
            assert(s.contains(r[q]));
        }
    }
}

/// Two strictly increasing lists of texts with the same texts are equal.
pub proof fn lemma_strictly_sorted_unique(x: Seq<Seq<char>>, y: Seq<Seq<char>>)
    requires
        strictly_sorted(x),
        strictly_sorted(y),
        forall|e: Seq<char>| #[trigger] x.contains(e) <==> y.contains(e),
    ensures
        x == y,
    decreases x.len(),
{
    if x.len() == 0 {
        if y.len() > 0 {
            assert(y.contains(y[0]));
            assert(x.contains(y[0]));
        }
        assert(x =~= y);
    } else {
        assert(x.contains(x[0]));
        assert(y.contains(x[0]));
        assert(y.contains(y[0]));
        assert(x.contains(y[0]));
        let i = choose|i: int| 0 <= i < y.len() && y[i] == x[0];
        let j = choose|j: int| 0 <= j < x.len() && x[j] == y[0];
        if i != 0 && j != 0 {
            assert(text_le(x[0], x[j]));
            assert(text_le(y[0], y[i]));
            lemma_text_le_antisym(x[0], y[0]);
        }
        assert(x[0] == y[0]);
        let xt = x.drop_first();
        let yt = y.drop_first();
        assert forall|a: int, b: int| 0 <= a < b < xt.len() implies text_le(#[trigger] xt[a], #[trigger] xt[b]) && xt[a] != xt[b] by {
            assert(xt[a] == x[a + 1] && xt[b] == x[b + 1]);
        }
        assert forall|a: int, b: int| 0 <= a < b < yt.len() implies text_le(#[trigger] yt[a], #[trigger] yt[b]) && yt[a] != yt[b] by {
            assert(yt[a] == y[a + 1] && yt[b] == y[b + 1]);
        }
        assert forall|e: Seq<char>| #[trigger] xt.contains(e) <==> yt.contains(e) by {
            if xt.contains(e) {
                let a = choose|a: int| 0 <= a < xt.len() && xt[a] == e;
                assert(x[a + 1] == e);
                assert(e != x[0]);
                assert(x.contains(e));
                assert(y.contains(e));
                let b = choose|b: int| 0 <= b < y.len() && y[b] == e;
                assert(b != 0);
                assert(yt[b - 1] == e);
            }
            if yt.contains(e) {
                let a = choose|a: int| 0 <= a < yt.len() && yt[a] == e;
                assert(y[a + 1] == e);
                assert(e != y[0]);
                assert(e != x[0]);
                assert(y.contains(e));
                assert(x.contains(e));
                let b = choose|b: int| 0 <= b < x.len() && x[b] == e;
                assert(b != 0);
                assert(xt[b - 1] == e);
            }
        }
        lemma_strictly_sorted_unique(xt, yt);
        assert(x =~= seq![x[0]] + xt);
        assert(y =~= seq![y[0]] + yt);
    }
}

} // verus!
