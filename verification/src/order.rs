//! Ordering of text and stable sorting.
//!
//! Text is ordered by its characters' code points, first difference first.
//! That is the order of the UTF-8 encodings as well, because UTF-8 keeps the
//! order of code points.

use crate::text;
use vstd::prelude::*;

verus! {

/// `a` comes strictly before `b` in code point order.
pub open spec fn text_lt(a: Seq<char>, b: Seq<char>) -> bool
    decreases a.len(),
{
    if b.len() == 0 {
        false
    } else if a.len() == 0 {
        true
    } else if a[0] == b[0] {
        text_lt(a.subrange(1, a.len() as int), b.subrange(1, b.len() as int))
    } else {
        (a[0] as int) < (b[0] as int)
    }
}

/// Any two texts are equal or one comes before the other, never both.
pub proof fn lemma_text_total(a: Seq<char>, b: Seq<char>)
    ensures
        !(text_lt(a, b) && text_lt(b, a)),
        a == b <==> !text_lt(a, b) && !text_lt(b, a),
    decreases a.len(),
{
    if a.len() > 0 && b.len() > 0 && a[0] != b[0] {
        assert(a[0] as int != b[0] as int);
    } else if a.len() > 0 && b.len() > 0 {
        let ta = a.subrange(1, a.len() as int);
        let tb = b.subrange(1, b.len() as int);
        lemma_text_total(ta, tb);
        if a[0] == b[0] && ta == tb {
            assert(a =~= seq![a[0]] + ta);
            assert(b =~= seq![b[0]] + tb);
        }
    } else if a.len() == 0 && b.len() == 0 {
        assert(a =~= b);
    }
}

/// The order of texts is transitive.
pub proof fn lemma_text_trans(a: Seq<char>, b: Seq<char>, c: Seq<char>)
    requires
        text_lt(a, b),
        text_lt(b, c),
    ensures
        text_lt(a, c),
    decreases a.len(),
{
    if a.len() > 0 && b.len() > 0 && c.len() > 0 && a[0] == b[0] && b[0] == c[0] {
        lemma_text_trans(
            a.subrange(1, a.len() as int),
            b.subrange(1, b.len() as int),
            c.subrange(1, c.len() as int),
        );
    }
}

/// Whether `a` comes strictly before `b`.
pub fn text_less(a: &str, b: &str) -> (r: bool)
    ensures
        r == text_lt(a@, b@),
{
    let v = text::chars_of(a);
    let w = text::chars_of(b);
    let mut i: usize = 0;
    assert(v@.subrange(0, v@.len() as int) =~= v@);
    assert(w@.subrange(0, w@.len() as int) =~= w@);
    while i < v.len() && i < w.len() && v[i] == w[i]
        invariant
            i <= v@.len(),
            i <= w@.len(),
            text_lt(v@, w@) == text_lt(
                v@.subrange(i as int, v@.len() as int),
                w@.subrange(i as int, w@.len() as int),
            ),
        decreases v@.len() - i,
    {
        let ghost rv = v@.subrange(i as int, v@.len() as int);
        let ghost rw = w@.subrange(i as int, w@.len() as int);
        assert(rv[0] == rw[0]);
        assert(rv.subrange(1, rv.len() as int) =~= v@.subrange(i + 1, v@.len() as int));
        assert(rw.subrange(1, rw.len() as int) =~= w@.subrange(i + 1, w@.len() as int));
        i = i + 1;
    }
    let ghost rv = v@.subrange(i as int, v@.len() as int);
    let ghost rw = w@.subrange(i as int, w@.len() as int);
    if i >= w.len() {
        false
    } else if i >= v.len() {
        true
    } else {
        assert(rv[0] == v@[i as int]);
        assert(rw[0] == w@[i as int]);
        let x: char = v[i];
        let y: char = w[i];
        proof {
            text::lemma_char_code(x);
            text::lemma_char_code(y);
        }
        (x as u32) < (y as u32)
    }
}

/// Keys are ordered by their number, then by their text.
pub open spec fn key_lt(a: (u64, Seq<char>), b: (u64, Seq<char>)) -> bool {
    a.0 < b.0 || (a.0 == b.0 && text_lt(a.1, b.1))
}

/// In a stable sort of `keys`, item `a` stands before item `b`.
pub open spec fn precedes(keys: Seq<(u64, Seq<char>)>, a: int, b: int) -> bool {
    key_lt(keys[a], keys[b]) || (keys[a] == keys[b] && a < b)
}

/// `order` lists the positions of `keys` as a stable sort by key does.
pub open spec fn is_stable_order(keys: Seq<(u64, Seq<char>)>, order: Seq<usize>) -> bool {
    &&& order.len() == keys.len()
    &&& forall|i: int| 0 <= i < order.len() ==> 0 <= #[trigger] order[i] < keys.len()
    &&& forall|i: int, j: int|
        0 <= i < j < order.len() ==> precedes(keys, #[trigger] order[i] as int, #[trigger] order[j] as int)
}

proof fn lemma_precedes_trans(keys: Seq<(u64, Seq<char>)>, a: int, b: int, c: int)
    requires
        precedes(keys, a, b),
        precedes(keys, b, c),
    ensures
        precedes(keys, a, c),
{
    if keys[a].0 == keys[b].0 && keys[b].0 == keys[c].0 {
        if text_lt(keys[a].1, keys[b].1) && text_lt(keys[b].1, keys[c].1) {
            lemma_text_trans(keys[a].1, keys[b].1, keys[c].1);
        }
    }
}

fn key_less(a: &(u64, String), b: &(u64, String)) -> (r: bool)
    ensures
        r == key_lt(a.deep_view(), b.deep_view()),
{
    if a.0 != b.0 {
        a.0 < b.0
    } else {
        text_less(a.1.as_str(), b.1.as_str())
    }
}

/// The positions of `keys` in the order of a stable sort by key.
pub fn stable_order(keys: &Vec<(u64, String)>) -> (order: Vec<usize>)
    ensures
        is_stable_order(keys.deep_view(), order@),
{
    let ghost ks = keys.deep_view();
    let mut order: Vec<usize> = Vec::new();
    let mut i: usize = 0;
    while i < keys.len()
        invariant
            ks == keys.deep_view(),
            i <= keys@.len(),
            order@.len() == i,
            forall|k: int| 0 <= k < i ==> 0 <= #[trigger] order@[k] < i,
            forall|k: int, l: int|
                0 <= k < l < i ==> precedes(ks, #[trigger] order@[k] as int, #[trigger] order@[l] as int),
        decreases keys@.len() - i,
    {
        let mut p: usize = order.len();
        while p > 0 && key_less(&keys[i], &keys[order[p - 1]])
            invariant
                ks == keys.deep_view(),
                i < keys@.len(),
                p <= order@.len(),
                order@.len() == i,
                forall|k: int| 0 <= k < i ==> 0 <= #[trigger] order@[k] < i,
                forall|k: int| p <= k < i ==> key_lt(ks[i as int], ks[#[trigger] order@[k] as int]),
            decreases p,
        {
            p = p - 1;
        }
        let ghost before = order@;
        proof {
            if p > 0 {
                let q = before[p - 1] as int;
                assert(!key_lt(ks[i as int], ks[q]));
                lemma_text_total(ks[i as int].1, ks[q].1);
                assert(precedes(ks, q, i as int));
                assert forall|k: int| 0 <= k < p implies precedes(ks, #[trigger] before[k] as int, i as int) by {
                    if k < p - 1 {
                        assert(precedes(ks, before[k] as int, before[p - 1] as int));
                        lemma_precedes_trans(ks, before[k] as int, q, i as int);
                    }
                }
            }
        }
        order.insert(p, i);
        proof {
            assert forall|k: int, l: int| 0 <= k < l < i + 1 implies precedes(
                ks,
                #[trigger] order@[k] as int,
                #[trigger] order@[l] as int,
            ) by {
                let a = if k < p { before[k] } else if k == p { i } else { before[k - 1] };
                let b = if l < p { before[l] } else if l == p { i } else { before[l - 1] };
                assert(order@[k] == a);
                assert(order@[l] == b);
            }
        }
        i = i + 1;
    }
    order
}

/// No position appears twice in a stable order.
pub proof fn lemma_stable_order_injective(keys: Seq<(u64, Seq<char>)>, order: Seq<usize>)
    requires
        is_stable_order(keys, order),
    ensures
        order.no_duplicates(),
{
    assert forall|i: int, j: int| 0 <= i < order.len() && 0 <= j < order.len() && i != j implies order[i]
        != order[j] by {
        if i < j {
            assert(precedes(keys, order[i] as int, order[j] as int));
            lemma_text_total(keys[order[i] as int].1, keys[order[j] as int].1);
        } else {
            assert(precedes(keys, order[j] as int, order[i] as int));
            lemma_text_total(keys[order[i] as int].1, keys[order[j] as int].1);
        }
    }
}

/// Every position appears in a stable order.
pub proof fn lemma_stable_order_onto(keys: Seq<(u64, Seq<char>)>, order: Seq<usize>, p: int)
    requires
        is_stable_order(keys, order),
        0 <= p < keys.len(),
    ensures
        exists|i: int| 0 <= i < order.len() && #[trigger] order[i] == p,
{
    lemma_stable_order_injective(keys, order);
    let ints = order.map_values(|u: usize| u as int);
    assert forall|i: int, j: int| 0 <= i < ints.len() && 0 <= j < ints.len() && i != j implies ints[i]
        != ints[j] by {
        assert(order[i] != order[j]);
    }
    ints.unique_seq_to_set();
    vstd::seq_lib::seq_to_set_is_finite(ints);
    vstd::set_lib::lemma_int_range(0, keys.len() as int);
    let range = vstd::set_lib::set_int_range(0, keys.len() as int);
    assert forall|x: int| ints.to_set().contains(x) implies range.contains(x) by {
        let i = choose|i: int| 0 <= i < ints.len() && ints[i] == x;
        assert(0 <= order[i] < keys.len());
    }
    vstd::set_lib::lemma_subset_equality(ints.to_set(), range);
    assert(range.contains(p));
    assert(ints.to_set().contains(p));
    let i = choose|i: int| 0 <= i < ints.len() && ints[i] == p;
    assert(order[i] == p);
}

/// The texts stand in ascending order, no two of them equal.
pub open spec fn strictly_sorted(s: Seq<Seq<char>>) -> bool {
    forall|i: int, j: int| 0 <= i < j < s.len() ==> text_lt(#[trigger] s[i], #[trigger] s[j])
}

/// The texts stand in ascending order.
pub open spec fn sorted(s: Seq<Seq<char>>) -> bool {
    forall|i: int, j: int| 0 <= i < j < s.len() ==> !text_lt(#[trigger] s[j], #[trigger] s[i])
}

/// The same items, listed in another order.
pub open spec fn rearranged<T>(from: Seq<T>, to: Seq<T>, by: Seq<usize>) -> bool {
    &&& by.len() == from.len()
    &&& to.len() == from.len()
    &&& by.no_duplicates()
    &&& forall|i: int| 0 <= i < by.len() ==> 0 <= #[trigger] by[i] < from.len() && to[i] == from[by[i] as int]
}

/// The texts of `v` in ascending order.
pub fn sorted_texts(v: &Vec<String>) -> (r: Vec<String>)
    ensures
        sorted(r.deep_view()),
        exists|by: Seq<usize>| #[trigger] rearranged(v.deep_view(), r.deep_view(), by),
        forall|t: Seq<char>| #[trigger] r.deep_view().contains(t) <==> v.deep_view().contains(t),
        v.deep_view().no_duplicates() ==> strictly_sorted(r.deep_view()),
{
    let mut keys: Vec<(u64, String)> = Vec::new();
    let mut i: usize = 0;
    while i < v.len()
        invariant
            i <= v@.len(),
            keys@.len() == i,
            forall|k: int| 0 <= k < i ==> (#[trigger] keys@[k]).0 == 0 && keys@[k].1@ == v@[k]@,
        decreases v@.len() - i,
    {
        keys.push((0, v[i].clone()));
        i = i + 1;
    }
    let ghost ks = keys.deep_view();
    assert forall|k: int| 0 <= k < ks.len() implies #[trigger] ks[k] == (0u64, v.deep_view()[k]) by {
        assert(ks[k] == keys@[k].deep_view());
    }
    let by = stable_order(&keys);
    let mut out: Vec<String> = Vec::new();
    let mut j: usize = 0;
    while j < by.len()
        invariant
            j <= by@.len(),
            by@.len() == v@.len(),
            out@.len() == j,
            forall|k: int| 0 <= k < by@.len() ==> 0 <= #[trigger] by@[k] < v@.len(),
            forall|k: int| 0 <= k < j ==> (#[trigger] out@[k])@ == v@[by@[k] as int]@,
        decreases by@.len() - j,
    {
        out.push(v[by[j]].clone());
        j = j + 1;
    }
    proof {
        let a = v.deep_view();
        let b = out.deep_view();
        lemma_stable_order_injective(ks, by@);
        assert forall|k: int| 0 <= k < by@.len() implies 0 <= #[trigger] by@[k] < a.len() && b[k]
            == a[by@[k] as int] by {
            assert(b[k] == out@[k]@);
        }
        assert(rearranged(a, b, by@));
        assert forall|x: int, y: int| 0 <= x < y < b.len() implies !text_lt(#[trigger] b[y], #[trigger] b[x]) by {
            assert(precedes(ks, by@[x] as int, by@[y] as int));
            lemma_text_total(b[x], b[y]);
        }
        assert forall|t: Seq<char>| #[trigger] b.contains(t) <==> a.contains(t) by {
            if b.contains(t) {
                let k = choose|k: int| 0 <= k < b.len() && b[k] == t;
                assert(a[by@[k] as int] == t);
            }
            if a.contains(t) {
                let p = choose|p: int| 0 <= p < a.len() && a[p] == t;
                lemma_stable_order_onto(ks, by@, p);
                let k = choose|k: int| 0 <= k < by@.len() && #[trigger] by@[k] == p;
                assert(b[k] == t);
            }
        }
        if a.no_duplicates() {
            assert forall|x: int, y: int| 0 <= x < y < b.len() implies text_lt(#[trigger] b[x], #[trigger] b[y]) by {
                assert(precedes(ks, by@[x] as int, by@[y] as int));
                assert(by@[x] != by@[y]);
                assert(a[by@[x] as int] != a[by@[y] as int]);
            }
        }
    }
    out
}

// ---------------------------------------------------------------------------
// Sets of texts, listed
// ---------------------------------------------------------------------------

/// `p` lists the texts of `set` in ascending order, each once.
pub open spec fn lists(p: Seq<Seq<char>>, set: Set<Seq<char>>) -> bool {
    strictly_sorted(p) && forall|t: Seq<char>| #[trigger] p.contains(t) <==> set.contains(t)
}

/// The texts of a set in ascending order, each once.
pub open spec fn listing(set: Set<Seq<char>>) -> Seq<Seq<char>> {
    choose|p: Seq<Seq<char>>| lists(p, set)
}

/// Two ascending lists of the same texts are the same list.
pub proof fn lemma_strictly_sorted_unique(a: Seq<Seq<char>>, b: Seq<Seq<char>>)
    requires
        strictly_sorted(a),
        strictly_sorted(b),
        forall|t: Seq<char>| #[trigger] a.contains(t) <==> b.contains(t),
    ensures
        a == b,
    decreases a.len(),
{
    if a.len() == 0 {
        if b.len() > 0 {
            assert(b.contains(b[0]));
            assert(a.contains(b[0]));
        }
        assert(a =~= b);
    } else {
        let x = a.last();
        assert(a.contains(x));
        let j = choose|j: int| 0 <= j < b.len() && b[j] == x;
        let y = b.last();
        assert(b.contains(y));
        assert(a.contains(y));
        let i = choose|i: int| 0 <= i < a.len() && a[i] == y;
        lemma_text_total(x, y);
        if j < b.len() - 1 {
            assert(text_lt(b[j], b[b.len() - 1]));
            if i < a.len() - 1 {
                assert(text_lt(a[i], a[a.len() - 1]));
            }
        }
        assert(x == y);
        let da = a.drop_last();
        let db = b.drop_last();
        assert forall|t: Seq<char>| #[trigger] da.contains(t) <==> db.contains(t) by {
            if da.contains(t) {
                let k = choose|k: int| 0 <= k < da.len() && da[k] == t;
                assert(a[k] == t);
                assert(a.contains(t));
                assert(text_lt(a[k], a[a.len() - 1]));
                lemma_text_total(t, x);
                let l = choose|l: int| 0 <= l < b.len() && b[l] == t;
                assert(db[l] == t);
            }
            if db.contains(t) {
                let k = choose|k: int| 0 <= k < db.len() && db[k] == t;
                assert(b[k] == t);
                assert(b.contains(t));
                assert(a.contains(t));
                assert(text_lt(b[k], b[b.len() - 1]));
                lemma_text_total(t, x);
                let l = choose|l: int| 0 <= l < a.len() && a[l] == t;
                assert(da[l] == t);
            }
        }
        lemma_strictly_sorted_unique(da, db);
        assert(a =~= da.push(x));
        assert(b =~= db.push(y));
    }
}

/// An ascending list of the texts of a set is the listing of the set.
pub proof fn lemma_listing(p: Seq<Seq<char>>, set: Set<Seq<char>>)
    requires
        lists(p, set),
    ensures
        p == listing(set),
{
    let q = listing(set);
    assert(lists(q, set));
    assert forall|t: Seq<char>| #[trigger] p.contains(t) <==> q.contains(t) by {
    }
    lemma_strictly_sorted_unique(p, q);
}

proof fn lemma_insertion(p: Seq<Seq<char>>, x: Seq<char>) -> (q: Seq<Seq<char>>)
    requires
        strictly_sorted(p),
        !p.contains(x),
    ensures
        strictly_sorted(q),
        forall|t: Seq<char>| #[trigger] q.contains(t) <==> p.contains(t) || t == x,
    decreases p.len(),
{
    if p.len() == 0 {
        let q = seq![x];
        assert(q[0] == x);
        q
    } else {
        let last = p.last();
        let rest = p.drop_last();
        lemma_text_total(last, x);
        assert(p.contains(last));
        if text_lt(last, x) {
            let q = p.push(x);
            assert forall|i: int| 0 <= i < p.len() implies text_lt(#[trigger] q[i], x) by {
                if i < p.len() - 1 {
                    lemma_text_trans(p[i], last, x);
                }
            }
            assert forall|t: Seq<char>| #[trigger] q.contains(t) <==> p.contains(t) || t == x by {
                if p.contains(t) {
                    let i = choose|i: int| 0 <= i < p.len() && p[i] == t;
                    assert(q[i] == t);
                }
                assert(q[p.len() as int] == x);
            }
            q
        } else {
            assert forall|i: int| 0 <= i < rest.len() implies #[trigger] rest[i] != x by {
                assert(p[i] == rest[i]);
            }
            let before = lemma_insertion(rest, x);
            let q = before.push(last);
            assert forall|i: int| 0 <= i < before.len() implies text_lt(#[trigger] q[i], last) by {
                assert(before.contains(before[i]));
                if before[i] != x {
                    let k = choose|k: int| 0 <= k < rest.len() && rest[k] == before[i];
                    assert(p[k] == rest[k]);
                }
            }
            assert forall|t: Seq<char>| #[trigger] q.contains(t) <==> p.contains(t) || t == x by {
                if q.contains(t) {
                    let i = choose|i: int| 0 <= i < q.len() && q[i] == t;
                    if i < before.len() {
                        assert(before.contains(t));
                        if t != x {
                            let k = choose|k: int| 0 <= k < rest.len() && rest[k] == t;
                            assert(p[k] == t);
                        }
                    }
                }
                if p.contains(t) || t == x {
                    if t == last {
                        assert(q[before.len() as int] == t);
                    } else {
                        if t != x {
                            let k = choose|k: int| 0 <= k < p.len() && p[k] == t;
                            assert(rest[k] == t);
                        }
                        assert(before.contains(t));
                        let i = choose|i: int| 0 <= i < before.len() && before[i] == t;
                        assert(q[i] == t);
                    }
                }
            }
            q
        }
    }
}

/// The texts of a finite set can be listed, and its listing lists them.
pub proof fn lemma_finite_listing(set: Set<Seq<char>>)
    requires
        set.finite(),
    ensures
        lists(listing(set), set),
    decreases set.len(),
{
    if set.len() == 0 {
        let p = Seq::<Seq<char>>::empty();
        assert(set =~= Set::empty());
        assert(lists(p, set));
    } else {
        let x = set.choose();
        let rest = set.remove(x);
        lemma_finite_listing(rest);
        let p = listing(rest);
        assert(!p.contains(x));
        let q = lemma_insertion(p, x);
        assert forall|t: Seq<char>| #[trigger] q.contains(t) <==> set.contains(t) by {
            assert(p.contains(t) <==> rest.contains(t));
        }
        assert(lists(q, set));
    }
}

/// The listing of the texts of `v`, which holds none of them twice.
pub fn sorted_listing(v: &Vec<String>) -> (r: Vec<String>)
    requires
        v.deep_view().no_duplicates(),
    ensures
        r.deep_view() == listing(v.deep_view().to_set()),
        lists(r.deep_view(), v.deep_view().to_set()),
{
    let r = sorted_texts(v);
    proof {
        let set = v.deep_view().to_set();
        assert forall|t: Seq<char>| #[trigger] r.deep_view().contains(t) <==> set.contains(t) by {
        }
        lemma_listing(r.deep_view(), set);
    }
    r
}

// ---------------------------------------------------------------------------
// Lists of texts, sorted
// ---------------------------------------------------------------------------

/// The first text does not come after the second.
pub open spec fn text_le() -> spec_fn(Seq<char>, Seq<char>) -> bool {
    |a: Seq<char>, b: Seq<char>| !text_lt(b, a)
}

/// The texts in ascending order, equal ones side by side.
pub open spec fn ascending(s: Seq<Seq<char>>) -> Seq<Seq<char>> {
    s.sort_by(text_le())
}

proof fn lemma_text_le()
    ensures
        vstd::relations::total_ordering(text_le()),
{
    let le = text_le();
    assert forall|a: Seq<char>| #[trigger] le(a, a) by {
        lemma_text_total(a, a);
    }
    assert forall|a: Seq<char>, b: Seq<char>| #[trigger] le(a, b) && #[trigger] le(b, a) implies a
        == b by {
        lemma_text_total(a, b);
    }
    assert forall|a: Seq<char>, b: Seq<char>, c: Seq<char>| #[trigger] le(a, b) && #[trigger] le(
        b,
        c,
    ) implies le(a, c) by {
        lemma_text_total(a, b);
        lemma_text_total(b, c);
        lemma_text_total(a, c);
        if text_lt(c, a) {
            if a == b {
            } else if b == c {
            } else {
                lemma_text_trans(a, b, c);
                lemma_text_trans(a, c, a);
                lemma_text_total(a, a);
            }
        }
    }
    assert forall|a: Seq<char>, b: Seq<char>| #[trigger] le(a, b) || #[trigger] le(b, a) by {
        lemma_text_total(a, b);
    }
}

/// A sorted list with the same texts is the sorted list.
pub proof fn lemma_ascending(s: Seq<Seq<char>>, r: Seq<Seq<char>>)
    requires
        sorted(r),
        r.to_multiset() == s.to_multiset(),
    ensures
        r == ascending(s),
{
    lemma_text_le();
    s.lemma_sort_by_ensures(text_le());
    let le = text_le();
    assert forall|i: int, j: int| 0 <= i < j < r.len() implies #[trigger] le(r[i], r[j]) by {
        assert(!text_lt(r[j], r[i]));
    }
    vstd::seq_lib::lemma_sorted_unique(r, ascending(s), text_le());
}

/// The order in which texts are listed does not change the sorted list.
pub proof fn lemma_ascending_ignores_order(a: Seq<Seq<char>>, b: Seq<Seq<char>>)
    requires
        a.to_multiset() == b.to_multiset(),
    ensures
        ascending(a) == ascending(b),
{
    lemma_text_le();
    a.lemma_sort_by_ensures(text_le());
    b.lemma_sort_by_ensures(text_le());
    vstd::seq_lib::lemma_sorted_unique(ascending(a), ascending(b), text_le());
}

/// The texts of `v` in ascending order, equal ones side by side.
pub fn ascending_texts(v: &Vec<String>) -> (r: Vec<String>)
    ensures
        r.deep_view() == ascending(v.deep_view()),
{
    let ghost all = v.deep_view();
    let mut out: Vec<String> = Vec::new();
    let mut i: usize = 0;
    proof {
        assert(out.deep_view() =~= all.subrange(0, 0));
    }
    while i < v.len()
        invariant
            i <= v@.len(),
            all == v.deep_view(),
            out@.len() == i,
            sorted(out.deep_view()),
            out.deep_view().to_multiset() == all.subrange(0, i as int).to_multiset(),
        decreases v@.len() - i,
    {
        let ghost before = out.deep_view();
        let ghost x = v@[i as int]@;
        let mut p: usize = out.len();
        while p > 0 && text_less(v[i].as_str(), out[p - 1].as_str())
            invariant
                p <= out@.len(),
                i < v@.len(),
                before == out.deep_view(),
                x == v@[i as int]@,
                forall|k: int| p <= k < before.len() ==> text_lt(x, #[trigger] before[k]),
            decreases p,
        {
            assert(before[p - 1] == out@[p - 1]@);
            p = p - 1;
        }
        assert(p > 0 ==> before[p - 1] == out@[p - 1]@);
        out.insert(p, v[i].clone());
        proof {
            let after = out.deep_view();
            assert(after =~= before.insert(p as int, x));
            vstd::seq_lib::to_multiset_insert(before, p as int, x);
            let next = all.subrange(0, i + 1);
            assert(next =~= all.subrange(0, i as int).push(x));
            vstd::seq_lib::to_multiset_build(all.subrange(0, i as int), x);
            assert forall|a: int, b: int| 0 <= a < b < after.len() implies !text_lt(
                #[trigger] after[b],
                #[trigger] after[a],
            ) by {
                lemma_insert_sorted(before, p as int, x, a, b);
            }
        }
        i = i + 1;
    }
    proof {
        assert(all.subrange(0, i as int) =~= all);
        lemma_ascending(all, out.deep_view());
    }
    out
}

proof fn lemma_insert_sorted(s: Seq<Seq<char>>, p: int, x: Seq<char>, a: int, b: int)
    requires
        sorted(s),
        0 <= p <= s.len(),
        p > 0 ==> !text_lt(x, s[p - 1]),
        forall|k: int| p <= k < s.len() ==> text_lt(x, #[trigger] s[k]),
        0 <= a < b < s.insert(p, x).len(),
    ensures
        !text_lt(s.insert(p, x)[b], s.insert(p, x)[a]),
{
    let t = s.insert(p, x);
    if b < p {
        assert(!text_lt(s[b], s[a]));
    } else if b == p {
        assert(t[b] == x && t[a] == s[a]);
        if a < p - 1 {
            assert(!text_lt(s[p - 1], s[a]));
            lemma_text_total(s[a], s[p - 1]);
            lemma_text_total(x, s[a]);
            lemma_text_total(x, s[p - 1]);
            if text_lt(x, s[a]) {
                if s[a] != s[p - 1] {
                    lemma_text_trans(x, s[a], s[p - 1]);
                }
            }
        }
    } else if a == p {
        assert(t[b] == s[b - 1]);
        assert(text_lt(x, s[b - 1]));
        lemma_text_total(x, s[b - 1]);
    } else if a < p {
        assert(t[a] == s[a] && t[b] == s[b - 1]);
        if a < b - 1 {
            assert(!text_lt(s[b - 1], s[a]));
        }
    } else {
        assert(t[a] == s[a - 1] && t[b] == s[b - 1]);
        assert(!text_lt(s[b - 1], s[a - 1]));
    }
}

/// Positions that all differ and are as many as there are positions are all of them.
pub proof fn lemma_injective_is_onto(order: Seq<usize>, p: int)
    requires
        forall|i: int| 0 <= i < order.len() ==> #[trigger] order[i] < order.len(),
        forall|i: int, j: int|
            0 <= i < j < order.len() ==> #[trigger] order[i] != #[trigger] order[j],
        0 <= p < order.len(),
    ensures
        exists|i: int| 0 <= i < order.len() && #[trigger] order[i] == p,
{
    let ints = order.map_values(|u: usize| u as int);
    assert forall|i: int, j: int| 0 <= i < ints.len() && 0 <= j < ints.len() && i != j implies ints[i]
        != ints[j] by {
        if i < j {
            assert(order[i] != order[j]);
        } else {
            assert(order[j] != order[i]);
        }
    }
    ints.unique_seq_to_set();
    vstd::seq_lib::seq_to_set_is_finite(ints);
    vstd::set_lib::lemma_int_range(0, order.len() as int);
    let range = vstd::set_lib::set_int_range(0, order.len() as int);
    assert forall|x: int| ints.to_set().contains(x) implies range.contains(x) by {
        let i = choose|i: int| 0 <= i < ints.len() && ints[i] == x;
        assert(0 <= order[i] < order.len());
    }
    vstd::set_lib::lemma_subset_equality(ints.to_set(), range);
    assert(range.contains(p));
    assert(ints.to_set().contains(p));
    let i = choose|i: int| 0 <= i < ints.len() && ints[i] == p;
    assert(order[i] == p);
}

// ---------------------------------------------------------------------------
// Laws of the order of texts
// ---------------------------------------------------------------------------

/// Texts are ordered by the first character in which they differ, and a text stands before
/// every longer one that begins with it.
pub proof fn texts_go_by_their_first_difference(
    p: Seq<char>,
    c: char,
    x: Seq<char>,
    d: char,
    y: Seq<char>,
)
    ensures
        c != d ==> (text_lt(p + seq![c] + x, p + seq![d] + y) <==> (c as int) < (d as int)),
        text_lt(p, p + seq![c] + x),
        !text_lt(p + seq![c] + x, p),
        !text_lt(p, p),
    decreases p.len(),
{
    let a = p + seq![c] + x;
    let b = p + seq![d] + y;
    if p.len() > 0 {
        let q = p.subrange(1, p.len() as int);
        texts_go_by_their_first_difference(q, c, x, d, y);
        assert(a.subrange(1, a.len() as int) =~= q + seq![c] + x);
        assert(b.subrange(1, b.len() as int) =~= q + seq![d] + y);
        assert(a[0] == p[0] && b[0] == p[0]);
    } else {
        assert(a[0] == c && b[0] == d);
    }
}

/// The listing of a set holds its members and no others, in order and each once.
pub proof fn listings_hold_the_members(p: Seq<Seq<char>>, set: Set<Seq<char>>, t: Seq<char>, i: int)
    requires
        lists(p, set),
    ensures
        p.contains(t) <==> set.contains(t),
        0 <= i && i + 1 < p.len() ==> text_lt(p[i], p[i + 1]),
        p.no_duplicates(),
        listing(set) == p,
{
    lemma_listing(p, set);
    assert forall|a: int, b: int| 0 <= a < p.len() && 0 <= b < p.len() && a != b implies p[a] != p[b] by {
        if a < b {
            assert(text_lt(p[a], p[b]));
        } else {
            assert(text_lt(p[b], p[a]));
        }
        lemma_text_total(p[a], p[b]);
    }
}

} // verus!
