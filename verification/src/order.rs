//! The lexicographic order of texts, and sorting by it.

use vstd::prelude::*;

verus! {

/// Character `a` has the smaller code point.
pub open spec fn char_before(a: char, b: char) -> bool {
    a < b
}

/// `a` and `b` agree on their first `k` characters, and there `a` ends while
/// `b` goes on, or `a` has the smaller character.
pub open spec fn parts_at(a: Seq<char>, b: Seq<char>, k: int) -> bool {
    &&& 0 <= k <= a.len()
    &&& k < b.len()
    &&& forall|j: int| 0 <= j < k ==> a[j] == b[j]
    &&& k < a.len() ==> char_before(a[k], b[k])
}

/// `a` comes strictly before `b` in the lexicographic order of code points.
pub open spec fn comes_before(a: Seq<char>, b: Seq<char>) -> bool {
    exists|k: int| parts_at(a, b, k)
}

/// No text comes before itself.
pub proof fn lemma_before_irreflexive(a: Seq<char>)
    ensures
        !comes_before(a, a),
{
    assert forall|k: int| !parts_at(a, a, k) by {}
}

/// The order is transitive.
pub proof fn lemma_before_transitive(a: Seq<char>, b: Seq<char>, c: Seq<char>)
    requires
        comes_before(a, b),
        comes_before(b, c),
    ensures
        comes_before(a, c),
{
    let k1 = choose|k: int| parts_at(a, b, k);
    let k2 = choose|k: int| parts_at(b, c, k);
    let k = if k1 <= k2 {
        k1
    } else {
        k2
    };
    assert(parts_at(a, c, k));
}

/// Of two texts at most one comes before the other.
pub proof fn lemma_before_asymmetric(a: Seq<char>, b: Seq<char>)
    requires
        comes_before(a, b),
    ensures
        !comes_before(b, a),
        a != b,
{
    lemma_before_irreflexive(a);
    if comes_before(b, a) {
        lemma_before_transitive(a, b, a);
    }
}

proof fn lemma_differ_from(a: Seq<char>, b: Seq<char>, k: int)
    requires
        0 <= k <= a.len(),
        k <= b.len(),
        forall|j: int| 0 <= j < k ==> a[j] == b[j],
        a != b,
    ensures
        comes_before(a, b) || comes_before(b, a),
    decreases a.len() - k,
{
    if k == a.len() {
        if k == b.len() {
            assert(a =~= b);
        } else {
            assert(parts_at(a, b, k));
        }
    } else if k == b.len() {
        assert(parts_at(b, a, k));
    } else if a[k] == b[k] {
        lemma_differ_from(a, b, k + 1);
    } else if char_before(a[k], b[k]) {
        assert(parts_at(a, b, k));
    } else {
        assert(char_before(b[k], a[k]));
        assert(parts_at(b, a, k));
    }
}

/// Of two different texts one comes before the other.
pub proof fn lemma_before_total(a: Seq<char>, b: Seq<char>)
    requires
        a != b,
    ensures
        comes_before(a, b) || comes_before(b, a),
{
    lemma_differ_from(a, b, 0);
}

/// How one text stands to another in the order.
#[derive(Debug, Clone, Copy, PartialEq, Eq, Structural)]
pub enum Relation {
    Before,
    Same,
    After,
}

/// Compares two texts character by character.
pub fn compare_text(a: &Vec<char>, b: &Vec<char>) -> (r: Relation)
    ensures
        r == Relation::Before <==> comes_before(a@, b@),
        r == Relation::Same <==> a@ == b@,
        r == Relation::After <==> comes_before(b@, a@),
{
    let mut i: usize = 0;
    while i < a.len() && i < b.len()
        invariant
            i <= a.len(),
            i <= b.len(),
            forall|j: int| 0 <= j < i ==> a@[j] == b@[j],
        decreases a.len() - i,
    {
        let ca: char = a[i];
        let cb: char = b[i];
        if ca < cb {
            proof {
                assert(parts_at(a@, b@, i as int));
                lemma_before_asymmetric(a@, b@);
            }
            return Relation::Before;
        }
        if cb < ca {
            proof {
                assert(parts_at(b@, a@, i as int));
                lemma_before_asymmetric(b@, a@);
            }
            return Relation::After;
        }
        i = i + 1;
    }
    if i < b.len() {
        proof {
            assert(parts_at(a@, b@, i as int));
            lemma_before_asymmetric(a@, b@);
        }
        Relation::Before
    } else if i < a.len() {
        proof {
            assert(parts_at(b@, a@, i as int));
            lemma_before_asymmetric(b@, a@);
        }
        Relation::After
    } else {
        proof {
            assert(a@ =~= b@);
            lemma_before_irreflexive(a@);
        }
        Relation::Same
    }
}

/// Each text comes before all that follow it.
pub open spec fn is_ascending(s: Seq<Seq<char>>) -> bool {
    forall|i: int, j: int| 0 <= i < j < s.len() ==> comes_before(#[trigger] s[i], #[trigger] s[j])
}

/// The two sequences hold the same texts.
pub open spec fn same_members(a: Seq<Seq<char>>, b: Seq<Seq<char>>) -> bool {
    forall|x: Seq<char>| a.contains(x) <==> b.contains(x)
}

/// `r` holds exactly the texts of `s`, in ascending order.
pub open spec fn arranges(r: Seq<Seq<char>>, s: Set<Seq<char>>) -> bool {
    &&& is_ascending(r)
    &&& forall|x: Seq<char>| r.contains(x) <==> s.contains(x)
}

/// The texts of a finite set in ascending order.
pub open spec fn ascending(s: Set<Seq<char>>) -> Seq<Seq<char>> {
    choose|r: Seq<Seq<char>>| arranges(r, s)
}

/// Two ascending sequences with the same texts are the same sequence.
pub proof fn lemma_ascending_unique(a: Seq<Seq<char>>, b: Seq<Seq<char>>)
    requires
        is_ascending(a),
        is_ascending(b),
        same_members(a, b),
    ensures
        a == b,
    decreases a.len(),
{
    if a.len() == 0 {
        if b.len() > 0 {
            assert(b.contains(b[0]));
            assert(a.contains(b[0]));
        }
        assert(a =~= b);
    } else {
        assert(a.contains(a[0]));
        assert(b.contains(a[0]));
        let j = choose|j: int| 0 <= j < b.len() && b[j] == a[0];
        assert(b.contains(b[0]));
        assert(a.contains(b[0]));
        let i = choose|i: int| 0 <= i < a.len() && a[i] == b[0];
        if j > 0 {
            assert(comes_before(b[0], b[j]));
            if i > 0 {
                assert(comes_before(a[0], a[i]));
            }
            lemma_before_asymmetric(b[0], a[0]);
        }
        assert(a[0] == b[0]);
        let ta = a.drop_first();
        let tb = b.drop_first();
        assert forall|x: Seq<char>| ta.contains(x) <==> tb.contains(x) by {
            if ta.contains(x) {
                let p = choose|p: int| 0 <= p < ta.len() && ta[p] == x;
                assert(a[p + 1] == x);
                assert(comes_before(a[0], a[p + 1]));
                lemma_before_asymmetric(a[0], x);
                assert(a.contains(x));
                assert(b.contains(x));
                let q = choose|q: int| 0 <= q < b.len() && b[q] == x;
                assert(tb[q - 1] == x);
            }
            if tb.contains(x) {
                let p = choose|p: int| 0 <= p < tb.len() && tb[p] == x;
                assert(b[p + 1] == x);
                assert(comes_before(b[0], b[p + 1]));
                lemma_before_asymmetric(b[0], x);
                assert(b.contains(x));
                assert(a.contains(x));
                let q = choose|q: int| 0 <= q < a.len() && a[q] == x;
                assert(ta[q - 1] == x);
            }
        }
        assert(is_ascending(ta)) by {
            assert forall|i: int, j: int| 0 <= i < j < ta.len() implies comes_before(
                #[trigger] ta[i],
                #[trigger] ta[j],
            ) by {
                assert(comes_before(a[i + 1], a[j + 1]));
            }
        }
        assert(is_ascending(tb)) by {
            assert forall|i: int, j: int| 0 <= i < j < tb.len() implies comes_before(
                #[trigger] tb[i],
                #[trigger] tb[j],
            ) by {
                assert(comes_before(b[i + 1], b[j + 1]));
            }
        }
        lemma_ascending_unique(ta, tb);
        assert(a =~= seq![a[0]] + ta);
        assert(b =~= seq![b[0]] + tb);
    }
}

/// The place of a new text in an ascending sequence: all before the place
/// come before the text, and the text comes before all from the place on.
proof fn lemma_place(r: Seq<Seq<char>>, x: Seq<char>) -> (k: int)
    requires
        is_ascending(r),
        !r.contains(x),
    ensures
        0 <= k <= r.len(),
        forall|i: int| 0 <= i < k ==> comes_before(#[trigger] r[i], x),
        forall|i: int| k <= i < r.len() ==> comes_before(x, #[trigger] r[i]),
    decreases r.len(),
{
    if r.len() == 0 {
        0
    } else {
        let last = r.len() - 1;
        assert(r.contains(r[last]));
        if comes_before(r[last], x) {
            assert forall|i: int| 0 <= i < r.len() implies comes_before(#[trigger] r[i], x) by {
                if i < last {
                    assert(comes_before(r[i], r[last]));
                    lemma_before_transitive(r[i], r[last], x);
                }
            }
            r.len() as int
        } else {
            lemma_before_total(r[last], x);
            let front = r.drop_last();
            assert forall|i: int, j: int| 0 <= i < j < front.len() implies comes_before(
                #[trigger] front[i],
                #[trigger] front[j],
            ) by {
                assert(comes_before(r[i], r[j]));
            }
            if front.contains(x) {
                let at = choose|at: int| 0 <= at < front.len() && front[at] == x;
                assert(r[at] == x);
            }
            let k = lemma_place(front, x);
            assert forall|i: int| 0 <= i < k implies comes_before(#[trigger] r[i], x) by {
                assert(front[i] == r[i]);
            }
            assert forall|i: int| k <= i < r.len() implies comes_before(x, #[trigger] r[i]) by {
                if i < last {
                    assert(front[i] == r[i]);
                }
            }
            k
        }
    }
}

/// The ascending arrangement of those texts of `s` that stand among the
/// first `n` of `cover`.
proof fn lemma_arrange_cover(s: Set<Seq<char>>, cover: Seq<Seq<char>>, n: int) -> (r: Seq<
    Seq<char>,
>)
    requires
        0 <= n <= cover.len(),
    ensures
        is_ascending(r),
        forall|x: Seq<char>| r.contains(x) <==> s.contains(x) && cover.take(n).contains(x),
    decreases n,
{
    if n == 0 {
        let r = Seq::<Seq<char>>::empty();
        assert forall|x: Seq<char>| r.contains(x) <==> s.contains(x) && cover.take(n).contains(
            x,
        ) by {
            if cover.take(n).contains(x) {
                let at = choose|at: int| 0 <= at < cover.take(n).len() && cover.take(n)[at] == x;
            }
        }
        r
    } else {
        let before = lemma_arrange_cover(s, cover, n - 1);
        let x = cover[n - 1];
        let shorter = cover.take(n - 1);
        let longer = cover.take(n);
        assert forall|y: Seq<char>| longer.contains(y) <==> shorter.contains(y) || y == x by {
            if longer.contains(y) {
                let at = choose|at: int| 0 <= at < longer.len() && longer[at] == y;
                if at < n - 1 {
                    assert(shorter[at] == y);
                }
            }
            if shorter.contains(y) {
                let at = choose|at: int| 0 <= at < shorter.len() && shorter[at] == y;
                assert(longer[at] == y);
            }
            if y == x {
                assert(longer[n - 1] == x);
            }
        }
        if s.contains(x) && !before.contains(x) {
            let k = lemma_place(before, x);
            let r = before.insert(k, x);
            assert forall|i: int, j: int| 0 <= i < j < r.len() implies comes_before(
                #[trigger] r[i],
                #[trigger] r[j],
            ) by {
                if j < k {
                    assert(comes_before(before[i], before[j]));
                } else if j == k {
                    assert(comes_before(before[i], x));
                } else if i < k {
                    assert(comes_before(before[i], before[j - 1]));
                } else if i == k {
                    assert(comes_before(x, before[j - 1]));
                } else {
                    assert(comes_before(before[i - 1], before[j - 1]));
                }
            }
            assert forall|y: Seq<char>| r.contains(y) <==> before.contains(y) || y == x by {
                if r.contains(y) {
                    let at = choose|at: int| 0 <= at < r.len() && r[at] == y;
                    if at < k {
                        assert(before[at] == y);
                    } else if at > k {
                        assert(before[at - 1] == y);
                    }
                }
                if before.contains(y) {
                    let at = choose|at: int| 0 <= at < before.len() && before[at] == y;
                    if at < k {
                        assert(r[at] == y);
                    } else {
                        assert(r[at + 1] == y);
                    }
                }
                if y == x {
                    assert(r[k] == x);
                }
            }
            r
        } else {
            before
        }
    }
}

/// Texts that all stand in one list have an ascending arrangement, and
/// `ascending` is that arrangement.
pub proof fn lemma_ascending_exists(s: Set<Seq<char>>, cover: Seq<Seq<char>>)
    requires
        forall|x: Seq<char>| s.contains(x) ==> cover.contains(x),
    ensures
        arranges(ascending(s), s),
{
    let r = lemma_arrange_cover(s, cover, cover.len() as int);
    assert(cover.take(cover.len() as int) =~= cover);
    assert(arranges(r, s));
}

/// An ascending sequence with the texts of `s` is the ascending arrangement
/// of `s`.
pub proof fn lemma_ascending_is(r: Seq<Seq<char>>, s: Set<Seq<char>>)
    requires
        arranges(r, s),
    ensures
        ascending(s) == r,
{
    let c = ascending(s);
    assert(arranges(c, s));
    lemma_ascending_unique(c, r);
}

/// The texts that `keys` gives to the positions listed in `items`.
pub open spec fn keys_of(keys: Seq<Vec<char>>, items: Seq<usize>) -> Seq<Seq<char>> {
    Seq::new(items.len(), |i: int| keys[items[i] as int]@)
}

/// Sorts positions of `keys` by the text that stands there. The texts of the
/// listed positions must differ from one another.
pub fn sort_by_key(keys: &Vec<Vec<char>>, items: &Vec<usize>) -> (r: Vec<usize>)
    requires
        forall|i: int| 0 <= i < items.len() ==> items[i] < keys.len(),
        forall|i: int, j: int|
            0 <= i < j < items.len() ==> keys[items[i] as int]@ != keys[items[j] as int]@,
    ensures
        r.len() == items.len(),
        forall|x: usize| r@.contains(x) <==> items@.contains(x),
        is_ascending(keys_of(keys@, r@)),
{
    let mut r: Vec<usize> = Vec::new();
    let mut n: usize = 0;
    while n < items.len()
        invariant
            n <= items.len(),
            r.len() == n,
            forall|i: int| 0 <= i < items.len() ==> items[i] < keys.len(),
            forall|i: int, j: int|
                0 <= i < j < items.len() ==> keys[items[i] as int]@ != keys[items[j] as int]@,
            forall|x: usize| r@.contains(x) <==> items@.subrange(0, n as int).contains(x),
            is_ascending(keys_of(keys@, r@)),
        decreases items.len() - n,
    {
        let x = items[n];
        proof {
            assert forall|i: int| 0 <= i < r.len() implies r[i] < keys.len() && keys[r[i] as int]@
                != keys[x as int]@ by {
                assert(r@.contains(r[i]));
                let sub = items@.subrange(0, n as int);
                let m = choose|m: int| 0 <= m < sub.len() && sub[m] == r[i];
                assert(items[m] == r[i]);
            }
        }
        let mut pos: usize = 0;
        let mut found = false;
        while pos < r.len() && !found
            invariant
                pos <= r.len(),
                r.len() == n,
                n < items.len(),
                x == items[n as int],
                x < keys.len(),
                forall|i: int| 0 <= i < r.len() ==> r[i] < keys.len(),
                forall|i: int| 0 <= i < r.len() ==> keys[r[i] as int]@ != keys[x as int]@,
                forall|i: int| 0 <= i < pos ==> comes_before(keys[r[i] as int]@, keys[x as int]@),
                found ==> pos < r.len() && comes_before(keys[x as int]@, keys[r[pos as int] as int]@),
            decreases r.len() - pos + (if found { 0int } else { 1int }),
        {
            match compare_text(&keys[r[pos]], &keys[x]) {
                Relation::Before => {
                    pos = pos + 1;
                },
                _ => {
                    found = true;
                },
            }
        }
        let ghost before = r@;
        r.insert(pos, x);
        proof {
            let ks = keys_of(keys@, r@);
            let kb = keys_of(keys@, before);
            assert forall|i: int, j: int| 0 <= i < j < ks.len() implies comes_before(
                #[trigger] ks[i],
                #[trigger] ks[j],
            ) by {
                if j < pos {
                    assert(comes_before(kb[i], kb[j]));
                } else if j == pos {
                } else if i < pos {
                    assert(comes_before(kb[i], kb[j - 1]));
                } else if i == pos {
                    if j - 1 > pos {
                        assert(comes_before(kb[pos as int], kb[j - 1]));
                        lemma_before_transitive(ks[i], kb[pos as int], ks[j]);
                    }
                } else {
                    assert(comes_before(kb[i - 1], kb[j - 1]));
                }
            }
            assert forall|y: usize| r@.contains(y) <==> items@.subrange(0, n + 1).contains(
                y,
            ) by {
                let sub = items@.subrange(0, n as int);
                let sub1 = items@.subrange(0, n + 1);
                if r@.contains(y) {
                    let p = choose|p: int| 0 <= p < r@.len() && r@[p] == y;
                    if p == pos {
                        assert(sub1[n as int] == y);
                    } else {
                        let q = if p < pos {
                            p
                        } else {
                            p - 1
                        };
                        assert(before[q] == y);
                        assert(before.contains(y));
                        assert(sub.contains(y));
                        let m = choose|m: int| 0 <= m < sub.len() && sub[m] == y;
                        assert(sub1[m] == y);
                    }
                }
                if sub1.contains(y) {
                    let m = choose|m: int| 0 <= m < sub1.len() && sub1[m] == y;
                    if m == n {
                        assert(r@[pos as int] == y);
                    } else {
                        assert(sub[m] == y);
                        assert(sub.contains(y));
                        assert(before.contains(y));
                        let q = choose|q: int| 0 <= q < before.len() && before[q] == y;
                        if q < pos {
                            assert(r@[q] == y);
                        } else {
                            assert(r@[q + 1] == y);
                        }
                    }
                }
            }
        }
        n = n + 1;
    }
    proof {
        assert(items@.subrange(0, n as int) == items@);
    }
    r
}

} // verus!
