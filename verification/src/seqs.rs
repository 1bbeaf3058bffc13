//! Facts about sequences used by the layout and window bookkeeping.

use vstd::prelude::*;

verus! {

/// The sequence with the first occurrence of `x` taken out (unchanged when
/// `x` does not occur).
pub open spec fn remove_first<A>(s: Seq<A>, x: A) -> Seq<A>
    decreases s.len(),
{
    if s.len() == 0 {
        s
    } else if s[0] == x {
        s.drop_first()
    } else {
        seq![s[0]] + remove_first(s.drop_first(), x)
    }
}

pub proof fn lemma_remove_first_absent<A>(s: Seq<A>, x: A)
    ensures
        !s.contains(x) ==> remove_first(s, x) == s,
        s.contains(x) ==> remove_first(s, x).len() + 1 == s.len(),
    decreases s.len(),
{
    if s.len() > 0 {
        lemma_remove_first_absent(s.drop_first(), x);
        if !s.contains(x) {
            assert(!s.drop_first().contains(x)) by {
                if s.drop_first().contains(x) {
                    let j = s.drop_first().index_of(x);
                    assert(s[j + 1] == x);
                }
            }
            assert(s[0] != x) by {
                if s[0] == x {
                    assert(s.contains(x));
                }
            }
            assert(seq![s[0]] + s.drop_first() =~= s);
        } else if s[0] != x {
            let j = s.index_of(x);
            assert(s.drop_first()[j - 1] == x);
        }
    }
}

pub proof fn lemma_remove_first_concat<A>(a: Seq<A>, b: Seq<A>, x: A)
    ensures
        remove_first(a + b, x) == (if a.contains(x) {
            remove_first(a, x) + b
        } else {
            a + remove_first(b, x)
        }),
    decreases a.len(),
{
    if a.len() == 0 {
        assert(a + b =~= b);
    } else {
        lemma_remove_first_concat(a.drop_first(), b, x);
        assert((a + b).drop_first() =~= a.drop_first() + b);
        assert((a + b)[0] == a[0]);
        if a[0] == x {
            assert(a.contains(x));
        } else {
            assert(a.contains(x) <==> a.drop_first().contains(x)) by {
                if a.contains(x) {
                    let j = a.index_of(x);
                    assert(a.drop_first()[j - 1] == x);
                }
                if a.drop_first().contains(x) {
                    let j = a.drop_first().index_of(x);
                    assert(a[j + 1] == x);
                }
            }
            if a.contains(x) {
                assert(seq![a[0]] + (remove_first(a.drop_first(), x) + b) =~= (seq![a[0]]
                    + remove_first(a.drop_first(), x)) + b);
            } else {
                assert(seq![a[0]] + (a.drop_first() + remove_first(b, x)) =~= a + remove_first(
                    b,
                    x,
                ));
            }
        }
    }
}

/// The position of the last occurrence of `x`, or -1 when `x` does not occur.
pub open spec fn last_index<A>(s: Seq<A>, x: A) -> int
    decreases s.len(),
{
    if s.len() == 0 {
        -1
    } else if s.last() == x {
        s.len() - 1
    } else {
        last_index(s.drop_last(), x)
    }
}

pub proof fn lemma_last_index<A>(s: Seq<A>, x: A)
    ensures
        -1 <= last_index(s, x) < s.len(),
        last_index(s, x) >= 0 <==> s.contains(x),
        last_index(s, x) >= 0 ==> s[last_index(s, x)] == x,
        forall|j: int| last_index(s, x) < j < s.len() ==> s[j] != x,
    decreases s.len(),
{
    if s.len() > 0 {
        lemma_last_index(s.drop_last(), x);
        if s.last() != x {
            assert(s.contains(x) <==> s.drop_last().contains(x)) by {
                if s.contains(x) {
                    let j = s.index_of(x);
                    assert(j != s.len() - 1);
                    assert(s.drop_last()[j] == x);
                }
                if s.drop_last().contains(x) {
                    let j = s.drop_last().index_of(x);
                    assert(s[j] == x);
                }
            }
            assert forall|j: int| last_index(s, x) < j < s.len() implies s[j] != x by {
                if j < s.len() - 1 {
                    assert(s[j] == s.drop_last()[j]);
                }
            }
        } else {
            assert(s[s.len() - 1] == x);
        }
    }
}


pub proof fn lemma_remove_first_contains<A>(s: Seq<A>, x: A, y: A)
    ensures
        remove_first(s, x).contains(y) ==> s.contains(y),
        s.contains(y) && y != x ==> remove_first(s, x).contains(y),
        s.no_duplicates() ==> remove_first(s, x).no_duplicates(),
        s.no_duplicates() ==> !remove_first(s, x).contains(x),
    decreases s.len(),
{
    if s.len() > 0 {
        let t = s.drop_first();
        lemma_remove_first_contains(t, x, y);
        lemma_contains_drop_first(s, y);
        lemma_contains_drop_first(s, x);
        if s[0] != x {
            let r = seq![s[0]] + remove_first(t, x);
            lemma_contains_cons(s[0], remove_first(t, x), y);
            lemma_contains_cons(s[0], remove_first(t, x), x);
            if s.no_duplicates() {
                assert(t.no_duplicates()) by {
                    assert forall|i: int, j: int|
                        0 <= i < t.len() && 0 <= j < t.len() && i != j implies t[i] != t[j] by {
                        assert(t[i] == s[i + 1] && t[j] == s[j + 1]);
                    }
                }
                assert(!t.contains(s[0])) by {
                    if t.contains(s[0]) {
                        let k = t.index_of(s[0]);
                        assert(s[k + 1] == s[0]);
                    }
                }
                lemma_remove_first_contains(t, x, s[0]);
                assert(r.no_duplicates()) by {
                    assert forall|i: int, j: int|
                        0 <= i < r.len() && 0 <= j < r.len() && i != j implies r[i] != r[j] by {
                        if i > 0 && j > 0 {
                            assert(r[i] == remove_first(t, x)[i - 1]);
                            assert(r[j] == remove_first(t, x)[j - 1]);
                        } else if i == 0 {
                            assert(r[j] == remove_first(t, x)[j - 1]);
                            assert(remove_first(t, x).contains(r[j]));
                        } else {
                            assert(r[i] == remove_first(t, x)[i - 1]);
                            assert(remove_first(t, x).contains(r[i]));
                        }
                    }
                }
            }
        } else {
            if s.no_duplicates() {
                assert(!t.contains(x)) by {
                    if t.contains(x) {
                        let k = t.index_of(x);
                        assert(s[k + 1] == s[0]);
                    }
                }
                assert(t.no_duplicates()) by {
                    assert forall|i: int, j: int|
                        0 <= i < t.len() && 0 <= j < t.len() && i != j implies t[i] != t[j] by {
                        assert(t[i] == s[i + 1] && t[j] == s[j + 1]);
                    }
                }
            }
        }
    }
}

/// `s` contains `y` exactly when its first element is `y` or the rest contains it.
pub proof fn lemma_contains_drop_first<A>(s: Seq<A>, y: A)
    requires
        s.len() > 0,
    ensures
        s.contains(y) <==> (s[0] == y || s.drop_first().contains(y)),
{
    if s.contains(y) && s[0] != y {
        let k = s.index_of(y);
        assert(s.drop_first()[k - 1] == y);
    }
    if s.drop_first().contains(y) {
        let k = s.drop_first().index_of(y);
        assert(s[k + 1] == y);
    }
    if s[0] == y {
        assert(s.contains(y));
    }
}

pub proof fn lemma_contains_cons<A>(a: A, t: Seq<A>, y: A)
    ensures
        (seq![a] + t).contains(y) <==> (a == y || t.contains(y)),
{
    let r = seq![a] + t;
    assert(r.drop_first() =~= t);
    lemma_contains_drop_first(r, y);
}

/// A sequence with one more element.
pub proof fn lemma_insert_contains<A>(s: Seq<A>, i: int, x: A, y: A)
    requires
        0 <= i <= s.len(),
    ensures
        s.insert(i, x).contains(y) <==> (s.contains(y) || y == x),
        s.no_duplicates() && !s.contains(x) ==> s.insert(i, x).no_duplicates(),
{
    let r = s.insert(i, x);
    if s.contains(y) {
        let k = s.index_of(y);
        if k < i {
            assert(r[k] == y);
        } else {
            assert(r[k + 1] == y);
        }
    }
    assert(r[i] == x);
    if r.contains(y) {
        let k = r.index_of(y);
        if k < i {
            assert(s[k] == y);
        } else if k > i {
            assert(s[k - 1] == y);
        }
    }
    if s.no_duplicates() && !s.contains(x) {
        assert forall|a: int, b: int|
            0 <= a < r.len() && 0 <= b < r.len() && a != b implies r[a] != r[b] by {
            if a != i && b != i {
                let sa = if a < i { a } else { a - 1 };
                let sb = if b < i { b } else { b - 1 };
                assert(r[a] == s[sa] && r[b] == s[sb]);
            } else if a == i {
                let sb = if b < i { b } else { b - 1 };
                assert(r[b] == s[sb]);
                assert(s.contains(s[sb]));
            } else {
                let sa = if a < i { a } else { a - 1 };
                assert(r[a] == s[sa]);
                assert(s.contains(s[sa]));
            }
        }
    }
}

/// The sequence with every occurrence of `x` taken out.
pub open spec fn drop_all<A>(s: Seq<A>, x: A) -> Seq<A>
    decreases s.len(),
{
    if s.len() == 0 {
        s
    } else if s.last() == x {
        drop_all(s.drop_last(), x)
    } else {
        drop_all(s.drop_last(), x).push(s.last())
    }
}

pub proof fn lemma_drop_all<A>(s: Seq<A>, x: A, y: A)
    ensures
        drop_all(s, x).contains(y) <==> (s.contains(y) && y != x),
        s.no_duplicates() ==> drop_all(s, x).no_duplicates(),
        !s.contains(x) ==> drop_all(s, x) == s,
    decreases s.len(),
{
    if s.len() > 0 {
        let t = s.drop_last();
        lemma_drop_all(t, x, y);
        lemma_drop_all(t, x, s.last());
        assert(s =~= t.push(s.last()));
        lemma_contains_push(t, s.last(), y);
        lemma_contains_push(t, s.last(), x);
        if s.last() != x {
            lemma_contains_push(drop_all(t, x), s.last(), y);
            if s.no_duplicates() {
                assert(t.no_duplicates()) by {
                    assert forall|i: int, j: int|
                        0 <= i < t.len() && 0 <= j < t.len() && i != j implies t[i] != t[j] by {
                        assert(t[i] == s[i] && t[j] == s[j]);
                    }
                }
                assert(!t.contains(s.last())) by {
                    if t.contains(s.last()) {
                        let k = t.index_of(s.last());
                        assert(s[k] == s[s.len() - 1]);
                    }
                }
                let d = drop_all(t, x);
                let r = d.push(s.last());
                assert forall|i: int, j: int|
                    0 <= i < r.len() && 0 <= j < r.len() && i != j implies r[i] != r[j] by {
                    if i < d.len() && j < d.len() {
                        assert(r[i] == d[i] && r[j] == d[j]);
                    } else if i == d.len() {
                        assert(r[j] == d[j]);
                        assert(d.contains(d[j]));
                    } else {
                        assert(r[i] == d[i]);
                        assert(d.contains(d[i]));
                    }
                }
            }
        } else {
            if s.no_duplicates() {
                assert(t.no_duplicates()) by {
                    assert forall|i: int, j: int|
                        0 <= i < t.len() && 0 <= j < t.len() && i != j implies t[i] != t[j] by {
                        assert(t[i] == s[i] && t[j] == s[j]);
                    }
                }
            }
        }
    }
}

pub proof fn lemma_contains_push<A>(t: Seq<A>, a: A, y: A)
    ensures
        t.push(a).contains(y) <==> (t.contains(y) || a == y),
{
    let r = t.push(a);
    if t.contains(y) {
        let k = t.index_of(y);
        assert(r[k] == y);
    }
    if r.contains(y) {
        let k = r.index_of(y);
        if k < t.len() {
            assert(t[k] == y);
        }
    }
    assert(r[t.len() as int] == a);
}

/// Exchanging two positions keeps the elements and their distinctness.
pub proof fn lemma_swap_positions<A>(s: Seq<A>, i: int, j: int, y: A)
    requires
        0 <= i < s.len(),
        0 <= j < s.len(),
    ensures
        s.update(i, s[j]).update(j, s[i]).contains(y) <==> s.contains(y),
        s.no_duplicates() ==> s.update(i, s[j]).update(j, s[i]).no_duplicates(),
{
    let r = s.update(i, s[j]).update(j, s[i]);
    let p = |k: int| if k == i { j } else if k == j { i } else { k };
    assert forall|k: int| 0 <= k < s.len() implies r[k] == s[p(k)] by {}
    if s.contains(y) {
        let k = s.index_of(y);
        assert(r[p(k)] == s[k]);
    }
    if r.contains(y) {
        let k = r.index_of(y);
        assert(s[p(k)] == y);
    }
    if s.no_duplicates() {
        assert forall|a: int, b: int|
            0 <= a < r.len() && 0 <= b < r.len() && a != b implies r[a] != r[b] by {
            assert(r[a] == s[p(a)] && r[b] == s[p(b)]);
        }
    }
}

} // verus!
