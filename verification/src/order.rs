//! The order `String` sorts by: lexicographic over characters, which is the
//! order of their UTF-8 bytes. Sorted and deduplicated collections of text
//! (a `BTreeSet<String>`, a sorted `Vec<String>`) are built with it.

use vstd::prelude::*;

verus! {

/// `a` sorts strictly before `b`: at the first character where they
/// differ, `a`'s is smaller; or `a` is a proper prefix of `b`.
pub open spec fn lex_lt(a: Seq<char>, b: Seq<char>) -> bool
    decreases a.len(),
{
    if a.len() == 0 {
        b.len() > 0
    } else if b.len() == 0 {
        false
    } else if a[0] == b[0] {
        lex_lt(a.drop_first(), b.drop_first())
    } else {
        a[0] < b[0]
    }
}

/// No text sorts before itself.
pub proof fn lemma_lex_irreflexive(a: Seq<char>)
    ensures
        !lex_lt(a, a),
    decreases a.len(),
{
    if a.len() > 0 {
        lemma_lex_irreflexive(a.drop_first());
    }
}

/// Of two texts, at most one sorts before the other.
pub proof fn lemma_lex_asymmetric(a: Seq<char>, b: Seq<char>)
    ensures
        lex_lt(a, b) ==> !lex_lt(b, a),
    decreases a.len(),
{
    if a.len() > 0 && b.len() > 0 && a[0] == b[0] {
        lemma_lex_asymmetric(a.drop_first(), b.drop_first());
    }
}

/// Sorting before is transitive.
pub proof fn lemma_lex_transitive(a: Seq<char>, b: Seq<char>, c: Seq<char>)
    requires
        lex_lt(a, b),
        lex_lt(b, c),
    ensures
        lex_lt(a, c),
    decreases a.len(),
{
    if a.len() > 0 && b.len() > 0 && c.len() > 0 && a[0] == b[0] && b[0] == c[0] {
        lemma_lex_transitive(a.drop_first(), b.drop_first(), c.drop_first());
    }
}

/// Of two different texts, one sorts before the other.
pub proof fn lemma_lex_total(a: Seq<char>, b: Seq<char>)
    ensures
        a != b ==> lex_lt(a, b) || lex_lt(b, a),
    decreases a.len(),
{
    if a.len() > 0 && b.len() > 0 && a[0] == b[0] {
        lemma_lex_total(a.drop_first(), b.drop_first());
        if a != b {
            assert(a.drop_first() != b.drop_first()) by {
                if a.drop_first() == b.drop_first() {
                    assert(a.drop_first().len() == a.len() - 1);
                    assert(b.drop_first().len() == b.len() - 1);
                    assert(a.len() == b.len());
                    assert forall|k: int| 0 <= k < a.len() implies a[k] == b[k] by {
                        if k > 0 {
                            assert(a[k] == a.drop_first()[k - 1]);
                            assert(b[k] == b.drop_first()[k - 1]);
                        }
                    }
                    assert(a =~= b);
                }
            }
        }
    } else if a.len() == 0 && b.len() == 0 {
        assert(a =~= b);
    }
}

/// Whether `a` sorts strictly before `b`.
pub fn lex_lt_exec(a: &Vec<char>, b: &Vec<char>) -> (r: bool)
    ensures
        r == lex_lt(a@, b@),
{
    let mut i: usize = 0;
    assert(a@.skip(0) == a@ && b@.skip(0) == b@);
    while i < a.len() && i < b.len() && a[i] == b[i]
        invariant
            i <= a.len(),
            i <= b.len(),
            lex_lt(a@, b@) == lex_lt(a@.skip(i as int), b@.skip(i as int)),
        decreases a.len() - i,
    {
        assert(a@.skip(i as int).drop_first() == a@.skip(i + 1));
        assert(b@.skip(i as int).drop_first() == b@.skip(i + 1));
        i += 1;
    }
    if i == a.len() {
        i < b.len()
    } else if i == b.len() {
        false
    } else {
        a[i] < b[i]
    }
}

pub open spec fn texts(v: Seq<Vec<char>>) -> Seq<Seq<char>> {
    v.map_values(|t: Vec<char>| t@)
}

/// `s` is in sorted order: no element sorts before an earlier one.
pub open spec fn sorted(s: Seq<Seq<char>>) -> bool {
    forall|i: int, j: int| 0 <= i < j < s.len() ==> !lex_lt(#[trigger] s[j], #[trigger] s[i])
}

/// `s` is in strictly increasing order, hence free of repeats.
pub open spec fn strictly_sorted(s: Seq<Seq<char>>) -> bool {
    forall|i: int, j: int| 0 <= i < j < s.len() ==> lex_lt(#[trigger] s[i], #[trigger] s[j])
}

/// Inserts `x` into the sorted `v` after every element that does not sort
/// after it.
pub fn insert_sorted(v: &mut Vec<Vec<char>>, x: Vec<char>)
    requires
        sorted(texts(old(v)@)),
    ensures
        sorted(texts(final(v)@)),
        texts(final(v)@).to_multiset() == texts(old(v)@).to_multiset().insert(x@),
{
    let ghost s = texts(v@);
    assert(sorted(s));
    let mut i: usize = 0;
    while i < v.len() && !lex_lt_exec(&x, &v[i])
        invariant
            i <= v.len(),
            s == texts(v@),
            sorted(s),
            forall|p: int| 0 <= p < i ==> !lex_lt(x@, #[trigger] s[p]),
        decreases v.len() - i,
    {
        assert(s[i as int] == v@[i as int]@);
        i += 1;
    }
    if i < v.len() {
        assert(s[i as int] == v@[i as int]@);
        assert(lex_lt(x@, s[i as int]));
    }
    let ghost xv = x@;
    v.insert(i, x);
    proof {
        let t = texts(v@);
        assert(t =~= s.insert(i as int, xv));
        assert forall|p: int, q: int| 0 <= p < q < t.len() implies !lex_lt(#[trigger] t[q], #[trigger] t[p]) by {
            if p < i && q < i {
                assert(t[p] == s[p] && t[q] == s[q]);
            } else if p < i && q == i {
                assert(t[p] == s[p] && t[q] == xv);
            } else if p < i && q > i {
                assert(t[p] == s[p] && t[q] == s[q - 1]);
            } else if p == i {
                assert(t[p] == xv && t[q] == s[q - 1]);
                if q - 1 == i {
                    lemma_lex_irreflexive(s[i as int]);
                }
                assert(!lex_lt(s[q - 1], s[i as int]));
                lemma_lex_total(s[i as int], s[q - 1]);
                if s[i as int] != s[q - 1] {
                    lemma_lex_transitive(xv, s[i as int], s[q - 1]);
                }
                lemma_lex_asymmetric(xv, s[q - 1]);
            } else {
                assert(t[p] == s[p - 1] && t[q] == s[q - 1]);
            }
        }
        vstd::seq_lib::to_multiset_insert(s, i as int, xv);
    }
}

/// The texts of `v` in sorted order (`slice::sort`).
pub fn sort_texts(v: Vec<Vec<char>>) -> (r: Vec<Vec<char>>)
    ensures
        sorted(texts(r@)),
        texts(r@).to_multiset() == texts(v@).to_multiset(),
{
    let ghost s = texts(v@);
    let mut out: Vec<Vec<char>> = Vec::new();
    let mut i: usize = 0;
    assert(texts(out@) =~= s.take(0));
    while i < v.len()
        invariant
            i <= v.len(),
            s == texts(v@),
            sorted(texts(out@)),
            texts(out@).to_multiset() == s.take(i as int).to_multiset(),
        decreases v.len() - i,
    {
        insert_sorted(&mut out, v[i].clone());
        proof {
            assert(s.take(i + 1) == s.take(i as int).push(s[i as int]));
            vstd::seq_lib::to_multiset_build(s.take(i as int), s[i as int]);
        }
        i += 1;
    }
    assert(s.take(v.len() as int) == s);
    out
}

/// Adds `x` to the strictly sorted `v` unless it is there already.
pub fn insert_distinct(v: &mut Vec<Vec<char>>, x: Vec<char>)
    requires
        strictly_sorted(texts(old(v)@)),
    ensures
        strictly_sorted(texts(final(v)@)),
        forall|y: Seq<char>| #[trigger]
            texts(final(v)@).contains(y) <==> texts(old(v)@).contains(y) || y == x@,
{
    let ghost s = texts(v@);
    assert(strictly_sorted(s));
    let mut i: usize = 0;
    while i < v.len() && lex_lt_exec(&v[i], &x)
        invariant
            i <= v.len(),
            s == texts(v@),
            strictly_sorted(s),
            forall|p: int| 0 <= p < i ==> lex_lt(#[trigger] s[p], x@),
        decreases v.len() - i,
    {
        assert(s[i as int] == v@[i as int]@);
        i += 1;
    }
    if i < v.len() {
        assert(s[i as int] == v@[i as int]@);
        assert(!lex_lt(s[i as int], x@));
        if crate::text::eq(&v[i], &x) {
            return;
        }
        proof {
            lemma_lex_total(s[i as int], x@);
        }
        assert(lex_lt(x@, s[i as int]));
    }
    let ghost xv = x@;
    v.insert(i, x);
    proof {
        let t = texts(v@);
        assert(t =~= s.insert(i as int, xv));
        assert forall|p: int, q: int| 0 <= p < q < t.len() implies lex_lt(#[trigger] t[p], #[trigger] t[q]) by {
            if p < i && q < i {
                assert(t[p] == s[p] && t[q] == s[q]);
            } else if p < i && q == i {
                assert(t[p] == s[p] && t[q] == xv);
            } else if p < i && q > i {
                assert(t[p] == s[p] && t[q] == s[q - 1]);
                lemma_lex_transitive(s[p], xv, s[i as int]);
                if q - 1 > i {
                    lemma_lex_transitive(s[p], s[i as int], s[q - 1]);
                }
            } else if p == i {
                assert(t[p] == xv && t[q] == s[q - 1]);
                if q - 1 > i {
                    lemma_lex_transitive(xv, s[i as int], s[q - 1]);
                }
            } else {
                assert(t[p] == s[p - 1] && t[q] == s[q - 1]);
            }
        }
        assert forall|y: Seq<char>| #[trigger] t.contains(y) <==> s.contains(y) || y == xv by {
            if t.contains(y) {
                let k = choose|k: int| 0 <= k < t.len() && t[k] == y;
                if k < i {
                    assert(s[k] == y);
                } else if k > i {
                    assert(s[k - 1] == y);
                }
            }
            if s.contains(y) {
                let k = choose|k: int| 0 <= k < s.len() && s[k] == y;
                if k < i {
                    assert(t[k] == y);
                } else {
                    assert(t[k + 1] == y);
                }
            }
            if y == xv {
                assert(t[i as int] == y);
            }
        }
    }
}


/// Two sorted sequences holding the same texts the same number of times
/// are the same sequence: sorting has one result.
pub proof fn lemma_sorted_unique(a: Seq<Seq<char>>, b: Seq<Seq<char>>)
    requires
        sorted(a),
        sorted(b),
        a.to_multiset() == b.to_multiset(),
    ensures
        a == b,
    decreases a.len(),
{
    vstd::seq_lib::to_multiset_len(a);
    vstd::seq_lib::to_multiset_len(b);
    if a.len() == 0 {
        assert(b.len() == 0);
        assert(a =~= b);
    } else {
        assert(b.len() == a.len());
        assert(a.contains(a[0]));
        assert(b.contains(b[0]));
        vstd::seq_lib::to_multiset_contains(a, a[0]);
        vstd::seq_lib::to_multiset_contains(b, a[0]);
        vstd::seq_lib::to_multiset_contains(a, b[0]);
        vstd::seq_lib::to_multiset_contains(b, b[0]);
        assert(b.contains(a[0]));
        assert(a.contains(b[0]));
        let j = choose|j: int| 0 <= j < b.len() && b[j] == a[0];
        let k = choose|k: int| 0 <= k < a.len() && a[k] == b[0];
        if j > 0 {
            assert(!lex_lt(b[j], b[0]));
        } else {
            lemma_lex_irreflexive(a[0]);
        }
        if k > 0 {
            assert(!lex_lt(a[k], a[0]));
        } else {
            lemma_lex_irreflexive(b[0]);
        }
        lemma_lex_total(a[0], b[0]);
        assert(a[0] == b[0]);
        vstd::seq_lib::to_multiset_remove(a, 0);
        vstd::seq_lib::to_multiset_remove(b, 0);
        assert(a.remove(0) == a.drop_first());
        assert(b.remove(0) == b.drop_first());
        assert(sorted(a.drop_first())) by {
            assert forall|p: int, q: int| 0 <= p < q < a.drop_first().len() implies !lex_lt(
                #[trigger] a.drop_first()[q],
                #[trigger] a.drop_first()[p],
            ) by {
                assert(a.drop_first()[q] == a[q + 1] && a.drop_first()[p] == a[p + 1]);
            }
        }
        assert(sorted(b.drop_first())) by {
            assert forall|p: int, q: int| 0 <= p < q < b.drop_first().len() implies !lex_lt(
                #[trigger] b.drop_first()[q],
                #[trigger] b.drop_first()[p],
            ) by {
                assert(b.drop_first()[q] == b[q + 1] && b.drop_first()[p] == b[p + 1]);
            }
        }
        lemma_sorted_unique(a.drop_first(), b.drop_first());
        assert(a =~= b) by {
            assert forall|p: int| 0 <= p < a.len() implies a[p] == b[p] by {
                if p > 0 {
                    assert(a[p] == a.drop_first()[p - 1]);
                    assert(b[p] == b.drop_first()[p - 1]);
                }
            }
        }
    }
}

/// The texts of `s` in sorted order: the one sorted sequence holding them.
pub open spec fn sorted_of(s: Seq<Seq<char>>) -> Seq<Seq<char>> {
    choose|t: Seq<Seq<char>>| sorted(t) && t.to_multiset() == s.to_multiset()
}

/// A sorted sequence holding the texts of `s` is their sorted order.
pub proof fn lemma_is_sorted_of(t: Seq<Seq<char>>, s: Seq<Seq<char>>)
    requires
        sorted(t),
        t.to_multiset() == s.to_multiset(),
    ensures
        t == sorted_of(s),
{
    let u = sorted_of(s);
    assert(sorted(u) && u.to_multiset() == s.to_multiset());
    lemma_sorted_unique(t, u);
}

} // verus!
