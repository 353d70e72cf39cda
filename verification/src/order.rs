//! The dictionary order of texts, and sorting by it.

use crate::text;
use crate::text::chars_of;
use vstd::prelude::*;
use vstd::relations::*;
use vstd::seq_lib::*;

verus! {

/// Whether `a` comes no later than `b`: character by character, a text before
/// its extensions.
pub open spec fn no_later(a: Seq<char>, b: Seq<char>) -> bool
    decreases a.len(),
{
    if a.len() == 0 {
        true
    } else if b.len() == 0 {
        false
    } else if a[0] != b[0] {
        a[0] < b[0]
    } else {
        no_later(a.drop_first(), b.drop_first())
    }
}

/// The order as a relation.
pub open spec fn dictionary() -> spec_fn(Seq<char>, Seq<char>) -> bool {
    |a: Seq<char>, b: Seq<char>| no_later(a, b)
}

/// The texts in order.
pub open spec fn in_order(s: Seq<Seq<char>>) -> Seq<Seq<char>> {
    s.sort_by(dictionary())
}

proof fn lemma_reflexive(a: Seq<char>)
    ensures
        no_later(a, a),
    decreases a.len(),
{
    if a.len() > 0 {
        lemma_reflexive(a.drop_first());
    }
}

proof fn lemma_antisymmetric(a: Seq<char>, b: Seq<char>)
    requires
        no_later(a, b),
        no_later(b, a),
    ensures
        a == b,
    decreases a.len(),
{
    if a.len() > 0 && b.len() > 0 {
        lemma_antisymmetric(a.drop_first(), b.drop_first());
        assert(a =~= seq![a[0]] + a.drop_first());
        assert(b =~= seq![b[0]] + b.drop_first());
    } else {
        assert(a =~= b);
    }
}

proof fn lemma_transitive(a: Seq<char>, b: Seq<char>, c: Seq<char>)
    requires
        no_later(a, b),
        no_later(b, c),
    ensures
        no_later(a, c),
    decreases a.len(),
{
    if a.len() > 0 && b.len() > 0 && c.len() > 0 && a[0] == b[0] && b[0] == c[0] {
        lemma_transitive(a.drop_first(), b.drop_first(), c.drop_first());
    }
}

proof fn lemma_total(a: Seq<char>, b: Seq<char>)
    ensures
        no_later(a, b) || no_later(b, a),
    decreases a.len(),
{
    if a.len() > 0 && b.len() > 0 && a[0] == b[0] {
        lemma_total(a.drop_first(), b.drop_first());
    }
}

/// The dictionary order is total.
pub proof fn lemma_dictionary()
    ensures
        total_ordering(dictionary()),
{
    let r = dictionary();
    assert forall|x: Seq<char>| #[trigger] r(x, x) by {
        lemma_reflexive(x);
    }
    assert forall|x: Seq<char>, y: Seq<char>| #[trigger] r(x, y) && #[trigger] r(y, x) implies x == y by {
        lemma_antisymmetric(x, y);
    }
    assert forall|x: Seq<char>, y: Seq<char>, z: Seq<char>| #[trigger]
        r(x, y) && #[trigger] r(y, z) implies r(x, z) by {
        lemma_transitive(x, y, z);
    }
    assert forall|x: Seq<char>, y: Seq<char>| #[trigger] r(x, y) || #[trigger] r(y, x) by {
        lemma_total(x, y);
    }
}

/// Tells whether `a` comes no later than `b`.
pub fn comes_no_later(a: &str, b: &str) -> (r: bool)
    ensures
        r == no_later(a@, b@),
{
    let x = chars_of(a);
    let y = chars_of(b);
    let mut i: usize = 0;
    assert(x@.skip(0) =~= a@);
    assert(y@.skip(0) =~= b@);
    while i < x.len() && i < y.len()
        invariant
            i <= x@.len(),
            i <= y@.len(),
            no_later(a@, b@) == no_later(x@.skip(i as int), y@.skip(i as int)),
        decreases x@.len() - i,
    {
        if x[i] != y[i] {
            return x[i] < y[i];
        }
        assert(x@.skip(i as int).drop_first() =~= x@.skip(i + 1));
        assert(y@.skip(i as int).drop_first() =~= y@.skip(i + 1));
        i += 1;
    }
    i == x.len()
}

/// Puts a text into a sorted list at its place.
fn insert_sorted(v: &mut Vec<String>, s: String)
    requires
        sorted_by(text::views(old(v)@), dictionary()),
    ensures
        sorted_by(text::views(final(v)@), dictionary()),
        text::views(final(v)@).to_multiset() == text::views(old(v)@).to_multiset().insert(s@),
{
    proof {
        lemma_dictionary();
    }
    let ghost before = text::views(v@);
    let mut i: usize = 0;
    while i < v.len() && comes_no_later(v[i].as_str(), s.as_str())
        invariant
            i <= v@.len(),
            before == text::views(v@),
            forall|j: int| 0 <= j < i ==> no_later(#[trigger] before[j], s@),
        decreases v@.len() - i,
    {
        assert(before[i as int] == v@[i as int]@);
        i += 1;
    }
    let ghost at = i as int;
    let ghost put = s@;
    assert(at < before.len() ==> before[at] == v@[at]@);
    v.insert(i, s);
    let ghost after = text::views(v@);
    assert(after =~= before.insert(at, put));
    proof {
        to_multiset_insert(before, at, put);
        let r = dictionary();
        assert forall|j: int, k: int| 0 <= j < k < after.len() implies (#[trigger] r(
            after[j],
            after[k],
        )) by {
            let jj = if j < at {
                j
            } else {
                j - 1
            };
            let kk = if k < at {
                k
            } else {
                k - 1
            };
            if j != at && k != at {
                assert(r(before[jj], before[kk]));
            } else if k == at {
                assert(no_later(before[j], put));
            } else {
                lemma_total(put, before[at]);
                if kk > at {
                    assert(r(before[at], before[kk]));
                    lemma_transitive(put, before[at], before[kk]);
                }
            }
        }
    }
}

/// Sorts texts in dictionary order.
pub fn sort(v: &[String]) -> (r: Vec<String>)
    ensures
        text::views(r@) == in_order(text::views(v@)),
{
    let ghost all = text::views(v@);
    let mut out: Vec<String> = Vec::new();
    let mut i: usize = 0;
    assert(all.take(0) =~= Seq::empty());
    assert(text::views(out@) =~= all.take(0));
    while i < v.len()
        invariant
            i <= v@.len(),
            all == text::views(v@),
            sorted_by(text::views(out@), dictionary()),
            text::views(out@).to_multiset() == all.take(i as int).to_multiset(),
        decreases v@.len() - i,
    {
        broadcast use group_to_multiset_ensures;

        assert(all.take(i + 1) =~= all.take(i as int).push(all[i as int]));
        insert_sorted(&mut out, v[i].clone());
        i += 1;
    }
    assert(all.take(v@.len() as int) =~= all);
    proof {
        lemma_dictionary();
        all.lemma_sort_by_ensures(dictionary());
        lemma_sorted_unique(text::views(out@), in_order(all), dictionary());
    }
    out
}

proof fn lemma_to_seq_len(s: Set<Seq<char>>)
    requires
        s.finite(),
    ensures
        s.to_seq().len() == s.len(),
    decreases s.len(),
{
    if s.len() > 0 {
        let x = s.choose();
        lemma_to_seq_len(s.remove(x));
    }
}

/// Sorting a set of texts and sorting a list of them, each once, is the same.
pub proof fn lemma_set_in_order(s: Set<Seq<char>>, w: Seq<Seq<char>>)
    requires
        s.finite(),
        w.no_duplicates(),
        w.to_set() == s,
    ensures
        in_order(w) == in_order(s.to_seq()),
        w.len() == s.len(),
{
    let t = s.to_seq();
    lemma_dictionary();
    w.unique_seq_to_set();
    lemma_to_seq_len(s);
    s.lemma_to_seq_to_set_id();
    t.lemma_no_dup_set_cardinality();
    w.lemma_multiset_has_no_duplicates();
    t.lemma_multiset_has_no_duplicates();
    assert(w.to_multiset() =~= t.to_multiset()) by {
        broadcast use group_to_multiset_ensures;

        assert forall|x: Seq<char>| w.to_multiset().count(x) == t.to_multiset().count(x) by {
            assert(w.contains(x) <==> w.to_set().contains(x));
            assert(t.contains(x) <==> t.to_set().contains(x));
            assert(w.contains(x) <==> w.to_multiset().count(x) > 0);
            assert(t.contains(x) <==> t.to_multiset().count(x) > 0);
        }
    }
    w.lemma_sort_by_ensures(dictionary());
    t.lemma_sort_by_ensures(dictionary());
    lemma_sorted_unique(in_order(w), in_order(t), dictionary());
}

/// Sorting keeps every text as often as it was there and puts each before those that
/// come later.
pub proof fn law_in_order(s: Seq<Seq<char>>)
    ensures
        in_order(s).to_multiset() == s.to_multiset(),
        in_order(s).len() == s.len(),
        forall|x: Seq<char>| #[trigger] in_order(s).contains(x) <==> s.contains(x),
        forall|i: int, j: int|
            #![trigger in_order(s)[i], in_order(s)[j]]
            0 <= i < j < in_order(s).len() ==> no_later(in_order(s)[i], in_order(s)[j]),
{
    let t = in_order(s);
    let r = dictionary();
    lemma_dictionary();
    s.lemma_sort_by_ensures(r);
    s.to_multiset_ensures();
    t.to_multiset_ensures();
    assert forall|x: Seq<char>| #[trigger] t.contains(x) <==> s.contains(x) by {
        assert(t.contains(x) <==> t.to_multiset().count(x) > 0);
        assert(s.contains(x) <==> s.to_multiset().count(x) > 0);
    }
    assert forall|i: int, j: int| #![trigger t[i], t[j]] 0 <= i < j < t.len() implies no_later(t[i], t[j]) by {
        assert(r(t[i], t[j]));
    }
}

/// A set of texts in order holds each of them once.
pub proof fn law_set_in_order(s: Set<Seq<char>>)
    requires
        s.finite(),
    ensures
        in_order(s.to_seq()).no_duplicates(),
        forall|x: Seq<char>| #[trigger] in_order(s.to_seq()).contains(x) <==> s.contains(x),
{
    let t = s.to_seq();
    let u = in_order(t);
    law_in_order(t);
    lemma_to_seq_len(s);
    s.lemma_to_seq_to_set_id();
    t.lemma_no_dup_set_cardinality();
    t.lemma_multiset_has_no_duplicates();
    u.lemma_multiset_has_no_duplicates_conv();
    assert forall|x: Seq<char>| #[trigger] u.contains(x) <==> s.contains(x) by {
        assert(t.to_set().contains(x) <==> t.contains(x));
    }
}

/// A text comes before another where it is the beginning of it, or where at the first
/// place at which they differ its character is the smaller one; and only there.
pub proof fn law_dictionary_order(a: Seq<char>, b: Seq<char>)
    ensures
        no_later(a, b) <==> a.is_prefix_of(b) || exists|k: int| #[trigger] differ_first_at(a, b, k) && a[k] < b[k],
    decreases a.len(),
{
    if a.len() == 0 {
        assert(a =~= b.subrange(0, 0));
    } else if b.len() > 0 {
        let x = a.drop_first();
        let y = b.drop_first();
        if a[0] != b[0] {
            assert(differ_first_at(a, b, 0));
            if a.is_prefix_of(b) {
                assert(b.subrange(0, a.len() as int)[0] == b[0]);
            }
            assert forall|k: int| #[trigger] differ_first_at(a, b, k) implies k == 0 by {
                if k > 0 {
                    assert(a[0] == b[0]);
                }
            }
        } else {
            law_dictionary_order(x, y);
            if x.is_prefix_of(y) {
                assert(a =~= b.subrange(0, a.len() as int)) by {
                    assert forall|i: int| 0 <= i < a.len() implies a[i] == b[i] by {
                        if i > 0 {
                            assert(x[i - 1] == y.subrange(0, x.len() as int)[i - 1]);
                        }
                    }
                }
            }
            if a.is_prefix_of(b) {
                assert(x =~= y.subrange(0, x.len() as int)) by {
                    assert forall|i: int| 0 <= i < x.len() implies x[i] == y[i] by {
                        assert(a[i + 1] == b.subrange(0, a.len() as int)[i + 1]);
                    }
                }
            }
            if exists|k: int| #[trigger] differ_first_at(x, y, k) && x[k] < y[k] {
                let k = choose|k: int| #[trigger] differ_first_at(x, y, k) && x[k] < y[k];
                assert forall|i: int| 0 <= i < k + 1 implies #[trigger] a[i] == b[i] by {
                    if i > 0 {
                        assert(x[i - 1] == y[i - 1]);
                    }
                }
                assert(differ_first_at(a, b, k + 1));
            }
            if exists|k: int| #[trigger] differ_first_at(a, b, k) && a[k] < b[k] {
                let k = choose|k: int| #[trigger] differ_first_at(a, b, k) && a[k] < b[k];
                assert(k > 0);
                assert forall|i: int| 0 <= i < k - 1 implies #[trigger] x[i] == y[i] by {
                    assert(a[i + 1] == b[i + 1]);
                }
                assert(differ_first_at(x, y, k - 1));
            }
        }
    }
}

/// Whether two texts differ at a place and at none before it.
pub open spec fn differ_first_at(a: Seq<char>, b: Seq<char>, k: int) -> bool {
    0 <= k < a.len() && k < b.len() && a[k] != b[k] && forall|i: int| 0 <= i < k ==> #[trigger] a[i] == b[i]
}

} // verus!
