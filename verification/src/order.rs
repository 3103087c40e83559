//! Sorting of texts, with and without duplicates.

use crate::text::{same_text, text_at_most};
use vstd::prelude::*;

verus! {

broadcast use vstd::seq_lib::group_to_multiset_ensures;

use crate::text::{
    lemma_text_le_antisymmetric,
    lemma_text_le_total,
    lemma_text_le_transitive,
    text_le,
    text_lt,
};

/// Every text is at most each text after it.
pub open spec fn ascends(s: Seq<Seq<char>>) -> bool {
    forall|i: int, j: int| 0 <= i < j < s.len() ==> text_le(#[trigger] s[i], #[trigger] s[j])
}

/// Every text is below each text after it, so none occurs twice.
pub open spec fn strictly_ascends(s: Seq<Seq<char>>) -> bool {
    forall|i: int, j: int| 0 <= i < j < s.len() ==> text_lt(#[trigger] s[i], #[trigger] s[j])
}

/// `x` put behind the texts of `s` that are at most `x`, counted from the end.
pub open spec fn insert_in_order(s: Seq<Seq<char>>, x: Seq<char>) -> Seq<Seq<char>>
    decreases s.len(),
{
    if s.len() == 0 || text_le(s.last(), x) {
        s.push(x)
    } else {
        insert_in_order(s.drop_last(), x).push(s.last())
    }
}

/// The texts of `s` in ascending order, duplicates kept.
pub open spec fn sorted(s: Seq<Seq<char>>) -> Seq<Seq<char>>
    decreases s.len(),
{
    if s.len() == 0 {
        seq![]
    } else {
        insert_in_order(sorted(s.drop_last()), s.last())
    }
}

/// `x` put in its place among the texts of `s`, unless it is there already.
pub open spec fn insert_unique(s: Seq<Seq<char>>, x: Seq<char>) -> Seq<Seq<char>>
    decreases s.len(),
{
    if s.len() == 0 {
        seq![x]
    } else if s.last() == x {
        s
    } else if text_le(s.last(), x) {
        s.push(x)
    } else {
        insert_unique(s.drop_last(), x).push(s.last())
    }
}

/// The texts of `s` in ascending order, each once.
pub open spec fn sorted_unique(s: Seq<Seq<char>>) -> Seq<Seq<char>>
    decreases s.len(),
{
    if s.len() == 0 {
        seq![]
    } else {
        insert_unique(sorted_unique(s.drop_last()), s.last())
    }
}

proof fn lemma_insert_in_order(s: Seq<Seq<char>>, x: Seq<char>)
    requires
        ascends(s),
    ensures
        ascends(insert_in_order(s, x)),
        insert_in_order(s, x).to_multiset() == s.to_multiset().insert(x),
        insert_in_order(s, x).len() == s.len() + 1,
    decreases s.len(),
{
    if s.len() == 0 || text_le(s.last(), x) {
        let r = s.push(x);
        assert forall|i: int, j: int| 0 <= i < j < r.len() implies text_le(
            #[trigger] r[i],
            #[trigger] r[j],
        ) by {
            if j == s.len() {
                if i < s.len() - 1 {
                    lemma_text_le_transitive(s[i], s.last(), x);
                }
            }
        }
    } else {
        lemma_text_le_total(s.last(), x);
        let rest = insert_in_order(s.drop_last(), x);
        lemma_insert_in_order(s.drop_last(), x);
        let r = rest.push(s.last());
        assert forall|i: int| 0 <= i < rest.len() implies text_le(#[trigger] rest[i], s.last()) by {
            assert(rest.to_multiset().contains(rest[i])) by {
                assert(rest.contains(rest[i]));
            }
            if rest[i] != x {
                assert(s.drop_last().to_multiset().contains(rest[i]));
                assert(s.drop_last().contains(rest[i]));
                let k = s.drop_last().index_of(rest[i]);
                assert(s[k] == rest[i]);
            }
        }
        assert(s =~= s.drop_last().push(s.last()));
        assert(r.to_multiset() =~= s.to_multiset().insert(x));
    }
}

/// Sorting yields the same texts, each as often, in ascending order.
pub proof fn lemma_sorted(s: Seq<Seq<char>>)
    ensures
        ascends(sorted(s)),
        sorted(s).to_multiset() == s.to_multiset(),
        sorted(s).len() == s.len(),
    decreases s.len(),
{
    if s.len() == 0 {
        assert(s =~= seq![]);
    } else {
        lemma_sorted(s.drop_last());
        lemma_insert_in_order(sorted(s.drop_last()), s.last());
        assert(s =~= s.drop_last().push(s.last()));
    }
}

proof fn lemma_insert_unique(s: Seq<Seq<char>>, x: Seq<char>)
    requires
        strictly_ascends(s),
    ensures
        strictly_ascends(insert_unique(s, x)),
        forall|t: Seq<char>|
            #[trigger] insert_unique(s, x).contains(t) <==> s.contains(t) || t == x,
    decreases s.len(),
{
    let r = insert_unique(s, x);
    if s.len() == 0 {
        assert(r[0] == x);
    } else if s.last() == x {
        assert(s[s.len() - 1] == x);
    } else if text_le(s.last(), x) {
        assert forall|i: int, j: int| 0 <= i < j < r.len() implies text_lt(
            #[trigger] r[i],
            #[trigger] r[j],
        ) by {
            if j == s.len() {
                if i < s.len() - 1 {
                    assert(text_lt(s[i], s[s.len() - 1]));
                    lemma_text_le_transitive(s[i], s.last(), x);
                    if s[i] == x {
                        lemma_text_le_antisymmetric(s[i], s.last());
                    }
                }
            }
        }
        assert forall|t: Seq<char>| r.contains(t) <==> s.contains(t) || t == x by {
            if s.contains(t) {
                let k = s.index_of(t);
                assert(r[k] == t);
            }
            assert(r[s.len() as int] == x);
        }
    } else {
        lemma_text_le_total(s.last(), x);
        let front = s.drop_last();
        let rest = insert_unique(front, x);
        lemma_insert_unique(front, x);
        assert(r == rest.push(s.last()));
        assert forall|i: int| 0 <= i < rest.len() implies text_lt(#[trigger] rest[i], s.last()) by {
            assert(rest.contains(rest[i]));
            if rest[i] != x {
                assert(front.contains(rest[i]));
                let k = front.index_of(rest[i]);
                assert(s[k] == rest[i]);
                assert(text_lt(s[k], s[s.len() - 1]));
            }
        }
        assert forall|i: int, j: int| 0 <= i < j < r.len() implies text_lt(
            #[trigger] r[i],
            #[trigger] r[j],
        ) by {
            if j < rest.len() {
                assert(text_lt(rest[i], rest[j]));
            } else {
                assert(text_lt(rest[i], s.last()));
            }
        }
        assert forall|t: Seq<char>| r.contains(t) <==> s.contains(t) || t == x by {
            assert(r[rest.len() as int] == s.last());
            if r.contains(t) {
                let k = r.index_of(t);
                if k < rest.len() {
                    assert(rest[k] == t);
                    assert(rest.contains(t));
                    if front.contains(t) {
                        let m = front.index_of(t);
                        assert(s[m] == t);
                    }
                } else {
                    assert(s[s.len() - 1] == t);
                }
            }
            if s.contains(t) {
                let m = s.index_of(t);
                if m < front.len() {
                    assert(front[m] == t);
                    assert(rest.contains(t));
                    let k = rest.index_of(t);
                    assert(r[k] == t);
                }
            }
            if t == x {
                assert(rest.contains(t));
                let k = rest.index_of(t);
                assert(r[k] == t);
            }
        }
    }
}

/// Sorting and removing duplicates yields exactly the texts that occur, in strictly ascending
/// order.
pub proof fn lemma_sorted_unique(s: Seq<Seq<char>>)
    ensures
        strictly_ascends(sorted_unique(s)),
        forall|t: Seq<char>| #[trigger] sorted_unique(s).contains(t) <==> s.contains(t),
    decreases s.len(),
{
    if s.len() > 0 {
        lemma_sorted_unique(s.drop_last());
        lemma_insert_unique(sorted_unique(s.drop_last()), s.last());
        assert forall|t: Seq<char>| sorted_unique(s).contains(t) <==> s.contains(t) by {
            let front = s.drop_last();
            if s.contains(t) {
                let k = s.index_of(t);
                if k < front.len() {
                    assert(front[k] == t);
                }
            }
            if front.contains(t) {
                let k = front.index_of(t);
                assert(s[k] == t);
            }
            assert(s[s.len() - 1] == s.last());
        }
    }
}

proof fn lemma_insert_unique_split(s: Seq<Seq<char>>, x: Seq<char>, i: int)
    requires
        0 <= i <= s.len(),
        forall|k: int| i <= k < s.len() ==> #[trigger] s[k] != x && !text_le(s[k], x),
    ensures
        insert_unique(s, x) == insert_unique(s.take(i), x) + s.skip(i),
    decreases s.len() - i,
{
    if i == s.len() {
        assert(s.take(i) =~= s);
        assert(s.skip(i) =~= seq![]);
        assert(insert_unique(s, x) + s.skip(i) =~= insert_unique(s, x));
    } else {
        lemma_insert_unique_split(s.drop_last(), x, i);
        assert(s.drop_last().take(i) =~= s.take(i));
        assert(s.drop_last().skip(i).push(s.last()) =~= s.skip(i));
        assert((insert_unique(s.take(i), x) + s.drop_last().skip(i)).push(s.last())
            =~= insert_unique(s.take(i), x) + s.skip(i));
    }
}

proof fn lemma_insert_in_order_split(s: Seq<Seq<char>>, x: Seq<char>, i: int)
    requires
        0 <= i <= s.len(),
        forall|k: int| i <= k < s.len() ==> !text_le(#[trigger] s[k], x),
    ensures
        insert_in_order(s, x) == insert_in_order(s.take(i), x) + s.skip(i),
    decreases s.len() - i,
{
    if i == s.len() {
        assert(s.take(i) =~= s);
        assert(insert_in_order(s, x) + s.skip(i) =~= insert_in_order(s, x));
    } else {
        lemma_insert_in_order_split(s.drop_last(), x, i);
        assert(s.drop_last().take(i) =~= s.take(i));
        assert((insert_in_order(s.take(i), x) + s.drop_last().skip(i)).push(s.last())
            =~= insert_in_order(s.take(i), x) + s.skip(i));
    }
}

/// Puts a text in its place in an ascending list, unless it is there already.
pub fn place_unique(list: &mut Vec<String>, x: String)
    ensures
        final(list).deep_view() == insert_unique(old(list).deep_view(), x@),
{
    let ghost before = list.deep_view();
    let mut i: usize = list.len();
    while i > 0
        invariant
            list.deep_view() == before,
            before == old(list).deep_view(),
            i <= list.len(),
            forall|k: int|
                i <= k < before.len() ==> #[trigger] before[k] != x@ && !text_le(before[k], x@),
        decreases i,
    {
        assert(before[i - 1] == list@[i - 1]@);
        if same_text(list[i - 1].as_str(), x.as_str()) {
            proof {
                lemma_insert_unique_split(before, x@, i as int);
                assert(before.take(i as int).last() == x@);
                assert(before.take(i as int) + before.skip(i as int) =~= before);
            }
            return;
        }
        if text_at_most(list[i - 1].as_str(), x.as_str()) {
            proof {
                lemma_insert_unique_split(before, x@, i as int);
                assert(before.take(i as int).last() == before[i - 1]);
            }
            let ghost item = x@;
            list.insert(i, x);
            assert(list.deep_view() =~= before.take(i as int).push(item) + before.skip(i as int));
            return;
        }
        i -= 1;
    }
    let ghost item = x@;
    proof {
        lemma_insert_unique_split(before, x@, 0);
        assert(before.take(0) =~= seq![]);
    }
    list.insert(0, x);
    assert(list.deep_view() =~= seq![item] + before.skip(0));
}

/// Puts a text in its place in an ascending list.
pub fn place(list: &mut Vec<String>, x: String)
    ensures
        final(list).deep_view() == insert_in_order(old(list).deep_view(), x@),
{
    let ghost before = list.deep_view();
    let mut i: usize = list.len();
    while i > 0
        invariant
            list.deep_view() == before,
            before == old(list).deep_view(),
            i <= list.len(),
            forall|k: int| i <= k < before.len() ==> !text_le(#[trigger] before[k], x@),
        decreases i,
    {
        assert(before[i - 1] == list@[i - 1]@);
        if text_at_most(list[i - 1].as_str(), x.as_str()) {
            proof {
                lemma_insert_in_order_split(before, x@, i as int);
                assert(before.take(i as int).last() == before[i - 1]);
            }
            let ghost item = x@;
            list.insert(i, x);
            assert(list.deep_view() =~= before.take(i as int).push(item) + before.skip(i as int));
            return;
        }
        i -= 1;
    }
    let ghost item = x@;
    proof {
        lemma_insert_in_order_split(before, x@, 0);
        assert(before.take(0) =~= seq![]);
    }
    list.insert(0, x);
    assert(list.deep_view() =~= Seq::<Seq<char>>::empty().push(item) + before.skip(0));
}

/// The texts of a list in ascending order, each once.
pub fn sort_unique(list: &Vec<String>) -> (r: Vec<String>)
    ensures
        r.deep_view() == sorted_unique(list.deep_view()),
{
    let ghost all = list.deep_view();
    let mut out: Vec<String> = Vec::new();
    let mut i: usize = 0;
    while i < list.len()
        invariant
            all == list.deep_view(),
            i <= list.len(),
            out.deep_view() == sorted_unique(all.take(i as int)),
        decreases list.len() - i,
    {
        place_unique(&mut out, list[i].clone());
        assert(all.take(i + 1).drop_last() =~= all.take(i as int));
        assert(all.take(i + 1).last() == list@[i as int]@);
        i += 1;
    }
    assert(all.take(all.len() as int) =~= all);
    out
}

/// The texts of a list in ascending order.
pub fn sort_texts(list: &Vec<String>) -> (r: Vec<String>)
    ensures
        r.deep_view() == sorted(list.deep_view()),
{
    let ghost all = list.deep_view();
    let mut out: Vec<String> = Vec::new();
    let mut i: usize = 0;
    while i < list.len()
        invariant
            all == list.deep_view(),
            i <= list.len(),
            out.deep_view() == sorted(all.take(i as int)),
        decreases list.len() - i,
    {
        place(&mut out, list[i].clone());
        assert(all.take(i + 1).drop_last() =~= all.take(i as int));
        assert(all.take(i + 1).last() == list@[i as int]@);
        i += 1;
    }
    assert(all.take(all.len() as int) =~= all);
    out
}

} // verus!
