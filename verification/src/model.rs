//! What merging sequences means, stated on sequences of values.

use vstd::prelude::*;
use vstd::multiset::Multiset;
use vstd::seq_lib::{to_multiset_build, to_multiset_contains, to_multiset_len};

verus! {

/// `s` is non-decreasing from its first value to its last.
pub open spec fn sorted(s: Seq<i32>) -> bool {
    forall|i: int, j: int| 0 <= i <= j < s.len() ==> s[i] <= s[j]
}

/// The merge of two sequences: the lesser of the two first values goes first,
/// and of two equal first values that of `a`.
pub open spec fn merge_two(a: Seq<i32>, b: Seq<i32>) -> Seq<i32>
    decreases a.len() + b.len(),
{
    if a.len() == 0 {
        b
    } else if b.len() == 0 {
        a
    } else if a[0] <= b[0] {
        seq![a[0]] + merge_two(a.drop_first(), b)
    } else {
        seq![b[0]] + merge_two(a, b.drop_first())
    }
}

/// The merge of any number of sequences: each one in turn is merged into the
/// merge of those before it, so of equal values that of the earlier sequence
/// goes first.
pub open spec fn merge_all(lists: Seq<Seq<i32>>) -> Seq<i32>
    decreases lists.len(),
{
    if lists.len() == 0 {
        Seq::empty()
    } else {
        merge_two(merge_all(lists.drop_last()), lists.last())
    }
}

/// The number of values in all the sequences together.
pub open spec fn total_len(lists: Seq<Seq<i32>>) -> nat
    decreases lists.len(),
{
    if lists.len() == 0 {
        0
    } else {
        total_len(lists.drop_last()) + lists.last().len()
    }
}

/// The values of all the sequences together, each as often as it occurs.
pub open spec fn gathered(lists: Seq<Seq<i32>>) -> Multiset<i32>
    decreases lists.len(),
{
    if lists.len() == 0 {
        Multiset::empty()
    } else {
        gathered(lists.drop_last()).add(lists.last().to_multiset())
    }
}

/// Every sequence of the collection is non-decreasing.
pub open spec fn all_sorted(lists: Seq<Seq<i32>>) -> bool {
    forall|i: int| 0 <= i < lists.len() ==> sorted(#[trigger] lists[i])
}

/// Merging with an empty sequence changes nothing.
pub proof fn lemma_merge_two_empty(a: Seq<i32>)
    ensures
        merge_two(a, Seq::empty()) == a,
        merge_two(Seq::empty(), a) == a,
{
}

/// The first value of a merge of two non-empty sequences, and what follows it.
pub proof fn lemma_merge_two_step(a: Seq<i32>, b: Seq<i32>)
    requires
        a.len() > 0,
        b.len() > 0,
    ensures
        merge_two(a, b).len() > 0,
        a[0] <= b[0] ==> merge_two(a, b)[0] == a[0] && merge_two(a, b).drop_first() == merge_two(
            a.drop_first(),
            b,
        ),
        a[0] > b[0] ==> merge_two(a, b)[0] == b[0] && merge_two(a, b).drop_first() == merge_two(
            a,
            b.drop_first(),
        ),
{
}

/// A merge of two sequences is as long as the two together.
pub proof fn lemma_merge_two_len(a: Seq<i32>, b: Seq<i32>)
    ensures
        merge_two(a, b).len() == a.len() + b.len(),
    decreases a.len() + b.len(),
{
    if a.len() == 0 || b.len() == 0 {
    } else if a[0] <= b[0] {
        lemma_merge_two_len(a.drop_first(), b);
    } else {
        lemma_merge_two_len(a, b.drop_first());
    }
}

/// Merging three sequences gives the same whichever two are merged first.
pub proof fn lemma_merge_two_assoc(a: Seq<i32>, b: Seq<i32>, c: Seq<i32>)
    ensures
        merge_two(merge_two(a, b), c) == merge_two(a, merge_two(b, c)),
    decreases a.len() + b.len() + c.len(),
{
    let ab = merge_two(a, b);
    let bc = merge_two(b, c);
    if a.len() == 0 || b.len() == 0 {
    } else if c.len() == 0 {
        lemma_merge_two_empty(ab);
        lemma_merge_two_empty(b);
    } else {
        lemma_merge_two_step(a, b);
        lemma_merge_two_step(b, c);
        lemma_merge_two_step(ab, c);
        lemma_merge_two_step(a, bc);
        if ab[0] <= c[0] {
            if a[0] <= b[0] {
                lemma_merge_two_assoc(a.drop_first(), b, c);
            } else {
                lemma_merge_two_assoc(a, b.drop_first(), c);
            }
        } else {
            lemma_merge_two_assoc(a, b, c.drop_first());
        }
    }
}

/// The merge of one sequence alone is that sequence.
pub proof fn lemma_merge_all_single(a: Seq<i32>)
    ensures
        merge_all(seq![a]) == a,
{
    assert(merge_all(seq![a].drop_last()) =~= Seq::<i32>::empty());
    lemma_merge_two_empty(a);
}

/// A collection may be cut in two anywhere: merging the merges of the two
/// parts gives the merge of the whole.
pub proof fn lemma_merge_all_concat(xs: Seq<Seq<i32>>, ys: Seq<Seq<i32>>)
    ensures
        merge_all(xs + ys) == merge_two(merge_all(xs), merge_all(ys)),
    decreases ys.len(),
{
    if ys.len() == 0 {
        lemma_merge_two_empty(merge_all(xs));
    } else {
        assert((xs + ys).drop_last() =~= xs + ys.drop_last());
        lemma_merge_all_concat(xs, ys.drop_last());
        lemma_merge_two_assoc(merge_all(xs), merge_all(ys.drop_last()), ys.last());
    }
}

/// The sequence at `i` is not empty, and its first value goes first in the
/// merge: no other first value is less, and none before `i` is equal.
pub open spec fn is_least_head(lists: Seq<Seq<i32>>, i: int) -> bool {
    &&& 0 <= i < lists.len()
    &&& lists[i].len() > 0
    &&& forall|j: int|
        0 <= j < lists.len() && (#[trigger] lists[j]).len() > 0 ==> lists[i][0] < lists[j][0] || (
        lists[i][0] == lists[j][0] && i <= j)
}

/// The merge of empty sequences is empty, and the first value of any other
/// merge is the first value of one of the sequences.
pub proof fn lemma_merge_all_first(lists: Seq<Seq<i32>>)
    ensures
        (forall|j: int| 0 <= j < lists.len() ==> (#[trigger] lists[j]).len() == 0) ==> merge_all(
            lists,
        ).len() == 0,
        merge_all(lists).len() > 0 ==> exists|j: int|
            0 <= j < lists.len() && (#[trigger] lists[j]).len() > 0 && lists[j][0] == merge_all(
                lists,
            )[0],
    decreases lists.len(),
{
    if lists.len() > 0 {
        let front = lists.drop_last();
        let merged = merge_all(front);
        lemma_merge_all_first(front);
        if merged.len() > 0 {
            // The head that the merge of the front starts with is a head of the whole.
            let j = choose|j: int|
                0 <= j < front.len() && (#[trigger] front[j]).len() > 0 && front[j][0] == merged[0];
            assert(lists[j] == front[j]);
            if lists.last().len() > 0 {
                lemma_merge_two_step(merged, lists.last());
            }
        }
        if (forall|j: int| 0 <= j < lists.len() ==> (#[trigger] lists[j]).len() == 0) {
            assert forall|j: int| 0 <= j < front.len() implies (#[trigger] front[j]).len() == 0 by {
                assert(front[j] == lists[j]);
            }
        }
    }
}

/// The merge starts with the least head, and goes on as the merge of what is
/// left when that head is taken off its sequence.
pub proof fn lemma_merge_all_takes_least_head(lists: Seq<Seq<i32>>, i: int)
    requires
        is_least_head(lists, i),
    ensures
        merge_all(lists) == seq![lists[i][0]] + merge_all(lists.update(i, lists[i].drop_first())),
    decreases lists.len(),
{
    let n = lists.len() - 1;
    let front = lists.drop_last();
    let last = lists.last();
    let merged = merge_all(front);
    let rest = lists.update(i, lists[i].drop_first());
    if i == n {
        assert(rest.drop_last() =~= front);
        lemma_merge_all_first(front);
        if merged.len() > 0 {
            // The merge of the front starts with a head from before `i`, which
            // is greater than the head at `i`.
            let j = choose|j: int|
                0 <= j < front.len() && (#[trigger] front[j]).len() > 0 && front[j][0] == merged[0];
            assert(lists[j] == front[j]);
            lemma_merge_two_step(merged, last);
        }
    } else {
        assert(rest.drop_last() =~= front.update(i, front[i].drop_first()));
        assert(is_least_head(front, i)) by {
            assert forall|j: int|
                0 <= j < front.len() && (#[trigger] front[j]).len() > 0 implies front[i][0]
                < front[j][0] || (front[i][0] == front[j][0] && i <= j) by {
                assert(front[j] == lists[j]);
            }
        }
        lemma_merge_all_takes_least_head(front, i);
        let merged_rest = merge_all(front.update(i, front[i].drop_first()));
        assert(merged.drop_first() =~= merged_rest);
        if last.len() > 0 {
            lemma_merge_two_step(merged, last);
        } else {
            lemma_merge_two_empty(merged);
            lemma_merge_two_empty(merged_rest);
        }
    }
}

/// A merge of two sequences holds the values of both, each as often as the
/// two hold it together: none is lost and none is made.
pub proof fn lemma_merge_two_multiset(a: Seq<i32>, b: Seq<i32>)
    ensures
        merge_two(a, b).to_multiset() == a.to_multiset().add(b.to_multiset()),
    decreases a.len() + b.len(),
{
    broadcast use vstd::multiset::group_multiset_axioms;

    if a.len() == 0 {
        to_multiset_len(a);
        vstd::multiset::lemma_multiset_empty_len(a.to_multiset());
    } else if b.len() == 0 {
        to_multiset_len(b);
        vstd::multiset::lemma_multiset_empty_len(b.to_multiset());
    } else if a[0] <= b[0] {
        lemma_merge_two_multiset(a.drop_first(), b);
        lemma_cons_multiset(a[0], a.drop_first());
        lemma_cons_multiset(a[0], merge_two(a.drop_first(), b));
        assert(seq![a[0]] + a.drop_first() =~= a);
    } else {
        lemma_merge_two_multiset(a, b.drop_first());
        lemma_cons_multiset(b[0], b.drop_first());
        lemma_cons_multiset(b[0], merge_two(a, b.drop_first()));
        assert(seq![b[0]] + b.drop_first() =~= b);
    }
}

/// A value put in front of a sequence is one more value that it holds.
pub proof fn lemma_cons_multiset(v: i32, s: Seq<i32>)
    ensures
        (seq![v] + s).to_multiset() == s.to_multiset().insert(v),
{
    broadcast use vstd::multiset::group_multiset_axioms;

    vstd::seq_lib::lemma_multiset_commutative(seq![v], s);
    to_multiset_build(Seq::<i32>::empty(), v);
    to_multiset_len(Seq::<i32>::empty());
    vstd::multiset::lemma_multiset_empty_len(Seq::<i32>::empty().to_multiset());
}

/// A value occurs in a merge of two sequences exactly if it occurs in one of them.
pub proof fn lemma_merge_two_contains(a: Seq<i32>, b: Seq<i32>, v: i32)
    ensures
        merge_two(a, b).contains(v) <==> a.contains(v) || b.contains(v),
{
    broadcast use vstd::multiset::group_multiset_axioms;

    lemma_merge_two_multiset(a, b);
    to_multiset_contains(merge_two(a, b), v);
    to_multiset_contains(a, v);
    to_multiset_contains(b, v);
}

/// A merge of two sequences is non-decreasing exactly if both of them are.
pub proof fn lemma_merge_two_sorted(a: Seq<i32>, b: Seq<i32>)
    ensures
        sorted(merge_two(a, b)) <==> sorted(a) && sorted(b),
    decreases a.len() + b.len(),
{
    let m = merge_two(a, b);
    if a.len() > 0 && b.len() > 0 {
        lemma_merge_two_step(a, b);
        // What is left of the two when the first value of the merge is taken off.
        let (a1, b1) = if a[0] <= b[0] {
            (a.drop_first(), b)
        } else {
            (a, b.drop_first())
        };
        let rest = m.drop_first();
        lemma_merge_two_sorted(a1, b1);
        if sorted(a) && sorted(b) {
            // The first value is no greater than any that follows: each of
            // those is a value of `a` or of `b`.
            assert forall|i: int, j: int| 0 <= i <= j < m.len() implies m[i] <= m[j] by {
                if i == 0 && j > 0 {
                    let v = rest[j - 1];
                    lemma_merge_two_contains(a1, b1, v);
                    assert(rest.contains(v));
                    if a1.contains(v) {
                        let p = choose|p: int| 0 <= p < a1.len() && a1[p] == v;
                        assert(a[0] <= b[0] ==> a[p + 1] == v);
                    } else {
                        let p = choose|p: int| 0 <= p < b1.len() && b1[p] == v;
                        assert(a[0] > b[0] ==> b[p + 1] == v);
                    }
                } else if i > 0 {
                    assert(rest[i - 1] <= rest[j - 1]);
                }
            }
        }
        if sorted(m) {
            assert forall|i: int, j: int| 0 <= i <= j < rest.len() implies rest[i] <= rest[j] by {
                assert(m[i + 1] <= m[j + 1]);
            }
            // The sequence that gave the first value is non-decreasing from
            // its second value on, and all its values occur behind the first.
            let from = if a[0] <= b[0] {
                a
            } else {
                b
            };
            assert forall|i: int, j: int| 0 <= i <= j < from.len() implies from[i] <= from[j] by {
                if i == 0 && j > 0 {
                    lemma_merge_two_contains(a1, b1, from[j]);
                    assert(from.drop_first()[j - 1] == from[j]);
                    let k = choose|k: int| 0 <= k < rest.len() && rest[k] == from[j];
                    assert(m[0] <= m[k + 1]);
                } else if i > 0 {
                    assert(from.drop_first()[i - 1] <= from.drop_first()[j - 1]);
                }
            }
        }
    }
}

/// A merge of any number of sequences is as long as all of them together.
pub proof fn lemma_merge_all_len(lists: Seq<Seq<i32>>)
    ensures
        merge_all(lists).len() == total_len(lists),
    decreases lists.len(),
{
    if lists.len() > 0 {
        lemma_merge_all_len(lists.drop_last());
        lemma_merge_two_len(merge_all(lists.drop_last()), lists.last());
    }
}

/// A merge of any number of sequences holds the values of all of them, each as
/// often as they hold it together.
pub proof fn lemma_merge_all_multiset(lists: Seq<Seq<i32>>)
    ensures
        merge_all(lists).to_multiset() == gathered(lists),
    decreases lists.len(),
{
    if lists.len() > 0 {
        lemma_merge_all_multiset(lists.drop_last());
        lemma_merge_two_multiset(merge_all(lists.drop_last()), lists.last());
    } else {
        to_multiset_len(merge_all(lists));
        vstd::multiset::lemma_multiset_empty_len(merge_all(lists).to_multiset());
    }
}

/// A merge of any number of sequences is non-decreasing exactly if each of them is.
pub proof fn lemma_merge_all_sorted(lists: Seq<Seq<i32>>)
    ensures
        sorted(merge_all(lists)) <==> all_sorted(lists),
    decreases lists.len(),
{
    if lists.len() > 0 {
        let front = lists.drop_last();
        lemma_merge_all_sorted(front);
        lemma_merge_two_sorted(merge_all(front), lists.last());
        if all_sorted(lists) {
            assert forall|i: int| 0 <= i < front.len() implies sorted(#[trigger] front[i]) by {
                assert(front[i] == lists[i]);
            }
        }
        if all_sorted(front) && sorted(lists.last()) {
            assert forall|i: int| 0 <= i < lists.len() implies sorted(#[trigger] lists[i]) by {
                if i < front.len() {
                    assert(front[i] == lists[i]);
                }
            }
        }
    }
}

} // verus!
