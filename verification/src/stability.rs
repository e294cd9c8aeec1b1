//! Which node stands where in a merge.
//!
//! Two nodes of equal value cannot be told apart by their values. Here every
//! node carries, beside its value, the index of the sequence it comes from and
//! its place in that sequence, and the merge is followed node by node.

use vstd::prelude::*;
use crate::model::{all_sorted, lemma_merge_all_single, merge_all, merge_two, sorted, total_len};

verus! {

/// A node with its origin: the sequence it comes from and its place there,
/// both counted from 0.
pub struct Tagged {
    pub val: i32,
    pub source: int,
    pub place: int,
}

/// The node at `place` of the sequence `source` of `lists`.
pub open spec fn node_of(lists: Seq<Seq<i32>>, source: int, place: int) -> Tagged {
    Tagged { val: lists[source][place], source, place }
}

/// The nodes of `s`, each with its origin, when `s` is the sequence `source`.
pub open spec fn tag(s: Seq<i32>, source: int) -> Seq<Tagged> {
    Seq::new(s.len(), |place: int| Tagged { val: s[place], source, place })
}

/// The nodes of each sequence of a collection, each with its origin.
pub open spec fn tag_all(lists: Seq<Seq<i32>>) -> Seq<Seq<Tagged>> {
    Seq::new(lists.len(), |source: int| tag(lists[source], source))
}

/// The values of a sequence of nodes.
pub open spec fn untag(nodes: Seq<Tagged>) -> Seq<i32> {
    Seq::new(nodes.len(), |i: int| nodes[i].val)
}

/// The merge of two sequences of nodes. It looks at the values alone, as the
/// merge of values does: of two equal values that of `a` goes first.
pub open spec fn merge_two_tagged(a: Seq<Tagged>, b: Seq<Tagged>) -> Seq<Tagged>
    decreases a.len() + b.len(),
{
    if a.len() == 0 {
        b
    } else if b.len() == 0 {
        a
    } else if a[0].val <= b[0].val {
        seq![a[0]] + merge_two_tagged(a.drop_first(), b)
    } else {
        seq![b[0]] + merge_two_tagged(a, b.drop_first())
    }
}

/// The merge of any number of sequences of nodes, each one in turn merged
/// into the merge of those before it.
pub open spec fn merge_all_tagged(lists: Seq<Seq<Tagged>>) -> Seq<Tagged>
    decreases lists.len(),
{
    if lists.len() == 0 {
        Seq::empty()
    } else {
        merge_two_tagged(merge_all_tagged(lists.drop_last()), lists.last())
    }
}

/// `x` has its place before `y` in a stable merge: it has the lesser value; or
/// the same value and comes from an earlier sequence; or the same value and
/// comes from the same sequence, where it stood before `y`.
pub open spec fn goes_before(x: Tagged, y: Tagged) -> bool {
    x.val < y.val || (x.val == y.val && (x.source < y.source || (x.source == y.source && x.place
        < y.place)))
}

/// Each node of the sequence goes before all that follow it.
pub open spec fn in_stable_order(nodes: Seq<Tagged>) -> bool {
    forall|i: int, j: int| 0 <= i < j < nodes.len() ==> goes_before(nodes[i], nodes[j])
}

/// The merge of a collection, followed node by node: each node carries the
/// index of its sequence and its place there.
pub open spec fn followed_merge(lists: Seq<Seq<i32>>) -> Seq<Tagged> {
    merge_all_tagged(tag_all(lists))
}

/// The merge of `a` and `b`, followed node by node: the nodes of `a` carry the
/// index 0 and those of `b` the index 1.
pub open spec fn followed_merge_two(a: Seq<i32>, b: Seq<i32>) -> Seq<Tagged> {
    merge_two_tagged(tag(a, 0), tag(b, 1))
}

/// The values do not decrease from one node to the next.
pub open spec fn non_decreasing(nodes: Seq<Tagged>) -> bool {
    forall|i: int, j: int| 0 <= i < j < nodes.len() ==> nodes[i].val <= nodes[j].val
}

/// Of two nodes of equal value, that from the earlier sequence stands first.
pub open spec fn equal_values_by_source(nodes: Seq<Tagged>) -> bool {
    forall|i: int, j: int|
        0 <= i < j < nodes.len() && nodes[i].val == nodes[j].val ==> nodes[i].source
            <= nodes[j].source
}

/// Of two nodes from one sequence, the one that stood first there stands first.
pub open spec fn keeps_order_of_each_source(nodes: Seq<Tagged>) -> bool {
    forall|i: int, j: int|
        0 <= i < j < nodes.len() && nodes[i].source == nodes[j].source ==> nodes[i].place
            < nodes[j].place
}

/// No node stands at two places.
pub open spec fn no_node_twice(nodes: Seq<Tagged>) -> bool {
    forall|i: int, j: int| 0 <= i < j < nodes.len() ==> nodes[i] != nodes[j]
}

/// Every node of the collection has a place in `nodes`, and every place of
/// `nodes` holds a node of the collection.
pub open spec fn holds_the_nodes_of(nodes: Seq<Tagged>, lists: Seq<Seq<i32>>) -> bool {
    &&& forall|source: int, place: int|
        0 <= source < lists.len() && 0 <= place < lists[source].len() ==> nodes.contains(
            #[trigger] node_of(lists, source, place),
        )
    &&& forall|k: int|
        0 <= k < nodes.len() ==> {
            let x = #[trigger] nodes[k];
            &&& 0 <= x.source < lists.len()
            &&& 0 <= x.place < lists[x.source].len()
            &&& x == node_of(lists, x.source, x.place)
        }
}

/// A node occurs in a merge of two sequences exactly if it occurs in one of them.
pub proof fn lemma_merge_two_tagged_contains(a: Seq<Tagged>, b: Seq<Tagged>, x: Tagged)
    ensures
        merge_two_tagged(a, b).contains(x) <==> a.contains(x) || b.contains(x),
    decreases a.len() + b.len(),
{
    let m = merge_two_tagged(a, b);
    if a.len() == 0 || b.len() == 0 {
    } else {
        let (a1, b1, h) = if a[0].val <= b[0].val {
            (a.drop_first(), b, a[0])
        } else {
            (a, b.drop_first(), b[0])
        };
        let rest = merge_two_tagged(a1, b1);
        lemma_merge_two_tagged_contains(a1, b1, x);
        assert(m =~= seq![h] + rest);
        if m.contains(x) {
            let k = choose|k: int| 0 <= k < m.len() && m[k] == x;
            if k > 0 {
                assert(rest[k - 1] == x);
                assert(rest.contains(x));
                if a1.contains(x) {
                    let i = choose|i: int| 0 <= i < a1.len() && a1[i] == x;
                    assert(a[0].val <= b[0].val ==> a[i + 1] == x);
                }
                if b1.contains(x) {
                    let i = choose|i: int| 0 <= i < b1.len() && b1[i] == x;
                    assert(a[0].val > b[0].val ==> b[i + 1] == x);
                }
            }
        }
        if a.contains(x) || b.contains(x) {
            if x == h {
                assert(m[0] == x);
            } else {
                if a.contains(x) {
                    let i = choose|i: int| 0 <= i < a.len() && a[i] == x;
                    if a[0].val <= b[0].val {
                        assert(a1[i - 1] == x);
                    }
                    assert(a1.contains(x));
                } else {
                    let i = choose|i: int| 0 <= i < b.len() && b[i] == x;
                    if a[0].val > b[0].val {
                        assert(b1[i - 1] == x);
                    }
                    assert(b1.contains(x));
                }
                let k = choose|k: int| 0 <= k < rest.len() && rest[k] == x;
                assert(m[k + 1] == x);
            }
        }
    }
}

/// The values of a merge of nodes are the merge of the nodes' values, and
/// there are as many of them as nodes in the two sequences.
pub proof fn lemma_merge_two_tagged_values(a: Seq<Tagged>, b: Seq<Tagged>)
    ensures
        untag(merge_two_tagged(a, b)) == merge_two(untag(a), untag(b)),
        merge_two_tagged(a, b).len() == a.len() + b.len(),
    decreases a.len() + b.len(),
{
    if a.len() == 0 || b.len() == 0 {
    } else if a[0].val <= b[0].val {
        lemma_merge_two_tagged_values(a.drop_first(), b);
        assert(untag(a.drop_first()) =~= untag(a).drop_first());
    } else {
        lemma_merge_two_tagged_values(a, b.drop_first());
        assert(untag(b.drop_first()) =~= untag(b).drop_first());
    }
}

/// Two sequences in stable order, the nodes of the first from earlier
/// sequences than those of the second, merge into a sequence in stable order.
pub proof fn lemma_merge_two_tagged_stable(a: Seq<Tagged>, b: Seq<Tagged>)
    requires
        in_stable_order(a),
        in_stable_order(b),
        forall|i: int, j: int| 0 <= i < a.len() && 0 <= j < b.len() ==> a[i].source < b[j].source,
    ensures
        in_stable_order(merge_two_tagged(a, b)),
    decreases a.len() + b.len(),
{
    let m = merge_two_tagged(a, b);
    if a.len() == 0 || b.len() == 0 {
    } else {
        let (a1, b1, h) = if a[0].val <= b[0].val {
            (a.drop_first(), b, a[0])
        } else {
            (a, b.drop_first(), b[0])
        };
        let rest = merge_two_tagged(a1, b1);
        assert(m =~= seq![h] + rest);
        lemma_merge_two_tagged_stable(a1, b1);
        assert forall|i: int, j: int| 0 <= i < j < m.len() implies goes_before(m[i], m[j]) by {
            if i == 0 {
                let x = rest[j - 1];
                assert(rest.contains(x));
                lemma_merge_two_tagged_contains(a1, b1, x);
                if a1.contains(x) {
                    let p = choose|p: int| 0 <= p < a1.len() && a1[p] == x;
                    if a[0].val <= b[0].val {
                        assert(a[p + 1] == x);
                    } else {
                        assert(p == 0 || goes_before(a[0], a[p]));
                    }
                } else {
                    let p = choose|p: int| 0 <= p < b1.len() && b1[p] == x;
                    if a[0].val <= b[0].val {
                        assert(p == 0 || goes_before(b[0], b[p]));
                    } else {
                        assert(b[p + 1] == x);
                    }
                }
            } else {
                assert(goes_before(rest[i - 1], rest[j - 1]));
            }
        }
    }
}

/// Two sequences of nodes that each keep the order of their sources, and that
/// share no source, merge into a sequence that keeps it.
pub proof fn lemma_merge_two_tagged_keeps_order(a: Seq<Tagged>, b: Seq<Tagged>)
    requires
        keeps_order_of_each_source(a),
        keeps_order_of_each_source(b),
        forall|i: int, j: int| 0 <= i < a.len() && 0 <= j < b.len() ==> a[i].source != b[j].source,
    ensures
        keeps_order_of_each_source(merge_two_tagged(a, b)),
    decreases a.len() + b.len(),
{
    let m = merge_two_tagged(a, b);
    if a.len() == 0 || b.len() == 0 {
    } else {
        let (a1, b1, h) = if a[0].val <= b[0].val {
            (a.drop_first(), b, a[0])
        } else {
            (a, b.drop_first(), b[0])
        };
        let rest = merge_two_tagged(a1, b1);
        assert(m =~= seq![h] + rest);
        lemma_merge_two_tagged_keeps_order(a1, b1);
        assert forall|i: int, j: int|
            0 <= i < j < m.len() && m[i].source == m[j].source implies m[i].place
            < m[j].place by {
            if i == 0 {
                let x = rest[j - 1];
                assert(rest.contains(x));
                lemma_merge_two_tagged_contains(a1, b1, x);
                if a1.contains(x) {
                    let p = choose|p: int| 0 <= p < a1.len() && a1[p] == x;
                    if a[0].val <= b[0].val {
                        assert(a[p + 1] == x);
                    }
                } else {
                    let p = choose|p: int| 0 <= p < b1.len() && b1[p] == x;
                    if a[0].val > b[0].val {
                        assert(b[p + 1] == x);
                    }
                }
            } else {
                assert(rest[i - 1].source == rest[j - 1].source);
            }
        }
    }
}

/// In the merge of a collection, followed node by node: the values are those
/// of the merge of values; each node of the collection has a place; and there
/// are no more places than nodes.
pub proof fn lemma_merge_keeps_every_node(lists: Seq<Seq<i32>>)
    ensures
        untag(followed_merge(lists)) == merge_all(lists),
        followed_merge(lists).len() == total_len(lists),
        holds_the_nodes_of(followed_merge(lists), lists),
    decreases lists.len(),
{
    let m = followed_merge(lists);
    if lists.len() == 0 {
        assert(untag(m) =~= merge_all(lists));
    } else {
        let n = lists.len() - 1;
        let front = lists.drop_last();
        let last = tag(lists.last(), n);
        assert(tag_all(lists).drop_last() =~= tag_all(front));
        assert(tag_all(lists).last() == last);
        let mf = followed_merge(front);
        lemma_merge_keeps_every_node(front);
        lemma_merge_two_tagged_values(mf, last);
        assert(untag(last) =~= lists.last());
        assert forall|source: int, place: int|
            0 <= source < lists.len() && 0 <= place < lists[source].len() implies m.contains(
            #[trigger] node_of(lists, source, place),
        ) by {
            let x = node_of(lists, source, place);
            lemma_merge_two_tagged_contains(mf, last, x);
            if source < n {
                assert(node_of(front, source, place) == x);
            } else {
                assert(last[place] == x);
            }
        }
        assert forall|k: int| 0 <= k < m.len() implies {
            let x = #[trigger] m[k];
            &&& 0 <= x.source < lists.len()
            &&& 0 <= x.place < lists[x.source].len()
            &&& x == node_of(lists, x.source, x.place)
        } by {
            let x = m[k];
            assert(m.contains(x));
            lemma_merge_two_tagged_contains(mf, last, x);
            if mf.contains(x) {
                let i = choose|i: int| 0 <= i < mf.len() && mf[i] == x;
                assert(x == node_of(front, x.source, x.place));
            } else {
                let i = choose|i: int| 0 <= i < last.len() && last[i] == x;
                assert(x == node_of(lists, n, i));
            }
        }
    }
}

/// Whatever the sequences hold, sorted or not, two nodes of one sequence keep
/// their order in the merge, and no node stands at two places of it.
pub proof fn lemma_merge_keeps_order_of_each_source(lists: Seq<Seq<i32>>)
    ensures
        keeps_order_of_each_source(followed_merge(lists)),
        no_node_twice(followed_merge(lists)),
    decreases lists.len(),
{
    if lists.len() > 0 {
        let n = lists.len() - 1;
        let front = lists.drop_last();
        let last = tag(lists.last(), n);
        assert(tag_all(lists).drop_last() =~= tag_all(front));
        assert(tag_all(lists).last() == last);
        lemma_merge_keeps_order_of_each_source(front);
        lemma_merge_keeps_every_node(front);
        lemma_merge_two_tagged_keeps_order(followed_merge(front), last);
    }
}

/// In the merge of non-decreasing sequences each node goes before all that
/// follow it. So the values do not decrease, and of two nodes of equal value
/// that from the earlier sequence stands first.
pub proof fn lemma_merge_is_stable(lists: Seq<Seq<i32>>)
    requires
        all_sorted(lists),
    ensures
        in_stable_order(followed_merge(lists)),
        non_decreasing(followed_merge(lists)),
        equal_values_by_source(followed_merge(lists)),
    decreases lists.len(),
{
    let m = followed_merge(lists);
    if lists.len() > 0 {
        let n = lists.len() - 1;
        let front = lists.drop_last();
        let last = tag(lists.last(), n);
        assert(tag_all(lists).drop_last() =~= tag_all(front));
        assert(tag_all(lists).last() == last);
        assert forall|i: int| 0 <= i < front.len() implies sorted(#[trigger] front[i]) by {
            assert(front[i] == lists[i]);
        }
        lemma_merge_is_stable(front);
        lemma_merge_keeps_every_node(front);
        assert(sorted(lists[n]));
        assert(in_stable_order(last));
        lemma_merge_two_tagged_stable(followed_merge(front), last);
    }
    assert forall|i: int, j: int| 0 <= i < j < m.len() implies m[i].val <= m[j].val && (m[i].val
        == m[j].val ==> m[i].source <= m[j].source) by {
        assert(goes_before(m[i], m[j]));
    }
}

/// The merge of a collection of two sequences is the merge of the two, also
/// when it is followed node by node.
pub proof fn lemma_merge_all_pair(a: Seq<i32>, b: Seq<i32>)
    ensures
        merge_all(seq![a, b]) == merge_two(a, b),
        followed_merge(seq![a, b]) == followed_merge_two(a, b),
{
    let lists = seq![a, b];
    assert(lists.drop_last() =~= seq![a]);
    lemma_merge_all_single(a);
    let tagged = tag_all(lists);
    let first = seq![tag(a, 0)];
    assert(tagged.drop_last() =~= first);
    assert(tagged.last() == tag(b, 1));
    assert(first.drop_last() =~= Seq::<Seq<Tagged>>::empty());
    assert(merge_all_tagged(first.drop_last()) =~= Seq::<Tagged>::empty());
    assert(merge_all_tagged(first) == tag(a, 0));
}

/// The merge of two non-decreasing sequences, followed node by node: its
/// values are those of the merge of values, and of two nodes of equal value,
/// one from each sequence, that of `a` stands first.
pub proof fn lemma_merge_two_is_stable(a: Seq<i32>, b: Seq<i32>)
    requires
        sorted(a),
        sorted(b),
    ensures
        untag(followed_merge_two(a, b)) == merge_two(a, b),
        in_stable_order(followed_merge_two(a, b)),
        non_decreasing(followed_merge_two(a, b)),
        equal_values_by_source(followed_merge_two(a, b)),
{
    let lists = seq![a, b];
    lemma_merge_all_pair(a, b);
    assert(all_sorted(lists));
    lemma_merge_is_stable(lists);
    lemma_merge_keeps_every_node(lists);
}

} // verus!
