//! The merge of any number of sequences, by a priority queue of their heads.

use vstd::prelude::*;
use vstd::multiset::Multiset;
use crate::list::{all_values, lemma_same_values_same_nodes, values, ListNode};
use crate::min_heap::{HeapItem, MinHeap};
use crate::model::{
    all_sorted, gathered, is_least_head, lemma_merge_all_first, lemma_merge_all_len,
    lemma_merge_all_multiset, lemma_merge_all_sorted, lemma_merge_all_takes_least_head, merge_all,
    sorted, total_len,
};
use crate::reverse_list;

verus! {

/// The queue holds, once each, the heads of the sequences before `upto` that
/// are not empty, and nothing else.
spec fn holds_heads(queue: Multiset<HeapItem>, lists: Seq<Seq<i32>>, upto: int) -> bool {
    &&& forall|item: HeapItem| #[trigger] queue.count(item) <= 1
    &&& forall|item: HeapItem| #[trigger]
        queue.count(item) > 0 ==> item.idx < upto && lists[item.idx as int].len() > 0 && item.val
            == lists[item.idx as int][0]
    &&& forall|i: int|
        0 <= i < upto && (#[trigger] lists[i]).len() > 0 ==> queue.count(
            HeapItem { val: lists[i][0], idx: i as usize },
        ) > 0
}

/// Merging by the queue and merging by halves give the same sequence, node for
/// node, whatever the collection holds.
pub proof fn lemma_strategies_agree(
    lists: Seq<Option<Box<ListNode>>>,
    by_queue: Option<Box<ListNode>>,
    by_halves: Option<Box<ListNode>>,
)
    requires
        values(by_queue) == merge_all(all_values(lists)),
        values(by_halves) == merge_all(all_values(lists)),
    ensures
        by_queue == by_halves,
{
    lemma_same_values_same_nodes(by_queue, by_halves);
}

/// The merge of any number of sequences by a priority queue, as an associated
/// function.
pub struct Solution;

impl Solution {
    /// Merges all the sequences of `lists` into one. An empty collection, or
    /// one of empty sequences, gives an empty sequence.
    ///
    /// The queue holds the head of each sequence that is not exhausted. The
    /// least head is taken out, its node is detached and linked to the output,
    /// and the node behind it, if there is one, enters the queue as the new
    /// head of that sequence. Of equal heads that of the sequence with the
    /// lesser index is the least.
    ///
    /// The sequences are meant to be non-decreasing, and the output is
    /// non-decreasing exactly if they all are: it is for the caller to see to
    /// that. The heads decide also where they are not.
    pub fn merge_k_lists(lists: Vec<Option<Box<ListNode>>>) -> (merged: Option<Box<ListNode>>)
        ensures
            values(merged) == merge_all(all_values(lists@)),
            values(merged).len() == total_len(all_values(lists@)),
            values(merged).to_multiset() == gathered(all_values(lists@)),
            sorted(values(merged)) <==> all_sorted(all_values(lists@)),
    {
        let ghost given = all_values(lists@);
        proof {
            lemma_merge_all_len(given);
            lemma_merge_all_multiset(given);
            lemma_merge_all_sorted(given);
        }
        let mut lists = lists;
        let mut heap = MinHeap::with_capacity(lists.len());
        let mut head: Option<Box<ListNode>> = None;

        let mut idx: usize = 0;
        while idx < lists.len()
            invariant
                idx <= lists.len(),
                all_values(lists@) == given,
                heap.wf(),
                holds_heads(heap@, given, idx as int),
            decreases lists.len() - idx,
        {
            match &lists[idx] {
                Some(node) => {
                    heap.push(HeapItem { idx, val: node.val });
                },
                None => {},
            }
            idx += 1;
            proof {
                broadcast use vstd::multiset::group_multiset_axioms;

                assert(given[idx - 1] == values(lists@[idx - 1]));
            }
        }

        // The values linked so far; `head` holds them last first.
        let ghost mut linked: Seq<i32> = Seq::empty();
        loop
            invariant
                heap.wf(),
                holds_heads(heap@, all_values(lists@), lists.len() as int),
                values(head) == linked.reverse(),
                merge_all(given) == linked + merge_all(all_values(lists@)),
            ensures
                values(head) == linked.reverse(),
                merge_all(given) == linked,
            decreases merge_all(all_values(lists@)).len(),
        {
            let ghost current = all_values(lists@);
            let ghost queue = heap@;
            match heap.pop() {
                None => {
                    proof {
                        assert forall|j: int| 0 <= j < current.len() implies (
                        #[trigger] current[j]).len() == 0 by {
                            if current[j].len() > 0 {
                                let head_of_j = HeapItem { val: current[j][0], idx: j as usize };
                                assert(queue.count(head_of_j) > 0);
                            }
                        }
                        lemma_merge_all_first(current);
                    }
                    break ;
                },
                Some(item) => {
                    let idx = item.idx;
                    proof {
                        assert(queue.count(item) > 0);
                        assert(is_least_head(current, idx as int)) by {
                            assert forall|j: int|
                                0 <= j < current.len() && (#[trigger] current[j]).len()
                                    > 0 implies current[idx as int][0] < current[j][0] || (
                            current[idx as int][0] == current[j][0] && idx <= j) by {
                                let other = HeapItem { val: current[j][0], idx: j as usize };
                                assert(queue.count(other) > 0);
                                assert(!other.before(item));
                            }
                        }
                        lemma_merge_all_takes_least_head(current, idx as int);
                    }
                    let mut node = lists[idx].take().unwrap();
                    let next = node.next.take();
                    match &next {
                        Some(follower) => {
                            heap.push(HeapItem { idx, val: follower.val });
                        },
                        None => {},
                    }
                    lists[idx] = next;
                    node.next = head;
                    head = Some(node);
                    proof {
                        broadcast use vstd::multiset::group_multiset_axioms;

                        let tail = current[idx as int].drop_first();
                        assert(values(next) =~= tail);
                        assert(all_values(lists@) =~= current.update(idx as int, tail));
                        linked = linked.push(item.val);
                        assert(values(head) =~= linked.reverse());
                    }
                },
            }
        }
        reverse_list::Solution::reverse_list(head)
    }
}

} // verus!
