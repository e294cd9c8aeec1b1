//! The merge of two sequences.

use vstd::prelude::*;
use crate::list::{values, ListNode};
use crate::model::{
    lemma_merge_two_len, lemma_merge_two_multiset, lemma_merge_two_sorted, merge_two, sorted,
};

verus! {

/// The merge of two sequences, as an associated function.
pub struct Solution;

impl Solution {
    /// Merges two sequences into one by relinking their nodes.
    ///
    /// The lesser of the two heads is detached and linked behind the last node
    /// of the output, and of two equal heads that of `l1`. When one sequence is
    /// exhausted, what is left of the other is linked behind as it is. The
    /// output starts behind a sentinel node, which is dropped at the end.
    ///
    /// The two sequences are meant to be non-decreasing, and the output is
    /// non-decreasing exactly if both are: it is for the caller to see to that.
    /// The heads decide also where they are not.
    pub fn merge_two_lists(l1: Option<Box<ListNode>>, l2: Option<Box<ListNode>>) -> (merged: Option<
        Box<ListNode>,
    >)
        ensures
            values(merged) == merge_two(values(l1), values(l2)),
            values(merged).len() == values(l1).len() + values(l2).len(),
            values(merged).to_multiset() == values(l1).to_multiset().add(values(l2).to_multiset()),
            sorted(values(merged)) <==> sorted(values(l1)) && sorted(values(l2)),
    {
        proof {
            lemma_merge_two_len(values(l1), values(l2));
            lemma_merge_two_multiset(values(l1), values(l2));
            lemma_merge_two_sorted(values(l1), values(l2));
        }
        let mut lhs = l1;
        let mut rhs = l2;
        let mut head = Box::new(ListNode::new(0));
        let mut tail = &mut head;
        // The values in front of `tail`, and those linked behind the sentinel so far.
        let ghost mut before: Seq<i32> = Seq::empty();
        let ghost mut linked: Seq<i32> = Seq::empty();

        while lhs.is_some() && rhs.is_some()
            invariant
                tail.next.is_none(),
                before + seq![tail.val] == seq![0i32] + linked,
                after_borrow(head)@ == before + final(tail)@,
                merge_two(values(l1), values(l2)) == linked + merge_two(values(lhs), values(rhs)),
            decreases values(lhs).len() + values(rhs).len(),
        {
            // Both have a head here; of equal heads the left one is taken.
            let take_left = match (&lhs, &rhs) {
                (Some(lnode), Some(rnode)) => lnode.val <= rnode.val,
                _ => true,
            };
            let ghost a = values(lhs);
            let ghost b = values(rhs);
            let ghost last = tail.val;
            if take_left {
                tail.next = lhs;
                tail = tail.next.as_mut().unwrap();
                lhs = tail.next.take();
                proof {
                    assert(a.drop_first() =~= values(lhs));
                }
            } else {
                tail.next = rhs;
                tail = tail.next.as_mut().unwrap();
                rhs = tail.next.take();
                proof {
                    assert(b.drop_first() =~= values(rhs));
                }
            }
            proof {
                before = before + seq![last];
                linked = linked + seq![tail.val];
            }
        }
        let rest = if lhs.is_some() { lhs } else { rhs };
        let ghost last = tail.val;
        tail.next = rest;
        proof {
            // Behind the sentinel stands all that was linked, and then the rest.
            assert(head@ =~= (before + seq![last]) + values(rest));
            assert(values(head.next) =~= head@.drop_first());
        }
        head.next
    }
}

} // verus!
