//! Reversal of one sequence in place.

use vstd::prelude::*;
use crate::list::{lemma_same_values_same_nodes, values, ListNode};

verus! {

/// A sequence reversed, and what came of it reversed again, is the sequence
/// that was given: the same nodes in the same order.
pub proof fn lemma_reversed_twice(
    head: Option<Box<ListNode>>,
    once: Option<Box<ListNode>>,
    twice: Option<Box<ListNode>>,
)
    requires
        values(once) == values(head).reverse(),
        values(twice) == values(once).reverse(),
    ensures
        twice == head,
{
    assert(values(head).reverse().reverse() =~= values(head));
    lemma_same_values_same_nodes(twice, head);
}

/// The reversal of a sequence, as an associated function.
pub struct Solution;

impl Solution {
    /// Reverses a sequence by relinking its nodes: each node is detached from the
    /// front of the input and put in front of what has been reversed so far.
    pub fn reverse_list(head: Option<Box<ListNode>>) -> (reversed: Option<Box<ListNode>>)
        ensures
            values(reversed) == values(head).reverse(),
    {
        let mut lhs = head;
        let mut rhs: Option<Box<ListNode>> = None;
        while lhs.is_some()
            invariant
                values(rhs).reverse() + values(lhs) == values(head),
            decreases values(lhs).len(),
        {
            let mut node = lhs.unwrap();
            lhs = node.next.take();
            node.next = rhs;
            rhs = Some(node);
        }
        rhs
    }
}

} // verus!
