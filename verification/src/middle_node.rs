//! The middle node of one sequence.

use vstd::prelude::*;
use crate::list::{from_place, lemma_from_place_next, lemma_from_place_values, values, ListNode};

verus! {

/// The cursor stands on the node that `at` starts with, or has run off the end
/// as `at` has.
pub open spec fn stands_at(cursor: Option<&Box<ListNode>>, at: Option<Box<ListNode>>) -> bool {
    match cursor {
        None => at is None,
        Some(node) => at == Some(*node),
    }
}

/// The search for the middle node, as an associated function.
pub struct Solution;

impl Solution {
    /// Finds the middle node of a sequence and leaves the sequence as it is.
    ///
    /// Of `n` nodes the middle one stands at place `n / 2`, counted from 0: of
    /// an even number of nodes it is the second of the two in the centre. An
    /// empty sequence has no middle node.
    ///
    /// A fast cursor goes two nodes forward for each node that a slow cursor
    /// goes forward; when the fast one runs off the end, the slow one is at the
    /// middle.
    pub fn middle_node(head: &Option<Box<ListNode>>) -> (middle: Option<&Box<ListNode>>)
        ensures
            match middle {
                None => values(*head).len() == 0,
                Some(node) => {
                    &&& values(*head).len() > 0
                    &&& Some(*node) == from_place(*head, values(*head).len() / 2)
                    &&& node.val == values(*head)[(values(*head).len() / 2) as int]
                    &&& values(Some(*node)) == values(*head).skip((values(*head).len() / 2) as int)
                },
            },
    {
        let mut slow = head.as_ref();
        let mut fast = head.as_ref();
        let ghost len = values(*head).len();
        let ghost mut steps: nat = 0;

        loop
            invariant_except_break
                stands_at(fast, from_place(*head, 2 * steps)),
            invariant
                len == values(*head).len(),
                2 * steps <= len,
                stands_at(slow, from_place(*head, steps)),
            ensures
                steps == len / 2,
                stands_at(slow, from_place(*head, steps)),
            decreases len - 2 * steps,
        {
            proof {
                lemma_from_place_values(*head, steps);
                lemma_from_place_values(*head, 2 * steps);
                lemma_from_place_values(*head, 2 * steps + 1);
                lemma_from_place_next(*head, steps);
                lemma_from_place_next(*head, 2 * steps);
                lemma_from_place_next(*head, 2 * steps + 1);
            }
            if let Some(node) = fast {
                fast = node.next.as_ref();
            } else {
                break ;
            }
            if let Some(node) = fast {
                fast = node.next.as_ref();
            } else {
                break ;
            }
            if let Some(node) = slow {
                slow = node.next.as_ref();
            } else {
                break ;
            }
            proof {
                steps = steps + 1;
            }
        }
        proof {
            lemma_from_place_values(*head, steps);
            if slow is Some {
                let behind = values(from_place(*head, steps));
                assert(behind[0] == values(*head)[steps as int]);
            }
        }
        slow
    }
}

} // verus!
