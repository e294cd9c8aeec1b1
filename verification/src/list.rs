//! The node of a singly linked sequence, and the sequence of values it stands for.

use vstd::prelude::*;

verus! {

/// One element of a sequence: a value and the link to its successor.
///
/// A node owns its successor, so a chain can neither share a node nor loop.
#[derive(PartialEq, Eq, Debug)]
pub struct ListNode {
    pub val: i32,
    pub next: Option<Box<ListNode>>,
}

/// The values of the sequence that starts at `head`, from head to tail.
pub open spec fn values(head: Option<Box<ListNode>>) -> Seq<i32>
    decreases head,
{
    match head {
        None => Seq::empty(),
        Some(node) => seq![node.val] + values(node.next),
    }
}

/// The value sequences of a collection of heads, in the collection's order.
pub open spec fn all_values(heads: Seq<Option<Box<ListNode>>>) -> Seq<Seq<i32>> {
    Seq::new(heads.len(), |i: int| values(heads[i]))
}

/// What is left of the sequence that starts at `head` when its first `n` nodes
/// are passed over: the node at place `n`, counted from 0, with all that
/// follows it. `None` when the sequence has no such place.
pub open spec fn from_place(head: Option<Box<ListNode>>, n: nat) -> Option<Box<ListNode>>
    decreases n,
{
    if n == 0 {
        head
    } else {
        match head {
            None => None,
            Some(node) => from_place(node.next, (n - 1) as nat),
        }
    }
}

/// Passing over `n` nodes leaves the values from place `n` on, and leaves
/// nothing exactly when `n` is the length of the sequence or more.
pub proof fn lemma_from_place_values(head: Option<Box<ListNode>>, n: nat)
    ensures
        from_place(head, n) is None <==> n >= values(head).len(),
        n <= values(head).len() ==> values(from_place(head, n)) == values(head).skip(n as int),
    decreases n,
{
    if n > 0 {
        match head {
            None => {},
            Some(node) => {
                lemma_from_place_values(node.next, (n - 1) as nat);
            },
        }
    }
}

/// One node further on is the successor of the node at place `n`.
pub proof fn lemma_from_place_next(head: Option<Box<ListNode>>, n: nat)
    ensures
        from_place(head, n + 1) == match from_place(head, n) {
            None => None,
            Some(node) => node.next,
        },
    decreases n,
{
    if n > 0 {
        match head {
            None => {},
            Some(node) => {
                lemma_from_place_next(node.next, (n - 1) as nat);
            },
        }
    } else {
        match head {
            None => {},
            Some(node) => {
                assert(from_place(node.next, 0) == node.next);
            },
        }
    }
}

/// Two sequences with the same values are the same sequence, node for node: a
/// node is no more than its value and what follows it.
pub proof fn lemma_same_values_same_nodes(a: Option<Box<ListNode>>, b: Option<Box<ListNode>>)
    requires
        values(a) == values(b),
    ensures
        a == b,
    decreases a,
{
    match (a, b) {
        (Some(x), Some(y)) => {
            assert(values(a)[0] == x.val && values(b)[0] == y.val);
            assert(values(x.next) =~= values(a).drop_first());
            assert(values(y.next) =~= values(b).drop_first());
            lemma_same_values_same_nodes(x.next, y.next);
        },
        // One sequence has a value and the other has none.
        (Some(_), None) => {},
        (None, Some(_)) => {},
        (None, None) => {},
    }
}

impl View for ListNode {
    type V = Seq<i32>;

    /// The values of the sequence that starts at this node; never empty.
    open spec fn view(&self) -> Seq<i32> {
        seq![self.val] + values(self.next)
    }
}

impl Clone for ListNode {
    /// A copy of this node and of all that follow it.
    fn clone(&self) -> (copy: Self)
        ensures
            copy == *self,
        decreases self,
    {
        ListNode {
            val: self.val,
            next: match &self.next {
                Some(node) => Some(Box::new((&**node).clone())),
                None => None,
            },
        }
    }
}

impl ListNode {
    /// A node that holds `val` and has no successor.
    #[inline]
    pub fn new(val: i32) -> (node: Self)
        ensures
            node == (ListNode { val, next: None }),
            node@ == seq![val],
    {
        ListNode { next: None, val }
    }
}

} // verus!
