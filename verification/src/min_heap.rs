//! A priority queue of sequence heads that hands out the least head first.

use vstd::prelude::*;
use vstd::multiset::Multiset;
use vstd::seq_lib::{to_multiset_build, to_multiset_contains, to_multiset_len, to_multiset_update};

verus! {

/// The current head of one sequence: its value, and the index of the sequence
/// in the collection that is being merged.
#[derive(Clone, Copy, Debug)]
pub struct HeapItem {
    pub val: i32,
    pub idx: usize,
}

impl HeapItem {
    /// `self` leaves the queue before `other`: it has the lesser value, or the
    /// same value and the lesser index.
    pub open spec fn before(self, other: HeapItem) -> bool {
        self.val < other.val || (self.val == other.val && self.idx < other.idx)
    }

    /// Whether `self` leaves the queue before `other`.
    pub fn is_before(&self, other: &HeapItem) -> (b: bool)
        ensures
            b == self.before(*other),
    {
        self.val < other.val || (self.val == other.val && self.idx < other.idx)
    }
}

/// The place above `i` in the implicit binary tree.
spec fn parent(i: int) -> int {
    (i - 1) / 2
}

/// No item leaves before the one above it.
spec fn ordered(s: Seq<HeapItem>) -> bool {
    forall|i: int| 0 < i < s.len() ==> !(#[trigger] s[i]).before(s[parent(i)])
}

/// `s` is ordered but for the item at `k`, which may leave before the one above it.
spec fn ordered_but_above(s: Seq<HeapItem>, k: int) -> bool {
    &&& forall|i: int| 0 < i < s.len() && i != k ==> !(#[trigger] s[i]).before(s[parent(i)])
    &&& forall|i: int|
        0 < i < s.len() && parent(i) == k && k > 0 ==> !(#[trigger] s[i]).before(s[parent(k)])
}

/// `s` is ordered but for the item at `k`, which may leave after those below it.
spec fn ordered_but_below(s: Seq<HeapItem>, k: int) -> bool {
    &&& forall|i: int|
        0 < i < s.len() && parent(i) != k ==> !(#[trigger] s[i]).before(s[parent(i)])
    &&& forall|i: int|
        0 < i < s.len() && parent(i) == k && k > 0 ==> !(#[trigger] s[i]).before(s[parent(k)])
}

/// In an ordered sequence no item leaves before the first.
proof fn lemma_first_is_least(s: Seq<HeapItem>, i: int)
    requires
        ordered(s),
        0 <= i < s.len(),
    ensures
        !s[i].before(s[0]),
    decreases i,
{
    if i > 0 {
        lemma_first_is_least(s, parent(i));
    }
}

/// Exchanging two items changes nothing in what a sequence holds.
proof fn lemma_exchange_keeps_items(s: Seq<HeapItem>, i: int, j: int)
    requires
        0 <= i < s.len(),
        0 <= j < s.len(),
    ensures
        s.update(i, s[j]).update(j, s[i]).to_multiset() == s.to_multiset(),
{
    broadcast use vstd::multiset::group_multiset_axioms;

    to_multiset_update(s, i, s[j]);
    to_multiset_update(s.update(i, s[j]), j, s[i]);
    to_multiset_contains(s, s[i]);
    to_multiset_contains(s, s[j]);
}

/// A priority queue of heads, kept as a binary heap in a vector.
pub struct MinHeap {
    items: Vec<HeapItem>,
}

impl View for MinHeap {
    type V = Multiset<HeapItem>;

    /// The heads in the queue, each as often as it was put in and not yet taken out.
    closed spec fn view(&self) -> Multiset<HeapItem> {
        self.items@.to_multiset()
    }
}

impl MinHeap {
    /// The vector is in heap order.
    pub closed spec fn wf(&self) -> bool {
        ordered(self.items@)
    }

    /// An empty queue with room for `capacity` heads.
    pub fn with_capacity(capacity: usize) -> (heap: MinHeap)
        ensures
            heap.wf(),
            heap@ == Multiset::<HeapItem>::empty(),
    {
        let heap = MinHeap { items: Vec::with_capacity(capacity) };
        proof {
            to_multiset_len(heap.items@);
            vstd::multiset::lemma_multiset_empty_len(heap.items@.to_multiset());
        }
        heap
    }

    /// The number of heads in the queue.
    pub fn len(&self) -> (n: usize)
        ensures
            n == self@.len(),
    {
        proof {
            to_multiset_len(self.items@);
        }
        self.items.len()
    }

    fn exchange(&mut self, i: usize, j: usize)
        requires
            i < old(self).items.len(),
            j < old(self).items.len(),
        ensures
            final(self).items@ == old(self).items@.update(
                i as int,
                old(self).items@[j as int],
            ).update(j as int, old(self).items@[i as int]),
            final(self)@ == old(self)@,
    {
        let a = self.items[i];
        let b = self.items[j];
        self.items.set(i, b);
        self.items.set(j, a);
        proof {
            lemma_exchange_keeps_items(old(self).items@, i as int, j as int);
        }
    }

    /// Puts `item` into the queue.
    pub fn push(&mut self, item: HeapItem)
        requires
            old(self).wf(),
        ensures
            final(self).wf(),
            final(self)@ == old(self)@.insert(item),
    {
        self.items.push(item);
        proof {
            to_multiset_build(old(self).items@, item);
        }
        let mut k = self.items.len() - 1;
        while k > 0 && self.items[k].is_before(&self.items[(k - 1) / 2])
            invariant
                k < self.items.len(),
                self@ == old(self)@.insert(item),
                ordered_but_above(self.items@, k as int),
            decreases k,
        {
            let p = (k - 1) / 2;
            self.exchange(k, p);
            k = p;
        }
    }

    /// Takes the least head out of the queue: the one that leaves before every
    /// other. `None` if the queue is empty.
    pub fn pop(&mut self) -> (least: Option<HeapItem>)
        requires
            old(self).wf(),
        ensures
            final(self).wf(),
            match least {
                None => old(self)@.len() == 0 && final(self)@ == old(self)@,
                Some(item) => {
                    &&& old(self)@.count(item) > 0
                    &&& forall|other: HeapItem| old(self)@.count(other) > 0 ==> !other.before(item)
                    &&& final(self)@ == old(self)@.remove(item)
                },
            },
    {
        let n = self.items.len();
        proof {
            to_multiset_len(self.items@);
        }
        if n == 0 {
            return None;
        }
        let top = self.items[0];
        let last = self.items.pop().unwrap();
        proof {
            broadcast use vstd::multiset::group_multiset_axioms;

            let s = old(self).items@;
            assert(s =~= s.drop_last().push(last));
            to_multiset_build(s.drop_last(), last);
            to_multiset_contains(s, top);
            assert forall|other: HeapItem| s.to_multiset().count(other) > 0 implies !other.before(
                top,
            ) by {
                to_multiset_contains(s, other);
                let i = choose|i: int| 0 <= i < s.len() && s[i] == other;
                lemma_first_is_least(s, i);
            }
        }
        if n > 1 {
            self.items.set(0, last);
            proof {
                broadcast use vstd::multiset::group_multiset_axioms;

                let s = old(self).items@;
                to_multiset_update(s.drop_last(), 0, last);
            }
            let len = n - 1;
            let mut k: usize = 0;
            while k < len / 2
                invariant
                    len == self.items.len(),
                    k < len,
                    self@ == old(self)@.remove(top),
                    ordered_but_below(self.items@, k as int),
                ensures
                    self@ == old(self)@.remove(top),
                    ordered(self.items@),
                decreases len - k,
            {
                let left = 2 * k + 1;
                let right = left + 1;
                let least = if right < len && self.items[right].is_before(&self.items[left]) {
                    right
                } else {
                    left
                };
                if !self.items[least].is_before(&self.items[k]) {
                    break ;
                }
                self.exchange(k, least);
                k = least;
            }
        }
        Some(top)
    }
}

} // verus!
