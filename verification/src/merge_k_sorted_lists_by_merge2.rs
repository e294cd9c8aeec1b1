//! The merge of any number of sequences, by halving the collection.

use vstd::prelude::*;
use crate::list::{all_values, values, ListNode};
use crate::model::{
    all_sorted, gathered, lemma_merge_all_concat, lemma_merge_all_len, lemma_merge_all_multiset,
    lemma_merge_all_single, lemma_merge_all_sorted, merge_all, sorted, total_len,
};
use crate::merge_two_lists;

verus! {

/// The merge of any number of sequences by halving, as associated functions.
pub struct Solution;

impl Solution {
    /// Merges the sequences in the slots `s` to `e` of `lists`, both included,
    /// and leaves those slots empty: each node is then owned by the result alone.
    ///
    /// One slot is taken as it is. More are cut in two at `(s + e) / 2`; each
    /// part is merged by itself, and the two results are merged into one, so
    /// that of equal values that of the slot with the lesser index goes first.
    ///
    /// The sequences are meant to be non-decreasing, and the output is
    /// non-decreasing exactly if they all are: it is for the caller to see to
    /// that.
    pub fn merge2(lists: &mut Vec<Option<Box<ListNode>>>, s: usize, e: usize) -> (merged: Option<
        Box<ListNode>,
    >)
        requires
            s <= e < old(lists).len(),
        ensures
            values(merged) == merge_all(all_values(old(lists)@).subrange(s as int, e + 1)),
            values(merged).len() == total_len(all_values(old(lists)@).subrange(s as int, e + 1)),
            values(merged).to_multiset() == gathered(
                all_values(old(lists)@).subrange(s as int, e + 1),
            ),
            sorted(values(merged)) <==> all_sorted(
                all_values(old(lists)@).subrange(s as int, e + 1),
            ),
            final(lists).len() == old(lists).len(),
            forall|i: int| s <= i <= e ==> final(lists)@[i] is None,
            forall|i: int|
                0 <= i < s || e < i < old(lists).len() ==> final(lists)@[i] == old(lists)@[i],
        decreases e - s,
    {
        let ghost before = all_values(lists@);
        proof {
            lemma_merge_all_len(before.subrange(s as int, e + 1));
            lemma_merge_all_multiset(before.subrange(s as int, e + 1));
            lemma_merge_all_sorted(before.subrange(s as int, e + 1));
        }
        if s == e {
            proof {
                assert(before.subrange(s as int, e + 1) =~= seq![values(lists@[s as int])]);
                lemma_merge_all_single(values(lists@[s as int]));
            }
            lists[s].take()
        } else {
            // The place `(s + e) / 2`, found without a sum that may not fit.
            let mid = s + (e - s) / 2;
            let lhs = Solution::merge2(lists, s, mid);
            proof {
                assert(all_values(lists@).subrange(mid + 1, e + 1) =~= before.subrange(
                    mid + 1,
                    e + 1,
                ));
            }
            let rhs = Solution::merge2(lists, mid + 1, e);
            proof {
                assert(before.subrange(s as int, e + 1) =~= before.subrange(s as int, mid + 1)
                    + before.subrange(mid + 1, e + 1));
                lemma_merge_all_concat(
                    before.subrange(s as int, mid + 1),
                    before.subrange(mid + 1, e + 1),
                );
            }
            merge_two_lists::Solution::merge_two_lists(lhs, rhs)
        }
    }

    /// Merges all the sequences of `lists` into one. An empty collection gives
    /// an empty sequence.
    pub fn merge_k_lists(lists: Vec<Option<Box<ListNode>>>) -> (merged: Option<Box<ListNode>>)
        ensures
            values(merged) == merge_all(all_values(lists@)),
            values(merged).len() == total_len(all_values(lists@)),
            values(merged).to_multiset() == gathered(all_values(lists@)),
            sorted(values(merged)) <==> all_sorted(all_values(lists@)),
    {
        proof {
            lemma_merge_all_len(all_values(lists@));
            lemma_merge_all_multiset(all_values(lists@));
            lemma_merge_all_sorted(all_values(lists@));
        }
        let mut lists = lists;
        if lists.is_empty() {
            None
        } else {
            let e = lists.len() - 1;
            proof {
                assert(all_values(lists@).subrange(0, e + 1) =~= all_values(lists@));
            }
            Solution::merge2(&mut lists, 0, e)
        }
    }
}

} // verus!
