use nublog::list::ListNode;
use nublog::merge_k_sorted_lists_by_heap;
use nublog::merge_k_sorted_lists_by_merge2;
use nublog::merge_two_lists;

fn build(vals: &[i32]) -> Option<Box<ListNode>> {
    let mut head: Option<Box<ListNode>> = None;
    for &v in vals.iter().rev() {
        let mut node = Box::new(ListNode::new(v));
        node.next = head;
        head = Some(node);
    }
    head
}

fn collect(mut head: &Option<Box<ListNode>>) -> Vec<i32> {
    let mut out = Vec::new();
    while let Some(node) = head {
        out.push(node.val);
        head = &node.next;
    }
    out
}

/// The address of each node, head first: a node keeps its address when only
/// links are rewritten.
fn addresses(mut head: &Option<Box<ListNode>>) -> Vec<String> {
    let mut out = Vec::new();
    while let Some(node) = head {
        out.push(format!("{:p}", &**node));
        head = &node.next;
    }
    out
}

fn build_all(lists: &[&[i32]]) -> Vec<Option<Box<ListNode>>> {
    lists.iter().map(|l| build(l)).collect()
}

fn by_heap(lists: &[&[i32]]) -> Vec<i32> {
    collect(&merge_k_sorted_lists_by_heap::Solution::merge_k_lists(build_all(lists)))
}

fn by_halves(lists: &[&[i32]]) -> Vec<i32> {
    collect(&merge_k_sorted_lists_by_merge2::Solution::merge_k_lists(build_all(lists)))
}

#[test]
fn new_node_has_no_successor() {
    let node = ListNode::new(7);
    assert_eq!(node.val, 7);
    assert!(node.next.is_none());
}

#[test]
fn merge_two_interleaves() {
    let merged = merge_two_lists::Solution::merge_two_lists(build(&[1, 2, 4]), build(&[1, 3, 4]));
    assert_eq!(collect(&merged), vec![1, 1, 2, 3, 4, 4]);
}

#[test]
fn merge_two_empty_and_one() {
    let merged = merge_two_lists::Solution::merge_two_lists(build(&[]), build(&[0]));
    assert_eq!(collect(&merged), vec![0]);
    let merged = merge_two_lists::Solution::merge_two_lists(build(&[0]), build(&[]));
    assert_eq!(collect(&merged), vec![0]);
}

#[test]
fn merge_two_both_empty() {
    let merged = merge_two_lists::Solution::merge_two_lists(None, None);
    assert!(merged.is_none());
}

#[test]
fn merge_two_splices_the_rest() {
    let merged = merge_two_lists::Solution::merge_two_lists(build(&[5, 6, 7]), build(&[1]));
    assert_eq!(collect(&merged), vec![1, 5, 6, 7]);
    let merged = merge_two_lists::Solution::merge_two_lists(build(&[1]), build(&[5, 6, 7]));
    assert_eq!(collect(&merged), vec![1, 5, 6, 7]);
}

#[test]
fn merge_two_takes_the_lesser_head_whatever_follows() {
    // Not sorted: the merge still goes by the heads alone.
    let merged = merge_two_lists::Solution::merge_two_lists(build(&[5, 1]), build(&[1]));
    assert_eq!(collect(&merged), vec![1, 5, 1]);
}

#[test]
fn merge_two_ties_go_to_the_first() {
    let a = build(&[1, 1, 2]);
    let b = build(&[1, 2]);
    let from_a = addresses(&a);
    let from_b = addresses(&b);
    let merged = merge_two_lists::Solution::merge_two_lists(a, b);
    assert_eq!(collect(&merged), vec![1, 1, 1, 2, 2]);
    let expected = vec![
        from_a[0].clone(),
        from_a[1].clone(),
        from_b[0].clone(),
        from_a[2].clone(),
        from_b[1].clone(),
    ];
    assert_eq!(addresses(&merged), expected);
}

#[test]
fn merge_two_keeps_every_node() {
    let a = build(&[1, 3, 5, 7]);
    let b = build(&[2, 3, 6]);
    let mut before = addresses(&a);
    before.extend(addresses(&b));
    let merged = merge_two_lists::Solution::merge_two_lists(a, b);
    let mut after = addresses(&merged);
    assert_eq!(after.len(), 7);
    before.sort();
    after.sort();
    assert_eq!(before, after);
}

#[test]
fn merge_three_by_heap() {
    assert_eq!(by_heap(&[&[1, 4, 5], &[1, 3, 4], &[2, 6]]), vec![1, 1, 2, 3, 4, 4, 5, 6]);
}

#[test]
fn merge_three_by_halves() {
    assert_eq!(by_halves(&[&[1, 4, 5], &[1, 3, 4], &[2, 6]]), vec![1, 1, 2, 3, 4, 4, 5, 6]);
}

#[test]
fn merge_none_is_empty() {
    assert!(merge_k_sorted_lists_by_heap::Solution::merge_k_lists(Vec::new()).is_none());
    assert!(merge_k_sorted_lists_by_merge2::Solution::merge_k_lists(Vec::new()).is_none());
}

#[test]
fn merge_of_empties_is_empty() {
    assert_eq!(by_heap(&[&[], &[], &[]]), Vec::<i32>::new());
    assert_eq!(by_halves(&[&[], &[], &[]]), Vec::<i32>::new());
}

#[test]
fn merge_skips_empty_sequences() {
    assert_eq!(by_heap(&[&[], &[2, 9], &[], &[1]]), vec![1, 2, 9]);
    assert_eq!(by_halves(&[&[], &[2, 9], &[], &[1]]), vec![1, 2, 9]);
}

#[test]
fn merge_one_sequence_is_itself() {
    assert_eq!(by_heap(&[&[-3, 0, 8]]), vec![-3, 0, 8]);
    assert_eq!(by_halves(&[&[-3, 0, 8]]), vec![-3, 0, 8]);
}

#[test]
fn merge_handles_extreme_values() {
    let lists: [&[i32]; 3] = [&[i32::MIN, 0, i32::MAX], &[i32::MIN, i32::MAX], &[-1, 1]];
    let expected = vec![i32::MIN, i32::MIN, -1, 0, 1, i32::MAX, i32::MAX];
    assert_eq!(by_heap(&lists), expected);
    assert_eq!(by_halves(&lists), expected);
}

#[test]
fn both_strategies_agree() {
    let cases: Vec<Vec<Vec<i32>>> = vec![
        vec![],
        vec![vec![]],
        vec![vec![1], vec![1], vec![1], vec![1], vec![1]],
        vec![vec![1, 2, 3], vec![], vec![0, 2, 2, 7], vec![2], vec![-5, 9]],
        vec![vec![3, 3, 3], vec![3, 3], vec![3]],
        vec![vec![10, 20], vec![5, 15, 25], vec![1], vec![30], vec![12, 13], vec![0, 40], vec![21]],
        // Not sorted: the two still take the same head at each step.
        vec![vec![1, 5], vec![4, 0], vec![2]],
    ];
    for case in cases {
        let lists: Vec<&[i32]> = case.iter().map(|l| l.as_slice()).collect();
        let a = by_heap(&lists);
        let b = by_halves(&lists);
        assert_eq!(a, b);
        let total: usize = case.iter().map(|l| l.len()).sum();
        assert_eq!(a.len(), total);
    }
}

#[test]
fn merged_output_does_not_decrease() {
    let lists: [&[i32]; 4] = [&[1, 4, 9, 9], &[2, 3, 9], &[], &[0, 100]];
    for out in [by_heap(&lists), by_halves(&lists)] {
        assert_eq!(out.len(), 9);
        assert!(out.windows(2).all(|w| w[0] <= w[1]));
        let mut all: Vec<i32> = lists.iter().flat_map(|l| l.iter().copied()).collect();
        all.sort();
        assert_eq!(out, all);
    }
}

#[test]
fn equal_values_come_out_by_source() {
    let values: [&[i32]; 3] = [&[1, 2], &[1, 2, 2], &[1]];
    // From which sequence, and from which place in it, each node of the output comes.
    let expected = [(0, 0), (1, 0), (2, 0), (0, 1), (1, 1), (1, 2)];

    let lists = build_all(&values);
    let origin: Vec<Vec<String>> = lists.iter().map(addresses).collect();
    let merged = merge_k_sorted_lists_by_heap::Solution::merge_k_lists(lists);
    let got = addresses(&merged);
    assert_eq!(got.len(), expected.len());
    for (at, (source, place)) in expected.iter().enumerate() {
        assert_eq!(got[at], origin[*source][*place]);
    }

    let lists = build_all(&values);
    let origin: Vec<Vec<String>> = lists.iter().map(addresses).collect();
    let merged = merge_k_sorted_lists_by_merge2::Solution::merge_k_lists(lists);
    let got = addresses(&merged);
    assert_eq!(got.len(), expected.len());
    for (at, (source, place)) in expected.iter().enumerate() {
        assert_eq!(got[at], origin[*source][*place]);
    }
}

#[test]
fn merge2_takes_a_range_and_clears_it() {
    let mut lists = build_all(&[&[9], &[1, 4], &[2, 3], &[0]]);
    let merged = merge_k_sorted_lists_by_merge2::Solution::merge2(&mut lists, 1, 2);
    assert_eq!(collect(&merged), vec![1, 2, 3, 4]);
    assert_eq!(lists.len(), 4);
    assert_eq!(collect(&lists[0]), vec![9]);
    assert!(lists[1].is_none());
    assert!(lists[2].is_none());
    assert_eq!(collect(&lists[3]), vec![0]);
}

#[test]
fn merge2_of_one_slot_takes_it() {
    let mut lists = build_all(&[&[5, 6], &[7]]);
    let taken = merge_k_sorted_lists_by_merge2::Solution::merge2(&mut lists, 0, 0);
    assert_eq!(collect(&taken), vec![5, 6]);
    assert!(lists[0].is_none());
    assert_eq!(collect(&lists[1]), vec![7]);
}
