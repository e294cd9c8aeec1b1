use nublog::list::ListNode;
use nublog::middle_node;
use nublog::reverse_list;

fn chain(vals: &[i32]) -> Option<Box<ListNode>> {
    let mut head: Option<Box<ListNode>> = None;
    for &v in vals.iter().rev() {
        let mut node = Box::new(ListNode::new(v));
        node.next = head;
        head = Some(node);
    }
    head
}

fn values_of(mut head: &Option<Box<ListNode>>) -> Vec<i32> {
    let mut out = Vec::new();
    while let Some(node) = head {
        out.push(node.val);
        head = &node.next;
    }
    out
}

fn places(mut head: &Option<Box<ListNode>>) -> Vec<String> {
    let mut out = Vec::new();
    while let Some(node) = head {
        out.push(format!("{:p}", &**node));
        head = &node.next;
    }
    out
}

#[test]
fn reverse_three() {
    let once = reverse_list::Solution::reverse_list(chain(&[1, 2, 3]));
    assert_eq!(values_of(&once), vec![3, 2, 1]);
    let twice = reverse_list::Solution::reverse_list(once);
    assert_eq!(values_of(&twice), vec![1, 2, 3]);
}

#[test]
fn reverse_empty_and_single() {
    assert!(reverse_list::Solution::reverse_list(None).is_none());
    let one = reverse_list::Solution::reverse_list(chain(&[42]));
    assert_eq!(values_of(&one), vec![42]);
}

#[test]
fn reverse_twice_gives_back_the_same_nodes() {
    let head = chain(&[4, 4, 1, 9, 4]);
    let before = places(&head);
    let once = reverse_list::Solution::reverse_list(head);
    let mut turned = places(&once);
    turned.reverse();
    assert_eq!(turned, before);
    let twice = reverse_list::Solution::reverse_list(once);
    assert_eq!(places(&twice), before);
    assert_eq!(values_of(&twice), vec![4, 4, 1, 9, 4]);
}

#[test]
fn middle_of_six() {
    let head = chain(&[1, 2, 3, 4, 5, 6]);
    let middle = middle_node::Solution::middle_node(&head).unwrap();
    assert_eq!(middle.val, 4);
    assert_eq!(values_of(&middle.next), vec![5, 6]);
    // The sequence is as it was.
    assert_eq!(values_of(&head), vec![1, 2, 3, 4, 5, 6]);
}

#[test]
fn middle_of_five() {
    let head = chain(&[1, 2, 3, 4, 5]);
    let middle = middle_node::Solution::middle_node(&head).unwrap();
    assert_eq!(middle.val, 3);
}

#[test]
fn middle_of_one() {
    let head = chain(&[1]);
    let middle = middle_node::Solution::middle_node(&head).unwrap();
    assert_eq!(middle.val, 1);
    assert!(middle.next.is_none());
}

#[test]
fn middle_of_two_is_the_second() {
    let head = chain(&[7, 8]);
    let middle = middle_node::Solution::middle_node(&head).unwrap();
    assert_eq!(middle.val, 8);
}

#[test]
fn middle_of_none() {
    assert!(middle_node::Solution::middle_node(&None).is_none());
}

#[test]
fn middle_is_at_half_the_length() {
    for n in 0..40usize {
        let vals: Vec<i32> = (0..n as i32).collect();
        let head = chain(&vals);
        let all = places(&head);
        match middle_node::Solution::middle_node(&head) {
            None => assert_eq!(n, 0),
            Some(node) => {
                assert_eq!(node.val as usize, n / 2);
                assert_eq!(format!("{:p}", &**node), all[n / 2]);
            }
        }
    }
}
