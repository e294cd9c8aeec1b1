use nublog::min_heap::{HeapItem, MinHeap};

fn drain(heap: &mut MinHeap) -> Vec<(i32, usize)> {
    let mut out = Vec::new();
    while let Some(item) = heap.pop() {
        out.push((item.val, item.idx));
    }
    out
}

#[test]
fn empty_heap_gives_nothing() {
    let mut heap = MinHeap::with_capacity(0);
    assert_eq!(heap.len(), 0);
    assert!(heap.pop().is_none());
    assert_eq!(heap.len(), 0);
}

#[test]
fn heap_gives_least_first() {
    let mut heap = MinHeap::with_capacity(8);
    for (idx, val) in [5, 3, 9, 1, 7, 3, 8].into_iter().enumerate() {
        heap.push(HeapItem { val, idx });
    }
    assert_eq!(heap.len(), 7);
    assert_eq!(drain(&mut heap), vec![(1, 3), (3, 1), (3, 5), (5, 0), (7, 4), (8, 6), (9, 2)]);
    assert_eq!(heap.len(), 0);
}

#[test]
fn heap_breaks_ties_by_index() {
    let mut heap = MinHeap::with_capacity(4);
    for idx in [3usize, 0, 2, 1] {
        heap.push(HeapItem { val: 1, idx });
    }
    assert_eq!(drain(&mut heap), vec![(1, 0), (1, 1), (1, 2), (1, 3)]);
}

#[test]
fn heap_keeps_equal_items() {
    let mut heap = MinHeap::with_capacity(2);
    heap.push(HeapItem { val: 2, idx: 0 });
    heap.push(HeapItem { val: 2, idx: 0 });
    assert_eq!(heap.len(), 2);
    assert_eq!(drain(&mut heap), vec![(2, 0), (2, 0)]);
}

#[test]
fn heap_takes_pushes_between_pops() {
    let mut heap = MinHeap::with_capacity(1);
    heap.push(HeapItem { val: 4, idx: 0 });
    heap.push(HeapItem { val: -2, idx: 1 });
    let least = heap.pop().unwrap();
    assert_eq!((least.val, least.idx), (-2, 1));
    heap.push(HeapItem { val: i32::MIN, idx: 2 });
    heap.push(HeapItem { val: i32::MAX, idx: 3 });
    assert_eq!(drain(&mut heap), vec![(i32::MIN, 2), (4, 0), (i32::MAX, 3)]);
}

#[test]
fn is_before_goes_by_value_then_index() {
    let a = HeapItem { val: 1, idx: 5 };
    let b = HeapItem { val: 2, idx: 0 };
    let c = HeapItem { val: 1, idx: 6 };
    assert!(a.is_before(&b));
    assert!(!b.is_before(&a));
    assert!(a.is_before(&c));
    assert!(!c.is_before(&a));
    assert!(!a.is_before(&a));
}

#[test]
fn heap_sorts_many() {
    let mut heap = MinHeap::with_capacity(0);
    let mut expected = Vec::new();
    let mut x: i64 = 12345;
    for idx in 0..500usize {
        x = (x * 1103515245 + 12345) % 2147483648;
        let val = (x % 50) as i32 - 25;
        heap.push(HeapItem { val, idx });
        expected.push((val, idx));
    }
    expected.sort();
    assert_eq!(drain(&mut heap), expected);
}
