use binary_heap::Heap;
use binary_heap::MaxHeap;
use binary_heap::MaxOrder;
use binary_heap::MinHeap;
use binary_heap::MinOrder;

#[test]
fn test_empty_heap() {
    let mut heap = MaxHeap::new::<i32>();
    assert_eq!(heap.next(), None);
}

#[test]
fn test_min_heap() {
    let mut heap = MinHeap::new();
    heap.add(4);
    heap.add(2);
    heap.add(9);
    heap.add(11);
    assert_eq!(heap.len(), 4);
    assert_eq!(heap.next(), Some(2));
    assert_eq!(heap.next(), Some(4));
    assert_eq!(heap.next(), Some(9));
    heap.add(1);
    assert_eq!(heap.next(), Some(1));
}

#[test]
fn test_max_heap() {
    let mut heap = MaxHeap::new();
    heap.add(4);
    heap.add(2);
    heap.add(9);
    heap.add(11);
    assert_eq!(heap.len(), 4);
    assert_eq!(heap.next(), Some(11));
    assert_eq!(heap.next(), Some(9));
    assert_eq!(heap.next(), Some(4));
    heap.add(1);
    assert_eq!(heap.next(), Some(2));
}

#[test]
fn new_min_and_new_max_match_the_factories() {
    let mut min: Heap<i32, MinOrder> = Heap::new_min();
    let mut max: Heap<i32, MaxOrder> = Heap::new_max();
    for v in [3, 1, 2] {
        min.add(v);
        max.add(v);
    }
    assert_eq!(min.pop(), Some(1));
    assert_eq!(max.pop(), Some(3));
}

#[test]
fn new_with_explicit_strategy() {
    let mut heap: Heap<i32, MaxOrder> = Heap::new(MaxOrder);
    heap.add(-5);
    heap.add(40);
    heap.add(7);
    assert_eq!(heap.pop(), Some(40));
    assert_eq!(heap.pop(), Some(7));
    assert_eq!(heap.pop(), Some(-5));
    assert_eq!(heap.pop(), None);
}

#[test]
fn empty_heap_reports_len_zero_and_is_empty() {
    let mut heap = MinHeap::new::<i32>();
    assert_eq!(heap.len(), 0);
    assert!(heap.is_empty());
    assert_eq!(heap.pop(), None);
    assert_eq!(heap.len(), 0);
    assert!(heap.is_empty());
    heap.add(10);
    assert_eq!(heap.len(), 1);
    assert!(!heap.is_empty());
}

#[test]
fn drained_heap_keeps_returning_nothing_until_an_add() {
    let mut heap = MinHeap::new::<i32>();
    heap.add(6);
    assert_eq!(heap.pop(), Some(6));
    assert_eq!(heap.pop(), None);
    assert_eq!(heap.pop(), None);
    assert_eq!(heap.next(), None);
    heap.add(3);
    assert_eq!(heap.pop(), Some(3));
    assert_eq!(heap.pop(), None);
}

#[test]
fn len_tracks_adds_and_successful_pops() {
    let mut heap = MinHeap::new::<i32>();
    let mut adds: usize = 0;
    let mut hits: usize = 0;
    for v in [8, 3, 5, 3, 9] {
        heap.add(v);
        adds += 1;
        assert_eq!(heap.len(), adds - hits);
    }
    loop {
        match heap.pop() {
            Some(_) => hits += 1,
            None => break,
        }
        assert_eq!(heap.len(), adds - hits);
    }
    assert_eq!(adds, 5);
    assert_eq!(hits, 5);
    assert_eq!(heap.len(), 0);
}

#[test]
fn min_drain_is_ascending_with_duplicates() {
    let mut heap = MinHeap::new::<i32>();
    let values = [5, -2, 5, 0, 17, -2, 3, 3, 3, 100];
    for v in values {
        heap.add(v);
    }
    assert_eq!(heap.len(), values.len());
    let mut drained: Vec<i32> = Vec::new();
    while let Some(v) = heap.pop() {
        drained.push(v);
    }
    assert_eq!(drained, vec![-2, -2, 0, 3, 3, 3, 5, 5, 17, 100]);
    assert!(heap.is_empty());
}

#[test]
fn max_drain_is_descending_with_duplicates() {
    let mut heap = MaxHeap::new::<i32>();
    let values = [5, -2, 5, 0, 17, -2, 3, 3, 3, 100];
    for v in values {
        heap.add(v);
    }
    assert_eq!(heap.len(), values.len());
    let mut drained: Vec<i32> = Vec::new();
    while let Some(v) = heap.pop() {
        drained.push(v);
    }
    assert_eq!(drained, vec![100, 17, 5, 5, 3, 3, 3, 0, -2, -2]);
    assert!(heap.is_empty());
}

#[test]
fn unsigned_element_types_work_too() {
    let mut wide = MinHeap::new::<u64>();
    wide.add(u64::MAX);
    wide.add(0);
    wide.add(1 << 40);
    assert_eq!(wide.pop(), Some(0));
    assert_eq!(wide.pop(), Some(1 << 40));
    assert_eq!(wide.pop(), Some(u64::MAX));

    let mut sizes = MaxHeap::new::<usize>();
    sizes.add(2);
    sizes.add(7);
    sizes.add(7);
    assert_eq!(sizes.pop(), Some(7));
    assert_eq!(sizes.pop(), Some(7));
    assert_eq!(sizes.pop(), Some(2));
    assert_eq!(sizes.pop(), None);
}

#[test]
fn interleaved_adds_and_pops_keep_priority_order() {
    let mut heap = MinHeap::new::<i32>();
    heap.add(50);
    heap.add(20);
    assert_eq!(heap.pop(), Some(20));
    heap.add(10);
    heap.add(60);
    assert_eq!(heap.pop(), Some(10));
    assert_eq!(heap.pop(), Some(50));
    heap.add(5);
    assert_eq!(heap.pop(), Some(5));
    assert_eq!(heap.pop(), Some(60));
    assert_eq!(heap.pop(), None);
}
