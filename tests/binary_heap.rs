use marshrutka::binary_heap::{BinaryHeap, FnComparator, MaxComparator, MinComparator};

#[test]
fn test_iterator() {
    let data = vec![5, 9, 3];
    let iterout = [9, 5, 3];
    let heap = BinaryHeap::<_, MaxComparator>::from_vec(data);
    for (i, el) in iterout.iter().zip(heap.iter()) {
        assert_eq!(*el, *i);
    }
}

#[test]
fn test_iter_rev_cloned_collect() {
    let data = vec![5, 9, 3];
    let iterout = vec![3, 5, 9];
    let pq = BinaryHeap::<_, MaxComparator>::from_vec(data);

    let v: Vec<_> = pq.iter().rev().cloned().collect();
    assert_eq!(v, iterout);
}

#[test]
fn test_into_iter_collect() {
    let data = vec![5, 9, 3];
    let iterout = vec![9, 5, 3];
    let pq = BinaryHeap::<_, MaxComparator>::from_vec(data);

    let v: Vec<_> = pq.into_iter().collect();
    assert_eq!(v, iterout);
}

#[test]
fn test_into_iter_size_hint() {
    let data = vec![5, 9];
    let pq = BinaryHeap::<_, MaxComparator>::from_vec(data);

    let mut it = pq.into_iter();

    assert_eq!(it.size_hint(), (2, Some(2)));
    assert_eq!(it.next(), Some(9));

    assert_eq!(it.size_hint(), (1, Some(1)));
    assert_eq!(it.next(), Some(5));

    assert_eq!(it.size_hint(), (0, Some(0)));
    assert_eq!(it.next(), None);
}

#[test]
fn test_into_iter_rev_collect() {
    let data = vec![5, 9, 3];
    let iterout = vec![3, 5, 9];
    let pq = BinaryHeap::<_, MaxComparator>::from_vec(data);

    let v: Vec<_> = pq.into_iter().rev().collect();
    assert_eq!(v, iterout);
}

#[test]
fn test_peek_and_pop() {
    let data = vec![2, 4, 6, 2, 1, 8, 10, 3, 5, 7, 0, 9, 1];
    let mut sorted = data.clone();
    sorted.sort();
    let mut heap = BinaryHeap::<_, MaxComparator>::from_vec(data);
    while !heap.is_empty() {
        assert_eq!(heap.peek().unwrap(), sorted.last().unwrap());
        assert_eq!(heap.pop().unwrap(), sorted.pop().unwrap());
    }
}

#[test]
fn test_push() {
    let mut heap = BinaryHeap::<_, MaxComparator>::from_vec(vec![2, 4, 9]);
    assert_eq!(heap.len(), 3);
    assert_eq!(*heap.peek().unwrap(), 9);
    heap.push(11);
    assert_eq!(heap.len(), 4);
    assert_eq!(*heap.peek().unwrap(), 11);
    heap.push(5);
    assert_eq!(heap.len(), 5);
    assert_eq!(*heap.peek().unwrap(), 11);
    heap.push(27);
    assert_eq!(heap.len(), 6);
    assert_eq!(*heap.peek().unwrap(), 27);
    heap.push(3);
    assert_eq!(heap.len(), 7);
    assert_eq!(*heap.peek().unwrap(), 27);
    heap.push(103);
    assert_eq!(heap.len(), 8);
    assert_eq!(*heap.peek().unwrap(), 103);
}

#[test]
fn test_push_unique() {
    let mut heap =
        BinaryHeap::<Box<i32>, MaxComparator>::from_vec(vec![Box::new(2), Box::new(4), Box::new(9)]);
    assert_eq!(heap.len(), 3);
    assert_eq!(**heap.peek().unwrap(), 9);
    heap.push(Box::new(11));
    assert_eq!(heap.len(), 4);
    assert_eq!(**heap.peek().unwrap(), 11);
    heap.push(Box::new(5));
    assert_eq!(heap.len(), 5);
    assert_eq!(**heap.peek().unwrap(), 11);
    heap.push(Box::new(27));
    assert_eq!(heap.len(), 6);
    assert_eq!(**heap.peek().unwrap(), 27);
    heap.push(Box::new(3));
    assert_eq!(heap.len(), 7);
    assert_eq!(**heap.peek().unwrap(), 27);
    heap.push(Box::new(103));
    assert_eq!(heap.len(), 8);
    assert_eq!(**heap.peek().unwrap(), 103);
}

fn check_to_vec(mut data: Vec<i32>) {
    let heap = BinaryHeap::<_, MaxComparator>::from_vec(data.clone());
    let mut v = heap.clone().into_vec();
    v.sort();
    data.sort();

    assert_eq!(v, data);
    assert_eq!(heap.into_sorted_vec(), data);
}

#[test]
fn test_to_vec() {
    check_to_vec(vec![]);
    check_to_vec(vec![5]);
    check_to_vec(vec![3, 2]);
    check_to_vec(vec![2, 3]);
    check_to_vec(vec![5, 1, 2]);
    check_to_vec(vec![1, 100, 2, 3]);
    check_to_vec(vec![1, 3, 5, 7, 9, 2, 4, 6, 8, 0]);
    check_to_vec(vec![2, 4, 6, 2, 1, 8, 10, 3, 5, 7, 0, 9, 1]);
    check_to_vec(vec![9, 11, 9, 9, 9, 9, 11, 2, 3, 4, 11, 9, 0, 0, 0, 0]);
    check_to_vec(vec![0, 1, 2, 3, 4, 5, 6, 7, 8, 9, 10]);
    check_to_vec(vec![10, 9, 8, 7, 6, 5, 4, 3, 2, 1, 0]);
    check_to_vec(vec![0, 1, 2, 3, 4, 5, 6, 7, 8, 9, 0, 0, 0, 1, 2]);
    check_to_vec(vec![5, 4, 3, 2, 1, 5, 4, 3, 2, 1, 5, 4, 3, 2, 1]);
}

#[test]
fn test_empty_pop() {
    let mut heap = BinaryHeap::<i32, MaxComparator>::new();
    assert!(heap.pop().is_none());
}

#[test]
fn test_empty_peek() {
    let empty = BinaryHeap::<i32, MaxComparator>::new();
    assert!(empty.peek().is_none());
}

#[test]
fn test_from_iter() {
    let xs = vec![9, 8, 7, 6, 5, 4, 3, 2, 1];

    let mut q = BinaryHeap::<_, MaxComparator>::from_vec(xs.iter().rev().cloned().collect());

    for &x in &xs {
        assert_eq!(q.pop().unwrap(), x);
    }
}

#[test]
fn test_drain() {
    let mut q = BinaryHeap::<_, MaxComparator>::from_vec(
        [9, 8, 7, 6, 5, 4, 3, 2, 1].iter().cloned().collect(),
    );

    assert_eq!(q.drain().take(5).count(), 5);

    assert!(q.is_empty());
}

#[test]
fn test_append() {
    let mut a = BinaryHeap::<_, MaxComparator>::from_vec(vec![-10, 1, 2, 3, 3]);
    let mut b = BinaryHeap::<_, MaxComparator>::from_vec(vec![-20, 5, 43]);

    a.append(&mut b);

    assert_eq!(a.into_sorted_vec(), [-20, -10, 1, 2, 3, 3, 5, 43]);
    assert!(b.is_empty());
}

#[test]
fn test_append_to_empty() {
    let mut a = BinaryHeap::<_, MaxComparator>::new();
    let mut b = BinaryHeap::<_, MaxComparator>::from_vec(vec![-20, 5, 43]);

    a.append(&mut b);

    assert_eq!(a.into_sorted_vec(), [-20, 5, 43]);
    assert!(b.is_empty());
}

#[test]
fn test_retain() {
    let mut a = BinaryHeap::<_, MaxComparator>::from_vec(vec![100, 10, 50, 1, 2, 20, 30]);
    a.retain(|&x| x != 2);

    // Check that 20 moved into 10's place.
    assert_eq!(a.clone().into_vec(), [100, 20, 50, 1, 10, 30]);

    a.retain(|_| true);

    assert_eq!(a.clone().into_vec(), [100, 20, 50, 1, 10, 30]);

    a.retain(|&x| x < 50);

    assert_eq!(a.clone().into_vec(), [30, 20, 10, 1]);

    a.retain(|_| false);

    assert!(a.is_empty());
}

#[test]
fn min_comparator_pops_smallest_first() {
    let mut heap = BinaryHeap::<u64, MinComparator>::from_vec(vec![7, 3, 9, 1]);
    assert_eq!(heap.pop(), Some(1));
    assert_eq!(heap.pop(), Some(3));
    assert_eq!(heap.pop(), Some(7));
    assert_eq!(heap.pop(), Some(9));
    assert_eq!(heap.pop(), None);
}

#[test]
fn capacity_and_reserve_keep_elements() {
    let mut heap = BinaryHeap::<i32, MaxComparator>::with_capacity(4);
    assert!(heap.capacity() >= 4);
    heap.push(2);
    heap.push(7);
    heap.reserve(10);
    heap.reserve_exact(3);
    assert!(heap.try_reserve(5).is_ok());
    assert!(heap.try_reserve_exact(5).is_ok());
    heap.shrink_to(1);
    heap.shrink_to_fit();
    assert!(heap.capacity() >= 2);
    assert_eq!(heap.as_slice(), &[7, 2]);
    heap.clear();
    assert!(heap.is_empty());
}

#[test]
fn test_extend_ref() {
    let mut a = BinaryHeap::<_, MaxComparator>::new();
    a.push(1);
    a.push(2);

    a.extend([3, 4, 5].to_vec());

    assert_eq!(a.len(), 5);
    assert_eq!(a.into_sorted_vec(), [1, 2, 3, 4, 5]);

    let mut a = BinaryHeap::<_, MaxComparator>::new();
    a.push(1);
    a.push(2);
    let mut b = BinaryHeap::<_, MaxComparator>::new();
    b.push(3);
    b.push(4);
    b.push(5);

    a.extend(b.clone().into_vec());

    assert_eq!(a.len(), 5);
    assert_eq!(a.into_sorted_vec(), [1, 2, 3, 4, 5]);
}

#[test]
fn test_extend_specialization() {
    let mut a = BinaryHeap::<_, MaxComparator>::from_vec(vec![-10, 1, 2, 3, 3]);
    let b = BinaryHeap::<_, MaxComparator>::from_vec(vec![-20, 5, 43]);

    a.extend(b.into_vec());

    assert_eq!(a.into_sorted_vec(), [-20, -10, 1, 2, 3, 3, 5, 43]);
}

#[test]
fn closure_orders_the_heap() {
    let mut heap = BinaryHeap::new_by(FnComparator(|a: &(u32, char), b: &(u32, char)| b.0.cmp(&a.0)));
    heap.push((5, 'e'));
    heap.push((1, 'a'));
    heap.push((3, 'c'));
    assert_eq!(heap.peek(), Some(&(1, 'a')));
    assert_eq!(heap.pop(), Some((1, 'a')));
    assert_eq!(heap.pop(), Some((3, 'c')));
    assert_eq!(heap.pop(), Some((5, 'e')));
    assert_eq!(heap.pop(), None);
}
