use collections_rust::Dequeue;

fn list_from<T: Clone>(v: &[T]) -> Dequeue<T> {
    let mut list = Dequeue::new();
    for x in v.iter() {
        list.push_back(x.clone());
    }
    list
}

fn generate_test() -> Dequeue<i32> {
    list_from(&[0, 1, 2, 3, 4, 5, 6])
}

fn to_vec<T: Clone>(list: &Dequeue<T>) -> Vec<T> {
    let mut out = Vec::new();
    let mut it = list.iter();
    while let Some(x) = it.next() {
        out.push(x.clone());
    }
    out
}

fn check_links<T: Eq + Clone + std::fmt::Debug>(list: &Dequeue<T>) {
    let mut from_front: Vec<T> = Vec::new();
    let mut it = list.iter();
    while let Some(x) = it.next() {
        from_front.push(x.clone());
    }
    let mut from_back: Vec<T> = Vec::new();
    let mut it = list.iter();
    while let Some(x) = it.next_back() {
        from_back.push(x.clone());
    }
    let mut re_reved: Vec<T> = from_back;
    re_reved.reverse();
    assert_eq!(from_front, re_reved);
}

#[test]
fn test_basic_front() {
    let mut list = Dequeue::new();

    // Try to break an empty list
    assert_eq!(list.len(), 0);
    assert_eq!(list.pop_front(), None);
    assert_eq!(list.len(), 0);

    // Try to break a one item list
    list.push_front(10);
    assert_eq!(list.len(), 1);
    assert_eq!(list.pop_front(), Some(10));
    assert_eq!(list.len(), 0);
    assert_eq!(list.pop_front(), None);
    assert_eq!(list.len(), 0);

    // Mess around
    list.push_front(10);
    assert_eq!(list.len(), 1);
    list.push_front(20);
    assert_eq!(list.len(), 2);
    list.push_front(30);
    assert_eq!(list.len(), 3);
    assert_eq!(list.pop_front(), Some(30));
    assert_eq!(list.len(), 2);
    list.push_front(40);
    assert_eq!(list.len(), 3);
    assert_eq!(list.pop_front(), Some(40));
    assert_eq!(list.len(), 2);
    assert_eq!(list.pop_front(), Some(20));
    assert_eq!(list.len(), 1);
    assert_eq!(list.pop_front(), Some(10));
    assert_eq!(list.len(), 0);
    assert_eq!(list.pop_front(), None);
    assert_eq!(list.len(), 0);
    assert_eq!(list.pop_front(), None);
    assert_eq!(list.len(), 0);
}

#[test]
fn test_basic() {
    let mut m = Dequeue::new();
    assert_eq!(m.pop_front(), None);
    assert_eq!(m.pop_back(), None);
    assert_eq!(m.pop_front(), None);
    m.push_front(1);
    assert_eq!(m.pop_front(), Some(1));
    m.push_back(2);
    m.push_back(3);
    assert_eq!(m.len(), 2);
    assert_eq!(m.pop_front(), Some(2));
    assert_eq!(m.pop_front(), Some(3));
    assert_eq!(m.len(), 0);
    assert_eq!(m.pop_front(), None);
    m.push_back(1);
    m.push_back(3);
    m.push_back(5);
    m.push_back(7);
    assert_eq!(m.pop_front(), Some(1));

    let mut n = Dequeue::new();
    n.push_front(2);
    n.push_front(3);
    {
        assert_eq!(n.front().unwrap(), &3);
        let x = n.front_mut().unwrap();
        assert_eq!(*x, 3);
        *x = 0;
    }
    {
        assert_eq!(n.back().unwrap(), &2);
        let y = n.back_mut().unwrap();
        assert_eq!(*y, 2);
        *y = 1;
    }
    assert_eq!(n.pop_front(), Some(0));
    assert_eq!(n.pop_front(), Some(1));
}

#[test]
fn test_iterator() {
    let m = generate_test();
    let mut it = m.iter();
    let mut i: i32 = 0;
    while let Some(elt) = it.next() {
        assert_eq!(i, *elt);
        i += 1;
    }
    let mut n = Dequeue::new();
    assert_eq!(n.iter().next(), None);
    n.push_front(4);
    let mut it = n.iter();
    assert_eq!(it.size_hint(), (1, Some(1)));
    assert_eq!(it.next().unwrap(), &4);
    assert_eq!(it.size_hint(), (0, Some(0)));
    assert_eq!(it.next(), None);
}

#[test]
fn test_iterator_double_end() {
    let mut n = Dequeue::new();
    assert_eq!(n.iter().next(), None);
    n.push_front(4);
    n.push_front(5);
    n.push_front(6);
    let mut it = n.iter();
    assert_eq!(it.size_hint(), (3, Some(3)));
    assert_eq!(it.next().unwrap(), &6);
    assert_eq!(it.size_hint(), (2, Some(2)));
    assert_eq!(it.next_back().unwrap(), &4);
    assert_eq!(it.size_hint(), (1, Some(1)));
    assert_eq!(it.next_back().unwrap(), &5);
    assert_eq!(it.next_back(), None);
    assert_eq!(it.next(), None);
}

#[test]
fn test_rev_iter() {
    let m = generate_test();
    let mut it = m.iter();
    let mut i: i32 = 0;
    while let Some(elt) = it.next_back() {
        assert_eq!(6 - i, *elt);
        i += 1;
    }
    let mut n = Dequeue::new();
    assert_eq!(n.iter().next_back(), None);
    n.push_front(4);
    let mut it = n.iter();
    assert_eq!(it.size_hint(), (1, Some(1)));
    assert_eq!(it.next_back().unwrap(), &4);
    assert_eq!(it.size_hint(), (0, Some(0)));
    assert_eq!(it.next_back(), None);
}

#[test]
fn test_mut_iter() {
    let mut m = generate_test();
    let mut len = m.len();
    let mut it = m.iter_mut();
    let mut i: i32 = 0;
    while let Some(elt) = it.next() {
        assert_eq!(i, *elt);
        i += 1;
        len -= 1;
    }
    assert_eq!(len, 0);
    let mut n = Dequeue::new();
    assert!(n.iter_mut().next().is_none());
    n.push_front(4);
    n.push_back(5);
    let mut it = n.iter_mut();
    assert_eq!(it.size_hint(), (2, Some(2)));
    assert!(it.next().is_some());
    assert!(it.next().is_some());
    assert_eq!(it.size_hint(), (0, Some(0)));
    assert!(it.next().is_none());
}

#[test]
fn test_iterator_mut_double_end() {
    let mut n = Dequeue::new();
    assert!(n.iter_mut().next_back().is_none());
    n.push_front(4);
    n.push_front(5);
    n.push_front(6);
    let mut it = n.iter_mut();
    assert_eq!(it.size_hint(), (3, Some(3)));
    assert_eq!(*it.next().unwrap(), 6);
    assert_eq!(it.size_hint(), (2, Some(2)));
    assert_eq!(*it.next_back().unwrap(), 4);
    assert_eq!(it.size_hint(), (1, Some(1)));
    assert_eq!(*it.next_back().unwrap(), 5);
    assert!(it.next_back().is_none());
    assert!(it.next().is_none());
}

#[test]
fn test_mut_iter_writes_back() {
    let mut m = generate_test();
    let mut it = m.iter_mut();
    while let Some(elt) = it.next() {
        *elt *= 10;
    }
    assert_eq!(to_vec(&m), vec![0, 10, 20, 30, 40, 50, 60]);
}

#[test]
fn test_eq() {
    let mut n: Dequeue<u8> = list_from(&[]);
    let mut m = list_from(&[]);
    assert!(n == m);
    n.push_front(1);
    assert!(n != m);
    m.push_back(1);
    assert!(n == m);

    let n = list_from(&[2, 3, 4]);
    let m = list_from(&[1, 2, 3]);
    assert!(n != m);
}

#[test]
fn test_ord() {
    let n = list_from(&[]);
    let m = list_from(&[1, 2, 3]);
    assert!(n < m);
    assert!(m > n);
    assert!(n <= n);
    assert!(n >= n);
}

#[test]
fn test_ord_nan() {
    let nan = 0.0f64 / 0.0;
    let n = list_from(&[nan]);
    let m = list_from(&[nan]);
    assert!(!(n < m));
    assert!(!(n > m));
    assert!(!(n <= m));
    assert!(!(n >= m));

    let n = list_from(&[nan]);
    let one = list_from(&[1.0f64]);
    assert!(!(n < one));
    assert!(!(n > one));
    assert!(!(n <= one));
    assert!(!(n >= one));

    let u = list_from(&[1.0f64, 2.0, nan]);
    let v = list_from(&[1.0f64, 2.0, 3.0]);
    assert!(!(u < v));
    assert!(!(u > v));
    assert!(!(u <= v));
    assert!(!(u >= v));

    let s = list_from(&[1.0f64, 2.0, 4.0, 2.0]);
    let t = list_from(&[1.0f64, 2.0, 3.0, 2.0]);
    assert!(!(s < t));
    assert!(s > one);
    assert!(!(s <= one));
    assert!(s >= one);
}

#[test]
fn test_hashmap() {
    // Check that HashMap works with this as a key

    let mut list1: Dequeue<i32> = Dequeue::new();
    for i in 0..10 {
        list1.push_back(i);
    }
    let mut list2: Dequeue<i32> = Dequeue::new();
    for i in 1..11 {
        list2.push_back(i);
    }
    let mut map = std::collections::HashMap::new();

    assert_eq!(map.insert(list1.clone(), "list1"), None);
    assert_eq!(map.insert(list2.clone(), "list2"), None);

    assert_eq!(map.len(), 2);

    assert_eq!(map.get(&list1), Some(&"list1"));
    assert_eq!(map.get(&list2), Some(&"list2"));

    assert_eq!(map.remove(&list1), Some("list1"));
    assert_eq!(map.remove(&list2), Some("list2"));

    assert!(map.is_empty());
}

#[test]
fn test_clear_and_default() {
    let mut m: Dequeue<i32> = Dequeue::default();
    assert_eq!(m.len(), 0);
    assert!(m.is_empty());
    m.push_back(1);
    m.push_back(2);
    assert!(!m.is_empty());
    m.clear();
    assert_eq!(m.len(), 0);
    assert_eq!(m.pop_front(), None);
}

#[test]
fn test_into_iter_both_ends() {
    let m = list_from(&[1, 2, 3, 4]);
    let mut it = m.into_iter();
    assert_eq!(it.size_hint(), (4, Some(4)));
    assert_eq!(it.len(), 4);
    assert_eq!(it.next(), Some(1));
    assert_eq!(it.next_back(), Some(4));
    assert_eq!(it.next(), Some(2));
    assert_eq!(it.next_back(), Some(3));
    assert_eq!(it.next(), None);
    assert_eq!(it.next_back(), None);
}

#[test]
fn test_fifo_order() {
    let mut m = Dequeue::new();
    let pushed = [5, 9, 2, 7, 1];
    for v in pushed.iter() {
        m.push_back(*v);
    }
    let mut popped = Vec::new();
    while let Some(v) = m.pop_front() {
        popped.push(v);
    }
    assert_eq!(popped, pushed.to_vec());
}

#[test]
fn test_lifo_order() {
    let mut m = Dequeue::new();
    let pushed = [5, 9, 2, 7, 1];
    for v in pushed.iter() {
        m.push_front(*v);
    }
    let mut popped = Vec::new();
    while let Some(v) = m.pop_front() {
        popped.push(v);
    }
    let mut reversed = pushed.to_vec();
    reversed.reverse();
    assert_eq!(popped, reversed);
}

#[test]
fn test_len_counts_pushes_minus_pops() {
    let mut m = Dequeue::new();
    m.push_back(1);
    m.push_back(2);
    m.push_front(3);
    assert_eq!(m.len(), 3);
    m.pop_back();
    assert_eq!(m.len(), 2);
    m.pop_front();
    m.pop_front();
    assert_eq!(m.len(), 0);
    // a pop on an empty queue returns nothing and leaves the length alone
    assert_eq!(m.pop_front(), None);
    assert_eq!(m.len(), 0);
    assert_eq!(m.pop_back(), None);
    assert_eq!(m.len(), 0);
}

#[test]
fn test_forward_backward_agree() {
    check_links(&generate_test());
    check_links(&list_from::<i32>(&[]));
    check_links(&list_from(&[42]));
}

#[test]
fn test_debug() {
    let mut list: Dequeue<i32> = Dequeue::new();
    for i in 0..10 {
        list.push_back(i);
    }
    assert_eq!(list.to_debug_string(), "[0, 1, 2, 3, 4, 5, 6, 7, 8, 9]");

    let mut list: Dequeue<&str> = Dequeue::new();
    for s in ["just", "one", "test", "more"] {
        list.push_back(s);
    }
    assert_eq!(list.to_debug_string(), r#"["just", "one", "test", "more"]"#);
}
