use collections_rust::Queue;

#[test]
fn queue_basics() {
    let mut queue = Queue::new();

    // Check empty list behaves right
    assert_eq!(queue.len(), 0);
    assert_eq!(queue.pop(), None);

    // Populate list
    queue.append(1);
    queue.append(2);
    queue.append(3);
    assert_eq!(queue.len(), 3);

    // Check normal removal
    assert_eq!(queue.pop(), Some(1));
    assert_eq!(queue.pop(), Some(2));
    assert_eq!(queue.len(), 1);

    // append some more just to make sure nothing's corrupted
    queue.append(4);
    queue.append(5);
    assert_eq!(queue.len(), 3);

    // Check normal removal
    assert_eq!(queue.pop(), Some(3));
    assert_eq!(queue.pop(), Some(4));
    assert_eq!(queue.len(), 1);

    // Check exhaustion
    assert_eq!(queue.pop(), Some(5));
    assert_eq!(queue.pop(), None);
    assert_eq!(queue.len(), 0);

    // Check the exhaustion case fixed the pointer right
    queue.append(6);
    queue.append(7);
    assert_eq!(queue.len(), 2);

    // Check normal removal
    assert_eq!(queue.pop(), Some(6));
    assert_eq!(queue.pop(), Some(7));
    assert_eq!(queue.pop(), None);
    assert_eq!(queue.len(), 0);
}

#[test]
fn into_iter() {
    let mut queue = Queue::new();
    queue.append(1);
    queue.append(2);
    queue.append(3);

    let mut iter = queue.into_iter();
    assert_eq!(iter.next(), Some(1));
    assert_eq!(iter.next(), Some(2));
    assert_eq!(iter.next(), Some(3));
    assert_eq!(iter.next(), None);
}

#[test]
fn iter() {
    let mut queue = Queue::new();
    queue.append(1);
    queue.append(2);
    queue.append(3);

    let mut iter = queue.iter();
    assert_eq!(iter.next(), Some(&1));
    assert_eq!(iter.next(), Some(&2));
    assert_eq!(iter.next(), Some(&3));
    assert_eq!(iter.next(), None);
}

#[test]
fn iter_mut() {
    let mut queue = Queue::new();
    queue.append(1);
    queue.append(2);
    queue.append(3);

    let mut iter = queue.iter_mut();
    assert_eq!(iter.next(), Some(&mut 1));
    assert_eq!(iter.next(), Some(&mut 2));
    assert_eq!(iter.next(), Some(&mut 3));
    assert_eq!(iter.next(), None);
}

#[test]
fn miri_food() {
    let mut queue = Queue::new();

    queue.append(1);
    queue.append(2);
    queue.append(3);

    assert!(queue.pop() == Some(1));
    queue.append(4);
    assert!(queue.pop() == Some(2));
    queue.append(5);

    assert!(queue.peek() == Some(&3));
    queue.append(6);
    queue.peek_mut().map(|x| *x *= 10);
    assert!(queue.peek() == Some(&30));
    assert!(queue.pop() == Some(30));

    let mut iter = queue.iter_mut();
    while let Some(elem) = iter.next() {
        *elem *= 100;
    }

    let mut iter = queue.iter();
    assert_eq!(iter.next(), Some(&400));
    assert_eq!(iter.next(), Some(&500));
    assert_eq!(iter.next(), Some(&600));
    assert_eq!(iter.next(), None);
    assert_eq!(iter.next(), None);

    assert!(queue.pop() == Some(400));
    queue.peek_mut().map(|x| *x *= 10);
    assert!(queue.peek() == Some(&5000));
    queue.append(7);

    // Drop it on the ground and let the dtor exercise itself
}

#[test]
fn queue_default_and_node() {
    let queue: Queue<i32> = Queue::default();
    assert!(queue.is_empty());
    assert_eq!(queue.peek(), None);

    let tail = collections_rust::queue::Node::new(2, None);
    let head = collections_rust::queue::Node::new(1, Some(Box::new(tail)));
    let _ = head;
}

#[test]
fn display() {
    let mut queue = Queue::<i32>::new();
    assert_eq!(queue.to_display_string(), "[]");

    queue.append(1);
    assert_eq!(queue.to_display_string(), "[1]");

    queue.append(2);
    assert_eq!(queue.to_display_string(), "[1, 2]");

    for i in 3..6 {
        queue.append(i);
    }

    assert_eq!(queue.to_display_string(), "[1, 2, 3, 4, 5]");
}

#[test]
fn display_negative_values() {
    let mut queue = Queue::<i32>::new();
    queue.append(-1);
    queue.append(0);
    queue.append(-205);
    assert_eq!(queue.to_display_string(), "[-1, 0, -205]");
}
