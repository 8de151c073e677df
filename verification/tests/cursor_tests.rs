use collections_rust::Dequeue;

fn extend_from(m: &mut Dequeue<u32>, values: &[u32]) {
    for v in values.iter() {
        m.push_back(*v);
    }
}

fn collect_by_ref(m: &Dequeue<u32>) -> Vec<u32> {
    let mut out = Vec::new();
    let mut it = m.iter();
    while let Some(x) = it.next() {
        out.push(*x);
    }
    out
}

fn collect_owned(m: Dequeue<u32>) -> Vec<u32> {
    let mut out = Vec::new();
    let mut it = m.into_iter();
    while let Some(x) = it.next() {
        out.push(x);
    }
    out
}

fn singleton(v: u32) -> Dequeue<u32> {
    let mut d = Dequeue::new();
    d.push_back(v);
    d
}

fn check_links(list: &Dequeue<u32>) {
    let from_front = collect_by_ref(list);
    let mut from_back = Vec::new();
    let mut it = list.iter();
    while let Some(x) = it.next_back() {
        from_back.push(*x);
    }
    let mut re_reved = from_back;
    re_reved.reverse();
    assert_eq!(from_front, re_reved);
}

#[test]
fn test_cursor_move_peek() {
    let mut m: Dequeue<u32> = Dequeue::new();
    extend_from(&mut m, &[1, 2, 3, 4, 5, 6]);
    let mut cursor = m.cursor_mut();
    cursor.move_next();
    assert_eq!(cursor.current(), Some(&mut 1));
    assert_eq!(cursor.peek_next(), Some(&mut 2));
    assert_eq!(cursor.peek_prev(), None);
    assert_eq!(cursor.index(), Some(0));
    cursor.move_prev();
    assert_eq!(cursor.current(), None);
    assert_eq!(cursor.peek_next(), Some(&mut 1));
    assert_eq!(cursor.peek_prev(), Some(&mut 6));
    assert_eq!(cursor.index(), None);
    cursor.move_next();
    cursor.move_next();
    assert_eq!(cursor.current(), Some(&mut 2));
    assert_eq!(cursor.peek_next(), Some(&mut 3));
    assert_eq!(cursor.peek_prev(), Some(&mut 1));
    assert_eq!(cursor.index(), Some(1));

    let mut cursor = m.cursor_mut();
    cursor.move_prev();
    assert_eq!(cursor.current(), Some(&mut 6));
    assert_eq!(cursor.peek_next(), None);
    assert_eq!(cursor.peek_prev(), Some(&mut 5));
    assert_eq!(cursor.index(), Some(5));
    cursor.move_next();
    assert_eq!(cursor.current(), None);
    assert_eq!(cursor.peek_next(), Some(&mut 1));
    assert_eq!(cursor.peek_prev(), Some(&mut 6));
    assert_eq!(cursor.index(), None);
    cursor.move_prev();
    cursor.move_prev();
    assert_eq!(cursor.current(), Some(&mut 5));
    assert_eq!(cursor.peek_next(), Some(&mut 6));
    assert_eq!(cursor.peek_prev(), Some(&mut 4));
    assert_eq!(cursor.index(), Some(4));
}

#[test]
fn test_cursor_mut_insert() {
    let mut m: Dequeue<u32> = Dequeue::new();
    extend_from(&mut m, &[1, 2, 3, 4, 5, 6]);
    let mut cursor = m.cursor_mut();
    cursor.move_next();
    cursor.splice_before(singleton(7));
    cursor.splice_after(singleton(8));
    assert_eq!(collect_by_ref(&m), &[7, 1, 8, 2, 3, 4, 5, 6]);
    let mut cursor = m.cursor_mut();
    cursor.move_next();
    cursor.move_prev();
    cursor.splice_before(singleton(9));
    cursor.splice_after(singleton(10));
    check_links(&m);
    assert_eq!(collect_by_ref(&m), &[10, 7, 1, 8, 2, 3, 4, 5, 6, 9]);

    let mut m: Dequeue<u32> = Dequeue::new();
    extend_from(&mut m, &[1, 8, 2, 3, 4, 5, 6]);

    let mut cursor = m.cursor_mut();
    cursor.move_next();
    let mut p: Dequeue<u32> = Dequeue::new();
    extend_from(&mut p, &[100, 101, 102, 103]);
    let mut q: Dequeue<u32> = Dequeue::new();
    extend_from(&mut q, &[200, 201, 202, 203]);
    cursor.splice_after(p);
    cursor.splice_before(q);
    check_links(&m);
    assert_eq!(
        collect_by_ref(&m),
        &[200, 201, 202, 203, 1, 100, 101, 102, 103, 8, 2, 3, 4, 5, 6]
    );
    let mut cursor = m.cursor_mut();
    cursor.move_next();
    cursor.move_prev();
    let tmp = cursor.split_before();
    assert_eq!(collect_owned(m), &[]);
    let mut m = tmp;
    let mut cursor = m.cursor_mut();
    cursor.move_next();
    cursor.move_next();
    cursor.move_next();
    cursor.move_next();
    cursor.move_next();
    cursor.move_next();
    cursor.move_next();
    let tmp = cursor.split_after();
    assert_eq!(collect_owned(tmp), &[102, 103, 8, 2, 3, 4, 5, 6]);
    check_links(&m);
    assert_eq!(collect_by_ref(&m), &[200, 201, 202, 203, 1, 100, 101]);
}

#[test]
fn test_cursor_splice_into_empty() {
    let mut m: Dequeue<u32> = Dequeue::new();
    let mut cursor = m.cursor_mut();
    cursor.splice_before(singleton(1));
    assert_eq!(cursor.index(), None);
    drop(cursor);
    assert_eq!(collect_by_ref(&m), &[1]);

    let mut n: Dequeue<u32> = Dequeue::new();
    let mut cursor = n.cursor_mut();
    let mut other = Dequeue::new();
    extend_from(&mut other, &[2, 3]);
    cursor.splice_after(other);
    drop(cursor);
    assert_eq!(collect_by_ref(&n), &[2, 3]);
}

#[test]
fn test_cursor_splice_empty_input() {
    let mut m: Dequeue<u32> = Dequeue::new();
    extend_from(&mut m, &[1, 2]);
    let mut cursor = m.cursor_mut();
    cursor.move_next();
    cursor.splice_before(Dequeue::new());
    cursor.splice_after(Dequeue::new());
    assert_eq!(cursor.index(), Some(0));
    drop(cursor);
    assert_eq!(collect_by_ref(&m), &[1, 2]);
}

#[test]
fn test_cursor_split_at_ghost() {
    let mut m: Dequeue<u32> = Dequeue::new();
    extend_from(&mut m, &[1, 2, 3]);
    let mut cursor = m.cursor_mut();
    let out = cursor.split_after();
    assert_eq!(cursor.index(), None);
    drop(cursor);
    assert_eq!(collect_by_ref(&m), &[]);
    assert_eq!(collect_owned(out), &[1, 2, 3]);
}
