use collections_rust::BinaryTree;
use collections_rust::Tree;

fn tree_values() -> Vec<i32> {
    vec![20, 10, 30, 5, 15, 16, 14, 25, 21, 35, 40, 50]
}

#[test]
fn test_insert() {
    let numbers = tree_values();

    let mut tree = BinaryTree::new();

    tree.insert(numbers[0]);
    assert!(tree.contains(&numbers[0]));

    tree.insert(numbers[1]);
    assert!(tree.contains(&numbers[1]));

    tree.insert(numbers[2]);
    assert!(tree.contains(&numbers[2]));

    assert_eq!(tree.size(), 3);

    for n in &numbers[3..] {
        tree.insert(*n);
    }

    for n in &numbers {
        assert!(tree.contains(n));
    }

    assert_eq!(tree.size(), numbers.len());
}

#[test]
fn test_remove() {
    let numbers = tree_values();

    let mut tree = BinaryTree::new();

    for n in &numbers {
        tree.insert(*n);
    }

    // Node with no children
    tree.remove(&50);
    assert!(!tree.contains(&50));

    // Node with one child to the right
    tree.remove(&35);
    assert!(!tree.contains(&35));
    assert!(tree.contains(&40));

    // Node with one child to the left
    tree.remove(&25);
    assert!(!tree.contains(&25));
    assert!(tree.contains(&21));

    // Node with two children
    tree.remove(&10);
    assert!(!tree.contains(&10));
    assert!(tree.contains(&5));
    assert!(tree.contains(&15));

    // Root
    tree.remove(&20);
    assert!(!tree.contains(&20));

    // Check remaining values
    assert!(tree.contains(&40));
    assert!(tree.contains(&21));
    assert!(tree.contains(&30));
    assert!(tree.contains(&5));
    assert!(tree.contains(&15));
    assert!(tree.contains(&14));
    assert!(tree.contains(&16));
}

#[test]
fn test_iter() {
    let mut values = tree_values();

    let mut tree = BinaryTree::new();

    for value in values.iter() {
        tree.insert(*value);
    }

    let mut iter = tree.iter();

    values.sort();

    for value in values.iter() {
        let tree_value = iter.next();
        assert!(tree_value.is_some());
        assert_eq!(value, tree_value.unwrap());
    }

    assert!(iter.next().is_none());
}

#[test]
fn test_insert_duplicate() {
    let mut tree = BinaryTree::new();
    assert!(tree.insert(7));
    assert!(!tree.insert(7));
    assert_eq!(tree.size(), 1);
    assert!(tree.insert(3));
    assert_eq!(tree.size(), 2);
}

#[test]
fn test_remove_missing() {
    let mut tree = BinaryTree::new();
    tree.insert(1);
    assert!(!tree.remove(&2));
    assert_eq!(tree.size(), 1);
    assert!(tree.remove(&1));
    assert_eq!(tree.size(), 0);
    assert!(tree.is_empty());
    assert!(!tree.remove(&1));
}

#[test]
fn test_iter_size_hint() {
    let mut tree = BinaryTree::new();
    tree.insert(2);
    tree.insert(1);
    tree.insert(3);
    let mut iter = tree.iter();
    assert_eq!(iter.size_hint(), (3, Some(3)));
    assert_eq!(iter.next(), Some(&1));
    assert_eq!(iter.size_hint(), (2, Some(2)));
    assert_eq!(iter.next(), Some(&2));
    assert_eq!(iter.next(), Some(&3));
    assert_eq!(iter.size_hint(), (0, Some(0)));
}

#[test]
fn test_size() {
    let mut tree = Tree::new();
    tree.insert(1);
    assert_eq!(tree.size(), 1);
    tree.insert(2);
    assert_eq!(tree.size(), 2);
    tree.insert(3);
    assert_eq!(tree.size(), 3);
}

#[test]
fn test_tree_insert_duplicate() {
    let mut tree = Tree::new();
    assert!(tree.insert(5));
    assert!(tree.insert(4));
    assert!(!tree.insert(5));
    assert_eq!(tree.size(), 2);
}
