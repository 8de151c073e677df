//! An ordered binary search tree holding each value at most once.
//!
//! The view of the tree is the set of its values; every operation states
//! how it changes that set, and the in-order traversal is proved to list
//! the set in strictly ascending order.

use vstd::prelude::*;
use vstd::laws_cmp::obeys_cmp;
use vstd::std_specs::cmp::{OrdSpec, PartialOrdSpec, PartialEqSpec};
use vstd::laws_eq::obeys_concrete_eq;
use core::cmp::Ordering;

verus! {

/// One node of the tree: a value and its two subtrees.
struct Node<T> {
    left: Option<Box<Node<T>>>,
    right: Option<Box<Node<T>>>,
    value: T,
}

/// An ordered binary search tree.
///
/// The view of a `BinaryTree` is the set of its values.
pub struct BinaryTree<T> {
    root: Option<Box<Node<T>>>,
    size: usize,
}

/// The set of values hanging off a subtree link.
spec fn link_set<T>(link: Option<Box<Node<T>>>) -> Set<T>
    decreases link,
{
    match link {
        None => Set::<T>::empty(),
        Some(node) => link_set(node.left).union(link_set(node.right)).insert(node.value),
    }
}

/// The values of a subtree link, listed in order: left subtree first, then
/// the node's own value, then the right subtree.
spec fn link_seq<T>(link: Option<Box<Node<T>>>) -> Seq<T>
    decreases link,
{
    match link {
        None => Seq::<T>::empty(),
        Some(node) => link_seq(node.left) + seq![node.value] + link_seq(node.right),
    }
}

/// The search-tree ordering: everything to the left of a node compares
/// below its value, everything to the right above it.
spec fn link_wf<T: Ord>(link: Option<Box<Node<T>>>) -> bool
    decreases link,
{
    match link {
        None => true,
        Some(node) => {
            &&& forall|e: T|
                #![trigger link_set(node.left).contains(e)]
                #![trigger e.cmp_spec(&node.value)]
                link_set(node.left).contains(e) ==> e.cmp_spec(&node.value) == Ordering::Less
            &&& forall|e: T|
                #![trigger link_set(node.right).contains(e)]
                #![trigger e.cmp_spec(&node.value)]
                link_set(node.right).contains(e) ==> e.cmp_spec(&node.value)
                    == Ordering::Greater
            &&& link_wf(node.left)
            &&& link_wf(node.right)
        },
    }
}

/// Every subtree holds finitely many values.
proof fn lemma_link_set_finite<T>(link: Option<Box<Node<T>>>)
    ensures
        link_set(link).finite(),
    decreases link,
{
    broadcast use vstd::set::group_set_axioms;

    if let Some(node) = link {
        lemma_link_set_finite(node.left);
        lemma_link_set_finite(node.right);
    }
}

/// The consequences of a lawful `Ord` implementation that the search-tree
/// proofs lean on: three-way comparison agrees with equality, is
/// antisymmetric, and is transitive.
proof fn total_order_facts<T: Ord>()
    requires
        obeys_cmp::<T>(),
        obeys_concrete_eq::<T>(),
    ensures
        forall|x: T, y: T| #[trigger] x.cmp_spec(&y) == Ordering::Equal <==> x == y,
        forall|x: T, y: T| #[trigger] x.cmp_spec(&y) == Ordering::Less <==> y.cmp_spec(&x)
            == Ordering::Greater,
        forall|x: T, y: T, z: T|
            x.cmp_spec(&y) == Ordering::Less && #[trigger] y.cmp_spec(&z) == Ordering::Less
                ==> #[trigger] x.cmp_spec(&z) == Ordering::Less,
        T::obeys_cmp_spec(),
{
    reveal(vstd::laws_cmp::obeys_cmp_ord);
    reveal(vstd::laws_cmp::obeys_cmp_partial_ord);
    reveal(vstd::laws_cmp::obeys_partial_cmp_spec_properties);
    reveal(vstd::laws_eq::obeys_concrete_eq);
    assert forall|x: T, y: T| #[trigger] x.cmp_spec(&y) == Ordering::Equal <==> x == y by {
        assert(x.partial_cmp_spec(&y) == Some(x.cmp_spec(&y)));
        assert(x.partial_cmp_spec(&y) == Some(Ordering::Equal) <==> x.eq_spec(&y));
    }
    assert forall|x: T, y: T| #[trigger] x.cmp_spec(&y) == Ordering::Less <==> y.cmp_spec(&x)
        == Ordering::Greater by {
        assert(x.partial_cmp_spec(&y) == Some(x.cmp_spec(&y)));
        assert(y.partial_cmp_spec(&x) == Some(y.cmp_spec(&x)));
    }
    assert forall|x: T, y: T, z: T|
        x.cmp_spec(&y) == Ordering::Less && #[trigger] y.cmp_spec(&z) == Ordering::Less implies #[trigger] x.cmp_spec(
        &z,
    ) == Ordering::Less by {
        assert(x.partial_cmp_spec(&y) == Some(x.cmp_spec(&y)));
        assert(y.partial_cmp_spec(&z) == Some(y.cmp_spec(&z)));
        assert(x.partial_cmp_spec(&z) == Some(x.cmp_spec(&z)));
    }
}

/// Adds `value` to the subtree unless it is already there; reports whether
/// it was added.
fn insert_recursively<T: Ord>(link: &mut Option<Box<Node<T>>>, value: T) -> (added: bool)
    requires
        obeys_cmp::<T>(),
        obeys_concrete_eq::<T>(),
        link_wf(*old(link)),
    ensures
        link_wf(*final(link)),
        link_set(*final(link)) == link_set(*old(link)).insert(value),
        added == !link_set(*old(link)).contains(value),
    decreases *old(link),
{
    broadcast use vstd::set::group_set_axioms;

    proof {
        total_order_facts::<T>();
    }
    match link.take() {
        None => {
            *link = Some(Box::new(Node { left: None, right: None, value }));
            proof {
                assert(link_set(*final(link)) =~= link_set(*old(link)).insert(value));
            }
            true
        },
        Some(mut node) => {
            let added = match value.cmp(&node.value) {
                Ordering::Equal => false,
                Ordering::Less => insert_recursively(&mut node.left, value),
                Ordering::Greater => insert_recursively(&mut node.right, value),
            };
            *link = Some(node);
            proof {
                assert(link_set(*final(link)) =~= link_set(*old(link)).insert(value));
            }
            added
        },
    }
}

/// Reports whether `value` occurs in the subtree.
fn search<T: Ord>(link: &Option<Box<Node<T>>>, value: &T) -> (found: bool)
    requires
        obeys_cmp::<T>(),
        obeys_concrete_eq::<T>(),
        link_wf(*link),
    ensures
        found == link_set(*link).contains(*value),
    decreases *link,
{
    broadcast use vstd::set::group_set_axioms;

    proof {
        total_order_facts::<T>();
    }
    match link {
        None => false,
        Some(node) => match value.cmp(&node.value) {
            Ordering::Equal => true,
            Ordering::Less => search(&node.left, value),
            Ordering::Greater => search(&node.right, value),
        },
    }
}

/// Removes and returns the smallest value of a non-empty subtree.
fn remove_min<T: Ord>(link: &mut Option<Box<Node<T>>>) -> (m: T)
    requires
        obeys_cmp::<T>(),
        obeys_concrete_eq::<T>(),
        old(link).is_some(),
        link_wf(*old(link)),
    ensures
        link_wf(*final(link)),
        link_set(*old(link)).contains(m),
        link_set(*final(link)) == link_set(*old(link)).remove(m),
        forall|e: T|
            link_set(*old(link)).contains(e) && e != m ==> #[trigger] m.cmp_spec(&e)
                == Ordering::Less,
    decreases *old(link),
{
    broadcast use vstd::set::group_set_axioms;

    proof {
        total_order_facts::<T>();
    }
    let mut boxed = link.take().unwrap();
    if boxed.left.is_none() {
        let node = *boxed;
        *link = node.right;
        proof {
            assert(link_set(node.left) =~= Set::<T>::empty());
            assert(link_set(*final(link)) =~= link_set(*old(link)).remove(node.value));
        }
        node.value
    } else {
        let m = remove_min(&mut boxed.left);
        *link = Some(boxed);
        proof {
            assert(link_set(*final(link)) =~= link_set(*old(link)).remove(m));
        }
        m
    }
}

/// Removes `value` from the subtree if it is there; reports whether it was.
/// A node with two subtrees is replaced by its in-order successor, the
/// smallest value of its right subtree.
fn remove_recursively<T: Ord>(link: &mut Option<Box<Node<T>>>, value: &T) -> (removed: bool)
    requires
        obeys_cmp::<T>(),
        obeys_concrete_eq::<T>(),
        link_wf(*old(link)),
    ensures
        link_wf(*final(link)),
        link_set(*final(link)) == link_set(*old(link)).remove(*value),
        removed == link_set(*old(link)).contains(*value),
    decreases *old(link),
{
    broadcast use vstd::set::group_set_axioms;

    proof {
        total_order_facts::<T>();
    }
    match link.take() {
        None => {
            proof {
                assert(link_set(*final(link)) =~= link_set(*old(link)).remove(*value));
            }
            false
        },
        Some(mut node) => {
            match value.cmp(&node.value) {
                Ordering::Less => {
                    let removed = remove_recursively(&mut node.left, value);
                    *link = Some(node);
                    proof {
                        assert(link_set(*final(link)) =~= link_set(*old(link)).remove(*value));
                    }
                    removed
                },
                Ordering::Greater => {
                    let removed = remove_recursively(&mut node.right, value);
                    *link = Some(node);
                    proof {
                        assert(link_set(*final(link)) =~= link_set(*old(link)).remove(*value));
                    }
                    removed
                },
                Ordering::Equal => {
                    if node.left.is_none() {
                        proof {
                            assert(link_set(node.left) =~= Set::<T>::empty());
                        }
                        *link = node.right;
                        proof {
                            assert(link_set(*final(link)) =~= link_set(*old(link)).remove(
                                *value,
                            ));
                        }
                    } else if node.right.is_none() {
                        proof {
                            assert(link_set(node.right) =~= Set::<T>::empty());
                        }
                        *link = node.left;
                        proof {
                            assert(link_set(*final(link)) =~= link_set(*old(link)).remove(
                                *value,
                            ));
                        }
                    } else {
                        let m = remove_min(&mut node.right);
                        node.value = m;
                        *link = Some(node);
                        proof {
                            assert(link_set(*final(link)) =~= link_set(*old(link)).remove(
                                *value,
                            ));
                        }
                    }
                    true
                },
            }
        },
    }
}

impl<T: Ord> BinaryTree<T> {
    /// A tree is well formed when it keeps the search ordering and its size
    /// counter agrees with how many values it holds.
    pub closed spec fn wf(self) -> bool {
        &&& link_wf(self.root)
        &&& self.size == link_set(self.root).len()
    }

    /// Creates an empty tree.
    pub fn new() -> (t: Self)
        ensures
            t.wf(),
            t@ == Set::<T>::empty(),
    {
        BinaryTree { root: None, size: 0 }
    }

    /// Returns the number of values in the tree.
    pub fn size(&self) -> (n: usize)
        requires
            self.wf(),
        ensures
            n == self@.len(),
    {
        self.size
    }

    /// Returns `true` if the tree holds no values.
    pub fn is_empty(&self) -> (r: bool)
        requires
            self.wf(),
        ensures
            r == (self@.len() == 0),
    {
        self.size == 0
    }

    /// Adds `value` to the tree and returns `true` unless it is already
    /// present.
    pub fn insert(&mut self, value: T) -> (added: bool)
        requires
            obeys_cmp::<T>(),
            obeys_concrete_eq::<T>(),
            old(self).wf(),
            old(self)@.len() < usize::MAX,
        ensures
            final(self).wf(),
            final(self)@ == old(self)@.insert(value),
            added == !old(self)@.contains(value),
    {
        broadcast use vstd::set::group_set_axioms;

        proof {
            lemma_link_set_finite(self.root);
        }
        let added = insert_recursively(&mut self.root, value);
        if added {
            self.size = self.size + 1;
        }
        added
    }

    /// Removes `value` from the tree and returns `true` unless it was not
    /// present.
    pub fn remove(&mut self, value: &T) -> (removed: bool)
        requires
            obeys_cmp::<T>(),
            obeys_concrete_eq::<T>(),
            old(self).wf(),
        ensures
            final(self).wf(),
            final(self)@ == old(self)@.remove(*value),
            removed == old(self)@.contains(*value),
    {
        broadcast use vstd::set::group_set_axioms;

        proof {
            lemma_link_set_finite(self.root);
        }
        let removed = remove_recursively(&mut self.root, value);
        if removed {
            self.size = self.size - 1;
        }
        removed
    }

    /// Returns `true` if `value` is present in the tree.
    pub fn contains(&self, value: &T) -> (found: bool)
        requires
            obeys_cmp::<T>(),
            obeys_concrete_eq::<T>(),
            self.wf(),
        ensures
            found == self@.contains(*value),
    {
        search(&self.root, value)
    }
}

impl<T> View for BinaryTree<T> {
    type V = Set<T>;

    closed spec fn view(&self) -> Set<T> {
        link_set(self.root)
    }
}

/// The values a sequence of references points at.
spec fn derefs<T>(s: Seq<&T>) -> Seq<T> {
    s.map_values(|r: &T| *r)
}

/// In a well-formed subtree, the in-order listing holds exactly the
/// subtree's values, each once, in strictly ascending order.
proof fn lemma_link_seq_props<T: Ord>(link: Option<Box<Node<T>>>)
    requires
        obeys_cmp::<T>(),
        obeys_concrete_eq::<T>(),
        link_wf(link),
    ensures
        link_seq(link).to_set() == link_set(link),
        link_seq(link).len() == link_set(link).len(),
        forall|i: int, j: int|
            0 <= i < j < link_seq(link).len() ==> #[trigger] link_seq(link)[i].cmp_spec(
                &link_seq(link)[j],
            ) == Ordering::Less,
    decreases link,
{
    broadcast use vstd::set::group_set_axioms;

    total_order_facts::<T>();
    match link {
        None => {
            assert(link_seq(link).to_set() =~= link_set(link));
            link_seq(link).unique_seq_to_set();
        },
        Some(node) => {
            lemma_link_seq_props(node.left);
            lemma_link_seq_props(node.right);
            let ls = link_seq(node.left);
            let rs = link_seq(node.right);
            let v = node.value;
            let s = link_seq(link);
            assert(s == ls + seq![v] + rs);
            assert forall|x: T| s.contains(x) implies link_set(link).contains(x) by {
                let i = choose|i: int| 0 <= i < s.len() && s[i] == x;
                if i < ls.len() {
                    assert(ls[i] == x);
                    assert(ls.contains(x));
                    assert(ls.to_set().contains(x));
                } else if i == ls.len() {
                    assert(x == v);
                } else {
                    assert(rs[i - ls.len() - 1] == x);
                    assert(rs.contains(x));
                    assert(rs.to_set().contains(x));
                }
            }
            assert forall|x: T| link_set(link).contains(x) implies s.contains(x) by {
                if link_set(node.left).contains(x) {
                    assert(ls.contains(x));
                    let i = choose|i: int| 0 <= i < ls.len() && ls[i] == x;
                    assert(s[i] == x);
                } else if link_set(node.right).contains(x) {
                    assert(rs.contains(x));
                    let i = choose|i: int| 0 <= i < rs.len() && rs[i] == x;
                    assert(s[ls.len() + 1 + i] == x);
                } else {
                    assert(x == v);
                    assert(s[ls.len() as int] == x);
                }
            }
            assert(s.to_set() =~= link_set(link));
            assert forall|i: int, j: int| 0 <= i < j < s.len() implies #[trigger] s[i].cmp_spec(
                &s[j],
            ) == Ordering::Less by {
                let m = ls.len() as int;
                if j < m {
                    assert(s[i] == ls[i] && s[j] == ls[j]);
                } else if i > m {
                    assert(s[i] == rs[i - m - 1] && s[j] == rs[j - m - 1]);
                } else {
                    if i < m {
                        assert(ls.contains(ls[i]));
                        assert(ls.to_set().contains(ls[i]));
                        assert(s[i].cmp_spec(&v) == Ordering::Less);
                    }
                    if j > m {
                        assert(rs.contains(rs[j - m - 1]));
                        assert(rs.to_set().contains(rs[j - m - 1]));
                        assert(s[j].cmp_spec(&v) == Ordering::Greater);
                        assert(v.cmp_spec(&s[j]) == Ordering::Less);
                    }
                    if i == m {
                        assert(s[i] == v);
                    }
                    if j == m {
                        assert(s[j] == v);
                    }
                }
            }
            assert(s.no_duplicates()) by {
                assert forall|i: int, j: int|
                    0 <= i < s.len() && 0 <= j < s.len() && i != j implies s[i] != s[j] by {
                    if i < j {
                        assert(s[i].cmp_spec(&s[j]) == Ordering::Less);
                    } else {
                        assert(s[j].cmp_spec(&s[i]) == Ordering::Less);
                    }
                }
            }
            s.unique_seq_to_set();
        },
    }
}

/// Fills `values` with references to the subtree's values, in order.
fn push_values_inorder<'a, T>(link: &'a Option<Box<Node<T>>>, values: &mut Vec<&'a T>)
    requires
        old(values)@.len() + link_seq(*link).len() <= usize::MAX,
    ensures
        derefs(final(values)@) == derefs(old(values)@) + link_seq(*link),
    decreases *link,
{
    match link {
        None => {
            proof {
                assert(derefs(final(values)@) =~= derefs(old(values)@) + link_seq(*link));
            }
        },
        Some(node) => {
            proof {
                assert(link_seq(*link) == link_seq(node.left) + seq![node.value] + link_seq(
                    node.right,
                ));
            }
            push_values_inorder(&node.left, values);
            let ghost mid1 = values@;
            values.push(&node.value);
            proof {
                assert(derefs(values@) =~= derefs(mid1) + seq![node.value]);
            }
            push_values_inorder(&node.right, values);
            proof {
                assert(derefs(final(values)@) =~= derefs(old(values)@) + link_seq(*link));
            }
        },
    }
}

impl<T: Ord> BinaryTree<T> {
    /// The values of the tree, listed in ascending order.
    pub closed spec fn inorder(self) -> Seq<T> {
        link_seq(self.root)
    }

    /// The in-order listing of a well-formed tree holds exactly the tree's
    /// values, each once, in strictly ascending three-way-comparison order.
    pub proof fn lemma_inorder(self)
        requires
            obeys_cmp::<T>(),
            obeys_concrete_eq::<T>(),
            self.wf(),
        ensures
            self.inorder().to_set() == self@,
            self.inorder().len() == self@.len(),
            forall|i: int, j: int|
                0 <= i < j < self.inorder().len() ==> #[trigger] self.inorder()[i].cmp_spec(
                    &self.inorder()[j],
                ) == Ordering::Less,
    {
        lemma_link_seq_props(self.root);
    }

    /// Returns an iterator over the tree's values in ascending order.
    pub fn iter(&self) -> (it: Iter<'_, T>)
        requires
            obeys_cmp::<T>(),
            obeys_concrete_eq::<T>(),
            self.wf(),
        ensures
            it.wf(),
            it.remaining() == self.inorder(),
    {
        proof {
            self.lemma_inorder();
        }
        let mut values: Vec<&T> = Vec::with_capacity(self.size);
        push_values_inorder(&self.root, &mut values);
        proof {
            assert(derefs(values@) =~= self.inorder());
        }
        Iter { values, current_index: 0 }
    }
}

/// An iterator over references to a [`BinaryTree`]'s values, in ascending
/// order.
pub struct Iter<'a, T> {
    values: Vec<&'a T>,
    current_index: usize,
}

impl<'a, T> Iter<'a, T> {
    /// The iterator is well formed when its position lies within the
    /// listing it walks.
    pub closed spec fn wf(self) -> bool {
        self.current_index <= self.values@.len()
    }

    /// The values the iterator has not yielded yet, in ascending order.
    pub closed spec fn remaining(self) -> Seq<T> {
        derefs(self.values@).skip(self.current_index as int)
    }

    /// Yields a reference to the next value.
    pub fn next(&mut self) -> (r: Option<&'a T>)
        requires
            old(self).wf(),
        ensures
            final(self).wf(),
            old(self).remaining().len() == 0 ==> r is None && final(self).remaining() == old(self).remaining(),
            old(self).remaining().len() > 0 ==> r is Some && r.unwrap() == old(self).remaining()[0]
                && final(self).remaining() == old(self).remaining().drop_first(),
    {
        if self.current_index == self.values.len() {
            None
        } else {
            let value = self.values[self.current_index];
            self.current_index = self.current_index + 1;
            proof {
                assert(final(self).remaining() =~= old(self).remaining().drop_first());
            }
            Some(value)
        }
    }

    /// Returns the exact number of values not yielded yet, as the pair of a
    /// lower bound and an optional upper bound.
    pub fn size_hint(&self) -> (r: (usize, Option<usize>))
        requires
            self.wf(),
        ensures
            r.0 == self.remaining().len(),
            r.1 == Some(r.0),
    {
        let remaining: usize = self.values.len() - self.current_index;
        (remaining, Some(remaining))
    }
}

} // verus!
