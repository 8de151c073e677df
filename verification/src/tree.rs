//! A minimal ordered binary search tree: insertion and size only.
//!
//! The view of the tree is the set of its values.

use vstd::prelude::*;
use vstd::laws_cmp::obeys_cmp;
use vstd::std_specs::cmp::{OrdSpec, PartialOrdSpec, PartialEqSpec};
use vstd::laws_eq::obeys_concrete_eq;
use core::cmp::Ordering;

verus! {

/// One node of the tree: a value and its two subtrees.
struct Node<T> {
    left: Option<Box<Node<T>>>,
    right: Option<Box<Node<T>>>,
    value: T,
}

/// A minimal ordered binary search tree.
///
/// The view of a `Tree` is the set of its values.
pub struct Tree<T> {
    root: Option<Box<Node<T>>>,
    size: usize,
}

/// The set of values hanging off a subtree link.
spec fn link_set<T>(link: Option<Box<Node<T>>>) -> Set<T>
    decreases link,
{
    match link {
        None => Set::<T>::empty(),
        Some(node) => link_set(node.left).union(link_set(node.right)).insert(node.value),
    }
}

/// The search-tree ordering: everything to the left of a node compares
/// below its value, everything to the right above it.
spec fn link_wf<T: Ord>(link: Option<Box<Node<T>>>) -> bool
    decreases link,
{
    match link {
        None => true,
        Some(node) => {
            &&& forall|e: T|
                #![trigger link_set(node.left).contains(e)]
                #![trigger e.cmp_spec(&node.value)]
                link_set(node.left).contains(e) ==> e.cmp_spec(&node.value) == Ordering::Less
            &&& forall|e: T|
                #![trigger link_set(node.right).contains(e)]
                #![trigger e.cmp_spec(&node.value)]
                link_set(node.right).contains(e) ==> e.cmp_spec(&node.value)
                    == Ordering::Greater
            &&& link_wf(node.left)
            &&& link_wf(node.right)
        },
    }
}

/// Every subtree holds finitely many values.
proof fn lemma_link_set_finite<T>(link: Option<Box<Node<T>>>)
    ensures
        link_set(link).finite(),
    decreases link,
{
    broadcast use vstd::set::group_set_axioms;

    if let Some(node) = link {
        lemma_link_set_finite(node.left);
        lemma_link_set_finite(node.right);
    }
}

/// The comparison facts the insertion proof needs: equality agrees with
/// three-way comparison, which is antisymmetric.
proof fn order_facts<T: Ord>()
    requires
        obeys_cmp::<T>(),
        obeys_concrete_eq::<T>(),
    ensures
        forall|x: T, y: T| #[trigger] x.cmp_spec(&y) == Ordering::Equal <==> x == y,
        forall|x: T, y: T| #[trigger] x.cmp_spec(&y) == Ordering::Less <==> y.cmp_spec(&x)
            == Ordering::Greater,
        T::obeys_cmp_spec(),
{
    reveal(vstd::laws_cmp::obeys_cmp_ord);
    reveal(vstd::laws_cmp::obeys_cmp_partial_ord);
    reveal(vstd::laws_cmp::obeys_partial_cmp_spec_properties);
    reveal(vstd::laws_eq::obeys_concrete_eq);
    assert forall|x: T, y: T| #[trigger] x.cmp_spec(&y) == Ordering::Equal <==> x == y by {
        assert(x.partial_cmp_spec(&y) == Some(x.cmp_spec(&y)));
        assert(x.partial_cmp_spec(&y) == Some(Ordering::Equal) <==> x.eq_spec(&y));
    }
    assert forall|x: T, y: T| #[trigger] x.cmp_spec(&y) == Ordering::Less <==> y.cmp_spec(&x)
        == Ordering::Greater by {
        assert(x.partial_cmp_spec(&y) == Some(x.cmp_spec(&y)));
        assert(y.partial_cmp_spec(&x) == Some(y.cmp_spec(&x)));
    }
}

/// Walks down to the place `value` belongs and puts a fresh leaf there;
/// reports `false` when the value is already present.
fn insert_value<T: Ord>(link: &mut Option<Box<Node<T>>>, value: T) -> (added: bool)
    requires
        obeys_cmp::<T>(),
        obeys_concrete_eq::<T>(),
        link_wf(*old(link)),
    ensures
        link_wf(*final(link)),
        link_set(*final(link)) == link_set(*old(link)).insert(value),
        added == !link_set(*old(link)).contains(value),
    decreases *old(link),
{
    broadcast use vstd::set::group_set_axioms;

    proof {
        order_facts::<T>();
    }
    match link.take() {
        None => {
            *link = Some(Box::new(Node { left: None, right: None, value }));
            proof {
                assert(link_set(*final(link)) =~= link_set(*old(link)).insert(value));
            }
            true
        },
        Some(mut node) => {
            let added = match value.cmp(&node.value) {
                Ordering::Equal => false,
                Ordering::Less => insert_value(&mut node.left, value),
                Ordering::Greater => insert_value(&mut node.right, value),
            };
            *link = Some(node);
            proof {
                assert(link_set(*final(link)) =~= link_set(*old(link)).insert(value));
            }
            added
        },
    }
}

impl<T: Ord> Tree<T> {
    /// A tree is well formed when it keeps the search ordering and its size
    /// counter agrees with how many values it holds.
    pub closed spec fn wf(self) -> bool {
        &&& link_wf(self.root)
        &&& self.size == link_set(self.root).len()
    }

    /// Creates an empty tree.
    pub fn new() -> (t: Self)
        ensures
            t.wf(),
            t@ == Set::<T>::empty(),
    {
        Tree { root: None, size: 0 }
    }

    /// Returns the number of values in the tree.
    pub fn size(&self) -> (n: usize)
        requires
            self.wf(),
        ensures
            n == self@.len(),
    {
        self.size
    }

    /// Adds `value` to the tree and returns `true` unless it is already
    /// present.
    pub fn insert(&mut self, value: T) -> (added: bool)
        requires
            obeys_cmp::<T>(),
            obeys_concrete_eq::<T>(),
            old(self).wf(),
            old(self)@.len() < usize::MAX,
        ensures
            final(self).wf(),
            final(self)@ == old(self)@.insert(value),
            added == !old(self)@.contains(value),
    {
        broadcast use vstd::set::group_set_axioms;

        proof {
            lemma_link_set_finite(self.root);
        }
        let added = insert_value(&mut self.root, value);
        if added {
            self.size = self.size + 1;
        }
        added
    }
}

impl<T> View for Tree<T> {
    type V = Set<T>;

    closed spec fn view(&self) -> Set<T> {
        link_set(self.root)
    }
}

} // verus!
