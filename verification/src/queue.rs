//! A first-in, first-out queue over a singly linked chain of heap nodes.
//!
//! Values enter at the tail and leave at the head; the view of the queue is
//! the sequence of its values from head to tail.

use vstd::prelude::*;
use vstd::string::StringExecFns;

verus! {

/// One link of the chain: a value and the rest of the queue behind it.
pub struct Node<T> {
    value: T,
    next: Option<Box<Node<T>>>,
}

/// The values hanging off a link, in head-to-tail order.
pub closed spec fn link_view<T>(link: Option<Box<Node<T>>>) -> Seq<T>
    decreases link,
{
    match link {
        None => Seq::<T>::empty(),
        Some(node) => seq![node.value] + link_view(node.next),
    }
}

impl<T> Node<T> {
    /// The value held by this node followed by everything behind it.
    pub closed spec fn chain(self) -> Seq<T> {
        seq![self.value] + link_view(self.next)
    }

    /// Creates a node holding `value` in front of the chain `next`.
    pub fn new(value: T, next: Option<Box<Node<T>>>) -> (n: Self)
        ensures
            n.chain() == seq![value] + link_view(next),
    {
        Node { value, next }
    }
}

/// A first-in, first-out queue.
///
/// The view of a `Queue` is the sequence of its values from head to tail.
pub struct Queue<T> {
    head: Option<Box<Node<T>>>,
    len: u32,
}

impl<T> View for Queue<T> {
    type V = Seq<T>;

    closed spec fn view(&self) -> Seq<T> {
        link_view(self.head)
    }
}

/// Adds `value` behind the last node of the chain.
fn push_last<T>(link: &mut Option<Box<Node<T>>>, value: T)
    ensures
        link_view(*final(link)) == link_view(*old(link)).push(value),
    decreases *old(link),
{
    match link.take() {
        None => {
            *link = Some(Box::new(Node { value, next: None }));
            proof {
                assert(link_view(*final(link)) =~= link_view(*old(link)).push(value));
            }
        },
        Some(mut boxed) => {
            push_last(&mut boxed.next, value);
            *link = Some(boxed);
            proof {
                assert(link_view(*final(link)) =~= link_view(*old(link)).push(value));
            }
        },
    }
}

impl<T> Queue<T> {
    /// A queue is well formed when its length counter agrees with its
    /// chain.
    pub closed spec fn wf(self) -> bool {
        self.len == self@.len()
    }

    /// Creates an empty queue.
    pub fn new() -> (q: Self)
        ensures
            q.wf(),
            q@ == Seq::<T>::empty(),
    {
        Queue { head: None, len: 0 }
    }

    /// Returns the number of values held.
    pub fn len(&self) -> (n: u32)
        requires
            self.wf(),
        ensures
            n == self@.len(),
    {
        self.len
    }

    /// Returns `true` when the queue holds no values.
    pub fn is_empty(&self) -> (r: bool)
        requires
            self.wf(),
        ensures
            r == (self@.len() == 0),
    {
        self.len == 0
    }

    /// Adds `value` at the tail of the queue.
    pub fn append(&mut self, value: T)
        requires
            old(self).wf(),
            old(self)@.len() < u32::MAX,
        ensures
            final(self).wf(),
            final(self)@ == old(self)@.push(value),
    {
        push_last(&mut self.head, value);
        self.len = self.len + 1;
    }

    /// Removes and returns the head value, or `None` when the queue is
    /// empty, in which case the queue is unchanged.
    pub fn pop(&mut self) -> (r: Option<T>)
        requires
            old(self).wf(),
        ensures
            final(self).wf(),
            old(self)@.len() == 0 ==> r is None && final(self)@ == old(self)@,
            old(self)@.len() > 0 ==> r == Some(old(self)@[0]) && final(self)@ == old(self)@.drop_first(),
    {
        match self.head.take() {
            None => None,
            Some(boxed) => {
                let node = *boxed;
                self.head = node.next;
                self.len = self.len - 1;
                proof {
                    assert(final(self)@ =~= old(self)@.drop_first());
                }
                Some(node.value)
            },
        }
    }

    /// Returns a reference to the head value, or `None` when empty.
    pub fn peek(&self) -> (r: Option<&T>)
        ensures
            self@.len() == 0 ==> r is None,
            self@.len() > 0 ==> r is Some && r.unwrap() == self@[0],
    {
        match &self.head {
            None => None,
            Some(node) => Some(&node.value),
        }
    }

    /// Returns a mutable reference to the head value, or `None` when empty.
    pub fn peek_mut(&mut self) -> (r: Option<&mut T>)
        requires
            old(self).wf(),
        ensures
            final(self).wf(),
            old(self)@.len() == 0 ==> r is None && final(self)@ == old(self)@,
            old(self)@.len() > 0 ==> r is Some && *r.unwrap() == old(self)@[0] && final(self)@
                == old(self)@.update(0, *final(r.unwrap())),
    {
        match &mut self.head {
            None => None,
            Some(node) => Some(&mut node.value),
        }
    }

    /// Returns an iterator over the values from head to tail.
    pub fn iter(&self) -> (it: Iter<'_, T>)
        ensures
            it.remaining() == self@,
    {
        match &self.head {
            None => Iter { next: None },
            Some(node) => Iter { next: Some(&**node) },
        }
    }

    /// Returns an iterator over mutable references to the values from head
    /// to tail.
    pub fn iter_mut(&mut self) -> (it: IterMut<'_, T>)
        requires
            old(self).wf(),
        ensures
            it.remaining() == old(self)@,
            old(self)@.len() == 0 ==> final(self)@ == old(self)@,
            old(self)@.len() > 0 ==> final(self)@ == final(it.inner().unwrap()).chain(),
    {
        match &mut self.head {
            None => IterMut { next: None },
            Some(node) => IterMut { next: Some(&mut **node) },
        }
    }

    /// Turns the queue into an iterator that yields its values from head to
    /// tail.
    pub fn into_iter(self) -> (it: IntoIter<T>)
        requires
            self.wf(),
        ensures
            it.wf(),
            it.remaining() == self@,
    {
        IntoIter(self)
    }
}

impl<T> Default for Queue<T> {
    /// Creates an empty queue.
    fn default() -> (q: Self)
        ensures
            q.wf(),
            q@ == Seq::<T>::empty(),
    {
        Queue::new()
    }
}

/// An iterator over references into a `Queue`, from head to tail.
pub struct Iter<'a, T> {
    next: Option<&'a Node<T>>,
}

impl<'a, T> Iter<'a, T> {
    /// The values the iterator has not yielded yet.
    pub closed spec fn remaining(self) -> Seq<T> {
        match self.next {
            None => Seq::<T>::empty(),
            Some(node) => node.chain(),
        }
    }

    /// Yields a reference to the next value.
    pub fn next(&mut self) -> (r: Option<&'a T>)
        ensures
            old(self).remaining().len() == 0 ==> r is None && final(self).remaining() == old(self).remaining(),
            old(self).remaining().len() > 0 ==> r is Some && r.unwrap() == old(self).remaining()[0]
                && final(self).remaining() == old(self).remaining().drop_first(),
    {
        match self.next.take() {
            None => None,
            Some(node) => {
                self.next = match &node.next {
                    None => None,
                    Some(next_box) => Some(&**next_box),
                };
                proof {
                    assert(final(self).remaining() =~= old(self).remaining().drop_first());
                }
                Some(&node.value)
            },
        }
    }
}

/// An iterator over mutable references into a `Queue`, from head to tail.
pub struct IterMut<'a, T> {
    next: Option<&'a mut Node<T>>,
}

impl<'a, T> IterMut<'a, T> {
    /// The values the iterator has not yielded yet.
    pub closed spec fn remaining(self) -> Seq<T> {
        match self.next {
            None => Seq::<T>::empty(),
            Some(node) => node.chain(),
        }
    }

    /// The borrow of the not-yet-visited chain that the iterator holds.
    pub closed spec fn inner(self) -> Option<&'a mut Node<T>> {
        self.next
    }

    /// Yields a mutable reference to the next value.
    pub fn next(&mut self) -> (r: Option<&'a mut T>)
        ensures
            old(self).remaining().len() == 0 ==> r is None && final(self).remaining() == old(self).remaining(),
            old(self).remaining().len() > 0 ==> r is Some && *r.unwrap() == old(self).remaining()[0]
                && final(self).remaining() == old(self).remaining().drop_first()
                && final(old(self).inner().unwrap()).chain() == seq![*final(r.unwrap())] + (
                match final(self).inner() {
                    None => Seq::<T>::empty(),
                    Some(rest) => final(rest).chain(),
                }),
    {
        match self.next.take() {
            None => None,
            Some(node) => {
                let Node { value, next } = node;
                self.next = match next {
                    None => None,
                    Some(next_box) => Some(&mut **next_box),
                };
                Some(value)
            },
        }
    }
}

/// An iterator that consumes a `Queue`, yielding its values from head to
/// tail.
pub struct IntoIter<T>(Queue<T>);

impl<T> IntoIter<T> {
    /// The values the iterator has not yielded yet.
    pub closed spec fn remaining(self) -> Seq<T> {
        self.0@
    }

    /// The iterator is well formed when the queue it consumes is.
    pub closed spec fn wf(self) -> bool {
        self.0.wf()
    }

    /// Yields the next value.
    pub fn next(&mut self) -> (r: Option<T>)
        requires
            old(self).wf(),
        ensures
            final(self).wf(),
            old(self).remaining().len() == 0 ==> r is None && final(self).remaining() == old(self).remaining(),
            old(self).remaining().len() > 0 ==> r == Some(old(self).remaining()[0])
                && final(self).remaining() == old(self).remaining().drop_first(),
    {
        self.0.pop()
    }
}


/// Appends the decimal rendering of the values hanging off a link,
/// separated by commas.
fn push_display_items(link: &Option<Box<Node<i32>>>, out: &mut String)
    ensures
        final(out)@ == old(out)@ + crate::decimal::decimal_items(
            link_view(*link).map_values(|x: i32| x as int),
        ),
    decreases *link,
{
    let ghost m = link_view(*link).map_values(|x: i32| x as int);
    match link {
        None => {
            proof {
                assert(m =~= Seq::<int>::empty());
                assert(final(out)@ =~= old(out)@ + crate::decimal::decimal_items(m));
            }
        },
        Some(node) => {
            proof {
                assert(link_view(*link) == seq![node.value] + link_view(node.next));
                assert(m[0] == node.value as int);
                assert(m.drop_first() =~= link_view(node.next).map_values(|x: i32| x as int));
            }
            crate::decimal::push_signed(node.value as i64, out);
            if node.next.is_some() {
                proof {
                    reveal_strlit(", ");
                }
                out.append(", ");
                push_display_items(&node.next, out);
                proof {
                    assert(final(out)@ =~= old(out)@ + crate::decimal::decimal_items(m));
                }
            } else {
                proof {
                    assert(link_view(node.next) =~= Seq::<i32>::empty());
                    assert(m.len() == 1);
                    assert(final(out)@ =~= old(out)@ + crate::decimal::decimal_items(m));
                }
            }
        },
    }
}

impl Queue<i32> {
    /// Renders the queue as a bracketed, comma-separated decimal list:
    /// the queue's string form.
    pub fn to_display_string(&self) -> (r: String)
        ensures
            r@ == crate::decimal::decimal_list(self@.map_values(|x: i32| x as int)),
    {
        proof {
            reveal_strlit("[");
            reveal_strlit("]");
        }
        let mut out = String::new();
        out.append("[");
        push_display_items(&self.head, &mut out);
        out.append("]");
        proof {
            assert(out@ =~= crate::decimal::decimal_list(self@.map_values(|x: i32| x as int)));
        }
        out
    }
}

} // verus!
