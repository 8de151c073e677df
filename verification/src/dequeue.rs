//! A double-ended queue addressed from both ends, with a cursor type for
//! structural edits at an arbitrary position.
//!
//! The queue is specified through its view, the sequence of its values from
//! front to back; every operation states exactly how it transforms that
//! sequence.

use vstd::prelude::*;
use vstd::std_specs::cmp::{PartialEqSpec, PartialOrdSpec};
use core::cmp::Ordering;
use vstd::string::StringExecFns;

verus! {

/// A double-ended queue of values of type `T`.
///
/// The view of a `Dequeue` is the sequence of its values from front to back.
#[derive(Clone, Debug, Eq, Ord, Hash)]
pub struct Dequeue<T> {
    items: Vec<T>,
}

impl<T: PartialEq> PartialEq for Dequeue<T> {
    /// Two queues are equal when they hold equal values in the same order.
    fn eq(&self, other: &Self) -> (r: bool) {
        self.items == other.items
    }
}

impl<T: PartialEq> vstd::std_specs::cmp::PartialEqSpecImpl for Dequeue<T> {
    open spec fn obeys_eq_spec() -> bool {
        T::obeys_eq_spec()
    }

    open spec fn eq_spec(&self, other: &Dequeue<T>) -> bool {
        &&& self@.len() == other@.len()
        &&& forall|i: int| #![auto] 0 <= i < self@.len() ==> self@[i].eq_spec(&other@[i])
    }
}

/// The lexicographic comparison of two runs of values by three-way
/// comparison: decided by the first unequal pair, then by length, and
/// undecided as soon as a pair has no order.
pub open spec fn lex_cmp<T: PartialOrd>(a: Seq<T>, b: Seq<T>) -> Option<Ordering>
    decreases a.len(),
{
    if a.len() == 0 && b.len() == 0 {
        Some(Ordering::Equal)
    } else if a.len() == 0 {
        Some(Ordering::Less)
    } else if b.len() == 0 {
        Some(Ordering::Greater)
    } else {
        match a[0].partial_cmp_spec(&b[0]) {
            Some(Ordering::Equal) => lex_cmp(a.drop_first(), b.drop_first()),
            o => o,
        }
    }
}

impl<T: PartialOrd> PartialOrd for Dequeue<T> {
    /// Queues compare lexicographically, value by value from the front;
    /// a pair of values without an order leaves the queues without one.
    fn partial_cmp(&self, other: &Self) -> (r: Option<Ordering>) {
        let a = &self.items;
        let b = &other.items;
        let mut i: usize = 0;
        proof {
            assert(a@.skip(0) =~= a@);
            assert(b@.skip(0) =~= b@);
        }
        while i < a.len() && i < b.len()
            invariant
                i <= a@.len(),
                i <= b@.len(),
                a@ == self@,
                b@ == other@,
                T::obeys_partial_cmp_spec() ==> lex_cmp(self@, other@) == lex_cmp(
                    a@.skip(i as int),
                    b@.skip(i as int),
                ),
            decreases a@.len() - i,
        {
            let x = &a[i];
            let y = &b[i];
            let o = x.partial_cmp(y);
            proof {
                assert(a@.skip(i as int)[0] == a@[i as int]);
                assert(b@.skip(i as int)[0] == b@[i as int]);
                assert(a@.skip(i as int).drop_first() =~= a@.skip(i as int + 1));
                assert(b@.skip(i as int).drop_first() =~= b@.skip(i as int + 1));
            }
            match o {
                Some(Ordering::Equal) => {
                    i = i + 1;
                },
                _ => {
                    return o;
                },
            }
        }
        proof {
            assert(i == a@.len() || i == b@.len());
        }
        if a.len() < b.len() {
            proof {
                assert(a@.skip(i as int) =~= Seq::<T>::empty());
            }
            Some(Ordering::Less)
        } else if b.len() < a.len() {
            proof {
                assert(b@.skip(i as int) =~= Seq::<T>::empty());
            }
            Some(Ordering::Greater)
        } else {
            proof {
                assert(a@.skip(i as int) =~= Seq::<T>::empty());
                assert(b@.skip(i as int) =~= Seq::<T>::empty());
            }
            Some(Ordering::Equal)
        }
    }
}

impl<T: PartialOrd> vstd::std_specs::cmp::PartialOrdSpecImpl for Dequeue<T> {
    open spec fn obeys_partial_cmp_spec() -> bool {
        T::obeys_partial_cmp_spec()
    }

    open spec fn partial_cmp_spec(&self, other: &Dequeue<T>) -> Option<Ordering> {
        lex_cmp(self@, other@)
    }
}

impl<T> View for Dequeue<T> {
    type V = Seq<T>;

    closed spec fn view(&self) -> Seq<T> {
        self.items@
    }
}

impl<T> Dequeue<T> {
    /// Creates an empty queue.
    pub fn new() -> (d: Self)
        ensures
            d@ == Seq::<T>::empty(),
    {
        Dequeue { items: Vec::new() }
    }

    /// Returns the number of values held.
    pub fn len(&self) -> (n: usize)
        ensures
            n == self@.len(),
    {
        self.items.len()
    }

    /// Returns `true` when the queue holds no values.
    pub fn is_empty(&self) -> (r: bool)
        ensures
            r == (self@.len() == 0),
    {
        self.items.len() == 0
    }

    /// Removes every value.
    pub fn clear(&mut self)
        ensures
            final(self)@ == Seq::<T>::empty(),
    {
        self.items.clear();
    }

    /// Adds `value` at the front.
    pub fn push_front(&mut self, value: T)
        requires
            old(self)@.len() < usize::MAX,
        ensures
            final(self)@ == seq![value] + old(self)@,
    {
        self.items.insert(0, value);
        proof {
            assert(final(self)@ =~= seq![value] + old(self)@);
        }
    }

    /// Adds `value` at the back.
    pub fn push_back(&mut self, value: T)
        requires
            old(self)@.len() < usize::MAX,
        ensures
            final(self)@ == old(self)@.push(value),
    {
        self.items.push(value);
    }

    /// Removes and returns the front value, or `None` when the queue is
    /// empty, in which case the queue is unchanged.
    pub fn pop_front(&mut self) -> (r: Option<T>)
        ensures
            old(self)@.len() == 0 ==> r is None && final(self)@ == old(self)@,
            old(self)@.len() > 0 ==> r == Some(old(self)@[0]) && final(self)@ == old(self)@.drop_first(),
    {
        if self.items.len() == 0 {
            None
        } else {
            let value = self.items.remove(0);
            proof {
                assert(final(self)@ =~= old(self)@.drop_first());
            }
            Some(value)
        }
    }

    /// Removes and returns the back value, or `None` when the queue is
    /// empty, in which case the queue is unchanged.
    pub fn pop_back(&mut self) -> (r: Option<T>)
        ensures
            old(self)@.len() == 0 ==> r is None && final(self)@ == old(self)@,
            old(self)@.len() > 0 ==> r == Some(old(self)@.last()) && final(self)@ == old(self)@.drop_last(),
    {
        if self.items.len() == 0 {
            None
        } else {
            let value = self.items.pop().unwrap();
            Some(value)
        }
    }

    /// Returns a reference to the front value, or `None` when empty.
    pub fn front(&self) -> (r: Option<&T>)
        ensures
            self@.len() == 0 ==> r is None,
            self@.len() > 0 ==> r is Some && r.unwrap() == self@[0],
    {
        self.items.first()
    }

    /// Returns a mutable reference to the front value, or `None` when empty.
    pub fn front_mut(&mut self) -> (r: Option<&mut T>)
        ensures
            old(self)@.len() == 0 ==> r is None && final(self)@ == old(self)@,
            old(self)@.len() > 0 ==> r is Some && *r.unwrap() == old(self)@[0] && final(self)@
                == old(self)@.update(0, *final(r.unwrap())),
    {
        self.items.first_mut()
    }

    /// Returns a reference to the back value, or `None` when empty.
    pub fn back(&self) -> (r: Option<&T>)
        ensures
            self@.len() == 0 ==> r is None,
            self@.len() > 0 ==> r is Some && r.unwrap() == self@.last(),
    {
        self.items.last()
    }

    /// Returns a mutable reference to the back value, or `None` when empty.
    pub fn back_mut(&mut self) -> (r: Option<&mut T>)
        ensures
            old(self)@.len() == 0 ==> r is None && final(self)@ == old(self)@,
            old(self)@.len() > 0 ==> r is Some && *r.unwrap() == old(self)@.last() && final(self)@ == old(self)@.update(old(self)@.len() - 1, *final(r.unwrap())),
    {
        self.items.last_mut()
    }
}

/// A cursor over a borrowed [`Dequeue`], for structural edits at an
/// arbitrary position.
///
/// A cursor either stands on a value of the queue, at a position counted
/// from the front, or at the ghost position between back and front, where
/// it starts.  It holds the queue exclusively for its whole lifetime;
/// edits made through it are seen in the queue once it is given up.
pub struct CursorMut<'a, T> {
    dequeue: &'a mut Dequeue<T>,
    index: Option<usize>,
}

impl<T> Dequeue<T> {
    /// Returns a cursor over the queue, standing at the ghost position.
    pub fn cursor_mut(&mut self) -> (c: CursorMut<'_, T>)
        ensures
            c.wf(),
            c.idx() is None,
            c.contents() == old(self)@,
            *final(self) == *final(c.inner()),
    {
        CursorMut { dequeue: self, index: None }
    }
}

impl<'a, T> CursorMut<'a, T> {
    /// The position the cursor stands on, or `None` at the ghost position.
    pub closed spec fn idx(self) -> Option<usize> {
        self.index
    }

    /// The current contents of the borrowed queue, front to back.
    pub closed spec fn contents(self) -> Seq<T> {
        (*self.dequeue)@
    }

    /// The borrow of the underlying queue that the cursor holds.
    pub closed spec fn inner(self) -> &'a mut Dequeue<T> {
        self.dequeue
    }

    /// A cursor is well formed when its position lies inside the queue.
    pub closed spec fn wf(self) -> bool {
        self.index matches Some(i) ==> i < self.contents().len()
    }

    /// Returns the position the cursor stands on, counted from the front,
    /// or `None` at the ghost position.
    pub fn index(&self) -> (r: Option<usize>)
        ensures
            r == self.idx(),
    {
        self.index
    }

    /// Steps towards the back: from the ghost position onto the front
    /// value, from the back value to the ghost position.
    pub fn move_next(&mut self)
        requires
            old(self).wf(),
        ensures
            final(self).wf(),
            final(self).contents() == old(self).contents(),
            final(self).inner() == old(self).inner(),
            final(self).idx() == (match old(self).idx() {
                None => if old(self).contents().len() > 0 {
                    Some(0usize)
                } else {
                    None
                },
                Some(i) => if i + 1 < old(self).contents().len() {
                    Some((i + 1) as usize)
                } else {
                    None
                },
            }),
    {
        match self.index {
            Some(i) => {
                proof {
                    assert(old(self).idx() == Some(i));
                    assert(i < self.dequeue.items.len());
                }
                if i + 1 < self.dequeue.items.len() {
                    self.index = Some(i + 1);
                } else {
                    self.index = None;
                }
            },
            None => {
                if self.dequeue.items.len() > 0 {
                    self.index = Some(0);
                } else {
                    self.index = None;
                }
            },
        }
    }

    /// Steps towards the front: from the ghost position onto the back
    /// value, from the front value to the ghost position.
    pub fn move_prev(&mut self)
        requires
            old(self).wf(),
        ensures
            final(self).wf(),
            final(self).contents() == old(self).contents(),
            final(self).inner() == old(self).inner(),
            final(self).idx() == (match old(self).idx() {
                None => if old(self).contents().len() > 0 {
                    Some((old(self).contents().len() - 1) as usize)
                } else {
                    None
                },
                Some(i) => if i > 0 {
                    Some((i - 1) as usize)
                } else {
                    None
                },
            }),
    {
        match self.index {
            Some(i) => {
                proof {
                    assert(old(self).idx() == Some(i));
                }
                if i > 0 {
                    self.index = Some(i - 1);
                } else {
                    self.index = None;
                }
            },
            None => {
                let len: usize = self.dequeue.items.len();
                if len > 0 {
                    self.index = Some(len - 1);
                } else {
                    self.index = None;
                }
            },
        }
    }

    /// Returns a mutable reference to the value the cursor stands on, or
    /// `None` at the ghost position.
    pub fn current(&mut self) -> (r: Option<&mut T>)
        requires
            old(self).wf(),
        ensures
            final(self).wf(),
            final(self).idx() == old(self).idx(),
            *final(final(self).inner()) == *final(old(self).inner()),
            old(self).idx() is None ==> r is None && final(self).contents() == old(self).contents(),
            old(self).idx() matches Some(i) ==> r is Some && *r.unwrap() == old(self).contents()[i as int] && final(self).contents() == old(self).contents().update(
                i as int,
                *final(r.unwrap()),
            ),
    {
        match self.index {
            None => None,
            Some(i) => {
                proof {
                    assert(old(self).idx() == Some(i));
                }
                Some(&mut self.dequeue.items[i])
            },
        }
    }

    /// Returns a mutable reference to the value after the cursor, or `None`
    /// when none follows; at the ghost position this is the front value.
    pub fn peek_next(&mut self) -> (r: Option<&mut T>)
        requires
            old(self).wf(),
        ensures
            final(self).wf(),
            final(self).idx() == old(self).idx(),
            *final(final(self).inner()) == *final(old(self).inner()),
            (match old(self).idx() {
                None => if old(self).contents().len() > 0 {
                    Some(0int)
                } else {
                    None
                },
                Some(i) => if i + 1 < old(self).contents().len() {
                    Some(i + 1 as int)
                } else {
                    None
                },
            }) matches Some(j) ==> r is Some && *r.unwrap() == old(self).contents()[j] && final(self).contents() == old(self).contents().update(j, *final(r.unwrap())),
            (match old(self).idx() {
                None => old(self).contents().len() == 0,
                Some(i) => i + 1 >= old(self).contents().len(),
            }) ==> r is None && final(self).contents() == old(self).contents(),
    {
        let j_opt: Option<usize> = match self.index {
            None => {
                if self.dequeue.items.len() > 0 {
                    Some(0)
                } else {
                    None
                }
            },
            Some(i) => {
                proof {
                    assert(old(self).idx() == Some(i));
                    assert(i < self.dequeue.items.len());
                }
                if i + 1 < self.dequeue.items.len() {
                    Some(i + 1)
                } else {
                    None
                }
            },
        };
        match j_opt {
            None => None,
            Some(j) => Some(&mut self.dequeue.items[j]),
        }
    }

    /// Returns a mutable reference to the value before the cursor, or `None`
    /// when none precedes; at the ghost position this is the back value.
    pub fn peek_prev(&mut self) -> (r: Option<&mut T>)
        requires
            old(self).wf(),
        ensures
            final(self).wf(),
            final(self).idx() == old(self).idx(),
            *final(final(self).inner()) == *final(old(self).inner()),
            (match old(self).idx() {
                None => if old(self).contents().len() > 0 {
                    Some(old(self).contents().len() - 1)
                } else {
                    None
                },
                Some(i) => if i > 0 {
                    Some(i - 1 as int)
                } else {
                    None
                },
            }) matches Some(j) ==> r is Some && *r.unwrap() == old(self).contents()[j] && final(self).contents() == old(self).contents().update(j, *final(r.unwrap())),
            (match old(self).idx() {
                None => old(self).contents().len() == 0,
                Some(i) => i == 0,
            }) ==> r is None && final(self).contents() == old(self).contents(),
    {
        let j_opt: Option<usize> = match self.index {
            None => {
                let len: usize = self.dequeue.items.len();
                if len > 0 {
                    Some(len - 1)
                } else {
                    None
                }
            },
            Some(i) => {
                proof {
                    assert(old(self).idx() == Some(i));
                }
                if i > 0 {
                    Some(i - 1)
                } else {
                    None
                }
            },
        };
        match j_opt {
            None => None,
            Some(j) => Some(&mut self.dequeue.items[j]),
        }
    }

    /// Detaches everything before the cursor into a queue of its own.  At
    /// the ghost position the whole queue is handed out and the cursor's
    /// queue is left empty; on a value, the values in front of it leave and
    /// the cursor's value becomes the new front.
    pub fn split_before(&mut self) -> (r: Dequeue<T>)
        requires
            old(self).wf(),
        ensures
            final(self).wf(),
            *final(final(self).inner()) == *final(old(self).inner()),
            old(self).idx() is None ==> r@ == old(self).contents() && final(self).contents()
                == Seq::<T>::empty() && final(self).idx() is None,
            old(self).idx() matches Some(i) ==> r@ == old(self).contents().take(i as int)
                && final(self).contents() == old(self).contents().skip(i as int) && final(self).idx() == Some(0usize),
    {
        match self.index {
            None => {
                let mut out: Vec<T> = Vec::new();
                core::mem::swap(&mut out, &mut self.dequeue.items);
                Dequeue { items: out }
            },
            Some(i) => {
                proof {
                    assert(old(self).idx() == Some(i));
                    assert(i < self.dequeue.items.len());
                }
                let mut back = self.dequeue.items.split_off(i);
                core::mem::swap(&mut self.dequeue.items, &mut back);
                self.index = Some(0);
                Dequeue { items: back }
            },
        }
    }

    /// Detaches everything after the cursor into a queue of its own.  At
    /// the ghost position the whole queue is handed out and the cursor's
    /// queue is left empty; on a value, the values behind it leave and the
    /// cursor's value becomes the new back.
    pub fn split_after(&mut self) -> (r: Dequeue<T>)
        requires
            old(self).wf(),
        ensures
            final(self).wf(),
            *final(final(self).inner()) == *final(old(self).inner()),
            old(self).idx() is None ==> r@ == old(self).contents() && final(self).contents()
                == Seq::<T>::empty() && final(self).idx() is None,
            old(self).idx() matches Some(i) ==> r@ == old(self).contents().skip(i + 1)
                && final(self).contents() == old(self).contents().take(i + 1) && final(self).idx() == Some(i),
    {
        match self.index {
            None => {
                let mut out: Vec<T> = Vec::new();
                core::mem::swap(&mut out, &mut self.dequeue.items);
                Dequeue { items: out }
            },
            Some(i) => {
                proof {
                    assert(old(self).idx() == Some(i));
                    assert(i < self.dequeue.items.len());
                }
                let back = self.dequeue.items.split_off(i + 1);
                Dequeue { items: back }
            },
        }
    }

    /// Moves every value of `input` in front of the cursor's position, in
    /// order; `input` is consumed.  At the ghost position the values are
    /// added at the back, the side the previous value is peeked from.
    pub fn splice_before(&mut self, input: Dequeue<T>)
        requires
            old(self).wf(),
            old(self).contents().len() + input@.len() <= usize::MAX,
        ensures
            final(self).wf(),
            *final(final(self).inner()) == *final(old(self).inner()),
            old(self).idx() is None ==> final(self).contents() == old(self).contents() + input@
                && final(self).idx() is None,
            old(self).idx() matches Some(i) ==> final(self).contents() == old(self).contents().take(i as int) + input@ + old(self).contents().skip(i as int) && final(self).idx() == Some((i + input@.len()) as usize),
    {
        let mut input = input;
        match self.index {
            None => {
                self.dequeue.items.append(&mut input.items);
            },
            Some(i) => {
                proof {
                    assert(old(self).idx() == Some(i));
                    assert(i < self.dequeue.items.len());
                }
                let in_len: usize = input.items.len();
                let mut back = self.dequeue.items.split_off(i);
                self.dequeue.items.append(&mut input.items);
                self.dequeue.items.append(&mut back);
                self.index = Some(i + in_len);
            },
        }
    }

    /// Moves every value of `input` behind the cursor's position, in order;
    /// `input` is consumed.  At the ghost position the values are added at
    /// the front, the side the next value is peeked from.
    pub fn splice_after(&mut self, input: Dequeue<T>)
        requires
            old(self).wf(),
            old(self).contents().len() + input@.len() <= usize::MAX,
        ensures
            final(self).wf(),
            *final(final(self).inner()) == *final(old(self).inner()),
            old(self).idx() is None ==> final(self).contents() == input@ + old(self).contents()
                && final(self).idx() is None,
            old(self).idx() matches Some(i) ==> final(self).contents() == old(self).contents().take(i + 1) + input@ + old(self).contents().skip(i + 1) && final(self).idx() == Some(i),
    {
        let mut input = input;
        match self.index {
            None => {
                core::mem::swap(&mut self.dequeue.items, &mut input.items);
                self.dequeue.items.append(&mut input.items);
            },
            Some(i) => {
                proof {
                    assert(old(self).idx() == Some(i));
                    assert(i < self.dequeue.items.len());
                }
                let mut back = self.dequeue.items.split_off(i + 1);
                self.dequeue.items.append(&mut input.items);
                self.dequeue.items.append(&mut back);
            },
        }
    }
}

/// A double-ended iterator over references into a `Dequeue`.
pub struct Iter<'a, T> {
    rest: &'a [T],
}

/// A double-ended iterator over mutable references into a `Dequeue`.
pub struct IterMut<'a, T> {
    rest: Option<&'a mut [T]>,
}

/// A double-ended iterator that consumes a `Dequeue`, yielding its values.
pub struct IntoIter<T>(Dequeue<T>);

impl<T> Dequeue<T> {
    /// Returns an iterator over the values from front to back.
    pub fn iter(&self) -> (it: Iter<'_, T>)
        ensures
            it.remaining() == self@,
    {
        Iter { rest: self.items.as_slice() }
    }

    /// Returns an iterator over mutable references to the values from front
    /// to back.
    pub fn iter_mut(&mut self) -> (it: IterMut<'_, T>)
        ensures
            it.remaining() == old(self)@,
            final(self)@ == final(it.sl())@,
    {
        IterMut { rest: Some(self.items.as_mut_slice()) }
    }

    /// Turns the queue into an iterator that yields its values.
    pub fn into_iter(self) -> (it: IntoIter<T>)
        ensures
            it.remaining() == self@,
    {
        IntoIter(self)
    }
}

impl<'a, T> Iter<'a, T> {
    /// The values the iterator has not yielded yet, in front-to-back order.
    pub closed spec fn remaining(self) -> Seq<T> {
        self.rest@
    }

    /// Yields a reference to the first remaining value, front side.
    pub fn next(&mut self) -> (r: Option<&'a T>)
        ensures
            old(self).remaining().len() == 0 ==> r is None && final(self).remaining() == old(self).remaining(),
            old(self).remaining().len() > 0 ==> r is Some && r.unwrap() == old(self).remaining()[0] && final(self).remaining() == old(self).remaining().drop_first(),
    {
        let rest: &'a [T] = self.rest;
        if rest.len() == 0 {
            None
        } else {
            let (first, tail) = rest.split_at(1);
            self.rest = tail;
            first.first()
        }
    }

    /// Yields a reference to the last remaining value, back side.
    pub fn next_back(&mut self) -> (r: Option<&'a T>)
        ensures
            old(self).remaining().len() == 0 ==> r is None && final(self).remaining() == old(self).remaining(),
            old(self).remaining().len() > 0 ==> r is Some && r.unwrap() == old(self).remaining().last() && final(self).remaining() == old(self).remaining().drop_last(),
    {
        let rest: &'a [T] = self.rest;
        if rest.len() == 0 {
            None
        } else {
            let (front, last) = rest.split_at(rest.len() - 1);
            self.rest = front;
            last.first()
        }
    }

    /// Returns the number of values not yielded yet.
    pub fn len(&self) -> (n: usize)
        ensures
            n == self.remaining().len(),
    {
        self.rest.len()
    }

    /// Returns the exact number of values not yielded yet, as the pair of a
    /// lower bound and an optional upper bound.
    pub fn size_hint(&self) -> (r: (usize, Option<usize>))
        ensures
            r.0 == self.remaining().len(),
            r.1 == Some(r.0),
    {
        (self.rest.len(), Some(self.rest.len()))
    }
}

impl<'a, T> IterMut<'a, T> {
    /// The values the iterator has not yielded yet, in front-to-back order.
    pub closed spec fn remaining(self) -> Seq<T> {
        match self.rest {
            None => Seq::<T>::empty(),
            Some(s) => s@,
        }
    }

    /// The borrow of the not-yet-yielded values that the iterator holds.
    pub closed spec fn sl(self) -> &'a mut [T] {
        self.rest.unwrap()
    }

    /// Yields a mutable reference to the first remaining value, front side.
    pub fn next(&mut self) -> (r: Option<&'a mut T>)
        ensures
            old(self).remaining().len() == 0 ==> r is None && final(self).remaining() == old(self).remaining(),
            old(self).remaining().len() > 0 ==> r is Some && *r.unwrap() == old(self).remaining()[0] && final(self).remaining() == old(self).remaining().drop_first()
                && final(old(self).sl())@ == seq![*final(r.unwrap())] + final(final(self).sl())@,
    {
        match self.rest.take() {
            None => None,
            Some(s) => {
                if s.len() == 0 {
                    None
                } else {
                    let (first, tail) = s.split_at_mut(1);
                    self.rest = Some(tail);
                    first.first_mut()
                }
            },
        }
    }

    /// Yields a mutable reference to the last remaining value, back side.
    pub fn next_back(&mut self) -> (r: Option<&'a mut T>)
        ensures
            old(self).remaining().len() == 0 ==> r is None && final(self).remaining() == old(self).remaining(),
            old(self).remaining().len() > 0 ==> r is Some && *r.unwrap() == old(self).remaining().last() && final(self).remaining() == old(self).remaining().drop_last()
                && final(old(self).sl())@ == final(final(self).sl())@ + seq![*final(r.unwrap())],
    {
        match self.rest.take() {
            None => None,
            Some(s) => {
                if s.len() == 0 {
                    None
                } else {
                    let (front, last) = s.split_at_mut(s.len() - 1);
                    self.rest = Some(front);
                    last.first_mut()
                }
            },
        }
    }

    /// Returns the number of values not yielded yet.
    pub fn len(&self) -> (n: usize)
        ensures
            n == self.remaining().len(),
    {
        match &self.rest {
            None => 0,
            Some(s) => s.len(),
        }
    }

    /// Returns the exact number of values not yielded yet, as the pair of a
    /// lower bound and an optional upper bound.
    pub fn size_hint(&self) -> (r: (usize, Option<usize>))
        ensures
            r.0 == self.remaining().len(),
            r.1 == Some(r.0),
    {
        let n: usize = self.len();
        (n, Some(n))
    }
}

impl<T> IntoIter<T> {
    /// The values the iterator has not yielded yet, in front-to-back order.
    pub closed spec fn remaining(self) -> Seq<T> {
        self.0@
    }

    /// Yields the first remaining value, front side.
    pub fn next(&mut self) -> (r: Option<T>)
        ensures
            old(self).remaining().len() == 0 ==> r is None && final(self).remaining() == old(self).remaining(),
            old(self).remaining().len() > 0 ==> r == Some(old(self).remaining()[0]) && final(self).remaining() == old(self).remaining().drop_first(),
    {
        self.0.pop_front()
    }

    /// Yields the last remaining value, back side.
    pub fn next_back(&mut self) -> (r: Option<T>)
        ensures
            old(self).remaining().len() == 0 ==> r is None && final(self).remaining() == old(self).remaining(),
            old(self).remaining().len() > 0 ==> r == Some(old(self).remaining().last()) && final(self).remaining() == old(self).remaining().drop_last(),
    {
        self.0.pop_back()
    }

    /// Returns the number of values not yielded yet.
    pub fn len(&self) -> (n: usize)
        ensures
            n == self.remaining().len(),
    {
        self.0.len()
    }

    /// Returns the exact number of values not yielded yet, as the pair of a
    /// lower bound and an optional upper bound.
    pub fn size_hint(&self) -> (r: (usize, Option<usize>))
        ensures
            r.0 == self.remaining().len(),
            r.1 == Some(r.0),
    {
        let n: usize = self.0.len();
        (n, Some(n))
    }
}

/// One end operation on a queue, as the contracts of `push_back`,
/// `push_front`, `pop_front` and `pop_back` describe them on the view.
pub enum DequeOp<T> {
    PushBack(T),
    PushFront(T),
    PopFront,
    PopBack,
}

/// The queue contents after one operation: pushes extend an end, pops
/// shorten it, and a pop on an empty queue leaves it unchanged.
pub open spec fn apply_op<T>(s: Seq<T>, op: DequeOp<T>) -> Seq<T> {
    match op {
        DequeOp::PushBack(v) => s.push(v),
        DequeOp::PushFront(v) => seq![v] + s,
        DequeOp::PopFront => if s.len() == 0 {
            s
        } else {
            s.drop_first()
        },
        DequeOp::PopBack => if s.len() == 0 {
            s
        } else {
            s.drop_last()
        },
    }
}

/// The queue contents after a whole sequence of operations.
pub open spec fn run_ops<T>(s: Seq<T>, ops: Seq<DequeOp<T>>) -> Seq<T>
    decreases ops.len(),
{
    if ops.len() == 0 {
        s
    } else {
        run_ops(apply_op(s, ops[0]), ops.drop_first())
    }
}

/// The values the pops of a trace yield, in the order they come out; a pop
/// on an empty queue yields nothing.
pub open spec fn popped_values<T>(s: Seq<T>, ops: Seq<DequeOp<T>>) -> Seq<T>
    decreases ops.len(),
{
    if ops.len() == 0 {
        Seq::<T>::empty()
    } else {
        let rest = popped_values(apply_op(s, ops[0]), ops.drop_first());
        match ops[0] {
            DequeOp::PopFront => if s.len() == 0 {
                rest
            } else {
                seq![s[0]] + rest
            },
            DequeOp::PopBack => if s.len() == 0 {
                rest
            } else {
                seq![s.last()] + rest
            },
            _ => rest,
        }
    }
}

/// The values a trace pushes, in the order it pushes them.
pub open spec fn pushed_values<T>(ops: Seq<DequeOp<T>>) -> Seq<T>
    decreases ops.len(),
{
    if ops.len() == 0 {
        Seq::<T>::empty()
    } else {
        let rest = pushed_values(ops.drop_first());
        match ops[0] {
            DequeOp::PushBack(v) => seq![v] + rest,
            DequeOp::PushFront(v) => seq![v] + rest,
            _ => rest,
        }
    }
}

/// How many of the trace's operations push.
pub open spec fn count_pushes<T>(ops: Seq<DequeOp<T>>) -> nat
    decreases ops.len(),
{
    if ops.len() == 0 {
        0nat
    } else {
        count_pushes(ops.drop_first()) + match ops[0] {
            DequeOp::PushBack(_) => 1nat,
            DequeOp::PushFront(_) => 1nat,
            _ => 0nat,
        }
    }
}

/// How many of the trace's operations pop.
pub open spec fn count_pops<T>(ops: Seq<DequeOp<T>>) -> nat
    decreases ops.len(),
{
    if ops.len() == 0 {
        0nat
    } else {
        count_pops(ops.drop_first()) + match ops[0] {
            DequeOp::PopFront => 1nat,
            DequeOp::PopBack => 1nat,
            _ => 0nat,
        }
    }
}

/// The trace touches one end pair only: it pushes at the back and pops at
/// the front.
pub open spec fn back_in_front_out<T>(ops: Seq<DequeOp<T>>) -> bool {
    forall|i: int|
        0 <= i < ops.len() ==> !(#[trigger] ops[i] matches DequeOp::PushFront(_)) && !(ops[i]
            matches DequeOp::PopBack)
}

/// First-in, first-out: over any trace of `push_back` and `pop_front`
/// operations, the values popped so far followed by the values still held
/// are exactly the values initially held followed by the values pushed, in
/// order.  Started from an empty queue this says that values pop out in
/// the order they were pushed.
pub proof fn lemma_fifo<T>(s: Seq<T>, ops: Seq<DequeOp<T>>)
    requires
        back_in_front_out(ops),
    ensures
        popped_values(s, ops) + run_ops(s, ops) == s + pushed_values(ops),
    decreases ops.len(),
{
    if ops.len() == 0 {
        assert(popped_values(s, ops) + run_ops(s, ops) =~= s + pushed_values(ops));
    } else {
        let s1 = apply_op(s, ops[0]);
        let rest = ops.drop_first();
        assert(back_in_front_out(rest)) by {
            assert(forall|i: int| 0 <= i < rest.len() ==> rest[i] == ops[i + 1]);
        }
        lemma_fifo(s1, rest);
        match ops[0] {
            DequeOp::PushBack(v) => {
                assert(s1 == s.push(v));
                assert(popped_values(s, ops) == popped_values(s1, rest));
                assert(pushed_values(ops) == seq![v] + pushed_values(rest));
                assert(s.push(v) + pushed_values(rest) =~= s + pushed_values(ops));
                assert(popped_values(s, ops) + run_ops(s, ops) =~= s + pushed_values(ops));
            },
            DequeOp::PopFront => {
                assert(pushed_values(ops) == pushed_values(rest));
                if s.len() == 0 {
                    assert(s1 == s);
                    assert(popped_values(s, ops) == popped_values(s1, rest));
                } else {
                    assert(s1 == s.drop_first());
                    assert(popped_values(s, ops) == seq![s[0]] + popped_values(s1, rest));
                    assert(seq![s[0]] + (s.drop_first() + pushed_values(rest)) =~= s
                        + pushed_values(ops));
                }
                assert(popped_values(s, ops) + run_ops(s, ops) =~= s + pushed_values(ops));
            },
            _ => {
                assert(false);
            },
        }
    }
}

/// Last-in, first-out, one step: popping at the front right after
/// pushing a value at the front yields that value and restores the queue.
pub proof fn lemma_lifo_step<T>(s: Seq<T>, v: T)
    ensures
        apply_op(s, DequeOp::PushFront(v)).len() > 0,
        apply_op(s, DequeOp::PushFront(v))[0] == v,
        apply_op(apply_op(s, DequeOp::PushFront(v)), DequeOp::PopFront) == s,
{
    assert(apply_op(apply_op(s, DequeOp::PushFront(v)), DequeOp::PopFront) =~= s);
}

/// Popping repeatedly yields a queue's values from the front, in order:
/// `n` pops at the front return exactly the first `n` values and leave
/// the rest behind.
pub proof fn lemma_pop_prefix<T>(t: Seq<T>, n: nat)
    requires
        n <= t.len(),
    ensures
        popped_values(t, Seq::new(n, |i: int| DequeOp::<T>::PopFront)) == t.take(n as int),
        run_ops(t, Seq::new(n, |i: int| DequeOp::<T>::PopFront)) == t.skip(n as int),
    decreases n,
{
    let pops = Seq::new(n, |i: int| DequeOp::<T>::PopFront);
    if n == 0 {
        assert(popped_values(t, pops) =~= t.take(0));
        assert(run_ops(t, pops) =~= t.skip(0));
    } else {
        assert(pops[0] == DequeOp::<T>::PopFront);
        assert(t.len() > 0);
        assert(pops.drop_first() =~= Seq::new((n - 1) as nat, |i: int| DequeOp::<T>::PopFront));
        lemma_pop_prefix(t.drop_first(), (n - 1) as nat);
        assert(popped_values(t, pops) == seq![t[0]] + t.drop_first().take(n - 1));
        assert(seq![t[0]] + t.drop_first().take(n - 1) =~= t.take(n as int));
        assert(t.drop_first().skip(n - 1) =~= t.skip(n as int));
    }
}

/// Last-in, first-out, whole traces: pushing a run of values at the front
/// and then popping them all at the front yields them back in reverse
/// order and restores the queue.
pub proof fn lemma_lifo<T>(s: Seq<T>, vs: Seq<T>)
    ensures
        run_ops(s, vs.map_values(|v: T| DequeOp::PushFront(v))) == vs.reverse() + s,
        popped_values(
            vs.reverse() + s,
            Seq::new(vs.len(), |i: int| DequeOp::<T>::PopFront),
        ) == vs.reverse(),
        run_ops(vs.reverse() + s, Seq::new(vs.len(), |i: int| DequeOp::<T>::PopFront)) == s,
    decreases vs.len(),
{
    let pushes = vs.map_values(|v: T| DequeOp::PushFront(v));
    if vs.len() == 0 {
        assert(vs.reverse() + s =~= s);
        assert(run_ops(s, pushes) == s);
    } else {
        let v = vs[0];
        let rest = vs.drop_first();
        assert(pushes[0] == DequeOp::PushFront(v));
        assert(pushes.drop_first() =~= rest.map_values(|x: T| DequeOp::PushFront(x)));
        assert(apply_op(s, pushes[0]) == seq![v] + s);
        lemma_lifo(seq![v] + s, rest);
        assert(rest.reverse() + (seq![v] + s) =~= vs.reverse() + s);
        assert(run_ops(s, pushes) == vs.reverse() + s);
    }
    let t = vs.reverse() + s;
    lemma_pop_prefix(t, vs.len());
    assert(t.take(vs.len() as int) =~= vs.reverse());
    assert(t.skip(vs.len() as int) =~= s);
}

/// The length after a trace in which no pop ever finds the queue empty:
/// starting empty, and with every prefix popping no more than it has
/// pushed, the final length is the number of pushes minus the number of
/// pops.  A pop on an empty queue returns nothing and leaves the length
/// unchanged, as `pop_front` and `pop_back` state.
pub proof fn lemma_len_after_trace<T>(ops: Seq<DequeOp<T>>)
    requires
        forall|k: int| 0 <= k <= ops.len() ==> count_pops(#[trigger] ops.take(k)) <= count_pushes(
            ops.take(k),
        ),
    ensures
        run_ops(Seq::<T>::empty(), ops).len() == count_pushes(ops) - count_pops(ops),
{
    lemma_len_after_trace_general(Seq::<T>::empty(), ops);
}

/// The generalised form: from any starting queue, as long as no prefix
/// pops more than the start held plus what it pushed, the final length is
/// start plus pushes minus pops.
proof fn lemma_len_after_trace_general<T>(s: Seq<T>, ops: Seq<DequeOp<T>>)
    requires
        forall|k: int| 0 <= k <= ops.len() ==> count_pops(#[trigger] ops.take(k)) <= s.len()
            + count_pushes(ops.take(k)),
    ensures
        run_ops(s, ops).len() == s.len() + count_pushes(ops) - count_pops(ops),
    decreases ops.len(),
{
    if ops.len() > 0 {
        let s1 = apply_op(s, ops[0]);
        let rest = ops.drop_first();
        assert(ops.take(1)[0] == ops[0]);
        assert(ops.take(1).drop_first() =~= Seq::<DequeOp<T>>::empty());
        assert(count_pops(ops.take(1)) <= s.len() + count_pushes(ops.take(1)));
        assert(count_pops(Seq::<DequeOp<T>>::empty()) == 0);
        assert(count_pushes(Seq::<DequeOp<T>>::empty()) == 0);
        assert(count_pops(ops.take(1)) == count_pops(Seq::<DequeOp<T>>::empty()) + match ops[0] {
            DequeOp::PopFront => 1nat,
            DequeOp::PopBack => 1nat,
            _ => 0nat,
        });
        assert(count_pushes(ops.take(1)) == count_pushes(Seq::<DequeOp<T>>::empty())
            + match ops[0] {
            DequeOp::PushBack(_) => 1nat,
            DequeOp::PushFront(_) => 1nat,
            _ => 0nat,
        });
        assert forall|k: int| 0 <= k <= rest.len() implies count_pops(#[trigger] rest.take(k))
            <= s1.len() + count_pushes(rest.take(k)) by {
            let kk = k + 1;
            assert(count_pops(ops.take(kk)) <= s.len() + count_pushes(ops.take(kk)));
            assert(ops.take(kk)[0] == ops[0]);
            assert(ops.take(kk).drop_first() =~= rest.take(k));
            match ops[0] {
                DequeOp::PushBack(_) => {
                    assert(s1.len() == s.len() + 1);
                },
                DequeOp::PushFront(_) => {
                    assert(s1.len() == s.len() + 1);
                },
                DequeOp::PopFront => {
                    assert(s.len() >= 1);
                },
                DequeOp::PopBack => {
                    assert(s.len() >= 1);
                },
            }
        }
        lemma_len_after_trace_general(s1, rest);
        match ops[0] {
            DequeOp::PushBack(_) => {
                assert(s1.len() == s.len() + 1);
                assert(count_pushes(ops) == count_pushes(rest) + 1);
                assert(count_pops(ops) == count_pops(rest));
            },
            DequeOp::PushFront(_) => {
                assert(s1.len() == s.len() + 1);
                assert(count_pushes(ops) == count_pushes(rest) + 1);
                assert(count_pops(ops) == count_pops(rest));
            },
            DequeOp::PopFront => {
                assert(s.len() >= 1);
                assert(s1.len() == s.len() - 1);
                assert(count_pushes(ops) == count_pushes(rest));
                assert(count_pops(ops) == count_pops(rest) + 1);
            },
            DequeOp::PopBack => {
                assert(s.len() >= 1);
                assert(s1.len() == s.len() - 1);
                assert(count_pushes(ops) == count_pushes(rest));
                assert(count_pops(ops) == count_pops(rest) + 1);
            },
        }
    }
}

/// Walking a queue forward, and walking it backward and reversing what
/// came out, list the same values: the two directions of iteration agree.
pub proof fn lemma_iterate_directions<T>(s: Seq<T>)
    ensures
        iterate_forward(s) == s,
        iterate_backward(s) == s.reverse(),
        iterate_forward(s) == iterate_backward(s).reverse(),
    decreases s.len(),
{
    if s.len() == 0 {
        assert(iterate_forward(s) =~= s);
        assert(iterate_backward(s) =~= s.reverse());
    } else {
        lemma_iterate_directions(s.drop_first());
        lemma_iterate_directions(s.drop_last());
        assert(iterate_forward(s) =~= s);
        assert(iterate_backward(s) =~= s.reverse());
    }
    assert(s.reverse().reverse() =~= s);
}

/// The values yielded by stepping through a queue from the front, as the
/// iterators' `next` describes each step.
pub open spec fn iterate_forward<T>(s: Seq<T>) -> Seq<T>
    decreases s.len(),
{
    if s.len() == 0 {
        Seq::<T>::empty()
    } else {
        seq![s[0]] + iterate_forward(s.drop_first())
    }
}

/// The values yielded by stepping through a queue from the back, as the
/// iterators' `next_back` describes each step.
pub open spec fn iterate_backward<T>(s: Seq<T>) -> Seq<T>
    decreases s.len(),
{
    if s.len() == 0 {
        Seq::<T>::empty()
    } else {
        seq![s.last()] + iterate_backward(s.drop_last())
    }
}

impl<T> Default for Dequeue<T> {
    /// Creates an empty queue.
    fn default() -> (d: Self)
        ensures
            d@ == Seq::<T>::empty(),
    {
        Dequeue::new()
    }
}


/// The rendering of a run of string slices, each wrapped in double
/// quotes, separated by commas.
pub open spec fn quoted_items(s: Seq<&str>) -> Seq<char>
    decreases s.len(),
{
    if s.len() == 0 {
        Seq::<char>::empty()
    } else if s.len() == 1 {
        seq!['"'] + s[0]@ + seq!['"']
    } else {
        seq!['"'] + s[0]@ + seq!['"', ',', ' '] + quoted_items(s.drop_first())
    }
}

/// The rendering of a run of string slices as a bracketed list of quoted
/// values.
pub open spec fn quoted_list(s: Seq<&str>) -> Seq<char> {
    seq!['['] + quoted_items(s) + seq![']']
}

/// Appends the decimal rendering of the values from position `i` on,
/// separated by commas.
fn push_decimal_items(v: &Vec<i32>, i: usize, out: &mut String)
    requires
        i <= v@.len(),
    ensures
        final(out)@ == old(out)@ + crate::decimal::decimal_items(
            v@.skip(i as int).map_values(|x: i32| x as int),
        ),
    decreases v@.len() - i,
{
    let ghost m = v@.skip(i as int).map_values(|x: i32| x as int);
    if i < v.len() {
        proof {
            assert(m[0] == v@[i as int] as int);
            assert(m.drop_first() =~= v@.skip(i as int + 1).map_values(|x: i32| x as int));
        }
        crate::decimal::push_signed(v[i] as i64, out);
        if i + 1 < v.len() {
            proof {
                reveal_strlit(", ");
            }
            out.append(", ");
            push_decimal_items(v, i + 1, out);
            proof {
                assert(final(out)@ =~= old(out)@ + crate::decimal::decimal_items(m));
            }
        } else {
            proof {
                assert(m.len() == 1);
                assert(final(out)@ =~= old(out)@ + crate::decimal::decimal_items(m));
            }
        }
    } else {
        proof {
            assert(m =~= Seq::<int>::empty());
            assert(final(out)@ =~= old(out)@ + crate::decimal::decimal_items(m));
        }
    }
}

/// Appends the quoted rendering of the string slices from position `i`
/// on, separated by commas.
fn push_quoted_items<'s>(v: &Vec<&'s str>, i: usize, out: &mut String)
    requires
        i <= v@.len(),
    ensures
        final(out)@ == old(out)@ + quoted_items(v@.skip(i as int)),
    decreases v@.len() - i,
{
    let ghost m = v@.skip(i as int);
    if i < v.len() {
        proof {
            reveal_strlit("\"");
            assert(m[0] == v@[i as int]);
            assert(m.drop_first() =~= v@.skip(i as int + 1));
        }
        out.append("\"");
        let x: &str = v[i];
        out.append(x);
        out.append("\"");
        if i + 1 < v.len() {
            proof {
                reveal_strlit(", ");
            }
            out.append(", ");
            push_quoted_items(v, i + 1, out);
            proof {
                assert(final(out)@ =~= old(out)@ + quoted_items(m));
            }
        } else {
            proof {
                assert(m.len() == 1);
                assert(final(out)@ =~= old(out)@ + quoted_items(m));
            }
        }
    } else {
        proof {
            assert(m =~= Seq::<&str>::empty());
            assert(final(out)@ =~= old(out)@ + quoted_items(m));
        }
    }
}

impl Dequeue<i32> {
    /// Renders the queue as a bracketed, comma-separated decimal list:
    /// the queue's string form.
    pub fn to_debug_string(&self) -> (r: String)
        ensures
            r@ == crate::decimal::decimal_list(self@.map_values(|x: i32| x as int)),
    {
        proof {
            reveal_strlit("[");
            reveal_strlit("]");
        }
        let mut out = String::new();
        out.append("[");
        push_decimal_items(&self.items, 0, &mut out);
        out.append("]");
        proof {
            assert(self@.skip(0) =~= self@);
            assert(out@ =~= crate::decimal::decimal_list(self@.map_values(|x: i32| x as int)));
        }
        out
    }
}

impl<'s> Dequeue<&'s str> {
    /// Renders the queue as a bracketed, comma-separated list of its
    /// values, each wrapped in double quotes.
    pub fn to_debug_string(&self) -> (r: String)
        ensures
            r@ == quoted_list(self@),
    {
        proof {
            reveal_strlit("[");
            reveal_strlit("]");
        }
        let mut out = String::new();
        out.append("[");
        push_quoted_items(&self.items, 0, &mut out);
        out.append("]");
        proof {
            assert(self@.skip(0) =~= self@);
            assert(out@ =~= quoted_list(self@));
        }
        out
    }
}

} // verus!
