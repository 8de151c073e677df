//! A growable contiguous array built over an explicit capacity protocol:
//! the buffer's capacity starts at zero and doubles on demand, and the
//! vector guarantees that its length never exceeds that capacity.

use vstd::prelude::*;

verus! {

/// Capacity bookkeeping for a [`Vector`]: how many slots the backing
/// storage is committed to before it must grow again.
///
/// A fresh buffer commits to no slots at all, except for zero-sized values,
/// which need no storage: for those the buffer reports itself permanently
/// full-sized, so that the owning vector never asks it to grow.
pub struct Buffer<T> {
    cap: usize,
    _marker: core::marker::PhantomData<T>,
}

impl<T> Buffer<T> {
    /// The number of slots the buffer is committed to.
    pub closed spec fn capacity(self) -> usize {
        self.cap
    }

    /// Creates a buffer committed to no slots, or to every representable
    /// slot when `T` is zero-sized.
    pub fn new() -> (b: Self)
        ensures
            vstd::layout::size_of::<T>() == 0 ==> b.capacity() == usize::MAX,
            vstd::layout::size_of::<T>() != 0 ==> b.capacity() == 0,
    {
        let cap: usize = if core::mem::size_of::<T>() == 0 {
            usize::MAX
        } else {
            0
        };
        Buffer { cap, _marker: core::marker::PhantomData }
    }

    /// Doubles the committed capacity; the first growth goes from zero to
    /// one slot.  Never called for zero-sized values, whose buffer is
    /// always full-sized.
    fn grow(&mut self)
        requires
            vstd::layout::size_of::<T>() != 0,
            old(self).capacity() <= usize::MAX / 2,
        ensures
            final(self).capacity() == if old(self).capacity() == 0 {
                1usize
            } else {
                (2 * old(self).capacity()) as usize
            },
    {
        if self.cap == 0 {
            self.cap = 1;
        } else {
            self.cap = self.cap * 2;
        }
    }
}

/// A growable contiguous array.
///
/// The view of a `Vector` is the sequence of its values in index order.
pub struct Vector<T> {
    buf: Buffer<T>,
    items: Vec<T>,
}

impl<T> View for Vector<T> {
    type V = Seq<T>;

    closed spec fn view(&self) -> Seq<T> {
        self.items@
    }
}

impl<T> Vector<T> {
    /// A vector is well formed when its length stays within the buffer's
    /// committed capacity, and the buffer of a zero-sized value type is
    /// permanently full-sized.
    pub closed spec fn wf(self) -> bool {
        &&& self.items@.len() <= self.buf.capacity()
        &&& vstd::layout::size_of::<T>() == 0 ==> self.buf.capacity() == usize::MAX
    }

    /// The number of slots the vector may fill before its buffer grows.
    pub closed spec fn capacity(self) -> usize {
        self.buf.capacity()
    }

    /// Returns the capacity of the buffer.
    fn cap(&self) -> (c: usize)
        ensures
            c == self.capacity(),
    {
        self.buf.cap
    }

    /// Creates an empty vector; no storage is committed yet.
    pub fn new() -> (v: Self)
        ensures
            v.wf(),
            v@ == Seq::<T>::empty(),
            vstd::layout::size_of::<T>() != 0 ==> v.capacity() == 0,
    {
        Vector { buf: Buffer::new(), items: Vec::new() }
    }

    /// Returns the number of values held.
    pub fn len(&self) -> (n: usize)
        ensures
            n == self@.len(),
    {
        self.items.len()
    }

    /// Appends `value`, first doubling the buffer's capacity when it is
    /// full.
    pub fn push(&mut self, value: T)
        requires
            old(self).wf(),
            old(self)@.len() < usize::MAX,
            old(self)@.len() == old(self).capacity() ==> old(self).capacity() <= usize::MAX / 2,
        ensures
            final(self).wf(),
            final(self)@ == old(self)@.push(value),
            final(self).capacity() == if old(self)@.len() == old(self).capacity() {
                if old(self).capacity() == 0 {
                    1usize
                } else {
                    (2 * old(self).capacity()) as usize
                }
            } else {
                old(self).capacity()
            },
    {
        if self.items.len() == self.cap() {
            self.buf.grow();
        }
        self.items.push(value);
    }

    /// Removes and returns the last value, or `None` when the vector is
    /// empty, in which case the vector is unchanged.  The capacity never
    /// shrinks.
    pub fn pop(&mut self) -> (r: Option<T>)
        requires
            old(self).wf(),
        ensures
            final(self).wf(),
            final(self).capacity() == old(self).capacity(),
            old(self)@.len() == 0 ==> r is None && final(self)@ == old(self)@,
            old(self)@.len() > 0 ==> r == Some(old(self)@.last()) && final(self)@ == old(self)@.drop_last(),
    {
        self.items.pop()
    }

    /// Inserts `value` at `index`, shifting everything at and after it one
    /// slot towards the back; `index` may equal the length, which appends.
    pub fn insert(&mut self, index: usize, value: T)
        requires
            old(self).wf(),
            index <= old(self)@.len(),
            old(self)@.len() < usize::MAX,
            old(self)@.len() == old(self).capacity() ==> old(self).capacity() <= usize::MAX / 2,
        ensures
            final(self).wf(),
            final(self)@ == old(self)@.insert(index as int, value),
    {
        if self.cap() == self.items.len() {
            self.buf.grow();
        }
        self.items.insert(index, value);
    }

    /// Removes and returns the value at `index`, shifting everything after
    /// it one slot towards the front.
    pub fn remove(&mut self, index: usize) -> (r: T)
        requires
            old(self).wf(),
            index < old(self)@.len(),
        ensures
            final(self).wf(),
            r == old(self)@[index as int],
            final(self)@ == old(self)@.remove(index as int),
    {
        self.items.remove(index)
    }

    /// Returns a reference to the value at `index`.
    pub fn get(&self, index: usize) -> (r: &T)
        requires
            index < self@.len(),
        ensures
            r == self@[index as int],
    {
        &self.items[index]
    }

    /// Returns a mutable reference to the value at `index`.
    pub fn get_mut(&mut self, index: usize) -> (r: &mut T)
        requires
            old(self).wf(),
            index < old(self)@.len(),
        ensures
            final(self).wf(),
            *r == old(self)@[index as int],
            final(self)@ == old(self)@.update(index as int, *final(r)),
            final(self).capacity() == old(self).capacity(),
    {
        &mut self.items[index]
    }

    /// Takes every value out into a draining iterator.  The vector is empty
    /// from the moment `drain` returns, whether or not the iterator is ever
    /// consumed; it stays borrowed until the iterator is given up.
    pub fn drain(&mut self) -> (d: Drain<'_, T>)
        requires
            old(self).wf(),
        ensures
            final(self).wf(),
            final(self)@ == Seq::<T>::empty(),
            final(self).capacity() == old(self).capacity(),
            d.remaining() == old(self)@,
    {
        let mut taken: Vec<T> = Vec::new();
        core::mem::swap(&mut taken, &mut self.items);
        Drain { items: taken, _vec: core::marker::PhantomData }
    }

    /// Turns the vector into an iterator that yields ownership of every
    /// value in index order; the storage is given up only when the iterator
    /// is.
    pub fn into_iter(self) -> (it: IntoIter<T>)
        ensures
            it.remaining() == self@,
    {
        let Vector { buf, items } = self;
        IntoIter { _buf: buf, items }
    }
}

/// An iterator that owns every value drained out of a [`Vector`]; values
/// not consumed before it is given up are simply dropped with it.
pub struct Drain<'a, T> {
    items: Vec<T>,
    _vec: core::marker::PhantomData<&'a mut Vector<T>>,
}

impl<'a, T> Drain<'a, T> {
    /// The values the iterator has not yielded yet, in index order.
    pub closed spec fn remaining(self) -> Seq<T> {
        self.items@
    }

    /// Yields the first remaining value.
    pub fn next(&mut self) -> (r: Option<T>)
        ensures
            old(self).remaining().len() == 0 ==> r is None && final(self).remaining() == old(self).remaining(),
            old(self).remaining().len() > 0 ==> r == Some(old(self).remaining()[0])
                && final(self).remaining() == old(self).remaining().drop_first(),
    {
        if self.items.len() == 0 {
            None
        } else {
            let value = self.items.remove(0);
            proof {
                assert(final(self).remaining() =~= old(self).remaining().drop_first());
            }
            Some(value)
        }
    }

    /// Yields the last remaining value.
    pub fn next_back(&mut self) -> (r: Option<T>)
        ensures
            old(self).remaining().len() == 0 ==> r is None && final(self).remaining() == old(self).remaining(),
            old(self).remaining().len() > 0 ==> r == Some(old(self).remaining().last())
                && final(self).remaining() == old(self).remaining().drop_last(),
    {
        self.items.pop()
    }

    /// Returns the exact number of values not yielded yet, as the pair of a
    /// lower bound and an optional upper bound.
    pub fn size_hint(&self) -> (r: (usize, Option<usize>))
        ensures
            r.0 == self.remaining().len(),
            r.1 == Some(r.0),
    {
        (self.items.len(), Some(self.items.len()))
    }
}

/// An iterator that owns a whole [`Vector`]'s values; values not consumed
/// before it is given up are simply dropped with it.
pub struct IntoIter<T> {
    _buf: Buffer<T>,
    items: Vec<T>,
}

impl<T> IntoIter<T> {
    /// The values the iterator has not yielded yet, in index order.
    pub closed spec fn remaining(self) -> Seq<T> {
        self.items@
    }

    /// Yields the first remaining value.
    pub fn next(&mut self) -> (r: Option<T>)
        ensures
            old(self).remaining().len() == 0 ==> r is None && final(self).remaining() == old(self).remaining(),
            old(self).remaining().len() > 0 ==> r == Some(old(self).remaining()[0])
                && final(self).remaining() == old(self).remaining().drop_first(),
    {
        if self.items.len() == 0 {
            None
        } else {
            let value = self.items.remove(0);
            proof {
                assert(final(self).remaining() =~= old(self).remaining().drop_first());
            }
            Some(value)
        }
    }

    /// Yields the last remaining value.
    pub fn next_back(&mut self) -> (r: Option<T>)
        ensures
            old(self).remaining().len() == 0 ==> r is None && final(self).remaining() == old(self).remaining(),
            old(self).remaining().len() > 0 ==> r == Some(old(self).remaining().last())
                && final(self).remaining() == old(self).remaining().drop_last(),
    {
        self.items.pop()
    }

    /// Returns the exact number of values not yielded yet, as the pair of a
    /// lower bound and an optional upper bound.
    pub fn size_hint(&self) -> (r: (usize, Option<usize>))
        ensures
            r.0 == self.remaining().len(),
            r.1 == Some(r.0),
    {
        (self.items.len(), Some(self.items.len()))
    }
}

} // verus!
