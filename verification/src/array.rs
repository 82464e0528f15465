//! A capacity-bounded sequence.
//!
//! `Array<T, N>` holds at most `N` elements of a plain-data type.  It backs
//! each rigid body's shape list, where a small fixed capacity suffices and a
//! hard bound is part of the design: growing past the capacity is a contract
//! violation, not a reallocation.

use vstd::prelude::*;

verus! {

/// A bounded sequence of at most `N` elements.
pub struct Array<T: Copy, const N: usize> {
    vec: Vec<T>,
}

impl<T: Copy, const N: usize> View for Array<T, N> {
    type V = Seq<T>;

    closed spec fn view(&self) -> Seq<T> {
        self.vec@
    }
}

impl<T: Copy, const N: usize> Array<T, N> {
    /// The length never exceeds the capacity.
    pub open spec fn wf(self) -> bool {
        self@.len() <= N
    }

    pub fn new() -> (r: Array<T, N>)
        ensures
            r@ == Seq::<T>::empty(),
            r.wf(),
    {
        Array { vec: Vec::new() }
    }

    pub fn capacity(&self) -> (r: usize)
        ensures
            r == N,
    {
        N
    }

    pub fn len(&self) -> (r: usize)
        ensures
            r == self@.len(),
    {
        self.vec.len()
    }

    pub fn is_empty(&self) -> (r: bool)
        ensures
            r <==> self@.len() == 0,
    {
        self.vec.is_empty()
    }

    /// The same elements in a container of a larger capacity.
    pub fn reserve_exact<const M: usize>(self) -> (r: Array<T, M>)
        requires
            N <= M,
            self.wf(),
        ensures
            r@ == self@,
            r.wf(),
    {
        Array { vec: self.vec }
    }

    /// Keep only the first `len` elements; a larger `len` changes nothing.
    pub fn truncate(&mut self, len: usize)
        ensures
            len <= old(self)@.len() ==> final(self)@ == old(self)@.subrange(0, len as int),
            len > old(self)@.len() ==> final(self)@ == old(self)@,
            old(self).wf() ==> final(self).wf(),
    {
        self.vec.truncate(len);
    }

    pub fn as_slice(&self) -> (r: &[T])
        ensures
            r@ == self@,
    {
        self.vec.as_slice()
    }

    /// Remove the element at `index`, moving the last element into its place.
    pub fn swap_remove(&mut self, index: usize) -> (r: T)
        requires
            index < old(self)@.len(),
        ensures
            r == old(self)@[index as int],
            final(self)@ == old(self)@.update(index as int, old(self)@.last()).drop_last(),
            old(self).wf() ==> final(self).wf(),
    {
        self.vec.swap_remove(index)
    }

    /// Insert `element` at `index`, shifting later elements up by one.
    pub fn insert(&mut self, index: usize, element: T)
        requires
            index <= old(self)@.len(),
            old(self)@.len() < N,
        ensures
            final(self)@ == old(self)@.insert(index as int, element),
            old(self).wf() ==> final(self).wf(),
    {
        self.vec.insert(index, element);
    }

    /// Remove and return the element at `index`, shifting later elements down.
    pub fn remove(&mut self, index: usize) -> (r: T)
        requires
            index < old(self)@.len(),
        ensures
            r == old(self)@[index as int],
            final(self)@ == old(self)@.remove(index as int),
            old(self).wf() ==> final(self).wf(),
    {
        self.vec.remove(index)
    }

    /// Append `value`; room for it is the caller's obligation.
    pub fn push(&mut self, value: T)
        requires
            old(self)@.len() < N,
        ensures
            final(self)@ == old(self)@.push(value),
            old(self).wf() ==> final(self).wf(),
    {
        self.vec.push(value);
    }

    /// Remove and return the last element, if any.
    pub fn pop(&mut self) -> (r: Option<T>)
        ensures
            old(self)@.len() == 0 ==> r is None && final(self)@ == old(self)@,
            old(self)@.len() > 0 ==> r == Some(old(self)@.last()) && final(self)@ == old(self)@.drop_last(),
            old(self).wf() ==> final(self).wf(),
    {
        self.vec.pop()
    }

    pub fn clear(&mut self)
        ensures
            final(self)@ == Seq::<T>::empty(),
            final(self).wf(),
    {
        self.vec.clear();
    }

    /// Read the element at `index`.
    pub fn index(&self, index: usize) -> (r: T)
        requires
            index < self@.len(),
        ensures
            r == self@[index as int],
    {
        self.vec[index]
    }

    /// Overwrite the element at `index`.
    pub fn set(&mut self, index: usize, value: T)
        requires
            index < old(self)@.len(),
        ensures
            final(self)@ == old(self)@.update(index as int, value),
            old(self).wf() ==> final(self).wf(),
    {
        self.vec[index] = value;
    }

    /// An independent copy with the same elements.
    pub fn duplicate(&self) -> (r: Array<T, N>)
        ensures
            r@ == self@,
    {
        let mut vec: Vec<T> = Vec::new();
        let mut i: usize = 0;
        while i < self.vec.len()
            invariant
                i <= self.vec.len(),
                vec@ == self.vec@.subrange(0, i as int),
            decreases self.vec.len() - i,
        {
            vec.push(self.vec[i]);
            i = i + 1;
        }
        proof {
            assert(vec@ =~= self.vec@);
        }
        Array { vec }
    }
}

} // verus!
