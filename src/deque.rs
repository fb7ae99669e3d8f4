//! A double-ended queue that holds at least one element.
use std::collections::VecDeque;
use vstd::prelude::*;

verus! {

/// A `VecDeque` that its users keep non-empty: every operation that could
/// empty it takes a length of at least one.
pub struct NonEmptyVecDeque<T>(VecDeque<T>);

impl<T> View for NonEmptyVecDeque<T> {
    type V = Seq<T>;

    closed spec fn view(&self) -> Seq<T> {
        self.0@
    }
}

impl<T> NonEmptyVecDeque<T> {
    /// The queue holds at least one element.
    pub open spec fn wf(&self) -> bool {
        self@.len() > 0
    }

    /// A queue holding `init` alone, with room reserved for `capacity`
    /// elements.
    pub fn new(init: T, capacity: usize) -> (r: Self)
        ensures
            r@ == seq![init],
    {
        let mut deque = VecDeque::with_capacity(capacity);
        deque.push_front(init);
        NonEmptyVecDeque(deque)
    }

    pub fn len(&self) -> (r: usize)
        ensures
            r == self@.len(),
    {
        self.0.len()
    }

    /// The element at position `i`, counted from the front.
    pub fn get(&self, i: usize) -> (r: &T)
        requires
            i < self@.len(),
        ensures
            *r == self@[i as int],
    {
        &self.0[i]
    }

    pub fn push_front(&mut self, value: T)
        ensures
            final(self)@ == seq![value] + old(self)@,
    {
        self.0.push_front(value);
    }

    pub fn push_back(&mut self, value: T)
        ensures
            final(self)@ == old(self)@.push(value),
    {
        self.0.push_back(value);
    }

    /// Pushes `value` at the front and drops the back element.
    pub fn rotate_push_front(&mut self, value: T)
        requires
            old(self).wf(),
        ensures
            final(self)@ == seq![value] + old(self)@.drop_last(),
    {
        self.0.pop_back();
        self.0.push_front(value);
    }

    /// Pushes `value` at the back and drops the front element.
    pub fn rotate_push_back(&mut self, value: T)
        requires
            old(self).wf(),
        ensures
            final(self)@ == old(self)@.drop_first().push(value),
    {
        self.0.pop_front();
        self.0.push_back(value);
    }

    /// Moves all of `other` to the back of this queue.
    pub fn append(&mut self, other: &mut NonEmptyVecDeque<T>)
        ensures
            final(self)@ == old(self)@ + old(other)@,
            final(other)@ == Seq::<T>::empty(),
    {
        self.0.append(&mut other.0);
    }

    /// Puts all of `other` in front of this queue, in its order.
    pub fn prepend(&mut self, front: NonEmptyVecDeque<T>)
        ensures
            final(self)@ == front@ + old(self)@,
    {
        let mut other = front.0;
        while other.len() > 0
            invariant
                other@ + self@ == front@ + old(self)@,
            decreases other@.len(),
        {
            match other.pop_back() {
                Some(value) => {
                    proof {
                        assert(other@.push(value) + self@ =~= other@ + (seq![value] + self@));
                    }
                    self.0.push_front(value);
                },
                None => {},
            }
        }
    }

    /// Drops as many elements from the front as `other` holds, then moves all
    /// of `other` to the back, so that the length is kept.
    pub fn rotate_append(&mut self, other: &mut NonEmptyVecDeque<T>)
        requires
            old(other)@.len() <= old(self)@.len(),
        ensures
            final(self)@ == old(self)@.skip(old(other)@.len() as int) + old(other)@,
            final(other)@ == Seq::<T>::empty(),
    {
        let n = other.0.len();
        let mut i: usize = 0;
        while i < n
            invariant
                i <= n,
                n == other@.len(),
                other@ == old(other)@,
                n <= old(self)@.len(),
                self@ == old(self)@.skip(i as int),
            decreases n - i,
        {
            self.0.pop_front();
            i = i + 1;
        }
        self.0.append(&mut other.0);
    }

    pub fn front(&self) -> (r: &T)
        requires
            self.wf(),
        ensures
            *r == self@[0],
    {
        &self.0[0]
    }

    pub fn back(&self) -> (r: &T)
        requires
            self.wf(),
        ensures
            *r == self@.last(),
    {
        &self.0[self.0.len() - 1]
    }

    /// Keeps the first `len` elements, where `len` is at least one.
    pub fn truncate(&mut self, len: usize)
        requires
            len >= 1,
        ensures
            final(self)@ == if len <= old(self)@.len() {
                old(self)@.take(len as int)
            } else {
                old(self)@
            },
    {
        self.0.truncate(len);
    }
}

} // verus!
