use vstd::prelude::*;

verus! {

/// Simple first-in first-out queue, which can also be cut back to an earlier size.
pub struct Queue<T> {
    buffer: Vec<T>,
}

impl<T> View for Queue<T> {
    type V = Seq<T>;

    /// The items of the queue, head first.
    closed spec fn view(&self) -> Seq<T> {
        self.buffer@
    }
}

impl<T> Queue<T> {
    /// Creates the queue empty.
    pub fn build() -> (r: Queue<T>)
        ensures
            r@ == Seq::<T>::empty(),
    {
        Queue { buffer: Vec::new() }
    }

    /// Returns the size of the queue.
    pub fn size(&self) -> (r: usize)
        ensures
            r == self@.len(),
    {
        self.buffer.len()
    }

    /// Appends an element to the tail of the queue.
    pub fn append(&mut self, x: T)
        ensures
            final(self)@ == old(self)@.push(x),
    {
        self.buffer.push(x);
    }

    /// Reduces the queue to its first `new_size` elements; a larger
    /// `new_size` leaves it as it is.
    pub fn reduce_to(&mut self, new_size: usize)
        ensures
            final(self)@ == if new_size < old(self)@.len() {
                old(self)@.subrange(0, new_size as int)
            } else {
                old(self)@
            },
    {
        if new_size < self.buffer.len() {
            self.buffer.truncate(new_size);
        }
    }

    /// Removes and returns the first element of the queue.
    pub fn dequeue(&mut self) -> (r: T)
        requires
            old(self)@.len() > 0,
        ensures
            r == old(self)@[0],
            final(self)@ == old(self)@.drop_first(),
    {
        self.buffer.remove(0)
    }

    /// True when the queue holds no element.
    pub fn is_empty(&self) -> (r: bool)
        ensures
            r == (self@.len() == 0),
    {
        self.buffer.is_empty()
    }
}

} // verus!
