//! A fixed-capacity circular list. Pushing beyond the capacity overwrites
//! the oldest element; reading hands the kept elements back oldest first.

use vstd::prelude::*;

verus! {

/// Circular list of at most `capacity` elements.
pub struct Ring<T> {
    buffer: Vec<T>,
    capacity: usize,
    /// Once `buffer` has grown to the full capacity, the index of the oldest
    /// element; `None` while the ring is still filling up.
    oldest_ind: Option<usize>,
}

impl<T: Copy> Ring<T> {
    /// The kept elements, oldest first.
    pub closed spec fn view(self) -> Seq<T> {
        match self.oldest_ind {
            Some(n) => self.buffer@.skip(n as int) + self.buffer@.take(n as int),
            None => self.buffer@,
        }
    }

    /// The capacity the ring was made with.
    pub closed spec fn spec_capacity(self) -> usize {
        self.capacity
    }

    /// Internal consistency: the buffer never exceeds the capacity, and the
    /// oldest-element index is set exactly when the buffer is full.
    pub closed spec fn wf(self) -> bool {
        match self.oldest_ind {
            Some(n) => self.buffer@.len() == self.capacity && n < self.capacity,
            None => self.buffer@.len() < self.capacity,
        }
    }

    /// A ring of `capacity` elements; the capacity must be positive.
    pub fn new(capacity: usize) -> (r: Ring<T>)
        requires
            capacity > 0,
        ensures
            r.wf(),
            r@.len() == 0,
            r.spec_capacity() == capacity,
    {
        Ring { buffer: Vec::new(), capacity, oldest_ind: None }
    }

    /// Appends an element; once the ring is full, the oldest element makes
    /// room for it.
    pub fn push(&mut self, value: T)
        requires
            old(self).wf(),
        ensures
            final(self).wf(),
            final(self).spec_capacity() == old(self).spec_capacity(),
            old(self)@.len() < old(self).spec_capacity() ==> final(self)@ == old(self)@.push(
                value,
            ),
            old(self)@.len() == old(self).spec_capacity() ==> final(self)@ == old(
                self,
            )@.skip(1).push(value),
    {
        let ghost pre = *self;
        match self.oldest_ind {
            Some(i) => {
                self.buffer.set(i, value);
                self.oldest_ind = if i + 1 == self.buffer.len() {
                    Some(0)
                } else {
                    Some(i + 1)
                };
                proof {
                    assert(pre@.len() == pre.spec_capacity());
                    assert(self@ =~= pre@.skip(1).push(value));
                }
            },
            None => {
                self.buffer.push(value);
                if self.buffer.len() == self.capacity {
                    self.oldest_ind = Some(0);
                }
                proof {
                    assert(self@ =~= pre@.push(value));
                }
            },
        }
    }

    /// The kept elements, oldest first.
    pub fn iter(&self) -> (r: RingIter<T>)
        requires
            self.wf(),
        ensures
            r@ == self@,
            r.spec_pos() == 0,
            r.spec_end() == r@.len(),
    {
        let mut items: Vec<T> = Vec::new();
        match self.oldest_ind {
            Some(n) => {
                let mut i: usize = n;
                while i < self.buffer.len()
                    invariant
                        self.wf(),
                        self.oldest_ind == Some(n),
                        n <= i <= self.buffer.len(),
                        items@ == self.buffer@.subrange(n as int, i as int),
                    decreases self.buffer.len() - i,
                {
                    items.push(self.buffer[i]);
                    proof {
                        assert(items@ =~= self.buffer@.subrange(n as int, i + 1));
                    }
                    i += 1;
                }
                let mut j: usize = 0;
                while j < n
                    invariant
                        self.wf(),
                        self.oldest_ind == Some(n),
                        0 <= j <= n <= self.buffer.len(),
                        items@ == self.buffer@.skip(n as int) + self.buffer@.take(j as int),
                    decreases n - j,
                {
                    items.push(self.buffer[j]);
                    proof {
                        assert(items@ =~= self.buffer@.skip(n as int) + self.buffer@.take(j + 1));
                    }
                    j += 1;
                }
                proof {
                    assert(items@ == self@);
                }
            },
            None => {
                let mut i: usize = 0;
                while i < self.buffer.len()
                    invariant
                        self.wf(),
                        self.oldest_ind is None,
                        0 <= i <= self.buffer.len(),
                        items@ == self.buffer@.take(i as int),
                    decreases self.buffer.len() - i,
                {
                    items.push(self.buffer[i]);
                    proof {
                        assert(items@ =~= self.buffer@.take(i + 1));
                    }
                    i += 1;
                }
                proof {
                    assert(items@ =~= self@);
                }
            },
        }
        let end = items.len();
        RingIter { items, pos: 0, end }
    }

    /// The oldest kept element, if any.
    pub fn first(&self) -> (r: Option<&T>)
        requires
            self.wf(),
        ensures
            self@.len() == 0 ==> r is None,
            self@.len() > 0 ==> (r matches Some(v) && *v == self@[0]),
    {
        match self.oldest_ind {
            Some(n) => Some(&self.buffer[n]),
            None => {
                if self.buffer.len() > 0 {
                    Some(&self.buffer[0])
                } else {
                    None
                }
            },
        }
    }
}

/// Walks a snapshot of a ring's elements, oldest first, from either end.
pub struct RingIter<T> {
    items: Vec<T>,
    pos: usize,
    end: usize,
}

impl<T: Copy> RingIter<T> {
    /// The snapshot being walked.
    pub closed spec fn view(self) -> Seq<T> {
        self.items@
    }

    /// The cursor from the front.
    pub closed spec fn spec_pos(self) -> usize {
        self.pos
    }

    /// The cursor from the back.
    pub closed spec fn spec_end(self) -> usize {
        self.end
    }

    /// How the two cursors stand to each other.
    pub open spec fn wf(self) -> bool {
        self.spec_pos() <= self.spec_end() <= self@.len()
    }

    /// The next element from the front, until the cursors meet.
    pub fn next(&mut self) -> (r: Option<T>)
        requires
            old(self).wf(),
        ensures
            final(self).wf(),
            final(self)@ == old(self)@,
            final(self).spec_end() == old(self).spec_end(),
            old(self).spec_pos() == old(self).spec_end() ==> r is None && final(self).spec_pos()
                == old(self).spec_pos(),
            old(self).spec_pos() < old(self).spec_end() ==> r == Some(
                old(self)@[old(self).spec_pos() as int],
            ) && final(self).spec_pos() == old(self).spec_pos() + 1,
    {
        if self.pos < self.end {
            let v = self.items[self.pos];
            self.pos += 1;
            Some(v)
        } else {
            None
        }
    }

    /// The next element from the back, until the cursors meet.
    pub fn next_back(&mut self) -> (r: Option<T>)
        requires
            old(self).wf(),
        ensures
            final(self).wf(),
            final(self)@ == old(self)@,
            final(self).spec_pos() == old(self).spec_pos(),
            old(self).spec_pos() == old(self).spec_end() ==> r is None && final(self).spec_end()
                == old(self).spec_end(),
            old(self).spec_pos() < old(self).spec_end() ==> r == Some(
                old(self)@[old(self).spec_end() - 1],
            ) && final(self).spec_end() == old(self).spec_end() - 1,
    {
        if self.pos < self.end {
            self.end -= 1;
            Some(self.items[self.end])
        } else {
            None
        }
    }

    /// How many elements are left to walk.
    pub fn len(&self) -> (r: usize)
        requires
            self.wf(),
        ensures
            r == self.spec_end() - self.spec_pos(),
    {
        self.end - self.pos
    }
}

} // verus!
