//! The host's C-layout vector. In the host it is a triple of pointers
//! (begin, end, reserved end) into the C heap; here it is modelled by its
//! content and its reserved capacity. An empty vector has no allocation at
//! all (capacity zero), and a full one doubles its capacity on the next
//! push, exactly as the host's allocator-compatible growth works.

use vstd::prelude::*;

verus! {

/// A C-layout vector: the stored items and the reserved capacity.
pub struct CVec<T> {
    /// The items, in insertion order.
    pub items: Vec<T>,
    /// How many items the current allocation can hold; zero when nothing
    /// has been allocated yet.
    pub cap: usize,
}

impl<T> CVec<T> {
    /// The stored length never exceeds the reservation.
    pub open spec fn wf(self) -> bool {
        self.items@.len() <= self.cap
    }

    /// A vector with no allocation: in the host, three null pointers.
    pub fn empty() -> (r: Self)
        ensures
            r.wf(),
            r.items@.len() == 0,
            r.cap == 0,
    {
        CVec { items: Vec::new(), cap: 0 }
    }

    /// Append an item. A first push allocates room for exactly one item;
    /// a push into a full vector doubles the reservation first.
    pub fn insert(&mut self, item: T)
        requires
            old(self).wf(),
            old(self).cap <= usize::MAX / 2,
        ensures
            final(self).wf(),
            final(self).items@ == old(self).items@.push(item),
            final(self).cap == (if old(self).items@.len() == old(self).cap {
                if old(self).cap == 0 {
                    1usize
                } else {
                    (old(self).cap * 2) as usize
                }
            } else {
                old(self).cap
            }),
    {
        if self.items.len() == self.cap {
            if self.cap == 0 {
                self.cap = 1;
            } else {
                self.cap = self.cap * 2;
            }
        }
        self.items.push(item);
    }

    /// Number of stored items.
    pub fn len(&self) -> (r: usize)
        ensures
            r == self.items@.len(),
    {
        self.items.len()
    }

    /// True when nothing is stored.
    pub fn is_empty(&self) -> (r: bool)
        ensures
            r == (self.items@.len() == 0),
    {
        self.items.len() == 0
    }

    /// The item at position `i`, in insertion order.
    pub fn get(&self, i: usize) -> (r: &T)
        requires
            i < self.items@.len(),
        ensures
            *r == self.items@[i as int],
    {
        &self.items[i]
    }

    /// The reserved capacity.
    pub fn capacity(&self) -> (r: usize)
        ensures
            r == self.cap,
    {
        self.cap
    }

    /// The stored items as a list of references, in insertion order. In the
    /// host this walks the pointer range; absurd counts cannot arise in the
    /// model, where the length is the content's length by construction.
    pub fn to_list(&self) -> (r: Vec<&T>)
        ensures
            r@.map_values(|v: &T| *v) == self.items@,
    {
        let mut r: Vec<&T> = Vec::new();
        let mut i: usize = 0;
        while i < self.items.len()
            invariant
                i <= self.items@.len(),
                r@.len() == i,
                forall|j: int| 0 <= j < i ==> r@[j] == &self.items@[j],
            decreases self.items@.len() - i,
        {
            r.push(&self.items[i]);
            i = i + 1;
        }
        proof {
            assert(r@.map_values(|v: &T| *v) =~= self.items@);
        }
        r
    }
}

} // verus!
