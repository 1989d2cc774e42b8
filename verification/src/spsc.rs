//! The entry-granular single-producer single-consumer ring: a bounded
//! first-in first-out queue of whole entries, capacity rounded up to a
//! power of two, rejecting pushes when full.

use vstd::prelude::*;
use vstd::arithmetic::power2::pow2;
use vstd::arithmetic::power2::lemma_pow2_adds;
use vstd::arithmetic::power2::lemma2_to64;

verus! {

/// A bounded first-in first-out ring of whole entries.
pub struct SpscRing<T> {
    items: Vec<T>,
    capacity: usize,
}

/// The smallest power of two at or above `capacity`.
pub open spec fn spec_next_pow2(capacity: int, c: int) -> bool {
    &&& c >= capacity
    &&& c >= 1
    &&& c < 2 * capacity || (capacity <= 1 && c == 1)
}

/// Creates a bounded ring with the given capacity, rounded up to the next
/// power of two.
pub fn ring_buffer<T>(capacity: usize) -> (r: SpscRing<T>)
    requires
        0 < capacity <= 0x4000_0000,
    ensures
        r.wf(),
        r.len_spec() == 0,
        spec_next_pow2(capacity as int, r.capacity_spec()),
        exists|k: nat| r.capacity_spec() == pow2(k),
{
    let mut c: usize = 1;
    proof {
        lemma2_to64();
        assert(exists|k: nat| c as nat == pow2(k)) by {
            assert(c as nat == pow2(0));
        }
    }
    while c < capacity
        invariant
            1 <= c,
            capacity <= 0x4000_0000,
            c < 2 * capacity,
            exists|k: nat| c as nat == pow2(k),
        decreases 2 * capacity - c,
    {
        let ghost k0 = choose|k: nat| c as nat == pow2(k);
        proof {
            lemma_pow2_adds(k0, 1);
            lemma2_to64();
            assert(2 * c as nat == pow2(k0 + 1));
        }
        c = c * 2;
        proof {
            assert(c as nat == pow2(k0 + 1));
            assert(exists|k: nat| c as nat == pow2(k));
        }
    }
    SpscRing { items: Vec::new(), capacity: c }
}

impl<T> SpscRing<T> {
    /// The entries in the ring, oldest first.
    pub closed spec fn view_items(&self) -> Seq<T> {
        self.items@
    }

    /// The fixed capacity.
    pub closed spec fn capacity_spec(&self) -> int {
        self.capacity as int
    }

    /// The number of entries held.
    pub open spec fn len_spec(&self) -> int {
        self.view_items().len() as int
    }

    /// The ring never holds more than its capacity.
    pub closed spec fn wf(&self) -> bool {
        &&& self.items@.len() <= self.capacity
        &&& self.capacity >= 1
    }

    /// Pushes an entry; when the ring is full, ownership of the entry
    /// comes back to the caller and nothing changes.
    pub fn push_write(&mut self, value: T) -> (r: Result<(), T>)
        requires
            old(self).wf(),
        ensures
            final(self).wf(),
            final(self).capacity_spec() == old(self).capacity_spec(),
            match r {
                Ok(()) => {
                    &&& old(self).len_spec() < old(self).capacity_spec()
                    &&& final(self).view_items() =~= old(self).view_items().push(value)
                },
                Err(v) => {
                    &&& old(self).len_spec() == old(self).capacity_spec()
                    &&& v == value
                    &&& final(self).view_items() == old(self).view_items()
                },
            },
    {
        if self.items.len() < self.capacity {
            self.items.push(value);
            Ok(())
        } else {
            Err(value)
        }
    }

    /// Pops the oldest entry; nothing when the ring is empty.
    pub fn pop(&mut self) -> (r: Option<T>)
        requires
            old(self).wf(),
        ensures
            final(self).wf(),
            final(self).capacity_spec() == old(self).capacity_spec(),
            match r {
                Some(v) => {
                    &&& old(self).len_spec() > 0
                    &&& v == old(self).view_items()[0]
                    &&& final(self).view_items() =~= old(self).view_items().skip(1)
                },
                None => {
                    &&& old(self).len_spec() == 0
                    &&& final(self).view_items() == old(self).view_items()
                },
            },
    {
        if self.items.len() > 0 {
            let v = self.items.remove(0);
            proof {
                assert(self.items@ =~= old(self).view_items().skip(1));
            }
            Some(v)
        } else {
            None
        }
    }

    /// The fixed capacity of the ring.
    pub fn capacity(&self) -> (r: usize)
        ensures
            r == self.capacity_spec(),
    {
        self.capacity
    }

    /// Whether the other endpoint is gone; in this in-process form both
    /// endpoints live exactly as long as the ring, so never.
    pub fn is_disconnected(&self) -> (r: bool)
        ensures
            !r,
    {
        false
    }
}

} // verus!
