//! A bounded, resettable byte buffer used to stage one rendered log line
//! before it is copied into the batch buffer.

use vstd::prelude::*;
use vstd::slice::slice_index_get;
use vstd::slice::slice_subrange;

verus! {

/// A byte buffer with a write cursor.  The bytes before the cursor are the
/// staged content; the bytes after it are scratch space.
pub struct MyBytesMut {
    inner: Vec<u8>,
    pos: usize,
}

impl MyBytesMut {
    /// The staged content: everything written since the last `clear`.
    pub closed spec fn bytes(&self) -> Seq<u8> {
        self.inner@.take(self.pos as int)
    }

    /// The total capacity currently allocated.
    pub closed spec fn cap(&self) -> nat {
        self.inner@.len()
    }

    /// The write cursor never runs past the allocation.
    pub closed spec fn wf(&self) -> bool {
        self.pos <= self.inner.len()
    }

    /// A zero-filled buffer of the given capacity with the cursor at the start.
    pub fn with_capacity(capacity: usize) -> (r: Self)
        ensures
            r.wf(),
            r.bytes() =~= Seq::<u8>::empty(),
            r.cap() == capacity,
    {
        let inner: Vec<u8> = vec![0u8; capacity];
        MyBytesMut { inner, pos: 0 }
    }

    /// Resets the cursor; the capacity is kept.
    pub fn clear(&mut self)
        ensures
            final(self).wf(),
            final(self).bytes() =~= Seq::<u8>::empty(),
            final(self).cap() == old(self).cap(),
    {
        self.pos = 0;
    }

    /// Appends one byte; the caller must have reserved room.
    pub fn push(&mut self, b: u8)
        requires
            old(self).wf(),
            old(self).bytes().len() < old(self).cap(),
        ensures
            final(self).wf(),
            final(self).bytes() =~= old(self).bytes().push(b),
            final(self).cap() == old(self).cap(),
    {
        self.inner[self.pos] = b;
        self.pos = self.pos + 1;
        proof {
            assert(self.bytes() =~= old(self).bytes().push(b));
        }
    }

    /// Appends one byte, growing the allocation when it is full.
    pub fn push_grow(&mut self, b: u8)
        requires
            old(self).wf(),
        ensures
            final(self).wf(),
            final(self).bytes() =~= old(self).bytes().push(b),
    {
        if self.pos >= self.inner.len() {
            self.inner.push(0u8);
        }
        assert(self.pos < self.inner.len());
        self.inner[self.pos] = b;
        self.pos = self.pos + 1;
        proof {
            assert(self.bytes() =~= old(self).bytes().push(b));
        }
    }

    /// Appends a slice, growing the allocation as needed.
    pub fn safe_extend_from_slice(&mut self, src: &[u8])
        requires
            old(self).wf(),
        ensures
            final(self).wf(),
            final(self).bytes() =~= old(self).bytes() + src@,
    {
        let mut i: usize = 0;
        while i < src.len()
            invariant
                i <= src@.len(),
                self.wf(),
                self.bytes() =~= old(self).bytes() + src@.take(i as int),
            decreases src@.len() - i,
        {
            let b = *slice_index_get(src, i);
            self.push_grow(b);
            i = i + 1;
            proof {
                assert(src@.take(i as int) =~= src@.take(i as int - 1).push(src@[i as int - 1]));
                assert(self.bytes() =~= old(self).bytes() + src@.take(i as int));
            }
        }
        proof {
            assert(src@.take(src@.len() as int) =~= src@);
        }
    }

    /// Appends a slice; the caller must have reserved room past the new end.
    pub fn extend_from_slice(&mut self, src: &[u8])
        requires
            old(self).wf(),
            old(self).bytes().len() + src@.len() < old(self).cap(),
        ensures
            final(self).wf(),
            final(self).bytes() =~= old(self).bytes() + src@,
            final(self).cap() == old(self).cap(),
    {
        let mut i: usize = 0;
        while i < src.len()
            invariant
                i <= src@.len(),
                self.wf(),
                self.cap() == old(self).cap(),
                self.bytes().len() == old(self).bytes().len() + i,
                old(self).bytes().len() + src@.len() < old(self).cap(),
                self.bytes() =~= old(self).bytes() + src@.take(i as int),
            decreases src@.len() - i,
        {
            let b = *slice_index_get(src, i);
            self.push(b);
            i = i + 1;
            proof {
                assert(src@.take(i as int) =~= src@.take(i as int - 1).push(src@[i as int - 1]));
                assert(self.bytes() =~= old(self).bytes() + src@.take(i as int));
            }
        }
        proof {
            assert(src@.take(src@.len() as int) =~= src@);
        }
    }

    /// Moves the cursor forward over bytes already present in the allocation.
    pub fn advance(&mut self, len: usize)
        requires
            old(self).wf(),
            old(self).bytes().len() + len <= old(self).cap(),
        ensures
            final(self).wf(),
            final(self).cap() == old(self).cap(),
            final(self).bytes().len() == old(self).bytes().len() + len,
            final(self).bytes().take(old(self).bytes().len() as int) =~= old(self).bytes(),
    {
        self.pos = self.pos + len;
        proof {
            assert(self.bytes().take(old(self).bytes().len() as int) =~= old(self).bytes());
        }
    }

    /// Moves the cursor back, discarding the last `len` staged bytes.
    pub fn rollback(&mut self, len: usize)
        requires
            old(self).wf(),
            len < old(self).bytes().len(),
        ensures
            final(self).wf(),
            final(self).cap() == old(self).cap(),
            final(self).bytes() =~= old(self).bytes().take(old(self).bytes().len() - len),
    {
        self.pos = self.pos - len;
        proof {
            assert(self.bytes() =~= old(self).bytes().take(old(self).bytes().len() - len));
        }
    }

    /// The staged content as a slice.
    pub fn result(&self) -> (r: &[u8])
        requires
            self.wf(),
        ensures
            r@ =~= self.bytes(),
    {
        slice_subrange(self.inner.as_slice(), 0, self.pos)
    }

    /// The position of the write cursor.
    pub fn curr_pos(&self) -> (r: usize)
        requires
            self.wf(),
        ensures
            r == self.bytes().len(),
    {
        self.pos
    }

    /// A window of the staged content.
    pub fn slice(&self, from: usize, to: usize) -> (r: &[u8])
        requires
            self.wf(),
            from <= to <= self.bytes().len(),
        ensures
            r@ =~= self.bytes().subrange(from as int, to as int),
    {
        slice_subrange(self.inner.as_slice(), from, to)
    }
}

} // verus!
