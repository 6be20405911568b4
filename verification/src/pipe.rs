//! The fixed-size transfer buffer.
//!
//! One [`Pipe`] is allocated by the supervisor and reused for every
//! read/write cycle: a bounded read deposits a chunk of the child's output
//! at the front of the buffer, and exactly the bytes of that chunk — no
//! more, no fewer, unreordered — are then written to the supervisor's
//! matching stream.  The read and write calls themselves are I/O and live
//! with the caller; [`Pipe::transfer`] is the byte-exact passage through the
//! buffer, and [`lemma_relay_fidelity`] lifts its guarantee to any number of
//! cycles.

use vstd::prelude::*;

verus! {

/// A reusable byte buffer of fixed capacity.  Its view is the buffer's
/// current contents; the length of the view never changes after
/// construction.
pub struct Pipe(Vec<u8>);

impl View for Pipe {
    type V = Seq<u8>;

    closed spec fn view(&self) -> Seq<u8> {
        self.0@
    }
}

impl Pipe {
    /// Allocate a buffer of `capacity` zeroed bytes.
    pub fn with_capacity(capacity: usize) -> (p: Self)
        ensures
            p@.len() == capacity,
            forall|i: int| 0 <= i < capacity ==> p@[i] == 0u8,
    {
        let mut buf: Vec<u8> = Vec::new();
        while buf.len() < capacity
            invariant
                buf@.len() <= capacity,
                forall|i: int| 0 <= i < buf@.len() ==> buf@[i] == 0u8,
            decreases capacity - buf@.len(),
        {
            buf.push(0u8);
        }
        Pipe(buf)
    }

    /// The fixed capacity: how many bytes one read may deposit at most.
    pub fn capacity(&self) -> (n: usize)
        ensures
            n == self@.len(),
    {
        self.0.len()
    }

    /// Pass one chunk through the buffer: deposit `data` (the bytes one
    /// bounded read returned, possibly none) at the front of the fixed
    /// buffer, and hand back exactly those bytes for the destination
    /// write.  The buffer keeps its capacity; beyond the chunk its old
    /// contents stay.
    pub fn transfer(&mut self, data: &[u8]) -> (out: Vec<u8>)
        requires
            data@.len() <= old(self)@.len(),
        ensures
            out@ == data@,
            out@ == spec_written(final(self)@, data@.len() as int),
            final(self)@.len() == old(self)@.len(),
            final(self)@.subrange(0, data@.len() as int) == data@,
            forall|k: int|
                data@.len() <= k < final(self)@.len() ==> final(self)@[k] == old(self)@[k],
    {
        let n = data.len();
        let mut i: usize = 0;
        while i < n
            invariant
                i <= n,
                n == data@.len(),
                n <= self.0@.len(),
                self.0@.len() == old(self)@.len(),
                forall|k: int| 0 <= k < i ==> self.0@[k] == data@[k],
                forall|k: int| i <= k < self.0@.len() ==> self.0@[k] == old(self)@[k],
            decreases n - i,
        {
            self.0[i] = data[i];
            i += 1;
        }
        let mut out: Vec<u8> = Vec::new();
        let mut j: usize = 0;
        while j < n
            invariant
                j <= n,
                n == data@.len(),
                n <= self.0@.len(),
                out@.len() == j,
                forall|k: int| 0 <= k < j ==> out@[k] == data@[k],
                forall|k: int| 0 <= k < n ==> self.0@[k] == data@[k],
            decreases n - j,
        {
            out.push(self.0[j]);
            j += 1;
        }
        proof {
            assert(out@ =~= data@);
            assert(self.0@.subrange(0, data@.len() as int) =~= data@);
        }
        out
    }
}

/// The bytes one cycle's write sends: the first `n` bytes the read left in
/// the buffer.
pub open spec fn spec_written(buf: Seq<u8>, n: int) -> Seq<u8> {
    buf.subrange(0, n)
}

/// Transfer fidelity over any number of cycles: if in each cycle the read
/// deposits the child's next chunk at the front of the fixed buffer, then
/// the chunk-sized writes concatenate to exactly the bytes the child wrote,
/// in order — nothing lost, nothing duplicated, nothing reordered.
pub proof fn lemma_relay_fidelity(chunks: Seq<Seq<u8>>, bufs: Seq<Seq<u8>>)
    requires
        bufs.len() == chunks.len(),
        forall|i: int|
            0 <= i < chunks.len() ==> (#[trigger] chunks[i]).len() <= bufs[i].len() && bufs[i]
                .subrange(0, chunks[i].len() as int) == chunks[i],
    ensures
        Seq::new(chunks.len(), |i: int| spec_written(bufs[i], chunks[i].len() as int)).flatten()
            == chunks.flatten(),
{
    let outs = Seq::new(chunks.len(), |i: int| spec_written(bufs[i], chunks[i].len() as int));
    assert forall|i: int| 0 <= i < chunks.len() implies outs[i] == chunks[i] by {
        assert(bufs[i].subrange(0, chunks[i].len() as int) == chunks[i]);
    }
    assert(outs =~= chunks);
}

} // verus!
