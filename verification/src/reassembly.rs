//! Reassembly buffer: the unconsumed tail of the captured byte stream.
//!
//! The buffer supports appending a frame's payload at the tail, a bounded
//! reorder merge that inserts a late frame's payload ahead of the unconsumed
//! tail, a read view, and a full clear.  Clearing is the only recovery from a
//! framing failure: bytes buffered at that moment are dropped so that the
//! stream can resynchronize on the next frame.

use vstd::prelude::*;

verus! {

/// Owned, growable byte sequence holding stream bytes not yet consumed into
/// a framed message.
pub struct ReassemblyBuffer {
    data: Vec<u8>,
}

impl View for ReassemblyBuffer {
    type V = Seq<u8>;

    closed spec fn view(&self) -> Seq<u8> {
        self.data@
    }
}

impl ReassemblyBuffer {
    /// An empty buffer.
    pub fn new() -> (r: ReassemblyBuffer)
        ensures
            r@ == Seq::<u8>::empty(),
    {
        ReassemblyBuffer { data: Vec::new() }
    }

    /// Number of unconsumed bytes.
    pub fn len(&self) -> (r: usize)
        ensures
            r == self@.len(),
    {
        self.data.len()
    }

    /// Adds a payload at the tail: used when the frame's sequence number is
    /// at or after the previously remembered one for the same source.
    pub fn append(&mut self, bytes: &Vec<u8>)
        requires
            old(self)@.len() + bytes@.len() <= usize::MAX,
        ensures
            final(self)@ == old(self)@ + bytes@,
    {
        let n = bytes.len();
        let mut i: usize = 0;
        while i < n
            invariant
                n == bytes@.len(),
                0 <= i <= n,
                self@ == old(self)@ + bytes@.subrange(0, i as int),
            decreases n - i,
        {
            self.data.push(bytes[i]);
            i = i + 1;
            proof {
                assert(self@ =~= old(self)@ + bytes@.subrange(0, i as int));
            }
        }
        proof {
            assert(self@ =~= old(self)@ + bytes@);
        }
    }

    /// Inserts a late payload ahead of the unconsumed tail, so that the
    /// logical byte order is corrected: used when the frame's sequence
    /// number precedes the previously remembered one for the same source.
    pub fn reorder_merge(&mut self, bytes: &Vec<u8>)
        requires
            old(self)@.len() + bytes@.len() <= usize::MAX,
        ensures
            final(self)@ == bytes@ + old(self)@,
    {
        let mut merged: Vec<u8> = Vec::new();
        let n = bytes.len();
        let mut i: usize = 0;
        while i < n
            invariant
                n == bytes@.len(),
                0 <= i <= n,
                merged@ == bytes@.subrange(0, i as int),
            decreases n - i,
        {
            merged.push(bytes[i]);
            i = i + 1;
            proof {
                assert(merged@ =~= bytes@.subrange(0, i as int));
            }
        }
        proof {
            assert(merged@ =~= bytes@);
        }
        let m = self.data.len();
        let mut j: usize = 0;
        while j < m
            invariant
                m == self@.len(),
                self@ == old(self)@,
                0 <= j <= m,
                merged@ == bytes@ + self@.subrange(0, j as int),
                merged@.len() == bytes@.len() + j,
            decreases m - j,
        {
            merged.push(self.data[j]);
            j = j + 1;
            proof {
                assert(merged@ =~= bytes@ + self@.subrange(0, j as int));
            }
        }
        proof {
            assert(merged@ =~= bytes@ + self@);
        }
        self.data = merged;
    }

    /// Read view of the unconsumed bytes.
    pub fn remaining(&self) -> (r: &Vec<u8>)
        ensures
            r@ == self@,
    {
        &self.data
    }

    /// Discards everything: the single recovery step after an unrecoverable
    /// framing failure, and the consumption step after a framed message.
    pub fn clear(&mut self)
        ensures
            final(self)@ == Seq::<u8>::empty(),
    {
        self.data = Vec::new();
    }
}

/// Buffer contents after appending each payload of `payloads` in order.
pub open spec fn appended_contents(init: Seq<u8>, payloads: Seq<Seq<u8>>) -> Seq<u8>
    decreases payloads.len(),
{
    if payloads.len() == 0 {
        init
    } else {
        appended_contents(init + payloads.first(), payloads.drop_first())
    }
}

/// For a run of frames whose payloads are all appended (non-decreasing
/// sequence numbers from one source), the buffer ends as the exact
/// concatenation of the payloads in arrival order.
pub proof fn lemma_appends_concatenate(init: Seq<u8>, payloads: Seq<Seq<u8>>)
    ensures
        appended_contents(init, payloads) == init + payloads.flatten(),
    decreases payloads.len(),
{
    if payloads.len() == 0 {
        assert(appended_contents(init, payloads) =~= init + payloads.flatten());
    } else {
        lemma_appends_concatenate(init + payloads.first(), payloads.drop_first());
        assert(appended_contents(init, payloads) =~= init + payloads.flatten());
    }
}

/// For two frames from one source where the second precedes the first in
/// sequence order, appending the first and then reorder-merging the second
/// yields, starting from an empty buffer, the same contents as appending the
/// two payloads in corrected (ascending) order.
pub proof fn lemma_reorder_corrects_order(first: Seq<u8>, second: Seq<u8>)
    ensures
        second + (Seq::<u8>::empty() + first) == (Seq::<u8>::empty() + second) + first,
{
    assert(second + (Seq::<u8>::empty() + first) =~= (Seq::<u8>::empty() + second) + first);
}

} // verus!
