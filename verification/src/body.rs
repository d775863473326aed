//! The body of a request, bounded by its declared length.

use crate::bytes::append_bytes;
use vstd::prelude::*;
use vstd::slice::slice_subrange;

verus! {

/// What a `BodyReader` is in contracts: the length that was declared for
/// the body, and the bytes of it that have arrived.
pub struct BodyModel {
    pub limit: nat,
    pub data: Seq<u8>,
}

impl BodyModel {
    /// How many bytes of the body have not arrived.
    pub open spec fn missing(self) -> int {
        self.limit - self.data.len()
    }

    /// How many bytes of `chunk` belong to the body: all of them, or as
    /// many as are missing where that is fewer.
    pub open spec fn accepted(self, chunk: Seq<u8>) -> int {
        if chunk.len() <= self.missing() {
            chunk.len() as int
        } else {
            self.missing()
        }
    }

    /// The body after `chunk` has arrived: the bytes of `chunk` that belong
    /// to it follow those it held, and the limit is what it was.
    pub open spec fn filled(self, chunk: Seq<u8>) -> BodyModel {
        BodyModel { limit: self.limit, data: self.data + chunk.subrange(0, self.accepted(chunk)) }
    }
}

/// A read view over a connection's bytes that is limited to a declared
/// number of bytes, however much follows on the wire. It holds the part of
/// the body that has arrived and never takes a byte beyond the limit.
#[derive(Debug)]
pub struct BodyReader {
    limit: u64,
    data: Vec<u8>,
}

impl View for BodyReader {
    type V = BodyModel;

    closed spec fn view(&self) -> BodyModel {
        BodyModel { limit: self.limit as nat, data: self.data@ }
    }
}

impl BodyReader {
    /// The reader never holds more bytes than were declared.
    #[verifier::type_invariant]
    closed spec fn within_limit(self) -> bool {
        self.data.len() <= self.limit
    }

    /// A reader for a body of `limit` bytes, none of which has arrived.
    pub fn new(limit: u64) -> (reader: BodyReader)
        ensures
            reader@ == (BodyModel { limit: limit as nat, data: Seq::<u8>::empty() }),
    {
        BodyReader { limit, data: Vec::new() }
    }

    /// The length that was declared for the body.
    pub fn limit(&self) -> (limit: u64)
        ensures
            limit == self@.limit,
            self@.data.len() <= limit,
    {
        proof {
            use_type_invariant(self);
        }
        self.limit
    }

    /// How many bytes of the body have not arrived yet.
    pub fn remaining(&self) -> (count: u64)
        ensures
            count == self@.missing(),
    {
        proof {
            use_type_invariant(self);
        }
        self.limit - self.data.len() as u64
    }

    /// How many bytes to ask the connection for when there is room for
    /// `capacity`: never more than are missing, so that nothing beyond the
    /// body is read.
    pub fn wanted(&self, capacity: usize) -> (count: usize)
        ensures
            count == if capacity <= self@.missing() {
                capacity as int
            } else {
                self@.missing()
            },
    {
        let missing = self.remaining();
        if capacity as u64 <= missing {
            capacity
        } else {
            missing as usize
        }
    }

    /// The bytes of the body that have arrived.
    pub fn bytes(&self) -> (data: &[u8])
        ensures
            data@ == self@.data,
    {
        self.data.as_slice()
    }

    /// Takes from the start of `chunk` the bytes that still belong to the
    /// body, and returns how many it took: all of `chunk`, or as many as
    /// were missing if that is fewer. What follows them in `chunk` is left
    /// alone, and the limit stays what it was.
    pub fn fill(&mut self, chunk: &[u8]) -> (taken: usize)
        ensures
            taken == old(self)@.accepted(chunk@),
            final(self)@ == old(self)@.filled(chunk@),
    {
        let taken = self.wanted(chunk.len());
        let mut data: Vec<u8> = Vec::new();
        core::mem::swap(&mut self.data, &mut data);
        append_bytes(&mut data, slice_subrange(chunk, 0, taken));
        core::mem::swap(&mut self.data, &mut data);
        taken
    }

    /// Puts the bytes of the body that have arrived at the end of `buf`,
    /// and returns how many they are.
    pub fn read_to_end(&self, buf: &mut Vec<u8>) -> (count: usize)
        ensures
            count == self@.data.len(),
            final(buf)@ == old(buf)@ + self@.data,
    {
        append_bytes(buf, self.data.as_slice());
        self.data.len()
    }
}

} // verus!
