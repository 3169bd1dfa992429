use crate::error::TempoIdError;
use vstd::prelude::*;

verus! {

#[verifier::external_type_specification]
#[verifier::external_body]
pub struct ExRandError(rand::Error);

/// Relies on `rand::rngs::OsRng::try_fill_bytes` (rand_core 0.6), which hands
/// the slice to the operating system's secure random source and reports its
/// failure; the vector keeps its length.
#[verifier::external_body]
fn fill_from_os(buf: &mut Vec<u8>) -> (r: Result<(), rand::Error>)
    ensures
        final(buf)@.len() == old(buf)@.len(),
{
    rand::RngCore::try_fill_bytes(&mut rand::rngs::OsRng, buf.as_mut_slice())
}

/// A new buffer holds this many times the requested number of bytes.
pub const POOL_SIZE_MULTIPLIER: usize = 64;

/// The largest request that a pool accepts: a new buffer of
/// `size * POOL_SIZE_MULTIPLIER` bytes must be addressable.
pub const MAX_TAKE: usize = usize::MAX / POOL_SIZE_MULTIPLIER;

/// A buffer of secure random bytes and a cursor into it, refilled in
/// batches so that the random source is not asked once per byte.
pub struct EntropyPool {
    buffer: Vec<u8>,
    cursor: usize,
}

impl EntropyPool {
    /// The bytes of the buffer.
    pub closed spec fn bytes(&self) -> Seq<u8> {
        self.buffer@
    }

    /// How many bytes of the buffer have been handed out since it was
    /// last filled.
    pub closed spec fn position(&self) -> nat {
        self.cursor as nat
    }

    pub open spec fn wf(&self) -> bool {
        self.position() <= self.bytes().len()
    }

    /// A request of `size` bytes allocates a new buffer.
    pub open spec fn needs_new_buffer(&self, size: nat) -> bool {
        self.bytes().len() == 0 || self.bytes().len() < size
    }

    /// A request of `size` bytes refills the present buffer in place.
    pub open spec fn needs_refill(&self, size: nat) -> bool {
        !self.needs_new_buffer(size) && self.position() + size > self.bytes().len()
    }

    /// An empty pool; the first request fills it.
    pub fn new() -> (r: Self)
        ensures
            r.wf(),
            r.bytes().len() == 0,
            r.position() == 0,
    {
        EntropyPool { buffer: Vec::new(), cursor: 0 }
    }

    /// Hands out the next `size` unread bytes. Where the buffer is empty or
    /// shorter than `size`, a new one of `size * POOL_SIZE_MULTIPLIER` fresh
    /// bytes replaces it; where fewer than `size` unread bytes remain, the
    /// whole buffer is refilled in place and unread bytes are dropped. A
    /// failure of the random source leaves the pool empty.
    pub fn take(&mut self, size: usize) -> (r: Result<Vec<u8>, TempoIdError>)
        requires
            old(self).wf(),
            size <= MAX_TAKE,
        ensures
            final(self).wf(),
            match r {
                Ok(v) => {
                    &&& v@.len() == size
                    &&& final(self).position() >= size
                    &&& v@ == final(self).bytes().subrange(
                        final(self).position() - size,
                        final(self).position() as int,
                    )
                    &&& old(self).needs_new_buffer(size as nat) ==> {
                        &&& final(self).bytes().len() == size * POOL_SIZE_MULTIPLIER
                        &&& final(self).position() == size
                    }
                    &&& old(self).needs_refill(size as nat) ==> {
                        &&& final(self).bytes().len() == old(self).bytes().len()
                        &&& final(self).position() == size
                    }
                    &&& !old(self).needs_new_buffer(size as nat) && !old(self).needs_refill(
                        size as nat,
                    ) ==> {
                        &&& final(self).bytes() == old(self).bytes()
                        &&& final(self).position() == old(self).position() + size
                    }
                },
                Err(e) => {
                    &&& e == TempoIdError::EntropyUnavailable
                    &&& old(self).needs_new_buffer(size as nat) || old(self).needs_refill(
                        size as nat,
                    )
                    &&& final(self).bytes().len() == 0
                    &&& final(self).position() == 0
                },
            },
    {
        if self.buffer.len() == 0 || self.buffer.len() < size {
            self.buffer = vec![0u8; size * POOL_SIZE_MULTIPLIER];
            self.cursor = 0;
            if fill_from_os(&mut self.buffer).is_err() {
                self.buffer = Vec::new();
                return Err(TempoIdError::EntropyUnavailable);
            }
        } else if self.buffer.len() - self.cursor < size {
            self.cursor = 0;
            if fill_from_os(&mut self.buffer).is_err() {
                self.buffer = Vec::new();
                return Err(TempoIdError::EntropyUnavailable);
            }
        }
        let start = self.cursor;
        assert(self.buffer@.len() == self.buffer.len());
        let mut out: Vec<u8> = Vec::with_capacity(size);
        let mut i: usize = 0;
        while i < size
            invariant
                self.wf(),
                start == self.cursor,
                start + size <= self.buffer@.len(),
                self.buffer@.len() <= usize::MAX,
                i <= size,
                out@ == self.buffer@.subrange(start as int, start + i),
            decreases size - i,
        {
            out.push(self.buffer[start + i]);
            i += 1;
            assert(out@ =~= self.buffer@.subrange(start as int, start + i));
        }
        self.cursor = start + size;
        Ok(out)
    }
}

} // verus!
