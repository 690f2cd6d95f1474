//! A bounded, forward-only view over a byte buffer.
use vstd::prelude::*;
use crate::error::CodecError;
use crate::wire::{be_value, read_be};

verus! {

/// A source of bytes: `bytes[pos..end]` is what is still to be read, and no
/// read goes past `end`.
pub struct Reader<'a> {
    bytes: &'a [u8],
    pos: usize,
    end: usize,
}

impl<'a> View for Reader<'a> {
    type V = Seq<u8>;

    /// The bytes not read yet.
    closed spec fn view(&self) -> Seq<u8> {
        self.bytes@.subrange(self.pos as int, self.end as int)
    }
}

impl<'a> Reader<'a> {
    #[verifier::type_invariant]
    spec fn inv(&self) -> bool {
        self.pos <= self.end <= self.bytes@.len()
    }

    /// A reader over all of `bytes`.
    pub fn new(bytes: &'a [u8]) -> (r: Self)
        ensures
            r@ == bytes@,
    {
        let r = Reader { bytes, pos: 0, end: bytes.len() };
        assert(r@ =~= bytes@);
        r
    }

    /// How many bytes are left to read.
    pub fn remaining(&self) -> (n: usize)
        ensures
            n == self@.len(),
    {
        proof {
            use_type_invariant(self);
        }
        self.end - self.pos
    }

    /// A reader over at most the next `n` bytes of this one; this one does
    /// not move.
    pub fn take(&self, n: usize) -> (r: Reader<'a>)
        ensures
            n <= self@.len() ==> r@ == self@.take(n as int),
            n > self@.len() ==> r@ == self@,
    {
        proof {
            use_type_invariant(self);
        }
        let end = if n <= self.end - self.pos {
            self.pos + n
        } else {
            self.end
        };
        let r = Reader { bytes: self.bytes, pos: self.pos, end };
        assert(n <= self@.len() ==> r@ =~= self@.take(n as int));
        r
    }

    /// Passes over the next `n` bytes.
    pub fn skip(&mut self, n: usize)
        requires
            n <= old(self)@.len(),
        ensures
            final(self)@ == old(self)@.skip(n as int),
    {
        proof {
            use_type_invariant(&*self);
        }
        self.pos = self.pos + n;
        assert(self@ =~= old(self)@.skip(n as int));
    }

    /// Reads one byte; at the end of the view, fails and moves nothing.
    pub fn read_byte(&mut self) -> (r: Result<u8, CodecError>)
        ensures
            old(self)@.len() == 0 ==> r == Err::<u8, CodecError>(CodecError::TruncatedInput)
                && final(self)@ == old(self)@,
            old(self)@.len() > 0 ==> r == Ok::<u8, CodecError>(old(self)@[0]) && final(self)@
                == old(self)@.skip(1),
    {
        proof {
            use_type_invariant(&*self);
        }
        if self.pos == self.end {
            Err(CodecError::TruncatedInput)
        } else {
            let b = self.bytes[self.pos];
            self.pos = self.pos + 1;
            assert(self@ =~= old(self)@.skip(1));
            Ok(b)
        }
    }

    /// Reads an unsigned big-endian integer of `nbytes` bytes; where fewer
    /// are left, fails and moves nothing.
    pub fn read_uint(&mut self, nbytes: usize) -> (r: Result<u64, CodecError>)
        requires
            1 <= nbytes <= 8,
        ensures
            old(self)@.len() < nbytes ==> r == Err::<u64, CodecError>(CodecError::TruncatedInput)
                && final(self)@ == old(self)@,
            old(self)@.len() >= nbytes ==> r is Ok && r->Ok_0 as nat == be_value(
                old(self)@.take(nbytes as int),
            ) && final(self)@ == old(self)@.skip(nbytes as int),
    {
        proof {
            use_type_invariant(&*self);
        }
        if self.end - self.pos < nbytes {
            Err(CodecError::TruncatedInput)
        } else {
            let v = read_be(self.bytes, self.pos, nbytes);
            assert(self.bytes@.subrange(self.pos as int, self.pos + nbytes) =~= old(self)@.take(
                nbytes as int,
            ));
            self.pos = self.pos + nbytes;
            assert(self@ =~= old(self)@.skip(nbytes as int));
            Ok(v)
        }
    }
}

} // verus!
