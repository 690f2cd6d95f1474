//! Records: fields encoded one after another in declaration order, with no
//! separators. A record of any number of fields nests pairs, ending in `()`.
use vstd::prelude::*;
use crate::error::CodecError;
use crate::protocol::Protocol;
use crate::reader::Reader;

verus! {

/// The record with no fields: no bytes.
impl Protocol for () {
    open spec fn well_formed(value: ()) -> bool {
        true
    }

    open spec fn spec_encode(value: ()) -> Seq<u8> {
        Seq::empty()
    }

    open spec fn spec_decode(src: Seq<u8>) -> Result<((), nat), CodecError> {
        Ok(((), 0))
    }

    proof fn lemma_round_trip(value: (), rest: Seq<u8>) {
    }

    proof fn lemma_truncated(value: (), k: nat) {
    }

    fn byte_length(value: &()) -> (r: usize) {
        0
    }

    fn encode(value: &(), dest: &mut Vec<u8>) {
        assert(dest@ =~= old(dest)@ + Seq::<u8>::empty());
    }

    fn decode(src: &mut Reader) -> (r: Result<(), CodecError>) {
        assert(src@ =~= src@.skip(0));
        Ok(())
    }
}

/// A field followed by the rest of the record.
impl<A: Protocol, B: Protocol> Protocol for (A, B) {
    open spec fn well_formed(value: (A::V, B::V)) -> bool {
        &&& A::well_formed(value.0)
        &&& B::well_formed(value.1)
        &&& A::spec_encode(value.0).len() + B::spec_encode(value.1).len() <= usize::MAX
    }

    open spec fn spec_encode(value: (A::V, B::V)) -> Seq<u8> {
        A::spec_encode(value.0) + B::spec_encode(value.1)
    }

    /// The first field from the front, the second from what follows it; the
    /// first failure is the result.
    open spec fn spec_decode(src: Seq<u8>) -> Result<((A::V, B::V), nat), CodecError> {
        match A::spec_decode(src) {
            Err(e) => Err(e),
            Ok((a, n)) => match B::spec_decode(src.skip(n as int)) {
                Err(e) => Err(e),
                Ok((b, m)) => Ok(((a, b), n + m)),
            },
        }
    }

    proof fn lemma_round_trip(value: (A::V, B::V), rest: Seq<u8>) {
        let ea = A::spec_encode(value.0);
        let eb = B::spec_encode(value.1);
        assert(ea + eb + rest =~= ea + (eb + rest));
        A::lemma_round_trip(value.0, eb + rest);
        assert((ea + eb + rest).skip(ea.len() as int) =~= eb + rest);
        B::lemma_round_trip(value.1, rest);
    }

    proof fn lemma_truncated(value: (A::V, B::V), k: nat) {
        let ea = A::spec_encode(value.0);
        let eb = B::spec_encode(value.1);
        let src = (ea + eb).take(k as int);
        if k < ea.len() {
            assert(src =~= ea.take(k as int));
            A::lemma_truncated(value.0, k);
        } else {
            let kb = (k - ea.len()) as nat;
            assert(src =~= ea + eb.take(kb as int));
            A::lemma_round_trip(value.0, eb.take(kb as int));
            assert(src.skip(ea.len() as int) =~= eb.take(kb as int));
            B::lemma_truncated(value.1, kb);
        }
    }

    fn byte_length(value: &(A, B)) -> (r: usize) {
        A::byte_length(&value.0) + B::byte_length(&value.1)
    }

    fn encode(value: &(A, B), dest: &mut Vec<u8>) {
        A::encode(&value.0, dest);
        B::encode(&value.1, dest);
        assert(dest@ =~= old(dest)@ + Self::spec_encode(value.deep_view()));
    }

    fn decode(src: &mut Reader) -> (r: Result<(A, B), CodecError>) {
        let a = A::decode(src)?;
        let ghost mid = src@;
        let b = B::decode(src)?;
        assert(mid.skip(mid.len() - src@.len()) =~= old(src)@.skip(old(src)@.len() - src@.len()));
        Ok((a, b))
    }
}

} // verus!
