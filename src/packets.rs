//! The packet envelope: `[u16 length][u16 id][payload]`, big-endian, where
//! the length counts the id and the payload.
use vstd::prelude::*;
use crate::error::CodecError;
use crate::protocol::Protocol;
use crate::reader::Reader;
use crate::wire::{
    be_bytes, be_value, lemma_be_bytes_len, lemma_be_round_trip, lemma_be_value_bound,
    lemma_pow256_small,
};

verus! {

/// The bytes of the id and the payload.
pub open spec fn packet_body(id: u16, payload: Seq<u8>) -> Seq<u8> {
    <u16 as Protocol>::spec_encode(id) + payload
}

/// The whole frame of a packet with this id and payload.
pub open spec fn frame(id: u16, payload: Seq<u8>) -> Seq<u8> {
    be_bytes(payload.len() + 2, 2) + packet_body(id, payload)
}

/// A frame whose length fits in its prefix starts with that length, and
/// bounds exactly the id and the payload.
pub proof fn lemma_frame_parts(id: u16, payload: Seq<u8>, rest: Seq<u8>)
    requires
        payload.len() + 2 <= 0xFFFF,
    ensures
        (frame(id, payload) + rest).len() >= 2,
        frame_len(frame(id, payload) + rest) == payload.len() + 2,
        frame_body(frame(id, payload) + rest) == packet_body(id, payload),
        frame(id, payload).len() == payload.len() + 4,
{
    let src = frame(id, payload) + rest;
    let len = payload.len() + 2;
    lemma_pow256_small();
    lemma_be_round_trip(len, 2);
    lemma_be_bytes_len(id as nat, 2);
    assert(src.take(2) =~= be_bytes(len, 2));
    assert(src.skip(2) =~= packet_body(id, payload) + rest);
    assert(src.skip(2).take(len as int) =~= packet_body(id, payload));
}

/// A packet kind that can be sent: a record tagged with a fixed id.
pub trait PacketWrite: Protocol {
    /// The id that tags this kind.
    spec fn spec_id() -> u16;

    fn packet_id() -> (r: u16)
        ensures
            r == Self::spec_id(),
    ;

    /// The bytes of the id and the payload together.
    fn packet_len(&self) -> (r: usize)
        requires
            Self::well_formed(self.deep_view()),
            Self::spec_encode(self.deep_view()).len() + 2 <= usize::MAX,
        ensures
            r == Self::spec_encode(self.deep_view()).len() + 2,
    {
        Self::byte_length(self) + 2
    }

    /// Appends the id, then the payload.
    fn packet_encode(&self, dst: &mut Vec<u8>)
        requires
            Self::well_formed(self.deep_view()),
        ensures
            final(dst)@ == old(dst)@ + packet_body(Self::spec_id(), Self::spec_encode(self.deep_view())),
    {
        let id = Self::packet_id();
        <u16 as Protocol>::encode(&id, dst);
        Self::encode(self, dst);
        assert(dst@ =~= old(dst)@ + packet_body(Self::spec_id(), Self::spec_encode(self.deep_view())));
    }

    /// Appends the whole frame: the length, the id, the payload. The length
    /// has 16 bits, so the payload is at most `0xFFFD` bytes.
    fn write(&self, dst: &mut Vec<u8>)
        requires
            Self::well_formed(self.deep_view()),
            Self::spec_encode(self.deep_view()).len() + 2 <= 0xFFFF,
        ensures
            final(dst)@ == old(dst)@ + frame(Self::spec_id(), Self::spec_encode(self.deep_view())),
    {
        let len = self.packet_len();
        <u16 as Protocol>::encode(&(len as u16), dst);
        self.packet_encode(dst);
        assert(dst@ =~= old(dst)@ + frame(Self::spec_id(), Self::spec_encode(self.deep_view())));
    }
}

/// The length prefix at the front of `src`.
pub open spec fn frame_len(src: Seq<u8>) -> nat {
    be_value(src.take(2))
}

/// What the length prefix at the front of `src` bounds: at most that many
/// bytes after it.
pub open spec fn frame_body(src: Seq<u8>) -> Seq<u8> {
    let rest = src.skip(2);
    if frame_len(src) <= rest.len() {
        rest.take(frame_len(src) as int)
    } else {
        rest
    }
}

/// What reading one frame from the front of `src` gives, where `decoded` is
/// what decoding an id and payload from `frame_body(src)` gave: the packet
/// and the bytes of the whole frame, or the error. The payload must use
/// exactly the bytes that the prefix declares.
pub open spec fn frame_outcome<V>(src: Seq<u8>, decoded: Result<(V, nat), CodecError>) -> Result<
    (V, nat),
    CodecError,
> {
    if src.len() < 2 {
        Err(CodecError::TruncatedInput)
    } else {
        match decoded {
            Err(e) => Err(e),
            Ok((p, k)) => if k == frame_len(src) {
                Ok((p, k + 2))
            } else {
                Err(CodecError::FramingMismatch)
            },
        }
    }
}

/// The packets of one direction, told apart by their id.
pub trait PacketRead: DeepView + Sized {
    /// What decoding an id and its payload from the front of `src` gives.
    spec fn spec_packet_decode(src: Seq<u8>) -> Result<(Self::V, nat), CodecError>;

    /// Decodes an id and the payload that it tags.
    fn packet_decode(src: &mut Reader) -> (r: Result<Self, CodecError>)
        ensures
            match Self::spec_packet_decode(old(src)@) {
                Ok((v, n)) => r is Ok && r->Ok_0.deep_view() == v && n <= old(src)@.len()
                    && final(src)@ == old(src)@.skip(n as int),
                Err(e) => r is Err && r->Err_0 == e,
            },
    ;

    /// Reads one whole frame and moves past it.
    fn read(src: &mut Reader) -> (r: Result<Self, CodecError>)
        ensures
            match frame_outcome(old(src)@, Self::spec_packet_decode(frame_body(old(src)@))) {
                Ok((v, n)) => r is Ok && r->Ok_0.deep_view() == v && n <= old(src)@.len()
                    && final(src)@ == old(src)@.skip(n as int),
                Err(e) => r is Err && r->Err_0 == e,
            },
    {
        let len = <u16 as Protocol>::decode(src)?;
        proof {
            lemma_pow256_small();
            lemma_be_value_bound(old(src)@.take(2));
        }
        let mut body = src.take(len as usize);
        let available = body.remaining();
        let p = Self::packet_decode(&mut body)?;
        let used = available - body.remaining();
        if used != len as usize {
            return Err(CodecError::FramingMismatch);
        }
        src.skip(used);
        assert(old(src)@.skip(2).skip(used as int) =~= old(src)@.skip(used + 2));
        Ok(p)
    }
}

} // verus!
