//! Packets sent from the server to the client.
use vstd::prelude::*;
use crate::error::CodecError;
use crate::packets::{
    frame, frame_body, frame_outcome, lemma_frame_parts, PacketRead, PacketWrite,
};
use crate::protocol::Protocol;
use crate::reader::Reader;

verus! {

/// A liveness probe; no fields.
pub struct Ping {}

impl Ping {
    pub fn new() -> (r: Self) {
        Ping {}
    }
}

impl DeepView for Ping {
    type V = ();

    open spec fn deep_view(&self) -> () {
        ()
    }
}

impl Protocol for Ping {
    open spec fn well_formed(value: ()) -> bool {
        true
    }

    open spec fn spec_encode(value: ()) -> Seq<u8> {
        <() as Protocol>::spec_encode(value)
    }

    open spec fn spec_decode(src: Seq<u8>) -> Result<((), nat), CodecError> {
        <() as Protocol>::spec_decode(src)
    }

    proof fn lemma_round_trip(value: (), rest: Seq<u8>) {
        <() as Protocol>::lemma_round_trip(value, rest);
    }

    proof fn lemma_truncated(value: (), k: nat) {
    }

    fn byte_length(value: &Ping) -> (r: usize) {
        <() as Protocol>::byte_length(&())
    }

    fn encode(value: &Ping, dest: &mut Vec<u8>) {
        <() as Protocol>::encode(&(), dest);
    }

    fn decode(src: &mut Reader) -> (r: Result<Ping, CodecError>) {
        <() as Protocol>::decode(src)?;
        Ok(Ping {})
    }
}

impl PacketWrite for Ping {
    open spec fn spec_id() -> u16 {
        0
    }

    fn packet_id() -> (r: u16) {
        0
    }
}

/// Every packet that the client can receive.
pub enum Packet {
    Ping(Ping),
}

/// What a received packet holds.
pub ghost enum PacketView {
    Ping,
}

impl DeepView for Packet {
    type V = PacketView;

    open spec fn deep_view(&self) -> PacketView {
        match self {
            Packet::Ping(_) => PacketView::Ping,
        }
    }
}

impl PacketRead for Packet {
    /// The id, then the payload of the kind registered under it.
    open spec fn spec_packet_decode(src: Seq<u8>) -> Result<(PacketView, nat), CodecError> {
        match <u16 as Protocol>::spec_decode(src) {
            Err(e) => Err(e),
            Ok((id, n)) => if id == 0 {
                match Ping::spec_decode(src.skip(n as int)) {
                    Err(e) => Err(e),
                    Ok((_, m)) => Ok((PacketView::Ping, n + m)),
                }
            } else {
                Err(CodecError::UnrecognizedPacketId)
            },
        }
    }

    fn packet_decode(src: &mut Reader) -> (r: Result<Packet, CodecError>) {
        let id = <u16 as Protocol>::decode(src)?;
        if id == 0 {
            let p = Ping::decode(src)?;
            assert(old(src)@.skip(2).skip(0) =~= old(src)@.skip(2));
            Ok(Packet::Ping(p))
        } else {
            Err(CodecError::UnrecognizedPacketId)
        }
    }
}

/// A frame whose id names no kind of this direction fails with
/// `UnrecognizedPacketId`, whatever its payload.
pub proof fn lemma_unknown_id(id: u16, payload: Seq<u8>, rest: Seq<u8>)
    requires
        id != 0,
        payload.len() + 2 <= 0xFFFF,
    ensures
        ({
            let src = frame(id, payload) + rest;
            frame_outcome(src, Packet::spec_packet_decode(frame_body(src))) == Err::<
                (PacketView, nat),
                CodecError,
            >(CodecError::UnrecognizedPacketId)
        }),
{
    lemma_frame_parts(id, payload, rest);
    <u16 as Protocol>::lemma_round_trip(id, payload);
}

/// Reading the frame written for a `Ping` gives a `Ping` and uses the whole
/// frame, whatever follows it.
pub proof fn lemma_ping_frame_round_trip(rest: Seq<u8>)
    ensures
        ({
            let f = frame(0, Ping::spec_encode(()));
            let src = f + rest;
            frame_outcome(src, Packet::spec_packet_decode(frame_body(src))) == Ok::<
                (PacketView, nat),
                CodecError,
            >((PacketView::Ping, f.len()))
        }),
{
    let e = Ping::spec_encode(());
    lemma_frame_parts(0, e, rest);
    <u16 as Protocol>::lemma_round_trip(0, e);
}

} // verus!
