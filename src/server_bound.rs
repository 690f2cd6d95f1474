//! Packets sent from the client to the server.
use vstd::prelude::*;
use crate::error::CodecError;
use crate::packets::{
    frame, frame_body, frame_len, frame_outcome, lemma_frame_parts, packet_body, PacketRead,
    PacketWrite,
};
use crate::protocol::Protocol;
use crate::reader::Reader;

verus! {

/// The answer to a ping; no fields.
pub struct Pong {}

impl Pong {
    pub fn new() -> (r: Self) {
        Pong {}
    }
}

impl DeepView for Pong {
    type V = ();

    open spec fn deep_view(&self) -> () {
        ()
    }
}

impl Protocol for Pong {
    open spec fn well_formed(value: ()) -> bool {
        true
    }

    open spec fn spec_encode(value: ()) -> Seq<u8> {
        <() as Protocol>::spec_encode(value)
    }

    open spec fn spec_decode(src: Seq<u8>) -> Result<((), nat), CodecError> {
        <() as Protocol>::spec_decode(src)
    }

    proof fn lemma_round_trip(value: (), rest: Seq<u8>) {
        <() as Protocol>::lemma_round_trip(value, rest);
    }

    proof fn lemma_truncated(value: (), k: nat) {
    }

    fn byte_length(value: &Pong) -> (r: usize) {
        <() as Protocol>::byte_length(&())
    }

    fn encode(value: &Pong, dest: &mut Vec<u8>) {
        <() as Protocol>::encode(&(), dest);
    }

    fn decode(src: &mut Reader) -> (r: Result<Pong, CodecError>) {
        <() as Protocol>::decode(src)?;
        Ok(Pong {})
    }
}

impl PacketWrite for Pong {
    open spec fn spec_id() -> u16 {
        0
    }

    fn packet_id() -> (r: u16) {
        0
    }
}

/// A request to open a lobby. Its fields are encoded in this order.
pub struct Create {
    pub creator_name: String,
    pub lobby_name: String,
}

impl Create {
    pub fn new(creator_name: String, lobby_name: String) -> (r: Self)
        ensures
            r.creator_name@ == creator_name@,
            r.lobby_name@ == lobby_name@,
    {
        Create { creator_name, lobby_name }
    }
}

impl DeepView for Create {
    /// The creator's name, then the lobby's name.
    type V = (Seq<char>, Seq<char>);

    open spec fn deep_view(&self) -> (Seq<char>, Seq<char>) {
        (self.creator_name@, self.lobby_name@)
    }
}

/// Encoded as the record of its two text fields.
impl Protocol for Create {
    open spec fn well_formed(value: (Seq<char>, Seq<char>)) -> bool {
        <(String, String) as Protocol>::well_formed(value)
    }

    open spec fn spec_encode(value: (Seq<char>, Seq<char>)) -> Seq<u8> {
        <(String, String) as Protocol>::spec_encode(value)
    }

    open spec fn spec_decode(src: Seq<u8>) -> Result<((Seq<char>, Seq<char>), nat), CodecError> {
        <(String, String) as Protocol>::spec_decode(src)
    }

    proof fn lemma_round_trip(value: (Seq<char>, Seq<char>), rest: Seq<u8>) {
        <(String, String) as Protocol>::lemma_round_trip(value, rest);
    }

    proof fn lemma_truncated(value: (Seq<char>, Seq<char>), k: nat) {
        <(String, String) as Protocol>::lemma_truncated(value, k);
    }

    fn byte_length(value: &Create) -> (r: usize) {
        String::byte_length(&value.creator_name) + String::byte_length(&value.lobby_name)
    }

    fn encode(value: &Create, dest: &mut Vec<u8>) {
        String::encode(&value.creator_name, dest);
        String::encode(&value.lobby_name, dest);
        assert(dest@ =~= old(dest)@ + Self::spec_encode(value.deep_view()));
    }

    fn decode(src: &mut Reader) -> (r: Result<Create, CodecError>) {
        let (creator_name, lobby_name) = <(String, String) as Protocol>::decode(src)?;
        Ok(Create { creator_name, lobby_name })
    }
}

impl PacketWrite for Create {
    open spec fn spec_id() -> u16 {
        1
    }

    fn packet_id() -> (r: u16) {
        1
    }
}

/// Every packet that the server can receive.
pub enum Packet {
    Pong(Pong),
    Create(Create),
}

/// What a received packet holds.
pub ghost enum PacketView {
    Pong,
    Create((Seq<char>, Seq<char>)),
}

impl DeepView for Packet {
    type V = PacketView;

    open spec fn deep_view(&self) -> PacketView {
        match self {
            Packet::Pong(_) => PacketView::Pong,
            Packet::Create(c) => PacketView::Create(c.deep_view()),
        }
    }
}

impl PacketRead for Packet {
    /// The id, then the payload of the kind registered under it.
    open spec fn spec_packet_decode(src: Seq<u8>) -> Result<(PacketView, nat), CodecError> {
        match <u16 as Protocol>::spec_decode(src) {
            Err(e) => Err(e),
            Ok((id, n)) => if id == 0 {
                match Pong::spec_decode(src.skip(n as int)) {
                    Err(e) => Err(e),
                    Ok((_, m)) => Ok((PacketView::Pong, n + m)),
                }
            } else if id == 1 {
                match Create::spec_decode(src.skip(n as int)) {
                    Err(e) => Err(e),
                    Ok((v, m)) => Ok((PacketView::Create(v), n + m)),
                }
            } else {
                Err(CodecError::UnrecognizedPacketId)
            },
        }
    }

    fn packet_decode(src: &mut Reader) -> (r: Result<Packet, CodecError>) {
        let id = <u16 as Protocol>::decode(src)?;
        let ghost after_id = src@;
        if id == 0 {
            let p = Pong::decode(src)?;
            assert(after_id.skip(after_id.len() - src@.len()) =~= old(src)@.skip(
                old(src)@.len() - src@.len(),
            ));
            Ok(Packet::Pong(p))
        } else if id == 1 {
            let c = Create::decode(src)?;
            assert(after_id.skip(after_id.len() - src@.len()) =~= old(src)@.skip(
                old(src)@.len() - src@.len(),
            ));
            Ok(Packet::Create(c))
        } else {
            Err(CodecError::UnrecognizedPacketId)
        }
    }
}

/// A frame whose id names no kind of this direction fails with
/// `UnrecognizedPacketId`, whatever its payload.
pub proof fn lemma_unknown_id(id: u16, payload: Seq<u8>, rest: Seq<u8>)
    requires
        id != 0,
        id != 1,
        payload.len() + 2 <= 0xFFFF,
    ensures
        ({
            let src = frame(id, payload) + rest;
            frame_outcome(src, Packet::spec_packet_decode(frame_body(src))) == Err::<
                (PacketView, nat),
                CodecError,
            >(CodecError::UnrecognizedPacketId)
        }),
{
    lemma_frame_parts(id, payload, rest);
    <u16 as Protocol>::lemma_round_trip(id, payload);
}

/// Reading the frame written for a `Create` gives back both names, in order,
/// and uses the whole frame, whatever follows it.
pub proof fn lemma_create_frame_round_trip(value: (Seq<char>, Seq<char>), rest: Seq<u8>)
    requires
        Create::well_formed(value),
        Create::spec_encode(value).len() + 2 <= 0xFFFF,
    ensures
        ({
            let f = frame(1, Create::spec_encode(value));
            let src = f + rest;
            frame_outcome(src, Packet::spec_packet_decode(frame_body(src))) == Ok::<
                (PacketView, nat),
                CodecError,
            >((PacketView::Create(value), f.len()))
        }),
{
    let e = Create::spec_encode(value);
    lemma_frame_parts(1, e, rest);
    <u16 as Protocol>::lemma_round_trip(1, e);
    assert(packet_body(1, e).skip(2) =~= e + Seq::empty());
    Create::lemma_round_trip(value, Seq::empty());
}

/// Every strict prefix of the frame of a `Create` fails with
/// `TruncatedInput`.
pub proof fn lemma_create_frame_truncated(value: (Seq<char>, Seq<char>), k: nat)
    requires
        Create::well_formed(value),
        Create::spec_encode(value).len() + 2 <= 0xFFFF,
        k < frame(1, Create::spec_encode(value)).len(),
    ensures
        ({
            let src = frame(1, Create::spec_encode(value)).take(k as int);
            frame_outcome(src, Packet::spec_packet_decode(frame_body(src))) == Err::<
                (PacketView, nat),
                CodecError,
            >(CodecError::TruncatedInput)
        }),
{
    let e = Create::spec_encode(value);
    let f = frame(1, e);
    lemma_frame_parts(1, e, Seq::empty());
    assert(f + Seq::empty() =~= f);
    if k >= 2 {
        let src = f.take(k as int);
        let body = packet_body(1, e);
        assert(src.take(2) =~= (f + Seq::empty()).take(2));
        assert(frame_len(src) == e.len() + 2);
        assert(src.skip(2) =~= body.take(k - 2));
        if k >= 4 {
            <u16 as Protocol>::lemma_round_trip(1, e.take(k - 4));
            assert(body.take(k - 2) =~= <u16 as Protocol>::spec_encode(1) + e.take(k - 4));
            assert(body.take(k - 2).skip(2) =~= e.take(k - 4));
            Create::lemma_truncated(value, (k - 4) as nat);
        }
    }
}

} // verus!
