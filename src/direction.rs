//! Reading a frame in one of the two directions, each with its own ids.
use vstd::prelude::*;
use crate::client_bound;
use crate::error::CodecError;
use crate::packets::{frame_body, frame_outcome, PacketRead};
use crate::reader::Reader;
use crate::server_bound;

verus! {

/// Which side receives: the ids of the two directions are independent.
#[derive(Debug, Clone, Copy, PartialEq, Eq, Structural)]
pub enum Direction {
    /// From the server to the client.
    ClientBound,
    /// From the client to the server.
    ServerBound,
}

/// A packet received in either direction.
pub enum Received {
    ClientBound(client_bound::Packet),
    ServerBound(server_bound::Packet),
}

/// Reads one frame and decodes it with the registry of `direction`.
pub fn read_packet(direction: Direction, src: &mut Reader) -> (r: Result<Received, CodecError>)
    ensures
        direction == Direction::ClientBound ==> match frame_outcome(
            old(src)@,
            client_bound::Packet::spec_packet_decode(frame_body(old(src)@)),
        ) {
            Ok((v, n)) => r matches Ok(Received::ClientBound(p)) && p.deep_view() == v
                && final(src)@ == old(src)@.skip(n as int),
            Err(e) => r is Err && r->Err_0 == e,
        },
        direction == Direction::ServerBound ==> match frame_outcome(
            old(src)@,
            server_bound::Packet::spec_packet_decode(frame_body(old(src)@)),
        ) {
            Ok((v, n)) => r matches Ok(Received::ServerBound(p)) && p.deep_view() == v
                && final(src)@ == old(src)@.skip(n as int),
            Err(e) => r is Err && r->Err_0 == e,
        },
{
    match direction {
        Direction::ClientBound => {
            let p = client_bound::Packet::read(src)?;
            Ok(Received::ClientBound(p))
        },
        Direction::ServerBound => {
            let p = server_bound::Packet::read(src)?;
            Ok(Received::ServerBound(p))
        },
    }
}

} // verus!
