//! A binary wire codec: typed encode/decode of values into big-endian byte
//! streams, composed into length-prefixed, id-tagged packets; and the state
//! of the card game played over it.
pub mod error;
pub mod wire;
pub mod reader;
pub mod protocol;
pub mod variable;
pub mod composite;
pub mod packets;
pub mod client_bound;
pub mod server_bound;
pub mod direction;
pub mod lobby;
pub mod game;
