//! A lobby: an id and the ids of the players who joined it.
use vstd::prelude::*;

verus! {

pub struct Lobby {
    pub id: u16,
    pub players: Vec<u16>,
}

impl Lobby {
    /// An empty lobby with room reserved for `max_players`.
    pub fn new(id: u16, max_players: usize) -> (r: Self)
        ensures
            r.id == id,
            r.players@ == Seq::<u16>::empty(),
    {
        Self { id, players: Vec::with_capacity(max_players) }
    }
}

} // verus!
