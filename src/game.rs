//! The state of one card game: players in a ring, a deck to draw from and a
//! discard pile whose top card decides what may be played.
use vstd::prelude::*;

verus! {

#[derive(Debug, Clone, Copy, PartialEq, Eq, Structural)]
pub enum Colour {
    Green,
    Purple,
    Red,
    Yellow,
    Colourless,
}

#[derive(Debug, Clone, Copy, PartialEq, Eq, Structural)]
pub enum Card {
    Value(u8, Colour),
    Draw(u8, Colour),
    Reverse(Colour),
    Skip(Colour),
    Wild(Colour),
    Blank(Colour),
    Empty,
}

/// The order in which turns pass along the players.
#[derive(Debug, Clone, Copy, PartialEq, Eq, Structural)]
pub enum Direction {
    Clockwise,
    CounterClockwise,
}

/// The colour a card shows; the empty card has none.
pub open spec fn colour_of(card: Card) -> Colour {
    match card {
        Card::Value(_, c) => c,
        Card::Draw(_, c) => c,
        Card::Reverse(c) => c,
        Card::Skip(c) => c,
        Card::Wild(c) => c,
        Card::Blank(c) => c,
        Card::Empty => Colour::Colourless,
    }
}

/// The number a card shows, if any.
pub open spec fn value_of(card: Card) -> Option<u8> {
    match card {
        Card::Value(n, _) => Some(n),
        Card::Draw(n, _) => Some(n),
        _ => None,
    }
}

/// `card` may be played on `top`: same colour, or same number where both
/// show one. Nothing may be played on the empty card.
pub open spec fn playable(card: Card, top: Card) -> bool {
    match top {
        Card::Value(n, c) => colour_of(card) == c || value_of(card) == Some(n),
        Card::Draw(n, c) => colour_of(card) == c || value_of(card) == Some(n),
        Card::Empty => false,
        _ => colour_of(card) == colour_of(top),
    }
}

/// The other direction.
pub open spec fn reversed(d: Direction) -> Direction {
    match d {
        Direction::Clockwise => Direction::CounterClockwise,
        Direction::CounterClockwise => Direction::Clockwise,
    }
}

/// The last `amount` cards of `deck`, from the top of the deck down.
pub open spec fn drawn(deck: Seq<Card>, amount: nat) -> Seq<Card> {
    Seq::new(amount, |i: int| deck[deck.len() - 1 - i])
}

/// `new` is `old` with the hand of the player at `idx` set to `hand`; every
/// other player, and that player's id and name, unchanged.
pub open spec fn hand_replaced<'a>(
    old: Seq<Player<'a>>,
    new: Seq<Player<'a>>,
    idx: int,
    hand: Seq<Card>,
) -> bool {
    &&& new.len() == old.len()
    &&& forall|j: int| 0 <= j < old.len() && j != idx ==> new[j] == old[j]
    &&& new[idx].id == old[idx].id
    &&& new[idx].name == old[idx].name
    &&& new[idx].cards@ == hand
}

impl Card {
    pub fn get_colour(&self) -> (r: Colour)
        ensures
            r == colour_of(*self),
    {
        match self {
            Card::Value(_, c) => *c,
            Card::Draw(_, c) => *c,
            Card::Reverse(c) => *c,
            Card::Skip(c) => *c,
            Card::Wild(c) => *c,
            Card::Blank(c) => *c,
            Card::Empty => Colour::Colourless,
        }
    }

    pub fn get_value(&self) -> (r: Option<u8>)
        ensures
            r == value_of(*self),
    {
        match self {
            Card::Value(n, _) => Some(*n),
            Card::Draw(n, _) => Some(*n),
            _ => None,
        }
    }
}

pub struct Player<'a> {
    pub id: u16,
    pub name: &'a str,
    pub cards: Vec<Card>,
}

impl<'a> Player<'a> {
    /// A player with an empty hand, with room reserved for `deck_size` cards.
    pub fn new(id: u16, username: &'a str, deck_size: usize) -> (r: Self)
        ensures
            r.id == id,
            r.name@ == username@,
            r.cards@ == Seq::<Card>::empty(),
    {
        let cards = Vec::with_capacity(deck_size);
        Self { id, name: username, cards }
    }
}

pub struct Whono<'a> {
    pub current_player_index: usize,
    pub direction: Direction,
    pub players: Vec<Player<'a>>,
    pub deck: Vec<Card>,
    pub discard: Vec<Card>,
}

impl<'a> Whono<'a> {
    /// The player whose turn it is is one of the players.
    pub open spec fn turn_valid(&self) -> bool {
        self.current_player_index < self.players@.len()
    }

    /// A game with its first player seated and on turn, running clockwise,
    /// with an empty deck and discard pile.
    pub fn new(
        first_player_id: u16,
        first_player_name: &'a str,
        amount_of_players: usize,
        deck_size: usize,
    ) -> (r: Self)
        ensures
            r.players@.len() == 1,
            r.players@[0].id == first_player_id,
            r.players@[0].name@ == first_player_name@,
            r.players@[0].cards@ == Seq::<Card>::empty(),
            r.current_player_index == 0,
            r.direction == Direction::Clockwise,
            r.deck@ == Seq::<Card>::empty(),
            r.discard@ == Seq::<Card>::empty(),
    {
        let mut players = Vec::with_capacity(amount_of_players);
        players.push(Player::new(first_player_id, first_player_name, deck_size));
        Self {
            current_player_index: 0,
            direction: Direction::Clockwise,
            players,
            deck: Vec::with_capacity(deck_size),
            discard: Vec::with_capacity(deck_size),
        }
    }

    /// Passes the turn to the next player in the current direction, wrapping
    /// around the ends.
    pub fn increment_turn(&mut self)
        requires
            old(self).turn_valid(),
        ensures
            final(self).turn_valid(),
            final(self).players@ == old(self).players@,
            final(self).deck@ == old(self).deck@,
            final(self).discard@ == old(self).discard@,
            final(self).direction == old(self).direction,
            final(self).current_player_index as int == if old(self).direction
                == Direction::Clockwise {
                (old(self).current_player_index + 1) % (old(self).players@.len() as int)
            } else {
                (old(self).current_player_index + old(self).players@.len() - 1) % (
                old(self).players@.len() as int)
            },
    {
        let n = self.players.len();
        let i = self.current_player_index;
        if self.direction == Direction::Clockwise {
            if i == n - 1 {
                self.current_player_index = 0;
                assert((i + 1) % (n as int) == 0) by (nonlinear_arith)
                    requires
                        i + 1 == n,
                ;
            } else {
                self.current_player_index = i + 1;
                assert((i + 1) % (n as int) == i + 1) by (nonlinear_arith)
                    requires
                        i + 1 < n,
                ;
            }
        } else {
            if i == 0 {
                self.current_player_index = n - 1;
                assert((i + n - 1) % (n as int) == n - 1) by (nonlinear_arith)
                    requires
                        i == 0,
                        n > 0,
                ;
            } else {
                self.current_player_index = i - 1;
                assert((i + n - 1) % (n as int) == i - 1) by (nonlinear_arith)
                    requires
                        0 < i < n,
                ;
            }
        }
    }

    /// Draws `amount` cards from the top (end) of the deck into the hand of
    /// the player on turn, one at a time.
    pub fn draw_cards(&mut self, amount: u16)
        requires
            old(self).turn_valid(),
            old(self).deck@.len() >= amount,
        ensures
            final(self).deck@ == old(self).deck@.take(old(self).deck@.len() - amount),
            hand_replaced(
                old(self).players@,
                final(self).players@,
                old(self).current_player_index as int,
                old(self).players@[old(self).current_player_index as int].cards@ + drawn(
                    old(self).deck@,
                    amount as nat,
                ),
            ),
            final(self).current_player_index == old(self).current_player_index,
            final(self).direction == old(self).direction,
            final(self).discard@ == old(self).discard@,
    {
        let idx = self.current_player_index;
        let ghost deck0 = self.deck@;
        let ghost players0 = self.players@;
        let mut player = self.players.remove(idx);
        let mut i: u16 = 0;
        while i < amount
            invariant
                i <= amount,
                amount <= deck0.len(),
                deck0 == old(self).deck@,
                players0 == old(self).players@,
                idx == old(self).current_player_index,
                idx < players0.len(),
                self.players@ == players0.remove(idx as int),
                self.current_player_index == idx,
                self.direction == old(self).direction,
                self.discard@ == old(self).discard@,
                self.deck@ == deck0.take(deck0.len() - i),
                player.id == players0[idx as int].id,
                player.name == players0[idx as int].name,
                player.cards@ == players0[idx as int].cards@ + drawn(deck0, i as nat),
            decreases amount - i,
        {
            let c = self.deck.pop().unwrap();
            player.cards.push(c);
            assert(drawn(deck0, (i + 1) as nat) =~= drawn(deck0, i as nat).push(c));
            assert(self.deck@ =~= deck0.take(deck0.len() - (i + 1)));
            i = i + 1;
        }
        self.players.insert(idx, player);
        assert forall|j: int| 0 <= j < players0.len() && j != idx implies self.players@[j]
            == players0[j] by {
            if j < idx {
                assert(self.players@[j] == players0.remove(idx as int)[j]);
            } else {
                assert(self.players@[j] == players0.remove(idx as int)[j - 1]);
            }
        }
    }

    /// Takes the card at `card_index` out of the hand of the player on turn.
    fn remove_card(&mut self, card_index: usize) -> (r: Card)
        requires
            old(self).turn_valid(),
            card_index < old(self).players@[old(self).current_player_index as int].cards@.len(),
        ensures
            r == old(self).players@[old(self).current_player_index as int].cards@[card_index as int],
            hand_replaced(
                old(self).players@,
                final(self).players@,
                old(self).current_player_index as int,
                old(self).players@[old(self).current_player_index as int].cards@.remove(
                    card_index as int,
                ),
            ),
            final(self).current_player_index == old(self).current_player_index,
            final(self).direction == old(self).direction,
            final(self).deck@ == old(self).deck@,
            final(self).discard@ == old(self).discard@,
    {
        let idx = self.current_player_index;
        let mut player = self.players.remove(idx);
        let card = player.cards.remove(card_index);
        self.players.insert(idx, player);
        card
    }

    /// The player on turn plays the card at `card_index`. With a wild colour
    /// the card goes on the discard pile as a blank card of that colour.
    /// Otherwise it goes there as it is if it is playable on the top card (a
    /// reverse card then turns the direction round), and nothing changes if
    /// it is not.
    pub fn discard_card(&mut self, card_index: usize, wild_colour: Option<Colour>)
        requires
            old(self).turn_valid(),
            card_index < old(self).players@[old(self).current_player_index as int].cards@.len(),
            old(self).discard@.len() > 0,
        ensures
            ({
                let idx = old(self).current_player_index as int;
                let hand = old(self).players@[idx].cards@;
                let card = hand[card_index as int];
                let top = old(self).discard@.last();
                match wild_colour {
                    Some(colour) => {
                        &&& hand_replaced(
                            old(self).players@,
                            final(self).players@,
                            idx,
                            hand.remove(card_index as int),
                        )
                        &&& final(self).discard@ == old(self).discard@.push(Card::Blank(colour))
                        &&& final(self).direction == old(self).direction
                    },
                    None => if playable(card, top) {
                        &&& hand_replaced(
                            old(self).players@,
                            final(self).players@,
                            idx,
                            hand.remove(card_index as int),
                        )
                        &&& final(self).discard@ == old(self).discard@.push(card)
                        &&& final(self).direction == if card is Reverse {
                            reversed(old(self).direction)
                        } else {
                            old(self).direction
                        }
                    } else {
                        &&& final(self).players@ == old(self).players@
                        &&& final(self).discard@ == old(self).discard@
                        &&& final(self).direction == old(self).direction
                    },
                }
            }),
            final(self).current_player_index == old(self).current_player_index,
            final(self).deck@ == old(self).deck@,
    {
        let idx = self.current_player_index;
        let card = self.players[idx].cards[card_index];
        let top = self.discard[self.discard.len() - 1];
        let same_value = |n: u8| -> (b: bool)
            ensures
                b == (value_of(card) == Some(n)),
            {
                match card.get_value() {
                    Some(v) => v == n,
                    None => false,
                }
            };
        let matched = match top {
            Card::Value(num, c) => card.get_colour() == c || same_value(num),
            Card::Draw(num, c) => card.get_colour() == c || same_value(num),
            Card::Reverse(c) => card.get_colour() == c,
            Card::Skip(c) => card.get_colour() == c,
            Card::Wild(c) => card.get_colour() == c,
            Card::Blank(c) => card.get_colour() == c,
            Card::Empty => false,
        };
        match wild_colour {
            Some(colour) => {
                self.remove_card(card_index);
                self.discard.push(Card::Blank(colour));
            },
            None => {
                if matched {
                    if let Card::Reverse(_) = card {
                        self.reverse_direction();
                    }
                    self.remove_card(card_index);
                    self.discard.push(card);
                }
            },
        }
    }

    /// Turns the direction of play round.
    pub fn reverse_direction(&mut self)
        ensures
            final(self).direction == reversed(old(self).direction),
            final(self).current_player_index == old(self).current_player_index,
            final(self).players@ == old(self).players@,
            final(self).deck@ == old(self).deck@,
            final(self).discard@ == old(self).discard@,
    {
        match self.direction {
            Direction::Clockwise => {
                self.direction = Direction::CounterClockwise;
            },
            Direction::CounterClockwise => {
                self.direction = Direction::Clockwise;
            },
        }
    }
}

} // verus!
