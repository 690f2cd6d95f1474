use whono::game::{Card, Colour, Direction, Player, Whono};
use whono::lobby::Lobby;

#[test]
fn lobby_starts_empty() {
    let l = Lobby::new(7, 4);
    assert_eq!(l.id, 7);
    assert!(l.players.is_empty());
}

#[test]
fn player_starts_with_empty_hand() {
    let p = Player::new(3, "ann", 10);
    assert_eq!(p.id, 3);
    assert_eq!(p.name, "ann");
    assert!(p.cards.is_empty());
}

#[test]
fn new_game_seats_first_player() {
    let g = Whono::new(1, "host", 4, 20);
    assert_eq!(g.players.len(), 1);
    assert_eq!(g.players[0].id, 1);
    assert_eq!(g.players[0].name, "host");
    assert_eq!(g.current_player_index, 0);
    assert_eq!(g.direction, Direction::Clockwise);
    assert!(g.deck.is_empty());
    assert!(g.discard.is_empty());
}

fn three_player_game() -> Whono<'static> {
    let mut g = Whono::new(1, "a", 3, 10);
    g.players.push(Player::new(2, "b", 10));
    g.players.push(Player::new(3, "c", 10));
    g
}

#[test]
fn turns_wrap_both_ways() {
    let mut g = three_player_game();
    g.increment_turn();
    assert_eq!(g.current_player_index, 1);
    g.increment_turn();
    g.increment_turn();
    assert_eq!(g.current_player_index, 0);
    g.reverse_direction();
    assert_eq!(g.direction, Direction::CounterClockwise);
    g.increment_turn();
    assert_eq!(g.current_player_index, 2);
    g.reverse_direction();
    assert_eq!(g.direction, Direction::Clockwise);
}

#[test]
fn drawing_takes_from_top_of_deck() {
    let mut g = three_player_game();
    g.deck = vec![Card::Value(1, Colour::Red), Card::Value(2, Colour::Green), Card::Skip(Colour::Yellow)];
    g.draw_cards(2);
    assert_eq!(g.deck, vec![Card::Value(1, Colour::Red)]);
    assert_eq!(g.players[0].cards, vec![Card::Skip(Colour::Yellow), Card::Value(2, Colour::Green)]);
    assert!(g.players[1].cards.is_empty());
}

#[test]
fn card_colour_and_value() {
    assert_eq!(Card::Draw(2, Colour::Purple).get_colour(), Colour::Purple);
    assert_eq!(Card::Empty.get_colour(), Colour::Colourless);
    assert_eq!(Card::Value(9, Colour::Red).get_value(), Some(9));
    assert_eq!(Card::Wild(Colour::Red).get_value(), None);
}

#[test]
fn matching_card_is_discarded() {
    let mut g = three_player_game();
    g.discard = vec![Card::Value(5, Colour::Red)];
    g.players[0].cards = vec![Card::Value(5, Colour::Green), Card::Value(7, Colour::Yellow)];
    g.discard_card(0, None);
    assert_eq!(g.discard, vec![Card::Value(5, Colour::Red), Card::Value(5, Colour::Green)]);
    assert_eq!(g.players[0].cards, vec![Card::Value(7, Colour::Yellow)]);
}

#[test]
fn unplayable_card_stays_in_hand() {
    let mut g = three_player_game();
    g.discard = vec![Card::Value(5, Colour::Red)];
    g.players[0].cards = vec![Card::Value(7, Colour::Yellow)];
    g.discard_card(0, None);
    assert_eq!(g.discard, vec![Card::Value(5, Colour::Red)]);
    assert_eq!(g.players[0].cards, vec![Card::Value(7, Colour::Yellow)]);
}

#[test]
fn reverse_card_turns_direction() {
    let mut g = three_player_game();
    g.discard = vec![Card::Skip(Colour::Green)];
    g.players[0].cards = vec![Card::Reverse(Colour::Green)];
    g.discard_card(0, None);
    assert_eq!(g.direction, Direction::CounterClockwise);
    assert_eq!(g.discard.last(), Some(&Card::Reverse(Colour::Green)));
    assert!(g.players[0].cards.is_empty());
}

#[test]
fn wild_colour_discards_blank() {
    let mut g = three_player_game();
    g.discard = vec![Card::Empty];
    g.players[0].cards = vec![Card::Wild(Colour::Colourless), Card::Value(1, Colour::Red)];
    g.discard_card(0, Some(Colour::Purple));
    assert_eq!(g.discard, vec![Card::Empty, Card::Blank(Colour::Purple)]);
    assert_eq!(g.players[0].cards, vec![Card::Value(1, Colour::Red)]);
}
