use std::collections::HashMap;
use std::collections::HashSet;

use holdem::card::Card;
use holdem::domain::Action;
use holdem::error::Error;
use holdem::game::GameService;
use holdem::player::Hand;
use holdem::player::Player;
use holdem::player::Position;
use holdem::pot::Pot;
use holdem::room::Room;
use holdem::rules::Stage;
use holdem::state::HandState;
use holdem::state::PlayerHand;
use holdem::state::PlayerState;
use holdem::state::SharedGameState;
use holdem::state::Timestamp;
use holdem::state::Timestamped;

fn a_card(text: &str) -> Card {
    Card::parse(text).expect("a card")
}

fn showdown_room() -> Room {
    let mut room = Room::new_with_id(99);
    let mut alice = Player::new("Alice".to_string(), 10);
    alice.id = 1;
    alice.hand = Some(Hand([a_card("As"), a_card("Ad")]));
    alice.position = Position::DealerAndSmallBlind;
    alice.last_action = Some(Action::Raise(4));
    let mut bob = Player::new("Bob".to_string(), 0);
    bob.id = 2;
    bob.hand = Some(Hand([a_card("7c"), a_card("7h")]));
    bob.position = Position::BigBlind;
    bob.bet = 3;
    let mut carol = Player::new("Carol".to_string(), 5);
    carol.id = 3;
    carol.has_folded = true;
    carol.is_connected = false;
    room.players = vec![alice, bob, carol];
    room.community_cards = ["2c", "7d", "9s", "Jh", "Kd"].iter().map(|t| a_card(t)).collect();
    room.pots = vec![
        Pot { amount: 30, players: HashSet::from([1, 2, 3]) },
        Pot { amount: 8, players: HashSet::from([1, 2]) },
    ];
    room.stage = Stage::Showdown(true);
    room
}

#[test]
fn a_hidden_state_shows_no_hole_card() {
    let room = showdown_room();
    let state = SharedGameState::from_room(room.clone(), false);
    assert_eq!(state.id, 99);
    assert_eq!(state.stage, Stage::Showdown(true));
    assert_eq!(state.current_player, None);
    assert_eq!(state.pots, vec![30, 8]);
    assert_eq!(state.community_cards, room.community_cards);
    assert_eq!(state.players.len(), 3);
    assert_eq!(state.players[0].hand, HandState::Hidden);
    assert_eq!(state.players[1].hand, HandState::Hidden);
    assert_eq!(state.players[2].hand, HandState::Empty);
    assert_eq!(state.players[0].name, "Alice");
    assert_eq!(state.players[0].chips, 10);
    assert_eq!(state.players[1].bet, 3);
    assert_eq!(state.players[0].position, Position::DealerAndSmallBlind);
    assert_eq!(state.players[0].last_action, Some(Action::Raise(4)));
    assert!(state.players[2].has_folded);
    assert!(!state.players[2].is_connected);
    assert!(state.players.iter().all(|p| p.eval.is_none()));
}

#[test]
fn a_revealed_state_shows_the_cards_and_names_the_hands() {
    let room = showdown_room();
    let service = GameService::new();
    let result = service.find_winners(&room).unwrap();
    let state = SharedGameState::from_room(room, true).with_eval(&result.hands_eval);
    assert_eq!(
        state.players[0].hand,
        HandState::Revealed(PlayerHand([Some(a_card("As")), Some(a_card("Ad"))]))
    );
    assert_eq!(
        state.players[1].hand,
        HandState::Revealed(PlayerHand::from_cards([a_card("7c"), a_card("7h")]))
    );
    assert_eq!(state.players[2].hand, HandState::Empty);
    assert_eq!(state.players[0].eval.as_deref(), Some("Pair, aces"));
    assert_eq!(state.players[1].eval.as_deref(), Some("Three of a kind, sevens"));
    assert_eq!(state.players[2].eval, None);
    assert_eq!(result.winners, vec![(8, HashSet::from([2])), (30, HashSet::from([2]))]);
    let nothing = SharedGameState::from_room(showdown_room(), true).with_eval(&HashMap::new());
    assert!(nothing.players.iter().all(|p| p.eval.is_none()));
}

#[test]
fn a_hand_with_the_same_card_twice_is_not_evaluated() {
    let mut room = showdown_room();
    room.players[1].hand = Some(Hand([a_card("As"), a_card("7h")]));
    room.community_cards[0] = a_card("7h");
    let service = GameService::new();
    assert_eq!(service.find_winners(&room).err(), Some(Error::CardsNotUnique));
    room.community_cards.truncate(2);
    room.community_cards[0] = a_card("2c");
    assert_eq!(
        service.find_winners(&room).err(),
        Some(Error::InvalidHandSize(4))
    );
}

#[test]
fn titles_of_a_player() {
    let mut state = PlayerState::from_player(Player::new("Dora".to_string(), 10), false);
    assert_eq!(state.bottom_title(), "Dora");
    assert_eq!(state.top_title(), "");
    state.last_action = Some(Action::AllIn);
    assert_eq!(state.top_title(), "all_in");
    state.has_folded = true;
    assert_eq!(state.top_title(), "Folded");
    assert_eq!(state.hand, HandState::Empty);
    state.reveal_hand(PlayerHand::default());
    assert_eq!(state.hand, HandState::Revealed(PlayerHand([None, None])));
}

#[test]
fn the_newer_payload_is_kept() {
    let old = Timestamped { timestamp: Timestamp { secs: 10, nanos: 5 }, data: "old" };
    let same = Timestamped { timestamp: Timestamp { secs: 10, nanos: 5 }, data: "same" };
    let later = Timestamped { timestamp: Timestamp { secs: 10, nanos: 6 }, data: "later" };
    let next = Timestamped { timestamp: Timestamp { secs: 11, nanos: 0 }, data: "next" };
    assert!(later.is_newer(&old));
    assert!(next.is_newer(&later));
    assert!(!old.is_newer(&later));
    assert!(!same.is_newer(&old));
    assert_eq!(Timestamped::keep_latest(None, old.clone()).data, "old");
    assert_eq!(Timestamped::keep_latest(Some(old.clone()), later.clone()).data, "later");
    assert_eq!(Timestamped::keep_latest(Some(later.clone()), old.clone()).data, "later");
    assert_eq!(Timestamped::keep_latest(Some(old), same).data, "old");
    assert_eq!(Timestamped::keep_latest(Some(later), next).data, "next");
}

#[test]
fn a_payload_is_stamped_with_the_time_of_the_clock() {
    let first = Timestamped::new(1);
    let second = Timestamped::new(2);
    assert_eq!(first.data, 1);
    assert_eq!(second.data, 2);
    assert!(first.timestamp.secs > 1_600_000_000);
    assert!(first.timestamp.nanos < 2_000_000_000);
    assert!(!first.is_newer(&second));
}

#[test]
fn new_players_get_ids_of_their_own() {
    let a = Player::new("A".to_string(), 5);
    let b = Player::new("A".to_string(), 5);
    assert_ne!(a.id, b.id);
    assert_ne!(a.sid, b.sid);
    assert_eq!(a.chips, 5);
    assert_eq!(a.bet, 0);
    assert_eq!(a.position, Position::Normal);
    assert!(a.is_connected);
    assert!(!a.has_folded);
    assert!(!a.has_taken_turn);
    assert!(a.hand.is_none());
    assert_eq!(a.clone(), a);
}
