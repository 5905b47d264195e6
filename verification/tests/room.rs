use std::collections::HashSet;
use std::str::FromStr;

use holdem::card::Card;
use holdem::deck::Deck;
use holdem::domain::Action;
use holdem::domain::ServiceRequiredAction;
use holdem::error::Error;
use holdem::game::GameService;
use holdem::player::Hand;
use holdem::player::Player;
use holdem::player::Position;
use holdem::pot::Pot;
use holdem::room::Room;
use holdem::rules::ProceedType;
use holdem::rules::Stage;
use socketioxide::socket::Sid;
use uuid::Uuid;

fn card(text: &str) -> Card {
    Card::parse(text).expect("a card")
}

fn cards(text: &str) -> Vec<Card> {
    text.split(' ').map(card).collect()
}

fn seated(id: u128, name: &str, chips: u32, bet: u32, position: Position) -> Player {
    Player {
        id,
        name: name.to_string(),
        hand: Some(Hand([card("3s"), card("2s")])),
        chips,
        bet,
        has_folded: false,
        position,
        has_taken_turn: false,
        sid: Sid::default(),
        is_connected: true,
        last_action: None,
    }
}

#[test]
fn room_test_add_player() {
    let mut room = Room::new();
    room.join_player(Player::new("Alice".to_string(), 400)).unwrap();
    room.join_player(Player::new("Bob".to_string(), 400)).unwrap();
    assert_eq!(2, room.players.len());
}

#[test]
fn room_test_deal_community_card() {
    let mut room = Room::new();
    room.deal_community_card(Stage::Flop).unwrap();
    room.deal_community_card(Stage::Turn).unwrap();
    room.deal_community_card(Stage::River).unwrap();
    assert_eq!(room.community_cards.len(), 5);
    assert_eq!(room.deck.len(), 52 - 8);
    let distinct: HashSet<Card> = room.community_cards.iter().copied().collect();
    assert_eq!(distinct.len(), 5);
}

#[test]
fn room_test_winners() {
    let game_service = GameService::new();
    let room = Room {
        id: Uuid::new_v4().as_u128(),
        players: vec![
            Player {
                id: Uuid::from_u128(1).as_u128(),
                name: "Alice".to_string(),
                hand: Some(Hand([card("3s"), card("2s")])),
                chips: 0,
                bet: 0,
                has_folded: false,
                position: Position::DealerAndSmallBlind,
                has_taken_turn: true,
                sid: Sid::from_str("AA9AAA0AAzAAAAHs").unwrap(),
                is_connected: true,
                last_action: None,
            },
            Player {
                id: Uuid::from_u128(2).as_u128(),
                name: "Bob".to_string(),
                hand: Some(Hand([card("4s"), card("5s")])),
                chips: 0,
                bet: 0,
                has_folded: false,
                position: Position::BigBlind,
                has_taken_turn: true,
                sid: Sid::from_str("AA9AAA0AAzAAAAHB").unwrap(),
                is_connected: true,
                last_action: None,
            },
        ],
        deck: Deck::new(),
        community_cards: cards("6s 7s 8s 9s Ts"),
        stage: Stage::Showdown(true),
        pots: vec![Pot {
            amount: 0,
            players: HashSet::from([1, 2]),
        }],
        player_joining_next_round: Default::default(),
        player_in_turn: None,
    };

    let game_result = game_service.find_winners(&room).unwrap();
    let (_, winner_ids) = game_result.winners.first().expect("No winners");
    let mut winners: Vec<_> = room
        .players
        .iter()
        .filter(|p| winner_ids.contains(&p.id))
        .collect();
    winners.sort_by(|a, b| a.id.cmp(&b.id));
    // Both players have straight flushes
    assert_eq!(
        winners,
        vec![
            &Player {
                id: 1,
                name: "Alice".to_string(),
                hand: Some(Hand([card("3s"), card("2s")])),
                chips: 0,
                bet: 0,
                has_folded: false,
                position: Position::DealerAndSmallBlind,
                has_taken_turn: true,
                sid: Sid::from_str("AA9AAA0AAzAAAAHs").unwrap(),
                is_connected: true,
                last_action: None,
            },
            &Player {
                id: 2,
                name: "Bob".to_string(),
                hand: Some(Hand([card("4s"), card("5s")])),
                chips: 0,
                bet: 0,
                has_folded: false,
                position: Position::BigBlind,
                has_taken_turn: true,
                sid: Sid::from_str("AA9AAA0AAzAAAAHB").unwrap(),
                is_connected: true,
                last_action: None,
            },
        ]
    );
}

#[test]
fn room_stage_should_change_to_pre_flop_when_there_is_minimum_players() {
    let mut room = Room::new();
    room.join_player(Player::new("Alice".to_string(), 400)).unwrap();
    room.join_player(Player::new("Bob".to_string(), 400)).unwrap();
    assert_eq!(room.stage, Stage::PreFlop);
}

#[test]
fn room_test_readjust_positions_with_4_players() {
    let mut room = Room::new();
    room.join_player(Player::new("Alice".to_string(), 400)).unwrap();
    room.join_player(Player::new("Bob".to_string(), 400)).unwrap();
    room.join_player(Player::new("Charlie".to_string(), 400)).unwrap();
    room.join_player(Player::new("David".to_string(), 400)).unwrap();

    let positions = room
        .players
        .iter()
        .map(|p| p.position.clone())
        .collect::<Vec<_>>();
    assert_eq!(
        positions,
        vec![Position::DealerAndSmallBlind, Position::BigBlind]
    );
}

#[test]
fn room_test_readjust_positions_with_2_players() {
    let mut room = Room::new();
    room.join_player(Player::new("Alice".to_string(), 400)).unwrap();
    room.join_player(Player::new("Bob".to_string(), 400)).unwrap();
    let positions = room
        .players
        .iter()
        .map(|p| p.position.clone())
        .collect::<Vec<_>>();
    assert_eq!(
        positions,
        vec![Position::DealerAndSmallBlind, Position::BigBlind]
    );
}

#[test]
fn room_test_side_pots() {
    let mut room = Room::new();
    let alice = Player::new("Alice".to_string(), 500);
    let bob = Player::new("Bob".to_string(), 1000);
    let charlie = Player::new("Charlie".to_string(), 1500);
    let david = Player::new("David".to_string(), 2000);
    let alice_id = alice.id;
    let bob_id = bob.id;
    let charlie_id = charlie.id;
    let david_id = david.id;

    room.players.push(alice);
    room.players.push(bob);
    room.players.push(charlie);
    room.players.push(david);

    room.proceed().unwrap();
    // PreFlop
    assert_eq!(room.stage, Stage::PreFlop);
    assert_eq!(room.player_in_turn, Some(david_id));

    room.take_action(david_id, Action::Raise(500)).unwrap();
    room.take_action(alice_id, Action::Call).unwrap();
    room.take_action(bob_id, Action::Call).unwrap();
    room.take_action(charlie_id, Action::Call).unwrap();

    assert_eq!(
        room.pots,
        vec![Pot {
            amount: 2000,
            players: HashSet::from([alice_id, bob_id, charlie_id, david_id]),
        }]
    );

    // Flop
    assert_eq!(room.stage, Stage::Flop);
    assert_eq!(room.player_in_turn, Some(bob_id));

    room.take_action(bob_id, Action::Raise(500)).unwrap();
    room.take_action(charlie_id, Action::Call).unwrap();
    room.take_action(david_id, Action::Call).unwrap();

    // Turn
    assert_eq!(
        room.pots,
        vec![
            Pot {
                amount: 2000,
                players: HashSet::from([alice_id, bob_id, charlie_id, david_id]),
            },
            Pot {
                amount: 1500,
                players: HashSet::from([bob_id, charlie_id, david_id]),
            },
        ]
    );
    assert_eq!(room.stage, Stage::Turn);
    assert_eq!(room.player_in_turn, Some(charlie_id));

    room.take_action(charlie_id, Action::Raise(500)).unwrap();
    room.take_action(david_id, Action::Call).unwrap();

    // Game skips to Showdown resets to PreFlop
    assert_eq!(room.stage, Stage::Showdown(true));
    assert_eq!(
        room.pots,
        vec![
            Pot {
                amount: 2000,
                players: HashSet::from([alice_id, bob_id, charlie_id, david_id]),
            },
            Pot {
                amount: 1500,
                players: HashSet::from([bob_id, charlie_id, david_id]),
            },
            Pot {
                amount: 1000,
                players: HashSet::from([charlie_id, david_id]),
            },
        ]
    );
    assert_eq!(room.community_cards.len(), 5);
    assert_eq!(room.player_in_turn, None);
}

#[test]
fn room_closest_to_dealer_should_return_correct_player() {
    let mut room = Room::new();
    let player1 = Player::new("Alice".to_string(), 400);
    let player2 = Player::new("Bob".to_string(), 400);
    let player3 = Player::new("Charlie".to_string(), 400);
    let player4 = Player::new("David".to_string(), 400);

    room.join_player(player1.clone()).unwrap();
    room.join_player(player2.clone()).unwrap();
    room.join_player(player3.clone()).unwrap();
    room.join_player(player4.clone()).unwrap();
    room.proceed().unwrap();

    let player_ids = HashSet::from([player1.id, player2.id, player3.id, player4.id]);

    let closest_player = room.closest_to_dealer(&player_ids).unwrap();
    assert_eq!(closest_player, player2.id);
}

#[test]
fn room_closest_to_dealer_should_return_error_if_no_dealer() {
    let mut room = Room::new();
    let player1 = Player::new("Alice".to_string(), 400);
    let player2 = Player::new("Bob".to_string(), 400);

    room.join_player(player1.clone()).unwrap();
    room.join_player(player2.clone()).unwrap();
    room.proceed().unwrap();

    let player_ids = HashSet::from([player1.id, player2.id]);

    let closest_player = room.closest_to_dealer(&player_ids).unwrap();
    assert_eq!(closest_player, player2.id);
}

#[test]
fn test_take_action() {
    let curr_player = Uuid::parse_str("ac735f48-3e55-4c63-b629-f3822eaba598")
        .unwrap()
        .as_u128();
    let mut room = Room {
        id: Default::default(),
        players: vec![
            Player {
                id: curr_player,
                name: "yewjung".to_string(),
                hand: Some(Hand([card("Ac"), card("9d")])),
                chips: 99,
                bet: 1,
                has_folded: false,
                position: Position::DealerAndSmallBlind,
                has_taken_turn: false,
                sid: Default::default(),
                is_connected: true,
                last_action: None,
            },
            Player {
                id: Uuid::new_v4().as_u128(),
                name: "yewjung2".to_string(),
                hand: Some(Hand([card("4c"), card("Ad")])),
                chips: 98,
                bet: 2,
                has_folded: false,
                position: Position::BigBlind,
                has_taken_turn: false,
                sid: Default::default(),
                is_connected: true,
                last_action: None,
            },
        ],
        deck: Deck::new(),
        community_cards: vec![],
        stage: Stage::PreFlop,
        pots: vec![],
        player_joining_next_round: vec![],
        player_in_turn: Some(curr_player),
    };

    let service_action = room.take_action(curr_player, Action::Fold).unwrap();
    assert_eq!(service_action, ServiceRequiredAction::FindWinners);
    assert_eq!(room.stage, Stage::Showdown(false));
    assert_eq!(room.community_cards.len(), 0);
    assert_eq!(room.player_in_turn, None);
    assert_eq!(room.pots.len(), 2);
    assert_eq!(room.pots[0].amount, 2);
    assert_eq!(room.pots[1].amount, 1);
}

fn two_player_room(
    alice: (u32, bool, bool),
    bob: (u32, bool, bool),
    player_in_turn: &str,
) -> Room {
    let (alice_bet, alice_has_taken_turn, alice_has_folded) = alice;
    let (bob_bet, bob_has_taken_turn, bob_has_folded) = bob;
    Room {
        id: Uuid::new_v4().as_u128(),
        players: vec![
            Player {
                id: 1,
                name: "Alice".to_string(),
                hand: Some(Hand([card("3s"), card("2s")])),
                chips: 500 - alice_bet,
                bet: alice_bet,
                has_folded: alice_has_folded,
                position: Position::DealerAndSmallBlind,
                has_taken_turn: alice_has_taken_turn,
                sid: Sid::default(),
                is_connected: true,
                last_action: None,
            },
            Player {
                id: 2,
                name: "Bob".to_string(),
                hand: Some(Hand([card("4s"), card("5s")])),
                chips: 1000 - bob_bet,
                bet: bob_bet,
                has_folded: bob_has_folded,
                position: Position::BigBlind,
                has_taken_turn: bob_has_taken_turn,
                sid: Sid::default(),
                is_connected: true,
                last_action: None,
            },
        ],
        deck: Deck::new(),
        community_cards: Vec::new(),
        stage: Stage::PreFlop,
        pots: vec![Pot {
            amount: 0,
            players: HashSet::from([1, 2]),
        }],
        player_joining_next_round: Vec::new(),
        player_in_turn: if player_in_turn == "Alice" {
            Some(1)
        } else {
            Some(2)
        },
    }
}

#[test]
fn can_proceed_when_all_but_one_folded() {
    let room = two_player_room((0, true, true), (0, false, false), "Alice");
    assert_eq!(
        room.can_proceed_to_next_stage(),
        ProceedType::ShowdownWithoutDealing
    );
}

#[test]
fn cannot_proceed_before_anyone_acted() {
    let room = two_player_room((0, false, false), (0, false, false), "Bob");
    assert_eq!(room.can_proceed_to_next_stage(), ProceedType::NoAction);
    let room = two_player_room((0, false, false), (0, false, false), "Alice");
    assert_eq!(room.can_proceed_to_next_stage(), ProceedType::NoAction);
}

#[test]
fn can_proceed_when_all_bets_are_equal() {
    let room = two_player_room((10, true, false), (10, true, false), "Bob");
    assert_eq!(room.can_proceed_to_next_stage(), ProceedType::Normal);
}

#[test]
fn cannot_proceed_while_a_bet_is_unmatched() {
    let room = two_player_room((10, true, false), (0, false, false), "Alice");
    assert_eq!(room.can_proceed_to_next_stage(), ProceedType::NoAction);
    let room = two_player_room((10, true, false), (5, true, false), "Alice");
    assert_eq!(room.can_proceed_to_next_stage(), ProceedType::NoAction);
}

#[test]
fn can_proceed_when_the_other_folded_after_betting() {
    let room = two_player_room((15, true, false), (10, true, true), "Bob");
    assert_eq!(
        room.can_proceed_to_next_stage(),
        ProceedType::ShowdownWithoutDealing
    );
}

#[test]
fn can_proceed_when_both_are_all_in() {
    let room = two_player_room((500, true, false), (1000, true, false), "Bob");
    assert_eq!(
        room.can_proceed_to_next_stage(),
        ProceedType::ShowdownWithDealing
    );
    let room = two_player_room((500, true, false), (1000, true, false), "Alice");
    assert_eq!(
        room.can_proceed_to_next_stage(),
        ProceedType::ShowdownWithDealing
    );
}

#[test]
fn cannot_proceed_while_an_all_in_is_unmatched() {
    let room = two_player_room((500, true, false), (22, true, false), "Alice");
    assert_eq!(room.can_proceed_to_next_stage(), ProceedType::NoAction);
}

#[test]
fn can_proceed_follows_the_stage() {
    let mut room = Room::new();
    assert_eq!(room.can_proceed_to_next_stage(), ProceedType::NoAction);
    room.players.push(Player::new("Alice".to_string(), 10));
    assert_eq!(room.can_proceed_to_next_stage(), ProceedType::NoAction);
    room.players.push(Player::new("Bob".to_string(), 10));
    assert_eq!(room.can_proceed_to_next_stage(), ProceedType::Normal);
    room.stage = Stage::Showdown(false);
    assert_eq!(room.can_proceed_to_next_stage(), ProceedType::Normal);
    assert!(ProceedType::Normal.can_proceed());
    assert!(ProceedType::ShowdownWithDealing.can_proceed());
    assert!(ProceedType::ShowdownWithoutDealing.can_proceed());
    assert!(!ProceedType::NoAction.can_proceed());
}

#[test]
fn stages_and_positions_know_themselves() {
    assert!(Stage::Showdown(true).is_showdown());
    assert!(Stage::Showdown(false).is_showdown());
    assert!(!Stage::River.is_showdown());
    assert!(!Stage::NotEnoughPlayers.is_showdown());
    assert_eq!(Stage::default(), Stage::NotEnoughPlayers);
    assert!(Position::Dealer.is_dealer());
    assert!(Position::DealerAndSmallBlind.is_dealer());
    assert!(!Position::SmallBlind.is_dealer());
    assert!(!Position::BigBlind.is_dealer());
    assert!(!Position::Normal.is_dealer());
    assert!(Position::Normal < Position::BigBlind);
    assert!(Position::BigBlind < Position::SmallBlind);
    assert!(Position::SmallBlind < Position::DealerAndSmallBlind);
    assert!(Position::DealerAndSmallBlind < Position::Dealer);
}

#[test]
fn a_new_room_is_empty() {
    let room = Room::new_with_id(7);
    assert_eq!(room.id, 7);
    assert!(room.players.is_empty());
    assert!(room.player_joining_next_round.is_empty());
    assert!(room.community_cards.is_empty());
    assert!(room.pots.is_empty());
    assert_eq!(room.stage, Stage::NotEnoughPlayers);
    assert_eq!(room.player_in_turn, None);
    assert_eq!(room.deck.len(), 52);
    assert_eq!(room.max_bet(), 0);
    assert_eq!(room.player_count(), 0);
    assert!(!room.is_showdown());
    assert_ne!(Room::new().id, Room::default().id);
}

#[test]
fn a_new_room_has_a_random_id() {
    for _ in 0..50 {
        let room = Room::new();
        assert_eq!((room.id >> 76) & 0xf, 4);
        assert_eq!((room.id >> 62) & 0x3, 2);
        assert_eq!(Uuid::from_u128(room.id).get_version_num(), 4);
        assert!(room.players.is_empty());
        assert_eq!(room.stage, Stage::NotEnoughPlayers);
        assert_eq!(room.deck.len(), 52);
        let player = Player::new("A".to_string(), 1);
        assert_eq!((player.id >> 76) & 0xf, 4);
        assert_eq!((player.id >> 62) & 0x3, 2);
    }
}

#[test]
fn a_new_service_can_rank_hands() {
    let service = GameService::new();
    let eval = service
        .evaluator
        .evaluate(&cards("As Ks Qs Js Ts 2d 3c"))
        .expect("seven different cards");
    let low = holdem::evaluator::HandEvaluator::new()
        .evaluate(&cards("2s 3d 4c 5h 7s"))
        .expect("five different cards");
    assert!(eval.is_better_than(low));
    assert_eq!(low.to_string(), "High card, seven");
}

#[test]
fn the_sixth_player_is_refused() {
    let mut room = Room::new();
    for name in ["A", "B", "C", "D", "E"] {
        room.join_player(Player::new(name.to_string(), 100)).unwrap();
    }
    assert_eq!(room.player_count(), 5);
    assert_eq!(room.players.len(), 2);
    assert_eq!(room.player_joining_next_round.len(), 3);
    let before = room.clone();
    let refused = room.join_player(Player::new("F".to_string(), 100));
    assert_eq!(refused, Err(Error::RoomIsFull));
    assert_eq!(room.players, before.players);
    assert_eq!(room.player_joining_next_round, before.player_joining_next_round);
    assert_eq!(refused.unwrap_err().message(), "Room is full");
}

#[test]
fn joining_during_a_hand_waits_for_the_next() {
    let mut room = Room::new();
    room.join_player(Player::new("Alice".to_string(), 400)).unwrap();
    room.join_player(Player::new("Bob".to_string(), 400)).unwrap();
    let late = Player::new("Charlie".to_string(), 400);
    let late_id = late.id;
    let action = room.join_player(late).unwrap();
    assert_eq!(action, ServiceRequiredAction::NoAction);
    assert_eq!(room.players.len(), 2);
    assert_eq!(room.player_joining_next_round.len(), 1);
    assert_eq!(room.player_joining_next_round[0].id, late_id);
    assert!(room.player_joining_next_round[0].hand.is_none());
    assert_ne!(room.player_in_turn, Some(late_id));
}

#[test]
fn start_of_a_hand_deals_and_posts_blinds() {
    let mut room = Room::new();
    let action = room.join_player(Player::new("Alice".to_string(), 400)).unwrap();
    assert_eq!(action, ServiceRequiredAction::NoAction);
    assert_eq!(room.stage, Stage::NotEnoughPlayers);
    let action = room.join_player(Player::new("Bob".to_string(), 400)).unwrap();
    assert_eq!(action, ServiceRequiredAction::PlayerReceiveCards);
    assert_eq!(room.stage, Stage::PreFlop);
    assert_eq!(room.deck.len(), 48);
    let mut dealt = HashSet::new();
    for p in &room.players {
        let Hand(cards) = p.hand.expect("a hand");
        assert!(dealt.insert(cards[0]));
        assert!(dealt.insert(cards[1]));
    }
    assert_eq!(room.players[0].bet, 1);
    assert_eq!(room.players[0].chips, 399);
    assert_eq!(room.players[1].bet, 2);
    assert_eq!(room.players[1].chips, 398);
    assert_eq!(room.max_bet(), 2);
    assert_eq!(room.player_in_turn, Some(room.players[0].id));
}

#[test]
fn three_players_get_dealer_small_blind_big_blind() {
    let mut room = Room::new();
    for name in ["A", "B", "C"] {
        room.players.push(Player::new(name.to_string(), 100));
    }
    room.stage = Stage::PreFlop;
    room.start_game().unwrap();
    let positions: Vec<Position> = room.players.iter().map(|p| p.position).collect();
    assert_eq!(
        positions,
        vec![Position::Dealer, Position::SmallBlind, Position::BigBlind]
    );
    assert_eq!(room.player_in_turn, Some(room.players[0].id));
    room.start_game().unwrap();
    let positions: Vec<Position> = room.players.iter().map(|p| p.position).collect();
    assert_eq!(
        positions,
        vec![Position::BigBlind, Position::Dealer, Position::SmallBlind]
    );
    assert_eq!(room.player_in_turn, Some(room.players[1].id));
    let bets: Vec<u32> = room.players.iter().map(|p| p.bet).collect();
    assert_eq!(bets, vec![2, 0, 1]);
}

#[test]
fn a_big_blind_short_of_chips_stops_the_hand() {
    let mut room = Room::new();
    room.players.push(Player::new("Alice".to_string(), 100));
    room.players.push(Player::new("Bob".to_string(), 1));
    let before = room.clone();
    let refused = room.proceed().unwrap_err();
    assert_eq!(refused, Error::NotEnoughChips("Bob".to_string()));
    assert_eq!(refused.message(), "Bob does not have enough chips");
    assert_eq!(room.stage, Stage::NotEnoughPlayers);
    assert_eq!(room.players, before.players);
    assert_eq!(room.deck.bits(), before.deck.bits());
}

#[test]
fn refused_actions_leave_the_room_unchanged() {
    let mut room = Room::new();
    let alice = Player::new("Alice".to_string(), 400);
    let bob = Player::new("Bob".to_string(), 400);
    let (alice_id, bob_id) = (alice.id, bob.id);
    room.join_player(alice).unwrap();
    room.join_player(bob).unwrap();
    let before = room.clone();

    let e = room.take_action(bob_id, Action::Check).unwrap_err();
    assert_eq!(e, Error::NotPlayersTurn);
    assert_eq!(e.message(), "Not player's turn");
    let e = room.take_action(alice_id, Action::Check).unwrap_err();
    assert_eq!(e, Error::MustCallOrRaise);
    assert_eq!(e.message(), "Player must call or raise");
    let e = room.take_action(alice_id, Action::Raise(0)).unwrap_err();
    assert_eq!(e, Error::InvalidRaiseAmount);
    assert_eq!(e.message(), "Invalid raise amount");
    let e = room.take_action(alice_id, Action::Raise(400)).unwrap_err();
    assert_eq!(e, Error::NotEnoughChips("Alice".to_string()));
    let e = room.take_action(77, Action::Fold).unwrap_err();
    assert_eq!(e, Error::NotPlayersTurn);

    assert_eq!(room.players, before.players);
    assert_eq!(room.pots, before.pots);
    assert_eq!(room.stage, before.stage);
    assert_eq!(room.player_in_turn, before.player_in_turn);
    assert_eq!(room.deck.bits(), before.deck.bits());
    assert_eq!(room.players[0].last_action, None);
}

#[test]
fn a_player_in_turn_who_is_not_seated_is_not_found() {
    let mut room = Room::new();
    room.join_player(Player::new("Alice".to_string(), 400)).unwrap();
    room.join_player(Player::new("Bob".to_string(), 400)).unwrap();
    room.player_in_turn = Some(99);
    assert_eq!(room.take_action(99, Action::Fold), Err(Error::PlayerNotFound));
    assert_eq!(room.proceed(), Err(Error::PlayerNotFound));
    room.player_in_turn = None;
    assert_eq!(room.proceed(), Err(Error::PlayerNotFound));
}

#[test]
fn chips_are_conserved_through_a_hand() {
    let mut room = Room::new();
    let names = ["A", "B", "C", "D"];
    let stacks = [500u32, 1000, 1500, 2000];
    for (name, chips) in names.iter().zip(stacks) {
        room.players.push(Player::new(name.to_string(), chips));
    }
    let total = |room: &Room| -> u64 {
        room.players
            .iter()
            .map(|p| (p.chips + p.bet) as u64)
            .sum::<u64>()
            + room.pots.iter().map(|p| p.amount as u64).sum::<u64>()
    };
    room.proceed().unwrap();
    assert_eq!(total(&room), 5000);
    let mut steps = 0;
    while !room.stage.is_showdown() {
        let id = room.player_in_turn.expect("someone in turn");
        let seat = room.players.iter().find(|p| p.id == id).expect("seated");
        assert!(!seat.has_folded);
        assert!(seat.chips > 0);
        let action = match steps % 5 {
            0 => Action::Raise(room.max_bet() + 7),
            4 => Action::AllIn,
            _ => Action::Call,
        };
        if room.take_action(id, action).is_err() {
            room.take_action(id, Action::AllIn).unwrap();
        }
        assert_eq!(total(&room), 5000);
        let expected_board = match room.stage {
            Stage::PreFlop => Some(0),
            Stage::Flop => Some(3),
            Stage::Turn => Some(4),
            Stage::River => Some(5),
            Stage::Showdown(true) => Some(5),
            _ => None,
        };
        if let Some(n) = expected_board {
            assert_eq!(room.community_cards.len(), n);
        }
        for pair in room.pots.windows(2) {
            assert!(pair[1].players.is_subset(&pair[0].players));
            assert_ne!(pair[1].players, pair[0].players);
        }
        let dealers = room.players.iter().filter(|p| p.position.is_dealer()).count();
        assert_eq!(dealers, 1);
        steps += 1;
        assert!(steps < 100);
    }
    assert_eq!(room.player_in_turn, None);
}

#[test]
fn leaving_marks_the_player_and_returns_chips() {
    let mut room = Room::new();
    let alice = Player::new("Alice".to_string(), 400);
    let bob = Player::new("Bob".to_string(), 300);
    let (alice_id, bob_id) = (alice.id, bob.id);
    room.join_player(alice).unwrap();
    room.join_player(bob).unwrap();
    assert_eq!(room.leave_player(12345), 0);
    assert_eq!(room.stage, Stage::PreFlop);
    let chips = room.leave_player(bob_id);
    assert_eq!(chips, 298);
    assert_eq!(room.stage, Stage::PreFlop);
    assert!(room.players[1].has_folded);
    assert!(!room.players[1].is_connected);
    assert_eq!(room.player_count(), 1);
    let again = room.leave_player(bob_id);
    assert_eq!(again, 298);
    let chips = room.leave_player(alice_id);
    assert_eq!(chips, 399);
    assert_eq!(room.stage, Stage::NotEnoughPlayers);
    assert!(room.players.is_empty());
    assert!(room.pots.is_empty());
    assert_eq!(room.player_in_turn, None);
    assert_eq!(room.deck.len(), 52);
}

#[test]
fn leaving_twice_is_leaving_once() {
    let mut once = Room::new();
    let alice = Player::new("Alice".to_string(), 400);
    let bob = Player::new("Bob".to_string(), 300);
    let carol = Player::new("Carol".to_string(), 300);
    let bob_id = bob.id;
    let alice_id = alice.id;
    once.join_player(alice).unwrap();
    once.join_player(bob).unwrap();
    once.join_player(carol).unwrap();
    let mut twice = once.clone();
    once.leave_player(bob_id);
    twice.leave_player(bob_id);
    twice.leave_player(bob_id);
    assert_eq!(once.players, twice.players);
    assert_eq!(once.player_joining_next_round, twice.player_joining_next_round);
    assert_eq!(once.stage, twice.stage);
    assert_eq!(once.pots, twice.pots);
    assert_eq!(once.player_in_turn, twice.player_in_turn);
    assert_eq!(once.deck.bits(), twice.deck.bits());

    once.leave_player(alice_id);
    twice.leave_player(alice_id);
    twice.leave_player(alice_id);
    assert_eq!(once.stage, Stage::NotEnoughPlayers);
    assert!(once.players.is_empty());
    assert_eq!(once.player_joining_next_round.len(), 1);
    assert_eq!(once.player_joining_next_round[0].name, "Carol");
    assert_eq!(once.players, twice.players);
    assert_eq!(once.player_joining_next_round, twice.player_joining_next_round);
    assert_eq!(once.stage, twice.stage);
    assert_eq!(once.deck.bits(), twice.deck.bits());
}

#[test]
fn leaving_in_turn_passes_the_turn_on() {
    let mut room = Room::new();
    room.players = vec![
        seated(1, "Ann", 100, 0, Position::Normal),
        seated(2, "Ben", 100, 0, Position::Normal),
        seated(3, "Cat", 100, 0, Position::Normal),
    ];
    assert_eq!(room.proceed().unwrap(), ServiceRequiredAction::PlayerReceiveCards);
    assert_eq!(room.stage, Stage::PreFlop);
    let first = room.player_in_turn.expect("somebody is in turn");
    let seat = room.players.iter().position(|p| p.id == first).unwrap();
    let next = room.players[(seat + 1) % 3].id;
    let before: u32 = room.players.iter().map(|p| p.chips + p.bet).sum();
    let mut twice = room.clone();

    let (chips, asked) = room.leave_and_step(first);
    assert_eq!(asked, ServiceRequiredAction::NoAction);
    assert_eq!(chips, room.players[seat].chips);
    assert_eq!(room.stage, Stage::PreFlop);
    assert_eq!(room.player_in_turn, Some(next));
    assert!(room.players[seat].has_folded);
    assert!(!room.players[seat].is_connected);
    let after: u32 = room.players.iter().map(|p| p.chips + p.bet).sum();
    assert_eq!(before, after);
    // the room goes on: the next player can act
    room.take_action(next, Action::Call).unwrap();

    twice.leave_player(first);
    twice.leave_player(first);
    assert_eq!(twice.player_in_turn, Some(next));
    assert_eq!(twice.stage, Stage::PreFlop);
}

#[test]
fn leaving_in_turn_heads_up_ends_the_hand() {
    let mut room = Room::new();
    let alice = Player::new("Alice".to_string(), 400);
    let bob = Player::new("Bob".to_string(), 300);
    let (alice_id, bob_id) = (alice.id, bob.id);
    room.join_player(alice).unwrap();
    room.join_player(bob).unwrap();
    assert_eq!(room.player_in_turn, Some(alice_id));
    let (chips, asked) = room.leave_and_step(alice_id);
    assert_eq!(chips, 399);
    assert_eq!(asked, ServiceRequiredAction::FindWinners);
    assert_eq!(room.stage, Stage::Showdown(false));
    assert_eq!(room.player_in_turn, None);
    assert!(room.community_cards.is_empty());
    let pots: u32 = room.pots.iter().map(|p| p.amount).sum();
    assert_eq!(pots, 3);
    assert!(room.players.iter().all(|p| p.bet == 0));
    // a second leave changes nothing
    let copy = room.clone();
    assert_eq!(room.leave_and_step(alice_id).1, ServiceRequiredAction::NoAction);
    assert_eq!(room.players, copy.players);
    assert_eq!(room.stage, copy.stage);
    assert_eq!(room.pots, copy.pots);
    let sole = GameService::new().find_winners(&room).unwrap();
    assert_eq!(sole.winners, vec![(3, HashSet::from([bob_id]))]);
}

#[test]
fn the_last_to_leave_calls_the_hand_off() {
    let mut room = Room::new();
    let alice = Player::new("Alice".to_string(), 400);
    let bob = Player::new("Bob".to_string(), 300);
    let (alice_id, bob_id) = (alice.id, bob.id);
    room.join_player(alice).unwrap();
    room.join_player(bob).unwrap();
    // the hand is at its flop, with a pot and a board
    room.take_action(alice_id, Action::Call).unwrap();
    room.take_action(bob_id, Action::Check).unwrap();
    assert_eq!(room.stage, Stage::Flop);
    assert_eq!(room.pots.len(), 1);
    assert_eq!(room.community_cards.len(), 3);
    room.join_player(Player::new("Carol".to_string(), 50)).unwrap();
    room.join_player(Player::new("Dave".to_string(), 60)).unwrap();
    let gone = Player::new("Gone".to_string(), 70);
    let gone_id = gone.id;
    room.join_player(gone).unwrap();
    assert_eq!(room.leave_player(gone_id), 70);
    assert_eq!(room.player_joining_next_round.len(), 3);

    let in_turn = room.player_in_turn.unwrap();
    let other = if in_turn == alice_id { bob_id } else { alice_id };
    let stack = |id: u128| if id == alice_id { 398 } else { 298 };
    assert_eq!(
        room.leave_and_step(other),
        (stack(other), ServiceRequiredAction::NoAction)
    );
    assert_eq!(room.stage, Stage::Flop);
    assert_eq!(
        room.leave_and_step(in_turn),
        (stack(in_turn), ServiceRequiredAction::NoAction)
    );

    // the room waits for players, and those who wait are not seated yet
    assert_eq!(room.stage, Stage::NotEnoughPlayers);
    assert_eq!(room.player_in_turn, None);
    assert!(room.pots.is_empty());
    assert!(room.community_cards.is_empty());
    assert_eq!(room.deck.len(), 52);
    assert!(room.players.is_empty());
    assert_eq!(room.player_joining_next_round.len(), 2);
    assert_eq!(room.player_joining_next_round[0].name, "Carol");
    assert_eq!(room.player_joining_next_round[1].name, "Dave");
    assert_eq!(room.player_count(), 2);

    // a second leave changes nothing
    let copy = room.clone();
    assert_eq!(room.leave_and_step(in_turn), (0, ServiceRequiredAction::NoAction));
    assert_eq!(room.players, copy.players);
    assert_eq!(room.player_joining_next_round, copy.player_joining_next_round);
    assert_eq!(room.stage, copy.stage);
    assert_eq!(room.deck.bits(), copy.deck.bits());

    // the next hand starts once two have sat down, with all who waited
    room.join_player(Player::new("Erin".to_string(), 70)).unwrap();
    assert_eq!(room.stage, Stage::NotEnoughPlayers);
    assert_eq!(room.players.len(), 1);
    assert_eq!(
        room.join_player(Player::new("Finn".to_string(), 80)).unwrap(),
        ServiceRequiredAction::PlayerReceiveCards
    );
    assert_eq!(room.stage, Stage::PreFlop);
    assert_eq!(room.players.len(), 4);
    assert_eq!(room.players.iter().filter(|p| p.position.is_dealer()).count(), 1);
    assert!(room.player_joining_next_round.is_empty());
}

#[test]
fn a_hand_that_cannot_go_on_after_a_leave_is_called_off() {
    let mut room = Room::new();
    room.players = vec![
        seated(1, "Ann", 10, 0, Position::DealerAndSmallBlind),
        seated(2, "Ben", 10, 0, Position::BigBlind),
    ];
    room.stage = Stage::PreFlop;
    room.player_in_turn = Some(1);
    // nothing was bet and there is no pot: the round cannot be ended
    assert_eq!(room.leave_and_step(1), (10, ServiceRequiredAction::NoAction));
    assert_eq!(room.stage, Stage::NotEnoughPlayers);
    assert!(room.players.is_empty());
    assert_eq!(room.player_joining_next_round.len(), 1);
    assert_eq!(room.player_joining_next_round[0].id, 2);
    assert_eq!(room.player_joining_next_round[0].chips, 10);
    assert_eq!(room.player_in_turn, None);
    assert!(room.pots.is_empty());
    assert_eq!(room.deck.len(), 52);
}

#[test]
fn split_pot_gives_the_odd_chip_to_the_closest_to_the_dealer() {
    let mut room = Room::new();
    room.players = vec![
        seated(1, "Ann", 10, 0, Position::Dealer),
        seated(2, "Ben", 10, 0, Position::SmallBlind),
        seated(3, "Cat", 10, 0, Position::BigBlind),
    ];
    room.stage = Stage::Showdown(true);
    let outs = room
        .split_pot(vec![(7, HashSet::from([1, 3]))])
        .unwrap();
    assert_eq!(outs.len(), 1);
    assert_eq!(outs[0].len(), 2);
    assert_eq!((outs[0][0].player, outs[0][0].amount), (1, 3));
    assert_eq!((outs[0][1].player, outs[0][1].amount), (3, 4));
    assert_eq!(room.players[0].chips, 13);
    assert_eq!(room.players[1].chips, 10);
    assert_eq!(room.players[2].chips, 14);

    let outs = room
        .split_pot(vec![(7, HashSet::from([1, 2])), (9, HashSet::from([2]))])
        .unwrap();
    assert_eq!((outs[0][0].player, outs[0][0].amount), (1, 3));
    assert_eq!((outs[0][1].player, outs[0][1].amount), (2, 4));
    assert_eq!((outs[1][0].player, outs[1][0].amount), (2, 9));
    assert_eq!(room.players[0].chips, 16);
    assert_eq!(room.players[1].chips, 23);
}

#[test]
fn split_pot_refusals_leave_the_chips() {
    let mut room = Room::new();
    room.players = vec![
        seated(1, "Ann", 10, 0, Position::Normal),
        seated(2, "Ben", u32::MAX - 2, 0, Position::Normal),
    ];
    let e = room.split_pot(vec![(4, HashSet::from([1]))]).unwrap_err();
    assert_eq!(e, Error::DealerNotFound);
    assert_eq!(e.message(), "Dealer not found");
    room.players[0].position = Position::Dealer;
    let e = room.split_pot(vec![(4, HashSet::new())]).unwrap_err();
    assert_eq!(e, Error::NoWinners);
    let e = room.split_pot(vec![(4, HashSet::from([9]))]).unwrap_err();
    assert_eq!(e, Error::NoPlayersFound);
    assert_eq!(e.message(), "No players found");
    let e = room
        .split_pot(vec![(4, HashSet::from([1])), (6, HashSet::from([1, 2]))])
        .unwrap_err();
    assert_eq!(e, Error::AmountOverflow);
    assert_eq!(room.players[0].chips, 10);
    assert_eq!(room.players[1].chips, u32::MAX - 2);
    assert_eq!(room.closest_to_dealer(&HashSet::from([2])), Ok(2));
    assert_eq!(room.closest_to_dealer(&HashSet::from([1])), Ok(1));
}

#[test]
fn dealing_at_a_wrong_stage_or_from_a_short_deck_is_refused() {
    let mut room = Room::new();
    assert_eq!(
        room.deal_community_card(Stage::PreFlop),
        Err(Error::InvalidStageToDeal)
    );
    assert_eq!(
        room.deal_community_card(Stage::Showdown(true)),
        Err(Error::InvalidStageToDeal)
    );
    assert_eq!(
        Error::InvalidStageToDeal.message(),
        "Invalid stage to deal community card"
    );
    while room.deck.len() > 3 {
        room.deck.draw().unwrap();
    }
    assert_eq!(room.deal_community_card(Stage::Flop), Err(Error::EmptyDeck));
    assert_eq!(room.deck.len(), 3);
    assert!(room.community_cards.is_empty());
    room.deal_community_card(Stage::Turn).unwrap();
    assert_eq!(room.deck.len(), 1);
    assert_eq!(room.community_cards.len(), 1);
}

#[test]
fn players_cards_lists_those_in_the_hand() {
    let mut room = Room::new();
    room.players = vec![
        seated(1, "Ann", 10, 0, Position::Dealer),
        seated(2, "Ben", 10, 0, Position::SmallBlind),
        seated(3, "Cat", 10, 0, Position::BigBlind),
    ];
    room.players[1].has_folded = true;
    room.players[2].hand = None;
    room.community_cards = cards("6s 7s 8s");
    let lists = room.players_cards();
    assert_eq!(lists.len(), 2);
    assert_eq!(lists[0].0, 1);
    assert_eq!(lists[0].1, cards("3s 2s 6s 7s 8s"));
    assert_eq!(lists[1].0, 3);
    assert_eq!(lists[1].1, cards("6s 7s 8s"));
}

#[test]
fn a_showdown_with_a_wrong_board_is_refused() {
    let mut room = two_player_room((500, true, false), (1000, true, false), "Alice");
    room.community_cards = cards("6s 7s");
    let before = room.clone();
    assert_eq!(room.proceed(), Err(Error::InvalidCommunityCards));
    assert_eq!(room.stage, before.stage);
    assert_eq!(room.pots, before.pots);
    assert_eq!(room.players, before.players);
    assert_eq!(
        Error::InvalidCommunityCards.message(),
        "Invalid number of community cards"
    );
}

#[test]
fn the_end_of_a_round_without_bets_and_pots_is_refused() {
    let mut room = two_player_room((0, true, false), (0, true, false), "Alice");
    room.pots = vec![];
    assert_eq!(room.proceed(), Err(Error::NoPots));
    assert_eq!(Error::NoPots.message(), "No pots");
    assert_eq!(room.stage, Stage::PreFlop);
}

#[test]
fn a_hand_cannot_start_without_players_or_blinds_or_actors() {
    let mut room = Room::new();
    room.stage = Stage::PreFlop;
    assert_eq!(room.start_game(), Err(Error::NoPlayers));
    room.players.push(Player::new("Alice".to_string(), 10));
    assert_eq!(room.start_game(), Err(Error::BigBlindNotFound));
    assert_eq!(room.players[0].position, Position::Normal);
    assert!(room.players[0].hand.is_none());
    room.players.push(Player::new("Bob".to_string(), 2));
    room.players[0].chips = 1;
    assert_eq!(room.start_game(), Err(Error::NoPlayersToAct));
    assert_eq!(room.players[0].chips, 1);
    assert_eq!(room.players[1].chips, 2);
    for i in 0..25 {
        room.players.push(Player::new(format!("N{i}"), 10));
    }
    assert_eq!(room.players.len(), 27);
    assert_eq!(room.start_game(), Err(Error::EmptyDeck));
}

#[test]
fn a_street_needs_a_dealer() {
    let mut room = two_player_room((10, true, false), (10, true, false), "Bob");
    room.players[0].position = Position::Normal;
    assert_eq!(room.proceed(), Err(Error::DealerNotFound));
    assert_eq!(room.stage, Stage::PreFlop);
    assert_eq!(room.players[0].bet, 10);
    assert_eq!(room.community_cards.len(), 0);
}

#[test]
fn raising_over_the_range_of_the_chips_is_refused() {
    let mut room = two_player_room((10, true, false), (10, true, false), "Alice");
    room.players[0].chips = u32::MAX;
    room.players[0].bet = 10;
    assert_eq!(
        room.take_action(1, Action::Raise(u32::MAX)),
        Err(Error::AmountOverflow)
    );
    assert_eq!(room.players[0].chips, u32::MAX);
    assert_eq!(room.players[0].bet, 10);
}

#[test]
fn nobody_left_in_the_hand_ends_it_without_dealing() {
    let mut room = two_player_room((1, false, false), (2, false, false), "Alice");
    room.leave_player(2);
    assert_eq!(room.stage, Stage::PreFlop);
    let action = room.take_action(1, Action::Fold).unwrap();
    assert_eq!(action, ServiceRequiredAction::FindWinners);
    assert_eq!(room.stage, Stage::Showdown(false));
    let service = GameService::new();
    let result = service.find_winners(&room).unwrap();
    assert_eq!(result.winners, vec![(3, HashSet::from([1]))]);
}

#[test]
fn side_pots_are_nested() {
    let mut room = Room::new();
    let alice = Player::new("Alice".to_string(), 500);
    let bob = Player::new("Bob".to_string(), 1000);
    let charlie = Player::new("Charlie".to_string(), 1500);
    let david = Player::new("David".to_string(), 2000);
    let (alice_id, bob_id, charlie_id, david_id) = (alice.id, bob.id, charlie.id, david.id);
    room.players.push(alice);
    room.players.push(bob);
    room.players.push(charlie);
    room.players.push(david);
    room.proceed().unwrap();
    let nested = |room: &Room| {
        room.pots
            .windows(2)
            .all(|w| w[1].players.is_subset(&w[0].players) && w[1].players != w[0].players)
    };
    room.take_action(david_id, Action::Raise(500)).unwrap();
    room.take_action(alice_id, Action::Call).unwrap();
    room.take_action(bob_id, Action::Call).unwrap();
    room.take_action(charlie_id, Action::Call).unwrap();
    assert_eq!(room.pots.len(), 1);
    assert!(nested(&room));
    room.take_action(bob_id, Action::Raise(500)).unwrap();
    room.take_action(charlie_id, Action::Call).unwrap();
    room.take_action(david_id, Action::Call).unwrap();
    assert_eq!(room.pots.len(), 2);
    assert!(nested(&room));
    room.take_action(charlie_id, Action::Raise(500)).unwrap();
    room.take_action(david_id, Action::Call).unwrap();
    assert_eq!(room.pots.len(), 3);
    assert!(nested(&room));
    let total: u32 = room.pots.iter().map(|p| p.amount).sum();
    assert_eq!(total, 4500);
}
