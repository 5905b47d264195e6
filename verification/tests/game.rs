use std::collections::HashSet;
use std::str::FromStr;

use holdem::card::Card;
use holdem::deck::Deck;
use holdem::domain::Action;
use holdem::domain::ServiceRequiredAction;
use holdem::domain::User;
use holdem::error::Error;
use holdem::game::Effect;
use holdem::game::GameService;
use holdem::player::Hand;
use holdem::player::Player;
use holdem::player::Position;
use holdem::pot::Pot;
use holdem::room::Room;
use holdem::rules::Stage;
use holdem::state::HandState;
use socketioxide::socket::Sid;
use uuid::Uuid;

fn card_of(text: &str) -> Card {
    Card::parse(text).expect("a card")
}

fn cards_of(text: &str) -> Vec<Card> {
    text.split(' ').map(card_of).collect()
}

fn user(id: u128, name: &str, balance: i64) -> User {
    User {
        id: Uuid::from_u128(id).as_u128(),
        name: name.to_string(),
        balance,
        current_room: None,
    }
}

fn seat<'a>(room: &'a Room, id: u128) -> &'a Player {
    room.players.iter().find(|p| p.id == id).expect("seated")
}

#[test]
fn game_test_whole_game_flow() {
    // setup
    let service = GameService::new();
    let alice = user(1, "Alice", 1000);
    let bob = user(2, "Bob", 1000);

    // create room
    let mut room = Room::new();
    assert_eq!(room.stage, Stage::NotEnoughPlayers);

    // join players
    service
        .join_player(&mut room, &alice, 500, Sid::default())
        .unwrap();
    assert_eq!(room.stage, Stage::NotEnoughPlayers);
    service
        .join_player(&mut room, &bob, 500, Sid::default())
        .unwrap();

    assert_eq!(room.stage, Stage::PreFlop);
    assert_eq!(room.player_in_turn, Some(alice.id));
    assert_eq!(room.community_cards.len(), 0);
    let dealer_count = room
        .players
        .iter()
        .filter(|p| p.position == Position::DealerAndSmallBlind)
        .count();
    let big_blind_count = room
        .players
        .iter()
        .filter(|p| p.position == Position::BigBlind)
        .count();
    assert_eq!(dealer_count, 1);
    assert_eq!(big_blind_count, 1);
    assert_eq!(room.player_in_turn, Some(alice.id));
    let big_blind = room
        .players
        .iter()
        .find(|p| p.position == Position::BigBlind)
        .expect("Big blind not found");
    assert_eq!(big_blind.id, bob.id);
    assert_eq!(big_blind.bet, 2);

    let dealer_and_small_blind = room
        .players
        .iter()
        .find(|p| p.position == Position::DealerAndSmallBlind)
        .expect("Dealer and small blind not found");
    assert_eq!(dealer_and_small_blind.id, alice.id);
    assert_eq!(dealer_and_small_blind.bet, 1);

    // bob takes action, but not bob's turn
    let bob_action_result = service.take_action(&mut room, bob.id, Action::Check);
    assert_eq!(
        bob_action_result.unwrap_err().message(),
        "Not player's turn".to_string()
    );

    // alice takes invalid actions
    let error_message = service
        .take_action(&mut room, alice.id, Action::Check)
        .unwrap_err()
        .message();
    assert_eq!(error_message, "Player must call or raise".to_string());

    // alice takes valid action
    service.take_action(&mut room, alice.id, Action::Call).unwrap();
    assert_eq!(room.player_in_turn, Some(bob.id));
    // bob checks
    service.take_action(&mut room, bob.id, Action::Check).unwrap();

    // flop
    assert_eq!(room.stage, Stage::Flop);
    assert_eq!(room.community_cards.len(), 3);
    assert!(!seat(&room, alice.id).has_taken_turn);
    assert!(!seat(&room, bob.id).has_taken_turn);
    assert_eq!(room.player_in_turn, Some(bob.id));
    service.take_action(&mut room, bob.id, Action::Check).unwrap();
    assert!(seat(&room, bob.id).has_taken_turn);
    assert!(!seat(&room, alice.id).has_taken_turn);
    assert_eq!(room.player_in_turn, Some(alice.id));
    service
        .take_action(&mut room, alice.id, Action::Raise(10))
        .unwrap();
    assert_eq!(room.stage, Stage::Flop);
    assert_eq!(room.player_in_turn, Some(bob.id));
    // bob takes invalid action by raising insufficient amount
    let error_message = service
        .take_action(&mut room, bob.id, Action::Raise(1))
        .unwrap_err()
        .message();
    assert_eq!(error_message, "Invalid raise amount".to_string());

    // bob calls
    service.take_action(&mut room, bob.id, Action::Call).unwrap();

    // turn
    assert_eq!(room.stage, Stage::Turn);
    assert_eq!(room.community_cards.len(), 4);
    assert!(!seat(&room, alice.id).has_taken_turn);
    assert!(!seat(&room, bob.id).has_taken_turn);
    assert_eq!(room.player_in_turn, Some(bob.id));

    service.take_action(&mut room, bob.id, Action::Check).unwrap();
    service.take_action(&mut room, alice.id, Action::Check).unwrap();

    // river
    assert_eq!(room.stage, Stage::River);
    assert_eq!(room.community_cards.len(), 5);
    assert!(!seat(&room, alice.id).has_taken_turn);
    assert!(!seat(&room, bob.id).has_taken_turn);
    assert_eq!(room.player_in_turn, Some(bob.id));

    service.take_action(&mut room, bob.id, Action::Check).unwrap();
    let effects = service
        .take_action(&mut room, alice.id, Action::Check)
        .unwrap();

    // game restarts to preFlop
    assert_eq!(room.stage, Stage::PreFlop);
    let new_dealer = room
        .players
        .iter()
        .find(|p| p.position == Position::DealerAndSmallBlind)
        .expect("Dealer and small blind not found");
    let new_big_blind = room
        .players
        .iter()
        .find(|p| p.position == Position::BigBlind)
        .expect("Big blind not found");
    assert_eq!(new_dealer.name, "Bob".to_string());
    assert_eq!(new_big_blind.name, "Alice".to_string());
    assert_eq!(new_dealer.bet, 1);
    assert_eq!(new_big_blind.bet, 2);
    assert_eq!(room.community_cards.len(), 0);
    assert!(!new_dealer.has_taken_turn);
    assert!(!new_big_blind.has_taken_turn);
    assert_eq!(room.player_in_turn, Some(new_dealer.id));
    assert_eq!(room.pots, vec![]);
    let chips: u32 = room.players.iter().map(|p| p.chips + p.bet).sum();
    assert_eq!(chips, 1000);

    // what the showdown published
    assert!(matches!(&effects[0], Effect::EmitRoom(s)
        if s.stage == Stage::Showdown(true)
            && s.community_cards.len() == 5
            && s.pots == vec![24]
            && s.players.iter().all(|p| matches!(p.hand, HandState::Revealed(_)) && p.eval.is_some())));
    assert!(matches!(effects[1], Effect::Sleep(5)));
    assert!(matches!(&effects[2], Effect::EmitOutcome(w)
        if w.iter().map(|x| x.amount).sum::<u32>() == 24));
    assert!(matches!(effects[3], Effect::Sleep(3)));
    assert!(matches!(&effects[4], Effect::EmitOutcome(w) if w.is_empty()));
    assert!(matches!(&effects[5], Effect::EmitRoom(s)
        if s.stage == Stage::PreFlop
            && s.players.iter().all(|p| matches!(p.hand, HandState::Hidden) && p.eval.is_none())));
    assert!(matches!(&effects[6], Effect::EmitHand { .. }));
    assert!(matches!(&effects[7], Effect::EmitHand { .. }));
    assert_eq!(effects.len(), 8);
}

#[test]
fn game_test_fold_and_raise() {
    // setup
    let service = GameService::new();
    let alice = user(1, "Alice", 1000);
    let bob = user(2, "Bob", 1000);

    // create room
    let mut room = Room::new();
    assert_eq!(room.stage, Stage::NotEnoughPlayers);

    // join players
    service
        .join_player(&mut room, &alice, 500, Sid::default())
        .unwrap();
    assert_eq!(room.stage, Stage::NotEnoughPlayers);
    service
        .join_player(&mut room, &bob, 500, Sid::default())
        .unwrap();
    assert_eq!(room.stage, Stage::PreFlop);

    // alice takes action
    service
        .take_action(&mut room, alice.id, Action::Raise(10))
        .unwrap();
    service
        .take_action(&mut room, bob.id, Action::Raise(20))
        .unwrap();
    let effects = service.take_action(&mut room, alice.id, Action::Fold).unwrap();
    assert_eq!(room.stage, Stage::PreFlop);
    let bob = seat(&room, bob.id);
    let alice = seat(&room, alice.id);
    assert_eq!(bob.chips + bob.bet, 511);
    assert_eq!(alice.chips + alice.bet, 489);

    assert!(matches!(&effects[0], Effect::EmitRoom(s)
        if s.stage == Stage::Showdown(false) && s.pots == vec![22, 11]
            && s.players.iter().all(|p| p.eval.is_none())));
    assert!(matches!(&effects[2], Effect::EmitOutcome(w)
        if w.len() == 1 && w[0].player == bob.id && w[0].amount == 33));
}

#[test]
fn game_test_all_best_hands() {
    let service = GameService::new();
    let hands = vec![
        (
            Uuid::from_u128(1).as_u128(),
            service
                .evaluator
                .evaluate(&cards_of("Ks Js Ts Qs As"))
                .unwrap(),
        ),
        (
            Uuid::from_u128(2).as_u128(),
            service
                .evaluator
                .evaluate(&cards_of("Kh Jh Th Qh Ah"))
                .unwrap(),
        ),
        (
            Uuid::from_u128(3).as_u128(),
            service
                .evaluator
                .evaluate(&cards_of("Ks Kd Kc Qs Qd"))
                .unwrap(),
        ),
    ];
    let best_hands = GameService::all_best_hands(&hands);
    assert_eq!(best_hands.len(), 2);
    assert!(best_hands.contains(&Uuid::from_u128(1).as_u128()));
    assert!(best_hands.contains(&Uuid::from_u128(2).as_u128()));
}

#[test]
fn game_test_skip_player_with_zero_chips() {
    // setup
    let service = GameService::new();
    let alice = user(1, "Alice", 1000);
    let bob = user(2, "Bob", 1000);

    // create room
    let mut room = Room::new();
    assert_eq!(room.stage, Stage::NotEnoughPlayers);

    // join players
    service
        .join_player(&mut room, &alice, 500, Sid::default())
        .unwrap();
    assert_eq!(room.stage, Stage::NotEnoughPlayers);
    service
        .join_player(&mut room, &bob, 1000, Sid::default())
        .unwrap();
    assert_eq!(room.stage, Stage::PreFlop);

    // assert initial bets
    assert_eq!(seat(&room, alice.id).bet, 1);
    assert_eq!(seat(&room, bob.id).bet, 2);
    assert_eq!(seat(&room, alice.id).chips, 499);
    assert_eq!(seat(&room, bob.id).chips, 998);

    assert!(!seat(&room, alice.id).has_taken_turn);
    assert!(!seat(&room, bob.id).has_taken_turn);

    // alice takes action
    service
        .take_action(&mut room, alice.id, Action::AllIn)
        .unwrap();
    assert_eq!(room.player_in_turn, Some(bob.id));
    assert_eq!(seat(&room, alice.id).chips, 0);
    assert_eq!(room.stage, Stage::PreFlop);
    service.take_action(&mut room, bob.id, Action::Call).unwrap();
    let bob = seat(&room, bob.id);
    if bob.chips == 1500 {
        // bob won, alice loss
        assert_eq!(room.stage, Stage::NotEnoughPlayers);
    } else {
        // bob loss, alice won
        assert_eq!(room.stage, Stage::PreFlop);
        assert_eq!(room.player_in_turn, Some(bob.id));
    }
}

#[test]
fn game_test_proceed_when_alice_reraise_bob() {
    // setup
    let service = GameService::new();
    let alice = user(1, "Alice", 1000);
    let bob = user(2, "Bob", 1000);

    // create room
    let mut room = Room::new();
    assert_eq!(room.stage, Stage::NotEnoughPlayers);

    // join players
    service
        .join_player(&mut room, &alice, 500, Sid::default())
        .unwrap();
    assert_eq!(room.stage, Stage::NotEnoughPlayers);
    service
        .join_player(&mut room, &bob, 1000, Sid::default())
        .unwrap();
    assert_eq!(room.stage, Stage::PreFlop);

    // assert initial bets
    assert_eq!(seat(&room, alice.id).bet, 1);
    assert_eq!(seat(&room, bob.id).bet, 2);
    assert_eq!(seat(&room, alice.id).chips, 499);

    // alice takes action
    service
        .take_action(&mut room, alice.id, Action::Raise(10))
        .unwrap();
    assert_eq!(room.player_in_turn, Some(bob.id));
    service
        .take_action(&mut room, bob.id, Action::Raise(20))
        .unwrap();
    assert_eq!(room.player_in_turn, Some(alice.id));
    service
        .take_action(&mut room, alice.id, Action::AllIn)
        .unwrap();
    assert_eq!(room.player_in_turn, Some(bob.id));
    assert_eq!(seat(&room, alice.id).chips, 0);
    assert_eq!(room.stage, Stage::PreFlop);
    service.take_action(&mut room, bob.id, Action::Call).unwrap();
    let bob = seat(&room, bob.id);
    if bob.chips == 1500 {
        // bob won, alice loss
        assert_eq!(room.stage, Stage::NotEnoughPlayers);
    } else {
        // bob loss, alice won
        assert_eq!(room.stage, Stage::PreFlop);
        assert_eq!(room.player_in_turn, Some(bob.id));
    }
}

#[test]
fn game_test_bob_all_in_during_flop() {
    // setup
    let service = GameService::new();
    let alice = user(1, "Alice", 1000);
    let bob = user(2, "Bob", 1000);

    // create room
    let mut room = Room::new();
    assert_eq!(room.stage, Stage::NotEnoughPlayers);

    // join players
    service
        .join_player(&mut room, &alice, 500, Sid::default())
        .unwrap();
    assert_eq!(room.stage, Stage::NotEnoughPlayers);
    service
        .join_player(&mut room, &bob, 1000, Sid::default())
        .unwrap();
    assert_eq!(room.stage, Stage::PreFlop);

    // alice takes action
    service.take_action(&mut room, alice.id, Action::Call).unwrap();
    assert_eq!(room.player_in_turn, Some(bob.id));
    service.take_action(&mut room, bob.id, Action::AllIn).unwrap();
    assert_eq!(room.player_in_turn, Some(alice.id));
    let error_message = service
        .take_action(&mut room, alice.id, Action::Call)
        .unwrap_err()
        .message();
    assert_eq!(
        error_message,
        "Alice does not have enough chips".to_string()
    );
    service
        .take_action(&mut room, alice.id, Action::AllIn)
        .unwrap();
    if room.players.iter().any(|p| p.chips == 1500) {
        // someone won
        assert_eq!(room.players.len(), 1);
        assert_eq!(room.stage, Stage::NotEnoughPlayers);
    } else {
        // draw
        assert_eq!(room.stage, Stage::PreFlop);
        assert_eq!(room.player_in_turn, Some(bob.id));
    }
}

#[test]
fn game_test_3_players() {
    // setup
    let service = GameService::new();
    let alice = user(1, "Alice", 1000);
    let bob = user(2, "Bob", 1000);
    let charlie = user(3, "Charlie", 1000);

    // create room
    let mut room = Room::new();

    // join players
    service
        .join_player(&mut room, &alice, 500, Sid::default())
        .unwrap();
    service
        .join_player(&mut room, &bob, 1000, Sid::default())
        .unwrap();
    service
        .join_player(&mut room, &charlie, 1000, Sid::default())
        .unwrap();
    assert_eq!(room.player_joining_next_round.len(), 1);

    // preflop
    service.take_action(&mut room, alice.id, Action::Call).unwrap();
    service.take_action(&mut room, bob.id, Action::Check).unwrap();

    // flop
    service.take_action(&mut room, bob.id, Action::Check).unwrap();
    service.take_action(&mut room, alice.id, Action::Check).unwrap();

    // turn
    service.take_action(&mut room, bob.id, Action::Check).unwrap();
    service.take_action(&mut room, alice.id, Action::Check).unwrap();

    // river
    service.take_action(&mut room, bob.id, Action::Check).unwrap();
    service.take_action(&mut room, alice.id, Action::Check).unwrap();

    // game restarts to preFlop
    assert_eq!(room.stage, Stage::PreFlop);
    assert_eq!(room.player_joining_next_round, vec![]);
    assert_eq!(room.players.len(), 3);
}

#[test]
fn four_players_play_on_through_side_pots() {
    // setup
    let service = GameService::new();
    let alice = user(1, "Alice", 1000);
    let bob = user(2, "Bob", 1000);
    let charlie = user(3, "Charlie", 2000);
    let dennis = user(4, "Dennis", 2000);

    // create room
    let mut room = Room::new();

    // join players
    service
        .join_player(&mut room, &alice, 500, Sid::default())
        .unwrap();
    service
        .join_player(&mut room, &bob, 1000, Sid::default())
        .unwrap();
    service
        .join_player(&mut room, &charlie, 1500, Sid::default())
        .unwrap();
    service
        .join_player(&mut room, &dennis, 2000, Sid::default())
        .unwrap();
    assert_eq!(room.player_joining_next_round.len(), 2);

    // preflop
    service.take_action(&mut room, alice.id, Action::Call).unwrap();
    service.take_action(&mut room, bob.id, Action::Check).unwrap();

    // flop
    service.take_action(&mut room, bob.id, Action::Check).unwrap();
    service.take_action(&mut room, alice.id, Action::Check).unwrap();

    // turn
    service.take_action(&mut room, bob.id, Action::Check).unwrap();
    service.take_action(&mut room, alice.id, Action::Check).unwrap();

    // river
    service.take_action(&mut room, bob.id, Action::Check).unwrap();
    service.take_action(&mut room, alice.id, Action::Check).unwrap();

    // game restarts to preFlop
    assert_eq!(room.stage, Stage::PreFlop);
    assert_eq!(room.player_joining_next_round, vec![]);
    assert_eq!(room.players.len(), 4);

    // preflop
    assert_eq!(room.player_in_turn, Some(alice.id));

    service.take_action(&mut room, alice.id, Action::Call).unwrap();
    service.take_action(&mut room, bob.id, Action::Call).unwrap();
    service
        .take_action(&mut room, charlie.id, Action::Call)
        .unwrap();
    service
        .take_action(&mut room, dennis.id, Action::Check)
        .unwrap();
    assert_eq!(room.stage, Stage::Flop);

    // flop
    assert_eq!(room.player_in_turn, Some(charlie.id));
    service
        .take_action(&mut room, charlie.id, Action::Raise(510))
        .unwrap();
    service
        .take_action(&mut room, dennis.id, Action::Call)
        .unwrap();
    service
        .take_action(&mut room, alice.id, Action::AllIn)
        .unwrap();
    service.take_action(&mut room, bob.id, Action::Call).unwrap();

    // turn
    assert_eq!(room.stage, Stage::Turn);
    assert_eq!(room.player_in_turn, Some(charlie.id));
    service
        .take_action(&mut room, charlie.id, Action::Raise(510))
        .unwrap();
    service
        .take_action(&mut room, dennis.id, Action::Call)
        .unwrap();
    service.take_action(&mut room, bob.id, Action::AllIn).unwrap();

    // river
    assert_eq!(room.stage, Stage::River);
    assert_eq!(room.player_in_turn, Some(charlie.id));
    service
        .take_action(&mut room, charlie.id, Action::AllIn)
        .unwrap();
    assert_eq!(room.stage, Stage::River);
    service
        .take_action(&mut room, dennis.id, Action::Call)
        .unwrap();

    // game resets to preFlop or NotEnoughPlayers
    if room.players.len() == 1 {
        assert_eq!(room.stage, Stage::NotEnoughPlayers);
    } else {
        assert_eq!(room.stage, Stage::PreFlop);
    }
    let chips: u32 = room.players.iter().map(|p| p.chips + p.bet).sum();
    assert_eq!(chips, 5000);
}

#[test]
fn game_test_add_player() {
    let mut room = Room::new();
    room.join_player(Player::new("Alice".to_string(), 400)).unwrap();
    room.join_player(Player::new("Bob".to_string(), 400)).unwrap();
    assert_eq!(2, room.players.len());
}

#[test]
fn game_test_deal_community_card() {
    let mut room = Room::new();
    room.deal_community_card(Stage::Flop).unwrap();
    room.deal_community_card(Stage::Turn).unwrap();
    room.deal_community_card(Stage::River).unwrap();
    assert_eq!(room.community_cards.len(), 5);
}

#[test]
fn game_test_winners() {
    let game_service = GameService::new();
    let room = Room {
        id: Uuid::new_v4().as_u128(),
        players: vec![
            Player {
                id: Uuid::from_u128(1).as_u128(),
                name: "Alice".to_string(),
                hand: Some(Hand([card_of("3s"), card_of("2s")])),
                chips: 0,
                bet: 0,
                has_folded: false,
                position: Position::DealerAndSmallBlind,
                has_taken_turn: true,
                sid: Sid::from_str("AA9AAA0AAzAAAAHs").unwrap(),
                is_connected: true,
                last_action: None,
            },
            Player {
                id: Uuid::from_u128(2).as_u128(),
                name: "Bob".to_string(),
                hand: Some(Hand([card_of("4s"), card_of("5s")])),
                chips: 0,
                bet: 0,
                has_folded: false,
                position: Position::BigBlind,
                has_taken_turn: true,
                sid: Sid::from_str("AA9AAA0AAzAAAAHB").unwrap(),
                is_connected: true,
                last_action: None,
            },
        ],
        deck: Deck::new(),
        community_cards: cards_of("6s 7s 8s 9s Ts"),
        stage: Stage::Showdown(true),
        pots: vec![Pot {
            amount: 0,
            players: HashSet::from([Uuid::from_u128(1).as_u128(), Uuid::from_u128(2).as_u128()]),
        }],
        player_joining_next_round: Default::default(),
        player_in_turn: None,
    };

    let game_result = game_service.find_winners(&room).unwrap();
    let (_, winner_ids) = game_result.winners.first().expect("No winners");
    let mut winners: Vec<_> = room
        .players
        .iter()
        .filter(|p| winner_ids.contains(&p.id))
        .collect();
    winners.sort_by(|a, b| a.id.cmp(&b.id));
    // Both players have straight flushes
    assert_eq!(
        winners,
        vec![
            &Player {
                id: Uuid::from_u128(1).as_u128(),
                name: "Alice".to_string(),
                hand: Some(Hand([card_of("3s"), card_of("2s")])),
                chips: 0,
                bet: 0,
                has_folded: false,
                position: Position::DealerAndSmallBlind,
                has_taken_turn: true,
                sid: Sid::from_str("AA9AAA0AAzAAAAHs").unwrap(),
                is_connected: true,
                last_action: None,
            },
            &Player {
                id: Uuid::from_u128(2).as_u128(),
                name: "Bob".to_string(),
                hand: Some(Hand([card_of("4s"), card_of("5s")])),
                chips: 0,
                bet: 0,
                has_folded: false,
                position: Position::BigBlind,
                has_taken_turn: true,
                sid: Sid::from_str("AA9AAA0AAzAAAAHB").unwrap(),
                is_connected: true,
                last_action: None,
            },
        ]
    );
    assert_eq!(game_result.hands_eval.len(), 2);
}

#[test]
fn game_stage_should_change_to_pre_flop_when_there_is_minimum_players() {
    let mut room = Room::new();
    room.join_player(Player::new("Alice".to_string(), 400)).unwrap();
    room.join_player(Player::new("Bob".to_string(), 400)).unwrap();
    assert_eq!(room.stage, Stage::PreFlop);
}

#[test]
fn game_test_readjust_positions_with_4_players() {
    let mut room = Room::new();
    room.join_player(Player::new("Alice".to_string(), 400)).unwrap();
    room.join_player(Player::new("Bob".to_string(), 400)).unwrap();
    room.join_player(Player::new("Charlie".to_string(), 400)).unwrap();
    room.join_player(Player::new("David".to_string(), 400)).unwrap();

    let positions = room
        .players
        .iter()
        .map(|p| p.position.clone())
        .collect::<Vec<_>>();
    assert_eq!(
        positions,
        vec![Position::DealerAndSmallBlind, Position::BigBlind]
    );
}

#[test]
fn game_test_readjust_positions_with_2_players() {
    let mut room = Room::new();
    room.join_player(Player::new("Alice".to_string(), 400)).unwrap();
    room.join_player(Player::new("Bob".to_string(), 400)).unwrap();
    let positions = room
        .players
        .iter()
        .map(|p| p.position.clone())
        .collect::<Vec<_>>();
    assert_eq!(
        positions,
        vec![Position::DealerAndSmallBlind, Position::BigBlind]
    );
}

#[test]
fn game_test_side_pots() {
    let mut room = Room::new();
    let alice = Player::new("Alice".to_string(), 500);
    let bob = Player::new("Bob".to_string(), 1000);
    let charlie = Player::new("Charlie".to_string(), 1500);
    let david = Player::new("David".to_string(), 2000);
    let alice_id = alice.id;
    let bob_id = bob.id;
    let charlie_id = charlie.id;
    let david_id = david.id;

    room.players.push(alice);
    room.players.push(bob);
    room.players.push(charlie);
    room.players.push(david);

    room.proceed().unwrap();
    // PreFlop
    assert_eq!(room.stage, Stage::PreFlop);
    assert_eq!(room.player_in_turn, Some(david_id));

    room.take_action(david_id, Action::Raise(500)).unwrap();
    room.take_action(alice_id, Action::Call).unwrap();
    room.take_action(bob_id, Action::Call).unwrap();
    room.take_action(charlie_id, Action::Call).unwrap();

    assert_eq!(
        room.pots,
        vec![Pot {
            amount: 2000,
            players: HashSet::from([alice_id, bob_id, charlie_id, david_id]),
        }]
    );

    // Flop
    assert_eq!(room.stage, Stage::Flop);
    assert_eq!(room.player_in_turn, Some(bob_id));

    room.take_action(bob_id, Action::Raise(500)).unwrap();
    room.take_action(charlie_id, Action::Call).unwrap();
    room.take_action(david_id, Action::Call).unwrap();

    // Turn
    assert_eq!(
        room.pots,
        vec![
            Pot {
                amount: 2000,
                players: HashSet::from([alice_id, bob_id, charlie_id, david_id]),
            },
            Pot {
                amount: 1500,
                players: HashSet::from([bob_id, charlie_id, david_id]),
            },
        ]
    );
    assert_eq!(room.stage, Stage::Turn);
    assert_eq!(room.player_in_turn, Some(charlie_id));

    room.take_action(charlie_id, Action::Raise(500)).unwrap();
    room.take_action(david_id, Action::Call).unwrap();

    // Game skips to Showdown resets to PreFlop
    assert_eq!(room.stage, Stage::Showdown(true));
    assert_eq!(
        room.pots,
        vec![
            Pot {
                amount: 2000,
                players: HashSet::from([alice_id, bob_id, charlie_id, david_id]),
            },
            Pot {
                amount: 1500,
                players: HashSet::from([bob_id, charlie_id, david_id]),
            },
            Pot {
                amount: 1000,
                players: HashSet::from([charlie_id, david_id]),
            },
        ]
    );

    // the side pots are decided and paid before the main pot; the payouts
    // are published in the reverse of that order
    let service = GameService::new();
    let result = service.find_winners(&room).unwrap();
    let amounts: Vec<u32> = result.winners.iter().map(|w| w.0).collect();
    assert_eq!(amounts, vec![1000, 1500, 2000]);
    assert!(result.winners[0].1.is_subset(&HashSet::from([charlie_id, david_id])));
    assert!(result.winners.iter().all(|w| !w.1.is_empty()));
    let effects = service
        .service_action_required(ServiceRequiredAction::FindWinners, &mut room)
        .unwrap();
    let paid: Vec<u32> = effects
        .iter()
        .filter_map(|e| match e {
            Effect::EmitOutcome(w) if !w.is_empty() => Some(w.iter().map(|x| x.amount).sum()),
            _ => None,
        })
        .collect();
    assert_eq!(paid, vec![2000, 1500, 1000]);
    let chips: u32 = room.players.iter().map(|p| p.chips + p.bet).sum();
    assert_eq!(chips, 5000);
}

#[test]
fn game_closest_to_dealer_should_return_correct_player() {
    let mut room = Room::new();
    let player1 = Player::new("Alice".to_string(), 400);
    let player2 = Player::new("Bob".to_string(), 400);
    let player3 = Player::new("Charlie".to_string(), 400);
    let player4 = Player::new("David".to_string(), 400);

    room.join_player(player1.clone()).unwrap();
    room.join_player(player2.clone()).unwrap();
    room.join_player(player3.clone()).unwrap();
    room.join_player(player4.clone()).unwrap();
    room.proceed().unwrap();

    let player_ids = HashSet::from([player1.id, player2.id, player3.id, player4.id]);

    let closest_player = room.closest_to_dealer(&player_ids).unwrap();
    assert_eq!(closest_player, player2.id);
}

#[test]
fn game_closest_to_dealer_should_return_error_if_no_dealer() {
    let mut room = Room::new();
    let player1 = Player::new("Alice".to_string(), 400);
    let player2 = Player::new("Bob".to_string(), 400);

    room.join_player(player1.clone()).unwrap();
    room.join_player(player2.clone()).unwrap();
    room.proceed().unwrap();

    let player_ids = HashSet::from([player1.id, player2.id]);

    let closest_player = room.closest_to_dealer(&player_ids).unwrap();
    assert_eq!(closest_player, player2.id);
}

#[test]
fn winners_are_found_at_a_showdown_only() {
    let service = GameService::new();
    let mut room = Room::new();
    let e = service.find_winners(&room).err().expect("refused");
    assert_eq!(e, Error::NotShowdown);
    assert_eq!(e.message(), "Game is not in the showdown stage yet");
    room.stage = Stage::Showdown(false);
    let e = service.find_winners(&room).err().expect("refused");
    assert_eq!(e, Error::NoPlayerLeft);
    assert_eq!(e.message(), "No player left in the game");
}

#[test]
fn the_last_player_standing_takes_all_pots_unseen() {
    let service = GameService::new();
    let mut room = Room::new();
    let mut folded = Player::new("Alice".to_string(), 10);
    folded.has_folded = true;
    let standing = Player::new("Bob".to_string(), 10);
    let standing_id = standing.id;
    room.players = vec![folded, standing];
    room.stage = Stage::Showdown(false);
    room.pots = vec![
        Pot { amount: 30, players: HashSet::from([1, 2]) },
        Pot { amount: 12, players: HashSet::from([2]) },
    ];
    let result = service.find_winners(&room).unwrap();
    assert!(result.hands_eval.is_empty());
    assert_eq!(result.winners, vec![(42, HashSet::from([standing_id]))]);
    room.pots.push(Pot { amount: u32::MAX, players: HashSet::new() });
    let e = service.find_winners(&room).err().expect("refused");
    assert_eq!(e, Error::AmountOverflow);
}

#[test]
fn hands_that_cannot_be_evaluated_are_refused() {
    let service = GameService::new();
    assert_eq!(
        service.evaluator.evaluate(&cards_of("Ks Js Ts Qs")).err(),
        Some(Error::InvalidHandSize(4))
    );
    assert_eq!(
        service.evaluator.evaluate(&cards_of("Ks Js Ts Qs Ks")).err(),
        Some(Error::CardsNotUnique)
    );
    assert_eq!(
        service.evaluator.evaluate(&cards_of("Ks Ks")).err(),
        Some(Error::CardsNotUnique)
    );
    assert!(service
        .evaluator
        .evaluate(&cards_of("Ks Js Ts Qs As 2d 3c"))
        .is_ok());
    assert_eq!(
        Error::InvalidHandSize(4).message(),
        "Cannot evaluate a poker hand with a set of less than 5 cards. Number of cards received: 4"
    );
}

#[test]
fn a_better_hand_wins_and_an_unseen_hand_counts_as_the_worst() {
    let service = GameService::new();
    let pair = service.evaluator.evaluate(&cards_of("2h 2c 5h Qd 6s")).unwrap();
    let better = service.evaluator.evaluate(&cards_of("3h 3d 5c Qs 6h")).unwrap();
    let tie = service.evaluator.evaluate(&cards_of("2s 2d 5s Qc 6d")).unwrap();
    let worst = service.evaluator.evaluate(&cards_of("7h 5d 4c 3s 2h")).unwrap();
    let best = GameService::all_best_hands(&vec![(1, pair), (2, better), (3, tie)]);
    assert_eq!(best, HashSet::from([2]));
    let best = GameService::all_best_hands(&vec![(1, pair), (3, tie)]);
    assert_eq!(best, HashSet::from([1, 3]));
    let best = GameService::all_best_hands(&vec![(3, tie), (2, better), (1, pair)]);
    assert_eq!(best, HashSet::from([2]));
    let best = GameService::all_best_hands(&vec![]);
    assert!(best.is_empty());
    let best = GameService::all_best_hands(&vec![(1, worst), (2, worst)]);
    assert_eq!(best, HashSet::from([1, 2]));

    let mut evals = std::collections::HashMap::new();
    evals.insert(1u128, pair);
    let pot = Pot { amount: 5, players: HashSet::from([1, 9]) };
    assert_eq!(GameService::pot_best(&pot, &evals), HashSet::from([1]));
    evals.insert(1u128, worst);
    assert_eq!(GameService::pot_best(&pot, &evals), HashSet::from([1, 9]));
    let nobody = Pot { amount: 5, players: HashSet::new() };
    assert!(GameService::pot_best(&nobody, &evals).is_empty());
}

#[test]
fn joining_checks_the_balance() {
    let service = GameService::new();
    let mut room = Room::new();
    let poor = user(1, "Alice", 100);
    let e = service
        .join_player(&mut room, &poor, 101, Sid::default())
        .unwrap_err();
    assert_eq!(e, Error::InsufficientBalance);
    assert_eq!(e.message(), "Insufficient balance");
    let e = service
        .join_player(&mut room, &poor, -1, Sid::default())
        .unwrap_err();
    assert_eq!(e, Error::AmountOverflow);
    let rich = user(2, "Bob", i64::MAX);
    let e = service
        .join_player(&mut room, &rich, 1 << 32, Sid::default())
        .unwrap_err();
    assert_eq!(e, Error::AmountOverflow);
    assert!(room.players.is_empty());

    let sid = Sid::from_str("AA9AAA0AAzAAAAHs").unwrap();
    let joined = service.join_player(&mut room, &poor, 100, sid).unwrap();
    assert_eq!(joined.balance, 0);
    assert_eq!(joined.player_count, 1);
    assert_eq!(joined.effects.len(), 2);
    assert!(matches!(joined.effects[0], Effect::Subscribe(s) if s == sid));
    assert!(matches!(&joined.effects[1], Effect::EmitRoom(s)
        if s.players.len() == 1 && s.stage == Stage::NotEnoughPlayers));
    assert_eq!(room.players[0].sid, sid);
    assert_eq!(room.players[0].chips, 100);
    assert_eq!(room.players[0].id, poor.id);

    let joined = service
        .join_player(&mut room, &rich, 250, Sid::default())
        .unwrap();
    assert_eq!(joined.balance, i64::MAX - 250);
    assert_eq!(joined.player_count, 2);
    assert_eq!(joined.effects.len(), 4);
    assert!(matches!(&joined.effects[1], Effect::EmitRoom(s)
        if s.stage == Stage::PreFlop
            && s.players.iter().all(|p| matches!(p.hand, HandState::Hidden))));
    assert!(matches!(&joined.effects[2], Effect::EmitHand { sid: s, .. } if *s == sid));
    assert!(matches!(&joined.effects[3], Effect::EmitHand { .. }));
}

#[test]
fn leaving_publishes_the_room() {
    let service = GameService::new();
    let mut room = Room::new();
    let alice = user(1, "Alice", 1000);
    let bob = user(2, "Bob", 1000);
    let sid = Sid::from_str("AA9AAA0AAzAAAAHs").unwrap();
    service.join_player(&mut room, &alice, 500, sid).unwrap();
    service
        .join_player(&mut room, &bob, 500, Sid::default())
        .unwrap();
    // Alice is in turn: her leave ends the hand, and Bob takes the pot
    assert_eq!(room.player_in_turn, Some(alice.id));
    let left = service.leave_player(&mut room, alice.id, sid);
    assert_eq!(left.chips, 499);
    assert_eq!(left.player_count, 1);
    assert_eq!(left.effects.len(), 7);
    assert!(matches!(left.effects[0], Effect::Unsubscribe(s) if s == sid));
    assert!(matches!(&left.effects[1], Effect::EmitRoom(s)
        if s.stage == Stage::Showdown(false)
            && !s.players[0].is_connected && s.players[0].has_folded && s.players[1].is_connected));
    assert!(matches!(left.effects[2], Effect::Sleep(5)));
    assert!(matches!(&left.effects[3], Effect::EmitOutcome(w)
        if w.len() == 1 && w[0].player == bob.id && w[0].amount == 3));
    assert!(matches!(left.effects[4], Effect::Sleep(3)));
    assert!(matches!(&left.effects[5], Effect::EmitOutcome(w) if w.is_empty()));
    assert!(matches!(&left.effects[6], Effect::EmitRoom(s)
        if s.stage == Stage::NotEnoughPlayers && s.players.len() == 1
            && s.players[0].chips == 501 && s.current_player.is_none()));
    assert_eq!(room.stage, Stage::NotEnoughPlayers);
    assert_eq!(room.players.len(), 1);
    let left = service.leave_player(&mut room, 404, sid);
    assert_eq!(left.chips, 0);
    assert_eq!(left.effects.len(), 2);
    assert!(matches!(&left.effects[1], Effect::EmitRoom(s) if s.players.len() == 1));
}

#[test]
fn leaving_out_of_turn_publishes_the_room_as_it_is() {
    let service = GameService::new();
    let mut room = Room::new();
    let alice = user(1, "Alice", 1000);
    let bob = user(2, "Bob", 1000);
    let sid = Sid::from_str("AA9AAA0AAzAAAAHs").unwrap();
    service
        .join_player(&mut room, &alice, 500, Sid::default())
        .unwrap();
    service.join_player(&mut room, &bob, 500, sid).unwrap();
    assert_eq!(room.player_in_turn, Some(alice.id));
    let left = service.leave_player(&mut room, bob.id, sid);
    assert_eq!(left.chips, 498);
    assert_eq!(left.player_count, 1);
    assert_eq!(left.effects.len(), 2);
    assert!(matches!(left.effects[0], Effect::Unsubscribe(s) if s == sid));
    assert!(matches!(&left.effects[1], Effect::EmitRoom(s)
        if s.stage == Stage::PreFlop && s.current_player == Some(alice.id)
            && s.players[0].is_connected && !s.players[1].is_connected && s.players[1].has_folded));
    assert_eq!(room.stage, Stage::PreFlop);
}

#[test]
fn a_plain_step_publishes_the_hidden_state() {
    let service = GameService::new();
    let mut room = Room::new();
    room.join_player(Player::new("Alice".to_string(), 400)).unwrap();
    room.join_player(Player::new("Bob".to_string(), 400)).unwrap();
    let effects = service
        .service_action_required(ServiceRequiredAction::NoAction, &mut room)
        .unwrap();
    assert_eq!(effects.len(), 1);
    assert!(matches!(&effects[0], Effect::EmitRoom(s)
        if s.id == room.id
            && s.current_player == room.player_in_turn
            && s.pots.is_empty()
            && s.players.len() == 2
            && s.players[0].bet == 1
            && s.players[0].chips == 399
            && s.players[0].name == "Alice"
            && s.players[0].position == Position::DealerAndSmallBlind
            && s.players.iter().all(|p| matches!(p.hand, HandState::Hidden))));
    let e = service
        .service_action_required(ServiceRequiredAction::FindWinners, &mut room)
        .unwrap_err();
    assert_eq!(e, Error::NotShowdown);
    assert_eq!(room.stage, Stage::PreFlop);
}
