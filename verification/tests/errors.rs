use holdem::domain::Action;
use holdem::domain::ClientEvent;
use holdem::domain::ServiceEvent;
use holdem::error::Error;

#[test]
fn errors_of_the_service_have_their_status_and_text() {
    let cases = [
        (Error::EmptyDeck, 400, "Deck is empty"),
        (Error::InvalidPosition(53), 400, "Invalid position: 53"),
        (Error::EmailAlreadyExists, 409, "Email already exists"),
        (Error::InvalidPassword, 401, "Invalid password"),
        (Error::InsufficientBalance, 400, "Insufficient balance"),
        (Error::RoomIsFull, 400, "Room is full"),
        (Error::InvalidRoomId, 404, "Invalid room id"),
        (Error::NotInRoom, 400, "Player not in room"),
        (Error::UserNotFound, 404, "User not found"),
        (
            Error::InvalidEmailOrPassword,
            400,
            "Either email format is invalid or password length is less than 8",
        ),
        (Error::NoRoomFound, 404, "No room found"),
    ];
    for (error, status, text) in cases {
        assert_eq!(error.status_code(), status);
        assert_eq!(error.message(), text);
        assert_eq!(error.clone().into_response_tuple(), (status, text.to_string()));
    }
}

#[test]
fn errors_of_the_table_have_their_text() {
    let cases = [
        (Error::NotPlayersTurn, "Not player's turn"),
        (Error::PlayerNotFound, "Player not found"),
        (Error::MustCallOrRaise, "Player must call or raise"),
        (Error::InvalidRaiseAmount, "Invalid raise amount"),
        (
            Error::NotEnoughChips("Alice".to_string()),
            "Alice does not have enough chips",
        ),
        (Error::NotEnoughChips(String::new()), " does not have enough chips"),
        (Error::InvalidStageToDeal, "Invalid stage to deal community card"),
        (Error::InvalidCommunityCards, "Invalid number of community cards"),
        (Error::NoPots, "No pots"),
        (Error::NoPlayers, "No players"),
        (Error::DealerNotFound, "Dealer not found"),
        (Error::BigBlindNotFound, "Big blind not found"),
        (Error::NoPlayersToAct, "No players to act"),
        (Error::NoPlayersFound, "No players found"),
        (Error::NotShowdown, "Game is not in the showdown stage yet"),
        (Error::NoPlayerLeft, "No player left in the game"),
    ];
    for (error, text) in cases {
        assert_eq!(error.message(), text);
        assert_eq!(error.status_code(), 500);
    }
    assert!(!Error::NoWinners.message().is_empty());
    assert!(!Error::AmountOverflow.message().is_empty());
    assert!(!Error::CardsNotUnique.message().is_empty());
}

#[test]
fn numbers_in_messages_are_decimal() {
    assert_eq!(Error::InvalidPosition(0).message(), "Invalid position: 0");
    assert_eq!(Error::InvalidPosition(7).message(), "Invalid position: 7");
    assert_eq!(Error::InvalidPosition(10).message(), "Invalid position: 10");
    assert_eq!(
        Error::InvalidPosition(u64::MAX).message(),
        "Invalid position: 18446744073709551615"
    );
    assert_eq!(
        Error::InvalidPosition(9007199254740993).message(),
        "Invalid position: 9007199254740993"
    );
    let mut text = String::from("n=");
    holdem::error::push_decimal(&mut text, 1203);
    assert_eq!(text, "n=1203");
}

#[test]
fn events_and_actions_have_their_wire_names() {
    assert_eq!(ClientEvent::Join.as_str(), "join");
    assert_eq!(ClientEvent::Action.as_str(), "action");
    assert_eq!(ClientEvent::Leave.as_str(), "leave");
    assert_eq!(ServiceEvent::Room.as_str(), "room");
    assert_eq!(ServiceEvent::Hand.as_str(), "hand");
    assert_eq!(ServiceEvent::ServiceError.as_str(), "service_error");
    assert_eq!(ServiceEvent::Outcome.as_str(), "outcome");
    assert_eq!(Action::Fold.as_str(), "fold");
    assert_eq!(Action::Check.as_str(), "check");
    assert_eq!(Action::Call.as_str(), "call");
    assert_eq!(Action::Raise(5).as_str(), "raise");
    assert_eq!(Action::AllIn.as_str(), "all_in");
}
