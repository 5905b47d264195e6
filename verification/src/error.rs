//! Errors of the engine and of the service around it.

use vstd::prelude::*;
use vstd::string::StringExecFns;

verus! {

/// Everything that can go wrong in the engine. Rule violations of the state
/// machine are ordinary errors: no operation panics on caller input.
#[derive(Debug, Clone, PartialEq, Eq)]
pub enum Error {
    EmptyDeck,
    InvalidPosition(u64),
    EmailAlreadyExists,
    InvalidPassword,
    InsufficientBalance,
    RoomIsFull,
    InvalidRoomId,
    NotInRoom,
    UserNotFound,
    InvalidEmailOrPassword,
    NoRoomFound,
    /// An action was sent by someone other than the player in turn.
    NotPlayersTurn,
    /// The player in turn is not seated at the table.
    PlayerNotFound,
    /// A check while the player's bet is behind the current bet.
    MustCallOrRaise,
    /// A raise that does not reach the current bet.
    InvalidRaiseAmount,
    /// A bet larger than the stack of the named player.
    NotEnoughChips(String),
    /// Community cards are dealt on the flop, the turn and the river only.
    InvalidStageToDeal,
    /// The table holds a number of community cards other than 0, 3, 4 or 5.
    InvalidCommunityCards,
    NoPots,
    NoPlayers,
    DealerNotFound,
    BigBlindNotFound,
    NoPlayersToAct,
    /// A pot was to be paid out to an empty set of winners.
    NoWinners,
    /// None of the winners of a pot is seated.
    NoPlayersFound,
    NotShowdown,
    NoPlayerLeft,
    /// A chip amount would leave the range of `u32`.
    AmountOverflow,
    /// The hand evaluator was given the same card twice.
    CardsNotUnique,
    /// The hand evaluator was given fewer than five cards.
    InvalidHandSize(usize),
}

impl Error {
    /// The HTTP status under which the error is reported.
    pub open spec fn spec_status_code(self) -> u16 {
        match self {
            Error::EmptyDeck => 400,
            Error::InvalidPosition(_) => 400,
            Error::EmailAlreadyExists => 409,
            Error::InvalidPassword => 401,
            Error::InsufficientBalance => 400,
            Error::RoomIsFull => 400,
            Error::InvalidRoomId => 404,
            Error::NotInRoom => 400,
            Error::UserNotFound => 404,
            Error::InvalidEmailOrPassword => 400,
            Error::NoRoomFound => 404,
            _ => 500,
        }
    }

    /// The HTTP status under which the error is reported.
    pub fn status_code(&self) -> (code: u16)
        ensures
            code == self.spec_status_code(),
            400 <= code < 600,
    {
        match self {
            Error::EmptyDeck => 400,
            Error::InvalidPosition(_) => 400,
            Error::EmailAlreadyExists => 409,
            Error::InvalidPassword => 401,
            Error::InsufficientBalance => 400,
            Error::RoomIsFull => 400,
            Error::InvalidRoomId => 404,
            Error::NotInRoom => 400,
            Error::UserNotFound => 404,
            Error::InvalidEmailOrPassword => 400,
            Error::NoRoomFound => 404,
            _ => 500,
        }
    }

    /// The fixed text of an error that carries no value.
    pub open spec fn fixed_text(self) -> Seq<char> {
        match self {
            Error::EmptyDeck => "Deck is empty"@,
            Error::EmailAlreadyExists => "Email already exists"@,
            Error::InvalidPassword => "Invalid password"@,
            Error::InsufficientBalance => "Insufficient balance"@,
            Error::RoomIsFull => "Room is full"@,
            Error::InvalidRoomId => "Invalid room id"@,
            Error::NotInRoom => "Player not in room"@,
            Error::UserNotFound => "User not found"@,
            Error::InvalidEmailOrPassword =>
                "Either email format is invalid or password length is less than 8"@,
            Error::NoRoomFound => "No room found"@,
            Error::NotPlayersTurn => "Not player's turn"@,
            Error::PlayerNotFound => "Player not found"@,
            Error::MustCallOrRaise => "Player must call or raise"@,
            Error::InvalidRaiseAmount => "Invalid raise amount"@,
            Error::InvalidStageToDeal => "Invalid stage to deal community card"@,
            Error::InvalidCommunityCards => "Invalid number of community cards"@,
            Error::NoPots => "No pots"@,
            Error::NoPlayers => "No players"@,
            Error::DealerNotFound => "Dealer not found"@,
            Error::BigBlindNotFound => "Big blind not found"@,
            Error::NoPlayersToAct => "No players to act"@,
            Error::NoWinners => "No winners"@,
            Error::NoPlayersFound => "No players found"@,
            Error::NotShowdown => "Game is not in the showdown stage yet"@,
            Error::NoPlayerLeft => "No player left in the game"@,
            Error::AmountOverflow => "Chip amount out of range"@,
            Error::CardsNotUnique =>
                "Cannot evaluate a poker hand with a set of cards that are not unique"@,
            _ => Seq::empty(),
        }
    }

    /// The text shown to a client.
    pub open spec fn spec_message(self) -> Seq<char> {
        match self {
            Error::InvalidPosition(n) => "Invalid position: "@ + decimal(n as nat),
            Error::NotEnoughChips(name) => name@ + " does not have enough chips"@,
            Error::InvalidHandSize(n) =>
                "Cannot evaluate a poker hand with a set of less than 5 cards. Number of cards received: "@
                    + decimal(n as nat),
            _ => self.fixed_text(),
        }
    }

    fn fixed_message(&self) -> (s: &'static str)
        ensures
            s@ == self.fixed_text(),
    {
        match self {
            Error::EmptyDeck => "Deck is empty",
            Error::EmailAlreadyExists => "Email already exists",
            Error::InvalidPassword => "Invalid password",
            Error::InsufficientBalance => "Insufficient balance",
            Error::RoomIsFull => "Room is full",
            Error::InvalidRoomId => "Invalid room id",
            Error::NotInRoom => "Player not in room",
            Error::UserNotFound => "User not found",
            Error::InvalidEmailOrPassword =>
                "Either email format is invalid or password length is less than 8",
            Error::NoRoomFound => "No room found",
            Error::NotPlayersTurn => "Not player's turn",
            Error::PlayerNotFound => "Player not found",
            Error::MustCallOrRaise => "Player must call or raise",
            Error::InvalidRaiseAmount => "Invalid raise amount",
            Error::InvalidStageToDeal => "Invalid stage to deal community card",
            Error::InvalidCommunityCards => "Invalid number of community cards",
            Error::NoPots => "No pots",
            Error::NoPlayers => "No players",
            Error::DealerNotFound => "Dealer not found",
            Error::BigBlindNotFound => "Big blind not found",
            Error::NoPlayersToAct => "No players to act",
            Error::NoWinners => "No winners",
            Error::NoPlayersFound => "No players found",
            Error::NotShowdown => "Game is not in the showdown stage yet",
            Error::NoPlayerLeft => "No player left in the game",
            Error::AmountOverflow => "Chip amount out of range",
            Error::CardsNotUnique =>
                "Cannot evaluate a poker hand with a set of cards that are not unique",
            _ => {
                proof {
                    reveal_strlit("");
                }
                ""
            },
        }
    }

    /// The text shown to a client, as the service sends it in a
    /// `service_error` event.
    pub fn message(&self) -> (s: String)
        ensures
            s@ == self.spec_message(),
    {
        match self {
            Error::InvalidPosition(n) => {
                let mut s = String::from_str("Invalid position: ");
                push_decimal(&mut s, *n);
                s
            },
            Error::NotEnoughChips(name) => {
                let mut s = name.clone();
                s.append(" does not have enough chips");
                s
            },
            Error::InvalidHandSize(n) => {
                let mut s = String::from_str(
                    "Cannot evaluate a poker hand with a set of less than 5 cards. Number of cards received: ",
                );
                push_decimal(&mut s, *n as u64);
                s
            },
            _ => String::from_str(self.fixed_message()),
        }
    }

    /// Status and text together, as an HTTP handler answers with them.
    pub fn into_response_tuple(self) -> (r: (u16, String))
        ensures
            r.0 == self.spec_status_code(),
            r.1@ == self.spec_message(),
    {
        let code = self.status_code();
        let text = self.message();
        (code, text)
    }
}

/// The digit character of `d`, for `d` below ten.
pub open spec fn digit_char(d: nat) -> char {
    if d == 0 {
        '0'
    } else if d == 1 {
        '1'
    } else if d == 2 {
        '2'
    } else if d == 3 {
        '3'
    } else if d == 4 {
        '4'
    } else if d == 5 {
        '5'
    } else if d == 6 {
        '6'
    } else if d == 7 {
        '7'
    } else if d == 8 {
        '8'
    } else {
        '9'
    }
}

/// The decimal numeral of `n`, without leading zeros.
pub open spec fn decimal(n: nat) -> Seq<char>
    decreases n,
{
    if n < 10 {
        seq![digit_char(n)]
    } else {
        decimal(n / 10).push(digit_char(n % 10))
    }
}

fn digit_str(d: u64) -> (s: &'static str)
    requires
        d < 10,
    ensures
        s@ == seq![digit_char(d as nat)],
{
    proof {
        reveal_strlit("0");
        reveal_strlit("1");
        reveal_strlit("2");
        reveal_strlit("3");
        reveal_strlit("4");
        reveal_strlit("5");
        reveal_strlit("6");
        reveal_strlit("7");
        reveal_strlit("8");
        reveal_strlit("9");
    }
    let s = if d == 0 {
        "0"
    } else if d == 1 {
        "1"
    } else if d == 2 {
        "2"
    } else if d == 3 {
        "3"
    } else if d == 4 {
        "4"
    } else if d == 5 {
        "5"
    } else if d == 6 {
        "6"
    } else if d == 7 {
        "7"
    } else if d == 8 {
        "8"
    } else {
        "9"
    };
    s
}

/// Appends the decimal numeral of `n` to `s`.
pub fn push_decimal(s: &mut String, n: u64)
    ensures
        final(s)@ == old(s)@ + decimal(n as nat),
    decreases n,
{
    if n >= 10 {
        push_decimal(s, n / 10);
    }
    let d = digit_str(n % 10);
    s.append(d);
}

} // verus!
