//! A player at the table: stack, bet, seat position and flags.

use vstd::prelude::*;
use socketioxide::socket::Sid;
use crate::card::Card;
use crate::domain::Action;
use crate::domain::User;
use crate::error::Error;

verus! {

/// `Sid` of socketioxide, the id of a client's socket. The engine only
/// carries it along, for the service to address a player's socket.
#[verifier::external_type_specification]
#[verifier::external_body]
pub struct ExSid(Sid);

/// The seat positions, in rising order: the outgoing dealer is the seat with
/// the highest position.
#[derive(Debug, Clone, Copy, PartialEq, Eq, PartialOrd, Ord, Hash, Structural)]
pub enum Position {
    Normal,
    BigBlind,
    SmallBlind,
    DealerAndSmallBlind,
    Dealer,
}

impl Position {
    /// The place of the position in the order of positions.
    pub open spec fn level(self) -> int {
        match self {
            Position::Normal => 0,
            Position::BigBlind => 1,
            Position::SmallBlind => 2,
            Position::DealerAndSmallBlind => 3,
            Position::Dealer => 4,
        }
    }

    /// The position of the dealer, alone or with the small blind.
    pub open spec fn spec_is_dealer(&self) -> bool {
        self is Dealer || self is DealerAndSmallBlind
    }

    /// The blind that the position posts at the start of a hand.
    pub open spec fn blind(self) -> u32 {
        match self {
            Position::BigBlind => 2,
            Position::SmallBlind => 1,
            Position::DealerAndSmallBlind => 1,
            _ => 0,
        }
    }

    /// Whether the position is that of the dealer.
    #[verifier::when_used_as_spec(spec_is_dealer)]
    pub fn is_dealer(&self) -> (b: bool)
        ensures
            b == self.spec_is_dealer(),
    {
        matches!(self, Position::Dealer | Position::DealerAndSmallBlind)
    }

    /// The place of the position in the order of positions.
    pub fn exec_level(&self) -> (n: u8)
        ensures
            n == self.level(),
    {
        match self {
            Position::Normal => 0,
            Position::BigBlind => 1,
            Position::SmallBlind => 2,
            Position::DealerAndSmallBlind => 3,
            Position::Dealer => 4,
        }
    }

    /// The blind that the position posts at the start of a hand.
    pub fn exec_blind(&self) -> (n: u32)
        ensures
            n == self.blind(),
    {
        match self {
            Position::BigBlind => 2,
            Position::SmallBlind => 1,
            Position::DealerAndSmallBlind => 1,
            _ => 0,
        }
    }
}

/// The two hole cards of a player.
#[derive(Debug, Clone, Copy, PartialEq)]
pub struct Hand(pub [Card; 2]);

/// A player at the table or on the waiting list.
#[derive(Debug, PartialEq)]
pub struct Player {
    pub id: u128,
    pub name: String,
    pub hand: Option<Hand>,
    pub chips: u32,
    pub bet: u32,
    pub has_folded: bool,
    pub position: Position,
    pub has_taken_turn: bool,
    pub sid: Sid,
    pub is_connected: bool,
    pub last_action: Option<Action>,
}

/// The id has the layout of a random UUID: the version, in bits 76 to 79,
/// is 4, and the variant, in bits 62 and 63, is `10`. The other 122 bits
/// are free.
pub open spec fn is_random_id(id: u128) -> bool {
    (id >> 76) & 0xf == 4 && (id >> 62) & 0x3 == 2
}

/// `Uuid::new_v4` of the uuid crate, as its 128 bits (`Uuid::as_u128`): 122
/// random bits, with the version and the variant of a random UUID set in
/// the other six.
#[verifier::external_body]
pub(crate) fn fresh_id() -> (id: u128)
    ensures
        is_random_id(id),
{
    uuid::Uuid::new_v4().as_u128()
}

/// `Sid::default` of socketioxide: a socket id made at random.
#[verifier::external_body]
fn fresh_sid() -> (sid: Sid)
{
    Sid::default()
}

impl Clone for Player {
    fn clone(&self) -> (p: Self)
        ensures
            p == *self,
    {
        Player {
            id: self.id,
            name: self.name.clone(),
            hand: self.hand,
            chips: self.chips,
            bet: self.bet,
            has_folded: self.has_folded,
            position: self.position,
            has_taken_turn: self.has_taken_turn,
            sid: self.sid,
            is_connected: self.is_connected,
            last_action: self.last_action,
        }
    }
}

impl Player {
    /// A player can be seated for a hand: connected, with chips.
    pub open spec fn seatable(self) -> bool {
        self.is_connected && self.chips > 0
    }

    /// A player can act: in the hand, with chips.
    pub open spec fn eligible(self) -> bool {
        !self.has_folded && self.chips > 0
    }

    /// The player as they sit down: the given stack, no bet, no cards.
    pub open spec fn fresh(self, id: u128, name: String, buy_in: u32, sid: Sid) -> bool {
        self == (Player {
            id,
            name,
            hand: None,
            chips: buy_in,
            bet: 0,
            has_folded: false,
            position: Position::Normal,
            has_taken_turn: false,
            sid,
            is_connected: true,
            last_action: None,
        })
    }

    /// The player after moving `amount` chips from the stack to the bet.
    pub open spec fn after_bet(self, amount: u32) -> Player {
        Player { bet: (self.bet + amount) as u32, chips: (self.chips - amount) as u32, ..self }
    }

    /// What a bet of `amount` gives: an error where the stack is too small
    /// or the bet would leave the range of `u32`.
    pub open spec fn try_bet(self, amount: u32) -> Result<Player, Error> {
        if amount > self.chips {
            Err(Error::NotEnoughChips(self.name))
        } else if self.bet + amount > u32::MAX {
            Err(Error::AmountOverflow)
        } else {
            Ok(self.after_bet(amount))
        }
    }

    /// A new player under a fresh random id.
    pub fn new(name: String, buy_in: u32) -> (p: Self)
        ensures
            p.fresh(p.id, name, buy_in, p.sid),
            is_random_id(p.id),
    {
        Player {
            id: fresh_id(),
            name,
            hand: None,
            chips: buy_in,
            bet: 0,
            has_folded: false,
            position: Position::Normal,
            has_taken_turn: false,
            sid: fresh_sid(),
            is_connected: true,
            last_action: None,
        }
    }

    /// The player that a user becomes when they sit down with `buy_in` chips.
    pub fn from_user(user: &User, buy_in: u32, sid: Sid) -> (p: Self)
        ensures
            p.fresh(user.id, user.name, buy_in, sid),
    {
        Player {
            id: user.id,
            name: user.name.clone(),
            hand: None,
            chips: buy_in,
            bet: 0,
            has_folded: false,
            position: Position::Normal,
            has_taken_turn: false,
            sid,
            is_connected: true,
            last_action: None,
        }
    }

    /// Moves `amount` chips from the stack to the bet.
    pub fn bet_amount(&mut self, amount: u32) -> (r: Result<(), Error>)
        ensures
            match r {
                Ok(_) => old(self).try_bet(amount) == Ok::<Player, Error>(*final(self)),
                Err(e) => old(self).try_bet(amount) == Err::<Player, Error>(e) && *final(self)
                    == *old(self),
            },
    {
        if amount > self.chips {
            return Err(Error::NotEnoughChips(self.name.clone()));
        }
        match self.bet.checked_add(amount) {
            None => Err(Error::AmountOverflow),
            Some(bet) => {
                self.bet = bet;
                self.chips -= amount;
                Ok(())
            },
        }
    }
}

} // verus!
