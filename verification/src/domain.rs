//! Values that cross the wire between clients and the service.

use vstd::prelude::*;

verus! {

/// What a player can do on their turn.
#[derive(Debug, Clone, Copy, PartialEq, Eq, Structural)]
pub enum Action {
    Fold,
    Check,
    Call,
    Raise(u32),
    AllIn,
}

impl Action {
    /// The name of the action in snake case.
    pub open spec fn spec_name(self) -> Seq<char> {
        match self {
            Action::Fold => "fold"@,
            Action::Check => "check"@,
            Action::Call => "call"@,
            Action::Raise(_) => "raise"@,
            Action::AllIn => "all_in"@,
        }
    }

    /// The name on the wire.
    pub fn as_str(&self) -> (s: &'static str)
        ensures
            s@ == self.spec_name(),
    {
        match self {
            Action::Fold => "fold",
            Action::Check => "check",
            Action::Call => "call",
            Action::Raise(_) => "raise",
            Action::AllIn => "all_in",
        }
    }
}

/// The events that a client sends.
#[derive(Debug, Clone, Copy, PartialEq, Eq, Structural)]
pub enum ClientEvent {
    Join,
    Action,
    Leave,
}

impl ClientEvent {
    /// The name of the event on the wire.
    pub open spec fn spec_name(self) -> Seq<char> {
        match self {
            ClientEvent::Join => "join"@,
            ClientEvent::Action => "action"@,
            ClientEvent::Leave => "leave"@,
        }
    }

    /// The name on the wire.
    pub fn as_str(&self) -> (s: &'static str)
        ensures
            s@ == self.spec_name(),
    {
        match self {
            ClientEvent::Join => "join",
            ClientEvent::Action => "action",
            ClientEvent::Leave => "leave",
        }
    }
}

/// The events that the service sends.
#[derive(Debug, Clone, Copy, PartialEq, Eq, Structural)]
pub enum ServiceEvent {
    Room,
    Hand,
    ServiceError,
    Outcome,
}

impl ServiceEvent {
    /// The name of the event on the wire.
    pub open spec fn spec_name(self) -> Seq<char> {
        match self {
            ServiceEvent::Room => "room"@,
            ServiceEvent::Hand => "hand"@,
            ServiceEvent::ServiceError => "service_error"@,
            ServiceEvent::Outcome => "outcome"@,
        }
    }

    /// The name on the wire.
    pub fn as_str(&self) -> (s: &'static str)
        ensures
            s@ == self.spec_name(),
    {
        match self {
            ServiceEvent::Room => "room",
            ServiceEvent::Hand => "hand",
            ServiceEvent::ServiceError => "service_error",
            ServiceEvent::Outcome => "outcome",
        }
    }
}

/// What the service has to do after a step of the state machine.
#[derive(Debug, Clone, Copy, PartialEq, Eq, Structural)]
pub enum ServiceRequiredAction {
    /// Publish the new state of the room.
    NoAction,
    /// The hand is over: find the winners and pay the pots out.
    FindWinners,
    /// A hand has begun: publish the state, then send each player their cards.
    PlayerReceiveCards,
}

/// The balance with which a new user starts.
pub const DEFAULT_BALANCE: i64 = 1000;

/// A user of the service, as the user store holds them.
#[derive(Debug, Clone, PartialEq)]
pub struct User {
    pub id: u128,
    pub name: String,
    pub balance: i64,
    pub current_room: Option<u128>,
}

/// A room as the lobby lists it.
#[derive(Debug, Clone, Copy, PartialEq, Eq, Structural)]
pub struct RoomInfo {
    pub room_id: u128,
    pub player_count: i32,
}

/// The payload of a `join` event.
#[derive(Debug, Clone, Copy, PartialEq, Eq, Structural)]
pub struct JoinGameRequest {
    pub room_id: u128,
    pub buy_in: i64,
}

/// The payload of an `action` event.
#[derive(Debug, Clone, Copy, PartialEq, Eq, Structural)]
pub struct ActionRequest {
    pub room_id: u128,
    pub action: Action,
}

/// The payload of a sign-up: the address and the password of the account.
#[derive(Debug, Clone, PartialEq, Eq)]
pub struct SignupRequest {
    pub email: String,
    pub password: String,
}

/// The payload of a login.
#[derive(Debug, Clone, PartialEq, Eq)]
pub struct LoginRequest {
    pub email: String,
    pub password: String,
}

/// The payload of a change of the name of a user.
#[derive(Debug, Clone, PartialEq, Eq)]
pub struct UpdateProfileRequest {
    pub username: String,
}

} // verus!
