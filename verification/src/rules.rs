//! The rules of the table, as functions on values: what each step of a hand
//! makes of a room, and when it is refused. The cards that a step deals are
//! drawn at random; the rules say how many are dealt and to whom, and
//! `agrees` says what a room that was dealt them looks like.

use vstd::prelude::*;
use crate::card::Card;
use crate::deck::Deck;
use crate::domain::Action;
use crate::domain::ServiceRequiredAction;
use crate::error::Error;
use crate::player::Hand;
use crate::player::Player;
use crate::pot::layers;
use crate::pot::merged;
use crate::pot::pots_fit;
use crate::pot::PotView;
use crate::pot::Winnings;
use crate::seats::active_max_bet_of;
use crate::seats::can_act;
use crate::seats::first_seat;
use crate::seats::is_among;
use crate::seats::max_bet_of;
use crate::seats::next_dealer;
use crate::seats::next_seat_after;
use crate::seats::seated;
use crate::seats::keep_seatable;
use crate::seats::with_positions;
use crate::seats::Seek;

verus! {

/// The most players, seated or waiting, that a room takes.
pub const MAX_NUM_OF_PLAYERS: usize = 5;

/// The phases of a hand. The flag of the showdown says whether the board
/// is still to be dealt out: it is not where a single player is left.
#[derive(Debug, Clone, Copy, PartialEq, Eq, Structural)]
pub enum Stage {
    NotEnoughPlayers,
    PreFlop,
    Flop,
    Turn,
    River,
    Showdown(bool),
}

impl Stage {
    /// The stage is a showdown, with or without dealing.
    pub open spec fn spec_is_showdown(&self) -> bool {
        *self is Showdown
    }

    /// A stage in which players bet.
    pub open spec fn is_betting(self) -> bool {
        self is PreFlop || self is Flop || self is Turn || self is River
    }

    /// The name of the stage as it is shown.
    pub open spec fn spec_line(self) -> Seq<char> {
        match self {
            Stage::NotEnoughPlayers => "Waiting for players"@,
            Stage::PreFlop => "Pre-flop"@,
            Stage::Flop => "Flop"@,
            Stage::Turn => "Turn"@,
            Stage::River => "River"@,
            Stage::Showdown(_) => "Showdown"@,
        }
    }

    /// The name of the stage as it is shown.
    pub fn line(&self) -> (s: &'static str)
        ensures
            s@ == self.spec_line(),
    {
        match self {
            Stage::NotEnoughPlayers => "Waiting for players",
            Stage::PreFlop => "Pre-flop",
            Stage::Flop => "Flop",
            Stage::Turn => "Turn",
            Stage::River => "River",
            Stage::Showdown(_) => "Showdown",
        }
    }

    /// Whether the stage is a showdown.
    #[verifier::when_used_as_spec(spec_is_showdown)]
    pub fn is_showdown(&self) -> (b: bool)
        ensures
            b == self.spec_is_showdown(),
    {
        matches!(self, Stage::Showdown(_))
    }

    /// Whether players bet in the stage.
    pub fn exec_is_betting(&self) -> (b: bool)
        ensures
            b == self.is_betting(),
    {
        matches!(self, Stage::PreFlop | Stage::Flop | Stage::Turn | Stage::River)
    }
}

impl Default for Stage {
    fn default() -> (s: Self)
        ensures
            s == Stage::NotEnoughPlayers,
    {
        Stage::NotEnoughPlayers
    }
}

/// Whether the hand can move on, and how.
#[derive(Debug, Clone, Copy, PartialEq, Eq, Structural)]
pub enum ProceedType {
    /// Someone has still to act.
    NoAction,
    /// On to the next stage.
    Normal,
    /// One player is left: showdown, and the board stays as it is.
    ShowdownWithoutDealing,
    /// Nobody can bet any more: showdown, and the board is dealt out.
    ShowdownWithDealing,
}

impl ProceedType {
    /// The round is over: anything but `NoAction`.
    pub open spec fn spec_can_proceed(&self) -> bool {
        !(*self is NoAction)
    }

    /// Whether the round is over and the room can move on.
    #[verifier::when_used_as_spec(spec_can_proceed)]
    pub fn can_proceed(&self) -> (b: bool)
        ensures
            b == self.spec_can_proceed(),
    {
        matches!(
            self,
            ProceedType::Normal | ProceedType::ShowdownWithDealing
                | ProceedType::ShowdownWithoutDealing
        )
    }
}

/// A room as a value.
#[verifier::ext_equal]
pub struct RoomView {
    pub id: u128,
    pub players: Seq<Player>,
    pub deck: Deck,
    pub community_cards: Seq<Card>,
    pub stage: Stage,
    pub pots: Seq<PotView>,
    pub waiting: Seq<Player>,
    pub player_in_turn: Option<u128>,
}

/// The cards that a step deals.
pub enum Dealing {
    /// None.
    Nothing,
    /// Two hole cards to every seated player, from a full deck.
    Hands,
    /// So many cards to the board, after so many burned.
    Board { cards: nat, burned: nat },
}

/// The players who are in the hand.
pub open spec fn in_hand() -> spec_fn(Player) -> bool {
    |p: Player| !p.has_folded
}

/// Every player who can act has acted in this round.
pub open spec fn all_turns_taken(ps: Seq<Player>) -> bool {
    forall|i: int| 0 <= i < ps.len() && (#[trigger] ps[i]).eligible() ==> ps[i].has_taken_turn
}

/// The players who can act have all bet the same.
pub open spec fn bets_level(ps: Seq<Player>) -> bool {
    forall|i: int, j: int|
        0 <= i < ps.len() && 0 <= j < ps.len() && (#[trigger] ps[i]).eligible() && (
        #[trigger] ps[j]).eligible() ==> ps[i].bet == ps[j].bet
}

/// Whether a round of betting is over. With one player left in the hand, or
/// none, the hand goes to a showdown without dealing; with nobody left who
/// can bet, or one who has matched the largest bet, to a showdown with
/// dealing; with several, the round is over once all of them have acted and
/// bet the same.
pub open spec fn proceed_type_of(ps: Seq<Player>) -> ProceedType {
    let active = ps.filter(in_hand()).len();
    let rich = ps.filter(can_act()).len();
    if active <= 1 {
        ProceedType::ShowdownWithoutDealing
    } else if rich == 0 {
        ProceedType::ShowdownWithDealing
    } else if rich == 1 {
        if ps[first_seat(ps, Seek::CanAct).unwrap()].bet == max_bet_of(ps) {
            ProceedType::ShowdownWithDealing
        } else {
            ProceedType::NoAction
        }
    } else if all_turns_taken(ps) && bets_level(ps) {
        ProceedType::Normal
    } else {
        ProceedType::NoAction
    }
}

/// The player after a round: no bet, no turn taken, no last action.
pub open spec fn rested(p: Player) -> Player {
    Player { has_taken_turn: false, bet: 0, last_action: None, ..p }
}

/// The player at the start of a hand: no bet, not folded, no turn taken.
pub open spec fn readied(p: Player) -> Player {
    Player { bet: 0, has_folded: false, has_taken_turn: false, ..p }
}

/// The player after posting the blind of their position.
pub open spec fn posted(p: Player) -> Player {
    p.after_bet(p.position.blind())
}

/// The player after leaving: gone from the hand and from the table.
pub open spec fn gone(p: Player) -> Player {
    Player { is_connected: false, has_folded: true, ..p }
}

/// Every player rested.
pub open spec fn all_rested(ps: Seq<Player>) -> Seq<Player> {
    Seq::new(ps.len(), |i: int| rested(ps[i]))
}

/// Every player readied.
pub open spec fn all_readied(ps: Seq<Player>) -> Seq<Player> {
    Seq::new(ps.len(), |i: int| readied(ps[i]))
}

/// Every player with their blind posted.
pub open spec fn all_posted(ps: Seq<Player>) -> Seq<Player> {
    Seq::new(ps.len(), |i: int| posted(ps[i]))
}

/// The players after the one with the id `id` has left.
pub open spec fn all_but(ps: Seq<Player>, id: u128) -> Seq<Player> {
    Seq::new(
        ps.len(),
        |i: int|
            if ps[i].id == id {
                gone(ps[i])
            } else {
                ps[i]
            },
    )
}

/// Nobody at the table is connected.
pub open spec fn nobody_connected(ps: Seq<Player>) -> bool {
    forall|i: int| 0 <= i < ps.len() ==> !(#[trigger] ps[i]).is_connected
}

/// The player who acts first: the first who can act after the big blind
/// before the flop, after the dealer from the flop on.
pub open spec fn first_actor(ps: Seq<Player>, stage: Stage) -> Result<u128, Error> {
    let mark = if stage is PreFlop {
        Seek::BigBlind
    } else {
        Seek::Dealer
    };
    match first_seat(ps, mark) {
        None => Err(
            if stage is PreFlop {
                Error::BigBlindNotFound
            } else {
                Error::DealerNotFound
            },
        ),
        Some(i) => match next_seat_after(ps, can_act(), i) {
            None => Err(Error::NoPlayersToAct),
            Some(j) => Ok(ps[j].id),
        },
    }
}

/// What a player becomes by an action, against the largest bet of the
/// players in the hand.
pub open spec fn acted(p: Player, action: Action, max_bet: u32) -> Result<Player, Error> {
    let moved = match action {
        Action::Fold => Ok(Player { has_folded: true, ..p }),
        Action::Check => if p.bet < max_bet {
            Err(Error::MustCallOrRaise)
        } else {
            Ok(p)
        },
        Action::Call => p.try_bet(
            if max_bet > p.bet {
                (max_bet - p.bet) as u32
            } else {
                0
            },
        ),
        Action::Raise(amount) => if amount + p.bet < max_bet {
            Err(Error::InvalidRaiseAmount)
        } else {
            p.try_bet(amount)
        },
        Action::AllIn => p.try_bet(p.chips),
    };
    match moved {
        Ok(q) => Ok(Player { last_action: Some(action), has_taken_turn: true, ..q }),
        Err(e) => Err(e),
    }
}

impl RoomView {
    /// The table cleared for a new hand: seated anew, no pots, no board, a
    /// full deck, nobody in turn.
    pub open spec fn reset_table(self) -> RoomView {
        RoomView {
            players: seated(self.players, self.waiting),
            waiting: Seq::empty(),
            pots: Seq::empty(),
            community_cards: Seq::empty(),
            deck: Deck::full(),
            player_in_turn: None,
            ..self
        }
    }

    /// The number of players, seated or waiting, who count against the
    /// limit of the room.
    pub open spec fn player_count(self) -> nat {
        keep_seatable(self.players).len() + keep_seatable(self.waiting).len()
    }

    /// The start of a hand, but for the cards: the table is cleared, the
    /// dealer moves on, the blinds are posted and the first player is in
    /// turn.
    pub open spec fn start_game(self) -> Result<RoomView, Error> {
        let t = self.reset_table();
        let ready = all_readied(t.players);
        if 2 * ready.len() > 52 {
            Err(Error::EmptyDeck)
        } else if ready.len() == 0 {
            Err(Error::NoPlayers)
        } else {
            let placed = with_positions(ready, next_dealer(ready));
            match first_seat(placed, Seek::ShortOfBlind) {
                Some(i) => Err(Error::NotEnoughChips(placed[i].name)),
                None => {
                    let ps = all_posted(placed);
                    match first_actor(ps, self.stage) {
                        Err(e) => Err(e),
                        Ok(id) => Ok(RoomView { players: ps, player_in_turn: Some(id), ..t }),
                    }
                },
            }
        }
    }

    /// A street: one card is burned, `cards` go to the board, and the first
    /// player is in turn.
    pub open spec fn street(self, cards: nat) -> Result<
        (RoomView, ServiceRequiredAction, Dealing),
        Error,
    > {
        if self.deck.remaining() < cards + 1 {
            Err(Error::EmptyDeck)
        } else {
            match first_actor(self.players, self.stage) {
                Err(e) => Err(e),
                Ok(id) => Ok(
                    (
                        RoomView { player_in_turn: Some(id), ..self },
                        ServiceRequiredAction::NoAction,
                        Dealing::Board { cards, burned: 1 },
                    ),
                ),
            }
        }
    }

    /// What is dealt to bring the board to five cards at a showdown.
    pub open spec fn run_out(self) -> Result<Dealing, Error> {
        let n = self.community_cards.len();
        if n == 0 {
            Ok(Dealing::Board { cards: 5, burned: 3 })
        } else if n == 3 {
            Ok(Dealing::Board { cards: 2, burned: 2 })
        } else if n == 4 {
            Ok(Dealing::Board { cards: 1, burned: 1 })
        } else if n == 5 {
            Ok(Dealing::Nothing)
        } else {
            Err(Error::InvalidCommunityCards)
        }
    }

    /// Entering the stage that the room is in.
    pub open spec fn setup_stage(self) -> Result<
        (RoomView, ServiceRequiredAction, Dealing),
        Error,
    > {
        match self.stage {
            Stage::NotEnoughPlayers => Ok(
                (self.reset_table(), ServiceRequiredAction::NoAction, Dealing::Nothing),
            ),
            Stage::PreFlop => match self.start_game() {
                Err(e) => Err(e),
                Ok(v) => Ok((v, ServiceRequiredAction::PlayerReceiveCards, Dealing::Hands)),
            },
            Stage::Flop => self.street(3),
            Stage::Turn => self.street(1),
            Stage::River => self.street(1),
            Stage::Showdown(true) => match self.run_out() {
                Err(e) => Err(e),
                Ok(d) => if self.deck.remaining() < dealt_count(d) {
                    Err(Error::EmptyDeck)
                } else {
                    Ok(
                        (
                            RoomView { player_in_turn: None, ..self },
                            ServiceRequiredAction::FindWinners,
                            d,
                        ),
                    )
                },
            },
            Stage::Showdown(false) => Ok(
                (
                    RoomView { player_in_turn: None, ..self },
                    ServiceRequiredAction::FindWinners,
                    Dealing::Nothing,
                ),
            ),
        }
    }

    /// Leaving the stage that the room is in: the bets of a betting round go
    /// into pots, layer by layer, and neighbouring pots of the same players
    /// become one.
    pub open spec fn end_stage(self) -> Result<RoomView, Error> {
        if !self.stage.is_betting() {
            Ok(self)
        } else {
            let all = self.pots + layers(self.players, 0);
            if !pots_fit(layers(self.players, 0)) {
                Err(Error::AmountOverflow)
            } else if all.len() == 0 {
                Err(Error::NoPots)
            } else if !pots_fit(merged(all)) {
                Err(Error::AmountOverflow)
            } else {
                Ok(
                    RoomView {
                        pots: merged(all),
                        players: all_rested(self.players),
                        ..self
                    },
                )
            }
        }
    }

    /// The stage that follows, by the way in which the round ended.
    pub open spec fn advance(self, how: ProceedType) -> Result<RoomView, Error> {
        match self.end_stage() {
            Err(e) => Err(e),
            Ok(v) => Ok(
                match how {
                    ProceedType::ShowdownWithoutDealing => RoomView {
                        stage: Stage::Showdown(false),
                        ..v
                    },
                    ProceedType::ShowdownWithDealing => RoomView {
                        stage: Stage::Showdown(true),
                        ..v
                    },
                    _ => match v.stage {
                        Stage::Showdown(_) => {
                            let ps = seated(v.players, v.waiting);
                            RoomView {
                                players: ps,
                                waiting: Seq::empty(),
                                stage: if ps.len() >= 2 {
                                    Stage::PreFlop
                                } else {
                                    Stage::NotEnoughPlayers
                                },
                                ..v
                            }
                        },
                        Stage::NotEnoughPlayers => RoomView { stage: Stage::PreFlop, ..v },
                        Stage::PreFlop => RoomView { stage: Stage::Flop, ..v },
                        Stage::Flop => RoomView { stage: Stage::Turn, ..v },
                        Stage::Turn => RoomView { stage: Stage::River, ..v },
                        Stage::River => RoomView { stage: Stage::Showdown(true), ..v },
                    },
                },
            ),
        }
    }

    /// Whether the room can move on, and how.
    pub open spec fn can_proceed(self) -> ProceedType {
        match self.stage {
            Stage::NotEnoughPlayers => if self.players.len() >= 2 {
                ProceedType::Normal
            } else {
                ProceedType::NoAction
            },
            Stage::Showdown(_) => ProceedType::Normal,
            _ => proceed_type_of(self.players),
        }
    }

    /// The turn passes to the next player who can act.
    pub open spec fn pass_turn(self) -> Result<RoomView, Error> {
        match self.player_in_turn {
            None => Err(Error::PlayerNotFound),
            Some(id) => match first_seat(self.players, Seek::Id(id)) {
                None => Err(Error::PlayerNotFound),
                Some(i) => match next_seat_after(self.players, can_act(), i) {
                    None => Err(Error::NoPlayersToAct),
                    Some(j) => Ok(RoomView { player_in_turn: Some(self.players[j].id), ..self }),
                },
            },
        }
    }

    /// One step of the state machine: on to the next stage where the round
    /// is over, else on to the next player.
    pub open spec fn proceed(self) -> Result<(RoomView, ServiceRequiredAction, Dealing), Error> {
        let how = self.can_proceed();
        if how.can_proceed() {
            match self.advance(how) {
                Err(e) => Err(e),
                Ok(v) => v.setup_stage(),
            }
        } else if self.stage is NotEnoughPlayers {
            Ok((self, ServiceRequiredAction::NoAction, Dealing::Nothing))
        } else {
            match self.pass_turn() {
                Err(e) => Err(e),
                Ok(v) => Ok((v, ServiceRequiredAction::NoAction, Dealing::Nothing)),
            }
        }
    }

    /// The room after the player in turn has acted, before it moves on.
    pub open spec fn after_action(self, player_id: u128, action: Action) -> Result<
        RoomView,
        Error,
    > {
        if self.player_in_turn != Some(player_id) {
            Err(Error::NotPlayersTurn)
        } else {
            match first_seat(self.players, Seek::Id(player_id)) {
                None => Err(Error::PlayerNotFound),
                Some(i) => match acted(
                    self.players[i],
                    action,
                    active_max_bet_of(self.players),
                ) {
                    Err(e) => Err(e),
                    Ok(p) => Ok(RoomView { players: self.players.update(i, p), ..self }),
                },
            }
        }
    }

    /// An action of a player, and the step that follows it.
    pub open spec fn take_action(self, player_id: u128, action: Action) -> Result<
        (RoomView, ServiceRequiredAction, Dealing),
        Error,
    > {
        match self.after_action(player_id, action) {
            Err(e) => Err(e),
            Ok(v) => v.proceed(),
        }
    }

    /// A player joins: to the table while the room waits for players, to the
    /// waiting list while a hand is on.
    pub open spec fn join_player(self, p: Player) -> Result<
        (RoomView, ServiceRequiredAction, Dealing),
        Error,
    > {
        if self.player_count() >= MAX_NUM_OF_PLAYERS {
            Err(Error::RoomIsFull)
        } else if self.stage is NotEnoughPlayers {
            (RoomView { players: self.players.push(p), ..self }).proceed()
        } else {
            Ok(
                (
                    RoomView { waiting: self.waiting.push(p), ..self },
                    ServiceRequiredAction::NoAction,
                    Dealing::Nothing,
                ),
            )
        }
    }

    /// The chips that a leaving player takes along: those of their first
    /// seat, at the table or else on the waiting list.
    pub open spec fn chips_of(self, player_id: u128) -> u32 {
        match first_seat(self.players, Seek::Id(player_id)) {
            Some(i) => self.players[i].chips,
            None => match first_seat(self.waiting, Seek::Id(player_id)) {
                Some(i) => self.waiting[i].chips,
                None => 0,
            },
        }
    }

    /// The hand is called off: nobody is seated, whoever can play waits for
    /// the next hand, and the room waits for players with no pots, no
    /// board, a full deck and nobody in turn. No hand starts before two
    /// players have sat down.
    pub open spec fn called_off(self) -> RoomView {
        RoomView {
            stage: Stage::NotEnoughPlayers,
            players: Seq::empty(),
            waiting: seated(self.players, self.waiting),
            pots: Seq::empty(),
            community_cards: Seq::empty(),
            deck: Deck::full(),
            player_in_turn: None,
            ..self
        }
    }

    /// The room with the player marked as gone, before anything follows
    /// from it.
    pub open spec fn without(self, player_id: u128) -> RoomView {
        RoomView {
            players: all_but(self.players, player_id),
            waiting: all_but(self.waiting, player_id),
            ..self
        }
    }

    /// The step after the player in turn is out of the hand: the turn
    /// passes on, or the hand moves on to its next stage. A hand that cannot
    /// take that step is called off.
    #[verifier::opaque]
    pub open spec fn step_or_call_off(self) -> (RoomView, ServiceRequiredAction, Dealing) {
        match self.proceed() {
            Ok(step) => step,
            Err(_) => (self.called_off(), ServiceRequiredAction::NoAction, Dealing::Nothing),
        }
    }

    /// The player who leaves was in turn in a round of betting.
    pub open spec fn leaves_in_turn(self, player_id: u128) -> bool {
        self.stage.is_betting() && self.player_in_turn == Some(player_id)
    }

    /// A player leaves: they are out of the hand and no longer connected.
    /// When nobody at the table is connected any more, the hand is called
    /// off and the room waits for players. When the player was in turn in a
    /// round of betting, the room takes the step that follows a fold: the
    /// turn passes on, or the hand moves on to its next stage; a hand that
    /// cannot take that step is called off. Otherwise nothing else changes.
    pub open spec fn leave_player(self, player_id: u128) -> (
        RoomView,
        ServiceRequiredAction,
        Dealing,
    ) {
        let marked = self.without(player_id);
        if nobody_connected(marked.players) {
            (marked.called_off(), ServiceRequiredAction::NoAction, Dealing::Nothing)
        } else if marked.leaves_in_turn(player_id) {
            marked.step_or_call_off()
        } else {
            (marked, ServiceRequiredAction::NoAction, Dealing::Nothing)
        }
    }

    /// What a leave asks of the service: to find the winners where it has
    /// brought the hand from a round of betting to its showdown, and
    /// nothing else.
    pub open spec fn asked_by_leave(self, after: RoomView) -> ServiceRequiredAction {
        if self.stage.is_betting() && after.stage is Showdown {
            ServiceRequiredAction::FindWinners
        } else {
            ServiceRequiredAction::NoAction
        }
    }

    /// The winner of the odd chips of a pot: the first of `ids` after the
    /// dealer, round the table.
    pub open spec fn closest_to_dealer(self, ids: Set<u128>) -> Result<u128, Error> {
        match first_seat(self.players, Seek::Dealer) {
            None => Err(Error::DealerNotFound),
            Some(d) => match next_seat_after(self.players, is_among(ids), d) {
                None => Err(Error::NoPlayersFound),
                Some(j) => Ok(self.players[j].id),
            },
        }
    }

    /// The cards of every player who is in the hand: their hole cards, then
    /// the board.
    pub open spec fn players_cards(self) -> Seq<(u128, Seq<Card>)> {
        cards_in_hand(self.players, self.community_cards)
    }
}

/// The cards of every player of `ps` who is in the hand, in their order.
pub open spec fn cards_in_hand(ps: Seq<Player>, board: Seq<Card>) -> Seq<(u128, Seq<Card>)>
    decreases ps.len(),
{
    if ps.len() == 0 {
        Seq::empty()
    } else if ps.last().has_folded {
        cards_in_hand(ps.drop_last(), board)
    } else {
        cards_in_hand(ps.drop_last(), board).push((ps.last().id, cards_with(ps.last().hand, board)))
    }
}

/// The hole cards of a hand, if there is one, then the board.
pub open spec fn cards_with(hand: Option<Hand>, board: Seq<Card>) -> Seq<Card> {
    match hand {
        Some(h) => h.0@ + board,
        None => board,
    }
}

/// The number of cards that leave the deck.
pub open spec fn dealt_count(d: Dealing) -> nat {
    match d {
        Dealing::Nothing => 0,
        Dealing::Hands => 0,
        Dealing::Board { cards, burned } => cards + burned,
    }
}

/// The cards `kept` were drawn from the deck `before`, and `burned` more
/// with them: all were in the deck, and none twice.
pub open spec fn drawn(before: Deck, after: Deck, kept: Seq<Card>, burned: nat) -> bool {
    &&& kept.no_duplicates()
    &&& forall|i: int| 0 <= i < kept.len() ==> before.holds(#[trigger] kept[i])
    &&& forall|c: Card| after.holds(c) ==> before.holds(c) && !kept.contains(c)
    &&& after.remaining() + kept.len() + burned == before.remaining()
    &&& burned == 0 ==> forall|c: Card| after.holds(c) == (before.holds(c) && !kept.contains(c))
    &&& kept.len() + burned == 0 ==> after == before
}

/// The hole cards of the players, seat by seat.
pub open spec fn hole_cards(ps: Seq<Player>) -> Seq<Card> {
    Seq::new(
        2 * ps.len(),
        |k: int|
            match ps[k / 2].hand {
                Some(h) => h.0@[k % 2],
                None => crate::card::card_at(0),
            },
    )
}

/// The player without their cards.
pub open spec fn sans_hand(p: Player) -> Player {
    Player { hand: None, ..p }
}

/// The room `got` is what the step `d` makes of the room `plan`: the same
/// room but for the cards that the step deals, which were drawn from the
/// deck.
pub open spec fn agrees(plan: RoomView, d: Dealing, got: RoomView) -> bool {
    match d {
        Dealing::Nothing => got == plan,
        Dealing::Hands => {
            &&& got.players.len() == plan.players.len()
            &&& forall|i: int|
                0 <= i < got.players.len() ==> sans_hand(#[trigger] got.players[i]) == sans_hand(
                    plan.players[i],
                ) && got.players[i].hand is Some
            &&& drawn(Deck::full(), got.deck, hole_cards(got.players), 0)
            &&& got == (RoomView { players: got.players, deck: got.deck, ..plan })
        },
        Dealing::Board { cards, burned } => {
            &&& got.community_cards.len() == plan.community_cards.len() + cards
            &&& got.community_cards.take(plan.community_cards.len() as int)
                == plan.community_cards
            &&& drawn(
                plan.deck,
                got.deck,
                got.community_cards.skip(plan.community_cards.len() as int),
                burned,
            )
            &&& got == (RoomView {
                community_cards: got.community_cards,
                deck: got.deck,
                ..plan
            })
        },
    }
}

/// The players after each of them whose id is in `ids` was paid `share`.
pub open spec fn all_paid(ps: Seq<Player>, ids: Set<u128>, share: u32) -> Seq<Player> {
    Seq::new(
        ps.len(),
        |i: int|
            if ids.contains(ps[i].id) {
                Player { chips: (ps[i].chips + share) as u32, ..ps[i] }
            } else {
                ps[i]
            },
    )
}

/// The payouts of `share` to each player whose id is in `ids`, in the
/// order of the seats.
pub open spec fn shares(ps: Seq<Player>, ids: Set<u128>, share: u32) -> Seq<Winnings>
    decreases ps.len(),
{
    if ps.len() == 0 {
        Seq::empty()
    } else if ids.contains(ps.last().id) {
        shares(ps.drop_last(), ids, share).push(Winnings { player: ps.last().id, amount: share })
    } else {
        shares(ps.drop_last(), ids, share)
    }
}

/// A payout of `share` to a seated winner would leave the range of `u32`.
pub open spec fn share_overflows(ps: Seq<Player>, ids: Set<u128>, share: u32) -> bool {
    exists|i: int|
        0 <= i < ps.len() && ids.contains((#[trigger] ps[i]).id) && ps[i].chips + share > u32::MAX
}

/// What one pot pays: an equal share to every seated winner, and the odd
/// chips to the winner closest to the dealer.
pub open spec fn pay_pot(ps: Seq<Player>, amount: u32, ids: Set<u128>) -> Result<
    (Seq<Player>, Seq<Winnings>),
    Error,
> {
    if ids.len() == 0 {
        Err(Error::NoWinners)
    } else {
        let share = (amount as nat / ids.len()) as u32;
        let odd = (amount as nat % ids.len()) as u32;
        if share_overflows(ps, ids, share) {
            Err(Error::AmountOverflow)
        } else {
            let paid = all_paid(ps, ids, share);
            let wins = shares(ps, ids, share);
            match first_seat(ps, Seek::Dealer) {
                None => Err(Error::DealerNotFound),
                Some(d) => match next_seat_after(ps, is_among(ids), d) {
                    None => Err(Error::NoPlayersFound),
                    Some(j) => {
                        let k = first_seat(ps, Seek::Id(ps[j].id)).unwrap();
                        let w = first_win(wins, ps[j].id, 0);
                        if paid[k].chips + odd > u32::MAX {
                            Err(Error::AmountOverflow)
                        } else {
                            Ok(
                                (
                                    paid.update(
                                        k,
                                        Player { chips: (paid[k].chips + odd) as u32, ..paid[k] },
                                    ),
                                    if w < wins.len() {
                                        wins.update(
                                            w,
                                            Winnings {
                                                player: ps[j].id,
                                                amount: (share + odd) as u32,
                                            },
                                        )
                                    } else {
                                        wins
                                    },
                                ),
                            )
                        }
                    },
                },
            }
        }
    }
}

/// The first payout from `from` on that goes to `id`; the length of the
/// list where none does.
pub open spec fn first_win(wins: Seq<Winnings>, id: u128, from: int) -> int
    decreases wins.len() - from,
{
    if from < 0 || from >= wins.len() {
        wins.len() as int
    } else if wins[from].player == id {
        from
    } else {
        first_win(wins, id, from + 1)
    }
}

/// What the pots pay, one after the other.
pub open spec fn pay_pots(ps: Seq<Player>, winners: Seq<(u32, Set<u128>)>) -> Result<
    (Seq<Player>, Seq<Seq<Winnings>>),
    Error,
>
    decreases winners.len(),
{
    if winners.len() == 0 {
        Ok((ps, Seq::empty()))
    } else {
        match pay_pots(ps, winners.drop_last()) {
            Err(e) => Err(e),
            Ok((before, outs)) => match pay_pot(before, winners.last().0, winners.last().1) {
                Err(e) => Err(e),
                Ok((after, wins)) => Ok((after, outs.push(wins))),
            },
        }
    }
}

} // verus!
