//! What the service publishes: the state of a room as every player may see
//! it, with the hole cards hidden until the showdown, and the stamp of
//! time under which it is sent.

use vstd::prelude::*;
use vstd::string::StringExecFns;
use std::collections::HashMap;
use poker::Eval;
use crate::card::Card;
use crate::domain::Action;
use crate::evaluator::eval_name;
use crate::evaluator::eval_text;
use crate::player::Hand;
use crate::player::Player;
use crate::player::Position;
use crate::pot::Pot;
use crate::room::Room;
use crate::rules::RoomView;
use crate::rules::Stage;

verus! {

/// The two characters of a card on the wire.
#[derive(Debug, Clone, PartialEq, Eq)]
pub struct CardString(pub String);

impl CardString {
    /// The text of the card.
    pub fn from_card(card: &Card) -> (s: Self)
        ensures
            s.0@ == card.text(),
    {
        CardString(card.rank_suit_string())
    }

    /// The card that the text stands for, if it stands for one.
    pub fn to_card(&self) -> (c: Option<Card>)
        ensures
            c == crate::card::parse_card(self.0@),
    {
        Card::parse(self.0.as_str())
    }
}

/// The hole cards of a player as they are sent: a card that is not shown
/// is left out.
#[derive(Debug, Clone, Copy, PartialEq)]
pub struct PlayerHand(pub [Option<Card>; 2]);

impl PlayerHand {
    /// Both cards, shown.
    pub fn from_cards(cards: [Card; 2]) -> (h: Self)
        ensures
            h.0@ == seq![Some(cards@[0]), Some(cards@[1])],
    {
        let h = PlayerHand([Some(cards[0]), Some(cards[1])]);
        h
    }
}

/// What is shown of a card of a hand: the card, or a card face down.
pub open spec fn shown_card(card: Option<Card>) -> Seq<char> {
    match card {
        Some(c) => c.shown(),
        None => "[ ?? ]"@,
    }
}

impl PlayerHand {
    fn display_card(card: &Option<Card>) -> (s: String)
        ensures
            s@ == shown_card(*card),
    {
        match card {
            Some(c) => c.display(),
            None => String::from_str("[ ?? ]"),
        }
    }

    /// The two cards as they are shown, a card that is left out face down.
    pub fn display(&self) -> (r: [String; 2])
        ensures
            r@[0]@ == shown_card(self.0@[0]),
            r@[1]@ == shown_card(self.0@[1]),
    {
        [PlayerHand::display_card(&self.0[0]), PlayerHand::display_card(&self.0[1])]
    }
}

impl Default for PlayerHand {
    fn default() -> (h: Self)
        ensures
            h.0@ == seq![None::<Card>, None::<Card>],
    {
        let h = PlayerHand([None, None]);
        h
    }
}

/// What is shown of the hand of a player.
#[derive(Debug, Clone, Copy, PartialEq)]
pub enum HandState {
    /// The player has no cards.
    Empty,
    /// The player has cards, which are not shown.
    Hidden,
    Revealed(PlayerHand),
}

impl HandState {
    /// Shows the hand.
    pub fn reveal_hand(&mut self, hand: PlayerHand)
        ensures
            *final(self) == HandState::Revealed(hand),
    {
        *self = HandState::Revealed(hand);
    }
}

/// What is shown of a hand: nothing without cards, the cards where they
/// are revealed, else that there are cards.
pub open spec fn shown_hand(hand: Option<Hand>, reveal_cards: bool) -> HandState {
    match hand {
        None => HandState::Empty,
        Some(h) => if reveal_cards {
            HandState::Revealed(PlayerHand([Some(h.0@[0]), Some(h.0@[1])]))
        } else {
            HandState::Hidden
        },
    }
}

/// A player as every player may see them.
#[derive(Debug, Clone, PartialEq)]
pub struct PlayerState {
    pub id: u128,
    pub name: String,
    pub chips: u32,
    pub bet: u32,
    pub has_folded: bool,
    pub position: Position,
    pub hand: HandState,
    pub eval: Option<String>,
    pub is_connected: bool,
    pub last_action: Option<Action>,
}

/// A player as every player may see them, as a value.
pub struct PlayerStateView {
    pub id: u128,
    pub name: Seq<char>,
    pub chips: u32,
    pub bet: u32,
    pub has_folded: bool,
    pub position: Position,
    pub hand: HandState,
    pub eval: Option<Seq<char>>,
    pub is_connected: bool,
    pub last_action: Option<Action>,
}

impl View for PlayerState {
    type V = PlayerStateView;

    open spec fn view(&self) -> PlayerStateView {
        PlayerStateView {
            id: self.id,
            name: self.name@,
            chips: self.chips,
            bet: self.bet,
            has_folded: self.has_folded,
            position: self.position,
            hand: self.hand,
            eval: text_of(self.eval),
            is_connected: self.is_connected,
            last_action: self.last_action,
        }
    }
}

/// What is shown of a player: their cards where `reveal_cards` says so,
/// and the name of their hand where `names` holds one.
pub open spec fn shown_player(p: Player, reveal_cards: bool, names: Map<u128, Seq<char>>) -> PlayerStateView {
    PlayerStateView {
        id: p.id,
        name: p.name@,
        chips: p.chips,
        bet: p.bet,
        has_folded: p.has_folded,
        position: p.position,
        hand: shown_hand(p.hand, reveal_cards),
        eval: if names.contains_key(p.id) {
            Some(names[p.id])
        } else {
            None
        },
        is_connected: p.is_connected,
        last_action: p.last_action,
    }
}

/// The name of the hand of a player, as a value.
pub open spec fn text_of(s: Option<String>) -> Option<Seq<char>> {
    match s {
        Some(t) => Some(t@),
        None => None,
    }
}

impl PlayerState {
    /// The state of a player without the name of their hand.
    pub open spec fn of(p: Player, reveal_cards: bool) -> PlayerState {
        PlayerState {
            id: p.id,
            name: p.name,
            chips: p.chips,
            bet: p.bet,
            has_folded: p.has_folded,
            position: p.position,
            hand: shown_hand(p.hand, reveal_cards),
            eval: None,
            is_connected: p.is_connected,
            last_action: p.last_action,
        }
    }

    /// What stands above a player: that they folded, or their last action.
    pub open spec fn spec_top_title(self) -> Seq<char> {
        if self.has_folded {
            "Folded"@
        } else {
            match self.last_action {
                Some(a) => a.spec_name(),
                None => ""@,
            }
        }
    }

    /// The state of a player, with their cards shown or hidden.
    pub fn from_player(player: Player, reveal_cards: bool) -> (s: Self)
        ensures
            s == PlayerState::of(player, reveal_cards),
    {
        let hand = match player.hand {
            None => HandState::Empty,
            Some(h) => if reveal_cards {
                let shown = PlayerHand([Some(h.0[0]), Some(h.0[1])]);
                HandState::Revealed(shown)
            } else {
                HandState::Hidden
            },
        };
        PlayerState {
            id: player.id,
            name: player.name,
            chips: player.chips,
            bet: player.bet,
            has_folded: player.has_folded,
            position: player.position,
            hand,
            eval: None,
            is_connected: player.is_connected,
            last_action: player.last_action,
        }
    }

    /// Shows the hand of the player.
    pub fn reveal_hand(&mut self, hand: PlayerHand)
        ensures
            *final(self) == (PlayerState { hand: HandState::Revealed(hand), ..*old(self) }),
    {
        self.hand.reveal_hand(hand);
    }

    /// What stands above the player: that they folded, or their last action.
    pub fn top_title(&self) -> (s: &'static str)
        ensures
            s@ == self.spec_top_title(),
    {
        if self.has_folded {
            "Folded"
        } else {
            match &self.last_action {
                Some(a) => a.as_str(),
                None => "",
            }
        }
    }

    /// What stands below the player: their name.
    pub fn bottom_title(&self) -> (s: &str)
        ensures
            s@ == self.name@,
    {
        self.name.as_str()
    }
}

/// The state of a room as every player may see it.
#[derive(Debug, Clone, PartialEq)]
pub struct SharedGameState {
    pub id: u128,
    pub players: Vec<PlayerState>,
    pub community_cards: Vec<Card>,
    pub pots: Vec<u32>,
    pub stage: Stage,
    pub current_player: Option<u128>,
}

/// The state of a room as every player may see it, as a value.
#[verifier::ext_equal]
pub struct SnapshotView {
    pub id: u128,
    pub players: Seq<PlayerStateView>,
    pub community_cards: Seq<Card>,
    pub pots: Seq<u32>,
    pub stage: Stage,
    pub current_player: Option<u128>,
}

impl View for SharedGameState {
    type V = SnapshotView;

    open spec fn view(&self) -> SnapshotView {
        SnapshotView {
            id: self.id,
            players: Seq::new(self.players@.len(), |i: int| self.players@[i]@),
            community_cards: self.community_cards@,
            pots: self.pots@,
            stage: self.stage,
            current_player: self.current_player,
        }
    }
}

/// What is shown of a room: the table, the board, the chips of the pots,
/// the stage and who is in turn.
pub open spec fn shown(room: RoomView, reveal_cards: bool, names: Map<u128, Seq<char>>) -> SnapshotView {
    SnapshotView {
        id: room.id,
        players: Seq::new(
            room.players.len(),
            |i: int| shown_player(room.players[i], reveal_cards, names),
        ),
        community_cards: room.community_cards,
        pots: Seq::new(room.pots.len(), |i: int| room.pots[i].amount as u32),
        stage: room.stage,
        current_player: room.player_in_turn,
    }
}

/// The names of the hands of the evaluations.
pub open spec fn texts_of(evals: Map<u128, Eval>) -> Map<u128, Seq<char>> {
    Map::new(|id: u128| evals.contains_key(id), |id: u128| eval_text(evals[id]))
}

/// The state with the name of the hand of each player who has one in
/// `names`.
pub open spec fn with_names(s: SnapshotView, names: Map<u128, Seq<char>>) -> SnapshotView {
    SnapshotView {
        players: Seq::new(
            s.players.len(),
            |i: int|
                PlayerStateView {
                    eval: if names.contains_key(s.players[i].id) {
                        Some(names[s.players[i].id])
                    } else {
                        None
                    },
                    ..s.players[i]
                },
        ),
        ..s
    }
}

/// Naming the hands in what is shown of a room shows the room with the
/// names.
pub proof fn lemma_with_names(room: RoomView, reveal_cards: bool, names: Map<u128, Seq<char>>)
    ensures
        with_names(shown(room, reveal_cards, Map::empty()), names) == shown(
            room,
            reveal_cards,
            names,
        ),
{
    let a = with_names(shown(room, reveal_cards, Map::empty()), names);
}

/// The players of a room as they are shown.
pub open spec fn shown_players(ps: Seq<Player>, reveal_cards: bool) -> Seq<PlayerState> {
    Seq::new(ps.len(), |i: int| PlayerState::of(ps[i], reveal_cards))
}

/// The chips of each pot.
pub open spec fn pot_amounts(pots: Seq<Pot>) -> Seq<u32> {
    Seq::new(pots.len(), |i: int| pots[i].amount)
}

/// The player `after` is the player `before` with the name of their hand:
/// that of their evaluation, where they have one.
pub open spec fn named(before: PlayerState, evals: Map<u128, Eval>, after: PlayerState) -> bool {
    &&& after == (PlayerState { eval: after.eval, ..before })
    &&& text_of(after.eval) == (if evals.contains_key(before.id) {
        Some(eval_text(evals[before.id]))
    } else {
        None
    })
}

impl SharedGameState {
    /// The state of a room, with the hole cards shown or hidden.
    pub fn from_room(room: Room, reveal_cards: bool) -> (s: Self)
        ensures
            s.id == room.id,
            s.players@ == shown_players(room.players@, reveal_cards),
            s.community_cards@ == room.community_cards@,
            s.pots@ == pot_amounts(room.pots@),
            s.stage == room.stage,
            s.current_player == room.player_in_turn,
            s@ == shown(room@, reveal_cards, Map::empty()),
    {
        let mut players: Vec<PlayerState> = Vec::new();
        let mut i: usize = 0;
        while i < room.players.len()
            invariant
                i <= room.players@.len(),
                players@ == shown_players(room.players@, reveal_cards).take(i as int),
            decreases room.players@.len() - i,
        {
            players.push(PlayerState::from_player(room.players[i].clone(), reveal_cards));
            i += 1;
        }
        let mut pots: Vec<u32> = Vec::new();
        let mut k: usize = 0;
        while k < room.pots.len()
            invariant
                k <= room.pots@.len(),
                pots@ == pot_amounts(room.pots@).take(k as int),
            decreases room.pots@.len() - k,
        {
            pots.push(room.pots[k].amount);
            k += 1;
        }
        let s = SharedGameState {
            id: room.id,
            players,
            community_cards: room.community_cards,
            pots,
            stage: room.stage,
            current_player: room.player_in_turn,
        };
        s
    }

    /// The state with the name of the hand of every player who has an
    /// evaluation.
    pub fn with_eval(self, eval: &HashMap<u128, Eval>) -> (s: Self)
        ensures
            s.players@.len() == self.players@.len(),
            forall|i: int|
                0 <= i < s.players@.len() ==> named(self.players@[i], eval@, #[trigger] s.players@[i]),
            s == (SharedGameState { players: s.players, ..self }),
            s@ == with_names(self@, texts_of(eval@)),
    {
        broadcast use vstd::std_specs::hash::group_hash_axioms;

        let mut s = self;
        let n = s.players.len();
        let mut i: usize = 0;
        while i < n
            invariant
                i <= n,
                n == s.players@.len(),
                n == self.players@.len(),
                forall|j: int| 0 <= j < i ==> named(self.players@[j], eval@, #[trigger] s.players@[j]),
                forall|j: int| i <= j < n ==> s.players@[j] == self.players@[j],
                s == (SharedGameState { players: s.players, ..self }),
            decreases n - i,
        {
            let name = match eval.get(&s.players[i].id) {
                Some(e) => Some(eval_name(e)),
                None => None,
            };
            s.players[i].eval = name;
            i += 1;
        }
        s
    }
}

/// A moment: the seconds since the start of 1970 and the nanoseconds into
/// the second.
#[derive(Debug, Clone, Copy, PartialEq, Eq, Structural)]
pub struct Timestamp {
    pub secs: i64,
    pub nanos: u32,
}

impl Timestamp {
    /// Whether the moment is later than `other`.
    pub open spec fn later_than(self, other: Timestamp) -> bool {
        self.secs > other.secs || (self.secs == other.secs && self.nanos > other.nanos)
    }

    /// Whether the moment is later than `other`.
    pub fn is_after(&self, other: &Timestamp) -> (b: bool)
        ensures
            b == self.later_than(*other),
    {
        self.secs > other.secs || (self.secs == other.secs && self.nanos > other.nanos)
    }
}

/// `Utc::now` of chrono, as seconds (`timestamp`) and nanoseconds
/// (`timestamp_subsec_nanos`): the time of the clock at the call.
#[verifier::external_body]
fn now() -> (t: Timestamp)
{
    let t = chrono::Utc::now();
    Timestamp { secs: t.timestamp(), nanos: t.timestamp_subsec_nanos() }
}

/// A payload under the moment at which it was made.
#[derive(Debug, Clone, PartialEq)]
pub struct Timestamped<T> {
    pub timestamp: Timestamp,
    pub data: T,
}

impl<T> Timestamped<T> {
    /// The payload under the current time.
    pub fn new(data: T) -> (t: Self)
        ensures
            t.data == data,
    {
        Timestamped { timestamp: now(), data }
    }

    /// Whether the payload was made later than `other`.
    pub fn is_newer(&self, other: &Self) -> (b: bool)
        ensures
            b == self.timestamp.later_than(other.timestamp),
    {
        self.timestamp.is_after(&other.timestamp)
    }

    /// What a client keeps when a payload arrives: the payload, unless it
    /// holds one already that is not older.
    pub fn keep_latest(current: Option<Self>, arrived: Self) -> (kept: Self)
        ensures
            kept == (match current {
                Some(c) => if arrived.timestamp.later_than(c.timestamp) {
                    arrived
                } else {
                    c
                },
                None => arrived,
            }),
    {
        match current {
            Some(c) => if arrived.is_newer(&c) {
                arrived
            } else {
                c
            },
            None => arrived,
        }
    }
}

/// A state that hides the cards shows no hole card: every hand is empty or
/// hidden.
pub proof fn lemma_hidden_shows_no_card(ps: Seq<Player>, i: int)
    requires
        0 <= i < ps.len(),
    ensures
        !(shown_players(ps, false)[i].hand is Revealed),
        shown_players(ps, false)[i].hand is Hidden <==> ps[i].hand is Some,
{
}

} // verus!
