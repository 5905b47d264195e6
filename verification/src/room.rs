//! A room: the table of one game and the state machine of its hands.

use vstd::prelude::*;
use std::collections::HashSet;
use crate::card::Card;
use crate::deck::Deck;
use crate::domain::Action;
use crate::domain::ServiceRequiredAction;
use crate::error::Error;
use crate::laws::lemma_join_keeps_sound;
use crate::laws::lemma_leave_keeps_sound;
use crate::laws::lemma_leave_asks;
use crate::laws::lemma_leave_sets_turn;
use crate::laws::turn_goes_with_stage;
use crate::laws::lemma_pay_keeps_sound;
use crate::laws::lemma_proceed_keeps_chips;
use crate::laws::lemma_proceed_keeps_nested;
use crate::laws::lemma_proceed_keeps_sound;
use crate::laws::lemma_take_action_keeps_nested;
use crate::laws::may_win_last_pot;
use crate::laws::nested_so_far;
use crate::laws::lemma_proceed_sets_turn;
use crate::laws::lemma_take_action_keeps_chips;
use crate::laws::lemma_take_action_keeps_sound;
use crate::laws::sound;
use crate::laws::table_chips;
use crate::laws::turn_right;
use crate::player::fresh_id;
use crate::player::is_random_id;
use crate::player::Hand;
use crate::player::Player;
use crate::pot::merge_pots;
use crate::pot::pot_views;
use crate::pot::push_layers;
use crate::pot::Pot;
use crate::pot::Winnings;
use crate::rules::agrees;
use crate::rules::acted;
use crate::rules::all_but;
use crate::rules::all_paid;
use crate::rules::all_posted;
use crate::rules::cards_in_hand;
use crate::rules::first_win;
use crate::rules::nobody_connected;
use crate::rules::pay_pot;
use crate::rules::pay_pots;
use crate::rules::share_overflows;
use crate::rules::shares;
use crate::rules::all_readied;
use crate::rules::all_rested;
use crate::rules::drawn;
use crate::rules::first_actor;
use crate::rules::posted;
use crate::rules::readied;
use crate::rules::rested;
use crate::rules::hole_cards;
use crate::rules::in_hand;
use crate::rules::proceed_type_of;
use crate::rules::Dealing;
use crate::rules::ProceedType;
use crate::rules::RoomView;
use crate::rules::Stage;
use crate::rules::MAX_NUM_OF_PLAYERS;
use crate::seats::active_max_bet_in;
use crate::seats::can_act;
use crate::seats::count_seatable;
use crate::seats::find_seat;
use crate::seats::find_top_seat;
use crate::seats::first_seat;
use crate::seats::max_bet_in;
use crate::seats::max_bet_of;
use crate::seats::next_among_after;
use crate::seats::next_eligible_after;
use crate::seats::next_seat_after;
use crate::seats::readjust_positions;
use crate::seats::seat_after;
use crate::seats::seat_players;
use crate::seats::Seek;

verus! {

/// A room: its table, its deck and board, the pots of the hand, those who
/// wait for the next hand, and who is in turn.
#[derive(Debug)]
pub struct Room {
    pub id: u128,
    pub players: Vec<Player>,
    pub deck: Deck,
    pub community_cards: Vec<Card>,
    pub stage: Stage,
    pub pots: Vec<Pot>,
    pub player_joining_next_round: Vec<Player>,
    pub player_in_turn: Option<u128>,
}

impl View for Room {
    type V = RoomView;

    open spec fn view(&self) -> RoomView {
        RoomView {
            id: self.id,
            players: self.players@,
            deck: self.deck,
            community_cards: self.community_cards@,
            stage: self.stage,
            pots: pot_views(self.pots@),
            waiting: self.player_joining_next_round@,
            player_in_turn: self.player_in_turn,
        }
    }
}

/// An empty room under the id `id`, waiting for players.
pub open spec fn empty_room(id: u128) -> RoomView {
    RoomView {
        id,
        players: Seq::empty(),
        deck: Deck::full(),
        community_cards: Seq::empty(),
        stage: Stage::NotEnoughPlayers,
        pots: Seq::empty(),
        waiting: Seq::empty(),
        player_in_turn: None,
    }
}

fn clone_players(ps: &Vec<Player>) -> (r: Vec<Player>)
    ensures
        r@ == ps@,
{
    let mut r: Vec<Player> = Vec::new();
    let mut i: usize = 0;
    while i < ps.len()
        invariant
            i <= ps@.len(),
            r@ == ps@.take(i as int),
        decreases ps@.len() - i,
    {
        r.push(ps[i].clone());
        i += 1;
    }
    r
}

fn clone_cards(cs: &Vec<Card>) -> (r: Vec<Card>)
    ensures
        r@ == cs@,
{
    let mut r: Vec<Card> = Vec::new();
    let mut i: usize = 0;
    while i < cs.len()
        invariant
            i <= cs@.len(),
            r@ == cs@.take(i as int),
        decreases cs@.len() - i,
    {
        r.push(cs[i]);
        i += 1;
    }
    r
}

fn clone_pots(ps: &Vec<Pot>) -> (r: Vec<Pot>)
    ensures
        pot_views(r@) == pot_views(ps@),
{
    let mut r: Vec<Pot> = Vec::new();
    let mut i: usize = 0;
    while i < ps.len()
        invariant
            i <= ps@.len(),
            r@.len() == i,
            forall|j: int| 0 <= j < i ==> r@[j]@ == ps@[j]@,
        decreases ps@.len() - i,
    {
        r.push(ps[i].clone());
        i += 1;
    }
    r
}

impl Clone for Room {
    fn clone(&self) -> (r: Self)
        ensures
            r@ == self@,
    {
        Room {
            id: self.id,
            players: clone_players(&self.players),
            deck: self.deck.clone(),
            community_cards: clone_cards(&self.community_cards),
            stage: self.stage,
            pots: clone_pots(&self.pots),
            player_joining_next_round: clone_players(&self.player_joining_next_round),
            player_in_turn: self.player_in_turn,
        }
    }
}

impl Default for Room {
    fn default() -> (r: Self)
        ensures
            r@ == empty_room(r.id),
            is_random_id(r.id),
            sound(r@),
    {
        Room::new()
    }
}

impl Room {
    /// An empty room under a fresh random id.
    pub fn new() -> (r: Self)
        ensures
            r@ == empty_room(r.id),
            is_random_id(r.id),
            sound(r@),
    {
        Room::new_with_id(fresh_id())
    }

    /// An empty room under the given id.
    pub fn new_with_id(id: u128) -> (r: Self)
        ensures
            r@ == empty_room(id),
            sound(r@),
    {
        let r = Room {
            id,
            players: Vec::new(),
            deck: Deck::new(),
            community_cards: Vec::with_capacity(5),
            stage: Stage::NotEnoughPlayers,
            pots: Vec::new(),
            player_joining_next_round: Vec::new(),
            player_in_turn: None,
        };
        r
    }

    /// The largest bet on the table.
    pub fn max_bet(&self) -> (m: u32)
        ensures
            m == max_bet_of(self@.players),
    {
        max_bet_in(&self.players)
    }

    /// Whether the hand is at its showdown.
    pub fn is_showdown(&self) -> (b: bool)
        ensures
            b == self@.stage.is_showdown(),
    {
        self.stage.is_showdown()
    }

    /// The number of players, seated or waiting, who are connected and have
    /// chips. The count stops at the largest `usize`.
    pub fn player_count(&self) -> (n: usize)
        ensures
            n == (if self@.player_count() <= usize::MAX {
                self@.player_count() as int
            } else {
                usize::MAX as int
            }),
    {
        let seated = count_seatable(&self.players);
        let waiting = count_seatable(&self.player_joining_next_round);
        seated.saturating_add(waiting)
    }

    fn is_joinable(&self) -> (b: bool)
        ensures
            b == (self@.player_count() < MAX_NUM_OF_PLAYERS),
    {
        self.player_count() < MAX_NUM_OF_PLAYERS
    }

    fn reset_table(&mut self)
        ensures
            final(self)@ == old(self)@.reset_table(),
    {
        self.seat_players();
        self.pots = Vec::new();
        self.community_cards.clear();
        self.deck = Deck::new();
        self.player_in_turn = None;
    }

    fn seat_players(&mut self)
        ensures
            final(self)@ == (RoomView {
                players: crate::seats::seated(old(self)@.players, old(self)@.waiting),
                waiting: Seq::empty(),
                ..old(self)@
            }),
    {
        seat_players(&mut self.players, &mut self.player_joining_next_round);
    }

    fn proceed_type(&self) -> (t: ProceedType)
        ensures
            t == proceed_type_of(self@.players),
    {
        let ps = &self.players;
        let mut active: usize = 0;
        let mut rich: usize = 0;
        let mut first_rich: usize = 0;
        let mut all_taken = true;
        let mut level = true;
        let mut i: usize = 0;
        proof {
            reveal(Seq::filter);
        }
        while i < ps.len()
            invariant
                i <= ps@.len(),
                active <= i,
                rich <= i,
                active == ps@.take(i as int).filter(in_hand()).len(),
                rich == ps@.take(i as int).filter(can_act()).len(),
                rich == 0 ==> forall|j: int| 0 <= j < i ==> !(#[trigger] ps@[j]).eligible(),
                rich > 0 ==> first_rich < i && ps@[first_rich as int].eligible() && forall|j: int|
                    0 <= j < first_rich ==> !(#[trigger] ps@[j]).eligible(),
                all_taken == (forall|j: int|
                    0 <= j < i && (#[trigger] ps@[j]).eligible() ==> ps@[j].has_taken_turn),
                level == (forall|j: int|
                    0 <= j < i && (#[trigger] ps@[j]).eligible() ==> ps@[j].bet
                        == ps@[first_rich as int].bet),
            decreases ps@.len() - i,
        {
            proof {
                assert(ps@.take(i + 1) =~= ps@.take(i as int).push(ps@[i as int]));
                ps@.take(i as int).lemma_filter_push(ps@[i as int], in_hand());
                ps@.take(i as int).lemma_filter_push(ps@[i as int], can_act());
            }
            let p = &ps[i];
            if !p.has_folded {
                active += 1;
                if p.chips > 0 {
                    if rich == 0 {
                        first_rich = i;
                    }
                    rich += 1;
                    if !p.has_taken_turn {
                        all_taken = false;
                    }
                    if p.bet != ps[first_rich].bet {
                        level = false;
                    }
                }
            }
            i += 1;
        }
        proof {
            assert(ps@.take(i as int) =~= ps@);
            crate::seats::lemma_first_seat(ps@, Seek::CanAct, 0);
        }
        if active <= 1 {
            ProceedType::ShowdownWithoutDealing
        } else if rich == 0 {
            ProceedType::ShowdownWithDealing
        } else if rich == 1 {
            if ps[first_rich].bet == self.max_bet() {
                ProceedType::ShowdownWithDealing
            } else {
                ProceedType::NoAction
            }
        } else if all_taken && level {
            ProceedType::Normal
        } else {
            ProceedType::NoAction
        }
    }

    /// Whether the room can move on to its next stage, and how.
    pub fn can_proceed_to_next_stage(&self) -> (t: ProceedType)
        ensures
            t == self@.can_proceed(),
    {
        match self.stage {
            Stage::NotEnoughPlayers => if self.players.len() >= 2 {
                ProceedType::Normal
            } else {
                ProceedType::NoAction
            },
            Stage::Showdown(_) => ProceedType::Normal,
            _ => self.proceed_type(),
        }
    }

    /// Burns a card, then deals `cards` cards to the board.
    fn deal_street(&mut self, cards: usize) -> (r: Result<(), Error>)
        requires
            cards <= 3,
        ensures
            r is Ok <==> old(self)@.deck.remaining() >= cards + 1,
            match r {
                Ok(_) => agrees(
                    old(self)@,
                    Dealing::Board { cards: cards as nat, burned: 1 },
                    final(self)@,
                ),
                Err(e) => e == Error::EmptyDeck,
            },
    {
        if self.deck.len() < cards + 1 {
            return Err(Error::EmptyDeck);
        }
        let ghost start = self.deck;
        let ghost n0 = self.community_cards@.len() as int;
        proof {
            lemma_drawn_start(start);
        }
        let ghost mid = self.deck;
        let _burned = self.deck.draw()?;
        proof {
            lemma_drawn_burn(start, mid, self.deck, Seq::empty(), 0, _burned);
        }
        let mut i: usize = 0;
        while i < cards
            invariant
                i <= cards,
                n0 == old(self)@.community_cards.len(),
                start == old(self)@.deck,
                self.community_cards@.len() == n0 + i,
                self.community_cards@.take(n0) == old(self)@.community_cards,
                drawn(start, self.deck, self.community_cards@.skip(n0), 1),
                self.deck.remaining() + 1 + i == start.remaining(),
                start.remaining() >= cards + 1,
                self@ == (RoomView {
                    community_cards: self.community_cards@,
                    deck: self.deck,
                    ..old(self)@
                }),
            decreases cards - i,
        {
            let ghost mid = self.deck;
            let ghost board = self.community_cards@;
            let c = self.deck.draw()?;
            self.community_cards.push(c);
            proof {
                lemma_drawn_keep(start, mid, self.deck, board.skip(n0), 1, c);
                assert(self.community_cards@.skip(n0) =~= board.skip(n0).push(c));
            }
            i += 1;
        }
        Ok(())
    }

    /// Deals two hole cards to every seated player.
    fn deal_hands(&mut self) -> (r: Result<(), Error>)
        ensures
            r is Ok <==> 2 * old(self)@.players.len() <= old(self)@.deck.remaining(),
            match r {
                Ok(_) => {
                    &&& final(self)@.players.len() == old(self)@.players.len()
                    &&& forall|i: int|
                        0 <= i < old(self)@.players.len() ==> (#[trigger] final(self)@.players[i])
                            == (Player {
                            hand: final(self)@.players[i].hand,
                            ..old(self)@.players[i]
                        }) && final(self)@.players[i].hand is Some
                    &&& drawn(old(self)@.deck, final(self)@.deck, hole_cards(final(self)@.players), 0)
                    &&& final(self)@ == (RoomView {
                        players: final(self)@.players,
                        deck: final(self)@.deck,
                        ..old(self)@
                    })
                },
                Err(e) => e == Error::EmptyDeck,
            },
    {
        let n = self.players.len();
        if n > 26 || self.deck.len() < 2 * n {
            proof {
                self.deck.lemma_word();
            }
            return Err(Error::EmptyDeck);
        }
        let ghost start = self.deck;
        proof {
            lemma_drawn_start(start);
        }
        let mut i: usize = 0;
        while i < n
            invariant
                i <= n,
                n == self.players@.len(),
                n == old(self)@.players.len(),
                start == old(self)@.deck,
                2 * n <= start.remaining(),
                self.deck.remaining() + 2 * i == start.remaining(),
                forall|j: int|
                    0 <= j < i ==> (#[trigger] self.players@[j]) == (Player {
                        hand: self.players@[j].hand,
                        ..old(self)@.players[j]
                    }) && self.players@[j].hand is Some,
                forall|j: int| i <= j < n ==> self.players@[j] == old(self)@.players[j],
                drawn(start, self.deck, hole_cards(self.players@.take(i as int)), 0),
                self@ == (RoomView { players: self.players@, deck: self.deck, ..old(self)@ }),
            decreases n - i,
        {
            let ghost d0 = self.deck;
            let ghost before = self.players@;
            let a = self.deck.draw()?;
            let ghost d1 = self.deck;
            let b = self.deck.draw()?;
            self.players[i].hand = Some(Hand([a, b]));
            proof {
                let kept = hole_cards(before.take(i as int));
                lemma_drawn_keep(start, d0, d1, kept, 0, a);
                lemma_drawn_keep(start, d1, self.deck, kept.push(a), 0, b);
                let now = hole_cards(self.players@.take(i + 1));
                assert(now =~= kept.push(a).push(b));
            }
            i += 1;
        }
        assert(self.players@.take(i as int) =~= self.players@);
        Ok(())
    }

    /// Deals the cards of a street to the board, one card burned first:
    /// three on the flop, one on the turn and on the river.
    pub fn deal_community_card(&mut self, stage: Stage) -> (r: Result<(), Error>)
        ensures
            match r {
                Ok(_) => (stage is Flop || stage is Turn || stage is River) && agrees(
                    old(self)@,
                    Dealing::Board { cards: street_cards(stage), burned: 1 },
                    final(self)@,
                ),
                Err(e) => final(self)@ == old(self)@ && e == (if !(stage is Flop || stage is Turn
                    || stage is River) {
                    Error::InvalidStageToDeal
                } else {
                    Error::EmptyDeck
                }),
            },
            r is Ok <==> (stage is Flop || stage is Turn || stage is River) && old(
                self,
            )@.deck.remaining() >= street_cards(stage) + 1,
    {
        let cards: usize = match stage {
            Stage::Flop => 3,
            Stage::Turn | Stage::River => 1,
            _ => {
                return Err(Error::InvalidStageToDeal);
            },
        };
        if self.deck.len() < cards + 1 {
            return Err(Error::EmptyDeck);
        }
        self.deal_street(cards)
    }

    fn next_player_after(&self, idx: usize) -> (r: Result<u128, Error>)
        requires
            idx < self@.players.len(),
        ensures
            r == (match next_seat_after(self@.players, can_act(), idx as int) {
                None => Err::<u128, Error>(Error::NoPlayersToAct),
                Some(j) => Ok(self@.players[j].id),
            }),
    {
        match next_eligible_after(&self.players, idx) {
            None => Err(Error::NoPlayersToAct),
            Some(j) => Ok(self.players[j].id),
        }
    }

    fn player_to_act_first(&self) -> (r: Result<u128, Error>)
        ensures
            r == first_actor(self@.players, self@.stage),
    {
        let idx = match self.stage {
            Stage::PreFlop => match find_seat(&self.players, Seek::BigBlind) {
                Some(i) => i,
                None => {
                    return Err(Error::BigBlindNotFound);
                },
            },
            _ => match find_seat(&self.players, Seek::Dealer) {
                Some(i) => i,
                None => {
                    return Err(Error::DealerNotFound);
                },
            },
        };
        self.next_player_after(idx)
    }

    fn apply_binds(&mut self) -> (r: Result<(), Error>)
        requires
            forall|i: int| 0 <= i < old(self)@.players.len() ==> (#[trigger] old(self)@.players[i]).bet == 0,
        ensures
            match r {
                Ok(_) => first_seat(old(self)@.players, Seek::ShortOfBlind) is None && final(self)@
                    == (RoomView { players: all_posted(old(self)@.players), ..old(self)@ }),
                Err(e) => match first_seat(old(self)@.players, Seek::ShortOfBlind) {
                    Some(i) => e == Error::NotEnoughChips(old(self)@.players[i].name),
                    None => false,
                },
            },
    {
        match find_seat(&self.players, Seek::ShortOfBlind) {
            Some(i) => {
                return Err(Error::NotEnoughChips(self.players[i].name.clone()));
            },
            None => {},
        }
        proof {
            crate::seats::lemma_first_seat(self.players@, Seek::ShortOfBlind, 0);
        }
        let n = self.players.len();
        let mut i: usize = 0;
        while i < n
            invariant
                i <= n,
                n == self.players@.len(),
                n == old(self)@.players.len(),
                forall|j: int|
                    0 <= j < n ==> (#[trigger] old(self)@.players[j]).bet == 0 && !Seek::ShortOfBlind.hits(
                        old(self)@.players[j],
                    ),
                forall|j: int| 0 <= j < i ==> self.players@[j] == posted(old(self)@.players[j]),
                forall|j: int| i <= j < n ==> self.players@[j] == old(self)@.players[j],
                self@ == (RoomView { players: self.players@, ..old(self)@ }),
            decreases n - i,
        {
            let blind = self.players[i].position.exec_blind();
            self.players[i].bet = blind;
            self.players[i].chips -= blind;
            i += 1;
        }
        Ok(())
    }

    fn ready_players(&mut self)
        ensures
            final(self)@ == (RoomView { players: all_readied(old(self)@.players), ..old(self)@ }),
    {
        let n = self.players.len();
        let mut i: usize = 0;
        while i < n
            invariant
                i <= n,
                n == self.players@.len(),
                n == old(self)@.players.len(),
                forall|j: int| 0 <= j < i ==> self.players@[j] == readied(old(self)@.players[j]),
                forall|j: int| i <= j < n ==> self.players@[j] == old(self)@.players[j],
                self@ == (RoomView { players: self.players@, ..old(self)@ }),
            decreases n - i,
        {
            self.players[i].bet = 0;
            self.players[i].has_folded = false;
            self.players[i].has_taken_turn = false;
            i += 1;
        }
    }

    fn rest_players(&mut self)
        ensures
            final(self)@ == (RoomView { players: all_rested(old(self)@.players), ..old(self)@ }),
    {
        let n = self.players.len();
        let mut i: usize = 0;
        while i < n
            invariant
                i <= n,
                n == self.players@.len(),
                n == old(self)@.players.len(),
                forall|j: int| 0 <= j < i ==> self.players@[j] == rested(old(self)@.players[j]),
                forall|j: int| i <= j < n ==> self.players@[j] == old(self)@.players[j],
                self@ == (RoomView { players: self.players@, ..old(self)@ }),
            decreases n - i,
        {
            self.players[i].has_taken_turn = false;
            self.players[i].bet = 0;
            self.players[i].last_action = None;
            i += 1;
        }
    }

    fn start_hand(&mut self) -> (r: Result<(), Error>)
        ensures
            match r {
                Ok(_) => old(self)@.start_game() is Ok && agrees(
                    old(self)@.start_game().unwrap(),
                    Dealing::Hands,
                    final(self)@,
                ),
                Err(e) => old(self)@.start_game() == Err::<RoomView, Error>(e),
            },
    {
        self.reset_table();
        let n = self.players.len();
        if n > 26 {
            return Err(Error::EmptyDeck);
        }
        if n == 0 {
            return Err(Error::NoPlayers);
        }
        self.ready_players();
        let d = find_top_seat(&self.players);
        let next = if self.players[d].position.is_dealer() {
            seat_after(d, n)
        } else {
            d
        };
        readjust_positions(&mut self.players, next);
        self.apply_binds()?;
        let id = self.player_to_act_first()?;
        self.player_in_turn = Some(id);
        proof {
            Deck::lemma_full();
        }
        self.deal_hands()
    }

    /// Starts a hand: the table is cleared and seated anew, every player is
    /// dealt two cards, the dealer moves on one seat, the blinds are posted
    /// and the first player is in turn.
    pub fn start_game(&mut self) -> (r: Result<(), Error>)
        ensures
            match r {
                Ok(_) => old(self)@.start_game() is Ok && agrees(
                    old(self)@.start_game().unwrap(),
                    Dealing::Hands,
                    final(self)@,
                ),
                Err(e) => old(self)@.start_game() == Err::<RoomView, Error>(e) && final(self)@
                    == old(self)@,
            },
    {
        let backup = self.clone();
        let r = self.start_hand();
        if r.is_err() {
            *self = backup;
        }
        r
    }

    fn setup_stage(&mut self) -> (r: Result<ServiceRequiredAction, Error>)
        ensures
            step_done(old(self)@.setup_stage(), r, final(self)@),
    {
        match self.stage {
            Stage::NotEnoughPlayers => {
                self.reset_table();
                Ok(ServiceRequiredAction::NoAction)
            },
            Stage::PreFlop => {
                self.start_hand()?;
                Ok(ServiceRequiredAction::PlayerReceiveCards)
            },
            Stage::Flop => self.setup_street(3),
            Stage::Turn => self.setup_street(1),
            Stage::River => self.setup_street(1),
            Stage::Showdown(true) => {
                let n = self.community_cards.len();
                if n != 0 && n != 3 && n != 4 && n != 5 {
                    return Err(Error::InvalidCommunityCards);
                }
                let needed: usize = if n == 0 {
                    8
                } else if n == 3 {
                    4
                } else if n == 4 {
                    2
                } else {
                    0
                };
                if self.deck.len() < needed {
                    return Err(Error::EmptyDeck);
                }
                self.player_in_turn = None;
                let ghost plan = self@;
                if n == 0 {
                    self.deal_street(3)?;
                    let ghost mid = self@;
                    self.deal_street(1)?;
                    proof {
                        lemma_board_then(plan, mid, self@, 3, 1, 1, 1);
                    }
                    let ghost mid2 = self@;
                    self.deal_street(1)?;
                    proof {
                        lemma_board_then(plan, mid2, self@, 4, 2, 1, 1);
                    }
                } else if n == 3 {
                    self.deal_street(1)?;
                    let ghost mid = self@;
                    self.deal_street(1)?;
                    proof {
                        lemma_board_then(plan, mid, self@, 1, 1, 1, 1);
                    }
                } else if n == 4 {
                    self.deal_street(1)?;
                }
                Ok(ServiceRequiredAction::FindWinners)
            },
            Stage::Showdown(false) => {
                self.player_in_turn = None;
                Ok(ServiceRequiredAction::FindWinners)
            },
        }
    }

    fn setup_street(&mut self, cards: usize) -> (r: Result<ServiceRequiredAction, Error>)
        requires
            cards <= 3,
        ensures
            step_done(old(self)@.street(cards as nat), r, final(self)@),
    {
        if self.deck.len() < cards + 1 {
            return Err(Error::EmptyDeck);
        }
        let id = self.player_to_act_first()?;
        self.player_in_turn = Some(id);
        self.deal_street(cards)?;
        Ok(ServiceRequiredAction::NoAction)
    }

    fn end_stage(&mut self) -> (r: Result<(), Error>)
        ensures
            match r {
                Ok(_) => old(self)@.end_stage() == Ok::<RoomView, Error>(final(self)@),
                Err(e) => old(self)@.end_stage() == Err::<RoomView, Error>(e),
            },
    {
        if !self.stage.exec_is_betting() {
            return Ok(());
        }
        push_layers(&self.players, &mut self.pots)?;
        let m = merge_pots(&self.pots)?;
        self.pots = m;
        self.rest_players();
        Ok(())
    }

    fn proceed_to_next_stage(&mut self, how: ProceedType) -> (r: Result<(), Error>)
        requires
            how.can_proceed(),
        ensures
            match r {
                Ok(_) => old(self)@.advance(how) == Ok::<RoomView, Error>(final(self)@),
                Err(e) => old(self)@.advance(how) == Err::<RoomView, Error>(e),
            },
    {
        self.end_stage()?;
        match how {
            ProceedType::ShowdownWithoutDealing => {
                self.stage = Stage::Showdown(false);
                return Ok(());
            },
            ProceedType::ShowdownWithDealing => {
                self.stage = Stage::Showdown(true);
                return Ok(());
            },
            _ => {},
        }
        match self.stage {
            Stage::Showdown(_) => {
                self.seat_players();
                if self.players.len() >= 2 {
                    self.stage = Stage::PreFlop
                } else {
                    self.stage = Stage::NotEnoughPlayers
                }
            },
            Stage::NotEnoughPlayers => self.stage = Stage::PreFlop,
            Stage::PreFlop => self.stage = Stage::Flop,
            Stage::Flop => self.stage = Stage::Turn,
            Stage::Turn => self.stage = Stage::River,
            Stage::River => self.stage = Stage::Showdown(true),
        }
        Ok(())
    }

    fn pass_turn(&mut self) -> (r: Result<(), Error>)
        ensures
            match r {
                Ok(_) => old(self)@.pass_turn() == Ok::<RoomView, Error>(final(self)@),
                Err(e) => old(self)@.pass_turn() == Err::<RoomView, Error>(e),
            },
    {
        let id = match self.player_in_turn {
            Some(id) => id,
            None => {
                return Err(Error::PlayerNotFound);
            },
        };
        let idx = match find_seat(&self.players, Seek::Id(id)) {
            Some(i) => i,
            None => {
                return Err(Error::PlayerNotFound);
            },
        };
        let next = self.next_player_after(idx)?;
        self.player_in_turn = Some(next);
        Ok(())
    }

    fn step(&mut self) -> (r: Result<ServiceRequiredAction, Error>)
        ensures
            step_done(old(self)@.proceed(), r, final(self)@),
    {
        let how = self.can_proceed_to_next_stage();
        if how.can_proceed() {
            self.proceed_to_next_stage(how)?;
            self.setup_stage()
        } else if self.stage == Stage::NotEnoughPlayers {
            Ok(ServiceRequiredAction::NoAction)
        } else {
            self.pass_turn()?;
            Ok(ServiceRequiredAction::NoAction)
        }
    }

    /// One step of the state machine: where the round is over, the room
    /// moves to its next stage and sets it up; else the turn passes to the
    /// next player who can act. A refused step leaves the room as it was.
    pub fn proceed(&mut self) -> (r: Result<ServiceRequiredAction, Error>)
        ensures
            step_done(old(self)@.proceed(), r, final(self)@),
            r is Err ==> final(self)@ == old(self)@,
            sound(old(self)@) ==> sound(final(self)@),
            r is Ok && (old(self)@.stage is NotEnoughPlayers ==> old(self)@.player_in_turn is None)
                ==> turn_right(final(self)@),
            old(self)@.stage.is_betting() ==> table_chips(final(self)@) == table_chips(old(self)@),
            r is Ok && old(self)@.stage.is_betting() && nested_so_far(old(self)@) ==> nested_so_far(
                final(self)@,
            ),
    {
        let backup = self.clone();
        let r = self.step();
        if r.is_err() {
            *self = backup;
        }
        proof {
            if r is Ok {
                if sound(old(self)@) {
                    lemma_proceed_keeps_sound(old(self)@, self@);
                }
                if old(self)@.stage is NotEnoughPlayers ==> old(self)@.player_in_turn is None {
                    lemma_proceed_sets_turn(old(self)@, self@);
                }
                if old(self)@.stage.is_betting() {
                    lemma_proceed_keeps_chips(old(self)@, self@);
                    if nested_so_far(old(self)@) {
                        lemma_proceed_keeps_nested(old(self)@, self@);
                    }
                }
            }
        }
        r
    }

    fn act_and_step(&mut self, player_id: u128, action: Action) -> (r: Result<
        ServiceRequiredAction,
        Error,
    >)
        ensures
            step_done(old(self)@.take_action(player_id, action), r, final(self)@),
    {
        match self.player_in_turn {
            Some(id) => {
                if id != player_id {
                    return Err(Error::NotPlayersTurn);
                }
            },
            None => {
                return Err(Error::NotPlayersTurn);
            },
        }
        let max_bet = active_max_bet_in(&self.players);
        let idx = match find_seat(&self.players, Seek::Id(player_id)) {
            Some(i) => i,
            None => {
                return Err(Error::PlayerNotFound);
            },
        };
        act(&mut self.players[idx], action, max_bet)?;
        self.step()
    }

    /// An action of the player in turn, and the step of the state machine
    /// that follows it. A refused action leaves the room as it was.
    pub fn take_action(&mut self, player_id: u128, action: Action) -> (r: Result<
        ServiceRequiredAction,
        Error,
    >)
        ensures
            step_done(old(self)@.take_action(player_id, action), r, final(self)@),
            r is Err ==> final(self)@ == old(self)@,
            sound(old(self)@) ==> sound(final(self)@),
            r is Ok && !(old(self)@.stage is NotEnoughPlayers) ==> turn_right(final(self)@),
            r is Ok && old(self)@.stage.is_betting() && nested_so_far(old(self)@)
                && may_win_last_pot(old(self)@, player_id) ==> nested_so_far(final(self)@),
            old(self)@.stage.is_betting() ==> table_chips(final(self)@) == table_chips(old(self)@),
    {
        let backup = self.clone();
        let r = self.act_and_step(player_id, action);
        if r.is_err() {
            *self = backup;
        }
        proof {
            if r is Ok {
                if sound(old(self)@) {
                    lemma_take_action_keeps_sound(old(self)@, player_id, action, self@);
                }
                if !(old(self)@.stage is NotEnoughPlayers) {
                    lemma_proceed_sets_turn(
                        old(self)@.after_action(player_id, action).unwrap(),
                        self@,
                    );
                }
                if old(self)@.stage.is_betting() {
                    lemma_take_action_keeps_chips(old(self)@, player_id, action, self@);
                    if nested_so_far(old(self)@) && may_win_last_pot(old(self)@, player_id) {
                        lemma_take_action_keeps_nested(old(self)@, player_id, action, self@);
                    }
                }
            }
        }
        r
    }

    /// A player joins the room: at the table while the room waits for
    /// players, on the waiting list while a hand is on. A full room refuses.
    pub fn join_player(&mut self, player: Player) -> (r: Result<ServiceRequiredAction, Error>)
        ensures
            step_done(old(self)@.join_player(player), r, final(self)@),
            r is Err ==> final(self)@ == old(self)@,
            sound(old(self)@) ==> sound(final(self)@),
    {
        if !self.is_joinable() {
            return Err(Error::RoomIsFull);
        }
        match self.stage {
            Stage::NotEnoughPlayers => {
                let backup = self.clone();
                self.players.push(player);
                let r = self.step();
                if r.is_err() {
                    *self = backup;
                }
                proof {
                    if r is Ok && sound(old(self)@) {
                        lemma_join_keeps_sound(old(self)@, player, self@);
                    }
                }
                r
            },
            _ => {
                self.player_joining_next_round.push(player);
                proof {
                    if sound(old(self)@) {
                        lemma_join_keeps_sound(old(self)@, player, self@);
                    }
                }
                Ok(ServiceRequiredAction::NoAction)
            },
        }
    }

    fn call_off(&mut self)
        ensures
            final(self)@ == old(self)@.called_off(),
    {
        self.reset_table();
        std::mem::swap(&mut self.players, &mut self.player_joining_next_round);
        self.stage = Stage::NotEnoughPlayers;
    }

    /// A player leaves the room, and the room takes the step that follows
    /// from it. They are out of the hand and no longer connected. When
    /// nobody at the table is connected any more, the hand is called off:
    /// the room waits for players, with no pots, no board, a full deck and
    /// nobody in turn, and those who can play wait for the next hand. When
    /// the player was in turn in a round of betting, the turn passes on or
    /// the hand moves on to its next stage; a hand that cannot do so is
    /// called off. Returns the chips that the player takes along, and what
    /// the step asks of the service.
    pub fn leave_and_step(&mut self, player_id: u128) -> (r: (u32, ServiceRequiredAction))
        ensures
            r.0 == old(self)@.chips_of(player_id),
            r.1 == old(self)@.leave_player(player_id).1,
            r.1 == old(self)@.asked_by_leave(final(self)@),
            agrees(
                old(self)@.leave_player(player_id).0,
                old(self)@.leave_player(player_id).2,
                final(self)@,
            ),
            sound(old(self)@) ==> sound(final(self)@),
            old(self)@.leaves_in_turn(player_id) ==> turn_right(final(self)@),
            turn_goes_with_stage(old(self)@) ==> turn_goes_with_stage(final(self)@),
            nobody_connected(all_but(old(self)@.players, player_id)) ==> sound(final(self)@),
    {
        let chips = match find_seat(&self.players, Seek::Id(player_id)) {
            Some(i) => self.players[i].chips,
            None => match find_seat(&self.player_joining_next_round, Seek::Id(player_id)) {
                Some(i) => self.player_joining_next_round[i].chips,
                None => 0,
            },
        };
        mark_gone(&mut self.players, player_id);
        mark_gone(&mut self.player_joining_next_round, player_id);
        let in_turn = match self.player_in_turn {
            Some(id) => id == player_id,
            None => false,
        };
        proof {
            reveal(RoomView::step_or_call_off);
        }
        let asked = if nobody_connected_in(&self.players) {
            self.call_off();
            ServiceRequiredAction::NoAction
        } else if in_turn && self.stage.exec_is_betting() {
            match self.proceed() {
                Ok(a) => a,
                Err(_) => {
                    self.call_off();
                    ServiceRequiredAction::NoAction
                },
            }
        } else {
            ServiceRequiredAction::NoAction
        };
        proof {
            lemma_leave_sets_turn(old(self)@, player_id, self@);
            lemma_leave_asks(old(self)@, player_id, self@);
            if sound(old(self)@) {
                lemma_leave_keeps_sound(old(self)@, player_id, self@);
            }
        }
        (chips, asked)
    }

    /// A player leaves the room: `leave_and_step`, without what the step
    /// asks of the service, which the caller reads from the stages: where
    /// the leave has brought the hand from a round of betting to its
    /// showdown, the winners are to be found and paid, and nothing else is
    /// ever asked. Returns the chips that the player takes along.
    pub fn leave_player(&mut self, player_id: u128) -> (chips: u32)
        ensures
            chips == old(self)@.chips_of(player_id),
            agrees(
                old(self)@.leave_player(player_id).0,
                old(self)@.leave_player(player_id).2,
                final(self)@,
            ),
            old(self)@.leave_player(player_id).1 == old(self)@.asked_by_leave(final(self)@),
            sound(old(self)@) ==> sound(final(self)@),
            old(self)@.leaves_in_turn(player_id) ==> turn_right(final(self)@),
            turn_goes_with_stage(old(self)@) ==> turn_goes_with_stage(final(self)@),
            nobody_connected(all_but(old(self)@.players, player_id)) ==> sound(final(self)@),
    {
        let (chips, _) = self.leave_and_step(player_id);
        chips
    }

    /// The winner of the odd chips of a pot: the first of `player_ids`
    /// after the dealer, round the table.
    pub fn closest_to_dealer(&self, player_ids: &HashSet<u128>) -> (r: Result<u128, Error>)
        ensures
            r == self@.closest_to_dealer(player_ids@),
    {
        let dealer = match find_seat(&self.players, Seek::Dealer) {
            Some(d) => d,
            None => {
                return Err(Error::DealerNotFound);
            },
        };
        match next_among_after(&self.players, dealer, player_ids) {
            None => Err(Error::NoPlayersFound),
            Some(j) => Ok(self.players[j].id),
        }
    }

    /// The cards of every player who is in the hand: their hole cards, then
    /// the board.
    pub fn players_cards(&self) -> (r: Vec<(u128, Vec<Card>)>)
        ensures
            card_lists(r@) == self@.players_cards(),
    {
        let mut r: Vec<(u128, Vec<Card>)> = Vec::new();
        let mut i: usize = 0;
        while i < self.players.len()
            invariant
                i <= self.players@.len(),
                card_lists(r@) == cards_in_hand(
                    self.players@.take(i as int),
                    self.community_cards@,
                ),
            decreases self.players@.len() - i,
        {
            assert(self.players@.take(i + 1).drop_last() =~= self.players@.take(i as int));
            if !self.players[i].has_folded {
                let mut cards: Vec<Card> = Vec::new();
                match self.players[i].hand {
                    Some(h) => {
                        cards.push(h.0[0]);
                        cards.push(h.0[1]);
                        assert(cards@ =~= h.0@);
                    },
                    None => {},
                }
                let ghost own = cards@;
                let mut k: usize = 0;
                while k < self.community_cards.len()
                    invariant
                        k <= self.community_cards@.len(),
                        cards@ == own + self.community_cards@.take(k as int),
                    decreases self.community_cards@.len() - k,
                {
                    cards.push(self.community_cards[k]);
                    k += 1;
                }
                assert(self.community_cards@.take(k as int) =~= self.community_cards@);
                r.push((self.players[i].id, cards));
            }
            i += 1;
        }
        assert(self.players@.take(i as int) =~= self.players@);
        r
    }

    /// Pays the pots out. Each pot is split evenly among its winners who
    /// are seated; the odd chips go to the winner closest to the dealer,
    /// clockwise. Returns the payouts of each pot. A refused payout leaves
    /// the room as it was.
    pub fn split_pot(&mut self, winners: Vec<(u32, HashSet<u128>)>) -> (r: Result<
        Vec<Vec<Winnings>>,
        Error,
    >)
        ensures
            match r {
                Ok(outs) => pay_pots(old(self)@.players, winner_sets(winners@)) == Ok::<
                    (Seq<Player>, Seq<Seq<Winnings>>),
                    Error,
                >((final(self)@.players, payout_lists(outs@))) && final(self)@ == (RoomView {
                    players: final(self)@.players,
                    ..old(self)@
                }),
                Err(e) => pay_pots(old(self)@.players, winner_sets(winners@)) == Err::<
                    (Seq<Player>, Seq<Seq<Winnings>>),
                    Error,
                >(e) && final(self)@ == old(self)@,
            },
            sound(old(self)@) ==> sound(final(self)@),
    {
        proof {
            if sound(old(self)@) && pay_pots(old(self)@.players, winner_sets(winners@)) is Ok {
                lemma_pay_keeps_sound(old(self)@, winner_sets(winners@));
            }
        }
        let backup = clone_players(&self.players);
        let mut outs: Vec<Vec<Winnings>> = Vec::new();
        let mut i: usize = 0;
        let ghost all = winner_sets(winners@);
        assert(payout_lists(outs@) =~= Seq::<Seq<Winnings>>::empty());
        while i < winners.len()
            invariant
                i <= winners@.len(),
                all == winner_sets(winners@),
                backup@ == old(self)@.players,
                pay_pots(old(self)@.players, all.take(i as int)) == Ok::<
                    (Seq<Player>, Seq<Seq<Winnings>>),
                    Error,
                >((self@.players, payout_lists(outs@))),
                self@ == (RoomView { players: self@.players, ..old(self)@ }),
            decreases winners@.len() - i,
        {
            proof {
                assert(all.take(i + 1).drop_last() =~= all.take(i as int));
            }
            let ghost before = outs@;
            match pay_one(&mut self.players, winners[i].0, &winners[i].1) {
                Err(e) => {
                    proof {
                        lemma_pay_pots_fails(old(self)@.players, all, i + 1);
                    }
                    self.players = backup;
                    return Err(e);
                },
                Ok(wins) => {
                    let ghost list = wins@;
                    outs.push(wins);
                    assert(payout_lists(outs@) =~= payout_lists(before).push(list));
                },
            }
            i += 1;
        }
        assert(all.take(i as int) =~= all);
        Ok(outs)
    }

}

/// The number of cards that a street brings to the board.
pub open spec fn street_cards(stage: Stage) -> nat {
    if stage is Flop {
        3
    } else {
        1
    }
}

/// Nothing drawn: the deck is as it was.
pub proof fn lemma_drawn_start(d: Deck)
    ensures
        drawn(d, d, Seq::<Card>::empty(), 0),
{
}

/// One more card drawn and kept.
pub proof fn lemma_drawn_keep(
    before: Deck,
    mid: Deck,
    after: Deck,
    kept: Seq<Card>,
    burned: nat,
    c: Card,
)
    requires
        drawn(before, mid, kept, burned),
        mid.holds(c),
        forall|x: Card| after.holds(x) == (mid.holds(x) && x != c),
        after.remaining() + 1 == mid.remaining(),
    ensures
        drawn(before, after, kept.push(c), burned),
{
    let next = kept.push(c);
    assert forall|x: Card| next.contains(x) == (kept.contains(x) || x == c) by {
        if kept.contains(x) {
            let i = choose|i: int| 0 <= i < kept.len() && kept[i] == x;
            assert(next[i] == x);
        }
        if x == c {
            assert(next[kept.len() as int] == c);
        }
    }
}

/// One more card drawn and burned.
pub proof fn lemma_drawn_burn(
    before: Deck,
    mid: Deck,
    after: Deck,
    kept: Seq<Card>,
    burned: nat,
    c: Card,
)
    requires
        drawn(before, mid, kept, burned),
        mid.holds(c),
        forall|x: Card| after.holds(x) == (mid.holds(x) && x != c),
        after.remaining() + 1 == mid.remaining(),
    ensures
        drawn(before, after, kept, burned + 1),
{
}

/// Cards drawn after cards drawn.
pub proof fn lemma_drawn_then(
    a: Deck,
    b: Deck,
    c: Deck,
    k1: Seq<Card>,
    b1: nat,
    k2: Seq<Card>,
    b2: nat,
)
    requires
        drawn(a, b, k1, b1),
        drawn(b, c, k2, b2),
    ensures
        drawn(a, c, k1 + k2, b1 + b2),
{
    let all = k1 + k2;
    assert forall|x: Card| all.contains(x) == (k1.contains(x) || k2.contains(x)) by {
        if k1.contains(x) {
            let i = choose|i: int| 0 <= i < k1.len() && k1[i] == x;
            assert(all[i] == x);
        }
        if k2.contains(x) {
            let i = choose|i: int| 0 <= i < k2.len() && k2[i] == x;
            assert(all[k1.len() + i] == x);
        }
    }
}

/// The result `r` and the room `got` are what the rules `plan` ask for:
/// the same verdict, and on success the room of the rules with the cards
/// that were dealt.
pub open spec fn step_done(
    plan: Result<(RoomView, ServiceRequiredAction, Dealing), Error>,
    r: Result<ServiceRequiredAction, Error>,
    got: RoomView,
) -> bool {
    match plan {
        Ok((room, action, dealing)) => r == Ok::<ServiceRequiredAction, Error>(action) && agrees(
            room,
            dealing,
            got,
        ),
        Err(e) => r == Err::<ServiceRequiredAction, Error>(e),
    }
}

/// Cards dealt to the board after cards dealt to the board.
pub proof fn lemma_board_then(
    plan: RoomView,
    mid: RoomView,
    got: RoomView,
    c1: nat,
    b1: nat,
    c2: nat,
    b2: nat,
)
    requires
        agrees(plan, Dealing::Board { cards: c1, burned: b1 }, mid),
        agrees(mid, Dealing::Board { cards: c2, burned: b2 }, got),
    ensures
        agrees(plan, Dealing::Board { cards: c1 + c2, burned: b1 + b2 }, got),
{
    let n0 = plan.community_cards.len() as int;
    let n1 = mid.community_cards.len() as int;
    assert(got.community_cards.take(n0) =~= got.community_cards.take(n1).take(n0));
    assert(got.community_cards.skip(n0) =~= mid.community_cards.skip(n0) + got.community_cards.skip(
        n1,
    ));
    lemma_drawn_then(
        plan.deck,
        mid.deck,
        got.deck,
        mid.community_cards.skip(n0),
        b1,
        got.community_cards.skip(n1),
        b2,
    );
}

/// The lists of cards as values.
pub open spec fn card_lists(v: Seq<(u128, Vec<Card>)>) -> Seq<(u128, Seq<Card>)> {
    Seq::new(v.len(), |i: int| (v[i].0, v[i].1@))
}

/// The winners of the pots as values: for each pot its chips and the ids
/// that win it.
pub open spec fn winner_sets(v: Seq<(u32, HashSet<u128>)>) -> Seq<(u32, Set<u128>)> {
    Seq::new(v.len(), |i: int| (v[i].0, v[i].1@))
}

/// The payouts of the pots as values.
pub open spec fn payout_lists(v: Seq<Vec<Winnings>>) -> Seq<Seq<Winnings>> {
    Seq::new(v.len(), |i: int| v[i]@)
}

/// Where the payout of the first `i` pots is refused, so is the payout of
/// all of them, for the same reason.
pub proof fn lemma_pay_pots_fails(ps: Seq<Player>, winners: Seq<(u32, Set<u128>)>, i: int)
    requires
        0 <= i <= winners.len(),
        pay_pots(ps, winners.take(i)) is Err,
    ensures
        pay_pots(ps, winners) == pay_pots(ps, winners.take(i)),
    decreases winners.len() - i,
{
    if i < winners.len() {
        assert(winners.take(i + 1).drop_last() =~= winners.take(i));
        lemma_pay_pots_fails(ps, winners, i + 1);
    } else {
        assert(winners.take(i) =~= winners);
    }
}

/// The player in turn acts, against the largest bet of the players in the
/// hand.
pub fn act(p: &mut Player, action: Action, max_bet: u32) -> (r: Result<(), Error>)
    ensures
        match r {
            Ok(_) => acted(*old(p), action, max_bet) == Ok::<Player, Error>(*final(p)),
            Err(e) => acted(*old(p), action, max_bet) == Err::<Player, Error>(e) && *final(p)
                == *old(p),
        },
{
    match action {
        Action::Fold => {
            p.has_folded = true;
        },
        Action::Check => {
            if p.bet < max_bet {
                return Err(Error::MustCallOrRaise);
            }
        },
        Action::Call => {
            let amount = if max_bet > p.bet {
                max_bet - p.bet
            } else {
                0
            };
            p.bet_amount(amount)?;
        },
        Action::Raise(amount) => {
            if (amount as u64) + (p.bet as u64) < max_bet as u64 {
                return Err(Error::InvalidRaiseAmount);
            }
            p.bet_amount(amount)?;
        },
        Action::AllIn => {
            let all = p.chips;
            p.bet_amount(all)?;
        },
    }
    p.last_action = Some(action);
    p.has_taken_turn = true;
    Ok(())
}

fn mark_gone(ps: &mut Vec<Player>, id: u128)
    ensures
        final(ps)@ == all_but(old(ps)@, id),
{
    let n = ps.len();
    let mut i: usize = 0;
    while i < n
        invariant
            i <= n,
            n == ps@.len(),
            n == old(ps)@.len(),
            forall|j: int| 0 <= j < i ==> ps@[j] == all_but(old(ps)@, id)[j],
            forall|j: int| i <= j < n ==> ps@[j] == old(ps)@[j],
        decreases n - i,
    {
        if ps[i].id == id {
            ps[i].is_connected = false;
            ps[i].has_folded = true;
        }
        i += 1;
    }
}

fn nobody_connected_in(ps: &Vec<Player>) -> (b: bool)
    ensures
        b == nobody_connected(ps@),
{
    let mut i: usize = 0;
    while i < ps.len()
        invariant
            i <= ps@.len(),
            forall|j: int| 0 <= j < i ==> !(#[trigger] ps@[j]).is_connected,
        decreases ps@.len() - i,
    {
        if ps[i].is_connected {
            return false;
        }
        i += 1;
    }
    true
}

/// Pays one pot out.
pub fn pay_one(ps: &mut Vec<Player>, amount: u32, ids: &HashSet<u128>) -> (r: Result<
    Vec<Winnings>,
    Error,
>)
    ensures
        match r {
            Ok(wins) => pay_pot(old(ps)@, amount, ids@) == Ok::<(Seq<Player>, Seq<Winnings>), Error>(
                (final(ps)@, wins@),
            ),
            Err(e) => pay_pot(old(ps)@, amount, ids@) == Err::<(Seq<Player>, Seq<Winnings>), Error>(
                e,
            ) && final(ps)@ == old(ps)@,
        },
{
    broadcast use vstd::std_specs::hash::group_hash_axioms;

    let count = ids.len();
    if count == 0 {
        return Err(Error::NoWinners);
    }
    proof {
        let a = amount as int;
        let c = count as int;
        vstd::arithmetic::div_mod::lemma_fundamental_div_mod(a, c);
    }
    let share: u32 = ((amount as u64) / (count as u64)) as u32;
    let odd: u32 = ((amount as u64) % (count as u64)) as u32;
    let n = ps.len();
    let mut i: usize = 0;
    while i < n
        invariant
            i <= n,
            n == ps@.len(),
            ps@ == old(ps)@,
            ids@.len() != 0,
            share == (amount as nat / ids@.len()) as u32,
            forall|j: int|
                0 <= j < i && ids@.contains((#[trigger] ps@[j]).id) ==> ps@[j].chips + share
                    <= u32::MAX,
        decreases n - i,
    {
        if ids.contains(&ps[i].id) && ps[i].chips > u32::MAX - share {
            return Err(Error::AmountOverflow);
        }
        i += 1;
    }
    let dealer = match find_seat(ps, Seek::Dealer) {
        Some(d) => d,
        None => {
            return Err(Error::DealerNotFound);
        },
    };
    let closest = match next_among_after(ps, dealer, ids) {
        Some(j) => j,
        None => {
            return Err(Error::NoPlayersFound);
        },
    };
    let lucky = ps[closest].id;
    proof {
        crate::seats::lemma_first_seat(ps@, Seek::Id(lucky), 0);
    }
    let k = match find_seat(ps, Seek::Id(lucky)) {
        Some(k) => k,
        None => {
            return Err(Error::PlayerNotFound);
        },
    };
    if ps[k].chips + share > u32::MAX - odd {
        return Err(Error::AmountOverflow);
    }
    let mut wins: Vec<Winnings> = Vec::new();
    let mut i: usize = 0;
    while i < n
        invariant
            i <= n,
            n == ps@.len(),
            wins@ == shares(ps@.take(i as int), ids@, share),
        decreases n - i,
    {
        assert(ps@.take(i + 1).drop_last() =~= ps@.take(i as int));
        if ids.contains(&ps[i].id) {
            wins.push(Winnings { player: ps[i].id, amount: share });
        }
        i += 1;
    }
    assert(ps@.take(i as int) =~= ps@);
    let mut i: usize = 0;
    while i < n
        invariant
            i <= n,
            n == ps@.len(),
            n == old(ps)@.len(),
            !share_overflows(old(ps)@, ids@, share),
            forall|j: int| 0 <= j < i ==> ps@[j] == all_paid(old(ps)@, ids@, share)[j],
            forall|j: int| i <= j < n ==> ps@[j] == old(ps)@[j],
        decreases n - i,
    {
        if ids.contains(&ps[i].id) {
            ps[i].chips += share;
        }
        i += 1;
    }
    assert(ps@ =~= all_paid(old(ps)@, ids@, share));
    ps[k].chips += odd;
    let mut w: usize = 0;
    while w < wins.len()
        invariant
            w <= wins@.len(),
            first_win(wins@, lucky, 0) == first_win(wins@, lucky, w as int),
        ensures
            w <= wins@.len(),
            first_win(wins@, lucky, 0) == w,
        decreases wins@.len() - w,
    {
        if wins[w].player == lucky {
            break;
        }
        w += 1;
    }
    let ghost plain = wins@;
    if w < wins.len() {
        wins[w].player = lucky;
        wins[w].amount = share + odd;
        assert(wins@ =~= plain.update(
            w as int,
            Winnings { player: lucky, amount: (share + odd) as u32 },
        ));
    }
    Ok(wins)
}

} // verus!
