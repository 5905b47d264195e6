//! What holds of every room that the state machine reaches: the chips of a
//! hand are conserved, the table has one dealer, the turn and the board go
//! with the stage, and leaving twice is leaving once.

use vstd::prelude::*;
use crate::domain::Action;
use crate::domain::ServiceRequiredAction;
use crate::player::Player;
use crate::pot::bets_above;
use crate::pot::ids_at_least;
use crate::pot::layers;
use crate::pot::lemma_ids_at_least;
use crate::pot::lemma_layers;
use crate::pot::lemma_merged;
use crate::pot::lemma_pots_total_concat;
use crate::pot::pots_nested;
use crate::pot::pots_total;
use crate::pot::PotView;
use crate::room::empty_room;
use crate::rules::acted;
use crate::rules::agrees;
use crate::rules::all_but;
use crate::rules::all_posted;
use crate::rules::all_readied;
use crate::rules::all_rested;
use crate::rules::first_actor;
use crate::rules::gone;
use crate::rules::nobody_connected;
use crate::rules::Dealing;
use crate::rules::RoomView;
use crate::rules::Stage;
use crate::seats::can_act;
use crate::seats::first_seat;
use crate::seats::keep_seatable;
use crate::seats::lemma_first_seat;
use crate::seats::lemma_round_from;
use crate::seats::lemma_round_finds;
use crate::seats::seat_offset;
use crate::seats::seat_position;
use crate::player::Position;
use crate::pot::merged;
use crate::seats::lemma_seated;
use crate::seats::lemma_top_seat;
use crate::seats::next_dealer;
use crate::seats::next_seat_after;
use crate::seats::seated;
use crate::seats::with_positions;
use crate::seats::wrap;
use crate::seats::Seek;

verus! {

/// The chips in the stacks of the players.
pub open spec fn stacks(ps: Seq<Player>) -> int
    decreases ps.len(),
{
    if ps.len() == 0 {
        0
    } else {
        stacks(ps.drop_last()) + ps.last().chips
    }
}

/// The chips on the table: the stacks and the bets of the seated players,
/// and the pots.
pub open spec fn table_chips(v: RoomView) -> int {
    stacks(v.players) + bets_above(v.players, 0) + pots_total(v.pots)
}

/// Exactly one seat holds the dealer.
pub open spec fn one_dealer(ps: Seq<Player>) -> bool {
    exists|d: int|
        0 <= d < ps.len() && (#[trigger] ps[d]).position.is_dealer() && forall|j: int|
            0 <= j < ps.len() && j != d ==> !(#[trigger] ps[j]).position.is_dealer()
}

/// Somebody is in turn exactly while the players bet.
pub open spec fn turn_goes_with_stage(v: RoomView) -> bool {
    v.player_in_turn is None <==> (v.stage is NotEnoughPlayers || v.stage is Showdown)
}

/// The player in turn is seated, in the hand, and has chips.
pub open spec fn turn_can_act(v: RoomView) -> bool {
    match v.player_in_turn {
        Some(id) => exists|i: int|
            0 <= i < v.players.len() && (#[trigger] v.players[i]).id == id && v.players[i].eligible(),
        None => false,
    }
}

/// The turn is right: somebody is in turn exactly while the players bet,
/// and whoever is in turn is seated, in the hand, and has chips.
pub open spec fn turn_right(v: RoomView) -> bool {
    turn_goes_with_stage(v) && (v.stage.is_betting() ==> turn_can_act(v))
}

/// The board holds the cards of the stage: none before the flop, three on
/// the flop, four on the turn, five on the river and at a showdown after
/// dealing; at a showdown without dealing, what it held when the hand
/// ended.
pub open spec fn board_goes_with_stage(v: RoomView) -> bool {
    let n = v.community_cards.len();
    match v.stage {
        Stage::NotEnoughPlayers => n == 0,
        Stage::PreFlop => n == 0,
        Stage::Flop => n == 3,
        Stage::Turn => n == 4,
        Stage::River => n == 5,
        Stage::Showdown(true) => n == 5,
        Stage::Showdown(false) => n == 0 || n == 3 || n == 4 || n == 5,
    }
}

/// Two or more are seated exactly while a hand is on, and one of them is
/// then the dealer: wherever two or more are seated, there is one dealer.
pub open spec fn dealer_goes_with_stage(v: RoomView) -> bool {
    if v.stage is NotEnoughPlayers {
        v.players.len() < 2
    } else {
        v.players.len() >= 2 && one_dealer(v.players)
    }
}

/// What holds of a room between any two steps.
pub open spec fn sound(v: RoomView) -> bool {
    &&& turn_goes_with_stage(v)
    &&& board_goes_with_stage(v)
    &&& dealer_goes_with_stage(v)
}

/// An empty room is sound.
pub proof fn lemma_empty_room_is_sound(id: u128)
    ensures
        sound(empty_room(id)),
{
}

/// In a sound room, wherever two or more are seated, exactly one of them
/// is the dealer.
pub proof fn lemma_sound_has_one_dealer(v: RoomView)
    requires
        sound(v),
        v.players.len() >= 2,
    ensures
        one_dealer(v.players),
        !(v.stage is NotEnoughPlayers),
{
}

proof fn lemma_positions_one_dealer(ps: Seq<Player>, d: int)
    requires
        0 <= d < ps.len(),
    ensures
        one_dealer(with_positions(ps, d)),
        with_positions(ps, d).len() == ps.len(),
{
    let qs = with_positions(ps, d);
    assert(qs[d].position.is_dealer());
}

proof fn lemma_same_positions_one_dealer(ps: Seq<Player>, qs: Seq<Player>)
    requires
        one_dealer(ps),
        ps.len() == qs.len(),
        forall|i: int| 0 <= i < ps.len() ==> (#[trigger] qs[i]).position == ps[i].position,
    ensures
        one_dealer(qs),
{
    let d = choose|d: int|
        0 <= d < ps.len() && (#[trigger] ps[d]).position.is_dealer() && forall|j: int|
            0 <= j < ps.len() && j != d ==> !(#[trigger] ps[j]).position.is_dealer();
    assert(qs[d].position.is_dealer());
}

/// The one who acts first can act.
proof fn lemma_first_actor_can_act(ps: Seq<Player>, stage: Stage)
    requires
        first_actor(ps, stage) is Ok,
    ensures
        exists|i: int|
            0 <= i < ps.len() && (#[trigger] ps[i]).id == first_actor(ps, stage).unwrap()
                && ps[i].eligible(),
{
    let mark = if stage is PreFlop {
        Seek::BigBlind
    } else {
        Seek::Dealer
    };
    lemma_first_seat(ps, mark, 0);
    let i = first_seat(ps, mark).unwrap();
    lemma_round_from(ps, can_act(), wrap(i + 1, ps.len() as int), 0);
}

/// A hand that starts has one dealer and a first player who can act, and
/// two or more players where it starts before the flop.
pub proof fn lemma_start_game(v: RoomView)
    requires
        v.start_game() is Ok,
    ensures
        v.stage is PreFlop ==> v.start_game().unwrap().players.len() >= 2,
        one_dealer(v.start_game().unwrap().players),
        turn_can_act(v.start_game().unwrap()),
        v.start_game().unwrap().community_cards.len() == 0,
        v.start_game().unwrap().pots.len() == 0,
        v.start_game().unwrap().stage == v.stage,
{
    let t = v.reset_table();
    let ready = all_readied(t.players);
    lemma_top_seat(ready);
    let d = next_dealer(ready);
    let placed = with_positions(ready, d);
    lemma_positions_one_dealer(ready, d);
    let ps = all_posted(placed);
    lemma_same_positions_one_dealer(placed, ps);
    lemma_first_actor_can_act(ps, v.stage);
    if ps.len() == 1 {
        lemma_first_seat(ps, Seek::BigBlind, 0);
        lemma_first_seat(ps, Seek::Dealer, 0);
        let i = if v.stage is PreFlop {
            first_seat(ps, Seek::BigBlind).unwrap()
        } else {
            first_seat(ps, Seek::Dealer).unwrap()
        };
        lemma_round_from(ps, can_act(), wrap(i + 1, 1), 0);
    }
}

/// The seats hold the positions of a hand whose dealer sits at seat `d`:
/// the seats after the dealer hold the blinds, and no other seat holds a
/// position.
pub open spec fn placed_round(ps: Seq<Player>, d: int) -> bool {
    forall|i: int|
        0 <= i < ps.len() ==> (#[trigger] ps[i]).position == seat_position(
            ps.len() as int,
            seat_offset(i, d, ps.len() as int),
        )
}

/// A hand can start wherever two players or more sit down for it, each
/// with two chips or more, and the deck has two cards for each of them.
/// The seats are then placed round the dealer: with two players the dealer,
/// who posts the small blind, and the big blind; with more the dealer, the
/// small blind after them, the big blind after that, and nobody else in a
/// position.
pub proof fn lemma_start_game_succeeds(v: RoomView)
    requires
        seated(v.players, v.waiting).len() >= 2,
        2 * seated(v.players, v.waiting).len() <= 52,
        forall|i: int|
            0 <= i < seated(v.players, v.waiting).len() ==> (#[trigger] seated(
                v.players,
                v.waiting,
            )[i]).chips >= 2,
    ensures
        v.start_game() is Ok,
        v.start_game().unwrap().players.len() == seated(v.players, v.waiting).len(),
        one_dealer(v.start_game().unwrap().players),
        exists|d: int|
            0 <= d < v.start_game().unwrap().players.len() && #[trigger] placed_round(
                v.start_game().unwrap().players,
                d,
            ),
{
    let t = v.reset_table();
    let ready = all_readied(t.players);
    let n = ready.len() as int;
    lemma_top_seat(ready);
    let d = next_dealer(ready);
    let placed = with_positions(ready, d);
    lemma_first_seat(placed, Seek::ShortOfBlind, 0);
    let ps = all_posted(placed);
    let mark = if v.stage is PreFlop {
        Seek::BigBlind
    } else {
        Seek::Dealer
    };
    let k = if n > 2 {
        2int
    } else {
        1int
    };
    let bb = wrap(d + k, n);
    assert(ps[bb].position == Position::BigBlind);
    assert(ps[d].position.is_dealer());
    lemma_first_seat(ps, mark, 0);
    let i = first_seat(ps, mark).unwrap();
    assert(ps[d].eligible());
    assert(can_act()(ps[d]));
    lemma_round_finds(ps, can_act(), wrap(i + 1, n));
    lemma_start_game(v);
    assert(placed_round(ps, d));
}

/// The board that the stage to be set up finds: that of the stage before.
pub open spec fn board_before(v: RoomView) -> bool {
    let n = v.community_cards.len();
    match v.stage {
        Stage::Flop => n == 0,
        Stage::Turn => n == 3,
        Stage::River => n == 4,
        Stage::Showdown(false) => n == 0 || n == 3 || n == 4 || n == 5,
        _ => true,
    }
}

/// Setting up a stage makes the room sound: the turn and the board go with
/// the stage, whoever is in turn can act, and what is asked of the service
/// goes with the stage too.
pub proof fn lemma_setup_stage(v: RoomView, got: RoomView)
    requires
        v.setup_stage() is Ok,
        agrees(v.setup_stage().unwrap().0, v.setup_stage().unwrap().2, got),
        board_before(v),
        !(v.stage is NotEnoughPlayers) && !(v.stage is PreFlop) ==> v.players.len() >= 2
            && one_dealer(v.players),
        v.stage is NotEnoughPlayers ==> seated(v.players, v.waiting).len() < 2,
    ensures
        sound(got),
        got.stage == v.stage,
        got.stage.is_betting() ==> turn_can_act(got),
        v.setup_stage().unwrap().1 is FindWinners <==> got.stage is Showdown,
        v.setup_stage().unwrap().1 is PlayerReceiveCards <==> got.stage is PreFlop,
        !(v.stage is NotEnoughPlayers) && !(v.stage is PreFlop) ==> got.players == v.players
            && got.pots == v.pots,
{
    let (m, a, d) = v.setup_stage().unwrap();
    match v.stage {
        Stage::PreFlop => {
            lemma_start_game(v);
            let plan = v.start_game().unwrap();
            lemma_hands_keep_seats(plan, got);
        },
        Stage::Flop | Stage::Turn | Stage::River => {
            lemma_first_actor_can_act(v.players, v.stage);
        },
        _ => {},
    }
}

/// Dealing the hole cards leaves the seats as they are: the same players in
/// the same positions, with the same chips.
proof fn lemma_hands_keep_seats(plan: RoomView, got: RoomView)
    requires
        agrees(plan, Dealing::Hands, got),
    ensures
        one_dealer(plan.players) ==> one_dealer(got.players),
        turn_can_act(plan) ==> turn_can_act(got),
        got.players.len() == plan.players.len(),
{
    if one_dealer(plan.players) {
        lemma_same_positions_one_dealer(plan.players, got.players);
    }
    if turn_can_act(plan) {
        let id = plan.player_in_turn.unwrap();
        let i = choose|i: int|
            0 <= i < plan.players.len() && (#[trigger] plan.players[i]).id == id
                && plan.players[i].eligible();
        assert(got.players[i].id == id && got.players[i].eligible());
    }
}

/// The end of a stage leaves the seats, the board and the turn as they
/// are.
pub proof fn lemma_end_stage_keeps(v: RoomView)
    requires
        v.end_stage() is Ok,
    ensures
        v.end_stage().unwrap().stage == v.stage,
        v.end_stage().unwrap().community_cards == v.community_cards,
        v.end_stage().unwrap().waiting == v.waiting,
        v.end_stage().unwrap().players.len() == v.players.len(),
        one_dealer(v.players) ==> one_dealer(v.end_stage().unwrap().players),
        !v.stage.is_betting() ==> v.end_stage().unwrap() == v,
{
    if v.stage.is_betting() && one_dealer(v.players) {
        lemma_same_positions_one_dealer(v.players, all_rested(v.players));
    }
}

/// The turn that passes goes to a player who can act.
proof fn lemma_pass_turn(v: RoomView)
    requires
        v.pass_turn() is Ok,
    ensures
        turn_can_act(v.pass_turn().unwrap()),
{
    let id = v.player_in_turn.unwrap();
    lemma_first_seat(v.players, Seek::Id(id), 0);
    let i = first_seat(v.players, Seek::Id(id)).unwrap();
    lemma_round_from(v.players, can_act(), wrap(i + 1, v.players.len() as int), 0);
}

/// A step of the state machine keeps a sound room sound. While the
/// players bet, whoever is in turn after the step is seated, in the hand,
/// and has chips. The service is asked to find the winners exactly when
/// the step ends at a showdown, and to send the cards only at the start
/// of a hand.
pub proof fn lemma_proceed_keeps_sound(v: RoomView, got: RoomView)
    requires
        sound(v),
        v.proceed() is Ok,
        agrees(v.proceed().unwrap().0, v.proceed().unwrap().2, got),
    ensures
        sound(got),
        got.stage.is_betting() ==> turn_can_act(got),
        v.proceed().unwrap().1 is FindWinners ==> got.stage is Showdown,
        v.proceed().unwrap().1 is PlayerReceiveCards ==> got.stage is PreFlop,
{
    let how = v.can_proceed();
    if how.can_proceed() {
        lemma_end_stage_keeps(v);
        let m = v.advance(how).unwrap();
        lemma_seated(m.players, m.waiting);
        lemma_setup_stage(m, got);
    } else if !(v.stage is NotEnoughPlayers) {
        lemma_pass_turn(v);
    }
}

/// Setting up a stage puts the turn right, whatever the room was like:
/// somebody is in turn exactly in a stage in which the players bet, and
/// can act.
pub proof fn lemma_setup_sets_turn(v: RoomView, got: RoomView)
    requires
        v.setup_stage() is Ok,
        agrees(v.setup_stage().unwrap().0, v.setup_stage().unwrap().2, got),
    ensures
        turn_goes_with_stage(got),
        got.stage.is_betting() ==> turn_can_act(got),
{
    match v.stage {
        Stage::PreFlop => {
            lemma_start_game(v);
            let plan = v.start_game().unwrap();
            lemma_hands_keep_seats(plan, got);
        },
        Stage::Flop | Stage::Turn | Stage::River => {
            lemma_first_actor_can_act(v.players, v.stage);
        },
        _ => {},
    }
}

/// A step of the state machine puts the turn right: after it, somebody is
/// in turn exactly while the players bet, and whoever is in turn is
/// seated, in the hand, and has chips. This asks of the room before the
/// step only that nobody is in turn while it waits for players.
pub proof fn lemma_proceed_sets_turn(v: RoomView, got: RoomView)
    requires
        v.proceed() is Ok,
        agrees(v.proceed().unwrap().0, v.proceed().unwrap().2, got),
        v.stage is NotEnoughPlayers ==> v.player_in_turn is None,
    ensures
        turn_goes_with_stage(got),
        got.stage.is_betting() ==> turn_can_act(got),
{
    let how = v.can_proceed();
    if how.can_proceed() {
        let m = v.advance(how).unwrap();
        lemma_setup_sets_turn(m, got);
    } else if !(v.stage is NotEnoughPlayers) {
        lemma_pass_turn(v);
    }
}

/// A step out of a showdown starts the next hand or waits for players: it
/// never asks the service for winners again.
pub proof fn lemma_after_showdown(v: RoomView)
    requires
        v.stage is Showdown,
        v.proceed() is Ok,
    ensures
        !(v.proceed().unwrap().1 is FindWinners),
        v.proceed().unwrap().0.stage is PreFlop || v.proceed().unwrap().0.stage
            is NotEnoughPlayers,
{
    let m = v.advance(v.can_proceed()).unwrap();
    if m.stage is PreFlop {
        lemma_start_game(m);
    }
}

/// An action keeps the seat of the player: the same id and position, and
/// the same chips in stack and bet together.
pub proof fn lemma_acted(p: Player, action: Action, max_bet: u32)
    requires
        acted(p, action, max_bet) is Ok,
    ensures
        acted(p, action, max_bet).unwrap().id == p.id,
        acted(p, action, max_bet).unwrap().position == p.position,
        acted(p, action, max_bet).unwrap().chips + acted(p, action, max_bet).unwrap().bet
            == p.chips + p.bet,
        acted(p, action, max_bet).unwrap().bet >= p.bet,
        acted(p, action, max_bet).unwrap().has_taken_turn,
        acted(p, action, max_bet).unwrap().last_action == Some(action),
{
}

/// An action of the player in turn, and the step after it, keep a sound
/// room sound.
pub proof fn lemma_take_action_keeps_sound(v: RoomView, player_id: u128, action: Action, got: RoomView)
    requires
        sound(v),
        v.take_action(player_id, action) is Ok,
        agrees(
            v.take_action(player_id, action).unwrap().0,
            v.take_action(player_id, action).unwrap().2,
            got,
        ),
    ensures
        sound(got),
        got.stage.is_betting() ==> turn_can_act(got),
        v.take_action(player_id, action).unwrap().1 is FindWinners ==> got.stage is Showdown,
        v.stage.is_betting(),
{
    let m = v.after_action(player_id, action).unwrap();
    lemma_first_seat(v.players, Seek::Id(player_id), 0);
    let i = first_seat(v.players, Seek::Id(player_id)).unwrap();
    lemma_acted(v.players[i], action, crate::seats::active_max_bet_of(v.players));
    if one_dealer(v.players) {
        lemma_same_positions_one_dealer(v.players, m.players);
    }
    lemma_proceed_keeps_sound(m, got);
}

/// A player who joins leaves a sound room sound.
pub proof fn lemma_join_keeps_sound(v: RoomView, p: Player, got: RoomView)
    requires
        sound(v),
        v.join_player(p) is Ok,
        agrees(v.join_player(p).unwrap().0, v.join_player(p).unwrap().2, got),
    ensures
        sound(got),
        v.stage is NotEnoughPlayers && got.stage.is_betting() ==> turn_can_act(got),
        !(v.stage is NotEnoughPlayers) ==> got.players == v.players && got.stage == v.stage
            && got.waiting == v.waiting.push(p),
{
    if v.stage is NotEnoughPlayers {
        let m = RoomView { players: v.players.push(p), ..v };
        if m.players.len() >= 2 {
            let next = m.advance(m.can_proceed()).unwrap();
            lemma_setup_stage(next, got);
        }
    }
}

/// A player who leaves leaves a sound room sound.
pub proof fn lemma_leave_keeps_sound(v: RoomView, player_id: u128, got: RoomView)
    requires
        sound(v),
        agrees(v.leave_player(player_id).0, v.leave_player(player_id).2, got),
    ensures
        sound(got),
{
    reveal(RoomView::step_or_call_off);
    let marked = v.without(player_id);
    if !nobody_connected(marked.players) {
        if marked.leaves_in_turn(player_id) {
            if marked.proceed() is Ok {
                lemma_same_positions_one_dealer(v.players, marked.players);
                lemma_proceed_keeps_sound(marked, got);
            }
        } else if one_dealer(v.players) {
            lemma_same_positions_one_dealer(v.players, marked.players);
        }
    }
}

/// A leave puts the turn right. Where the player who leaves was in turn
/// in a round of betting, then after the leave somebody is in turn
/// exactly while the players bet, and whoever is in turn is seated, in
/// the hand, and has chips: never the one who left. Any other leave keeps
/// the turn with the stage where it was so before. And where the last
/// connected player leaves the table, the room that is left waits for
/// players, with nobody seated, no pots, no board, a full deck and nobody
/// in turn.
pub proof fn lemma_leave_sets_turn(v: RoomView, player_id: u128, got: RoomView)
    requires
        agrees(v.leave_player(player_id).0, v.leave_player(player_id).2, got),
    ensures
        v.leaves_in_turn(player_id) ==> turn_right(got),
        turn_goes_with_stage(v) ==> turn_goes_with_stage(got),
        nobody_connected(all_but(v.players, player_id)) ==> sound(got) && got
            == v.without(player_id).called_off(),
{
    reveal(RoomView::step_or_call_off);
    let marked = v.without(player_id);
    if !nobody_connected(marked.players) && marked.leaves_in_turn(player_id)
        && marked.proceed() is Ok {
        lemma_proceed_sets_turn(marked, got);
    }
}

/// A leave asks the service to find the winners exactly where it has
/// brought the hand from a round of betting to its showdown, and asks for
/// nothing else.
pub proof fn lemma_leave_asks(v: RoomView, player_id: u128, got: RoomView)
    requires
        agrees(v.leave_player(player_id).0, v.leave_player(player_id).2, got),
    ensures
        v.leave_player(player_id).1 == v.asked_by_leave(got),
{
    reveal(RoomView::step_or_call_off);
}

/// A step that is taken while the players bet keeps everyone in their
/// seat, connected or not and in the hand or not as before, and deals no
/// hole cards.
proof fn lemma_step_keeps_seats(v: RoomView, got: RoomView)
    requires
        v.stage.is_betting(),
        v.proceed() is Ok,
        agrees(v.proceed().unwrap().0, v.proceed().unwrap().2, got),
    ensures
        got.players.len() == v.players.len(),
        got.waiting == v.waiting,
        forall|i: int|
            0 <= i < v.players.len() ==> (#[trigger] got.players[i]).id == v.players[i].id
                && got.players[i].is_connected == v.players[i].is_connected
                && got.players[i].has_folded == v.players[i].has_folded,
{
    let how = v.can_proceed();
    if how.can_proceed() {
        lemma_end_stage_keeps(v);
    }
}

proof fn lemma_keep_all(ps: Seq<Player>)
    requires
        forall|i: int| 0 <= i < ps.len() ==> (#[trigger] ps[i]).seatable(),
    ensures
        keep_seatable(ps) == ps,
    decreases ps.len(),
{
    reveal(Seq::filter);
    if ps.len() > 0 {
        lemma_keep_all(ps.drop_last());
        assert(ps.drop_last().push(ps.last()) =~= ps);
    }
}

/// Those who sit down after a player is marked as gone are others, and
/// seating them again changes nothing.
proof fn lemma_table_of_others(m: RoomView, player_id: u128)
    requires
        m.without(player_id) == m,
    ensures
        all_but(seated(m.players, m.waiting), player_id) == seated(m.players, m.waiting),
        all_but(Seq::<Player>::empty(), player_id) == Seq::<Player>::empty(),
        seated(Seq::<Player>::empty(), seated(m.players, m.waiting)) == seated(
            m.players,
            m.waiting,
        ),
{
    let none = Seq::<Player>::empty();
    let table = seated(m.players, m.waiting);
    lemma_seated(m.players, m.waiting);
    lemma_kept_are_others(m.players, player_id);
    lemma_kept_are_others(m.waiting, player_id);
    assert(all_but(table, player_id) =~= table);
    assert(all_but(none, player_id) =~= none);
    lemma_keep_all(table);
    lemma_keep_all(none);
    assert(seated(none, table) =~= table);
}

/// A leave of a player who is marked as gone already, and was not in
/// turn, changes nothing in a room in which somebody is connected.
proof fn lemma_leave_of_gone(g: RoomView, player_id: u128)
    requires
        g.without(player_id) == g,
        !nobody_connected(g.players),
        !g.leaves_in_turn(player_id),
    ensures
        g.leave_player(player_id) == (g, ServiceRequiredAction::NoAction, Dealing::Nothing),
{
}

/// A hand that was called off after a player was marked as gone is left
/// as it is by a leave of that player.
proof fn lemma_called_off_twice(m: RoomView, player_id: u128)
    requires
        m.without(player_id) == m,
    ensures
        m.called_off().leave_player(player_id) == (
            m.called_off(),
            ServiceRequiredAction::NoAction,
            Dealing::Nothing,
        ),
{
    lemma_table_of_others(m, player_id);
    let g = m.called_off();
    assert(g.without(player_id) == g);
    assert(g.called_off() == g);
}

/// Leaving twice is leaving once: in the room that a leave has left, a
/// second leave of the same player changes nothing and asks for nothing.
pub proof fn lemma_leave_twice(v: RoomView, player_id: u128, got: RoomView)
    requires
        agrees(v.leave_player(player_id).0, v.leave_player(player_id).2, got),
    ensures
        got.leave_player(player_id) == (got, ServiceRequiredAction::NoAction, Dealing::Nothing),
{
    reveal(RoomView::step_or_call_off);
    let marked = v.without(player_id);
    assert(all_but(marked.players, player_id) =~= marked.players);
    assert(all_but(marked.waiting, player_id) =~= marked.waiting);
    assert(marked.without(player_id) == marked);
    if nobody_connected(marked.players) {
        lemma_called_off_twice(marked, player_id);
    } else if marked.leaves_in_turn(player_id) {
        if marked.proceed() is Ok {
            lemma_stepped_without(marked, player_id, got);
            lemma_leave_of_gone(got, player_id);
        } else {
            lemma_called_off_twice(marked, player_id);
        }
    } else {
        lemma_leave_of_gone(got, player_id);
    }
}

/// After the step that follows the leave of the player in turn, that
/// player is marked as gone as before, and is not in turn.
proof fn lemma_stepped_without(marked: RoomView, player_id: u128, got: RoomView)
    requires
        marked.without(player_id) == marked,
        !nobody_connected(marked.players),
        marked.stage.is_betting(),
        marked.proceed() is Ok,
        agrees(marked.proceed().unwrap().0, marked.proceed().unwrap().2, got),
    ensures
        got.without(player_id) == got,
        !nobody_connected(got.players),
        !got.leaves_in_turn(player_id),
{
    lemma_step_keeps_seats(marked, got);
    lemma_proceed_sets_turn(marked, got);
    assert(all_but(got.players, player_id) =~= got.players);
    let w = choose|i: int|
        0 <= i < marked.players.len() && (#[trigger] marked.players[i]).is_connected;
    assert(got.players[w].is_connected);
    if got.leaves_in_turn(player_id) {
        let i = choose|i: int|
            0 <= i < got.players.len() && (#[trigger] got.players[i]).id == player_id
                && got.players[i].eligible();
        assert(all_but(marked.players, player_id)[i].has_folded);
    }
}

/// Of the players after a leave, those who stay for the next hand are
/// others than the one who left.
proof fn lemma_kept_are_others(ps: Seq<Player>, player_id: u128)
    ensures
        forall|i: int|
            0 <= i < keep_seatable(all_but(ps, player_id)).len() ==> (#[trigger] keep_seatable(
                all_but(ps, player_id),
            )[i]).id != player_id && keep_seatable(all_but(ps, player_id))[i].seatable(),
{
    broadcast use vstd::seq_lib::group_filter_ensures;

    let qs = all_but(ps, player_id);
    let kept = keep_seatable(qs);
    assert forall|i: int| 0 <= i < kept.len() implies (#[trigger] kept[i]).id != player_id
        && kept[i].seatable() by {
        qs.lemma_filter_contains_rev(|p: Player| p.seatable(), kept[i]);
    }
}

proof fn lemma_sums_update(ps: Seq<Player>, i: int, q: Player)
    requires
        0 <= i < ps.len(),
    ensures
        stacks(ps.update(i, q)) == stacks(ps) - ps[i].chips + q.chips,
        bets_above(ps.update(i, q), 0) == bets_above(ps, 0) - ps[i].bet + q.bet,
    decreases ps.len(),
{
    let qs = ps.update(i, q);
    if i == ps.len() - 1 {
        assert(qs.drop_last() =~= ps.drop_last());
    } else {
        assert(qs.drop_last() =~= ps.drop_last().update(i, q));
        lemma_sums_update(ps.drop_last(), i, q);
    }
}

proof fn lemma_sums_rested(ps: Seq<Player>)
    ensures
        stacks(all_rested(ps)) == stacks(ps),
        bets_above(all_rested(ps), 0) == 0,
    decreases ps.len(),
{
    if ps.len() > 0 {
        assert(all_rested(ps).drop_last() =~= all_rested(ps.drop_last()));
        lemma_sums_rested(ps.drop_last());
    }
}

/// The end of a stage keeps the chips on the table: the bets of the round
/// are in the pots.
pub proof fn lemma_end_stage_chips(v: RoomView)
    requires
        v.end_stage() is Ok,
    ensures
        table_chips(v.end_stage().unwrap()) == table_chips(v),
{
    if v.stage.is_betting() {
        let all = v.pots + layers(v.players, 0);
        lemma_layers(v.players, 0);
        lemma_pots_total_concat(v.pots, layers(v.players, 0));
        lemma_merged(all);
        lemma_sums_rested(v.players);
    }
}

/// Chip conservation: a step of the state machine that is taken while the
/// players bet keeps the chips on the table, the stacks and bets of the
/// seated players and the pots together, and leaves the hand on or at its
/// showdown.
pub proof fn lemma_proceed_keeps_chips(v: RoomView, got: RoomView)
    requires
        v.stage.is_betting(),
        v.proceed() is Ok,
        agrees(v.proceed().unwrap().0, v.proceed().unwrap().2, got),
    ensures
        table_chips(got) == table_chips(v),
        got.stage.is_betting() || got.stage is Showdown,
{
    let how = v.can_proceed();
    if how.can_proceed() {
        lemma_end_stage_chips(v);
        lemma_end_stage_keeps(v);
        let e = v.end_stage().unwrap();
        let m = v.advance(how).unwrap();
        assert(m.players == e.players && m.pots == e.pots);
        let plan = m.setup_stage().unwrap().0;
        assert(plan.players == m.players && plan.pots == m.pots);
        assert(got.players == plan.players && got.pots == plan.pots);
    } else {
        assert(got.players == v.players && got.pots == v.pots);
    }
}

/// Chip conservation: an action of the player in turn, with the step after
/// it, keeps the chips on the table while the players bet.
pub proof fn lemma_take_action_keeps_chips(
    v: RoomView,
    player_id: u128,
    action: Action,
    got: RoomView,
)
    requires
        v.stage.is_betting(),
        v.take_action(player_id, action) is Ok,
        agrees(
            v.take_action(player_id, action).unwrap().0,
            v.take_action(player_id, action).unwrap().2,
            got,
        ),
    ensures
        table_chips(got) == table_chips(v),
        got.stage.is_betting() || got.stage is Showdown,
{
    let m = v.after_action(player_id, action).unwrap();
    lemma_first_seat(v.players, Seek::Id(player_id), 0);
    let i = first_seat(v.players, Seek::Id(player_id)).unwrap();
    let q = acted(v.players[i], action, crate::seats::active_max_bet_of(v.players)).unwrap();
    lemma_acted(v.players[i], action, crate::seats::active_max_bet_of(v.players));
    lemma_sums_update(v.players, i, q);
    lemma_proceed_keeps_chips(m, got);
}

/// Chip conservation: a player who leaves takes no chips off the table
/// while somebody at the table stays connected and the hand is not called
/// off.
pub proof fn lemma_leave_keeps_chips(v: RoomView, player_id: u128, got: RoomView)
    requires
        agrees(v.leave_player(player_id).0, v.leave_player(player_id).2, got),
        !nobody_connected(all_but(v.players, player_id)),
        v.leaves_in_turn(player_id) ==> v.without(player_id).proceed() is Ok,
    ensures
        table_chips(got) == table_chips(v),
{
    reveal(RoomView::step_or_call_off);
    lemma_sums_left(v.players, player_id);
    if v.leaves_in_turn(player_id) {
        lemma_proceed_keeps_chips(v.without(player_id), got);
    }
}

proof fn lemma_sums_left(ps: Seq<Player>, player_id: u128)
    ensures
        stacks(all_but(ps, player_id)) == stacks(ps),
        bets_above(all_but(ps, player_id), 0) == bets_above(ps, 0),
    decreases ps.len(),
{
    if ps.len() > 0 {
        assert(all_but(ps, player_id).drop_last() =~= all_but(ps.drop_last(), player_id));
        lemma_sums_left(ps.drop_last(), player_id);
    }
}

proof fn lemma_pot_within_total(pots: Seq<PotView>, i: int)
    requires
        0 <= i < pots.len(),
    ensures
        pots[i].amount <= pots_total(pots),
        0 <= pots_total(pots),
    decreases pots.len(),
{
    lemma_pots_total_nonneg(pots.drop_last());
    if i < pots.len() - 1 {
        lemma_pot_within_total(pots.drop_last(), i);
    }
}

/// A round of betting can be ended wherever there is something to end it
/// with, a pot or a bet, and the chips in the pots and the bets together
/// are no more than a pot can hold.
pub proof fn lemma_end_stage_succeeds(v: RoomView)
    requires
        v.stage.is_betting(),
        v.pots.len() > 0 || bets_above(v.players, 0) > 0,
        pots_total(v.pots) + bets_above(v.players, 0) <= u32::MAX,
    ensures
        v.end_stage() is Ok,
{
    let fresh = layers(v.players, 0);
    let all = v.pots + fresh;
    lemma_layers(v.players, 0);
    lemma_pots_total_concat(v.pots, fresh);
    lemma_merged(all);
    lemma_pots_total_nonneg(v.pots);
    lemma_pots_total_nonneg(fresh);
    assert forall|i: int| 0 <= i < fresh.len() implies (#[trigger] fresh[i]).amount
        <= u32::MAX by {
        lemma_pot_within_total(fresh, i);
    }
    assert forall|i: int| 0 <= i < merged(all).len() implies (#[trigger] merged(all)[i]).amount
        <= u32::MAX by {
        lemma_pot_within_total(merged(all), i);
    }
}

/// The pots stay nested through the end of a round: where every pot may be
/// won only by players of the pot before it, and everyone who bet in the
/// round may win the last pot, the same holds of the pots after the round,
/// and no two neighbours among them have the same players.
pub proof fn lemma_end_stage_keeps_nested(v: RoomView)
    requires
        v.end_stage() is Ok,
        pots_nested(v.pots),
        v.pots.len() > 0 ==> ids_at_least(v.players, 1).subset_of(v.pots.last().players),
    ensures
        pots_nested(v.end_stage().unwrap().pots),
        v.stage.is_betting() ==> forall|i: int|
            0 < i < v.end_stage().unwrap().pots.len() ==> (#[trigger] v.end_stage().unwrap().pots[i]).players
                != v.end_stage().unwrap().pots[i - 1].players,
{
    if v.stage.is_betting() {
        let fresh = layers(v.players, 0);
        let all = v.pots + fresh;
        lemma_layers(v.players, 0);
        lemma_merged(all);
    }
}

/// A round of betting ends with nested pots: where the pots before it
/// are nested, everyone who bet in the round may win the last of them,
/// there is a pot or a bet, and the chips of the pots and the bets are no
/// more than a pot can hold, the round can be ended, its pots are nested,
/// and no two neighbours among them have the same players.
pub proof fn lemma_round_ends_nested(v: RoomView)
    requires
        v.stage.is_betting(),
        pots_nested(v.pots),
        v.pots.len() > 0 ==> ids_at_least(v.players, 1).subset_of(v.pots.last().players),
        v.pots.len() > 0 || bets_above(v.players, 0) > 0,
        pots_total(v.pots) + bets_above(v.players, 0) <= u32::MAX,
    ensures
        v.end_stage() is Ok,
        pots_nested(v.end_stage().unwrap().pots),
        pots_total(v.end_stage().unwrap().pots) == pots_total(v.pots) + bets_above(v.players, 0),
        forall|i: int|
            0 < i < v.end_stage().unwrap().pots.len() ==> (#[trigger] v.end_stage().unwrap().pots[i]).players
                != v.end_stage().unwrap().pots[i - 1].players,
{
    lemma_end_stage_succeeds(v);
    lemma_end_stage_keeps_nested(v);
    lemma_end_stage_chips(v);
    lemma_sums_rested(v.players);
}

/// The pots are nested so far: every pot may be won only by players of the
/// pot before it, and everyone who has bet in this round may win the last
/// pot.
pub open spec fn nested_so_far(v: RoomView) -> bool {
    pots_nested(v.pots) && (v.pots.len() > 0 ==> ids_at_least(v.players, 1).subset_of(
        v.pots.last().players,
    ))
}

/// The player may win the last pot, if there is one.
pub open spec fn may_win_last_pot(v: RoomView, player_id: u128) -> bool {
    v.pots.len() > 0 ==> v.pots.last().players.contains(player_id)
}

/// A step that is taken while the players bet keeps the pots nested.
pub proof fn lemma_proceed_keeps_nested(v: RoomView, got: RoomView)
    requires
        v.stage.is_betting(),
        v.proceed() is Ok,
        agrees(v.proceed().unwrap().0, v.proceed().unwrap().2, got),
        nested_so_far(v),
    ensures
        nested_so_far(got),
{
    let how = v.can_proceed();
    if how.can_proceed() {
        lemma_end_stage_keeps_nested(v);
        lemma_end_stage_keeps(v);
        let e = v.end_stage().unwrap();
        let m = v.advance(how).unwrap();
        assert(m.players == e.players && m.pots == e.pots);
        let plan = m.setup_stage().unwrap().0;
        assert(plan.players == m.players && plan.pots == m.pots);
        assert(got.players == plan.players && got.pots == plan.pots);
        lemma_ids_at_least(got.players, 1);
        assert(ids_at_least(got.players, 1) =~= Set::<u128>::empty());
    } else {
        assert(got.players == v.players && got.pots == v.pots);
    }
}

/// An action of a player who may win the last pot, with the step after
/// it, keeps the pots nested.
pub proof fn lemma_take_action_keeps_nested(
    v: RoomView,
    player_id: u128,
    action: Action,
    got: RoomView,
)
    requires
        v.take_action(player_id, action) is Ok,
        agrees(
            v.take_action(player_id, action).unwrap().0,
            v.take_action(player_id, action).unwrap().2,
            got,
        ),
        v.stage.is_betting(),
        nested_so_far(v),
        may_win_last_pot(v, player_id),
    ensures
        nested_so_far(got),
{
    let m = v.after_action(player_id, action).unwrap();
    lemma_first_seat(v.players, Seek::Id(player_id), 0);
    let i = first_seat(v.players, Seek::Id(player_id)).unwrap();
    lemma_acted(v.players[i], action, crate::seats::active_max_bet_of(v.players));
    lemma_ids_at_least(v.players, 1);
    lemma_ids_at_least(m.players, 1);
    assert forall|id: u128| ids_at_least(m.players, 1).contains(id) implies id == player_id
        || ids_at_least(v.players, 1).contains(id) by {
        let k = choose|k: int|
            0 <= k < m.players.len() && (#[trigger] m.players[k]).id == id && m.players[k].bet >= 1;
        if k != i {
            assert(v.players[k].id == id && v.players[k].bet >= 1);
        }
    }
    lemma_proceed_keeps_nested(m, got);
}

/// A leave of a player who was not in turn, while somebody at the table
/// stays connected, marks the player as gone and changes nothing else:
/// everyone stays in their list with their chips and their bet, and the
/// pots, the stage, the deck, the board and the turn are as before.
pub proof fn lemma_leave_out_of_turn(v: RoomView, player_id: u128, got: RoomView)
    requires
        agrees(v.leave_player(player_id).0, v.leave_player(player_id).2, got),
        !nobody_connected(all_but(v.players, player_id)),
        !v.leaves_in_turn(player_id),
    ensures
        got == v.without(player_id),
        v.leave_player(player_id).1 is NoAction,
        got.players.len() == v.players.len(),
        got.waiting.len() == v.waiting.len(),
        forall|i: int|
            0 <= i < v.players.len() ==> (#[trigger] got.players[i]) == (if v.players[i].id
                == player_id {
                gone(v.players[i])
            } else {
                v.players[i]
            }),
        forall|i: int|
            0 <= i < v.waiting.len() ==> (#[trigger] got.waiting[i]) == (if v.waiting[i].id
                == player_id {
                gone(v.waiting[i])
            } else {
                v.waiting[i]
            }),
{
}

/// A leave of the player in turn, in a round that is not over with it,
/// marks the player as gone and passes the turn on, and changes nothing
/// else.
pub proof fn lemma_leave_in_turn_passes(v: RoomView, player_id: u128, got: RoomView)
    requires
        agrees(v.leave_player(player_id).0, v.leave_player(player_id).2, got),
        !nobody_connected(all_but(v.players, player_id)),
        v.leaves_in_turn(player_id),
        v.without(player_id).can_proceed() is NoAction,
        v.without(player_id).proceed() is Ok,
    ensures
        got == (RoomView { player_in_turn: got.player_in_turn, ..v.without(player_id) }),
        v.leave_player(player_id).1 is NoAction,
        turn_right(got),
{
    reveal(RoomView::step_or_call_off);
    lemma_leave_sets_turn(v, player_id, got);
}

/// The pots of the first round of a hand are nested, whatever was bet.
pub proof fn lemma_first_pots_nested(v: RoomView)
    requires
        v.end_stage() is Ok,
        v.pots.len() == 0,
    ensures
        pots_nested(v.end_stage().unwrap().pots),
{
    lemma_end_stage_keeps_nested(v);
}

/// Paying pots changes the chips of the players and nothing else: a sound
/// room stays sound.
pub proof fn lemma_pay_keeps_sound(v: RoomView, winners: Seq<(u32, Set<u128>)>)
    requires
        sound(v),
        crate::rules::pay_pots(v.players, winners) is Ok,
    ensures
        sound(RoomView { players: crate::rules::pay_pots(v.players, winners).unwrap().0, ..v }),
        crate::rules::pay_pots(v.players, winners).unwrap().0.len() == v.players.len(),
        crate::rules::pay_pots(v.players, winners).unwrap().1.len() == winners.len(),
{
    lemma_pay_pots_keep_seats(v.players, winners);
    if one_dealer(v.players) {
        lemma_same_positions_one_dealer(
            v.players,
            crate::rules::pay_pots(v.players, winners).unwrap().0,
        );
    }
}

/// Paying pots leaves every player in their seat, with their id and
/// position, in or out of the hand as before.
pub proof fn lemma_pay_pots_keep_seats(ps: Seq<Player>, winners: Seq<(u32, Set<u128>)>)
    requires
        crate::rules::pay_pots(ps, winners) is Ok,
    ensures
        crate::rules::pay_pots(ps, winners).unwrap().0.len() == ps.len(),
        crate::rules::pay_pots(ps, winners).unwrap().1.len() == winners.len(),
        forall|i: int|
            0 <= i < ps.len() ==> (#[trigger] crate::rules::pay_pots(ps, winners).unwrap().0[i])
                == (Player {
                chips: crate::rules::pay_pots(ps, winners).unwrap().0[i].chips,
                ..ps[i]
            }) && crate::rules::pay_pots(ps, winners).unwrap().0[i].chips >= ps[i].chips,
    decreases winners.len(),
{
    if winners.len() > 0 {
        lemma_pay_pots_keep_seats(ps, winners.drop_last());
        let before = crate::rules::pay_pots(ps, winners.drop_last()).unwrap().0;
        let (amount, ids) = winners.last();
        lemma_pay_pot_keeps_seats(before, amount, ids);
    }
}

/// Paying a pot leaves every player in their seat, with their id and
/// position, and takes no chips from anybody.
pub proof fn lemma_pay_pot_keeps_seats(ps: Seq<Player>, amount: u32, ids: Set<u128>)
    requires
        crate::rules::pay_pot(ps, amount, ids) is Ok,
    ensures
        crate::rules::pay_pot(ps, amount, ids).unwrap().0.len() == ps.len(),
        forall|i: int|
            0 <= i < ps.len() ==> (#[trigger] crate::rules::pay_pot(ps, amount, ids).unwrap().0[i])
                == (Player {
                chips: crate::rules::pay_pot(ps, amount, ids).unwrap().0[i].chips,
                ..ps[i]
            }) && crate::rules::pay_pot(ps, amount, ids).unwrap().0[i].chips >= ps[i].chips,
{
    lemma_first_seat(ps, Seek::Dealer, 0);
    let d = first_seat(ps, Seek::Dealer).unwrap();
    lemma_round_from(ps, crate::seats::is_among(ids), wrap(d + 1, ps.len() as int), 0);
    let j = next_seat_after(ps, crate::seats::is_among(ids), d).unwrap();
    lemma_first_seat(ps, Seek::Id(ps[j].id), 0);
}

/// No two seats hold the same id.
pub open spec fn distinct_ids(ps: Seq<Player>) -> bool {
    forall|i: int, j: int| 0 <= i < j < ps.len() ==> (#[trigger] ps[i]).id != (#[trigger] ps[j]).id
}

/// The ids of the seated players.
pub open spec fn seated_ids(ps: Seq<Player>) -> Set<u128> {
    Set::new(|id: u128| exists|i: int| 0 <= i < ps.len() && (#[trigger] ps[i]).id == id)
}

/// The number of seated players whose id is in `ids`.
pub open spec fn count_among(ps: Seq<Player>, ids: Set<u128>) -> nat
    decreases ps.len(),
{
    if ps.len() == 0 {
        0
    } else if ids.contains(ps.last().id) {
        count_among(ps.drop_last(), ids) + 1
    } else {
        count_among(ps.drop_last(), ids)
    }
}

/// The chips of a list of payouts.
pub open spec fn wins_total(wins: Seq<crate::pot::Winnings>) -> int
    decreases wins.len(),
{
    if wins.len() == 0 {
        0
    } else {
        wins_total(wins.drop_last()) + wins.last().amount
    }
}

/// The chips that the pots of a list of winners hold.
pub open spec fn winners_total(winners: Seq<(u32, Set<u128>)>) -> int
    decreases winners.len(),
{
    if winners.len() == 0 {
        0
    } else {
        winners_total(winners.drop_last()) + winners.last().0
    }
}

/// Every pot may be won by seated players only, finitely many, and holds
/// no more chips than a `u32` can.
pub open spec fn pots_of_seated(v: RoomView) -> bool {
    forall|k: int|
        0 <= k < v.pots.len() ==> (#[trigger] v.pots[k]).players.finite() && v.pots[k].players.subset_of(
            seated_ids(v.players),
        ) && v.pots[k].amount <= u32::MAX
}

proof fn lemma_count_without(ps: Seq<Player>, ids: Set<u128>, id: u128)
    requires
        !seated_ids(ps).contains(id),
    ensures
        count_among(ps, ids.remove(id)) == count_among(ps, ids),
    decreases ps.len(),
{
    if ps.len() > 0 {
        let rest = ps.drop_last();
        lemma_count_without(rest, ids, id);
    }
}

/// Where no two seats hold the same id, as many players are among `ids` as
/// `ids` has members, all of them being seated.
proof fn lemma_count_among(ps: Seq<Player>, ids: Set<u128>)
    requires
        distinct_ids(ps),
        ids.finite(),
        ids.subset_of(seated_ids(ps)),
    ensures
        count_among(ps, ids) == ids.len(),
    decreases ps.len(),
{
    if ps.len() == 0 {
        assert(ids =~= Set::<u128>::empty());
    } else {
        let rest = ps.drop_last();
        let last = ps[ps.len() - 1];
        let fewer = ids.remove(last.id);
        assert(fewer.subset_of(seated_ids(rest))) by {
            assert forall|id: u128| fewer.contains(id) implies seated_ids(rest).contains(id) by {
                let i = choose|i: int| 0 <= i < ps.len() && (#[trigger] ps[i]).id == id;
                assert(rest[i].id == id);
            }
        }
        lemma_count_among(rest, fewer);
        lemma_count_without(rest, ids, last.id);
    }
}

proof fn lemma_stacks_paid(ps: Seq<Player>, ids: Set<u128>, share: u32)
    requires
        !crate::rules::share_overflows(ps, ids, share),
    ensures
        stacks(crate::rules::all_paid(ps, ids, share)) == stacks(ps) + share * count_among(ps, ids),
        wins_total(crate::rules::shares(ps, ids, share)) == share * count_among(ps, ids),
    decreases ps.len(),
{
    let c = count_among(ps.drop_last(), ids) as int;
    if ps.len() == 0 {
        assert(share * 0 == 0);
    } else {
        let rest = ps.drop_last();
        lemma_stacks_paid(rest, ids, share);
        assert(crate::rules::all_paid(ps, ids, share).drop_last() =~= crate::rules::all_paid(
            rest,
            ids,
            share,
        ));
        let last = ps[ps.len() - 1];
        assert(share * (c + 1) == share * c + share) by (nonlinear_arith);
        if ids.contains(last.id) {
            let w = crate::rules::shares(ps, ids, share);
            assert(w.drop_last() =~= crate::rules::shares(rest, ids, share));
        }
    }
}

proof fn lemma_wins_update(wins: Seq<crate::pot::Winnings>, w: int, x: crate::pot::Winnings)
    requires
        0 <= w < wins.len(),
    ensures
        wins_total(wins.update(w, x)) == wins_total(wins) - wins[w].amount + x.amount,
    decreases wins.len(),
{
    if w == wins.len() - 1 {
        assert(wins.update(w, x).drop_last() =~= wins.drop_last());
    } else {
        assert(wins.update(w, x).drop_last() =~= wins.drop_last().update(w, x));
        lemma_wins_update(wins.drop_last(), w, x);
    }
}

/// The payout to a seated winner is in the list of payouts.
proof fn lemma_share_listed(ps: Seq<Player>, ids: Set<u128>, share: u32, j: int)
    requires
        0 <= j < ps.len(),
        ids.contains(ps[j].id),
    ensures
        0 <= crate::rules::first_win(crate::rules::shares(ps, ids, share), ps[j].id, 0)
            < crate::rules::shares(ps, ids, share).len(),
        forall|w: int|
            0 <= w < crate::rules::shares(ps, ids, share).len() ==> (
            #[trigger] crate::rules::shares(ps, ids, share)[w]).amount == share,
    decreases ps.len(),
{
    let wins = crate::rules::shares(ps, ids, share);
    let rest = ps.drop_last();
    let id = ps[j].id;
    lemma_shares_amounts(ps, ids, share);
    if j < ps.len() - 1 {
        lemma_share_listed(rest, ids, share, j);
        let before = crate::rules::shares(rest, ids, share);
        assert forall|k: int| 0 <= k < before.len() implies before[k] == wins[k] by {}
        lemma_first_win_prefix(before, wins, id, 0);
    } else {
        let before = crate::rules::shares(rest, ids, share);
        lemma_first_win_found(wins, id, 0, before.len() as int);
    }
}

proof fn lemma_shares_amounts(ps: Seq<Player>, ids: Set<u128>, share: u32)
    ensures
        forall|w: int|
            0 <= w < crate::rules::shares(ps, ids, share).len() ==> (
            #[trigger] crate::rules::shares(ps, ids, share)[w]).amount == share,
    decreases ps.len(),
{
    if ps.len() > 0 {
        lemma_shares_amounts(ps.drop_last(), ids, share);
        let before = crate::rules::shares(ps.drop_last(), ids, share);
        assert(forall|w: int| 0 <= w < before.len() ==> (#[trigger] before[w]).amount == share);
    }
}

proof fn lemma_first_win_found(wins: Seq<crate::pot::Winnings>, id: u128, from: int, at: int)
    requires
        0 <= from <= at < wins.len(),
        wins[at].player == id,
    ensures
        from <= crate::rules::first_win(wins, id, from) <= at,
    decreases wins.len() - from,
{
    if wins[from].player != id {
        lemma_first_win_found(wins, id, from + 1, at);
    }
}

proof fn lemma_first_win_prefix(
    before: Seq<crate::pot::Winnings>,
    wins: Seq<crate::pot::Winnings>,
    id: u128,
    from: int,
)
    requires
        0 <= from,
        before.len() <= wins.len(),
        forall|k: int| 0 <= k < before.len() ==> before[k] == wins[k],
        crate::rules::first_win(before, id, from) < before.len(),
    ensures
        crate::rules::first_win(wins, id, from) == crate::rules::first_win(before, id, from),
    decreases before.len() - from,
{
    if from < before.len() && before[from].player != id {
        lemma_first_win_prefix(before, wins, id, from + 1);
    }
}

/// A pot that is paid is paid in full: where no two seats hold the same id
/// and every winner is seated, the stacks grow by the chips of the pot, and
/// the payouts that are listed add up to them.
pub proof fn lemma_pay_pot_pays_all(ps: Seq<Player>, amount: u32, ids: Set<u128>)
    requires
        crate::rules::pay_pot(ps, amount, ids) is Ok,
        distinct_ids(ps),
        ids.finite(),
        ids.subset_of(seated_ids(ps)),
    ensures
        stacks(crate::rules::pay_pot(ps, amount, ids).unwrap().0) == stacks(ps) + amount,
        wins_total(crate::rules::pay_pot(ps, amount, ids).unwrap().1) == amount,
{
    let n = ids.len();
    let a = amount as int;
    let c = n as int;
    let share = (amount as nat / n) as u32;
    let odd = (amount as nat % n) as u32;
    let paid = crate::rules::all_paid(ps, ids, share);
    let wins = crate::rules::shares(ps, ids, share);
    lemma_count_among(ps, ids);
    lemma_stacks_paid(ps, ids, share);
    lemma_first_seat(ps, Seek::Dealer, 0);
    let d = first_seat(ps, Seek::Dealer).unwrap();
    lemma_round_from(ps, crate::seats::is_among(ids), wrap(d + 1, ps.len() as int), 0);
    let j = next_seat_after(ps, crate::seats::is_among(ids), d).unwrap();
    lemma_first_seat(ps, Seek::Id(ps[j].id), 0);
    let k = first_seat(ps, Seek::Id(ps[j].id)).unwrap();
    lemma_sums_update(paid, k, Player { chips: (paid[k].chips + odd) as u32, ..paid[k] });
    lemma_share_listed(ps, ids, share, j);
    let w = crate::rules::first_win(wins, ps[j].id, 0);
    lemma_wins_update(
        wins,
        w,
        crate::pot::Winnings { player: ps[j].id, amount: (share + odd) as u32 },
    );
    vstd::arithmetic::div_mod::lemma_fundamental_div_mod(a, c);
}

/// The pots of a list of winners are paid in full.
pub proof fn lemma_pay_pots_pay_all(ps: Seq<Player>, winners: Seq<(u32, Set<u128>)>)
    requires
        crate::rules::pay_pots(ps, winners) is Ok,
        distinct_ids(ps),
        forall|k: int|
            0 <= k < winners.len() ==> (#[trigger] winners[k]).1.finite() && winners[k].1.subset_of(
                seated_ids(ps),
            ),
    ensures
        stacks(crate::rules::pay_pots(ps, winners).unwrap().0) == stacks(ps) + winners_total(
            winners,
        ),
        crate::rules::pay_pots(ps, winners).unwrap().1.len() == winners.len(),
        forall|k: int|
            0 <= k < winners.len() ==> wins_total(
                #[trigger] crate::rules::pay_pots(ps, winners).unwrap().1[k],
            ) == winners[k].0,
    decreases winners.len(),
{
    if winners.len() > 0 {
        let fewer = winners.drop_last();
        lemma_pay_pots_pay_all(ps, fewer);
        lemma_pay_pots_keep_seats(ps, fewer);
        let before = crate::rules::pay_pots(ps, fewer).unwrap().0;
        let (amount, ids) = winners[winners.len() - 1];
        assert(seated_ids(before) =~= seated_ids(ps)) by {
            assert forall|id: u128| seated_ids(before).contains(id) == seated_ids(ps).contains(
                id,
            ) by {
                if seated_ids(ps).contains(id) {
                    let i = choose|i: int| 0 <= i < ps.len() && (#[trigger] ps[i]).id == id;
                    assert(before[i].id == id);
                }
            }
        }
        lemma_pay_pot_pays_all(before, amount, ids);
    }
}

proof fn lemma_pots_total_nonneg(pots: Seq<PotView>)
    ensures
        pots_total(pots) >= 0,
    decreases pots.len(),
{
    if pots.len() > 0 {
        lemma_pots_total_nonneg(pots.drop_last());
    }
}

proof fn lemma_pot_winners_total(pots: Seq<PotView>, strengths: Map<u128, int>)
    requires
        forall|k: int| 0 <= k < pots.len() ==> (#[trigger] pots[k]).amount <= u32::MAX,
    ensures
        winners_total(crate::game::pot_winners(pots, strengths)) == pots_total(pots),
    decreases pots.len(),
{
    let all = crate::game::pot_winners(pots, strengths);
    if pots.len() > 0 {
        let tail = pots.skip(1);
        lemma_pot_winners_total(tail, strengths);
        assert(all.drop_last() =~= crate::game::pot_winners(tail, strengths));
        assert(pots =~= seq![pots[0]] + tail);
        crate::pot::lemma_pots_total_prepend(pots[0], tail);
    }
}

proof fn lemma_stack_within(ps: Seq<Player>, i: int)
    requires
        0 <= i < ps.len(),
    ensures
        ps[i].chips <= stacks(ps),
        0 <= stacks(ps),
    decreases ps.len(),
{
    lemma_stacks_nonneg(ps.drop_last());
    if i < ps.len() - 1 {
        lemma_stack_within(ps.drop_last(), i);
    }
}

proof fn lemma_stacks_nonneg(ps: Seq<Player>)
    ensures
        0 <= stacks(ps),
    decreases ps.len(),
{
    if ps.len() > 0 {
        lemma_stacks_nonneg(ps.drop_last());
    }
}

/// A pot can be paid wherever a dealer is seated, the winners are seated,
/// at least one of them, and the stacks with the pot are no more than a
/// stack can hold.
pub proof fn lemma_pay_pot_succeeds(ps: Seq<Player>, amount: u32, ids: Set<u128>)
    requires
        one_dealer(ps),
        ids.finite(),
        ids.len() > 0,
        ids.subset_of(seated_ids(ps)),
        stacks(ps) + amount <= u32::MAX,
    ensures
        crate::rules::pay_pot(ps, amount, ids) is Ok,
{
    let n = ids.len() as int;
    let a = amount as int;
    let share = (amount as nat / ids.len()) as u32;
    let odd = (amount as nat % ids.len()) as u32;
    vstd::arithmetic::div_mod::lemma_fundamental_div_mod(a, n);
    assert(share + odd <= a) by (nonlinear_arith)
        requires
            a == n * share + odd,
            n >= 1,
            share >= 0,
    ;
    assert forall|i: int| 0 <= i < ps.len() implies (#[trigger] ps[i]).chips + share + odd
        <= u32::MAX by {
        lemma_stack_within(ps, i);
    }
    lemma_first_seat(ps, Seek::Dealer, 0);
    let d = first_seat(ps, Seek::Dealer).unwrap();
    let id = ids.choose();
    assert(ids.contains(id));
    assert(seated_ids(ps).contains(id));
    let s = choose|i: int| 0 <= i < ps.len() && (#[trigger] ps[i]).id == id;
    assert(crate::seats::is_among(ids)(ps[s]));
    lemma_round_finds(ps, crate::seats::is_among(ids), wrap(d + 1, ps.len() as int));
    lemma_round_from(ps, crate::seats::is_among(ids), wrap(d + 1, ps.len() as int), 0);
    let j = next_seat_after(ps, crate::seats::is_among(ids), d).unwrap();
    lemma_first_seat(ps, Seek::Id(ps[j].id), 0);
}

/// The pots of a list of winners can be paid, and are paid in full,
/// wherever a dealer is seated, no two seats hold the same id, every pot
/// has a winner and only seated winners, and the stacks with the pots are
/// no more than a stack can hold. The stacks then grow by the chips of the
/// pots, one list of payouts comes back for each pot, and nothing but the
/// chips of the players changes.
pub proof fn lemma_pay_pots_succeed(ps: Seq<Player>, winners: Seq<(u32, Set<u128>)>)
    requires
        one_dealer(ps),
        distinct_ids(ps),
        forall|k: int|
            0 <= k < winners.len() ==> (#[trigger] winners[k]).1.finite() && winners[k].1.len() > 0
                && winners[k].1.subset_of(seated_ids(ps)),
        stacks(ps) + winners_total(winners) <= u32::MAX,
    ensures
        crate::rules::pay_pots(ps, winners) is Ok,
        stacks(crate::rules::pay_pots(ps, winners).unwrap().0) == stacks(ps) + winners_total(
            winners,
        ),
        crate::rules::pay_pots(ps, winners).unwrap().1.len() == winners.len(),
        forall|k: int|
            0 <= k < winners.len() ==> wins_total(
                #[trigger] crate::rules::pay_pots(ps, winners).unwrap().1[k],
            ) == winners[k].0,
        forall|i: int|
            0 <= i < ps.len() ==> (#[trigger] crate::rules::pay_pots(ps, winners).unwrap().0[i])
                == (Player {
                chips: crate::rules::pay_pots(ps, winners).unwrap().0[i].chips,
                ..ps[i]
            }) && crate::rules::pay_pots(ps, winners).unwrap().0[i].chips >= ps[i].chips,
    decreases winners.len(),
{
    if winners.len() > 0 {
        let fewer = winners.drop_last();
        let (amount, ids) = winners[winners.len() - 1];
        lemma_winners_total_nonneg(fewer);
        lemma_pay_pots_succeed(ps, fewer);
        let before = crate::rules::pay_pots(ps, fewer).unwrap().0;
        lemma_pay_pots_keep_seats(ps, fewer);
        lemma_same_positions_one_dealer(ps, before);
        assert(seated_ids(before) =~= seated_ids(ps)) by {
            assert forall|id: u128| seated_ids(before).contains(id) == seated_ids(ps).contains(
                id,
            ) by {
                if seated_ids(ps).contains(id) {
                    let i = choose|i: int| 0 <= i < ps.len() && (#[trigger] ps[i]).id == id;
                    assert(before[i].id == id);
                }
            }
        }
        lemma_pay_pot_succeeds(before, amount, ids);
    }
    lemma_pay_pots_pay_all(ps, winners);
    lemma_pay_pots_keep_seats(ps, winners);
}

proof fn lemma_winners_total_nonneg(winners: Seq<(u32, Set<u128>)>)
    ensures
        winners_total(winners) >= 0,
    decreases winners.len(),
{
    if winners.len() > 0 {
        lemma_winners_total_nonneg(winners.drop_last());
    }
}

/// Chip conservation at the showdown: the pots are paid in full. Where
/// no two seats hold the same id and the pots may be won by seated players
/// only, the stacks of the players after the payout hold what they held
/// before and the chips of all pots.
pub proof fn lemma_settle_pays_pots(v: RoomView)
    requires
        crate::game::settle(v) is Ok,
        distinct_ids(v.players),
        pots_of_seated(v),
    ensures
        stacks(crate::game::settle(v).unwrap().0.players) == stacks(v.players) + pots_total(v.pots),
        crate::game::settle(v).unwrap().0 == (RoomView {
            players: crate::game::settle(v).unwrap().0.players,
            ..v
        }),
{
    let winners = crate::game::showdown_winners(v);
    match v.stage {
        Stage::Showdown(true) => {
            let strengths = crate::game::strengths(v.players_cards());
            lemma_pot_winners_total(v.pots, strengths);
            assert forall|k: int| 0 <= k < winners.len() implies (#[trigger] winners[k]).1.finite()
                && winners[k].1.subset_of(seated_ids(v.players)) by {
                let pot = v.pots[v.pots.len() - 1 - k];
                vstd::set_lib::lemma_set_subset_finite(pot.players, winners[k].1);
            }
        },
        Stage::Showdown(false) => {
            lemma_first_seat(v.players, Seek::InHand, 0);
            lemma_pots_total_nonneg(v.pots);
            assert(winners_total(winners.drop_last()) == 0);
        },
        _ => {},
    }
    lemma_pay_pots_pay_all(v.players, winners);
}

} // verus!
