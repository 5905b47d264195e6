//! The game service, as far as it decides: who wins the pots of a hand, and
//! what is to be published after each step of a room. The caller holds the
//! lock of the room, performs what is listed, and keeps the order.

use vstd::prelude::*;
use std::collections::HashMap;
use std::collections::HashSet;
use poker::Eval;
use socketioxide::socket::Sid;
use crate::card::Card;
use crate::domain::Action;
use crate::domain::ServiceRequiredAction;
use crate::domain::User;
use crate::error::Error;
use crate::evaluator::eval_strength;
use crate::evaluator::hand_text;
use crate::state::shown;
use crate::state::texts_of;
use crate::state::PlayerHand;
use crate::state::SharedGameState;
use crate::state::SnapshotView;
use crate::evaluator::hand_strength;
use crate::evaluator::is_better_than;
use crate::evaluator::is_equal_to;
use crate::evaluator::worst_eval;
use crate::evaluator::HandEvaluator;
use crate::player::Player;
use crate::pot::members;
use crate::pot::pot_views;
use crate::pot::pots_total;
use crate::pot::Pot;
use crate::pot::PotView;
use crate::pot::Winnings;
use crate::room::card_lists;
use crate::room::payout_lists;
use crate::room::winner_sets;
use crate::room::Room;
use crate::laws::lemma_join_keeps_sound;
use crate::laws::lemma_pay_keeps_sound;
use crate::laws::lemma_proceed_keeps_sound;
use crate::laws::lemma_take_action_keeps_sound;
use crate::laws::sound;
use crate::laws::turn_right;
use crate::laws::lemma_proceed_sets_turn;
use crate::rules::all_but;
use crate::rules::nobody_connected;
use crate::rules::agrees;
use crate::rules::RoomView;
use crate::rules::Stage;
use crate::seats::find_seat;
use crate::seats::first_seat;
use crate::seats::Seek;

verus! {

/// The outcome of a showdown: the evaluation of every hand that was shown,
/// and for each pot, the last pot first, its chips and its winners.
pub struct GameResult {
    pub hands_eval: HashMap<u128, Eval>,
    pub winners: Vec<(u32, HashSet<u128>)>,
}

/// The strength of the hand of `id`; that of the worst hand where `id` has
/// shown none.
pub open spec fn score(s: Map<u128, int>, id: u128) -> int {
    if s.contains_key(id) {
        s[id]
    } else {
        0
    }
}

/// The winners among `ids`: those whose hand is no weaker than the worst
/// hand and than the hand of any other of `ids`.
pub open spec fn winners_of(ids: Set<u128>, s: Map<u128, int>) -> Set<u128> {
    Set::new(
        |id: u128|
            ids.contains(id) && score(s, id) >= 0 && forall|o: u128|
                ids.contains(o) ==> score(s, o) <= score(s, id),
    )
}

/// The set has a member.
pub open spec fn has_member(ids: Set<u128>) -> bool {
    exists|id: u128| ids.contains(id)
}

/// A pot that somebody can win has a winner, where no hand that is shown
/// is weaker than the worst hand.
pub proof fn lemma_pot_has_winner(ids: Set<u128>, s: Map<u128, int>)
    requires
        ids.finite(),
        has_member(ids),
        forall|id: u128| s.contains_key(id) ==> #[trigger] s[id] >= 0,
    ensures
        has_member(winners_of(ids, s)),
    decreases ids.len(),
{
    let x = choose|id: u128| ids.contains(id);
    let rest = ids.remove(x);
    if has_member(rest) {
        lemma_pot_has_winner(rest, s);
        let w = choose|id: u128| winners_of(rest, s).contains(id);
        if score(s, x) > score(s, w) {
            assert forall|o: u128| ids.contains(o) implies score(s, o) <= score(s, x) by {
                if o != x {
                    assert(rest.contains(o));
                }
            }
            assert(winners_of(ids, s).contains(x));
        } else {
            assert forall|o: u128| ids.contains(o) implies score(s, o) <= score(s, w) by {
                if o != x {
                    assert(rest.contains(o));
                }
            }
            assert(winners_of(ids, s).contains(w));
        }
    } else {
        assert forall|o: u128| ids.contains(o) implies score(s, o) <= score(s, x) by {
            if o != x {
                assert(rest.contains(o));
            }
        }
        assert(winners_of(ids, s).contains(x));
    }
}

/// No evaluation of the map is weaker than the worst hand.
pub open spec fn none_below_worst(evals: Map<u128, Eval>) -> bool {
    forall|id: u128| evals.contains_key(id) ==> eval_strength(#[trigger] evals[id]) >= 0
}

/// Every pot of the showdown that somebody can win has a winner.
pub open spec fn every_pot_won(room: RoomView) -> bool {
    forall|k: int|
        0 <= k < showdown_winners(room).len() ==> has_member(
            (#[trigger] showdown_winners(room)[k]).1,
        ) || (room.stage == Stage::Showdown(true) && !has_member(
            room.pots[room.pots.len() - 1 - k].players,
        ))
}

/// The strengths of the evaluations.
pub open spec fn strengths_of(evals: Map<u128, Eval>) -> Map<u128, int> {
    Map::new(|id: u128| evals.contains_key(id), |id: u128| eval_strength(evals[id]))
}

/// The ids of the list whose hand is no weaker than the worst hand and
/// than any other hand of the list.
pub open spec fn best_ids(v: Seq<(u128, Eval)>) -> Set<u128> {
    Set::new(
        |id: u128|
            exists|i: int|
                0 <= i < v.len() && (#[trigger] v[i]).0 == id && eval_strength(v[i].1) >= 0
                    && forall|j: int|
                    0 <= j < v.len() ==> eval_strength((#[trigger] v[j]).1) <= eval_strength(
                        v[i].1,
                    ),
    )
}

/// The strength of the strongest hand of the list, and at least that of
/// the worst hand.
pub open spec fn top_of(v: Seq<(u128, Eval)>) -> int
    decreases v.len(),
{
    if v.len() == 0 {
        0
    } else {
        let t = top_of(v.drop_last());
        if eval_strength(v.last().1) > t {
            eval_strength(v.last().1)
        } else {
            t
        }
    }
}

proof fn lemma_top_of(v: Seq<(u128, Eval)>)
    ensures
        top_of(v) >= 0,
        forall|j: int| 0 <= j < v.len() ==> eval_strength((#[trigger] v[j]).1) <= top_of(v),
    decreases v.len(),
{
    if v.len() > 0 {
        lemma_top_of(v.drop_last());
        assert forall|j: int| 0 <= j < v.len() implies eval_strength((#[trigger] v[j]).1)
            <= top_of(v) by {
            if j < v.len() - 1 {
                assert(v.drop_last()[j] == v[j]);
            }
        }
    }
}

/// The ids among the first `n` of the list whose hand has the strength `t`.
pub open spec fn ids_at(v: Seq<(u128, Eval)>, n: int, t: int) -> Set<u128> {
    Set::new(
        |id: u128| exists|i: int| 0 <= i < n && (#[trigger] v[i]).0 == id && eval_strength(v[i].1) == t,
    )
}

/// The strength of the cards of each player. Of two lists under one id the
/// later counts.
pub open spec fn strengths(pc: Seq<(u128, Seq<Card>)>) -> Map<u128, int>
    decreases pc.len(),
{
    if pc.len() == 0 {
        Map::empty()
    } else {
        strengths(pc.drop_last()).insert(pc.last().0, hand_strength(pc.last().1))
    }
}

/// The name of the hand of each player. Of two lists under one id the later
/// counts.
pub open spec fn hand_names(pc: Seq<(u128, Seq<Card>)>) -> Map<u128, Seq<char>>
    decreases pc.len(),
{
    if pc.len() == 0 {
        Map::empty()
    } else {
        hand_names(pc.drop_last()).insert(pc.last().0, hand_text(pc.last().1))
    }
}

/// Why cards cannot be evaluated, if they cannot.
pub open spec fn hand_error(cards: Seq<Card>) -> Option<Error> {
    if !cards.no_duplicates() {
        Some(Error::CardsNotUnique)
    } else if cards.len() < 5 {
        Some(Error::InvalidHandSize(cards.len() as usize))
    } else {
        None
    }
}

/// Why the first of the lists that cannot be evaluated cannot.
pub open spec fn hands_error(pc: Seq<(u128, Seq<Card>)>) -> Option<Error>
    decreases pc.len(),
{
    if pc.len() == 0 {
        None
    } else {
        match hands_error(pc.drop_last()) {
            Some(e) => Some(e),
            None => hand_error(pc.last().1),
        }
    }
}

/// The player who takes the pots where a single player is left: the first
/// who is in the hand, or else the first seat.
pub open spec fn sole_survivor(ps: Seq<Player>) -> u128 {
    match first_seat(ps, Seek::InHand) {
        Some(i) => ps[i].id,
        None => ps[0].id,
    }
}

/// For each pot, the last first, its chips and its winners.
pub open spec fn pot_winners(pots: Seq<PotView>, s: Map<u128, int>) -> Seq<(u32, Set<u128>)> {
    Seq::new(
        pots.len(),
        |k: int|
            (
                pots[pots.len() - 1 - k].amount as u32,
                winners_of(pots[pots.len() - 1 - k].players, s),
            ),
    )
}

/// Why the winners of a room cannot be found, if they cannot.
pub open spec fn find_winners_error(room: RoomView) -> Option<Error> {
    match room.stage {
        Stage::Showdown(false) => if room.players.len() == 0 {
            Some(Error::NoPlayerLeft)
        } else if pots_total(room.pots) > u32::MAX {
            Some(Error::AmountOverflow)
        } else {
            None
        },
        Stage::Showdown(true) => hands_error(room.players_cards()),
        _ => Some(Error::NotShowdown),
    }
}

/// The winners of the pots of a room at its showdown, the last pot first.
/// Where a single player is left, they win the sum of the pots.
pub open spec fn showdown_winners(room: RoomView) -> Seq<(u32, Set<u128>)> {
    match room.stage {
        Stage::Showdown(true) => pot_winners(room.pots, strengths(room.players_cards())),
        _ => seq![(pots_total(room.pots) as u32, set![sole_survivor(room.players)])],
    }
}

/// The names of the hands that are shown at the showdown of a room: none
/// where a single player is left.
pub open spec fn showdown_names(room: RoomView) -> Map<u128, Seq<char>> {
    match room.stage {
        Stage::Showdown(true) => hand_names(room.players_cards()),
        _ => Map::empty(),
    }
}

/// The evaluations are those of the hands that are shown at the showdown
/// of a room.
pub open spec fn evals_of(room: RoomView, evals: Map<u128, Eval>) -> bool {
    match room.stage {
        Stage::Showdown(true) => strengths_of(evals) == strengths(room.players_cards())
            && texts_of(evals) == hand_names(room.players_cards()),
        _ => evals == Map::<u128, Eval>::empty(),
    }
}

/// The game service: the evaluator of hands, shared by all rooms.
pub struct GameService {
    pub evaluator: HandEvaluator,
}

fn sum_pots(pots: &Vec<Pot>) -> (r: Option<u32>)
    ensures
        match r {
            Some(t) => t == pots_total(pot_views(pots@)),
            None => pots_total(pot_views(pots@)) > u32::MAX,
        },
{
    let mut total: u32 = 0;
    let mut i: usize = 0;
    let ghost all = pot_views(pots@);
    while i < pots.len()
        invariant
            i <= pots@.len(),
            all == pot_views(pots@),
            total == pots_total(all.take(i as int)),
        decreases pots@.len() - i,
    {
        assert(all.take(i + 1).drop_last() =~= all.take(i as int));
        match total.checked_add(pots[i].amount) {
            Some(t) => {
                total = t;
            },
            None => {
                proof {
                    lemma_total_grows(all, i + 1);
                }
                return None;
            },
        }
        i += 1;
    }
    assert(all.take(i as int) =~= all);
    Some(total)
}

proof fn lemma_total_grows(pots: Seq<PotView>, i: int)
    requires
        0 <= i <= pots.len(),
    ensures
        pots_total(pots.take(i)) <= pots_total(pots),
    decreases pots.len() - i,
{
    if i < pots.len() {
        assert(pots.take(i + 1).drop_last() =~= pots.take(i));
        lemma_total_grows(pots, i + 1);
    } else {
        assert(pots.take(i) =~= pots);
    }
}

impl GameService {
    /// A service with the tables of its evaluator built.
    pub fn new() -> (s: Self)
        ensures
            s.evaluator.ready(),
    {
        GameService { evaluator: HandEvaluator::new() }
    }

    /// The players of the list who are tied for the best hand: every hand
    /// is held against the best so far, starting from the worst hand of
    /// all.
    pub fn all_best_hands(v: &Vec<(u128, Eval)>) -> (r: HashSet<u128>)
        ensures
            r@ == best_ids(v@),
    {
        broadcast use vstd::std_specs::hash::group_hash_axioms;

        let mut largest: HashSet<u128> = HashSet::new();
        let mut best_hand = worst_eval();
        let mut i: usize = 0;
        while i < v.len()
            invariant
                i <= v@.len(),
                eval_strength(best_hand) == top_of(v@.take(i as int)),
                largest@ == ids_at(v@, i as int, eval_strength(best_hand)),
            decreases v@.len() - i,
        {
            proof {
                assert(v@.take(i + 1).drop_last() =~= v@.take(i as int));
                lemma_top_of(v@.take(i as int));
                assert forall|j: int| 0 <= j < i implies eval_strength((#[trigger] v@[j]).1)
                    <= top_of(v@.take(i as int)) by {
                    assert(v@.take(i as int)[j] == v@[j]);
                }
            }
            let ghost t = eval_strength(best_hand);
            let player_id = v[i].0;
            let hand = v[i].1;
            if is_better_than(&hand, &best_hand) {
                largest.clear();
                largest.insert(player_id);
                best_hand = hand;
            } else if is_equal_to(&hand, &best_hand) {
                largest.insert(player_id);
            }
            i += 1;
        }
        proof {
            assert(v@.take(i as int) =~= v@);
            lemma_top_of(v@);
            let t = top_of(v@);
            assert(ids_at(v@, v@.len() as int, t) =~= best_ids(v@)) by {
                assert forall|id: u128| ids_at(v@, v@.len() as int, t).contains(id) == best_ids(
                    v@,
                ).contains(id) by {
                    if best_ids(v@).contains(id) {
                        let w = choose|w: int|
                            0 <= w < v@.len() && (#[trigger] v@[w]).0 == id && eval_strength(
                                v@[w].1,
                            ) >= 0 && forall|j: int|
                                0 <= j < v@.len() ==> eval_strength((#[trigger] v@[j]).1)
                                    <= eval_strength(v@[w].1);
                        lemma_top_attained(v@, eval_strength(v@[w].1));
                    }
                }
            }
        }
        largest
    }

    /// The winners of a pot: the players of the pot who are tied for the
    /// best hand, a player who shows no hand counting as the worst hand.
    pub fn pot_best(pot: &Pot, evals: &HashMap<u128, Eval>) -> (r: HashSet<u128>)
        ensures
            r@ == winners_of(pot@.players, strengths_of(evals@)),
            none_below_worst(evals@) && has_member(pot@.players) ==> has_member(r@),
    {
        broadcast use vstd::std_specs::hash::group_hash_axioms;

        let ids = members(&pot.players);
        let mut hands: Vec<(u128, Eval)> = Vec::new();
        let mut j: usize = 0;
        while j < ids.len()
            invariant
                j <= ids@.len(),
                hands@.len() == j,
                forall|q: int|
                    0 <= q < j ==> (#[trigger] hands@[q]).0 == ids@[q] && eval_strength(hands@[q].1)
                        == score(strengths_of(evals@), ids@[q]),
            decreases ids@.len() - j,
        {
            let id = ids[j];
            let e = match evals.get(&id) {
                Some(e) => *e,
                None => worst_eval(),
            };
            hands.push((id, e));
            j += 1;
        }
        let best = GameService::all_best_hands(&hands);
        proof {
            let sm = strengths_of(evals@);
            let want = winners_of(pot@.players, sm);
            assert forall|id: u128| best_ids(hands@).contains(id) == want.contains(id) by {
                if best_ids(hands@).contains(id) {
                    let w = choose|w: int|
                        0 <= w < hands@.len() && (#[trigger] hands@[w]).0 == id && eval_strength(
                            hands@[w].1,
                        ) >= 0 && forall|j: int|
                            0 <= j < hands@.len() ==> eval_strength((#[trigger] hands@[j]).1)
                                <= eval_strength(hands@[w].1);
                    assert forall|o: u128| pot@.players.contains(o) implies score(sm, o) <= score(
                        sm,
                        id,
                    ) by {
                        let q = choose|q: int| 0 <= q < ids@.len() && ids@[q] == o;
                        assert(eval_strength(hands@[q].1) <= eval_strength(hands@[w].1));
                    }
                }
                if want.contains(id) {
                    let w = choose|w: int| 0 <= w < ids@.len() && ids@[w] == id;
                    assert forall|j: int| 0 <= j < hands@.len() implies eval_strength(
                        (#[trigger] hands@[j]).1,
                    ) <= eval_strength(hands@[w].1) by {
                        assert(pot@.players.contains(ids@[j]));
                    }
                }
            }
        }
        proof {
            if none_below_worst(evals@) && has_member(pot@.players) {
                lemma_pot_has_winner(pot@.players, strengths_of(evals@));
            }
        }
        best
    }

    /// Finds the winners of the pots of a room at its showdown. Where a
    /// single player is left, they take the sum of the pots and no hand is
    /// evaluated. Otherwise the cards of every player in the hand are
    /// evaluated, and each pot, the last first, goes to those of its
    /// players who are tied for the best hand.
    pub fn find_winners(&self, room: &Room) -> (r: Result<GameResult, Error>)
        ensures
            match r {
                Ok(res) => find_winners_error(room@) is None && evals_of(room@, res.hands_eval@)
                    && winner_sets(res.winners@) == showdown_winners(room@)
                    && none_below_worst(res.hands_eval@) && every_pot_won(room@),
                Err(e) => find_winners_error(room@) == Some(e),
            },
    {
        broadcast use vstd::std_specs::hash::group_hash_axioms;

        match room.stage {
            Stage::Showdown(false) => {
                if room.players.len() == 0 {
                    return Err(Error::NoPlayerLeft);
                }
                let sole = match find_seat(&room.players, Seek::InHand) {
                    Some(i) => i,
                    None => 0,
                };
                let total = match sum_pots(&room.pots) {
                    Some(t) => t,
                    None => {
                        return Err(Error::AmountOverflow);
                    },
                };
                let mut only: HashSet<u128> = HashSet::new();
                only.insert(room.players[sole].id);
                let mut winners: Vec<(u32, HashSet<u128>)> = Vec::new();
                winners.push((total, only));
                let hands_eval: HashMap<u128, Eval> = HashMap::new();
                assert(showdown_winners(room@)[0].1.contains(room.players@[sole as int].id));
                return Ok(GameResult { hands_eval, winners });
            },
            Stage::Showdown(true) => {},
            _ => {
                return Err(Error::NotShowdown);
            },
        }
        let cards = room.players_cards();
        let ghost pc = card_lists(cards@);
        let mut hands_eval: HashMap<u128, Eval> = HashMap::new();
        let mut i: usize = 0;
        while i < cards.len()
            invariant
                i <= cards@.len(),
                pc == card_lists(cards@),
                pc == room@.players_cards(),
                room.stage == Stage::Showdown(true),
                hands_error(pc.take(i as int)) is None,
                strengths_of(hands_eval@) == strengths(pc.take(i as int)),
                texts_of(hands_eval@) == hand_names(pc.take(i as int)),
                none_below_worst(hands_eval@),
            decreases cards@.len() - i,
        {
            proof {
                assert(pc.take(i + 1).drop_last() =~= pc.take(i as int));
            }
            match self.evaluator.evaluate(&cards[i].1) {
                Err(e) => {
                    proof {
                        lemma_hands_error_stays(pc, i + 1);
                    }
                    return Err(e);
                },
                Ok(e) => {
                    hands_eval.insert(cards[i].0, e);
                },
            }
            i += 1;
        }
        assert(pc.take(i as int) =~= pc);
        let n = room.pots.len();
        let mut winners: Vec<(u32, HashSet<u128>)> = Vec::with_capacity(n);
        let mut k: usize = 0;
        let ghost want = pot_winners(room@.pots, strengths_of(hands_eval@));
        while k < n
            invariant
                k <= n,
                n == room.pots@.len(),
                want == pot_winners(room@.pots, strengths_of(hands_eval@)),
                winner_sets(winners@) == want.take(k as int),
                none_below_worst(hands_eval@),
                forall|j: int|
                    0 <= j < k ==> has_member((#[trigger] want[j]).1) || !has_member(
                        room@.pots[n - 1 - j].players,
                    ),
            decreases n - k,
        {
            let pot = &room.pots[n - 1 - k];
            let best = GameService::pot_best(pot, &hands_eval);
            winners.push((pot.amount, best));
            proof {
                assert(want.take(k + 1) =~= want.take(k as int).push(want[k as int]));
            }
            k += 1;
        }
        assert(want.take(k as int) =~= want);
        Ok(GameResult { hands_eval, winners })
    }
}

/// Where the first `i` lists hold one that cannot be evaluated, the error of
/// all the lists is that of those.
proof fn lemma_hands_error_stays(pc: Seq<(u128, Seq<Card>)>, i: int)
    requires
        0 <= i <= pc.len(),
        hands_error(pc.take(i)) is Some,
    ensures
        hands_error(pc) == hands_error(pc.take(i)),
    decreases pc.len() - i,
{
    if i < pc.len() {
        assert(pc.take(i + 1).drop_last() =~= pc.take(i));
        lemma_hands_error_stays(pc, i + 1);
    } else {
        assert(pc.take(i) =~= pc);
    }
}

proof fn lemma_top_attained(v: Seq<(u128, Eval)>, s: int)
    requires
        s >= 0,
        forall|j: int| 0 <= j < v.len() ==> eval_strength((#[trigger] v[j]).1) <= s,
    ensures
        top_of(v) <= s,
    decreases v.len(),
{
    if v.len() > 0 {
        lemma_top_attained(v.drop_last(), s);
    }
}

/// The seconds for which a showdown is shown before the pots are paid.
pub const REVEAL_DELAY_SECS: u64 = 5;

/// The seconds for which the payout of a pot is shown.
pub const PAYOUT_DELAY_SECS: u64 = 3;

/// One thing that the caller of the service has to do. The caller does them
/// in their order, while it holds the lock of the room.
#[derive(Debug)]
pub enum Effect {
    /// Take the socket out of every topic and subscribe it to the topic of
    /// the room.
    Subscribe(Sid),
    /// Take the socket out of the topic of the room.
    Unsubscribe(Sid),
    /// Send a `room` event with this state to the topic of the room.
    EmitRoom(SharedGameState),
    /// Send a `hand` event with these cards to this socket alone.
    EmitHand { sid: Sid, hand: PlayerHand },
    /// Send an `outcome` event with these payouts to the topic of the room.
    EmitOutcome(Vec<Winnings>),
    /// Wait for so many seconds.
    Sleep(u64),
}

/// An effect as a value.
pub enum EffectView {
    Subscribe(Sid),
    Unsubscribe(Sid),
    Room(SnapshotView),
    Hand { sid: Sid, hand: PlayerHand },
    Outcome(Seq<Winnings>),
    Sleep(u64),
}

impl View for Effect {
    type V = EffectView;

    open spec fn view(&self) -> EffectView {
        match *self {
            Effect::Subscribe(sid) => EffectView::Subscribe(sid),
            Effect::Unsubscribe(sid) => EffectView::Unsubscribe(sid),
            Effect::EmitRoom(s) => EffectView::Room(s@),
            Effect::EmitHand { sid, hand } => EffectView::Hand { sid, hand },
            Effect::EmitOutcome(w) => EffectView::Outcome(w@),
            Effect::Sleep(n) => EffectView::Sleep(n),
        }
    }
}

/// The effects of a list, as values.
pub open spec fn effect_views(es: Seq<Effect>) -> Seq<EffectView> {
    Seq::new(es.len(), |i: int| es[i]@)
}

/// The state of the room is published with the hole cards hidden.
pub open spec fn publish(room: RoomView) -> Seq<EffectView> {
    seq![EffectView::Room(shown(room, false, Map::empty()))]
}

/// Every player who holds cards is sent them, in the order of the seats.
pub open spec fn hands_out(ps: Seq<Player>) -> Seq<EffectView>
    decreases ps.len(),
{
    if ps.len() == 0 {
        Seq::empty()
    } else {
        match ps.last().hand {
            Some(h) => hands_out(ps.drop_last()).push(
                EffectView::Hand {
                    sid: ps.last().sid,
                    hand: PlayerHand([Some(h.0@[0]), Some(h.0@[1])]),
                },
            ),
            None => hands_out(ps.drop_last()),
        }
    }
}

/// What is published after a step that leaves the room `room`: its state,
/// and after the start of a hand the cards of every player.
pub open spec fn after_step(room: RoomView, action: ServiceRequiredAction) -> Seq<EffectView> {
    match action {
        ServiceRequiredAction::PlayerReceiveCards => publish(room) + hands_out(room.players),
        _ => publish(room),
    }
}

/// The showdown is published: the state of the room with the hole cards
/// and the names of the hands, and a pause to look at it.
pub open spec fn opening(room: RoomView) -> Seq<EffectView> {
    seq![
        EffectView::Room(shown(room, true, showdown_names(room))),
        EffectView::Sleep(REVEAL_DELAY_SECS),
    ]
}

/// The payouts of a list are published one by one, in the order of the
/// list, each with a pause after it.
pub open spec fn payouts(outs: Seq<Seq<Winnings>>) -> Seq<EffectView>
    decreases outs.len(),
{
    if outs.len() == 0 {
        Seq::empty()
    } else {
        payouts(outs.drop_last()) + seq![
            EffectView::Outcome(outs.last()),
            EffectView::Sleep(PAYOUT_DELAY_SECS),
        ]
    }
}

/// An empty payout, which clears the display of the payouts.
pub open spec fn closing() -> Seq<EffectView> {
    seq![EffectView::Outcome(Seq::empty())]
}

/// The pots of a showdown are paid to their winners.
pub open spec fn settle(room: RoomView) -> Result<(RoomView, Seq<Seq<Winnings>>), Error> {
    match find_winners_error(room) {
        Some(e) => Err(e),
        None => match crate::rules::pay_pots(room.players, showdown_winners(room)) {
            Err(e) => Err(e),
            Ok((ps, outs)) => Ok((RoomView { players: ps, ..room }, outs)),
        },
    }
}

/// The service has done what `action` asks for in the room `before`: `r`
/// holds what is to be published, and `after` is the room that is left. A
/// showdown is settled, its payouts are published in the reverse of the
/// order in which the pots were paid, and the room moves on to its next
/// hand; any other step leaves the room as it is. Where something is refused, nothing is
/// published and the room is as before.
pub open spec fn served(
    before: RoomView,
    action: ServiceRequiredAction,
    r: Result<Vec<Effect>, Error>,
    after: RoomView,
) -> bool {
    match action {
        ServiceRequiredAction::FindWinners => match settle(before) {
            Err(e) => r is Err && r.unwrap_err() == e && after == before,
            Ok((paid, outs)) => match paid.proceed() {
                Err(e) => r is Err && r.unwrap_err() == e && after == before,
                Ok((plan, next, dealing)) => r is Ok && agrees(plan, dealing, after)
                    && effect_views(r.unwrap()@) == opening(before) + payouts(outs.reverse())
                    + closing() + after_step(after, next),
            },
        },
        _ => r is Ok && after == before && effect_views(r.unwrap()@) == after_step(before, action),
    }
}

/// The service has done in the room `mid` what `action` asks for, and
/// `after` is the room that is left where nothing was refused.
pub open spec fn served_from(
    mid: RoomView,
    action: ServiceRequiredAction,
    r: Result<Vec<Effect>, Error>,
    after: RoomView,
) -> bool {
    served(mid, action, r, if r is Err {
        mid
    } else {
        after
    })
}

/// The service has let a player act in the room `before`: the room took
/// the action and the step after it, which dealt the cards of some room
/// `mid`, and the service did there what that step asked for. A refused
/// action leaves the room as before.
pub open spec fn action_served(
    before: RoomView,
    player_id: u128,
    action: Action,
    r: Result<Vec<Effect>, Error>,
    after: RoomView,
) -> bool {
    match before.take_action(player_id, action) {
        Err(e) => r is Err && r.unwrap_err() == e && after == before,
        Ok((plan, asked, dealing)) => exists|mid: RoomView|
            agrees(plan, dealing, mid) && #[trigger] served_from(mid, asked, r, after) && (r is Err ==> after == before),
    }
}

/// What joining a room gives: what is to be published, the balance that
/// is left to the user, and the number of players of the room.
#[derive(Debug)]
pub struct Joined {
    pub effects: Vec<Effect>,
    pub balance: i64,
    pub player_count: usize,
}

/// What leaving a room gives: what is to be published, the chips that
/// the player takes along, and the number of players of the room.
#[derive(Debug)]
pub struct Left {
    pub effects: Vec<Effect>,
    pub chips: u32,
    pub player_count: usize,
}

/// Why a user cannot sit down with `buy_in` chips, if they cannot: they
/// have less, or the chips do not fit the stack of a player.
pub open spec fn buy_in_error(balance: i64, buy_in: i64) -> Option<Error> {
    if buy_in > balance {
        Some(Error::InsufficientBalance)
    } else if buy_in < 0 || buy_in > u32::MAX {
        Some(Error::AmountOverflow)
    } else {
        None
    }
}

/// The service has let a user join the room `before` with `buy_in` chips.
pub open spec fn join_served(
    before: RoomView,
    user: User,
    buy_in: i64,
    sid: Sid,
    r: Result<Joined, Error>,
    after: RoomView,
) -> bool {
    match buy_in_error(user.balance, buy_in) {
        Some(e) => r is Err && r.unwrap_err() == e && after == before,
        None => exists|p: Player|
            p.fresh(user.id, user.name, buy_in as u32, sid) && #[trigger] joined(
                before,
                p,
                user.balance - buy_in,
                sid,
                r,
                after,
            ),
    }
}

/// The service has seated the player `p` in the room `before`.
pub open spec fn joined(
    before: RoomView,
    p: Player,
    balance: int,
    sid: Sid,
    r: Result<Joined, Error>,
    after: RoomView,
) -> bool {
    match before.join_player(p) {
        Err(e) => r is Err && r.unwrap_err() == e && after == before,
        Ok((plan, asked, dealing)) => exists|mid: RoomView, rest: Result<Vec<Effect>, Error>|
            agrees(plan, dealing, mid) && #[trigger] served_from(mid, asked, rest, after) && (match rest {
                Err(e) => r is Err && r.unwrap_err() == e && after == before,
                Ok(es) => r is Ok && r.unwrap().balance == balance && r.unwrap().player_count
                    == counted(mid) && effect_views(r.unwrap().effects@) == seq![
                    EffectView::Subscribe(sid),
                ] + effect_views(es@),
            }),
    }
}

/// The service has let a player leave the room `before`: the room took
/// the leave and the step that follows it, which dealt the cards of some
/// room `mid`, and the service did there what that step asked for.
pub open spec fn left(before: RoomView, player_id: u128, sid: Sid, r: Left, after: RoomView) -> bool {
    let (plan, asked, dealing) = before.leave_player(player_id);
    r.chips == before.chips_of(player_id) && r.player_count == counted(after) && exists|
        mid: RoomView,
        rest: Result<Vec<Effect>, Error>,
    |
        agrees(plan, dealing, mid) && #[trigger] left_from(mid, asked, sid, rest, r, after)
}

/// The service has done in the room `mid`, which a leave has left, what
/// the step after the leave asked for, with the outcome `rest`. The socket
/// leaves the topic of the room first; then goes out what was served, or,
/// where that was refused, the state of the room as the leave left it.
pub open spec fn left_from(
    mid: RoomView,
    asked: ServiceRequiredAction,
    sid: Sid,
    rest: Result<Vec<Effect>, Error>,
    r: Left,
    after: RoomView,
) -> bool {
    served(mid, asked, rest, after) && effect_views(r.effects@) == seq![
        EffectView::Unsubscribe(sid),
    ] + (match rest {
        Ok(es) => effect_views(es@),
        Err(_) => publish(mid),
    })
}

/// The number of players of a room as the service reports it.
pub open spec fn counted(room: RoomView) -> int {
    if room.player_count() <= usize::MAX {
        room.player_count() as int
    } else {
        usize::MAX as int
    }
}

fn publish_room(room: &Room) -> (e: Effect)
    ensures
        e@ == EffectView::Room(shown(room@, false, Map::empty())),
{
    Effect::EmitRoom(SharedGameState::from_room(room.clone(), false))
}

fn simple_effects(room: &Room, action: ServiceRequiredAction) -> (es: Vec<Effect>)
    ensures
        effect_views(es@) == after_step(room@, action),
{
    let mut es: Vec<Effect> = Vec::new();
    es.push(publish_room(room));
    match action {
        ServiceRequiredAction::PlayerReceiveCards => {
            let mut i: usize = 0;
            while i < room.players.len()
                invariant
                    i <= room.players@.len(),
                    effect_views(es@) == publish(room@) + hands_out(room.players@.take(i as int)),
                decreases room.players@.len() - i,
            {
                assert(room.players@.take(i + 1).drop_last() =~= room.players@.take(i as int));
                let ghost before = es@;
                match room.players[i].hand {
                    Some(h) => {
                        let hand = PlayerHand([Some(h.0[0]), Some(h.0[1])]);
                        es.push(Effect::EmitHand { sid: room.players[i].sid, hand });
                        assert(effect_views(es@) =~= effect_views(before).push(
                            EffectView::Hand { sid: room.players@[i as int].sid, hand },
                        ));
                    },
                    None => {},
                }
                i += 1;
            }
            assert(room.players@.take(i as int) =~= room.players@);
        },
        _ => {},
    }
    es
}

impl GameService {
    fn serve(&self, action: ServiceRequiredAction, room: &mut Room) -> (r: Result<
        Vec<Effect>,
        Error,
    >)
        ensures
            r is Ok ==> served(old(room)@, action, r, final(room)@),
            r is Err ==> served(old(room)@, action, r, old(room)@),
    {
        match action {
            ServiceRequiredAction::FindWinners => {},
            _ => {
                return Ok(simple_effects(room, action));
            },
        }
        let res = self.find_winners(room)?;
        let GameResult { hands_eval, winners } = res;
        let state = SharedGameState::from_room(room.clone(), true).with_eval(&hands_eval);
        proof {
            crate::state::lemma_with_names(room@, true, texts_of(hands_eval@));
            assert(texts_of(hands_eval@) =~= showdown_names(room@));
        }
        let mut es: Vec<Effect> = Vec::new();
        es.push(Effect::EmitRoom(state));
        es.push(Effect::Sleep(REVEAL_DELAY_SECS));
        let mut splits = room.split_pot(winners)?;
        let ghost outs = payout_lists(splits@);
        let n = splits.len();
        let mut i: usize = 0;
        while i < n
            invariant
                i <= n,
                n == splits@.len(),
                outs.len() == n,
                forall|j: int| 0 <= j < n - i ==> splits@[j]@ == outs[j],
                effect_views(es@) == opening(old(room)@) + payouts(outs.reverse().take(i as int)),
            decreases n - i,
        {
            let k: usize = n - 1 - i;
            let mut wins: Vec<Winnings> = Vec::new();
            std::mem::swap(&mut wins, &mut splits[k]);
            proof {
                assert(outs.reverse().take(i + 1).drop_last() =~= outs.reverse().take(i as int));
                assert(outs.reverse().take(i + 1).last() == outs[k as int]);
            }
            let ghost before = es@;
            let ghost list = wins@;
            es.push(Effect::EmitOutcome(wins));
            es.push(Effect::Sleep(PAYOUT_DELAY_SECS));
            assert(effect_views(es@) =~= effect_views(before) + seq![
                EffectView::Outcome(list),
                EffectView::Sleep(PAYOUT_DELAY_SECS),
            ]);
            i += 1;
        }
        assert(outs.reverse().take(i as int) =~= outs.reverse());
        let ghost before = es@;
        es.push(Effect::EmitOutcome(Vec::new()));
        assert(effect_views(es@) =~= effect_views(before) + closing());
        let next = room.proceed()?;
        let mut rest = simple_effects(room, next);
        let ghost head = es@;
        let ghost tail = rest@;
        es.append(&mut rest);
        assert(effect_views(es@) =~= effect_views(head) + effect_views(tail));
        Ok(es)
    }

    /// Does what a step of a room asks of the service, and lists what is to
    /// be published. After a plain step that is the state of the room;
    /// after the start of a hand, the state and then the cards of every
    /// player; at a showdown the winners are found, the showdown is shown,
    /// the pots are paid one by one, and the room moves on to its next
    /// hand. Where something is refused, the room is left as it was.
    pub fn service_action_required(&self, action: ServiceRequiredAction, room: &mut Room) -> (r:
        Result<Vec<Effect>, Error>)
        ensures
            served(old(room)@, action, r, final(room)@),
            sound(old(room)@) ==> sound(final(room)@),
    {
        let backup = room.clone();
        let r = self.serve(action, room);
        if r.is_err() {
            *room = backup;
        }
        proof {
            if sound(old(room)@) {
                lemma_served_keeps_sound(old(room)@, action, r, room@);
            }
        }
        r
    }

    /// Lets a player act in a room, and lists what is to be published.
    pub fn take_action(&self, room: &mut Room, player_id: u128, action: Action) -> (r: Result<
        Vec<Effect>,
        Error,
    >)
        ensures
            action_served(old(room)@, player_id, action, r, final(room)@),
            sound(old(room)@) ==> sound(final(room)@),
    {
        let backup = room.clone();
        let asked = room.take_action(player_id, action)?;
        let ghost mid = room@;
        let r = self.service_action_required(asked, room);
        if r.is_err() {
            proof {
                lemma_served_err(mid, asked, r, room@);
            }
            *room = backup;
        }
        proof {
            assert(served_from(mid, asked, r, room@));
            if sound(old(room)@) {
                lemma_action_served_keeps_sound(old(room)@, player_id, action, r, room@);
            }
        }
        r
    }

    /// Lets a user join a room with `buy_in` chips from their balance, and
    /// lists what is to be published.
    pub fn join_player(&self, room: &mut Room, user: &User, buy_in: i64, sid: Sid) -> (r: Result<
        Joined,
        Error,
    >)
        ensures
            join_served(old(room)@, *user, buy_in, sid, r, final(room)@),
            sound(old(room)@) ==> sound(final(room)@),
    {
        if buy_in > user.balance {
            return Err(Error::InsufficientBalance);
        }
        if buy_in < 0 || buy_in > u32::MAX as i64 {
            return Err(Error::AmountOverflow);
        }
        let backup = room.clone();
        let player = Player::from_user(user, buy_in as u32, sid);
        let asked = match room.join_player(player) {
            Ok(a) => a,
            Err(e) => {
                proof {
                    assert(joined(
                        old(room)@,
                        player,
                        user.balance - buy_in,
                        sid,
                        Err::<Joined, Error>(e),
                        room@,
                    ));
                }
                return Err(e);
            },
        };
        let ghost mid = room@;
        let player_count = room.player_count();
        match self.service_action_required(asked, room) {
            Err(e) => {
                proof {
                    let rest = Err::<Vec<Effect>, Error>(e);
                    lemma_served_err(mid, asked, rest, room@);
                }
                *room = backup;
                Err(e)
            },
            Ok(rest) => {
                let mut effects: Vec<Effect> = Vec::new();
                effects.push(Effect::Subscribe(sid));
                let ghost tail = rest@;
                let ghost whole = Ok::<Vec<Effect>, Error>(rest);
                let mut rest = rest;
                effects.append(&mut rest);
                let r = Joined { effects, balance: user.balance - buy_in, player_count };
                proof {
                    assert(effect_views(r.effects@) =~= seq![EffectView::Subscribe(sid)]
                        + effect_views(tail));
                    assert(served_from(mid, asked, whole, room@));
                    assert(joined(
                        old(room)@,
                        player,
                        user.balance - buy_in,
                        sid,
                        Ok::<Joined, Error>(r),
                        room@,
                    ));
                }
                Ok(r)
            },
        }
    }

    /// Lets a player leave a room, and lists what is to be published: the
    /// socket leaves the topic of the room, the room takes the step that
    /// follows, and the service does what that step asks for. Where it
    /// cannot, the room stays as the leave left it and its state goes out
    /// to those who stay.
    pub fn leave_player(&self, room: &mut Room, user_id: u128, sid: Sid) -> (r: Left)
        ensures
            left(old(room)@, user_id, sid, r, final(room)@),
            sound(old(room)@) ==> sound(final(room)@),
            old(room)@.leaves_in_turn(user_id) ==> turn_right(final(room)@),
            nobody_connected(all_but(old(room)@.players, user_id)) ==> sound(final(room)@),
    {
        let (chips, asked) = room.leave_and_step(user_id);
        let ghost mid = room@;
        let mut effects: Vec<Effect> = Vec::new();
        effects.push(Effect::Unsubscribe(sid));
        let served = self.service_action_required(asked, room);
        let ghost rest = served;
        proof {
            if old(room)@.leaves_in_turn(user_id) {
                lemma_served_keeps_turn(mid, asked, rest, room@);
            }
        }
        let mut tail = match served {
            Ok(es) => es,
            Err(_) => {
                let mut es: Vec<Effect> = Vec::new();
                es.push(publish_room(room));
                assert(effect_views(es@) =~= publish(mid));
                es
            },
        };
        let ghost seen = tail@;
        effects.append(&mut tail);
        let player_count = room.player_count();
        let r = Left { effects, chips, player_count };
        proof {
            assert(effect_views(r.effects@) =~= seq![EffectView::Unsubscribe(sid)] + effect_views(
                seen,
            ));
            assert(left_from(mid, asked, sid, rest, r, room@));
        }
        r
    }
}

/// Serving a step keeps a sound room sound.
pub proof fn lemma_served_keeps_sound(
    before: RoomView,
    action: ServiceRequiredAction,
    r: Result<Vec<Effect>, Error>,
    after: RoomView,
)
    requires
        sound(before),
        served(before, action, r, after),
    ensures
        sound(after),
{
    if action is FindWinners && settle(before) is Ok {
        let (paid, outs) = settle(before).unwrap();
        lemma_pay_keeps_sound(before, showdown_winners(before));
        if paid.proceed() is Ok {
            lemma_proceed_keeps_sound(paid, after);
        }
    }
}

/// Serving a step keeps the turn right.
pub proof fn lemma_served_keeps_turn(
    before: RoomView,
    action: ServiceRequiredAction,
    r: Result<Vec<Effect>, Error>,
    after: RoomView,
)
    requires
        turn_right(before),
        served(before, action, r, after),
    ensures
        turn_right(after),
{
    if action is FindWinners && settle(before) is Ok {
        let (paid, outs) = settle(before).unwrap();
        if paid.proceed() is Ok {
            lemma_proceed_sets_turn(paid, after);
        }
    }
}

/// An action that the service lets a player take keeps a sound room sound.
pub proof fn lemma_action_served_keeps_sound(
    before: RoomView,
    player_id: u128,
    action: Action,
    r: Result<Vec<Effect>, Error>,
    after: RoomView,
)
    requires
        sound(before),
        action_served(before, player_id, action, r, after),
    ensures
        sound(after),
{
    if before.take_action(player_id, action) is Ok && r is Ok {
        let (plan, asked, dealing) = before.take_action(player_id, action).unwrap();
        let mid = choose|mid: RoomView|
            agrees(plan, dealing, mid) && #[trigger] served_from(mid, asked, r, after) && (r is Err
                ==> after == before);
        lemma_take_action_keeps_sound(before, player_id, action, mid);
        lemma_served_keeps_sound(mid, asked, r, after);
    }
}

/// A user whom the service lets join keeps a sound room sound.
pub proof fn lemma_join_served_keeps_sound(
    before: RoomView,
    user: User,
    buy_in: i64,
    sid: Sid,
    r: Result<Joined, Error>,
    after: RoomView,
)
    requires
        sound(before),
        join_served(before, user, buy_in, sid, r, after),
    ensures
        sound(after),
{
    if buy_in_error(user.balance, buy_in) is None {
        let p = choose|p: Player|
            p.fresh(user.id, user.name, buy_in as u32, sid) && #[trigger] joined(
                before,
                p,
                user.balance - buy_in,
                sid,
                r,
                after,
            );
        if before.join_player(p) is Ok {
            let (plan, asked, dealing) = before.join_player(p).unwrap();
            let (mid, rest) = choose|mid: RoomView, rest: Result<Vec<Effect>, Error>|
                agrees(plan, dealing, mid) && #[trigger] served_from(mid, asked, rest, after) && (
                match rest {
                    Err(e) => r is Err && r.unwrap_err() == e && after == before,
                    Ok(es) => r is Ok && r.unwrap().balance == user.balance - buy_in
                        && r.unwrap().player_count == counted(mid) && effect_views(
                        r.unwrap().effects@,
                    ) == seq![EffectView::Subscribe(sid)] + effect_views(es@),
                });
            if rest is Ok {
                lemma_join_keeps_sound(before, p, mid);
                lemma_served_keeps_sound(mid, asked, rest, after);
            }
        }
    }
}

/// What is refused is refused whatever room is left: the verdict does not
/// speak of the room but to say that it is as before.
proof fn lemma_served_err(
    before: RoomView,
    action: ServiceRequiredAction,
    r: Result<Vec<Effect>, Error>,
    after: RoomView,
)
    requires
        r is Err,
        served(before, action, r, after),
    ensures
        served(before, action, r, before),
{
}

} // verus!
