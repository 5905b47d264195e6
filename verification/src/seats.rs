//! The seats of a table, in clockwise order: who bets most, who sits where,
//! who acts next.

use vstd::prelude::*;
use std::collections::HashSet;
use crate::player::Player;
use crate::player::Position;

verus! {

/// `i` brought back into `0..n`, for `i` below `2 * n`: the seat that comes
/// after seat `n - 1` is seat 0.
pub open spec fn wrap(i: int, n: int) -> int {
    if i < n {
        i
    } else {
        i - n
    }
}

/// The largest bet on the table; zero at an empty table.
pub open spec fn max_bet_of(ps: Seq<Player>) -> u32
    decreases ps.len(),
{
    if ps.len() == 0 {
        0
    } else {
        let m = max_bet_of(ps.drop_last());
        if ps.last().bet > m {
            ps.last().bet
        } else {
            m
        }
    }
}

/// The largest bet among the players who have not folded; zero without any.
pub open spec fn active_max_bet_of(ps: Seq<Player>) -> u32
    decreases ps.len(),
{
    if ps.len() == 0 {
        0
    } else {
        let m = active_max_bet_of(ps.drop_last());
        if !ps.last().has_folded && ps.last().bet > m {
            ps.last().bet
        } else {
            m
        }
    }
}

/// The largest bet is a bet on the table, and no bet is larger.
pub proof fn lemma_max_bet(ps: Seq<Player>)
    ensures
        forall|i: int| 0 <= i < ps.len() ==> ps[i].bet <= max_bet_of(ps),
        ps.len() > 0 ==> exists|i: int| 0 <= i < ps.len() && ps[i].bet == max_bet_of(ps),
        forall|i: int|
            0 <= i < ps.len() && !ps[i].has_folded ==> ps[i].bet <= active_max_bet_of(ps),
        active_max_bet_of(ps) <= max_bet_of(ps),
        active_max_bet_of(ps) > 0 ==> exists|i: int|
            0 <= i < ps.len() && !ps[i].has_folded && ps[i].bet == active_max_bet_of(ps),
    decreases ps.len(),
{
    if ps.len() > 0 {
        let rest = ps.drop_last();
        lemma_max_bet(rest);
        let last = ps.len() - 1;
        assert forall|i: int| 0 <= i < ps.len() implies ps[i].bet <= max_bet_of(ps) by {
            if i < last {
                assert(ps[i] == rest[i]);
            }
        }
        assert forall|i: int| 0 <= i < ps.len() && !ps[i].has_folded implies ps[i].bet
            <= active_max_bet_of(ps) by {
            if i < last {
                assert(ps[i] == rest[i]);
            }
        }
    }
}

/// The largest bet on the table.
pub fn max_bet_in(ps: &Vec<Player>) -> (m: u32)
    ensures
        m == max_bet_of(ps@),
{
    let mut m: u32 = 0;
    let mut i: usize = 0;
    while i < ps.len()
        invariant
            i <= ps@.len(),
            m == max_bet_of(ps@.take(i as int)),
        decreases ps@.len() - i,
    {
        assert(ps@.take(i + 1).drop_last() =~= ps@.take(i as int));
        if ps[i].bet > m {
            m = ps[i].bet;
        }
        i += 1;
    }
    assert(ps@.take(i as int) =~= ps@);
    m
}

/// The largest bet among the players who have not folded.
pub fn active_max_bet_in(ps: &Vec<Player>) -> (m: u32)
    ensures
        m == active_max_bet_of(ps@),
{
    let mut m: u32 = 0;
    let mut i: usize = 0;
    while i < ps.len()
        invariant
            i <= ps@.len(),
            m == active_max_bet_of(ps@.take(i as int)),
        decreases ps@.len() - i,
    {
        assert(ps@.take(i + 1).drop_last() =~= ps@.take(i as int));
        if !ps[i].has_folded && ps[i].bet > m {
            m = ps[i].bet;
        }
        i += 1;
    }
    assert(ps@.take(i as int) =~= ps@);
    m
}

/// What a search along the seats looks for.
#[derive(Debug, Clone, Copy, PartialEq, Eq, Structural)]
pub enum Seek {
    /// The seat of the big blind.
    BigBlind,
    /// The seat of the dealer, alone or with the small blind.
    Dealer,
    /// The seat of the player with this id.
    Id(u128),
    /// The seat of a player who can act.
    CanAct,
    /// The seat of a player whose stack is smaller than the blind of their
    /// position.
    ShortOfBlind,
    /// The seat of a player who is in the hand.
    InHand,
}

impl Seek {
    /// Whether the player is what the search looks for.
    pub open spec fn hits(self, p: Player) -> bool {
        match self {
            Seek::BigBlind => p.position == Position::BigBlind,
            Seek::Dealer => p.position.is_dealer(),
            Seek::Id(id) => p.id == id,
            Seek::CanAct => p.eligible(),
            Seek::ShortOfBlind => p.position.blind() > p.chips,
            Seek::InHand => !p.has_folded,
        }
    }

    /// Whether the player is what the search looks for.
    pub fn exec_hits(&self, p: &Player) -> (b: bool)
        ensures
            b == self.hits(*p),
    {
        match self {
            Seek::BigBlind => matches!(p.position, Position::BigBlind),
            Seek::Dealer => p.position.is_dealer(),
            Seek::Id(id) => p.id == *id,
            Seek::CanAct => !p.has_folded && p.chips > 0,
            Seek::ShortOfBlind => p.position.exec_blind() > p.chips,
            Seek::InHand => !p.has_folded,
        }
    }
}

/// The first seat from `from` on that the search hits.
pub open spec fn first_seat_from(ps: Seq<Player>, what: Seek, from: int) -> Option<int>
    decreases ps.len() - from,
{
    if from < 0 || from >= ps.len() {
        None
    } else if what.hits(ps[from]) {
        Some(from)
    } else {
        first_seat_from(ps, what, from + 1)
    }
}

/// The first seat that the search hits.
pub open spec fn first_seat(ps: Seq<Player>, what: Seek) -> Option<int> {
    first_seat_from(ps, what, 0)
}

/// The seat found is hit, none before it is; nothing is found only where
/// no seat is hit.
pub proof fn lemma_first_seat(ps: Seq<Player>, what: Seek, from: int)
    requires
        0 <= from,
    ensures
        match first_seat_from(ps, what, from) {
            Some(i) => from <= i < ps.len() && what.hits(ps[i]) && forall|j: int|
                from <= j < i ==> !what.hits(ps[j]),
            None => forall|j: int| from <= j < ps.len() ==> !what.hits(ps[j]),
        },
    decreases ps.len() - from,
{
    if from < ps.len() && !what.hits(ps[from]) {
        lemma_first_seat(ps, what, from + 1);
    }
}

/// The first seat that the search hits.
pub fn find_seat(ps: &Vec<Player>, what: Seek) -> (r: Option<usize>)
    ensures
        match r {
            Some(i) => first_seat(ps@, what) == Some(i as int) && i < ps@.len(),
            None => first_seat(ps@, what) is None,
        },
{
    let mut i: usize = 0;
    while i < ps.len()
        invariant
            i <= ps@.len(),
            first_seat(ps@, what) == first_seat_from(ps@, what, i as int),
        decreases ps@.len() - i,
    {
        if what.exec_hits(&ps[i]) {
            return Some(i);
        }
        i += 1;
    }
    None
}

/// The first of the `n` seats from `start` on, going round the table, whose
/// player meets `pred`; `tried` seats have been passed.
pub open spec fn round_from(
    ps: Seq<Player>,
    pred: spec_fn(Player) -> bool,
    start: int,
    tried: int,
) -> Option<int>
    decreases ps.len() - tried,
{
    if tried < 0 || tried >= ps.len() {
        None
    } else if pred(ps[wrap(start + tried, ps.len() as int)]) {
        Some(wrap(start + tried, ps.len() as int))
    } else {
        round_from(ps, pred, start, tried + 1)
    }
}

/// The first seat after seat `idx`, going round the table and ending with
/// `idx` itself, whose player meets `pred`.
pub open spec fn next_seat_after(ps: Seq<Player>, pred: spec_fn(Player) -> bool, idx: int) -> Option<
    int,
> {
    round_from(ps, pred, wrap(idx + 1, ps.len() as int), 0)
}

/// The players who can act.
pub open spec fn can_act() -> spec_fn(Player) -> bool {
    |p: Player| p.eligible()
}

/// The players whose id is in `ids`.
pub open spec fn is_among(ids: Set<u128>) -> spec_fn(Player) -> bool {
    |p: Player| ids.contains(p.id)
}

/// The seat found meets the predicate and none passed on the way does;
/// nothing is found only where no seat meets it.
pub proof fn lemma_round_from(ps: Seq<Player>, pred: spec_fn(Player) -> bool, start: int, tried: int)
    requires
        0 <= start < ps.len(),
        0 <= tried,
    ensures
        match round_from(ps, pred, start, tried) {
            Some(j) => 0 <= j < ps.len() && pred(ps[j]) && exists|k: int|
                tried <= k < ps.len() && j == #[trigger] wrap(start + k, ps.len() as int)
                    && passed_over(ps, pred, start, tried, k),
            None => passed_over(ps, pred, start, tried, ps.len() as int),
        },
    decreases ps.len() - tried,
{
    if tried < ps.len() {
        if !(pred(ps[wrap(start + tried, ps.len() as int)])) {
            lemma_round_from(ps, pred, start, tried + 1);
        }
    }
}

/// None of the seats from the `from`-th to the one before the `to`-th,
/// counted round the table from `start`, meets the predicate.
pub open spec fn passed_over(
    ps: Seq<Player>,
    pred: spec_fn(Player) -> bool,
    start: int,
    from: int,
    to: int,
) -> bool {
    forall|m: int| from <= m < to ==> !pred(ps[#[trigger] wrap(start + m, ps.len() as int)])
}

/// Where no seat meets the predicate, going round finds nothing; where one
/// does, it finds a seat.
pub proof fn lemma_round_finds(ps: Seq<Player>, pred: spec_fn(Player) -> bool, start: int)
    requires
        0 <= start < ps.len(),
    ensures
        round_from(ps, pred, start, 0) is Some <==> exists|i: int|
            0 <= i < ps.len() && pred(ps[i]),
{
    lemma_round_from(ps, pred, start, 0);
    if round_from(ps, pred, start, 0) is None {
        assert forall|i: int| 0 <= i < ps.len() implies !pred(ps[i]) by {
            let m = if i >= start {
                i - start
            } else {
                i - start + ps.len()
            };
            assert(wrap(start + m, ps.len() as int) == i);
        }
    }
}

/// The seat after `i`, round the table.
pub fn seat_after(i: usize, n: usize) -> (j: usize)
    requires
        i < n,
    ensures
        j == wrap(i + 1, n as int),
        j < n,
{
    if i + 1 == n {
        0
    } else {
        i + 1
    }
}

/// The first player after seat `idx`, round the table, who can act.
pub fn next_eligible_after(ps: &Vec<Player>, idx: usize) -> (r: Option<usize>)
    requires
        idx < ps@.len(),
    ensures
        match r {
            Some(j) => next_seat_after(ps@, can_act(), idx as int) == Some(j as int) && j
                < ps@.len() && ps@[j as int].eligible(),
            None => next_seat_after(ps@, can_act(), idx as int) is None,
        },
{
    let n = ps.len();
    let start = seat_after(idx, n);
    let mut j = start;
    let mut tried: usize = 0;
    while tried < n
        invariant
            n == ps@.len(),
            start < n,
            start == wrap(idx + 1, n as int),
            tried <= n,
            j < n,
            tried < n ==> j == wrap(start + tried, n as int),
            round_from(ps@, can_act(), start as int, 0) == round_from(
                ps@,
                can_act(),
                start as int,
                tried as int,
            ),
        decreases n - tried,
    {
        if !ps[j].has_folded && ps[j].chips > 0 {
            return Some(j);
        }
        j = seat_after(j, n);
        tried += 1;
    }
    None
}

/// The first player after seat `idx`, round the table, whose id is in `ids`.
pub fn next_among_after(ps: &Vec<Player>, idx: usize, ids: &HashSet<u128>) -> (r: Option<usize>)
    requires
        idx < ps@.len(),
    ensures
        match r {
            Some(j) => next_seat_after(ps@, is_among(ids@), idx as int) == Some(j as int) && j
                < ps@.len() && ids@.contains(ps@[j as int].id),
            None => next_seat_after(ps@, is_among(ids@), idx as int) is None,
        },
{
    broadcast use vstd::std_specs::hash::group_hash_axioms;

    let n = ps.len();
    let start = seat_after(idx, n);
    let mut j = start;
    let mut tried: usize = 0;
    while tried < n
        invariant
            n == ps@.len(),
            start < n,
            start == wrap(idx + 1, n as int),
            tried <= n,
            j < n,
            tried < n ==> j == wrap(start + tried, n as int),
            round_from(ps@, is_among(ids@), start as int, 0) == round_from(
                ps@,
                is_among(ids@),
                start as int,
                tried as int,
            ),
        decreases n - tried,
    {
        if ids.contains(&ps[j].id) {
            return Some(j);
        }
        j = seat_after(j, n);
        tried += 1;
    }
    None
}

/// The seat of the outgoing dealer: the first of the seats with the highest
/// position.
pub open spec fn top_seat(ps: Seq<Player>) -> int
    decreases ps.len(),
{
    if ps.len() <= 1 {
        0
    } else {
        let d = top_seat(ps.drop_last());
        if ps.last().position.level() > ps[d].position.level() {
            ps.len() - 1
        } else {
            d
        }
    }
}

/// No seat has a higher position than the top seat, and none before it has
/// the same.
pub proof fn lemma_top_seat(ps: Seq<Player>)
    requires
        ps.len() > 0,
    ensures
        0 <= top_seat(ps) < ps.len(),
        forall|j: int|
            0 <= j < ps.len() ==> (#[trigger] ps[j]).position.level() <= ps[top_seat(ps)].position.level(),
        forall|j: int|
            0 <= j < top_seat(ps) ==> (#[trigger] ps[j]).position.level() < ps[top_seat(ps)].position.level(),
    decreases ps.len(),
{
    if ps.len() > 1 {
        let rest = ps.drop_last();
        lemma_top_seat(rest);
        assert forall|j: int| 0 <= j < ps.len() implies (#[trigger] ps[j]).position.level()
            <= ps[top_seat(ps)].position.level() by {
            if j < ps.len() - 1 {
                assert(ps[j] == rest[j]);
            }
        }
        assert forall|j: int| 0 <= j < top_seat(ps) implies (#[trigger] ps[j]).position.level()
            < ps[top_seat(ps)].position.level() by {
            if j < ps.len() - 1 {
                assert(ps[j] == rest[j]);
            }
        }
    }
}

/// The seat of the outgoing dealer.
pub fn find_top_seat(ps: &Vec<Player>) -> (d: usize)
    requires
        ps@.len() > 0,
    ensures
        d == top_seat(ps@),
        d < ps@.len(),
{
    let mut d: usize = 0;
    let mut i: usize = 1;
    while i < ps.len()
        invariant
            1 <= i <= ps@.len(),
            d < i,
            d == top_seat(ps@.take(i as int)),
        decreases ps@.len() - i,
    {
        assert(ps@.take(i + 1).drop_last() =~= ps@.take(i as int));
        if ps[i].position.exec_level() > ps[d].position.exec_level() {
            d = i;
        }
        i += 1;
    }
    assert(ps@.take(i as int) =~= ps@);
    d
}

/// The seat of the dealer of the next hand: the seat after the outgoing
/// dealer, or the top seat itself where it held no dealer.
pub open spec fn next_dealer(ps: Seq<Player>) -> int {
    let d = top_seat(ps);
    if ps[d].position.is_dealer() {
        wrap(d + 1, ps.len() as int)
    } else {
        d
    }
}

/// The position of the seat `k` places after the dealer at a table of `n`.
pub open spec fn seat_position(n: int, k: int) -> Position {
    if n > 2 {
        if k == 0 {
            Position::Dealer
        } else if k == 1 {
            Position::SmallBlind
        } else if k == 2 {
            Position::BigBlind
        } else {
            Position::Normal
        }
    } else {
        if k == 0 {
            Position::DealerAndSmallBlind
        } else {
            Position::BigBlind
        }
    }
}

/// How many places seat `i` comes after seat `d`, round a table of `n`.
pub open spec fn seat_offset(i: int, d: int, n: int) -> int {
    if i >= d {
        i - d
    } else {
        i - d + n
    }
}

/// The players with the positions of a hand whose dealer sits at seat `d`.
pub open spec fn with_positions(ps: Seq<Player>, d: int) -> Seq<Player> {
    Seq::new(
        ps.len(),
        |i: int|
            Player {
                position: seat_position(ps.len() as int, seat_offset(i, d, ps.len() as int)),
                ..ps[i]
            },
    )
}

fn position_for(n: usize, k: usize) -> (p: Position)
    ensures
        p == seat_position(n as int, k as int),
{
    if n > 2 {
        if k == 0 {
            Position::Dealer
        } else if k == 1 {
            Position::SmallBlind
        } else if k == 2 {
            Position::BigBlind
        } else {
            Position::Normal
        }
    } else {
        if k == 0 {
            Position::DealerAndSmallBlind
        } else {
            Position::BigBlind
        }
    }
}

/// Hands out the positions of a hand whose dealer sits at seat `dealer`.
pub fn readjust_positions(ps: &mut Vec<Player>, dealer: usize)
    requires
        dealer < old(ps)@.len(),
    ensures
        final(ps)@ == with_positions(old(ps)@, dealer as int),
{
    let n = ps.len();
    let mut i: usize = 0;
    while i < n
        invariant
            n == ps@.len(),
            n == old(ps)@.len(),
            dealer < n,
            i <= n,
            forall|j: int| 0 <= j < i ==> ps@[j] == with_positions(old(ps)@, dealer as int)[j],
            forall|j: int| i <= j < n ==> ps@[j] == old(ps)@[j],
        decreases n - i,
    {
        let k = if i >= dealer {
            i - dealer
        } else {
            n - dealer + i
        };
        ps[i].position = position_for(n, k);
        i += 1;
    }
}

/// The players who stay for the next hand, in their order.
pub open spec fn keep_seatable(ps: Seq<Player>) -> Seq<Player> {
    ps.filter(|p: Player| p.seatable())
}

/// The table of the next hand: those who stay, then those who waited.
pub open spec fn seated(players: Seq<Player>, waiting: Seq<Player>) -> Seq<Player> {
    keep_seatable(players) + keep_seatable(waiting)
}

/// Everyone at the table of the next hand can be seated, and whoever could
/// be seated is there.
pub proof fn lemma_seated(players: Seq<Player>, waiting: Seq<Player>)
    ensures
        forall|i: int|
            0 <= i < seated(players, waiting).len() ==> (#[trigger] seated(
                players,
                waiting,
            )[i]).seatable(),
        seated(players, waiting).len() == keep_seatable(players).len() + keep_seatable(
            waiting,
        ).len(),
        keep_seatable(players).len() <= players.len(),
        keep_seatable(waiting).len() <= waiting.len(),
{
    broadcast use vstd::seq_lib::group_filter_ensures;

}

fn push_seatable(from: &Vec<Player>, to: &mut Vec<Player>)
    ensures
        final(to)@ == old(to)@ + keep_seatable(from@),
{
    let ghost pred = |p: Player| p.seatable();
    let mut i: usize = 0;
    proof {
        reveal(Seq::filter);
    }
    while i < from.len()
        invariant
            i <= from@.len(),
            pred == (|p: Player| p.seatable()),
            to@ == old(to)@ + from@.take(i as int).filter(pred),
        decreases from@.len() - i,
    {
        proof {
            assert(from@.take(i + 1) =~= from@.take(i as int).push(from@[i as int]));
            from@.take(i as int).lemma_filter_push(from@[i as int], pred);
        }
        if from[i].is_connected && from[i].chips > 0 {
            to.push(from[i].clone());
        }
        i += 1;
    }
    assert(from@.take(i as int) =~= from@);
}

/// Seats the table for the next hand: whoever has left or is out of chips
/// goes, and those who waited sit down behind those who stay.
pub fn seat_players(players: &mut Vec<Player>, waiting: &mut Vec<Player>)
    ensures
        final(players)@ == seated(old(players)@, old(waiting)@),
        final(waiting)@ == Seq::<Player>::empty(),
{
    let mut next: Vec<Player> = Vec::new();
    push_seatable(players, &mut next);
    push_seatable(waiting, &mut next);
    *players = next;
    waiting.clear();
}

/// The number of players who could be seated.
pub fn count_seatable(ps: &Vec<Player>) -> (n: usize)
    ensures
        n == keep_seatable(ps@).len(),
{
    let ghost pred = |p: Player| p.seatable();
    let mut n: usize = 0;
    let mut i: usize = 0;
    proof {
        reveal(Seq::filter);
    }
    while i < ps.len()
        invariant
            i <= ps@.len(),
            n <= i,
            pred == (|p: Player| p.seatable()),
            n == ps@.take(i as int).filter(pred).len(),
        decreases ps@.len() - i,
    {
        proof {
            assert(ps@.take(i + 1) =~= ps@.take(i as int).push(ps@[i as int]));
            ps@.take(i as int).lemma_filter_push(ps@[i as int], pred);
        }
        if ps[i].is_connected && ps[i].chips > 0 {
            n += 1;
        }
        i += 1;
    }
    assert(ps@.take(i as int) =~= ps@);
    n
}

} // verus!
