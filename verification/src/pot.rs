//! Pots: the chips of a hand and who may win them. The bets of a round are
//! cut into layers, one pot for each distinct size of bet, so that a player
//! who is all in for less can only win what they matched.

use vstd::prelude::*;
use std::collections::HashSet;
use vstd::std_specs::iter::IteratorSpec;
use crate::error::Error;
use crate::player::Player;

verus! {

/// A bucket of chips and the players who may win it.
#[derive(Debug, PartialEq)]
pub struct Pot {
    pub amount: u32,
    pub players: HashSet<u128>,
}

/// A pot as a value: its chips and the set of ids that may win it.
pub struct PotView {
    pub amount: nat,
    pub players: Set<u128>,
}

impl View for Pot {
    type V = PotView;

    open spec fn view(&self) -> PotView {
        PotView { amount: self.amount as nat, players: self.players@ }
    }
}

/// What one player is paid from one pot.
#[derive(Debug, Clone, Copy, PartialEq, Eq, Structural)]
pub struct Winnings {
    pub player: u128,
    pub amount: u32,
}

/// The pots of a list, as values.
pub open spec fn pot_views(pots: Seq<Pot>) -> Seq<PotView> {
    Seq::new(pots.len(), |i: int| pots[i]@)
}

/// The members of a set, each once, in the order in which the set hands
/// them out.
pub fn members(s: &HashSet<u128>) -> (v: Vec<u128>)
    ensures
        v@.to_set() == s@,
        v@.no_duplicates(),
        v@.len() == s@.len(),
        s@.finite(),
{
    broadcast use vstd::std_specs::hash::group_hash_axioms;

    let mut v: Vec<u128> = Vec::new();
    let ghost all: Seq<u128> = s.iter().remaining().unref();
    for x in it: s.iter()
        invariant
            it.seq().unref() == all,
            v@ == all.take(it.index() as int),
    {
        v.push(*x);
    }
    assert(v@ =~= all);
    proof {
        vstd::seq_lib::seq_to_set_is_finite(v@);
    }
    v
}

/// A set with the same members.
pub fn copy_set(s: &HashSet<u128>) -> (r: HashSet<u128>)
    ensures
        r@ == s@,
{
    broadcast use vstd::std_specs::hash::group_hash_axioms;

    let v = members(s);
    let mut r: HashSet<u128> = HashSet::new();
    let mut i: usize = 0;
    while i < v.len()
        invariant
            i <= v@.len(),
            r@ == v@.take(i as int).to_set(),
        decreases v@.len() - i,
    {
        r.insert(v[i]);
        proof {
            assert(v@.take(i + 1) =~= v@.take(i as int).push(v@[i as int]));
            lemma_to_set_push(v@.take(i as int), v@[i as int]);
        }
        i += 1;
    }
    assert(v@.take(i as int) =~= v@);
    r
}

proof fn lemma_to_set_push(s: Seq<u128>, x: u128)
    ensures
        s.push(x).to_set() == s.to_set().insert(x),
{
    assert forall|k: u128| s.push(x).to_set().contains(k) == s.to_set().insert(x).contains(k) by {
        if s.contains(k) {
            let i = choose|i: int| 0 <= i < s.len() && s[i] == k;
            assert(s.push(x)[i] == k);
        }
        if k == x {
            assert(s.push(x)[s.len() as int] == x);
        }
    }
}

/// Whether two sets have the same members.
pub fn same_set(a: &HashSet<u128>, b: &HashSet<u128>) -> (r: bool)
    ensures
        r == (a@ == b@),
{
    broadcast use vstd::std_specs::hash::group_hash_axioms;

    if a.len() != b.len() {
        return false;
    }
    let v = members(a);
    let w = members(b);
    let mut i: usize = 0;
    while i < v.len()
        invariant
            i <= v@.len(),
            v@.to_set() == a@,
            forall|j: int| 0 <= j < i ==> b@.contains(v@[j]),
        decreases v@.len() - i,
    {
        if !b.contains(&v[i]) {
            return false;
        }
        i += 1;
    }
    proof {
        vstd::set_lib::lemma_subset_equality(a@, b@);
    }
    true
}

impl Clone for Pot {
    fn clone(&self) -> (p: Self)
        ensures
            p@ == self@,
    {
        Pot { amount: self.amount, players: copy_set(&self.players) }
    }
}

/// The smallest bet above `floor`, if there is one.
pub open spec fn next_level(ps: Seq<Player>, floor: int) -> Option<int>
    decreases ps.len(),
{
    if ps.len() == 0 {
        None
    } else {
        let r = next_level(ps.drop_last(), floor);
        let b = ps.last().bet as int;
        if b > floor && (r is None || b < r.unwrap()) {
            Some(b)
        } else {
            r
        }
    }
}

/// The number of players whose bet is at least `level`.
pub open spec fn count_at_least(ps: Seq<Player>, level: int) -> nat
    decreases ps.len(),
{
    if ps.len() == 0 {
        0
    } else if ps.last().bet >= level {
        count_at_least(ps.drop_last(), level) + 1
    } else {
        count_at_least(ps.drop_last(), level)
    }
}

/// The ids of the players whose bet is at least `level`.
pub open spec fn ids_at_least(ps: Seq<Player>, level: int) -> Set<u128>
    decreases ps.len(),
{
    if ps.len() == 0 {
        Set::empty()
    } else if ps.last().bet >= level {
        ids_at_least(ps.drop_last(), level).insert(ps.last().id)
    } else {
        ids_at_least(ps.drop_last(), level)
    }
}

/// The pot of the layer between the bets `floor` and `level`: that
/// difference from each player who bet at least `level`.
pub open spec fn layer(ps: Seq<Player>, floor: int, level: int) -> PotView {
    PotView {
        amount: ((level - floor) * count_at_least(ps, level)) as nat,
        players: ids_at_least(ps, level),
    }
}

/// The pots of the bets above `floor`: one for each distinct size of bet,
/// from the smallest up.
pub open spec fn layers(ps: Seq<Player>, floor: int) -> Seq<PotView>
    decreases u32::MAX - floor,
{
    match next_level(ps, floor) {
        Some(level) => if floor < level <= u32::MAX {
            seq![layer(ps, floor, level)] + layers(ps, level)
        } else {
            Seq::empty()
        },
        None => Seq::empty(),
    }
}

/// The chips that are bet above `floor`.
pub open spec fn bets_above(ps: Seq<Player>, floor: int) -> int
    decreases ps.len(),
{
    if ps.len() == 0 {
        0
    } else if ps.last().bet > floor {
        bets_above(ps.drop_last(), floor) + (ps.last().bet - floor)
    } else {
        bets_above(ps.drop_last(), floor)
    }
}

/// The chips of a list of pots.
pub open spec fn pots_total(pots: Seq<PotView>) -> int
    decreases pots.len(),
{
    if pots.len() == 0 {
        0
    } else {
        pots_total(pots.drop_last()) + pots.last().amount
    }
}

/// No pot holds more chips than a `u32` can.
pub open spec fn pots_fit(pots: Seq<PotView>) -> bool {
    forall|i: int| 0 <= i < pots.len() ==> (#[trigger] pots[i]).amount <= u32::MAX
}

/// Every pot but the first may be won only by players who may win the pot
/// before it.
pub open spec fn pots_nested(pots: Seq<PotView>) -> bool {
    forall|i: int| 0 < i < pots.len() ==> (#[trigger] pots[i]).players.subset_of(pots[i - 1].players)
}

/// The next level is a bet above the floor, and no bet lies between.
pub proof fn lemma_next_level(ps: Seq<Player>, floor: int)
    ensures
        match next_level(ps, floor) {
            Some(l) => floor < l <= u32::MAX && (exists|i: int|
                0 <= i < ps.len() && ps[i].bet == l) && forall|i: int|
                0 <= i < ps.len() && (#[trigger] ps[i]).bet > floor ==> ps[i].bet >= l,
            None => forall|i: int| 0 <= i < ps.len() ==> (#[trigger] ps[i]).bet <= floor,
        },
    decreases ps.len(),
{
    if ps.len() > 0 {
        let rest = ps.drop_last();
        lemma_next_level(rest, floor);
        let last = ps.len() - 1;
        assert forall|i: int| 0 <= i < last implies ps[i] == rest[i] by {}
        match next_level(ps, floor) {
            Some(l) => {
            },
            None => {
            },
        }
    }
}

/// The id of every player who bet at least `level` is in the layer, and
/// nothing else.
pub proof fn lemma_ids_at_least(ps: Seq<Player>, level: int)
    ensures
        forall|id: u128|
            ids_at_least(ps, level).contains(id) <==> exists|i: int|
                0 <= i < ps.len() && (#[trigger] ps[i]).id == id && ps[i].bet >= level,
        ids_at_least(ps, level).finite(),
        count_at_least(ps, level) <= ps.len(),
    decreases ps.len(),
{
    if ps.len() > 0 {
        let rest = ps.drop_last();
        lemma_ids_at_least(rest, level);
        let last = ps.len() - 1;
        assert forall|id: u128| ids_at_least(ps, level).contains(id) <==> exists|i: int|
            0 <= i < ps.len() && (#[trigger] ps[i]).id == id && ps[i].bet >= level by {
            if exists|i: int| 0 <= i < ps.len() && (#[trigger] ps[i]).id == id && ps[i].bet >= level {
                let w = choose|i: int|
                    0 <= i < ps.len() && (#[trigger] ps[i]).id == id && ps[i].bet >= level;
                if w < last {
                    assert(rest[w].id == id && rest[w].bet >= level);
                }
            }
        }
    }
}

/// A higher layer is won by players of the lower one only.
pub proof fn lemma_ids_shrink(ps: Seq<Player>, low: int, high: int)
    requires
        low <= high,
    ensures
        ids_at_least(ps, high).subset_of(ids_at_least(ps, low)),
{
    lemma_ids_at_least(ps, low);
    lemma_ids_at_least(ps, high);
}

proof fn lemma_bets_split(ps: Seq<Player>, floor: int, level: int)
    requires
        floor <= level,
        forall|i: int| 0 <= i < ps.len() && (#[trigger] ps[i]).bet > floor ==> ps[i].bet >= level,
    ensures
        bets_above(ps, floor) == (level - floor) * count_at_least(ps, level) + bets_above(
            ps,
            level,
        ),
    decreases ps.len(),
{
    let d = level - floor;
    if ps.len() == 0 {
        assert(d * 0 == 0);
    } else {
        let rest = ps.drop_last();
        lemma_bets_split(rest, floor, level);
        let c = count_at_least(rest, level) as int;
        let b = ps.last().bet as int;
        if b >= level {
            assert(d * (c + 1) == d * c + d) by (nonlinear_arith);
        }
    }
}

/// The layers hold the chips that were bet, are nested, and each is won by
/// at least one player.
pub proof fn lemma_layers(ps: Seq<Player>, floor: int)
    requires
        0 <= floor,
    ensures
        pots_total(layers(ps, floor)) == bets_above(ps, floor),
        pots_nested(layers(ps, floor)),
        layers(ps, floor).len() > 0 ==> layers(ps, floor)[0].players.subset_of(
            ids_at_least(ps, floor + 1),
        ) && ids_at_least(ps, floor + 1).subset_of(layers(ps, floor)[0].players),
        forall|i: int|
            0 <= i < layers(ps, floor).len() ==> (#[trigger] layers(ps, floor)[i]).players.len() > 0
                && layers(ps, floor)[i].players.finite(),
        layers(ps, floor).len() == 0 <==> bets_above(ps, floor) == 0,
    decreases u32::MAX - floor,
{
    lemma_next_level(ps, floor);
    match next_level(ps, floor) {
        Some(level) => {
            lemma_layers(ps, level);
            lemma_bets_split(ps, floor, level);
            let head = layer(ps, floor, level);
            let tail = layers(ps, level);
            let all = layers(ps, floor);
            lemma_pots_total_prepend(head, tail);
            lemma_ids_at_least(ps, level);
            lemma_ids_at_least(ps, floor + 1);
            lemma_ids_shrink(ps, floor + 1, level);
            let w = choose|i: int| 0 <= i < ps.len() && ps[i].bet == level;
            assert(head.players.contains(ps[w].id));
            lemma_count_positive(ps, level, w);
            assert(bets_above(ps, floor) > 0) by {
                lemma_bets_nonneg(ps, level);
                let c = count_at_least(ps, level) as int;
                let d = level - floor;
                assert(d * c > 0) by (nonlinear_arith)
                    requires
                        d > 0,
                        c > 0,
                ;
            }
            assert(pots_nested(all)) by {
                assert forall|i: int| 0 < i < all.len() implies (#[trigger] all[i]).players.subset_of(
                    all[i - 1].players,
                ) by {
                    if i == 1 {
                        lemma_ids_shrink(ps, level, level + 1);
                    }
                }
            }
        },
        None => {
            lemma_bets_zero(ps, floor);
        },
    }
}

proof fn lemma_count_positive(ps: Seq<Player>, level: int, w: int)
    requires
        0 <= w < ps.len(),
        ps[w].bet >= level,
    ensures
        count_at_least(ps, level) > 0,
    decreases ps.len(),
{
    if w < ps.len() - 1 {
        lemma_count_positive(ps.drop_last(), level, w);
    }
}

proof fn lemma_bets_nonneg(ps: Seq<Player>, floor: int)
    ensures
        bets_above(ps, floor) >= 0,
    decreases ps.len(),
{
    if ps.len() > 0 {
        lemma_bets_nonneg(ps.drop_last(), floor);
    }
}

proof fn lemma_bets_zero(ps: Seq<Player>, floor: int)
    requires
        forall|i: int| 0 <= i < ps.len() ==> (#[trigger] ps[i]).bet <= floor,
    ensures
        bets_above(ps, floor) == 0,
    decreases ps.len(),
{
    if ps.len() > 0 {
        let rest = ps.drop_last();
        lemma_bets_zero(rest, floor);
    }
}

/// The chips of a list of pots are those of its first pot and of the rest.
pub proof fn lemma_pots_total_prepend(head: PotView, tail: Seq<PotView>)
    ensures
        pots_total(seq![head] + tail) == head.amount + pots_total(tail),
    decreases tail.len(),
{
    let all = seq![head] + tail;
    if tail.len() == 0 {
        assert(pots_total(all.drop_last()) == 0);
    } else {
        assert(all.drop_last() =~= seq![head] + tail.drop_last());
        lemma_pots_total_prepend(head, tail.drop_last());
    }
}

/// The chips of two lists of pots together are the chips of the one and of
/// the other.
pub proof fn lemma_pots_total_concat(a: Seq<PotView>, b: Seq<PotView>)
    ensures
        pots_total(a + b) == pots_total(a) + pots_total(b),
    decreases b.len(),
{
    if !(b.len() == 0) {
        assert((a + b).drop_last() =~= a + b.drop_last());
        lemma_pots_total_concat(a, b.drop_last());
    }
}

/// The pots with neighbours that the same players may win put together.
pub open spec fn merged(pots: Seq<PotView>) -> Seq<PotView>
    decreases pots.len(),
{
    if pots.len() <= 1 {
        pots
    } else {
        let m = merged(pots.drop_last());
        let p = pots.last();
        if m.len() > 0 && m.last().players == p.players {
            m.drop_last().push(PotView { amount: m.last().amount + p.amount, players: p.players })
        } else {
            m.push(p)
        }
    }
}

/// Merging keeps the chips, the last pot's players and the nesting of the
/// pots, and leaves no two neighbours with the same players.
pub proof fn lemma_merged(pots: Seq<PotView>)
    ensures
        pots_total(merged(pots)) == pots_total(pots),
        pots.len() > 0 ==> merged(pots).len() > 0 && merged(pots).last().players
            == pots.last().players && merged(pots)[0].players == pots[0].players,
        merged(pots).len() <= pots.len(),
        pots_nested(pots) ==> pots_nested(merged(pots)),
        forall|i: int|
            0 < i < merged(pots).len() ==> (#[trigger] merged(pots)[i]).players != merged(pots)[i
                - 1].players,
    decreases pots.len(),
{
    if pots.len() > 1 {
        let rest = pots.drop_last();
        lemma_merged(rest);
        let m = merged(rest);
        let p = pots.last();
        if m.last().players == p.players {
            let top = PotView { amount: m.last().amount + p.amount, players: p.players };
            let r = m.drop_last().push(top);
            assert(r.drop_last() =~= m.drop_last());
        } else {
            let r = m.push(p);
            assert(r.drop_last() =~= m);
        }
    }
}

/// The smallest bet above `floor`.
pub fn min_bet_above(ps: &Vec<Player>, floor: u32) -> (r: Option<u32>)
    ensures
        match r {
            Some(l) => next_level(ps@, floor as int) == Some(l as int),
            None => next_level(ps@, floor as int) is None,
        },
{
    let mut r: Option<u32> = None;
    let mut i: usize = 0;
    while i < ps.len()
        invariant
            i <= ps@.len(),
            match r {
                Some(l) => next_level(ps@.take(i as int), floor as int) == Some(l as int),
                None => next_level(ps@.take(i as int), floor as int) is None,
            },
        decreases ps@.len() - i,
    {
        assert(ps@.take(i + 1).drop_last() =~= ps@.take(i as int));
        let b = ps[i].bet;
        if b > floor {
            match r {
                None => {
                    r = Some(b);
                },
                Some(l) => {
                    if b < l {
                        r = Some(b);
                    }
                },
            }
        }
        i += 1;
    }
    assert(ps@.take(i as int) =~= ps@);
    r
}

/// The pot of the layer between the bets `floor` and `level`.
pub fn collect_layer(ps: &Vec<Player>, floor: u32, level: u32) -> (r: Result<Pot, Error>)
    requires
        floor < level,
    ensures
        match r {
            Ok(pot) => pot@ == layer(ps@, floor as int, level as int),
            Err(e) => e == Error::AmountOverflow && layer(ps@, floor as int, level as int).amount
                > u32::MAX,
        },
{
    broadcast use vstd::std_specs::hash::group_hash_axioms;

    let step = level - floor;
    let mut amount: u32 = 0;
    let mut ids: HashSet<u128> = HashSet::new();
    let mut i: usize = 0;
    proof {
        assert(step * 0 == 0);
    }
    while i < ps.len()
        invariant
            i <= ps@.len(),
            step == level - floor,
            step > 0,
            amount == step * count_at_least(ps@.take(i as int), level as int),
            ids@ == ids_at_least(ps@.take(i as int), level as int),
        decreases ps@.len() - i,
    {
        assert(ps@.take(i + 1).drop_last() =~= ps@.take(i as int));
        let ghost c = count_at_least(ps@.take(i as int), level as int) as int;
        if ps[i].bet >= level {
            proof {
                assert(step * (c + 1) == step * c + step) by (nonlinear_arith);
            }
            match amount.checked_add(step) {
                Some(a) => {
                    amount = a;
                },
                None => {
                    proof {
                        lemma_count_grows(ps@, i + 1, level as int);
                        let total = count_at_least(ps@, level as int) as int;
                        assert(step * total >= step * (c + 1)) by (nonlinear_arith)
                            requires
                                total >= c + 1,
                                step > 0,
                        ;
                    }
                    return Err(Error::AmountOverflow);
                },
            }
            ids.insert(ps[i].id);
        }
        i += 1;
    }
    assert(ps@.take(i as int) =~= ps@);
    Ok(Pot { amount, players: ids })
}

proof fn lemma_count_grows(ps: Seq<Player>, i: int, level: int)
    requires
        0 <= i <= ps.len(),
    ensures
        count_at_least(ps.take(i), level) <= count_at_least(ps, level),
    decreases ps.len() - i,
{
    if i < ps.len() {
        assert(ps.take(i + 1).drop_last() =~= ps.take(i));
        lemma_count_grows(ps, i + 1, level);
    } else {
        assert(ps.take(i) =~= ps);
    }
}

/// Cuts the bets of a round into pots and appends them to `pots`.
pub fn push_layers(ps: &Vec<Player>, pots: &mut Vec<Pot>) -> (r: Result<(), Error>)
    ensures
        match r {
            Ok(_) => pot_views(final(pots)@) == pot_views(old(pots)@) + layers(ps@, 0) && pots_fit(
                layers(ps@, 0),
            ),
            Err(e) => e == Error::AmountOverflow && !pots_fit(layers(ps@, 0)),
        },
{
    let mut floor: u32 = 0;
    let ghost mut done: Seq<PotView> = Seq::empty();
    loop
        invariant
            pot_views(pots@) == pot_views(old(pots)@) + done,
            done + layers(ps@, floor as int) == layers(ps@, 0),
            pots_fit(done),
        decreases u32::MAX - floor,
    {
        let ghost before = pots@;
        match min_bet_above(ps, floor) {
            None => {
                return Ok(());
            },
            Some(level) => {
                proof {
                    lemma_next_level(ps@, floor as int);
                }
                match collect_layer(ps, floor, level) {
                    Err(e) => {
                        proof {
                            let k = done.len() as int;
                            assert(layers(ps@, 0)[k] == layer(ps@, floor as int, level as int));
                        }
                        return Err(e);
                    },
                    Ok(pot) => {
                        let ghost pv = pot@;
                        pots.push(pot);
                        proof {
                            assert(pot_views(pots@) =~= pot_views(before).push(pv));
                            done = done.push(pv);
                        }
                        floor = level;
                    },
                }
            },
        }
    }
}

/// Puts neighbouring pots together that the same players may win.
pub fn merge_pots(pots: &Vec<Pot>) -> (r: Result<Vec<Pot>, Error>)
    ensures
        match r {
            Ok(m) => pot_views(m@) == merged(pot_views(pots@)) && pots@.len() > 0 && pots_fit(
                merged(pot_views(pots@)),
            ),
            Err(e) => e == (if pots@.len() == 0 {
                Error::NoPots
            } else {
                Error::AmountOverflow
            }) && (pots@.len() > 0 ==> !pots_fit(merged(pot_views(pots@)))),
        },
{
    if pots.len() == 0 {
        return Err(Error::NoPots);
    }
    let ghost all = pot_views(pots@);
    let mut m: Vec<Pot> = Vec::new();
    m.push(pots[0].clone());
    let mut i: usize = 1;
    while i < pots.len()
        invariant
            1 <= i <= pots@.len(),
            all == pot_views(pots@),
            m@.len() > 0,
            pot_views(m@) == merged(all.take(i as int)),
            pots_fit(pot_views(m@)),
        decreases pots@.len() - i,
    {
        proof {
            assert(all.take(i + 1).drop_last() =~= all.take(i as int));
        }
        let k = m.len() - 1;
        if same_set(&m[k].players, &pots[i].players) {
            match m[k].amount.checked_add(pots[i].amount) {
                None => {
                    proof {
                        let part = merged(all.take(i + 1));
                        assert(part[part.len() - 1].amount > u32::MAX);
                        lemma_merged_grows(all, i + 1);
                    }
                    return Err(Error::AmountOverflow);
                },
                Some(a) => {
                    m[k].amount = a;
                },
            }
        } else {
            m.push(pots[i].clone());
        }
        i += 1;
    }
    assert(all.take(i as int) =~= all);
    Ok(m)
}

/// A pot that has outgrown a `u32` while part of the list was merged stays
/// too large when the rest is merged too.
proof fn lemma_merged_grows(all: Seq<PotView>, i: int)
    requires
        0 < i <= all.len(),
        !pots_fit(merged(all.take(i))),
    ensures
        !pots_fit(merged(all)),
    decreases all.len() - i,
{
    if i < all.len() {
        let part = merged(all.take(i));
        let next = merged(all.take(i + 1));
        assert(all.take(i + 1).drop_last() =~= all.take(i));
        lemma_merged(all.take(i));
        let w = choose|j: int| 0 <= j < part.len() && (#[trigger] part[j]).amount > u32::MAX;
        assert(next[w].amount > u32::MAX);
        lemma_merged_grows(all, i + 1);
    } else {
        assert(all.take(i) =~= all);
    }
}

} // verus!
