//! The deck: 52 cards as the low 52 bits of a word, and a draw that takes a
//! card at random from those that are left.

use vstd::prelude::*;
use rand::Rng;
use crate::bits::{
    bit, lemma_bit_bound, lemma_count16, lemma_count2, lemma_count32, lemma_count4, lemma_count8,
    lemma_field32, lemma_ones_at_set_bit, lemma_ones_from_monotone, lemma_ones_from_step,
    lemma_popcount_zero, lemma_sums_fit, ones_from, ones_in, popcount, P, Q, R, S,
};
use crate::card::{card_at, rank_at, suit_at, Card};
use poker::Rank;
use poker::Suit;
use crate::error::Error;

verus! {

const MASK_1: u64 = 0xff;

const MASK_2: u64 = 0xf;

const MASK_3: u64 = 0x7;

const MASK_4: u64 = 0x3;

const MASK_5: u64 = 0x1;

/// The word of a full deck: the low 52 bits.
pub const FULL_DECK_INT: u64 = 0x000f_ffff_ffff_ffff;

/// `s` is the place, counted from 1 at the lowest bit, of the `n`-th one bit
/// of `v` counted from the highest bit down.
pub open spec fn is_nth_leading_one(v: u64, n: u64, s: u64) -> bool {
    &&& 1 <= s <= 64
    &&& bit(v, (s - 1) as nat) == 1
    &&& ones_from(v, (s - 1) as nat) == n
}

/// Where the scan stands: the one it looks for is the `r`-th from the top
/// among the `w` bits below place `s`.
#[verifier::opaque]
spec fn scan_inv(v: u64, r0: u64, r: u64, s: u64, w: u64) -> bool {
    &&& w <= s <= 64
    &&& r0 == 0 ==> r == 0 && s == 64
    &&& r0 >= 1 ==> {
        &&& r == r0 - ones_from(v, s as nat)
        &&& ones_from(v, s as nat) < r0 <= ones_from(v, (s - w) as nat)
    }
}

proof fn lemma_scan_step(v: u64, r0: u64, r: u64, s: u64, w: u64, h: u64, t: u64)
    requires
        scan_inv(v, r0, r, s, w),
        w == 2 * h,
        t == ones_in(v, (s - h) as nat, h as nat),
    ensures
        h <= s <= 64,
        r > t ==> scan_inv(v, r0, (r - t) as u64, (s - h) as u64, h),
        r <= t ==> scan_inv(v, r0, r, s, h),
{
    reveal(scan_inv);
}

proof fn lemma_scan_start(v: u64, r0: u64)
    requires
        r0 <= popcount(v),
    ensures
        scan_inv(v, r0, r0, 64, 64),
{
    reveal(scan_inv);
}

proof fn lemma_scan_end(v: u64, r0: u64, r: u64, s: u64)
    requires
        scan_inv(v, r0, r, s, 1),
    ensures
        r0 == 0 ==> s == 64,
        r0 >= 1 ==> is_nth_leading_one(v, r0, s),
{
    reveal(scan_inv);
    if r0 >= 1 {
        lemma_ones_from_step(v, (s - 1) as nat);
        lemma_bit_bound(v, (s - 1) as nat);
    }
}

/// Only one place is that of the `n`-th leading one bit.
pub proof fn lemma_nth_leading_one_unique(v: u64, n: u64, one: u64, other: u64)
    requires
        is_nth_leading_one(v, n, one),
        is_nth_leading_one(v, n, other),
    ensures
        one == other,
{
    if one < other {
        lemma_ones_at_set_bit(v, (one - 1) as nat);
        lemma_ones_from_monotone(v, one as nat, (other - 1) as nat);
    } else if other < one {
        lemma_ones_at_set_bit(v, (other - 1) as nat);
        lemma_ones_from_monotone(v, other as nat, (one - 1) as nat);
    }
}

/// Every one bit is the `n`-th leading one for one `n` between 1 and the
/// number of one bits: the count of the ones from its place upwards. So a
/// rank drawn evenly from that range picks each one bit equally often.
pub proof fn lemma_every_one_has_a_rank(v: u64, p: nat)
    requires
        p < 64,
        bit(v, p) == 1,
    ensures
        1 <= ones_from(v, p) <= popcount(v),
        is_nth_leading_one(v, ones_from(v, p) as u64, (p + 1) as u64),
{
    lemma_ones_at_set_bit(v, p);
    lemma_ones_from_monotone(v, 0, p);
}

/// Returns the place of the `r`-th leading one bit of `v`, counted from 1 at
/// the lowest bit. A rank of zero gives 64.
pub fn pos_of_leading_1_bit(r: u64, v: u64) -> (res: Result<u64, Error>)
    ensures
        v == 0 ==> res == Err::<u64, Error>(Error::EmptyDeck),
        v != 0 && r > popcount(v) ==> res == Err::<u64, Error>(Error::InvalidPosition(r)),
        v != 0 && 1 <= r <= popcount(v) ==> res is Ok && is_nth_leading_one(v, r, res.unwrap()),
        v != 0 && r == 0 ==> res == Ok::<u64, Error>(64),
{
    if v == 0 {
        return Err(Error::EmptyDeck);
    }
    let ones = v.count_ones();
    if r > ones as u64 {
        return Err(Error::InvalidPosition(r));
    }
    proof {
        lemma_sums_fit(v);
        lemma_field32(v);
        lemma_count32(v);
    }
    let a = (v & P) + ((v >> 1) & P);
    let b = (a & Q) + ((a >> 2) & Q);
    let c = (b & R) + ((b >> 4) & R);
    let d = (c & S) + ((c >> 8) & S);

    let ghost r0 = r;
    let mut r = r;
    let mut t = (d >> 32) + (d >> 48);
    t = t & 0xffff;

    let mut s: u64 = 64;
    proof {
        lemma_scan_start(v, r0);
        lemma_scan_step(v, r0, r, s, 64, 32, t);
    }
    if r > t {
        s -= 32;
        r -= t;
    }
    t = (d >> (s - 16)) & MASK_1;
    proof {
        lemma_count16(v, (s - 16) as u64);
        lemma_scan_step(v, r0, r, s, 32, 16, t);
    }

    if r > t {
        s -= 16;
        r -= t;
    }
    t = (c >> (s - 8)) & MASK_2;
    proof {
        lemma_count8(v, (s - 8) as u64);
        lemma_scan_step(v, r0, r, s, 16, 8, t);
    }

    if r > t {
        s -= 8;
        r -= t;
    }
    t = (b >> (s - 4)) & MASK_3;
    proof {
        lemma_count4(v, (s - 4) as u64);
        lemma_scan_step(v, r0, r, s, 8, 4, t);
    }

    if r > t {
        s -= 4;
        r -= t;
    }
    t = (a >> (s - 2)) & MASK_4;
    proof {
        lemma_count2(v, (s - 2) as u64);
        lemma_scan_step(v, r0, r, s, 4, 2, t);
    }

    if r > t {
        s -= 2;
        r -= t;
    }
    t = (v >> (s - 1)) & MASK_5;
    proof {
        lemma_ones_from_step(v, (s - 1) as nat);
        lemma_scan_step(v, r0, r, s, 2, 1, t);
    }

    if r > t {
        s -= 1;
    }
    proof {
        lemma_scan_end(v, r0, if r > t { (r - t) as u64 } else { r }, s);
    }
    Ok(s)
}

/// The rank of the card at place `i` of the deck.
pub fn i_to_rank(i: u64) -> (r: Rank)
    ensures
        r == rank_at((i % 13) as int),
{
    let k = i % 13;
    if k == 0 {
        Rank::Two
    } else if k == 1 {
        Rank::Three
    } else if k == 2 {
        Rank::Four
    } else if k == 3 {
        Rank::Five
    } else if k == 4 {
        Rank::Six
    } else if k == 5 {
        Rank::Seven
    } else if k == 6 {
        Rank::Eight
    } else if k == 7 {
        Rank::Nine
    } else if k == 8 {
        Rank::Ten
    } else if k == 9 {
        Rank::Jack
    } else if k == 10 {
        Rank::Queen
    } else if k == 11 {
        Rank::King
    } else {
        Rank::Ace
    }
}

/// The suit of the card at place `i` of the deck.
pub fn i_to_suit(i: u64) -> (s: Suit)
    requires
        i < 52,
    ensures
        s == suit_at((i / 13) as int),
{
    let k = i / 13;
    if k == 0 {
        Suit::Spades
    } else if k == 1 {
        Suit::Hearts
    } else if k == 2 {
        Suit::Diamonds
    } else {
        Suit::Clubs
    }
}

/// `gen_range` of `rand::Rng`, on the generator of the calling thread
/// (`rand::thread_rng`), over the inclusive range from 1 to `ones`. The call
/// panics on an empty range, so `ones` is at least 1; what comes back lies in
/// the range, and nothing else is known of it.
#[verifier::external_body]
fn random_rank(ones: u32) -> (n: u32)
    requires
        1 <= ones,
    ensures
        1 <= n <= ones,
{
    rand::thread_rng().gen_range(1..=ones)
}

proof fn lemma_full_deck()
    ensures
        popcount(FULL_DECK_INT) == 52,
        forall|i: nat| i < 52 ==> bit(FULL_DECK_INT, i) == 1,
{
    crate::bits::lemma_count64(FULL_DECK_INT);
    assert(((crate::bits::sums16(FULL_DECK_INT) >> 0) & 0xff) + ((crate::bits::sums16(
        FULL_DECK_INT,
    ) >> 16) & 0xff) + ((crate::bits::sums16(FULL_DECK_INT) >> 32) & 0xff) + ((
    crate::bits::sums16(FULL_DECK_INT) >> 48) & 0xff) == 52) by (bit_vector);
    assert forall|i: nat| i < 52 implies bit(FULL_DECK_INT, i) == 1 by {
        let k = i as u64;
        assert((0x000f_ffff_ffff_ffffu64 >> k) & 1 == 1) by (bit_vector)
            requires
                k < 52,
        ;
    }
}

proof fn lemma_masked(v: u64)
    by (bit_vector)
    ensures
        v & 0x000f_ffff_ffff_ffff <= 0x000f_ffff_ffff_ffff,
        v <= 0x000f_ffff_ffff_ffff ==> v & 0x000f_ffff_ffff_ffff == v,
{
}

proof fn lemma_place_in_deck(v: u64, i: u64)
    by (bit_vector)
    requires
        v <= 0x000f_ffff_ffff_ffff,
        i < 64,
        (v >> i) & 1 == 1,
    ensures
        i < 52,
{
}

proof fn lemma_clear_bit(v: u64, p: u64, i: u64)
    by (bit_vector)
    requires
        p < 64,
        i < 64,
    ensures
        ((v & !(1u64 << p)) >> i) & 1 == (if i == p {
            0
        } else {
            (v >> i) & 1
        }),
        v & !(1u64 << p) <= v,
{
}

proof fn lemma_clear_bit_count(v: u64, p: u64, k: nat)
    requires
        p < 64,
        bit(v, p as nat) == 1,
    ensures
        ones_from((v & !(1u64 << p)), k) == ones_from(v, k) - (if k <= p {
            1int
        } else {
            0int
        }),
    decreases 64 - k,
{
    if k < 64 {
        lemma_clear_bit(v, p, k as u64);
        lemma_clear_bit_count(v, p, k + 1);
    }
}

/// A deck of cards: those of the 52 that have not been drawn.
#[derive(Debug)]
pub struct Deck(u64);

impl Clone for Deck {
    fn clone(&self) -> (d: Self)
        ensures
            d == *self,
    {
        proof {
            use_type_invariant(self);
        }
        Deck(self.0)
    }
}

impl Deck {
    #[verifier::type_invariant]
    spec fn in_range(self) -> bool {
        self.0 <= FULL_DECK_INT
    }

    /// The word of the deck: bit `i` is set while the card at place `i` is
    /// in the deck.
    pub closed spec fn spec_bits(self) -> u64 {
        self.0 & FULL_DECK_INT
    }

    /// The full deck.
    pub closed spec fn full() -> Deck {
        Deck(FULL_DECK_INT)
    }

    /// Whether the card is still in the deck.
    pub open spec fn holds(self, c: Card) -> bool {
        bit(self.spec_bits(), c.index() as nat) == 1
    }

    /// The cards that are still in the deck.
    pub open spec fn cards(self) -> Set<Card> {
        Set::new(|c: Card| self.holds(c))
    }

    /// The number of cards that are still in the deck.
    pub open spec fn remaining(self) -> nat {
        popcount(self.spec_bits())
    }

    /// A deck uses the low 52 bits only, and is empty exactly when its word
    /// is zero.
    pub proof fn lemma_word(self)
        ensures
            self.spec_bits() <= FULL_DECK_INT,
            self.remaining() <= 52,
            self.remaining() == 0 <==> self.spec_bits() == 0,
            forall|i: nat| 52 <= i ==> bit(self.spec_bits(), i) == 0,
    {
        let v = self.spec_bits();
        lemma_masked(self.0);
        lemma_popcount_zero(v);
        assert forall|i: nat| 52 <= i implies bit(v, i) == 0 by {
            if i < 64 {
                lemma_bit_bound(v, i);
                if bit(v, i) == 1 {
                    lemma_place_in_deck(v, i as u64);
                }
            }
        }
        Self::lemma_high_count(v, 52);
        Self::lemma_low_count(v, 0);
    }

    proof fn lemma_high_count(v: u64, k: nat)
        requires
            52 <= k,
            forall|i: nat| 52 <= i ==> bit(v, i) == 0,
        ensures
            ones_from(v, k) == 0,
        decreases 64 - k,
    {
        if k < 64 {
            Self::lemma_high_count(v, k + 1);
        }
    }

    proof fn lemma_low_count(v: u64, k: nat)
        requires
            k <= 52,
        ensures
            ones_from(v, k) <= 52 - k + ones_from(v, 52),
        decreases 52 - k,
    {
        if k < 52 {
            lemma_bit_bound(v, k);
            Self::lemma_low_count(v, k + 1);
        }
    }

    /// A full deck.
    pub fn new() -> (d: Self)
        ensures
            d == Deck::full(),
            d.spec_bits() == FULL_DECK_INT,
            d.remaining() == 52,
            forall|c: Card| d.holds(c),
    {
        proof {
            lemma_full_deck();
            lemma_masked(FULL_DECK_INT);
            assert forall|c: Card| bit(FULL_DECK_INT, c.index() as nat) == 1 by {
                crate::card::lemma_card_index(c, 0);
            }
        }
        Deck(FULL_DECK_INT)
    }

    /// The full deck holds every card.
    pub proof fn lemma_full()
        ensures
            Deck::full().spec_bits() == FULL_DECK_INT,
            Deck::full().remaining() == 52,
            forall|c: Card| Deck::full().holds(c),
    {
        lemma_full_deck();
        lemma_masked(FULL_DECK_INT);
        assert forall|c: Card| bit(FULL_DECK_INT, c.index() as nat) == 1 by {
            crate::card::lemma_card_index(c, 0);
        }
    }

    /// The number of cards that are left.
    pub fn len(&self) -> (n: usize)
        ensures
            n == self.remaining(),
            n <= 52,
    {
        proof {
            use_type_invariant(self);
            lemma_masked(self.0);
            self.lemma_word();
        }
        let n = self.0.count_ones();
        n as usize
    }

    /// The word of the deck.
    pub fn bits(&self) -> (b: u64)
        ensures
            b == self.spec_bits(),
    {
        proof {
            use_type_invariant(self);
            lemma_masked(self.0);
        }
        self.0
    }

    /// Takes the `n`-th card out of the deck, counting the cards that are
    /// left from the highest place down, from 1.
    pub fn take_nth(&mut self, n: u64) -> (r: Result<Card, Error>)
        ensures
            r is Ok <==> 1 <= n <= old(self).remaining(),
            match r {
                Ok(c) => {
                    &&& old(self).holds(c)
                    &&& ones_from(old(self).spec_bits(), c.index() as nat) == n
                    &&& forall|x: Card| final(self).holds(x) == (old(self).holds(x) && x != c)
                    &&& final(self).cards() == old(self).cards().remove(c)
                    &&& final(self).remaining() + 1 == old(self).remaining()
                },
                Err(e) => {
                    &&& *final(self) == *old(self)
                    &&& e == (if old(self).remaining() == 0 {
                        Error::EmptyDeck
                    } else {
                        Error::InvalidPosition(n)
                    })
                },
            },
    {
        proof {
            use_type_invariant(&*self);
            lemma_masked(self.0);
            lemma_popcount_zero(self.0);
        }
        if n == 0 && self.0 != 0 {
            return Err(Error::InvalidPosition(n));
        }
        let place = pos_of_leading_1_bit(n, self.0)?;
        let position = place - 1;
        let ghost v = self.0;
        proof {
            lemma_place_in_deck(v, position);
            lemma_clear_bit(v, position, 0);
            lemma_clear_bit_count(v, position, 0);
            lemma_masked(v & !(1u64 << position));
        }
        self.0 = self.0 & !(1u64 << position);
        let card = Card::new(i_to_rank(position), i_to_suit(position));
        proof {
            crate::card::lemma_card_index(card, position as int);
            assert forall|x: Card| final(self).holds(x) == (old(self).holds(x) && x != card) by {
                crate::card::lemma_card_index(x, 0);
                lemma_clear_bit(v, position, x.index() as u64);
            }
        }
        Ok(card)
    }

    /// Draws a card at random from those that are left: each with the same
    /// chance. An empty deck gives `EmptyDeck`.
    pub fn draw(&mut self) -> (r: Result<Card, Error>)
        ensures
            r is Err <==> old(self).remaining() == 0,
            match r {
                Ok(c) => {
                    &&& old(self).holds(c)
                    &&& forall|x: Card| final(self).holds(x) == (old(self).holds(x) && x != c)
                    &&& final(self).cards() == old(self).cards().remove(c)
                    &&& final(self).remaining() + 1 == old(self).remaining()
                },
                Err(e) => e == Error::EmptyDeck && *final(self) == *old(self),
            },
    {
        proof {
            use_type_invariant(&*self);
            lemma_masked(self.0);
        }
        let ones = self.0.count_ones();
        if ones == 0 {
            return Err(Error::EmptyDeck);
        }
        let n = random_rank(ones);
        self.take_nth(n as u64)
    }
}

} // verus!
