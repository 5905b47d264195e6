//! Playing cards: a rank and a suit of the `poker` crate, and the
//! two-character text of a card on the wire.

use vstd::prelude::*;
use vstd::string::StrSliceExecFns;
use vstd::string::StringExecFns;
pub use poker::Rank;
pub use poker::Suit;

verus! {

/// `poker::Rank`, a plain enum of the thirteen ranks, `Two` to `Ace`.
#[verifier::external_type_specification]
pub struct ExRank(poker::Rank);

/// `poker::Suit`, a plain enum of the four suits.
#[verifier::external_type_specification]
pub struct ExSuit(poker::Suit);

/// The place of a rank in the order `2, 3, .., K, A`, from 0.
pub open spec fn rank_number(r: Rank) -> int {
    match r {
        Rank::Two => 0,
        Rank::Three => 1,
        Rank::Four => 2,
        Rank::Five => 3,
        Rank::Six => 4,
        Rank::Seven => 5,
        Rank::Eight => 6,
        Rank::Nine => 7,
        Rank::Ten => 8,
        Rank::Jack => 9,
        Rank::Queen => 10,
        Rank::King => 11,
        Rank::Ace => 12,
    }
}

/// The place of a suit in the order spades, hearts, diamonds, clubs, from 0.
pub open spec fn suit_number(s: Suit) -> int {
    match s {
        Suit::Spades => 0,
        Suit::Hearts => 1,
        Suit::Diamonds => 2,
        Suit::Clubs => 3,
    }
}

/// The rank at place `n`; `Ace` for every `n` from 12 on.
pub open spec fn rank_at(n: int) -> Rank {
    if n <= 0 {
        Rank::Two
    } else if n == 1 {
        Rank::Three
    } else if n == 2 {
        Rank::Four
    } else if n == 3 {
        Rank::Five
    } else if n == 4 {
        Rank::Six
    } else if n == 5 {
        Rank::Seven
    } else if n == 6 {
        Rank::Eight
    } else if n == 7 {
        Rank::Nine
    } else if n == 8 {
        Rank::Ten
    } else if n == 9 {
        Rank::Jack
    } else if n == 10 {
        Rank::Queen
    } else if n == 11 {
        Rank::King
    } else {
        Rank::Ace
    }
}

/// The suit at place `n`; `Clubs` for every `n` from 3 on.
pub open spec fn suit_at(n: int) -> Suit {
    if n <= 0 {
        Suit::Spades
    } else if n == 1 {
        Suit::Hearts
    } else if n == 2 {
        Suit::Diamonds
    } else {
        Suit::Clubs
    }
}

/// The character of a rank: one of `23456789TJQKA`.
pub open spec fn rank_char(r: Rank) -> char {
    match r {
        Rank::Two => '2',
        Rank::Three => '3',
        Rank::Four => '4',
        Rank::Five => '5',
        Rank::Six => '6',
        Rank::Seven => '7',
        Rank::Eight => '8',
        Rank::Nine => '9',
        Rank::Ten => 'T',
        Rank::Jack => 'J',
        Rank::Queen => 'Q',
        Rank::King => 'K',
        Rank::Ace => 'A',
    }
}

/// The character of a suit: one of `shdc`.
pub open spec fn suit_char(s: Suit) -> char {
    match s {
        Suit::Spades => 's',
        Suit::Hearts => 'h',
        Suit::Diamonds => 'd',
        Suit::Clubs => 'c',
    }
}

/// The symbol of a suit, as cards are shown: a spade, a heart, a diamond
/// or a club.
pub open spec fn suit_symbol(s: Suit) -> char {
    match s {
        Suit::Spades => '\u{2660}',
        Suit::Hearts => '\u{2665}',
        Suit::Diamonds => '\u{2666}',
        Suit::Clubs => '\u{2663}',
    }
}

/// The rank that a character stands for, if any.
pub open spec fn rank_of_char(c: char) -> Option<Rank> {
    if c == '2' {
        Some(Rank::Two)
    } else if c == '3' {
        Some(Rank::Three)
    } else if c == '4' {
        Some(Rank::Four)
    } else if c == '5' {
        Some(Rank::Five)
    } else if c == '6' {
        Some(Rank::Six)
    } else if c == '7' {
        Some(Rank::Seven)
    } else if c == '8' {
        Some(Rank::Eight)
    } else if c == '9' {
        Some(Rank::Nine)
    } else if c == 'T' {
        Some(Rank::Ten)
    } else if c == 'J' {
        Some(Rank::Jack)
    } else if c == 'Q' {
        Some(Rank::Queen)
    } else if c == 'K' {
        Some(Rank::King)
    } else if c == 'A' {
        Some(Rank::Ace)
    } else {
        None
    }
}

/// The suit that a character stands for, if any.
pub open spec fn suit_of_char(c: char) -> Option<Suit> {
    if c == 's' {
        Some(Suit::Spades)
    } else if c == 'h' {
        Some(Suit::Hearts)
    } else if c == 'd' {
        Some(Suit::Diamonds)
    } else if c == 'c' {
        Some(Suit::Clubs)
    } else {
        None
    }
}

/// A playing card.
#[derive(Debug, Clone, Copy, PartialEq, Eq, Hash)]
pub struct Card {
    pub rank: Rank,
    pub suit: Suit,
}

/// The card at place `i` of a full deck: rank `i mod 13`, suit `i div 13`.
pub open spec fn card_at(i: int) -> Card {
    Card { rank: rank_at(i % 13), suit: suit_at(i / 13) }
}

/// The card that a two-character text stands for, if any.
pub open spec fn parse_card(s: Seq<char>) -> Option<Card> {
    if s.len() == 2 && rank_of_char(s[0]) is Some && suit_of_char(s[1]) is Some {
        Some(Card { rank: rank_of_char(s[0]).unwrap(), suit: suit_of_char(s[1]).unwrap() })
    } else {
        None
    }
}

fn rank_str(r: Rank) -> (s: &'static str)
    ensures
        s@ == seq![rank_char(r)],
{
    proof {
        reveal_strlit("2");
        reveal_strlit("3");
        reveal_strlit("4");
        reveal_strlit("5");
        reveal_strlit("6");
        reveal_strlit("7");
        reveal_strlit("8");
        reveal_strlit("9");
        reveal_strlit("T");
        reveal_strlit("J");
        reveal_strlit("Q");
        reveal_strlit("K");
        reveal_strlit("A");
    }
    let s = match r {
        Rank::Two => "2",
        Rank::Three => "3",
        Rank::Four => "4",
        Rank::Five => "5",
        Rank::Six => "6",
        Rank::Seven => "7",
        Rank::Eight => "8",
        Rank::Nine => "9",
        Rank::Ten => "T",
        Rank::Jack => "J",
        Rank::Queen => "Q",
        Rank::King => "K",
        Rank::Ace => "A",
    };
    s
}

fn suit_str(s: Suit) -> (t: &'static str)
    ensures
        t@ == seq![suit_char(s)],
{
    proof {
        reveal_strlit("s");
        reveal_strlit("h");
        reveal_strlit("d");
        reveal_strlit("c");
    }
    let t = match s {
        Suit::Spades => "s",
        Suit::Hearts => "h",
        Suit::Diamonds => "d",
        Suit::Clubs => "c",
    };
    t
}

fn suit_symbol_str(s: Suit) -> (t: &'static str)
    ensures
        t@ == seq![suit_symbol(s)],
{
    proof {
        reveal_strlit("\u{2660}");
        reveal_strlit("\u{2665}");
        reveal_strlit("\u{2666}");
        reveal_strlit("\u{2663}");
    }
    let t = match s {
        Suit::Spades => "\u{2660}",
        Suit::Hearts => "\u{2665}",
        Suit::Diamonds => "\u{2666}",
        Suit::Clubs => "\u{2663}",
    };
    t
}

fn rank_from_char(c: char) -> (r: Option<Rank>)
    ensures
        r == rank_of_char(c),
{
    if c == '2' {
        Some(Rank::Two)
    } else if c == '3' {
        Some(Rank::Three)
    } else if c == '4' {
        Some(Rank::Four)
    } else if c == '5' {
        Some(Rank::Five)
    } else if c == '6' {
        Some(Rank::Six)
    } else if c == '7' {
        Some(Rank::Seven)
    } else if c == '8' {
        Some(Rank::Eight)
    } else if c == '9' {
        Some(Rank::Nine)
    } else if c == 'T' {
        Some(Rank::Ten)
    } else if c == 'J' {
        Some(Rank::Jack)
    } else if c == 'Q' {
        Some(Rank::Queen)
    } else if c == 'K' {
        Some(Rank::King)
    } else if c == 'A' {
        Some(Rank::Ace)
    } else {
        None
    }
}

fn suit_from_char(c: char) -> (s: Option<Suit>)
    ensures
        s == suit_of_char(c),
{
    if c == 's' {
        Some(Suit::Spades)
    } else if c == 'h' {
        Some(Suit::Hearts)
    } else if c == 'd' {
        Some(Suit::Diamonds)
    } else if c == 'c' {
        Some(Suit::Clubs)
    } else {
        None
    }
}

impl Card {
    /// The place of the card in a full deck, from 0 to 51.
    pub open spec fn index(self) -> int {
        suit_number(self.suit) * 13 + rank_number(self.rank)
    }

    /// The text of the card: the character of its rank, then that of its suit.
    pub open spec fn text(self) -> Seq<char> {
        seq![rank_char(self.rank), suit_char(self.suit)]
    }

    /// The card as it is shown: the character of its rank and the symbol of
    /// its suit, in square brackets.
    pub open spec fn shown(self) -> Seq<char> {
        seq!['[', ' ', rank_char(self.rank), suit_symbol(self.suit), ' ', ']']
    }

    /// The card as it is shown: `[ `, rank, suit, ` ]`.
    pub fn display(&self) -> (s: String)
        ensures
            s@ == self.shown(),
    {
        proof {
            reveal_strlit("[ ");
            reveal_strlit(" ]");
        }
        let mut s = String::from_str("[ ");
        s.append(rank_str(self.rank));
        s.append(suit_symbol_str(self.suit));
        s.append(" ]");
        s
    }

    /// The card of a rank and a suit.
    pub fn new(rank: Rank, suit: Suit) -> (c: Card)
        ensures
            c == (Card { rank, suit }),
    {
        Card { rank, suit }
    }

    /// The card as two characters, rank then suit, such as `As`.
    pub fn rank_suit_string(&self) -> (s: String)
        ensures
            s@ == self.text(),
    {
        let mut s = String::from_str(rank_str(self.rank));
        s.append(suit_str(self.suit));
        s
    }

    /// Reads a card from its two characters. Any other text gives `None`.
    pub fn parse(s: &str) -> (c: Option<Card>)
        ensures
            c == parse_card(s@),
    {
        if s.unicode_len() != 2 {
            return None;
        }
        let rank = rank_from_char(s.get_char(0));
        let suit = suit_from_char(s.get_char(1));
        match (rank, suit) {
            (Some(rank), Some(suit)) => Some(Card { rank, suit }),
            _ => None,
        }
    }
}

/// A card is found again from its place in the deck, and every place from 0
/// to 51 holds a card of its own.
pub proof fn lemma_card_index(c: Card, i: int)
    ensures
        0 <= c.index() < 52,
        card_at(c.index()) == c,
        0 <= i < 52 ==> card_at(i).index() == i,
{
}

/// Reading the text of a card gives the card back.
pub proof fn lemma_card_text_round_trip(c: Card)
    ensures
        parse_card(c.text()) == Some(c),
{
}

/// A text that reads as a card is the text of that card.
pub proof fn lemma_card_parse_exact(s: Seq<char>)
    requires
        parse_card(s) is Some,
    ensures
        parse_card(s).unwrap().text() == s,
{
}

} // verus!
