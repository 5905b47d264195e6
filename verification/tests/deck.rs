use std::collections::HashSet;

use holdem::card::Card;
use holdem::deck::pos_of_leading_1_bit;
use holdem::deck::Deck;
use holdem::deck::FULL_DECK_INT;
use holdem::error::Error;

#[test]
fn make_sure_full_deck_int_has_only_52_trailing_1_bits() {
    assert_eq!(52, Deck::new().bits().count_ones());
    assert_eq!(Deck::new().bits(), 0x000f_ffff_ffff_ffff);
    assert_eq!(Deck::new().bits().trailing_ones(), 52);
    assert_eq!(Deck::new().len(), 52);
}

#[test]
fn test_pos_of_trailing_1_bit() {
    let deck: u64 = 0b0111_1100;
    assert_eq!(5, pos_of_leading_1_bit(3, deck).unwrap());
}

#[test]
fn test_pos_of_trailing_1_bit_with_empty_deck() {
    let deck: u64 = 0;
    let error = pos_of_leading_1_bit(0, deck).unwrap_err();
    assert!(matches!(error, Error::EmptyDeck));
}

#[test]
fn test_pos_of_trailing_1_bit_with_rank_greater_than_available_bits() {
    let deck: u64 = 0b0000_0001;
    let error = pos_of_leading_1_bit(2, deck).unwrap_err();
    assert!(matches!(error, Error::InvalidPosition(2)));
}

#[test]
fn test_draw() {
    let mut deck = Deck::new();
    let mut all_cards = HashSet::new();
    for _ in 0..52 {
        all_cards.insert(deck.draw().unwrap());
    }
    assert_eq!(52, all_cards.len());
    assert_eq!(deck.bits(), 0);
}

#[test]
fn test_pos_of_leading_1_bit_for_all_rank_in_full_deck() {
    let deck: u64 = 0x000f_ffff_ffff_ffff;
    for i in 1..53 {
        assert_eq!(53 - i, pos_of_leading_1_bit(i, deck).unwrap());
    }
}

#[test]
fn draw_from_an_empty_deck_fails_and_leaves_it_empty() {
    let mut deck = Deck::new();
    for _ in 0..52 {
        assert!(deck.draw().is_ok());
    }
    assert_eq!(deck.len(), 0);
    assert!(matches!(deck.draw(), Err(Error::EmptyDeck)));
    assert!(matches!(deck.draw(), Err(Error::EmptyDeck)));
    assert_eq!(deck.bits(), 0);
}

#[test]
fn rank_zero_gives_place_64() {
    assert_eq!(pos_of_leading_1_bit(0, 1).unwrap(), 64);
    assert_eq!(pos_of_leading_1_bit(0, FULL_DECK_INT).unwrap(), 64);
}

#[test]
fn every_rank_finds_its_one_bit() {
    let words: [u64; 5] = [
        0x8000_0000_0000_0001,
        0xf0f0_f0f0_0f0f_0f0f,
        0x0123_4567_89ab_cdef,
        u64::MAX,
        0x0000_0001_0000_0000,
    ];
    for v in words {
        let ones = v.count_ones() as u64;
        let mut seen = 0u64;
        for r in 1..=ones {
            let place = pos_of_leading_1_bit(r, v).unwrap();
            assert!((1..=64).contains(&place));
            let bit = 1u64 << (place - 1);
            assert_ne!(v & bit, 0);
            assert_eq!((v >> (place - 1)).count_ones() as u64, r);
            assert_eq!(seen & bit, 0);
            seen |= bit;
        }
        assert_eq!(seen, v);
        assert!(matches!(
            pos_of_leading_1_bit(ones + 1, v),
            Err(Error::InvalidPosition(_))
        ));
    }
}

#[test]
fn take_nth_takes_the_card_at_that_rank() {
    let mut deck = Deck::new();
    let top = deck.take_nth(1).unwrap();
    assert_eq!(top, Card::parse("Ac").unwrap());
    assert_eq!(deck.len(), 51);
    let lowest = deck.take_nth(51).unwrap();
    assert_eq!(lowest, Card::parse("2s").unwrap());
    assert_eq!(deck.len(), 50);
    assert!(matches!(deck.take_nth(0), Err(Error::InvalidPosition(0))));
    assert!(matches!(deck.take_nth(51), Err(Error::InvalidPosition(51))));
    assert_eq!(deck.len(), 50);
    let next = deck.take_nth(1).unwrap();
    assert_eq!(next, Card::parse("Kc").unwrap());
}

#[test]
fn each_rank_of_a_deck_takes_another_card() {
    let mut seen = HashSet::new();
    for n in 1..=52u64 {
        let mut deck = Deck::new();
        let card = deck.take_nth(n).unwrap();
        assert!(seen.insert(card));
        assert_eq!(deck.bits().count_ones(), 51);
    }
    assert_eq!(seen.len(), 52);
}

#[test]
fn draws_are_spread_over_the_deck() {
    let rounds = 5200;
    let mut first = std::collections::HashMap::new();
    for _ in 0..rounds {
        let card = Deck::new().draw().unwrap();
        *first.entry(card).or_insert(0u32) += 1;
    }
    assert_eq!(first.len(), 52);
    for (_, count) in first {
        assert!(count > 40, "{count}");
        assert!(count < 180, "{count}");
    }
}

#[test]
fn a_cloned_deck_is_the_same_deck() {
    let mut deck = Deck::new();
    deck.draw().unwrap();
    let copy = deck.clone();
    assert_eq!(copy.bits(), deck.bits());
}
