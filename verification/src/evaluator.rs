//! The hand evaluator of the `poker` crate, as the engine uses it: hands are
//! ranked by the crate, and the engine only compares what comes back.

use vstd::prelude::*;
use poker::Eval;
use poker::Evaluator;
use crate::card::Card;
use crate::error::Error;

verus! {

/// `poker::Evaluator`: the lookup tables of the evaluator.
#[verifier::external_type_specification]
#[verifier::external_body]
pub struct ExEvaluator(Evaluator);

/// `poker::Eval`: the result of evaluating a hand. The crate keeps the rank
/// of the hand inside it and offers comparisons only.
#[verifier::external_type_specification]
#[verifier::external_body]
pub struct ExEval(Eval);

/// How strong an evaluation is: the number of hand ranks by which it beats
/// the worst hand of all, `Eval::WORST`. The crate ranks hands from 1, the
/// best, to the rank of the worst; this is the distance from that end.
pub uninterp spec fn eval_strength(e: Eval) -> int;

/// The strength of the best five cards among `cards`, as
/// `Evaluator::evaluate` finds it.
pub uninterp spec fn hand_strength(cards: Seq<Card>) -> int;

/// The name of an evaluation, such as `Pair, sevens`: what `Eval` shows
/// through `Display`.
pub uninterp spec fn eval_text(e: Eval) -> Seq<char>;

/// The name of the best five cards among `cards`: that of the evaluation
/// which `Evaluator::evaluate` returns for them.
pub uninterp spec fn hand_text(cards: Seq<Card>) -> Seq<char>;

/// Whether the tables hold the rank of every hand of five cards. Those that
/// `Evaluator::new` builds do; those of `Evaluator::default` are empty.
pub uninterp spec fn tables_built(t: Evaluator) -> bool;

/// `Evaluator::new`: builds the lookup tables, with the rank of every hand
/// of five cards in them.
#[verifier::external_body]
fn full_tables() -> (t: Evaluator)
    ensures
        tables_built(t),
{
    Evaluator::new()
}

/// `Evaluator::evaluate`, on cards made by `poker::Card::new` from the rank
/// and suit of each card. The crate refuses cards that are not all
/// different, then fewer than five cards; otherwise it looks every hand of
/// five up in the tables, which must hold it, and returns the evaluation of
/// the best five cards, which depends on the cards alone and is never
/// weaker than `Eval::WORST`.
#[verifier::external_body]
fn evaluate_with(evaluator: &HandEvaluator, cards: &Vec<Card>) -> (r: Result<Eval, Error>)
    requires
        evaluator.ready(),
    ensures
        (r is Ok) == (cards@.no_duplicates() && cards@.len() >= 5),
        r is Ok ==> eval_strength(r.unwrap()) == hand_strength(cards@),
        r is Ok ==> eval_strength(r.unwrap()) >= 0,
        r is Ok ==> eval_text(r.unwrap()) == hand_text(cards@),
        r is Err && !cards@.no_duplicates() ==> r.unwrap_err() == Error::CardsNotUnique,
        r is Err && cards@.no_duplicates() ==> r.unwrap_err() == Error::InvalidHandSize(
            cards@.len() as usize,
        ),
{
    let cs: Vec<poker::Card> = cards.iter().map(|c| poker::Card::new(c.rank, c.suit)).collect();
    match evaluator.tables.evaluate(cs) {
        Ok(e) => Ok(e),
        Err(poker::EvalError::CardsNotUnique(_)) => Err(Error::CardsNotUnique),
        Err(poker::EvalError::InvalidHandSize(n)) => Err(Error::InvalidHandSize(n)),
    }
}

/// `Eval::WORST`, the worst hand of all.
#[verifier::external_body]
pub(crate) fn worst_eval() -> (e: Eval)
    ensures
        eval_strength(e) == 0,
{
    Eval::WORST
}

/// `Eval::is_better_than`: whether the hand rank of `a` beats that of `b`.
#[verifier::external_body]
pub(crate) fn is_better_than(a: &Eval, b: &Eval) -> (r: bool)
    ensures
        r == (eval_strength(*a) > eval_strength(*b)),
{
    a.is_better_than(*b)
}

/// `Eval::is_equal_to`: whether `a` and `b` have the same hand rank.
#[verifier::external_body]
pub(crate) fn is_equal_to(a: &Eval, b: &Eval) -> (r: bool)
    ensures
        r == (eval_strength(*a) == eval_strength(*b)),
{
    a.is_equal_to(*b)
}

/// `Eval` through `Display` (`to_string`): the name of the hand.
#[verifier::external_body]
pub(crate) fn eval_name(e: &Eval) -> (s: String)
    ensures
        s@ == eval_text(*e),
{
    e.to_string()
}

/// The evaluator, with its tables built.
#[derive(Debug)]
pub struct HandEvaluator {
    tables: Evaluator,
}

impl HandEvaluator {
    /// An evaluator with its tables built.
    pub fn new() -> (e: Self)
        ensures
            e.ready(),
    {
        HandEvaluator { tables: full_tables() }
    }

    /// Evaluates the best five cards among `cards`, which must be five or
    /// more cards, all different.
    pub fn evaluate(&self, cards: &Vec<Card>) -> (r: Result<Eval, Error>)
        ensures
            (r is Ok) == (cards@.no_duplicates() && cards@.len() >= 5),
            r is Ok ==> eval_strength(r.unwrap()) == hand_strength(cards@),
        r is Ok ==> eval_strength(r.unwrap()) >= 0,
            r is Ok ==> eval_text(r.unwrap()) == hand_text(cards@),
            r is Err && !cards@.no_duplicates() ==> r.unwrap_err() == Error::CardsNotUnique,
            r is Err && cards@.no_duplicates() ==> r.unwrap_err() == Error::InvalidHandSize(
                cards@.len() as usize,
            ),
    {
        proof {
            use_type_invariant(self);
        }
        evaluate_with(self, cards)
    }

    /// The tables of the evaluator are built: it can rank every hand.
    pub closed spec fn ready(&self) -> bool {
        tables_built(self.tables)
    }

    #[verifier::type_invariant]
    spec fn built(&self) -> bool {
        self.ready()
    }
}

} // verus!
