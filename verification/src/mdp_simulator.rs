//! Weighted sampling with a seeded pseudo-random generator, and the
//! interfaces of what produces episodes.

use vstd::prelude::*;
use rand::distributions::{Distribution, WeightedIndex};
use rand::rngs::StdRng;
use rand::seq::IteratorRandom;
use rand::SeedableRng;
use crate::defs::{Continous, Discrete, EpisodeEvent};

verus! {

/// The pseudo-random generator of the `rand` crate. Its state is opaque
/// here: nothing is known of what it will draw.
#[verifier::external_type_specification]
#[verifier::external_body]
pub struct ExStdRng(StdRng);

/// Why a list of weights cannot be sampled from.
#[derive(Clone, Copy, Debug, PartialEq, Eq, Structural)]
pub enum SampleError {
    /// The list is empty.
    NoItem,
    /// A weight is negative.
    InvalidWeight,
    /// The weights add up to more than a `Continous` can hold.
    TooHeavy,
    /// Every weight is zero.
    AllWeightsZero,
}

/// The sum of the first `upto` weights.
pub open spec fn total_weight(ws: Seq<Continous>, upto: int) -> int
    decreases upto,
{
    if upto <= 0 {
        0
    } else {
        total_weight(ws, upto - 1) + ws[upto - 1]
    }
}

/// Whether some weight is negative.
pub open spec fn has_negative(ws: Seq<Continous>) -> bool {
    exists|i: int| 0 <= i < ws.len() && ws[i] < 0
}

/// What is wrong with a list of weights, if anything: the first of the four
/// faults, in the order of `SampleError`, that it shows.
pub open spec fn weights_error(ws: Seq<Continous>) -> Option<SampleError> {
    if ws.len() == 0 {
        Some(SampleError::NoItem)
    } else if has_negative(ws) {
        Some(SampleError::InvalidWeight)
    } else if total_weight(ws, ws.len() as int) > i64::MAX {
        Some(SampleError::TooHeavy)
    } else if total_weight(ws, ws.len() as int) == 0 {
        Some(SampleError::AllWeightsZero)
    } else {
        None
    }
}

/// A generator made from a seed.
///
/// Wraps `StdRng::seed_from_u64` of `rand`, which accepts every seed. The
/// generator is deterministic: in one build of the program the same seed
/// gives the same draws. `rand` does not promise the same draws from another
/// version or configuration, so the contract claims nothing of the
/// generator.
#[verifier::external_body]
pub(crate) fn seeded_rng(seed: u64) -> (rng: StdRng)
{
    StdRng::seed_from_u64(seed)
}

/// Draws a position of `weights`, each with a chance in proportion to its
/// weight.
///
/// Wraps `WeightedIndex::new` of `rand`, on the weights as they stand, and
/// `sample` on the distribution it made. The `requires` leaves out what
/// `new` refuses (no weight, a negative weight, a total of zero) and a total
/// beyond the 64-bit range, which it adds up unchecked. The contract claims
/// that the position drawn lies in the list and has a positive weight:
/// `sample` draws a number from 0 up to the total, the total excluded, and
/// hands back the first position at which the running total exceeds it.
#[verifier::external_body]
fn draw_weighted(rng: &mut StdRng, weights: &Vec<Continous>) -> (i: usize)
    requires
        weights_error(weights@) is None,
    ensures
        i < weights.len(),
        weights[i as int] > 0,
{
    WeightedIndex::new(weights.iter()).unwrap().sample(rng)
}

/// Draws one of `items`, each with the same chance.
///
/// Wraps `IteratorRandom::choose` of `rand` on the items in their order. The
/// contract claims what its documentation says: `None` if and only if there
/// is no item, else one of the items.
#[verifier::external_body]
pub(crate) fn choose_one(rng: &mut StdRng, items: &Vec<usize>) -> (r: Option<usize>)
    ensures
        r is None <==> items.len() == 0,
        r is Some ==> items@.contains(r->Some_0),
{
    items.iter().choose(rng).copied()
}

/// Without a negative weight, a longer run of weights adds up to no less.
pub proof fn lemma_total_weight_grows(ws: Seq<Continous>, a: int, b: int)
    requires
        !has_negative(ws),
        0 <= a <= b <= ws.len(),
    ensures
        0 <= total_weight(ws, a) <= total_weight(ws, b),
    decreases b,
{
    if a < b {
        lemma_total_weight_grows(ws, a, b - 1);
        assert(ws[b - 1] >= 0);
    } else if a > 0 {
        lemma_total_weight_grows(ws, a - 1, a - 1);
        assert(ws[a - 1] >= 0);
    }
}

/// Says what is wrong with a list of weights, if anything.
pub fn check_weights(weights: &Vec<Continous>) -> (r: Option<SampleError>)
    ensures
        r == weights_error(weights@),
{
    if weights.len() == 0 {
        return Some(SampleError::NoItem);
    }
    let mut i: usize = 0;
    while i < weights.len()
        invariant
            i <= weights.len(),
            forall|k: int| 0 <= k < i ==> weights@[k] >= 0,
        decreases weights.len() - i,
    {
        if weights[i] < 0 {
            return Some(SampleError::InvalidWeight);
        }
        i = i + 1;
    }
    let mut total: Continous = 0;
    let mut j: usize = 0;
    while j < weights.len()
        invariant
            j <= weights.len(),
            !has_negative(weights@),
            total == total_weight(weights@, j as int),
        decreases weights.len() - j,
    {
        match total.checked_add(weights[j]) {
            Some(sum) => {
                total = sum;
            },
            None => {
                proof {
                    lemma_total_weight_grows(weights@, j + 1, weights@.len() as int);
                }
                return Some(SampleError::TooHeavy);
            },
        }
        j = j + 1;
    }
    if total == 0 {
        Some(SampleError::AllWeightsZero)
    } else {
        None
    }
}

/// Draws a position of `weights`, each with a chance in proportion to its
/// weight; the weights need not add up to one. Fails, without drawing, on a
/// list that `weights_error` faults.
pub fn pick_index(rng: &mut StdRng, weights: &Vec<Continous>) -> (r: Result<usize, SampleError>)
    ensures
        match r {
            Ok(i) => weights_error(weights@) is None && i < weights.len() && weights[i as int] > 0,
            Err(e) => weights_error(weights@) == Some(e),
        },
{
    match check_weights(weights) {
        Some(e) => Err(e),
        None => Ok(draw_weighted(rng, weights)),
    }
}

/// An alternative with a weight: what a weighted draw chooses among.
pub trait Weighted<S> {
    /// Whether `v` may be what `s` hands back. An item that says nothing of
    /// itself leaves this at `true`.
    open spec fn yields(&self, v: S) -> bool {
        true
    }

    /// Whether `w` may be what `p` hands back. An item that says nothing of
    /// itself leaves this at `true`.
    open spec fn weighs(&self, w: Continous) -> bool {
        true
    }

    /// What choosing this item results in.
    fn s(&self) -> (v: S)
        ensures
            self.yields(v),
    ;

    /// The weight of this item.
    fn p(&self) -> (w: Continous)
        ensures
            self.weighs(w),
    ;
}

/// Whether `ws` may be the weights of the items `ts`, position by position.
pub open spec fn weighed<T: Weighted<S>, S>(ts: Seq<T>, ws: Seq<Continous>) -> bool {
    &&& ws.len() == ts.len()
    &&& forall|i: int| 0 <= i < ts.len() ==> (#[trigger] ts[i]).weighs(ws[i])
}

/// Whether `out` may come of a weighted draw among the items `ts` when
/// their weights are `ws`: the fault of the weights where they have one,
/// else what an item of positive weight results in.
pub open spec fn picked<T: Weighted<S>, S>(
    ts: Seq<T>,
    ws: Seq<Continous>,
    out: Result<S, SampleError>,
) -> bool {
    match out {
        Ok(v) => weights_error(ws) is None && exists|i: int|
            0 <= i < ts.len() && ws[i] > 0 && (#[trigger] ts[i]).yields(v),
        Err(e) => weights_error(ws) == Some(e),
    }
}

/// Draws one of the items, each with a chance in proportion to its weight,
/// and hands back what it results in.
pub fn pick_next<T: Weighted<S>, S>(rng: &mut StdRng, ts: &Vec<T>) -> (r: Result<S, SampleError>)
    ensures
        exists|ws: Seq<Continous>| weighed(ts@, ws) && picked(ts@, ws, r),
{
    let mut weights: Vec<Continous> = Vec::new();
    let mut k: usize = 0;
    while k < ts.len()
        invariant
            k <= ts.len(),
            weights.len() == k,
            forall|i: int| 0 <= i < k ==> (#[trigger] ts@[i]).weighs(weights@[i]),
        decreases ts.len() - k,
    {
        weights.push(ts[k].p());
        k = k + 1;
    }
    let r: Result<S, SampleError> = match pick_index(rng, &weights) {
        Ok(i) => Ok(ts[i].s()),
        Err(e) => Err(e),
    };
    assert(weighed(ts@, weights@) && picked(ts@, weights@, r));
    r
}

/// Why a source of episodes could not produce them.
#[derive(Clone, Copy, Debug, PartialEq, Eq, Structural)]
pub enum GenerateError {
    /// An episode reached a state for which the model has no entry.
    UnknownState,
    /// An episode reached an entry whose outcomes cannot be sampled from.
    Weights(SampleError),
    /// The policy had no action for a state that an episode reached.
    NoAction,
    /// The model has no entry for the action that the policy chose.
    UnknownAction,
    /// The source could not be reached or did not answer.
    Unavailable,
}

/// A source of complete episodes: a simulated model or a live environment.
pub trait EpisodeGenerator {
    /// Whether `out` may be what `generate` hands back for `n` episodes. A
    /// source that says nothing of its episodes leaves this at `true`.
    open spec fn produces(&self, n: usize, out: Result<Vec<Vec<EpisodeEvent>>, GenerateError>) -> bool {
        true
    }

    /// Produces `n` episodes.
    fn generate(&self, n: usize) -> (out: Result<Vec<Vec<EpisodeEvent>>, GenerateError>)
        ensures
            self.produces(n, out),
    ;
}

/// An environment that is stepped from outside.
pub trait MdpSimulator {
    fn name(&self) -> String;

    fn n_s() -> Discrete;

    fn action_space_sample(&self);

    fn reset(&self);

    fn step(&self);
}

} // verus!
