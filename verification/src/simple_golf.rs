//! A golf hole of three states: on the fairway (0), on the green (1) and in
//! the hole (2). From the fairway the ball is hit to the green (action 0);
//! on the green it is hit back to the fairway (action 1) or putted (action
//! 2). Each stroke succeeds nine times out of ten and else leaves the ball
//! where it is; a putt that succeeds pays 10 and ends the game.

use vstd::prelude::*;
use std::rc::Rc;
use crate::defs::{Continous, Discrete, Transition};
use crate::fixed::ONE;
use crate::mdp::Mdp;
use crate::mdp_simulator::{total_weight, weights_error, SampleError};
use crate::solvers::{faulty, leaks, weights_of};
use crate::transitions::{has_state, Entry, Transitions};

verus! {

/// The golf hole as a Markov decision process.
pub struct SimpleGolf {
    gamma: Continous,
    n_s: usize,
    n_a: usize,
    transitions: Rc<Transitions>,
}

/// The two outcomes of a stroke from `here` toward `there`: the stroke
/// succeeds nine times out of ten, with `reward`, ending the game if `done`;
/// else the ball stays `here`.
pub open spec fn stroke(here: Discrete, there: Discrete, reward: Continous, done: bool) -> Seq<
    Transition,
> {
    seq![
        Transition { next_state: there, probability: 900_000_000, reward, done },
        Transition { next_state: here, probability: 100_000_000, reward: 0, done: false },
    ]
}

/// The outcomes of a stroke, as `stroke` lists them.
fn stroke_outcomes(here: Discrete, there: Discrete, reward: Continous, done: bool) -> (r: Vec<
    Transition,
>)
    ensures
        r@ == stroke(here, there, reward, done),
{
    let mut out: Vec<Transition> = Vec::new();
    out.push(Transition { next_state: there, probability: ONE / 10 * 9, reward, done });
    out.push(Transition { next_state: here, probability: ONE / 10, reward: 0, done: false });
    assert(out@ =~= stroke(here, there, reward, done));
    out
}

/// Whether `model` is that of the golf hole: its three (state, action)
/// pairs in the order fairway, green back to fairway, putt.
pub open spec fn is_golf(model: Seq<Entry>) -> bool {
    &&& model.len() == 3
    &&& model[0].state == 0 && model[0].action == 0
    &&& model[0].outcomes@ == stroke(0, 1, 0, false)
    &&& model[1].state == 1 && model[1].action == 1
    &&& model[1].outcomes@ == stroke(1, 0, 0, false)
    &&& model[2].state == 1 && model[2].action == 2
    &&& model[2].outcomes@ == stroke(1, 2, 10_000_000_000, true)
}

impl SimpleGolf {
    /// The number of states of the process.
    pub closed spec fn states(&self) -> usize {
        self.n_s
    }

    /// The number of actions of the process.
    pub closed spec fn actions(&self) -> usize {
        self.n_a
    }

    /// The shared transition model of the process.
    pub closed spec fn model(&self) -> Rc<Transitions> {
        self.transitions
    }

    /// The discount factor of the process.
    pub closed spec fn discount(&self) -> Continous {
        self.gamma
    }

    /// The golf hole with discount factor `gamma`.
    pub fn new(gamma: Continous) -> (r: Self)
        ensures
            r.states() == 3,
            r.actions() == 3,
            is_golf(r.model()@),
            r.discount() == gamma,
    {
        let mut transitions: Transitions = Transitions::new();
        transitions.insert(0, 0, stroke_outcomes(0, 1, 0, false));
        transitions.insert(1, 1, stroke_outcomes(1, 0, 0, false));
        transitions.insert(1, 2, stroke_outcomes(1, 2, 10 * ONE, true));
        SimpleGolf { gamma, n_s: 3, n_a: 3, transitions: Rc::new(transitions) }
    }
}

impl Mdp for SimpleGolf {
    fn n_s(&self) -> (r: usize)
        ensures
            r == self.states(),
    {
        self.n_s
    }

    fn n_a(&self) -> (r: usize)
        ensures
            r == self.actions(),
    {
        self.n_a
    }

    fn transitions(&self) -> (r: Rc<Transitions>)
        ensures
            r == self.model(),
    {
        Rc::clone(&self.transitions)
    }

    fn gamma(&self) -> (r: Continous)
        ensures
            r == self.discount(),
    {
        self.gamma
    }
}

/// The outcomes of a stroke can be sampled from.
pub proof fn lemma_stroke_can_be_sampled(
    here: Discrete,
    there: Discrete,
    reward: Continous,
    done: bool,
)
    ensures
        weights_error(weights_of(stroke(here, there, reward, done))) is None,
{
    let ws = weights_of(stroke(here, there, reward, done));
    assert(ws.len() == 2);
    assert(ws[0] == 900_000_000 && ws[1] == 100_000_000);
    reveal_with_fuel(total_weight, 3);
    assert(total_weight(ws, 2) == 1_000_000_000);
}

/// The golf hole can be simulated from the fairway and from the green:
/// every entry can be sampled from, and every stroke that does not end the
/// game leaves the ball on the fairway or on the green.
pub proof fn lemma_golf_can_be_simulated(model: Seq<Entry>)
    requires
        is_golf(model),
    ensures
        has_state(model, 0),
        has_state(model, 1),
        !leaks(model),
        forall|e: SampleError| !faulty(model, e),
{
    lemma_stroke_can_be_sampled(0, 1, 0, false);
    lemma_stroke_can_be_sampled(1, 0, 0, false);
    lemma_stroke_can_be_sampled(1, 2, 10_000_000_000, true);
    assert(model[0].state == 0);
    assert(model[1].state == 1);
}

} // verus!
