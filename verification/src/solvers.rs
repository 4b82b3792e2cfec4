//! Simulation of episodes from a transition model.

use vstd::prelude::*;
use std::rc::Rc;
use rand::rngs::StdRng;
use crate::defs::{Continous, Discrete, DiscreteSpace, EpisodeEvent, Policy, Transition};
use crate::mdp_simulator::{
    choose_one, pick_next, picked, seeded_rng, weighed, weights_error, EpisodeGenerator,
    GenerateError, SampleError, Weighted,
};
use crate::transitions::{has_key, has_state, lemma_slots_of, Entry, Transitions};

verus! {

impl Weighted<Transition> for Transition {
    open spec fn yields(&self, v: Transition) -> bool {
        v == *self
    }

    open spec fn weighs(&self, w: Continous) -> bool {
        w == self.probability
    }

    /// The outcome itself.
    fn s(&self) -> (v: Transition) {
        *self
    }

    /// The probability of the outcome.
    fn p(&self) -> (w: Continous) {
        self.probability
    }
}

/// The weights of a list of outcomes: their probabilities.
pub open spec fn weights_of(os: Seq<Transition>) -> Seq<Continous> {
    Seq::new(os.len(), |j: int| os[j].probability)
}

/// Whether `o` is an outcome of positive weight of some action in state `s`.
pub open spec fn possible(model: Seq<Entry>, s: Discrete, o: Transition) -> bool {
    exists|i: int, j: int|
        0 <= i < model.len() && model[i].state == s && 0 <= j < model[i].outcomes@.len()
            && #[trigger] model[i].outcomes@[j] == o && o.probability > 0
}

/// The state in which outcome `t` of a run is drawn.
pub open spec fn state_before(start: Discrete, os: Seq<Transition>, t: int) -> Discrete {
    if t <= 0 {
        start
    } else {
        os[t - 1].next_state
    }
}

/// Whether the outcomes `os`, drawn one after the other, are a walk through
/// the model from `start` on which only the last outcome may be terminal.
pub open spec fn is_walk(model: Seq<Entry>, start: Discrete, os: Seq<Transition>) -> bool {
    &&& forall|t: int|
        0 <= t < os.len() ==> possible(model, state_before(start, os, t), #[trigger] os[t])
    &&& forall|t: int| 0 <= t < os.len() - 1 ==> !(#[trigger] os[t]).done
}

/// Whether the walk `os` is complete: it ends with a terminal outcome, or it
/// has used up the steps allowed.
pub open spec fn is_complete(os: Seq<Transition>, max_steps: int) -> bool {
    &&& os.len() <= max_steps
    &&& os.len() < max_steps ==> os.len() > 0 && os[os.len() - 1].done
}

/// Whether `ep` records the walk `os` from `start`: the start state with a
/// reward of 0, then for each outcome the state it leads to and its reward.
pub open spec fn records(start: Discrete, os: Seq<Transition>, ep: Seq<EpisodeEvent>) -> bool {
    &&& ep.len() == os.len() + 1
    &&& ep[0] == EpisodeEvent { s: start, r: 0 }
    &&& forall|t: int|
        0 <= t < os.len() ==> #[trigger] ep[t + 1] == EpisodeEvent {
            s: os[t].next_state,
            r: os[t].reward,
        }
}

/// Whether `ep` is an episode of the model from `start`: the record of a
/// complete walk.
pub open spec fn is_episode(
    model: Seq<Entry>,
    start: Discrete,
    max_steps: int,
    ep: Seq<EpisodeEvent>,
) -> bool {
    exists|os: Seq<Transition>|
        is_walk(model, start, os) && is_complete(os, max_steps) && records(start, os, ep)
}

/// An episode is determined by the state it starts in and the outcomes
/// drawn: two records of one walk are the same episode.
pub proof fn lemma_walk_determines_episode(
    start: Discrete,
    os: Seq<Transition>,
    one: Seq<EpisodeEvent>,
    two: Seq<EpisodeEvent>,
)
    requires
        records(start, os, one),
        records(start, os, two),
    ensures
        one == two,
{
    assert forall|t: int| 0 <= t < one.len() implies one[t] == two[t] by {
        if t > 0 {
            assert(one[(t - 1) + 1] == two[(t - 1) + 1]);
        }
    }
    assert(one =~= two);
}

/// Whether some outcome that can be drawn and does not end the episode
/// leads to a state for which the model has no entry.
pub open spec fn leaks(model: Seq<Entry>) -> bool {
    exists|i: int, j: int|
        0 <= i < model.len() && 0 <= j < model[i].outcomes@.len() && (
        #[trigger] model[i].outcomes@[j]).probability > 0 && !model[i].outcomes@[j].done
            && !has_state(model, model[i].outcomes@[j].next_state)
}

/// Whether the outcomes of some entry cannot be sampled from, for the
/// reason `e`.
pub open spec fn faulty(model: Seq<Entry>, e: SampleError) -> bool {
    exists|i: int|
        0 <= i < model.len() && weights_error(weights_of((#[trigger] model[i]).outcomes@)) == Some(
            e,
        )
}

/// Records an outcome that was drawn: appends the state it leads to and
/// its reward to the episode, and says from which state the episode goes
/// on, if it does.
pub fn record_outcome(ep: &mut Vec<EpisodeEvent>, next: &Transition) -> (r: Option<Discrete>)
    ensures
        final(ep)@ == old(ep)@.push(EpisodeEvent { s: next.next_state, r: next.reward }),
        r == if next.done {
            None
        } else {
            Some(next.next_state)
        },
{
    ep.push(EpisodeEvent { s: next.next_state, r: next.reward });
    if next.done {
        None
    } else {
        Some(next.next_state)
    }
}

/// Whether `o` is an outcome of positive weight of entry `slot`.
pub open spec fn is_outcome_of(model: Seq<Entry>, slot: int, o: Transition) -> bool {
    exists|j: int|
        0 <= j < model[slot].outcomes@.len() && #[trigger] model[slot].outcomes@[j] == o
            && o.probability > 0
}

/// Draws one of the outcomes of entry `slot` by weight.
pub fn draw_outcome(model: &Transitions, slot: usize, rng: &mut StdRng) -> (r: Result<
    Transition,
    SampleError,
>)
    requires
        slot < model@.len(),
    ensures
        match r {
            Ok(o) => is_outcome_of(model@, slot as int, o),
            Err(e) => weights_error(weights_of(model@[slot as int].outcomes@)) == Some(e),
        },
{
    let entry: &Entry = model.entry(slot);
    let drawn: Result<Transition, SampleError> = pick_next(rng, &entry.outcomes);
    proof {
        let ws: Seq<Continous> = choose|ws: Seq<Continous>|
            weighed(entry.outcomes@, ws) && picked(entry.outcomes@, ws, drawn);
        assert(ws =~= weights_of(entry.outcomes@));
        if let Ok(o) = drawn {
            let j = choose|j: int|
                0 <= j < entry.outcomes@.len() && ws[j] > 0 && (#[trigger] entry.outcomes@[j]).yields(
                    o,
                );
            assert(model@[slot as int].outcomes@[j] == o);
        }
    }
    drawn
}

/// A walk that takes one more outcome, drawn in the state that it had
/// reached, is a walk if so far no outcome was terminal.
pub proof fn lemma_walk_grows(
    model: Seq<Entry>,
    start: Discrete,
    os: Seq<Transition>,
    next: Transition,
)
    requires
        is_walk(model, start, os),
        forall|t: int| 0 <= t < os.len() ==> !(#[trigger] os[t]).done,
        possible(model, state_before(start, os, os.len() as int), next),
    ensures
        is_walk(model, start, os.push(next)),
{
    let longer = os.push(next);
    assert forall|t: int| 0 <= t < longer.len() implies possible(
        model,
        state_before(start, longer, t),
        #[trigger] longer[t],
    ) by {
        if t < os.len() {
            assert(longer[t] == os[t]);
            assert(state_before(start, longer, t) == state_before(start, os, t));
        }
    }
    assert forall|t: int| 0 <= t < longer.len() - 1 implies !(#[trigger] longer[t]).done by {
        assert(longer[t] == os[t]);
    }
}

/// Whether `out` may come of simulating one episode from `start`.
pub open spec fn simulated(
    model: Seq<Entry>,
    start: Discrete,
    max_steps: int,
    out: Result<Vec<EpisodeEvent>, GenerateError>,
) -> bool {
    match out {
        Ok(ep) => is_episode(model, start, max_steps, ep@),
        Err(GenerateError::UnknownState) => !has_state(model, start) || leaks(model),
        Err(GenerateError::Weights(e)) => faulty(model, e),
        Err(_) => false,
    }
}

/// Simulates one episode from `start`: in each state, draws one of the
/// actions that the model knows there, each with the same chance, then one
/// of its outcomes by weight; stops after a terminal outcome, or after
/// `max_steps` outcomes.
pub fn simulate_episode(
    model: &Transitions,
    start: Discrete,
    max_steps: usize,
    rng: &mut StdRng,
) -> (out: Result<Vec<EpisodeEvent>, GenerateError>)
    ensures
        simulated(model@, start, max_steps as int, out),
{
    let mut ep: Vec<EpisodeEvent> = Vec::new();
    ep.push(EpisodeEvent { s: start, r: 0 });
    let ghost mut os: Seq<Transition> = Seq::empty();
    let mut s: Discrete = start;
    let mut steps: usize = 0;
    let mut done: bool = false;
    while steps < max_steps && !done
        invariant
            steps <= max_steps,
            steps == os.len(),
            is_walk(model@, start, os),
            records(start, os, ep@),
            done <==> os.len() > 0 && os[os.len() - 1].done,
            !done ==> s == state_before(start, os, os.len() as int),
            !done ==> forall|t: int| 0 <= t < os.len() ==> !(#[trigger] os[t]).done,
        decreases max_steps - steps,
    {
        let slots: Vec<usize> = model.slots(s);
        proof {
            lemma_slots_of(model@, s, model@.len() as int);
        }
        let slot: usize = match choose_one(rng, &slots) {
            Some(i) => i,
            None => {
                proof {
                    if has_state(model@, s) {
                        let i = choose|i: int| 0 <= i < model@.len() && (#[trigger] model@[i]).state == s;
                        assert(slots@.contains(i as usize));
                    }
                    if os.len() > 0 {
                        let last = os[os.len() - 1];
                        assert(possible(model@, state_before(start, os, os.len() - 1), last));
                    }
                }
                return Err(GenerateError::UnknownState);
            },
        };
        let next: Transition = match draw_outcome(model, slot, rng) {
            Ok(o) => o,
            Err(e) => {
                return Err(GenerateError::Weights(e));
            },
        };
        proof {
            lemma_walk_grows(model@, start, os, next);
            os = os.push(next);
        }
        steps = steps + 1;
        match record_outcome(&mut ep, &next) {
            Some(state) => {
                s = state;
            },
            None => {
                done = true;
            },
        }
    }
    proof {
        assert(is_complete(os, max_steps as int));
    }
    Ok(ep)
}

/// Whether `o` is an outcome of positive weight of an action that the
/// policy may choose in state `s`.
pub open spec fn allowed<P: Policy<DiscreteSpace, DiscreteSpace>>(
    model: Seq<Entry>,
    policy: &P,
    s: Discrete,
    o: Transition,
) -> bool {
    exists|i: int|
        0 <= i < model.len() && (#[trigger] model[i]).state == s && policy.chooses(
            &s,
            Some(model[i].action),
        ) && is_outcome_of(model, i, o)
}

/// Whether the outcomes `os`, drawn one after the other, are a walk through
/// the model from `start` under the policy, on which only the last outcome
/// may be terminal.
pub open spec fn is_policy_walk<P: Policy<DiscreteSpace, DiscreteSpace>>(
    model: Seq<Entry>,
    policy: &P,
    start: Discrete,
    os: Seq<Transition>,
) -> bool {
    &&& forall|t: int|
        0 <= t < os.len() ==> allowed(model, policy, state_before(start, os, t), #[trigger] os[t])
    &&& forall|t: int| 0 <= t < os.len() - 1 ==> !(#[trigger] os[t]).done
}

/// Whether `ep` is an episode of the model from `start` under the policy:
/// the record of a complete walk under the policy.
pub open spec fn is_policy_episode<P: Policy<DiscreteSpace, DiscreteSpace>>(
    model: Seq<Entry>,
    policy: &P,
    start: Discrete,
    max_steps: int,
    ep: Seq<EpisodeEvent>,
) -> bool {
    exists|os: Seq<Transition>|
        is_policy_walk(model, policy, start, os) && is_complete(os, max_steps) && records(
            start,
            os,
            ep,
        )
}

/// Whether the policy may be without an action in some state.
pub open spec fn may_abstain<P: Policy<DiscreteSpace, DiscreteSpace>>(policy: &P) -> bool {
    exists|s: Discrete| #[trigger] policy.chooses(&s, None)
}

/// Whether the policy may choose an action for which the model has no
/// entry.
pub open spec fn may_stray<P: Policy<DiscreteSpace, DiscreteSpace>>(
    model: Seq<Entry>,
    policy: &P,
) -> bool {
    exists|s: Discrete, a: Discrete| #[trigger] policy.chooses(&s, Some(a)) && !has_key(model, s, a)
}

/// Whether `out` may come of simulating one episode from `start` under the
/// policy.
pub open spec fn controlled<P: Policy<DiscreteSpace, DiscreteSpace>>(
    model: Seq<Entry>,
    policy: &P,
    start: Discrete,
    max_steps: int,
    out: Result<Vec<EpisodeEvent>, GenerateError>,
) -> bool {
    match out {
        Ok(ep) => is_policy_episode(model, policy, start, max_steps, ep@),
        Err(GenerateError::NoAction) => may_abstain(policy),
        Err(GenerateError::UnknownAction) => may_stray(model, policy),
        Err(GenerateError::Weights(e)) => faulty(model, e),
        Err(_) => false,
    }
}

/// A walk under a policy that takes one more outcome, drawn under the
/// policy in the state that it had reached, is a walk under the policy if
/// so far no outcome was terminal.
pub proof fn lemma_policy_walk_grows<P: Policy<DiscreteSpace, DiscreteSpace>>(
    model: Seq<Entry>,
    policy: &P,
    start: Discrete,
    os: Seq<Transition>,
    next: Transition,
)
    requires
        is_policy_walk(model, policy, start, os),
        forall|t: int| 0 <= t < os.len() ==> !(#[trigger] os[t]).done,
        allowed(model, policy, state_before(start, os, os.len() as int), next),
    ensures
        is_policy_walk(model, policy, start, os.push(next)),
{
    let longer = os.push(next);
    assert forall|t: int| 0 <= t < longer.len() implies allowed(
        model,
        policy,
        state_before(start, longer, t),
        #[trigger] longer[t],
    ) by {
        if t < os.len() {
            assert(longer[t] == os[t]);
            assert(state_before(start, longer, t) == state_before(start, os, t));
        }
    }
    assert forall|t: int| 0 <= t < longer.len() - 1 implies !(#[trigger] longer[t]).done by {
        assert(longer[t] == os[t]);
    }
}

/// Simulates one episode from `start` under a policy: in each state, takes
/// the action of the policy and draws one of its outcomes by weight; stops
/// after a terminal outcome, or after `max_steps` outcomes.
pub fn simulate_episode_with<P: Policy<DiscreteSpace, DiscreteSpace>>(
    model: &Transitions,
    policy: &P,
    start: Discrete,
    max_steps: usize,
    rng: &mut StdRng,
) -> (out: Result<Vec<EpisodeEvent>, GenerateError>)
    ensures
        controlled(model@, policy, start, max_steps as int, out),
{
    let mut ep: Vec<EpisodeEvent> = Vec::new();
    ep.push(EpisodeEvent { s: start, r: 0 });
    let ghost mut os: Seq<Transition> = Seq::empty();
    let mut s: Discrete = start;
    let mut steps: usize = 0;
    let mut done: bool = false;
    while steps < max_steps && !done
        invariant
            steps <= max_steps,
            steps == os.len(),
            is_policy_walk(model@, policy, start, os),
            records(start, os, ep@),
            done <==> os.len() > 0 && os[os.len() - 1].done,
            !done ==> s == state_before(start, os, os.len() as int),
            !done ==> forall|t: int| 0 <= t < os.len() ==> !(#[trigger] os[t]).done,
        decreases max_steps - steps,
    {
        let action: Discrete = match policy.policy(&s) {
            Some(a) => a,
            None => {
                assert(policy.chooses(&s, None));
                return Err(GenerateError::NoAction);
            },
        };
        assert(policy.chooses(&s, Some(action)));
        let slot: usize = match model.find(s, action) {
            Some(i) => i,
            None => {
                return Err(GenerateError::UnknownAction);
            },
        };
        let next: Transition = match draw_outcome(model, slot, rng) {
            Ok(o) => o,
            Err(e) => {
                return Err(GenerateError::Weights(e));
            },
        };
        proof {
            assert(model@[slot as int].state == s);
            assert(allowed(model@, policy, s, next));
            lemma_policy_walk_grows(model@, policy, start, os, next);
            os = os.push(next);
        }
        steps = steps + 1;
        match record_outcome(&mut ep, &next) {
            Some(state) => {
                s = state;
            },
            None => {
                done = true;
            },
        }
    }
    proof {
        assert(is_complete(os, max_steps as int));
    }
    Ok(ep)
}

/// An episode under a policy is an episode of the model: what a policy may
/// choose is one of the actions that the model knows.
pub proof fn lemma_policy_episode_is_episode<P: Policy<DiscreteSpace, DiscreteSpace>>(
    model: Seq<Entry>,
    policy: &P,
    start: Discrete,
    max_steps: int,
    ep: Seq<EpisodeEvent>,
)
    requires
        is_policy_episode(model, policy, start, max_steps, ep),
    ensures
        is_episode(model, start, max_steps, ep),
{
    let os = choose|os: Seq<Transition>|
        is_policy_walk(model, policy, start, os) && is_complete(os, max_steps) && records(
            start,
            os,
            ep,
        );
    assert forall|t: int| 0 <= t < os.len() implies possible(
        model,
        state_before(start, os, t),
        #[trigger] os[t],
    ) by {
        let s = state_before(start, os, t);
        assert(allowed(model, policy, s, os[t]));
        let i = choose|i: int|
            0 <= i < model.len() && (#[trigger] model[i]).state == s && policy.chooses(
                &s,
                Some(model[i].action),
            ) && is_outcome_of(model, i, os[t]);
        let j = choose|j: int|
            0 <= j < model[i].outcomes@.len() && #[trigger] model[i].outcomes@[j] == os[t]
                && os[t].probability > 0;
        assert(model[i].outcomes@[j] == os[t]);
    }
    assert(is_walk(model, start, os));
}

/// Whether `out` may come of simulating `n` episodes from `start`: the
/// episodes, or the fault of the model on which the simulation stopped.
pub open spec fn generated(
    model: Seq<Entry>,
    start: Discrete,
    max_steps: int,
    n: int,
    out: Result<Vec<Vec<EpisodeEvent>>, GenerateError>,
) -> bool {
    match out {
        Ok(eps) => eps.len() == n && forall|e: int|
            0 <= e < n ==> is_episode(model, start, max_steps, (#[trigger] eps[e])@),
        Err(GenerateError::UnknownState) => !has_state(model, start) || leaks(model),
        Err(GenerateError::Weights(e)) => faulty(model, e),
        Err(_) => false,
    }
}

/// Simulates `count` episodes from `start_state`, one after the other, with
/// one generator made from `seed`.
pub fn generate(
    model: &Transitions,
    start_state: Discrete,
    count: usize,
    seed: u64,
    max_steps: usize,
) -> (out: Result<Vec<Vec<EpisodeEvent>>, GenerateError>)
    ensures
        generated(model@, start_state, max_steps as int, count as int, out),
{
    let mut rng: StdRng = seeded_rng(seed);
    let mut eps: Vec<Vec<EpisodeEvent>> = Vec::new();
    let mut i: usize = 0;
    while i < count
        invariant
            i <= count,
            eps.len() == i,
            forall|e: int|
                0 <= e < i ==> is_episode(model@, start_state, max_steps as int, (#[trigger] eps[e])@),
        decreases count - i,
    {
        match simulate_episode(model, start_state, max_steps, &mut rng) {
            Ok(ep) => {
                eps.push(ep);
            },
            Err(e) => {
                return Err(e);
            },
        }
        i = i + 1;
    }
    Ok(eps)
}

/// A model in which every state that an episode from `start` can reach has
/// an entry, and every entry can be sampled from, never fails to simulate.
pub proof fn lemma_sound_model_generates(
    model: Seq<Entry>,
    start: Discrete,
    max_steps: int,
    n: int,
    out: Result<Vec<Vec<EpisodeEvent>>, GenerateError>,
)
    requires
        has_state(model, start),
        !leaks(model),
        forall|e: SampleError| !faulty(model, e),
        generated(model, start, max_steps, n, out),
    ensures
        out is Ok,
{
}

/// A source of episodes that simulates a transition model.
pub struct EpisodeGeneratorForTransitions {
    /// The model that is simulated.
    pub transitions: Rc<Transitions>,
    /// The state in which every episode starts.
    pub start: Discrete,
    /// The seed of the generator that each call of `generate` makes.
    pub seed: u64,
    /// The number of outcomes after which an episode is cut off.
    pub max_steps: usize,
}

impl EpisodeGeneratorForTransitions {
    /// A source whose episodes start in state 0 and are never cut off.
    pub fn new(transitions: Rc<Transitions>, seed: u64) -> (r: Self)
        ensures
            r.transitions == transitions,
            r.start == 0,
            r.seed == seed,
            r.max_steps == usize::MAX,
    {
        EpisodeGeneratorForTransitions { transitions, start: 0, seed, max_steps: usize::MAX }
    }
}

impl EpisodeGenerator for EpisodeGeneratorForTransitions {
    open spec fn produces(&self, n: usize, out: Result<Vec<Vec<EpisodeEvent>>, GenerateError>) -> bool {
        generated(self.transitions@, self.start, self.max_steps as int, n as int, out)
    }

    /// Simulates `n` episodes of the model.
    fn generate(&self, n: usize) -> (out: Result<Vec<Vec<EpisodeEvent>>, GenerateError>) {
        generate(&self.transitions, self.start, n, self.seed, self.max_steps)
    }
}

/// Whether `out` may come of simulating `n` episodes from `start` under the
/// policy: the episodes, or the fault on which the simulation stopped.
pub open spec fn generated_with<P: Policy<DiscreteSpace, DiscreteSpace>>(
    model: Seq<Entry>,
    policy: &P,
    start: Discrete,
    max_steps: int,
    n: int,
    out: Result<Vec<Vec<EpisodeEvent>>, GenerateError>,
) -> bool {
    match out {
        Ok(eps) => eps.len() == n && forall|e: int|
            0 <= e < n ==> is_policy_episode(model, policy, start, max_steps, (#[trigger] eps[e])@),
        Err(GenerateError::NoAction) => may_abstain(policy),
        Err(GenerateError::UnknownAction) => may_stray(model, policy),
        Err(GenerateError::Weights(e)) => faulty(model, e),
        Err(_) => false,
    }
}

/// Simulates `count` episodes from `start_state` under a policy, one after
/// the other, with one generator made from `seed`.
pub fn generate_with<P: Policy<DiscreteSpace, DiscreteSpace>>(
    model: &Transitions,
    policy: &P,
    start_state: Discrete,
    count: usize,
    seed: u64,
    max_steps: usize,
) -> (out: Result<Vec<Vec<EpisodeEvent>>, GenerateError>)
    ensures
        generated_with(model@, policy, start_state, max_steps as int, count as int, out),
{
    let mut rng: StdRng = seeded_rng(seed);
    let mut eps: Vec<Vec<EpisodeEvent>> = Vec::new();
    let mut i: usize = 0;
    while i < count
        invariant
            i <= count,
            eps.len() == i,
            forall|e: int|
                0 <= e < i ==> is_policy_episode(
                    model@,
                    policy,
                    start_state,
                    max_steps as int,
                    (#[trigger] eps[e])@,
                ),
        decreases count - i,
    {
        match simulate_episode_with(model, policy, start_state, max_steps, &mut rng) {
            Ok(ep) => {
                eps.push(ep);
            },
            Err(e) => {
                return Err(e);
            },
        }
        i = i + 1;
    }
    Ok(eps)
}

/// A policy that always has an action, and only actions that the model
/// knows, on a model of which every entry can be sampled from, never fails
/// to simulate.
pub proof fn lemma_sound_policy_generates<P: Policy<DiscreteSpace, DiscreteSpace>>(
    model: Seq<Entry>,
    policy: &P,
    start: Discrete,
    max_steps: int,
    n: int,
    out: Result<Vec<Vec<EpisodeEvent>>, GenerateError>,
)
    requires
        !may_abstain(policy),
        !may_stray(model, policy),
        forall|e: SampleError| !faulty(model, e),
        generated_with(model, policy, start, max_steps, n, out),
    ensures
        out is Ok,
{
}

/// A source of episodes that simulates a transition model under a policy.
pub struct EpisodeGeneratorForPolicy<P: Policy<DiscreteSpace, DiscreteSpace>> {
    /// The model that is simulated.
    pub transitions: Rc<Transitions>,
    /// The policy that chooses the actions.
    pub policy: P,
    /// The state in which every episode starts.
    pub start: Discrete,
    /// The seed of the generator that each call of `generate` makes.
    pub seed: u64,
    /// The number of outcomes after which an episode is cut off.
    pub max_steps: usize,
}

impl<P: Policy<DiscreteSpace, DiscreteSpace>> EpisodeGeneratorForPolicy<P> {
    /// A source whose episodes start in state 0 and are never cut off.
    pub fn new(transitions: Rc<Transitions>, policy: P, seed: u64) -> (r: Self)
        ensures
            r.transitions == transitions,
            r.policy == policy,
            r.start == 0,
            r.seed == seed,
            r.max_steps == usize::MAX,
    {
        EpisodeGeneratorForPolicy { transitions, policy, start: 0, seed, max_steps: usize::MAX }
    }
}

impl<P: Policy<DiscreteSpace, DiscreteSpace>> EpisodeGenerator for EpisodeGeneratorForPolicy<P> {
    open spec fn produces(&self, n: usize, out: Result<Vec<Vec<EpisodeEvent>>, GenerateError>) -> bool {
        generated_with(
            self.transitions@,
            &self.policy,
            self.start,
            self.max_steps as int,
            n as int,
            out,
        )
    }

    /// Simulates `n` episodes of the model under the policy.
    fn generate(&self, n: usize) -> (out: Result<Vec<Vec<EpisodeEvent>>, GenerateError>) {
        generate_with(&self.transitions, &self.policy, self.start, n, self.seed, self.max_steps)
    }
}

} // verus!
