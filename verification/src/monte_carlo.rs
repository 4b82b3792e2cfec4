//! Monte Carlo estimation of state values from a batch of episodes.
//!
//! Every transition of an episode (from event `t` to event `t + 1`) earns the
//! state of event `t` the discounted return that follows it. The value of a
//! state is the pooled average of the returns it earned over the whole
//! batch: over every visit, or over the first visit of each episode only.

use vstd::prelude::*;
use std::rc::Rc;
use crate::defs::{batch_view, Continous, Discrete, EpisodeEvent};
use crate::mdp_simulator::{EpisodeGenerator, GenerateError};
use crate::fixed::{fixed_add, fixed_mul, product_of, quotient, saturate_wide, sum_of};

verus! {

/// Which visits of a state contribute to its estimate.
#[derive(Clone, Copy, Debug, PartialEq, Eq, Structural)]
pub enum VisitMode {
    /// Only the first occurrence of the state in each episode.
    FirstVisit,
    /// Every occurrence of the state.
    EveryVisit,
}

/// Why a batch of episodes could not be averaged.
#[derive(Clone, Copy, Debug, PartialEq, Eq, Structural)]
pub enum McError {
    /// The batch holds more transitions than a `usize` can count.
    TooManyTransitions,
    /// A state that a transition leaves lies outside `0..n_s`.
    UnknownState,
    /// The source of the episodes failed.
    Source(GenerateError),
}

/// The discounted return that follows event `t`: the reward of event `t + 1`
/// plus `gamma` times the return that follows event `t + 1`. Nothing follows
/// the last event.
pub open spec fn discounted_return(ep: Seq<EpisodeEvent>, gamma: int, t: int) -> int
    decreases ep.len() - t,
{
    if 0 <= t && t + 1 < ep.len() {
        sum_of(product_of(gamma, discounted_return(ep, gamma, t + 1)), ep[t + 1].r as int)
    } else {
        0
    }
}

/// Whether state `s` occurs among the first `t` events of the episode.
pub open spec fn seen_before(ep: Seq<EpisodeEvent>, t: int, s: Discrete) -> bool {
    exists|k: int| 0 <= k < t && k < ep.len() && ep[k].s == s
}

/// Whether the transition that leaves event `t` earns state `s` a return.
pub open spec fn credited(mode: VisitMode, ep: Seq<EpisodeEvent>, s: int, t: int) -> bool {
    &&& 0 <= t
    &&& t + 1 < ep.len()
    &&& ep[t].s == s
    &&& (mode == VisitMode::EveryVisit || !seen_before(ep, t, ep[t].s))
}

/// Sum of the returns that state `s` earns at the events `from..` of one
/// episode.
pub open spec fn episode_returns(
    mode: VisitMode,
    ep: Seq<EpisodeEvent>,
    gamma: int,
    s: int,
    from: int,
) -> int
    decreases ep.len() - from,
{
    if 0 <= from && from + 1 < ep.len() {
        (if credited(mode, ep, s, from) {
            discounted_return(ep, gamma, from)
        } else {
            0
        }) + episode_returns(mode, ep, gamma, s, from + 1)
    } else {
        0
    }
}

/// Number of returns that state `s` earns at the events `from..` of one
/// episode.
pub open spec fn episode_visits(mode: VisitMode, ep: Seq<EpisodeEvent>, s: int, from: int) -> int
    decreases ep.len() - from,
{
    if 0 <= from && from + 1 < ep.len() {
        (if credited(mode, ep, s, from) {
            1int
        } else {
            0int
        }) + episode_visits(mode, ep, s, from + 1)
    } else {
        0
    }
}

/// Sum of the returns that state `s` earns in the first `upto` episodes.
pub open spec fn batch_returns(
    mode: VisitMode,
    eps: Seq<Seq<EpisodeEvent>>,
    gamma: int,
    s: int,
    upto: int,
) -> int
    decreases upto,
{
    if upto <= 0 {
        0
    } else {
        batch_returns(mode, eps, gamma, s, upto - 1) + episode_returns(
            mode,
            eps[upto - 1],
            gamma,
            s,
            0,
        )
    }
}

/// Number of returns that state `s` earns in the first `upto` episodes.
pub open spec fn batch_visits(mode: VisitMode, eps: Seq<Seq<EpisodeEvent>>, s: int, upto: int) -> int
    decreases upto,
{
    if upto <= 0 {
        0
    } else {
        batch_visits(mode, eps, s, upto - 1) + episode_visits(mode, eps[upto - 1], s, 0)
    }
}

/// Number of transitions of one episode: one less than its events.
pub open spec fn transitions_of(ep: Seq<EpisodeEvent>) -> int {
    if ep.len() == 0 {
        0
    } else {
        ep.len() - 1
    }
}

/// Number of transitions in the first `upto` episodes.
pub open spec fn transitions_in(eps: Seq<Seq<EpisodeEvent>>, upto: int) -> int
    decreases upto,
{
    if upto <= 0 {
        0
    } else {
        transitions_in(eps, upto - 1) + transitions_of(eps[upto - 1])
    }
}

/// Whether some transition of the first `upto` episodes leaves a state
/// outside `0..n_s`.
pub open spec fn strays(eps: Seq<Seq<EpisodeEvent>>, n_s: int, upto: int) -> bool {
    exists|e: int, t: int|
        0 <= e < upto && 0 <= t && t + 1 < eps[e].len() && !(0 <= (#[trigger] eps[e][t]).s < n_s)
}

/// How many episodes of the batch are used when `n_ep` are asked for.
pub open spec fn used_episodes(eps: Seq<Seq<EpisodeEvent>>, n_ep: int) -> int {
    if n_ep < eps.len() {
        n_ep
    } else {
        eps.len() as int
    }
}

/// The estimate for state `s` from the first `n` episodes: the returns it
/// earned divided by their number, rounded toward zero; 0 for a state that
/// earned none.
pub open spec fn state_value(
    mode: VisitMode,
    eps: Seq<Seq<EpisodeEvent>>,
    gamma: int,
    s: int,
    n: int,
) -> int {
    let visits = batch_visits(mode, eps, s, n);
    if visits == 0 {
        0
    } else {
        quotient(batch_returns(mode, eps, gamma, s, n), visits)
    }
}

/// Whether `out` is the result of estimating `n_s` state values from the
/// first `n_ep` episodes of `eps`.
pub open spec fn is_estimate(
    mode: VisitMode,
    eps: Seq<Seq<EpisodeEvent>>,
    gamma: int,
    n_s: int,
    n_ep: int,
    out: Result<Vec<Continous>, McError>,
) -> bool {
    let n = used_episodes(eps, n_ep);
    if transitions_in(eps, n) > usize::MAX {
        out == Err::<Vec<Continous>, McError>(McError::TooManyTransitions)
    } else if strays(eps, n_s, n) {
        out == Err::<Vec<Continous>, McError>(McError::UnknownState)
    } else {
        &&& out is Ok
        &&& out->Ok_0.len() == n_s
        &&& forall|s: int|
            0 <= s < n_s ==> (#[trigger] out->Ok_0[s]) as int == state_value(mode, eps, gamma, s, n)
    }
}

/// Whether event `t` of the episode is the first to show state `s`: whether
/// none of the events before it shows `s`.
pub fn is_first_visit(ep: &[EpisodeEvent], t: usize, s: Discrete) -> (r: bool)
    ensures
        r == !seen_before(ep@, t as int, s),
{
    let stop: usize = if t < ep.len() {
        t
    } else {
        ep.len()
    };
    let mut k: usize = 0;
    while k < stop
        invariant
            k <= stop,
            stop <= ep.len(),
            stop <= t,
            stop == t || stop == ep.len(),
            forall|j: int| 0 <= j < k ==> ep@[j].s != s,
        decreases stop - k,
    {
        if ep[k].s == s {
            return false;
        }
        k = k + 1;
    }
    true
}

/// A discounted return never leaves the 64-bit range.
pub proof fn lemma_return_range(ep: Seq<EpisodeEvent>, gamma: int, t: int)
    ensures
        i64::MIN <= discounted_return(ep, gamma, t) <= i64::MAX,
{
}

/// From event `from` on, an episode credits a state at most once per
/// transition, and each time with a 64-bit return.
pub proof fn lemma_episode_bounds(
    mode: VisitMode,
    ep: Seq<EpisodeEvent>,
    gamma: int,
    s: int,
    from: int,
)
    requires
        0 <= from,
    ensures
        0 <= episode_visits(mode, ep, s, from),
        from + 1 < ep.len() ==> episode_visits(mode, ep, s, from) <= ep.len() - 1 - from,
        from + 1 >= ep.len() ==> episode_visits(mode, ep, s, from) == 0,
        i64::MIN * episode_visits(mode, ep, s, from) <= episode_returns(mode, ep, gamma, s, from),
        episode_returns(mode, ep, gamma, s, from) <= i64::MAX * episode_visits(mode, ep, s, from),
    decreases ep.len() - from,
{
    if from + 1 < ep.len() {
        lemma_episode_bounds(mode, ep, gamma, s, from + 1);
        lemma_return_range(ep, gamma, from);
    }
}

/// The first `upto` episodes credit a state at most once per transition, and
/// each time with a 64-bit return.
pub proof fn lemma_batch_bounds(
    mode: VisitMode,
    eps: Seq<Seq<EpisodeEvent>>,
    gamma: int,
    s: int,
    upto: int,
)
    ensures
        0 <= batch_visits(mode, eps, s, upto) <= transitions_in(eps, upto),
        i64::MIN * batch_visits(mode, eps, s, upto) <= batch_returns(mode, eps, gamma, s, upto),
        batch_returns(mode, eps, gamma, s, upto) <= i64::MAX * batch_visits(mode, eps, s, upto),
    decreases upto,
{
    if upto > 0 {
        lemma_batch_bounds(mode, eps, gamma, s, upto - 1);
        lemma_episode_bounds(mode, eps[upto - 1], gamma, s, 0);
    }
}

/// A count of transitions is not negative.
pub proof fn lemma_transitions_nonnegative(eps: Seq<Seq<EpisodeEvent>>, upto: int)
    ensures
        0 <= transitions_in(eps, upto),
    decreases upto,
{
    if upto > 0 {
        lemma_transitions_nonnegative(eps, upto - 1);
    }
}

/// More episodes hold at least as many transitions.
pub proof fn lemma_transitions_monotone(eps: Seq<Seq<EpisodeEvent>>, a: int, b: int)
    requires
        a <= b,
    ensures
        0 <= transitions_in(eps, a) <= transitions_in(eps, b),
    decreases b - a,
{
    if a < b {
        lemma_transitions_monotone(eps, a, b - 1);
    } else {
        lemma_transitions_nonnegative(eps, a);
    }
}

/// The average of 64-bit numbers is a 64-bit number.
pub proof fn lemma_mean_range(total: int, count: int)
    requires
        count > 0,
        i64::MIN * count <= total <= i64::MAX * count,
    ensures
        i64::MIN <= quotient(total, count) <= i64::MAX,
{
    if total >= 0 {
        assert(total / count <= i64::MAX) by (nonlinear_arith)
            requires
                count > 0,
                0 <= total <= i64::MAX * count,
        ;
        assert(0 <= total / count) by (nonlinear_arith)
            requires
                count > 0,
                0 <= total,
        ;
    } else {
        assert((-total) / count <= -(i64::MIN as int)) by (nonlinear_arith)
            requires
                count > 0,
                0 <= -total <= (-(i64::MIN as int)) * count,
        ;
        assert(0 <= (-total) / count) by (nonlinear_arith)
            requires
                count > 0,
                0 <= -total,
        ;
    }
}

/// Counts the transitions of the first `n` episodes, as far as a `usize`
/// can count.
fn count_transitions(episodes: &Vec<Vec<EpisodeEvent>>, n: usize) -> (r: Option<usize>)
    requires
        n <= episodes.len(),
    ensures
        r is Some ==> r->Some_0 == transitions_in(batch_view(*episodes), n as int),
        r is None ==> transitions_in(batch_view(*episodes), n as int) > usize::MAX,
{
    let ghost eps = batch_view(*episodes);
    let mut total: usize = 0;
    let mut e: usize = 0;
    while e < n
        invariant
            e <= n <= episodes.len(),
            eps == batch_view(*episodes),
            total == transitions_in(eps, e as int),
        decreases n - e,
    {
        let len: usize = episodes[e].len();
        let more: usize = if len == 0 {
            0
        } else {
            len - 1
        };
        assert(eps[e as int] == episodes[e as int]@);
        match total.checked_add(more) {
            Some(sum) => {
                total = sum;
            },
            None => {
                proof {
                    lemma_transitions_monotone(eps, e + 1, n as int);
                }
                return None;
            },
        }
        e = e + 1;
    }
    Some(total)
}

/// Looks for a transition of the first `n` episodes that leaves a state
/// outside `0..n_s`.
fn has_stray(episodes: &Vec<Vec<EpisodeEvent>>, n: usize, n_s: usize) -> (r: bool)
    requires
        n <= episodes.len(),
    ensures
        r == strays(batch_view(*episodes), n_s as int, n as int),
{
    let ghost eps = batch_view(*episodes);
    let mut e: usize = 0;
    while e < n
        invariant
            e <= n <= episodes.len(),
            eps == batch_view(*episodes),
            !strays(eps, n_s as int, e as int),
        decreases n - e,
    {
        let ep = &episodes[e];
        assert(eps[e as int] == ep@);
        let last: usize = if ep.len() == 0 {
            0
        } else {
            ep.len() - 1
        };
        let mut t: usize = 0;
        while t < last
            invariant
                e < n <= episodes.len(),
                eps == batch_view(*episodes),
                eps[e as int] == ep@,
                last == transitions_of(ep@),
                t <= last,
                !strays(eps, n_s as int, e as int),
                forall|j: int| 0 <= j < t ==> 0 <= (#[trigger] ep@[j]).s < n_s,
            decreases last - t,
        {
            let s: Discrete = ep[t].s;
            if s < 0 || s as u64 >= n_s as u64 {
                assert(!(0 <= eps[e as int][t as int].s < n_s));
                return true;
            }
            t = t + 1;
        }
        e = e + 1;
    }
    false
}

/// Estimates the value of each of `n_s` states from the first `n_ep`
/// episodes of a batch (from all of them where it holds fewer).
///
/// Each episode is walked backward from its last transition, with a running
/// return `g = gamma * g + reward`; the returns are pooled over the whole
/// batch and divided by the number of credited counts. A state that no
/// credited transition leaves gets 0.
pub fn mc_first_core(
    episodes: &Vec<Vec<EpisodeEvent>>,
    gamma: Continous,
    n_s: usize,
    n_ep: usize,
    mode: VisitMode,
) -> (r: Result<Vec<Continous>, McError>)
    ensures
        is_estimate(mode, batch_view(*episodes), gamma as int, n_s as int, n_ep as int, r),
{
    let ghost eps = batch_view(*episodes);
    let n: usize = if n_ep < episodes.len() {
        n_ep
    } else {
        episodes.len()
    };
    if count_transitions(episodes, n).is_none() {
        return Err(McError::TooManyTransitions);
    }
    if has_stray(episodes, n, n_s) {
        return Err(McError::UnknownState);
    }
    let mut totals: Vec<i128> = Vec::new();
    let mut counts: Vec<usize> = Vec::new();
    let mut i: usize = 0;
    while i < n_s
        invariant
            i <= n_s,
            totals.len() == i,
            counts.len() == i,
            forall|s: int| 0 <= s < i ==> totals[s] == 0 && counts[s] == 0,
        decreases n_s - i,
    {
        totals.push(0);
        counts.push(0);
        i = i + 1;
    }
    let mut e: usize = 0;
    while e < n
        invariant
            e <= n <= episodes.len(),
            eps == batch_view(*episodes),
            transitions_in(eps, n as int) <= usize::MAX,
            !strays(eps, n_s as int, n as int),
            totals.len() == n_s,
            counts.len() == n_s,
            forall|s: int|
                0 <= s < n_s ==> totals[s] == batch_returns(mode, eps, gamma as int, s, e as int),
            forall|s: int| 0 <= s < n_s ==> counts[s] == batch_visits(mode, eps, s, e as int),
        decreases n - e,
    {
        let ep = &episodes[e];
        assert(eps[e as int] == ep@);
        let mut g: Continous = 0;
        let mut t: usize = if ep.len() == 0 {
            0
        } else {
            ep.len() - 1
        };
        while t > 0
            invariant
                e < n <= episodes.len(),
                eps == batch_view(*episodes),
                eps[e as int] == ep@,
                transitions_in(eps, n as int) <= usize::MAX,
                !strays(eps, n_s as int, n as int),
                totals.len() == n_s,
                counts.len() == n_s,
                t < ep.len() || t == 0,
                g == discounted_return(ep@, gamma as int, t as int),
                forall|s: int|
                    0 <= s < n_s ==> totals[s] == batch_returns(
                        mode,
                        eps,
                        gamma as int,
                        s,
                        e as int,
                    ) + episode_returns(mode, ep@, gamma as int, s, t as int),
                forall|s: int|
                    0 <= s < n_s ==> counts[s] == batch_visits(mode, eps, s, e as int)
                        + episode_visits(mode, ep@, s, t as int),
            decreases t,
        {
            t = t - 1;
            g = fixed_add(fixed_mul(gamma, g), ep[t + 1].r);
            let s: Discrete = ep[t].s;
            let counted: bool = match mode {
                VisitMode::EveryVisit => true,
                VisitMode::FirstVisit => is_first_visit(ep.as_slice(), t, s),
            };
            if counted {
                assert(0 <= eps[e as int][t as int].s < n_s);
                let k: usize = s as usize;
                proof {
                    lemma_batch_bounds(mode, eps, gamma as int, k as int, e as int);
                    lemma_episode_bounds(mode, ep@, gamma as int, k as int, t as int);
                    lemma_transitions_monotone(eps, e + 1, n as int);
                    lemma_return_range(ep@, gamma as int, t as int);
                }
                let sum: i128 = totals[k] + g as i128;
                let count: usize = counts[k] + 1;
                totals.set(k, sum);
                counts.set(k, count);
            }
        }
        e = e + 1;
    }
    let mut out: Vec<Continous> = Vec::new();
    let mut k: usize = 0;
    while k < n_s
        invariant
            k <= n_s,
            n == used_episodes(eps, n_ep as int),
            totals.len() == n_s,
            counts.len() == n_s,
            out.len() == k,
            transitions_in(eps, n as int) <= usize::MAX,
            forall|s: int|
                0 <= s < n_s ==> totals[s] == batch_returns(mode, eps, gamma as int, s, n as int),
            forall|s: int| 0 <= s < n_s ==> counts[s] == batch_visits(mode, eps, s, n as int),
            forall|s: int|
                0 <= s < k ==> (#[trigger] out[s]) as int == state_value(
                    mode,
                    eps,
                    gamma as int,
                    s,
                    n as int,
                ),
        decreases n_s - k,
    {
        let value: Continous = if counts[k] == 0 {
            0
        } else {
            proof {
                lemma_batch_bounds(mode, eps, gamma as int, k as int, n as int);
                lemma_mean_range(totals[k as int] as int, counts[k as int] as int);
            }
            saturate_wide(totals[k] / (counts[k] as i128))
        };
        out.push(value);
        k = k + 1;
    }
    Ok(out)
}

/// Whether state `s` shows in none of the first `upto` episodes.
pub open spec fn absent(eps: Seq<Seq<EpisodeEvent>>, s: int, upto: int) -> bool {
    forall|e: int, t: int| 0 <= e < upto && 0 <= t < eps[e].len() ==> (#[trigger] eps[e][t]).s != s
}

/// An episode that never shows a state credits it nothing.
pub proof fn lemma_episode_without_state(
    mode: VisitMode,
    ep: Seq<EpisodeEvent>,
    gamma: int,
    s: int,
    from: int,
)
    requires
        forall|t: int| 0 <= t < ep.len() ==> (#[trigger] ep[t]).s != s,
    ensures
        episode_visits(mode, ep, s, from) == 0,
        episode_returns(mode, ep, gamma, s, from) == 0,
    decreases ep.len() - from,
{
    if 0 <= from && from + 1 < ep.len() {
        assert(ep[from].s != s);
        lemma_episode_without_state(mode, ep, gamma, s, from + 1);
    }
}

/// A state that shows in none of the episodes used is credited with no
/// visit and no return, and its value is exactly 0.
pub proof fn lemma_absent_state_is_zero(
    mode: VisitMode,
    eps: Seq<Seq<EpisodeEvent>>,
    gamma: int,
    s: int,
    upto: int,
)
    requires
        absent(eps, s, upto),
    ensures
        batch_visits(mode, eps, s, upto) == 0,
        batch_returns(mode, eps, gamma, s, upto) == 0,
        state_value(mode, eps, gamma, s, upto) == 0,
    decreases upto,
{
    if upto > 0 {
        lemma_absent_state_is_zero(mode, eps, gamma, s, upto - 1);
        let ep = eps[upto - 1];
        assert forall|t: int| 0 <= t < ep.len() implies (#[trigger] ep[t]).s != s by {
            assert(eps[upto - 1][t].s != s);
        }
        lemma_episode_without_state(mode, ep, gamma, s, 0);
    }
}

/// Every estimate that `mc_first_core` hands back holds exactly 0 for each
/// state that shows in none of the episodes it used.
pub proof fn lemma_estimate_of_absent_state(
    mode: VisitMode,
    eps: Seq<Seq<EpisodeEvent>>,
    gamma: int,
    n_s: int,
    n_ep: int,
    out: Result<Vec<Continous>, McError>,
    s: int,
)
    requires
        is_estimate(mode, eps, gamma, n_s, n_ep, out),
        out is Ok,
        0 <= s < n_s,
        absent(eps, s, used_episodes(eps, n_ep)),
    ensures
        out->Ok_0[s] == 0,
{
    lemma_absent_state_is_zero(mode, eps, gamma, s, used_episodes(eps, n_ep));
}

/// In an episode of two events the return of the first event is exactly the
/// reward of the second, whatever the discount factor; and a batch of that
/// one episode values the first state at exactly that reward.
pub proof fn lemma_return_of_last_transition(
    mode: VisitMode,
    first: EpisodeEvent,
    second: EpisodeEvent,
    gamma: int,
)
    ensures
        discounted_return(seq![first, second], gamma, 0) == second.r,
        state_value(mode, seq![seq![first, second]], gamma, first.s as int, 1) == second.r,
{
    let ep = seq![first, second];
    let eps = seq![ep];
    let s = first.s as int;
    assert(discounted_return(ep, gamma, 1) == 0);
    assert(gamma * 0 == 0);
    assert(discounted_return(ep, gamma, 0) == second.r);
    assert(!seen_before(ep, 0, ep[0].s));
    assert(credited(mode, ep, s, 0));
    assert(episode_visits(mode, ep, s, 1) == 0);
    assert(episode_returns(mode, ep, gamma, s, 1) == 0);
    assert(episode_visits(mode, ep, s, 0) == 1);
    assert(episode_returns(mode, ep, gamma, s, 0) == second.r);
    assert(batch_visits(mode, eps, s, 0) == 0);
    assert(batch_returns(mode, eps, gamma, s, 0) == 0);
    assert(eps[0] == ep);
    assert(batch_visits(mode, eps, s, 1) == 1);
    assert(batch_returns(mode, eps, gamma, s, 1) == second.r);
}

/// What `mc_first_core` hands back for a batch of one episode of two
/// events: no error where the first state lies in `0..n_s`, and for that
/// state exactly the reward of the second event.
pub proof fn lemma_estimate_of_two_events(
    mode: VisitMode,
    first: EpisodeEvent,
    second: EpisodeEvent,
    gamma: int,
    n_s: int,
    n_ep: int,
    out: Result<Vec<Continous>, McError>,
)
    requires
        0 <= first.s < n_s,
        1 <= n_ep,
        is_estimate(mode, seq![seq![first, second]], gamma, n_s, n_ep, out),
    ensures
        out is Ok,
        out->Ok_0[first.s as int] == second.r,
{
    let ep = seq![first, second];
    let eps = seq![ep];
    lemma_return_of_last_transition(mode, first, second, gamma);
    assert(used_episodes(eps, n_ep) == 1);
    assert(eps[0] == ep);
    assert(transitions_in(eps, 0) == 0);
    assert(transitions_in(eps, 1) == 1);
    assert(!strays(eps, n_s, 1)) by {
        assert forall|e: int, t: int|
            0 <= e < 1 && 0 <= t && t + 1 < eps[e].len() implies 0 <= (#[trigger] eps[e][t]).s
            < n_s by {
            assert(t == 0);
        }
    }
}

/// Whether the episode shows no state twice.
pub open spec fn without_revisit(ep: Seq<EpisodeEvent>) -> bool {
    forall|t: int| 0 <= t < ep.len() ==> !seen_before(ep, t, (#[trigger] ep[t]).s)
}

/// In an episode that shows no state twice, every visit is a first visit:
/// both modes credit the same returns.
pub proof fn lemma_episode_without_revisit(ep: Seq<EpisodeEvent>, gamma: int, s: int, from: int)
    requires
        without_revisit(ep),
    ensures
        episode_visits(VisitMode::FirstVisit, ep, s, from) == episode_visits(
            VisitMode::EveryVisit,
            ep,
            s,
            from,
        ),
        episode_returns(VisitMode::FirstVisit, ep, gamma, s, from) == episode_returns(
            VisitMode::EveryVisit,
            ep,
            gamma,
            s,
            from,
        ),
    decreases ep.len() - from,
{
    if 0 <= from && from + 1 < ep.len() {
        assert(!seen_before(ep, from, ep[from].s));
        lemma_episode_without_revisit(ep, gamma, s, from + 1);
    }
}

/// Where no episode shows a state twice, the first-visit estimate and the
/// every-visit estimate are the same.
pub proof fn lemma_modes_agree_without_revisit(
    eps: Seq<Seq<EpisodeEvent>>,
    gamma: int,
    s: int,
    upto: int,
)
    requires
        forall|e: int| 0 <= e < upto ==> without_revisit(#[trigger] eps[e]),
    ensures
        batch_visits(VisitMode::FirstVisit, eps, s, upto) == batch_visits(
            VisitMode::EveryVisit,
            eps,
            s,
            upto,
        ),
        batch_returns(VisitMode::FirstVisit, eps, gamma, s, upto) == batch_returns(
            VisitMode::EveryVisit,
            eps,
            gamma,
            s,
            upto,
        ),
        state_value(VisitMode::FirstVisit, eps, gamma, s, upto) == state_value(
            VisitMode::EveryVisit,
            eps,
            gamma,
            s,
            upto,
        ),
    decreases upto,
{
    if upto > 0 {
        lemma_modes_agree_without_revisit(eps, gamma, s, upto - 1);
        assert(without_revisit(eps[upto - 1]));
        lemma_episode_without_revisit(eps[upto - 1], gamma, s, 0);
    }
}

/// Whether `out` is the result of estimating `n_s` state values from what
/// a source handed back when asked for `n_ep` episodes: the source's
/// failure, or the estimate from its episodes.
pub open spec fn is_estimate_from(
    mode: VisitMode,
    produced: Result<Vec<Vec<EpisodeEvent>>, GenerateError>,
    gamma: int,
    n_s: int,
    n_ep: int,
    out: Result<Vec<Continous>, McError>,
) -> bool {
    match produced {
        Ok(episodes) => is_estimate(mode, batch_view(episodes), gamma, n_s, n_ep, out),
        Err(e) => out == Err::<Vec<Continous>, McError>(McError::Source(e)),
    }
}

/// Estimates state values from what a source handed back.
pub fn mc_estimate_from(
    produced: Result<Vec<Vec<EpisodeEvent>>, GenerateError>,
    gamma: Continous,
    n_s: usize,
    n_ep: usize,
    mode: VisitMode,
) -> (r: Result<Vec<Continous>, McError>)
    ensures
        is_estimate_from(mode, produced, gamma as int, n_s as int, n_ep as int, r),
{
    match produced {
        Ok(episodes) => mc_first_core(&episodes, gamma, n_s, n_ep, mode),
        Err(e) => Err(McError::Source(e)),
    }
}

/// Asks the source for `n_ep` episodes and estimates the value of each of
/// `n_s` states from them, crediting each state once per episode: at its
/// first visit.
pub fn mc_first_visit<G: EpisodeGenerator + ?Sized>(
    ep_gen: Rc<G>,
    gamma: Continous,
    n_s: usize,
    n_ep: usize,
) -> (r: Result<Vec<Continous>, McError>)
    ensures
        exists|produced: Result<Vec<Vec<EpisodeEvent>>, GenerateError>|
            ep_gen.produces(n_ep, produced) && is_estimate_from(
                VisitMode::FirstVisit,
                produced,
                gamma as int,
                n_s as int,
                n_ep as int,
                r,
            ),
{
    let produced = ep_gen.generate(n_ep);
    let ghost seen = produced;
    let r = mc_estimate_from(produced, gamma, n_s, n_ep, VisitMode::FirstVisit);
    assert(ep_gen.produces(n_ep, seen) && is_estimate_from(
        VisitMode::FirstVisit,
        seen,
        gamma as int,
        n_s as int,
        n_ep as int,
        r,
    ));
    r
}

/// Asks the source for `n_ep` episodes and estimates the value of each of
/// `n_s` states from them, crediting each state at every visit.
pub fn mc_every_visit<G: EpisodeGenerator + ?Sized>(
    ep_gen: Rc<G>,
    gamma: Continous,
    n_s: usize,
    n_ep: usize,
) -> (r: Result<Vec<Continous>, McError>)
    ensures
        exists|produced: Result<Vec<Vec<EpisodeEvent>>, GenerateError>|
            ep_gen.produces(n_ep, produced) && is_estimate_from(
                VisitMode::EveryVisit,
                produced,
                gamma as int,
                n_s as int,
                n_ep as int,
                r,
            ),
{
    let produced = ep_gen.generate(n_ep);
    let ghost seen = produced;
    let r = mc_estimate_from(produced, gamma, n_s, n_ep, VisitMode::EveryVisit);
    assert(ep_gen.produces(n_ep, seen) && is_estimate_from(
        VisitMode::EveryVisit,
        seen,
        gamma as int,
        n_s as int,
        n_ep as int,
        r,
    ));
    r
}

} // verus!
