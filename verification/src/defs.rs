//! The values that the library works on: states, actions, quantities,
//! episodes and outcomes, and the shapes of spaces and policies.

use vstd::prelude::*;

verus! {

/// Index of a state or of an action.
pub type Discrete = i64;

/// A real quantity (a probability weight, a reward, a discount factor, a
/// value) held as a whole number of billionths; see the `fixed` module.
pub type Continous = i64;

/// One step of an episode: the state entered and the reward received for
/// entering it. The reward of an episode's first event is a placeholder.
#[derive(Clone, Copy, Debug, PartialEq, Eq, Structural)]
pub struct EpisodeEvent {
    pub s: Discrete,
    pub r: Continous,
}

/// One weighted outcome of taking an action in a state: where it leads, how
/// likely it is next to the other outcomes of that action, what it pays, and
/// whether it ends the episode.
#[derive(Clone, Copy, Debug, PartialEq, Eq, Structural)]
pub struct Transition {
    pub next_state: Discrete,
    pub probability: Continous,
    pub reward: Continous,
    pub done: bool,
}

/// The episodes of a batch as sequences of events.
pub open spec fn batch_view(eps: Vec<Vec<EpisodeEvent>>) -> Seq<Seq<EpisodeEvent>> {
    Seq::new(eps.len() as nat, |i: int| eps[i]@)
}

/// A set of observations or of actions.
pub trait Space {
    /// One observation or one action.
    type Item;
}

/// The finite space `0..n`.
#[derive(Clone, Copy, Debug, PartialEq, Eq, Structural)]
pub struct DiscreteSpace {
    pub n: Discrete,
}

impl Space for DiscreteSpace {
    type Item = Discrete;
}

/// A rule that answers an observation with an action.
pub trait Policy<O: Space, A: Space> {
    /// Whether `a` may be the answer to observation `s`. A policy that says
    /// nothing of its answers leaves this at `true`.
    open spec fn chooses(&self, s: &O::Item, a: Option<A::Item>) -> bool {
        true
    }

    /// The action for observation `s`, or `None` where the policy has none.
    fn policy(&self, s: &O::Item) -> (a: Option<A::Item>)
        ensures
            self.chooses(s, a),
    ;
}

/// One rendered frame of an environment: text, or pixels by rows and
/// columns.
#[derive(Debug)]
pub enum RenderFrame {
    Ansi(String),
    Rgb(usize, usize, Vec<u8>),
}

impl RenderFrame {
    /// The text of a text frame.
    pub fn as_str(&self) -> (r: Option<&str>)
        ensures
            match *self {
                RenderFrame::Ansi(text) => r is Some && r->Some_0@ == text@,
                RenderFrame::Rgb(_, _, _) => r is None,
            },
    {
        match self {
            RenderFrame::Ansi(s) => Some(s.as_str()),
            _ => None,
        }
    }

    /// The rows, the columns and the pixels of a pixel frame.
    pub fn as_rgb(&self) -> (r: Option<(&usize, &usize, &Vec<u8>)>)
        ensures
            match *self {
                RenderFrame::Rgb(rows, columns, data) => r == Some((&rows, &columns, &data)),
                RenderFrame::Ansi(_) => r is None,
            },
    {
        match self {
            RenderFrame::Rgb(r, c, d) => Some((r, c, d)),
            _ => None,
        }
    }
}

} // verus!
