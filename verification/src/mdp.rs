//! What every solver of a finite Markov decision process offers, and the
//! policy that follows a solver.

use vstd::prelude::*;
use std::marker::PhantomData;
use std::rc::Rc;
use crate::defs::{Continous, Discrete, DiscreteSpace, Policy};
use crate::transitions::Transitions;

verus! {

/// A finite Markov decision process: its sizes, its dynamics and its
/// discount factor.
pub trait Mdp {
    /// The number of states.
    fn n_s(&self) -> usize;

    /// The number of actions.
    fn n_a(&self) -> usize;

    /// The transition model, shared and never changed.
    fn transitions(&self) -> Rc<Transitions>;

    /// The discount factor.
    fn gamma(&self) -> Continous;
}

/// A solver of a finite Markov decision process. Before `exec` has solved
/// the process, `q_star` and `pi_star` answer `None`.
pub trait MdpSolver<T> {
    /// Whether `a` may be what `pi_star` answers for state `s`. A solver
    /// that says nothing of its answers leaves this at `true`.
    open spec fn advises(&self, s: Discrete, a: Option<Discrete>) -> bool {
        true
    }

    /// The value of state `s`.
    fn v_star(&self, s: Discrete) -> Continous;

    /// The value of taking action `a` in state `s`, once solved.
    fn q_star(&self, s: Discrete, a: Discrete) -> Option<Continous>;

    /// The best action in state `s`, once solved.
    fn pi_star(&self, s: Discrete) -> (a: Option<Discrete>)
        ensures
            self.advises(s, a),
    ;

    /// Runs the solver until its values change by less than `theta` or
    /// `num_iterations` are done; says how it ended and how many iterations
    /// it ran.
    fn exec(&mut self, theta: Continous, num_iterations: Option<usize>) -> (T, usize);
}

/// The policy that takes, in each state, the action its solver advises.
/// The solver may be of any one type, or, as `dyn MdpSolver<T>`, of a type
/// chosen as the program runs.
pub struct MdpSolverPolicy<T, M: MdpSolver<T> + ?Sized = dyn MdpSolver<T>> {
    pub result: PhantomData<T>,
    pub mdp_solver: Rc<M>,
}

impl<T, M: MdpSolver<T> + ?Sized> MdpSolverPolicy<T, M> {
    /// The policy that follows `mdp_solver`.
    pub fn new(mdp_solver: Rc<M>) -> (r: Self)
        ensures
            r.mdp_solver == mdp_solver,
    {
        MdpSolverPolicy { result: PhantomData, mdp_solver }
    }
}

impl<T, M: MdpSolver<T> + ?Sized> Policy<DiscreteSpace, DiscreteSpace> for MdpSolverPolicy<T, M> {
    open spec fn chooses(&self, s: &Discrete, a: Option<Discrete>) -> bool {
        self.mdp_solver.advises(*s, a)
    }

    /// The action the solver advises in state `s`; `None` where the solver
    /// has none.
    fn policy(&self, s: &Discrete) -> (a: Option<Discrete>) {
        self.mdp_solver.pi_star(*s)
    }
}

} // verus!
