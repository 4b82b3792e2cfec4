use gymnasium_rl::defs::{Continous, Discrete, Policy, RenderFrame};
use gymnasium_rl::mdp::{MdpSolver, MdpSolverPolicy};
use std::rc::Rc;

struct Table {
    solved: bool,
    best: Vec<Discrete>,
}

impl MdpSolver<bool> for Table {
    fn v_star(&self, _s: Discrete) -> Continous {
        0
    }

    fn q_star(&self, _s: Discrete, _a: Discrete) -> Option<Continous> {
        None
    }

    fn pi_star(&self, s: Discrete) -> Option<Discrete> {
        if self.solved {
            self.best.get(s as usize).copied()
        } else {
            None
        }
    }

    fn exec(&mut self, _theta: Continous, _num_iterations: Option<usize>) -> (bool, usize) {
        self.solved = true;
        (true, 1)
    }
}

#[test]
fn policy_follows_the_solver() {
    let mut solver = Table { solved: false, best: vec![2, 0, 1] };
    assert_eq!(solver.exec(1, None), (true, 1));
    let policy = MdpSolverPolicy::new(Rc::new(solver));
    assert_eq!(policy.policy(&0), Some(2));
    assert_eq!(policy.policy(&1), Some(0));
    assert_eq!(policy.policy(&2), Some(1));
    assert_eq!(policy.policy(&3), None);
}

#[test]
fn policy_of_an_unsolved_process_has_no_action() {
    let solver = Table { solved: false, best: vec![2, 0, 1] };
    let policy = MdpSolverPolicy::new(Rc::new(solver));
    assert_eq!(policy.policy(&0), None);
    assert_eq!(policy.policy(&1), None);
}

#[test]
fn text_frame_has_text_and_no_pixels() {
    let frame = RenderFrame::Ansi("SFFF\nFHFH".to_string());
    assert_eq!(frame.as_str(), Some("SFFF\nFHFH"));
    assert!(frame.as_rgb().is_none());
}

#[test]
fn pixel_frame_has_pixels_and_no_text() {
    let frame = RenderFrame::Rgb(2, 3, vec![1, 2, 3, 4, 5, 6]);
    assert_eq!(frame.as_str(), None);
    assert_eq!(frame.as_rgb(), Some((&2, &3, &vec![1, 2, 3, 4, 5, 6])));
}

#[test]
fn policy_follows_a_solver_chosen_as_the_program_runs() {
    let mut solver = Table { solved: false, best: vec![1] };
    solver.exec(1, Some(3));
    let shared: Rc<dyn MdpSolver<bool>> = Rc::new(solver);
    let policy: MdpSolverPolicy<bool> = MdpSolverPolicy::new(shared);
    assert_eq!(policy.policy(&0), Some(1));
    assert_eq!(policy.policy(&1), None);
}
