use gymnasium_rl::defs::{Continous, Discrete, DiscreteSpace, EpisodeEvent, Policy, Transition};
use gymnasium_rl::mdp::Mdp;
use gymnasium_rl::mdp_simulator::{EpisodeGenerator, GenerateError, SampleError};
use gymnasium_rl::monte_carlo::{mc_first_visit, McError};
use gymnasium_rl::simple_golf::SimpleGolf;
use gymnasium_rl::solvers::{
    generate, generate_with, EpisodeGeneratorForPolicy, EpisodeGeneratorForTransitions,
};
use gymnasium_rl::transitions::Transitions;
use std::rc::Rc;

fn fx(x: f64) -> Continous {
    (x * 1e9).round() as Continous
}

fn as_real(x: Continous) -> f64 {
    x as f64 / 1e9
}

fn outcome(p: f64, next_state: Discrete, reward: f64, done: bool) -> Transition {
    Transition { next_state, probability: fx(p), reward: fx(reward), done }
}

/// The 4x4 frozen lake, slippery: moving in a direction ends, with equal
/// chance, in that direction or in one of the two beside it.
fn frozen_lake() -> Transitions {
    let desc: [&[u8]; 4] = [b"SFFF", b"FHFH", b"FFFH", b"HFFG"];
    let step = |row: i64, col: i64, a: i64| -> (Discrete, f64, bool) {
        let (mut r, mut c) = (row, col);
        match a {
            0 => c = (c - 1).max(0),
            1 => r = (r + 1).min(3),
            2 => c = (c + 1).min(3),
            _ => r = (r - 1).max(0),
        }
        let letter = desc[r as usize][c as usize];
        let reward = if letter == b'G' { 1.0 } else { 0.0 };
        (r * 4 + c, reward, letter == b'G' || letter == b'H')
    };
    let mut model = Transitions::new();
    for s in 0..16i64 {
        let (row, col) = (s / 4, s % 4);
        let letter = desc[row as usize][col as usize];
        for a in 0..4i64 {
            let mut outcomes = Vec::new();
            if letter == b'G' || letter == b'H' {
                outcomes.push(outcome(1.0, s, 0.0, true));
            } else {
                for b in [(a + 3) % 4, a, (a + 1) % 4] {
                    let (next, reward, done) = step(row, col, b);
                    outcomes.push(outcome(1.0 / 3.0, next, reward, done));
                }
            }
            assert!(model.insert(s, a, outcomes).is_none());
        }
    }
    model
}

fn assert_all_within(got: &[Continous], want: &[f64], tolerance: f64) {
    assert_eq!(got.len(), want.len());
    for (g, w) in got.iter().zip(want.iter()) {
        assert!(
            (as_real(*g) - *w).abs() <= tolerance,
            "got {} where {} was expected",
            as_real(*g),
            w
        );
    }
}

#[test]
fn mc_first_visit_convergence_large_mdp() {
    let ep_gen = EpisodeGeneratorForTransitions::new(Rc::new(frozen_lake()), 2718);

    let v = mc_first_visit(Rc::new(ep_gen), fx(0.9), 16, 5000).unwrap();
    println!("{v:?}");

    // what this seed gave when the reference was frozen
    assert_all_within(
        &v,
        &[
            0.004532887,
            0.004231374,
            0.0111861,
            0.005005879,
            0.006237753,
            0.0,
            0.030825101,
            0.0,
            0.017386224,
            0.057270326,
            0.131380815,
            0.0,
            0.0,
            0.142348177,
            0.418800545,
            0.0,
        ],
        1e-6,
    );
    // the values of the walk that takes each action with the same chance,
    // from the Bellman equations
    assert_all_within(
        &v,
        &[
            0.00448, 0.00422, 0.01007, 0.00412, 0.00672, 0.0, 0.02633, 0.0, 0.01868, 0.05761,
            0.10697, 0.0, 0.0, 0.13038, 0.39149, 0.0,
        ],
        0.05,
    );
    // estimates of the same values from 5000 episodes that another sampler
    // drew; the two differ by sampling noise
    assert_all_within(
        &v,
        &[
            0.005391606129871495,
            0.00464726549059839,
            0.009456750962093424,
            0.005755601740507451,
            0.008816807029102664,
            0.0,
            0.027790666037091988,
            0.0,
            0.025108527690074173,
            0.07297545205182163,
            0.1380470476684931,
            0.0,
            0.0,
            0.14799431891111725,
            0.5034167905442177,
            0.0,
        ],
        0.1,
    );
}

#[test]
fn same_seed_gives_the_same_episodes() {
    let lake = frozen_lake();
    let one = generate(&lake, 0, 200, 2718, usize::MAX).unwrap();
    let two = generate(&lake, 0, 200, 2718, usize::MAX).unwrap();
    assert_eq!(one, two);

    let source = EpisodeGeneratorForTransitions::new(Rc::new(frozen_lake()), 2718);
    assert_eq!(source.generate(200).unwrap(), one);
    assert_eq!(source.generate(200).unwrap(), one);
}

#[test]
fn another_seed_gives_other_episodes() {
    let lake = frozen_lake();
    let one = generate(&lake, 0, 200, 2718, usize::MAX).unwrap();
    let two = generate(&lake, 0, 200, 2719, usize::MAX).unwrap();
    assert_ne!(one, two);
}

#[test]
fn lake_episodes_follow_the_model() {
    let lake = frozen_lake();
    let episodes = generate(&lake, 0, 300, 11, usize::MAX).unwrap();
    assert_eq!(episodes.len(), 300);
    for ep in &episodes {
        assert!(ep.len() >= 2);
        assert_eq!(ep[0], EpisodeEvent { s: 0, r: 0 });
        for t in 0..ep.len() - 1 {
            let here = ep[t].s;
            let next = ep[t + 1];
            let mut found = false;
            let mut ends = false;
            for a in 0..4 {
                for o in lake.get(here, a).unwrap() {
                    if o.next_state == next.s && o.reward == next.r && o.probability > 0 {
                        found = true;
                        ends = o.done;
                    }
                }
            }
            assert!(found, "no outcome leads from {} to {}", here, next.s);
            assert_eq!(ends, t + 2 == ep.len());
        }
    }
}

#[test]
fn episodes_start_where_they_are_told() {
    let lake = frozen_lake();
    let episodes = generate(&lake, 9, 20, 3, usize::MAX).unwrap();
    for ep in &episodes {
        assert_eq!(ep[0], EpisodeEvent { s: 9, r: 0 });
    }
    let mut source = EpisodeGeneratorForTransitions::new(Rc::new(frozen_lake()), 3);
    assert_eq!(source.start, 0);
    assert_eq!(source.seed, 3);
    assert_eq!(source.max_steps, usize::MAX);
    source.start = 9;
    assert_eq!(source.generate(20).unwrap(), episodes);
}

#[test]
fn episode_is_cut_off_after_the_steps_allowed() {
    let mut model = Transitions::new();
    model.insert(0, 0, vec![outcome(1.0, 0, 1.0, false)]);
    let episodes = generate(&model, 0, 3, 1, 5).unwrap();
    assert_eq!(episodes.len(), 3);
    for ep in &episodes {
        assert_eq!(ep.len(), 6);
        assert_eq!(ep[0], EpisodeEvent { s: 0, r: 0 });
        for event in &ep[1..] {
            assert_eq!(*event, EpisodeEvent { s: 0, r: fx(1.0) });
        }
    }
    let none = generate(&model, 0, 2, 1, 0).unwrap();
    assert_eq!(none, vec![vec![EpisodeEvent { s: 0, r: 0 }]; 2]);
}

#[test]
fn no_episode_asked_for_gives_none() {
    let model = Transitions::new();
    assert_eq!(generate(&model, 0, 0, 1, usize::MAX), Ok(vec![]));
}

#[test]
fn outcome_of_weight_zero_is_never_drawn() {
    let mut model = Transitions::new();
    model.insert(0, 0, vec![outcome(0.0, 1, 5.0, true), outcome(0.5, 2, 7.0, true)]);
    let episodes = generate(&model, 0, 200, 5, usize::MAX).unwrap();
    for ep in &episodes {
        assert_eq!(*ep, vec![EpisodeEvent { s: 0, r: 0 }, EpisodeEvent { s: 2, r: fx(7.0) }]);
    }
}

#[test]
fn every_action_of_a_state_is_drawn() {
    let mut model = Transitions::new();
    model.insert(0, 0, vec![outcome(1.0, 1, 0.0, true)]);
    model.insert(1, 0, vec![outcome(1.0, 1, 0.0, true)]);
    model.insert(0, 1, vec![outcome(1.0, 2, 0.0, true)]);
    model.insert(0, 2, vec![outcome(1.0, 3, 0.0, true)]);
    let episodes = generate(&model, 0, 3000, 99, usize::MAX).unwrap();
    let mut seen = [0usize; 4];
    for ep in &episodes {
        assert_eq!(ep.len(), 2);
        seen[ep[1].s as usize] += 1;
    }
    assert_eq!(seen[0], 0);
    for k in 1..4 {
        let share = seen[k] as f64 / 3000.0;
        assert!((share - 1.0 / 3.0).abs() <= 0.04, "share {} of action {}", share, k);
    }
}

#[test]
fn start_state_without_entry_is_an_error() {
    let golf = SimpleGolf::new(fx(0.9));
    assert_eq!(
        generate(&golf.transitions(), 2, 1, 7, usize::MAX),
        Err(GenerateError::UnknownState)
    );
    assert_eq!(generate(&Transitions::new(), 0, 1, 7, usize::MAX), Err(GenerateError::UnknownState));
}

#[test]
fn outcome_that_leads_out_of_the_model_is_an_error() {
    let mut model = Transitions::new();
    model.insert(0, 0, vec![outcome(1.0, 5, 0.0, false)]);
    assert_eq!(generate(&model, 0, 1, 7, usize::MAX), Err(GenerateError::UnknownState));
}

#[test]
fn entry_that_cannot_be_sampled_is_an_error() {
    let mut empty = Transitions::new();
    empty.insert(0, 0, vec![]);
    assert_eq!(
        generate(&empty, 0, 1, 7, usize::MAX),
        Err(GenerateError::Weights(SampleError::NoItem))
    );

    let mut negative = Transitions::new();
    negative.insert(0, 0, vec![outcome(0.5, 0, 0.0, true), outcome(-0.5, 0, 0.0, true)]);
    assert_eq!(
        generate(&negative, 0, 1, 7, usize::MAX),
        Err(GenerateError::Weights(SampleError::InvalidWeight))
    );

    let mut zero = Transitions::new();
    zero.insert(0, 0, vec![outcome(0.0, 0, 0.0, true), outcome(0.0, 0, 0.0, true)]);
    assert_eq!(
        generate(&zero, 0, 1, 7, usize::MAX),
        Err(GenerateError::Weights(SampleError::AllWeightsZero))
    );

    let mut heavy = Transitions::new();
    let most = Transition { next_state: 0, probability: i64::MAX, reward: 0, done: true };
    heavy.insert(0, 0, vec![most, most]);
    assert_eq!(
        generate(&heavy, 0, 1, 7, usize::MAX),
        Err(GenerateError::Weights(SampleError::TooHeavy))
    );
}

#[test]
fn failure_to_simulate_reaches_the_estimate() {
    let source = EpisodeGeneratorForTransitions::new(Rc::new(Transitions::new()), 1);
    assert_eq!(
        mc_first_visit(Rc::new(source), fx(0.9), 3, 1),
        Err(McError::Source(GenerateError::UnknownState))
    );
}

#[test]
fn golf_episodes_end_in_the_hole() {
    let golf = SimpleGolf::new(fx(0.9));
    let episodes = generate(&golf.transitions(), 0, 50, 7, usize::MAX).unwrap();
    assert_eq!(episodes.len(), 50);
    for ep in &episodes {
        assert!(ep.len() >= 3);
        assert_eq!(ep[0], EpisodeEvent { s: 0, r: 0 });
        assert_eq!(ep[ep.len() - 1], EpisodeEvent { s: 2, r: fx(10.) });
        for event in &ep[..ep.len() - 1] {
            assert!(event.s == 0 || event.s == 1);
            assert_eq!(event.r, 0);
        }
    }
}

/// Hits toward the hole: from the fairway to the green, on the green a putt.
struct Forward;

impl Policy<DiscreteSpace, DiscreteSpace> for Forward {
    fn policy(&self, s: &Discrete) -> Option<Discrete> {
        match *s {
            0 => Some(0),
            1 => Some(2),
            _ => None,
        }
    }
}

/// Always the same action, or none.
struct Always(Option<Discrete>);

impl Policy<DiscreteSpace, DiscreteSpace> for Always {
    fn policy(&self, _s: &Discrete) -> Option<Discrete> {
        self.0
    }
}

#[test]
fn policy_chooses_the_actions_of_an_episode() {
    let golf = SimpleGolf::new(fx(0.9));
    let episodes = generate_with(&golf.transitions(), &Forward, 0, 200, 7, usize::MAX).unwrap();
    assert_eq!(episodes.len(), 200);
    let mut longest = 0;
    for ep in &episodes {
        assert_eq!(ep[0], EpisodeEvent { s: 0, r: 0 });
        assert_eq!(ep[ep.len() - 1], EpisodeEvent { s: 2, r: fx(10.) });
        // under this policy the ball never goes back from the green
        let mut on_green = false;
        for event in &ep[..ep.len() - 1] {
            if event.s == 1 {
                on_green = true;
            } else {
                assert!(!on_green);
                assert_eq!(event.s, 0);
            }
        }
        longest = longest.max(ep.len());
    }
    assert!(longest > 3);
}

#[test]
fn policy_episodes_are_the_same_from_the_same_seed() {
    let golf = SimpleGolf::new(fx(0.9));
    let one = generate_with(&golf.transitions(), &Forward, 0, 100, 5, usize::MAX).unwrap();
    let two = generate_with(&golf.transitions(), &Forward, 0, 100, 5, usize::MAX).unwrap();
    assert_eq!(one, two);
    let source = EpisodeGeneratorForPolicy::new(golf.transitions(), Forward, 5);
    assert_eq!(source.start, 0);
    assert_eq!(source.seed, 5);
    assert_eq!(source.max_steps, usize::MAX);
    assert_eq!(source.generate(100).unwrap(), one);
}

#[test]
fn policy_without_an_action_is_an_error() {
    let golf = SimpleGolf::new(fx(0.9));
    assert_eq!(
        generate_with(&golf.transitions(), &Always(None), 0, 1, 7, usize::MAX),
        Err(GenerateError::NoAction)
    );
    assert_eq!(
        generate_with(&golf.transitions(), &Forward, 2, 1, 7, usize::MAX),
        Err(GenerateError::NoAction)
    );
}

#[test]
fn action_that_the_model_does_not_know_is_an_error() {
    let golf = SimpleGolf::new(fx(0.9));
    assert_eq!(
        generate_with(&golf.transitions(), &Always(Some(1)), 0, 1, 7, usize::MAX),
        Err(GenerateError::UnknownAction)
    );
    assert_eq!(
        generate_with(&golf.transitions(), &Always(Some(0)), 0, 50, 7, usize::MAX),
        Err(GenerateError::UnknownAction)
    );
}

#[test]
fn policy_on_an_entry_that_cannot_be_sampled_is_an_error() {
    let mut model = Transitions::new();
    model.insert(0, 0, vec![]);
    assert_eq!(
        generate_with(&model, &Always(Some(0)), 0, 1, 7, usize::MAX),
        Err(GenerateError::Weights(SampleError::NoItem))
    );
}

#[test]
fn policy_episode_is_cut_off_after_the_steps_allowed() {
    let mut model = Transitions::new();
    model.insert(0, 3, vec![outcome(1.0, 0, 2.0, false)]);
    let episodes = generate_with(&model, &Always(Some(3)), 0, 2, 1, 4).unwrap();
    for ep in &episodes {
        assert_eq!(ep.len(), 5);
    }
}

#[test]
fn estimate_under_a_policy_is_the_discounted_putt() {
    // toward the hole every episode ends with the putt that pays 10, so the
    // green is worth 10 * (0.09 * 1 + 0.9 * ...) and more than the fairway
    let golf = SimpleGolf::new(fx(0.9));
    let source = EpisodeGeneratorForPolicy::new(golf.transitions(), Forward, 2718);
    let v = mc_first_visit(Rc::new(source), golf.gamma(), golf.n_s(), 2000).unwrap();
    // v(1) = 0.9 * 10 + 0.1 * 0.9 * v(1), v(0) = 0.9 * 0.9 * v(1) + 0.1 * 0.9 * v(0)
    let green = 9.0 / (1.0 - 0.09);
    let fairway = 0.81 * green / (1.0 - 0.09);
    assert!((as_real(v[1]) - green).abs() <= 0.05, "green {}", as_real(v[1]));
    assert!((as_real(v[0]) - fairway).abs() <= 0.1, "fairway {}", as_real(v[0]));
    assert_eq!(v[2], 0);
}

#[test]
fn outcome_is_recorded_as_an_event() {
    let mut ep = vec![EpisodeEvent { s: 0, r: 0 }];
    let goes_on = gymnasium_rl::solvers::record_outcome(&mut ep, &outcome(0.5, 3, 1.5, false));
    assert_eq!(goes_on, Some(3));
    assert_eq!(ep, vec![EpisodeEvent { s: 0, r: 0 }, EpisodeEvent { s: 3, r: fx(1.5) }]);
    let ends = gymnasium_rl::solvers::record_outcome(&mut ep, &outcome(0.5, 7, -2.0, true));
    assert_eq!(ends, None);
    assert_eq!(
        ep,
        vec![
            EpisodeEvent { s: 0, r: 0 },
            EpisodeEvent { s: 3, r: fx(1.5) },
            EpisodeEvent { s: 7, r: fx(-2.0) },
        ]
    );
}
