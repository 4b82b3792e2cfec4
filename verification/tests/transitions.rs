use gymnasium_rl::defs::Transition;
use gymnasium_rl::mdp::Mdp;
use gymnasium_rl::simple_golf::SimpleGolf;
use gymnasium_rl::transitions::{transitions, Transitions};

fn to(next_state: i64) -> Transition {
    Transition { next_state, probability: 1_000_000_000, reward: 0, done: false }
}

#[test]
fn new_model_is_empty() {
    let model = Transitions::new();
    assert_eq!(model.len(), 0);
    assert!(model.is_empty());
    assert_eq!(model.find(0, 0), None);
    assert!(model.get(0, 0).is_none());
    assert!(!model.contains_key(0, 0));
    assert_eq!(model.slots(0), Vec::<usize>::new());
}

#[test]
fn insert_adds_a_pair_at_the_end() {
    let mut model = Transitions::new();
    assert_eq!(model.insert(3, 1, vec![to(4)]), None);
    assert_eq!(model.insert(0, 0, vec![to(1), to(2)]), None);
    assert_eq!(model.insert(3, 0, vec![]), None);
    assert_eq!(model.len(), 3);
    assert!(!model.is_empty());
    assert_eq!(model.find(3, 1), Some(0));
    assert_eq!(model.find(0, 0), Some(1));
    assert_eq!(model.find(3, 0), Some(2));
    assert_eq!(model.find(1, 3), None);
    assert_eq!(model.get(0, 0), Some(&vec![to(1), to(2)]));
    assert_eq!(model.get(3, 0), Some(&vec![]));
    assert_eq!(model.get(0, 1), None);
    assert!(model.contains_key(3, 1));
    assert!(!model.contains_key(1, 3));
    assert_eq!(model.entry(0).state, 3);
    assert_eq!(model.entry(0).action, 1);
    assert_eq!(model.entry(0).outcomes, vec![to(4)]);
}

#[test]
fn insert_replaces_the_outcomes_of_a_known_pair() {
    let mut model = Transitions::new();
    model.insert(0, 0, vec![to(1)]);
    model.insert(0, 1, vec![to(2)]);
    assert_eq!(model.insert(0, 0, vec![to(7), to(8)]), Some(vec![to(1)]));
    assert_eq!(model.len(), 2);
    assert_eq!(model.find(0, 0), Some(0));
    assert_eq!(model.get(0, 0), Some(&vec![to(7), to(8)]));
    assert_eq!(model.get(0, 1), Some(&vec![to(2)]));
}

#[test]
fn slots_list_the_entries_of_a_state_in_order() {
    let mut model = Transitions::new();
    model.insert(1, 0, vec![]);
    model.insert(0, 0, vec![]);
    model.insert(1, 2, vec![]);
    model.insert(2, 1, vec![]);
    model.insert(1, 1, vec![]);
    assert_eq!(model.slots(1), vec![0, 2, 4]);
    assert_eq!(model.slots(0), vec![1]);
    assert_eq!(model.slots(2), vec![3]);
    assert_eq!(model.slots(3), Vec::<usize>::new());
}

#[test]
fn golf_has_three_strokes() {
    let golf = SimpleGolf::new(900_000_000);
    assert_eq!(golf.n_s(), 3);
    assert_eq!(golf.n_a(), 3);
    assert_eq!(golf.gamma(), 900_000_000);
    let model = golf.transitions();
    assert_eq!(model.len(), 3);
    assert_eq!(
        model.get(0, 0),
        Some(&vec![
            Transition { next_state: 1, probability: 900_000_000, reward: 0, done: false },
            Transition { next_state: 0, probability: 100_000_000, reward: 0, done: false },
        ])
    );
    assert_eq!(
        model.get(1, 1),
        Some(&vec![
            Transition { next_state: 0, probability: 900_000_000, reward: 0, done: false },
            Transition { next_state: 1, probability: 100_000_000, reward: 0, done: false },
        ])
    );
    assert_eq!(
        model.get(1, 2),
        Some(&vec![
            Transition { next_state: 2, probability: 900_000_000, reward: 10_000_000_000, done: true },
            Transition { next_state: 1, probability: 100_000_000, reward: 0, done: false },
        ])
    );
    assert_eq!(model.find(0, 0), Some(0));
    assert_eq!(model.find(1, 1), Some(1));
    assert_eq!(model.find(1, 2), Some(2));
    assert!(model.get(0, 1).is_none());
    assert!(model.get(2, 0).is_none());
}

#[test]
fn table_becomes_a_model_in_the_order_of_its_pairs() {
    let table = vec![
        vec![vec![to(1)], vec![to(2), to(3)]],
        vec![vec![], vec![to(0)]],
        vec![vec![to(9)], vec![to(9)]],
    ];
    let model = transitions(2, 2, &table).unwrap();
    assert_eq!(model.len(), 4);
    assert_eq!(model.find(0, 0), Some(0));
    assert_eq!(model.find(0, 1), Some(1));
    assert_eq!(model.find(1, 0), Some(2));
    assert_eq!(model.find(1, 1), Some(3));
    assert_eq!(model.get(0, 0), Some(&vec![to(1)]));
    assert_eq!(model.get(0, 1), Some(&vec![to(2), to(3)]));
    assert_eq!(model.get(1, 0), Some(&vec![]));
    assert_eq!(model.get(1, 1), Some(&vec![to(0)]));
    assert!(model.get(2, 0).is_none());
}

#[test]
fn table_that_lacks_a_state_or_an_action_gives_no_model() {
    let table = vec![vec![vec![to(1)], vec![to(2)]], vec![vec![to(3)]]];
    assert!(transitions(2, 2, &table).is_none());
    assert!(transitions(3, 1, &table).is_none());
    assert!(transitions(2, 1, &table).is_some());
    assert!(transitions(1, 2, &table).is_some());
}

#[test]
fn process_without_states_or_actions_has_an_empty_model() {
    let table = vec![vec![vec![to(1)]]];
    assert_eq!(transitions(0, 1, &table).unwrap().len(), 0);
    assert_eq!(transitions(1, 0, &table).unwrap().len(), 0);
    assert_eq!(transitions(-1, 5, &table).unwrap().len(), 0);
    assert_eq!(transitions(5, -1, &vec![]).unwrap().len(), 0);
}
