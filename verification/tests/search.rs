use busy_beaver::random::Replay;
use busy_beaver::semantics::REDRAW_LIMIT;
use busy_beaver::transition::{Action, Direction, PartialTransition, State};
use busy_beaver::turing_machine::{
    generate_busy_beaver, generate_busy_beaver_with, Extension, PartialTuringMachine,
    TuringMachine,
};

fn unset<const N: usize>() -> PartialTuringMachine<N> {
    PartialTuringMachine::new([PartialTransition::default(); N])
}

fn right(symbol: u8, state: State) -> Action {
    Action::new(symbol, Direction::Right, state)
}

fn left(symbol: u8, state: State) -> Action {
    Action::new(symbol, Direction::Left, state)
}

#[test]
fn n_state_full_needs_an_action_in_every_state() {
    let mut machine = unset::<3>();
    assert!(!machine.is_n_state_full());
    machine.add_transition(State::A, 0, right(1, State::B));
    machine.add_transition(State::B, 1, left(1, State::C));
    assert!(!machine.is_n_state_full());
    machine.add_transition(State::C, 1, left(0, State::A));
    assert!(machine.is_n_state_full());
    machine.add_transition(State::C, 0, left(0, State::A));
    assert!(machine.is_n_state_full());
}

#[test]
fn count_specified_transitions_counts_set_slots() {
    let mut machine = unset::<3>();
    assert_eq!(machine.count_specified_transitions(), 0);
    machine.add_transition(State::A, 0, right(1, State::B));
    assert_eq!(machine.count_specified_transitions(), 1);
    machine.add_transition(State::C, 0, right(1, State::B));
    machine.add_transition(State::C, 1, right(1, State::B));
    assert_eq!(machine.count_specified_transitions(), 3);
    machine.add_transition(State::C, 1, left(0, State::A));
    assert_eq!(machine.count_specified_transitions(), 3);
    machine.add_transition(State::A, 1, left(0, State::A));
    machine.add_transition(State::B, 0, left(0, State::A));
    machine.add_transition(State::B, 1, left(0, State::A));
    assert_eq!(machine.count_specified_transitions(), 6);
}

#[test]
fn one_slot_is_left_when_all_but_one_are_set() {
    let mut machine = unset::<2>();
    assert!(!machine.has_one_slot_left());
    machine.add_transition(State::A, 0, right(1, State::B));
    machine.add_transition(State::A, 1, right(1, State::B));
    assert!(!machine.has_one_slot_left());
    machine.add_transition(State::B, 1, right(1, State::B));
    assert!(machine.has_one_slot_left());
    machine.add_transition(State::B, 0, right(1, State::B));
    assert!(!machine.has_one_slot_left());
}

#[test]
fn state_choice_limit_is_the_highest_state_with_an_action() {
    let mut machine = unset::<4>();
    assert_eq!(machine.state_choice_limit(), State::Halt);
    machine.add_transition(State::A, 0, right(1, State::B));
    assert_eq!(machine.state_choice_limit(), State::A);
    machine.add_transition(State::C, 1, right(1, State::B));
    assert_eq!(machine.state_choice_limit(), State::C);
    machine.add_transition(State::B, 1, right(1, State::B));
    assert_eq!(machine.state_choice_limit(), State::C);
    machine.add_transition(State::D, 0, right(1, State::B));
    assert_eq!(machine.state_choice_limit(), State::D);
}

#[test]
fn zero_dextrous_counts_the_candidate_in_its_slot() {
    let mut machine = unset::<2>();
    machine.add_transition(State::A, 0, right(1, State::B));
    // B has no action on 0 yet: the candidate decides when it is for (B, 0).
    assert!(machine.is_0_dextrous_with(State::B, 0, right(0, State::A)));
    assert!(!machine.is_0_dextrous_with(State::B, 0, left(0, State::A)));
    // A candidate for a slot on 1 does not stand in for B's missing action.
    assert!(!machine.is_0_dextrous_with(State::B, 1, right(0, State::A)));
    assert!(!machine.is_0_dextrous_with(State::A, 1, right(0, State::A)));
    // A candidate for (A, 0) takes the place of A's own action.
    assert!(!machine.is_0_dextrous_with(State::A, 0, right(0, State::A)));

    machine.add_transition(State::B, 0, right(1, State::A));
    assert!(machine.is_0_dextrous_with(State::B, 1, left(0, State::A)));
    assert!(machine.is_0_dextrous_with(State::A, 1, right(0, State::A)));
    assert!(machine.is_0_dextrous_with(State::Halt, 0, left(0, State::A)));
    assert!(!machine.is_0_dextrous_with(State::A, 0, left(0, State::A)));

    machine.add_transition(State::B, 0, left(1, State::A));
    assert!(!machine.is_0_dextrous_with(State::B, 1, right(0, State::A)));
    assert!(machine.is_0_dextrous_with(State::B, 0, right(0, State::A)));
}

#[test]
fn close_with_halt_needs_a_full_machine() {
    let mut machine = unset::<3>();
    machine.add_transition(State::A, 0, right(1, State::B));
    machine.add_transition(State::B, 0, left(1, State::C));
    assert!(!machine.close_with_halt(State::C, 1));
    assert_eq!(machine.to_string(), "1RB --- 1LC --- --- ---");
}

#[test]
fn close_with_halt_places_the_closing_action() {
    let mut machine = unset::<2>();
    machine.add_transition(State::A, 0, right(1, State::B));
    machine.add_transition(State::B, 0, left(1, State::A));
    assert!(machine.close_with_halt(State::A, 1));
    assert_eq!(machine.to_string(), "1RB 1RH 1LA ---");
}

#[test]
fn close_with_halt_leaves_a_zero_dextrous_machine_open() {
    let mut machine = unset::<2>();
    machine.add_transition(State::A, 0, right(1, State::B));
    machine.add_transition(State::B, 0, right(1, State::A));
    assert!(!machine.close_with_halt(State::A, 1));
    assert_eq!(machine.to_string(), "1RB --- 1RA ---");

    // The closing action moves right: in a slot on 0 it can itself make the
    // machine 0-dextrous.
    let mut machine = unset::<2>();
    machine.add_transition(State::A, 0, right(1, State::B));
    machine.add_transition(State::B, 1, left(1, State::A));
    assert!(!machine.close_with_halt(State::B, 0));
    assert_eq!(machine.to_string(), "1RB --- --- 1LA");
}

#[test]
fn extend_with_places_a_candidate() {
    let mut machine = unset::<3>();
    machine.add_transition(State::A, 0, right(1, State::B));
    machine.add_transition(State::B, 0, right(0, State::C));
    assert_eq!(machine.extend_with(State::C, 0, left(1, State::A)), Extension::Added);
    assert_eq!(machine.to_string(), "1RB --- 0RC --- 1LA ---");
}

#[test]
fn extend_with_drops_a_zero_dextrous_candidate() {
    let mut machine = unset::<3>();
    machine.add_transition(State::A, 0, right(1, State::B));
    machine.add_transition(State::B, 0, right(0, State::C));
    assert_eq!(machine.extend_with(State::C, 0, right(1, State::A)), Extension::Rejected);
    assert_eq!(machine.to_string(), "1RB --- 0RC --- --- ---");
}

#[test]
fn extend_with_fills_the_last_slot() {
    let mut machine = unset::<2>();
    machine.add_transition(State::A, 0, right(1, State::B));
    machine.add_transition(State::B, 0, left(1, State::A));
    assert_eq!(machine.extend_with(State::A, 1, left(1, State::B)), Extension::Completed);
    assert_eq!(machine.to_string(), "1RB 1LB 1LA 1RH");
    assert_eq!(machine.count_specified_transitions(), 4);
}

#[test]
fn extend_with_fills_a_missing_slot_on_zero() {
    let mut machine = unset::<2>();
    machine.add_transition(State::A, 0, left(1, State::B));
    machine.add_transition(State::A, 1, left(1, State::B));
    assert_eq!(machine.extend_with(State::B, 1, left(0, State::A)), Extension::Completed);
    assert_eq!(machine.to_string(), "1LB 1LB 1RH 0LA");
}

fn check_generated<const N: usize>(machine: &TuringMachine<N>) {
    assert!(machine.stays_inside());
    let text = machine.to_string();
    assert_eq!(text.len(), 8 * N - 1);
    assert!(!text.contains('-'));
    assert!(text.starts_with("1RB "));
    let second = &text[8..11];
    if N >= 3 {
        assert!(second.ends_with('C'), "{}", text);
    } else {
        assert!(second.ends_with('A') || second.ends_with('B'), "{}", text);
    }
    assert_eq!(machine.run(1000), machine.run(1000));
}

#[test]
fn generated_machines_have_no_gaps() {
    for _ in 0..50 {
        check_generated(&generate_busy_beaver::<2>(200));
        check_generated(&generate_busy_beaver::<3>(200));
        check_generated(&generate_busy_beaver::<4>(200));
    }
    check_generated(&generate_busy_beaver::<7>(500));
    check_generated(&generate_busy_beaver::<9>(100));
}

#[test]
fn generation_ends_without_a_step_budget() {
    check_generated(&generate_busy_beaver::<2>(0));
    check_generated(&generate_busy_beaver::<5>(0));
}

#[test]
fn generated_machines_differ() {
    let first = generate_busy_beaver::<5>(300).to_string();
    let mut differs = false;
    for _ in 0..200 {
        if generate_busy_beaver::<5>(300).to_string() != first {
            differs = true;
        }
    }
    assert!(differs);
}

#[test]
fn search_closes_a_two_state_machine_at_the_first_unset_slot() {
    // B on 0: write 1, move left, go to A. The run then meets (A, 1), and
    // the closing action goes there.
    let mut source = Replay::new(vec![1, 0, 0]);
    let machine = generate_busy_beaver_with::<2, _>(100, &mut source);
    assert_eq!(machine.to_string(), "1RB 1RH 1LA 1RH");
    assert_eq!(machine.run(100), Some(2));
}

#[test]
fn search_without_numbers_draws_the_lower_bounds() {
    let mut source = Replay::new(Vec::new());
    let machine = generate_busy_beaver_with::<2, _>(100, &mut source);
    assert_eq!(machine.to_string(), "1RB 1RH 0LA 1RH");
}

#[test]
fn search_drops_a_candidate_and_draws_again() {
    // B on 0 is 0RC. For (C, 0) the candidate 1RA would leave every state
    // moving right on 0 and is dropped; 0LB is placed. The machine then runs
    // between B and C for ever.
    let mut source = Replay::new(vec![0, 1, 1, 1, 0, 0, 0, 1]);
    let machine = generate_busy_beaver_with::<3, _>(50, &mut source);
    assert_eq!(machine.to_string(), "1RB 1RH 0RC 1RH 0LB 1RH");
    assert_eq!(machine.run(50), None);
}

#[test]
fn search_extends_then_closes() {
    // B on 0 is 1LC; (C, 1) gets 1LA; the run then meets (B, 1) with every
    // state set, and the closing action goes there.
    let mut source = Replay::new(vec![1, 0, 1, 0, 0]);
    let machine = generate_busy_beaver_with::<3, _>(100, &mut source);
    assert_eq!(machine.to_string(), "1RB 1RH 1LC 1RH 0RH 1LA");
    assert_eq!(machine.run(100), Some(3));
    assert_eq!(machine.run(5), Some(3));
    assert_eq!(machine.run(4), None);
}

fn right_candidates(count: usize) -> Vec<u8> {
    // B on 0 is 0RC; then `count` candidates 0RA for (C, 0), all dropped;
    // then the candidate 0LA.
    let mut numbers = vec![0, 1];
    for _ in 0..count {
        numbers.extend([0, 1, 0]);
    }
    numbers.extend([0, 0, 0]);
    numbers
}

#[test]
fn search_takes_the_candidate_after_many_dropped_ones() {
    let mut source = Replay::new(right_candidates(REDRAW_LIMIT - 1));
    let machine = generate_busy_beaver_with::<3, _>(60, &mut source);
    assert_eq!(machine.to_string(), "1RB 1RH 0RC 1RH 0LA 1RH");
}

#[test]
fn search_gives_up_at_the_redraw_limit() {
    let mut source = Replay::new(right_candidates(REDRAW_LIMIT));
    let machine = generate_busy_beaver_with::<3, _>(60, &mut source);
    assert_eq!(machine.to_string(), "1RB 1RH 0RC 1RH 0RH 1RH");
    assert_eq!(machine.run(60), Some(1));
}

#[test]
fn search_is_repeatable_with_the_same_numbers() {
    let numbers = vec![1, 1, 0, 0, 1, 0, 1, 0, 1, 1, 0, 0, 1, 0, 1, 1, 0, 1, 0, 0, 1];
    let first = generate_busy_beaver_with::<4, _>(300, &mut Replay::new(numbers.clone()));
    let second = generate_busy_beaver_with::<4, _>(300, &mut Replay::new(numbers));
    assert_eq!(first.to_string(), second.to_string());
    check_generated(&first);
}
