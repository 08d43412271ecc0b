use busy_beaver::transition::{Action, Direction, PartialTransition, State, Transition};
use busy_beaver::turing_machine::{PartialTuringMachine, TuringMachine};

fn two_state_champion() -> TuringMachine<2> {
    TuringMachine::new([
        Transition::new(
            Action::new(1, Direction::Right, State::B),
            Action::new(1, Direction::Left, State::B),
        ),
        Transition::new(
            Action::new(1, Direction::Left, State::A),
            Action::new(1, Direction::Right, State::Halt),
        ),
    ])
}

fn three_state_champion() -> TuringMachine<3> {
    TuringMachine::new([
        Transition::new(
            Action::new(1, Direction::Right, State::B),
            Action::new(1, Direction::Right, State::Halt),
        ),
        Transition::new(
            Action::new(0, Direction::Right, State::C),
            Action::new(1, Direction::Right, State::B),
        ),
        Transition::new(
            Action::new(1, Direction::Left, State::C),
            Action::new(1, Direction::Left, State::A),
        ),
    ])
}

fn left_runner() -> TuringMachine<2> {
    TuringMachine::new([
        Transition::new(
            Action::new(1, Direction::Left, State::A),
            Action::new(0, Direction::Left, State::A),
        ),
        Transition::new(
            Action::new(1, Direction::Left, State::A),
            Action::new(0, Direction::Left, State::A),
        ),
    ])
}

fn empty<const N: usize>() -> PartialTuringMachine<N> {
    PartialTuringMachine::new([PartialTransition::default(); N])
}

#[test]
fn two_state_champion_halts_after_six_steps_with_four_ones() {
    let machine = two_state_champion();
    assert!(machine.stays_inside());
    assert_eq!(machine.run(1000), Some(4));
    assert_eq!(machine.run(6), Some(4));
    assert_eq!(machine.run(5), None);
}

#[test]
fn three_state_champion_halts_after_fourteen_steps_with_six_ones() {
    let machine = three_state_champion();
    assert_eq!(machine.run(14), Some(6));
    assert_eq!(machine.run(13), None);
}

#[test]
fn left_runner_never_halts() {
    let machine = left_runner();
    assert_eq!(machine.run(1000), None);
    assert_eq!(machine.run(0), None);
    assert_eq!(machine.run(100_000), None);
}

#[test]
fn a_halting_machine_halts_under_any_larger_budget() {
    assert_eq!(two_state_champion().run(usize::MAX), Some(4));
    assert_eq!(three_state_champion().run(usize::MAX), Some(6));
    let mut machine = empty::<2>();
    assert_eq!(machine.run(usize::MAX), Err((State::A, 0)));
    machine.add_transition(State::A, 0, Action::new(1, Direction::Left, State::Halt));
    assert_eq!(machine.run(usize::MAX), Ok(Some(1)));
}

#[test]
fn no_step_is_taken_without_budget() {
    assert_eq!(two_state_champion().run(0), None);
    assert_eq!(empty::<2>().run(0), Ok(None));
}

#[test]
fn run_is_repeatable() {
    let machine = two_state_champion();
    for budget in 0..12 {
        assert_eq!(machine.run(budget), machine.run(budget));
    }
    let mut partial = empty::<3>();
    partial.add_transition(State::A, 0, Action::new(1, Direction::Left, State::C));
    assert_eq!(partial.run(50), partial.run(50));
}

#[test]
fn empty_partial_machine_stops_at_the_first_slot() {
    assert_eq!(empty::<2>().run(1000), Err((State::A, 0)));
    assert_eq!(empty::<3>().run(1), Err((State::A, 0)));
    assert_eq!(empty::<7>().run(1000), Err((State::A, 0)));
}

#[test]
fn added_action_lets_the_run_go_further() {
    let mut machine = empty::<2>();
    assert_eq!(machine.run(1000), Err((State::A, 0)));

    machine.add_transition(State::A, 0, Action::new(1, Direction::Right, State::B));
    assert_eq!(machine.run(1), Ok(None));
    assert_eq!(machine.run(1000), Err((State::B, 0)));

    machine.add_transition(State::B, 0, Action::new(1, Direction::Left, State::A));
    assert_eq!(machine.run(2), Ok(None));
    assert_eq!(machine.run(1000), Err((State::A, 1)));

    machine.add_transition(State::A, 1, Action::new(1, Direction::Left, State::B));
    assert_eq!(machine.run(3), Ok(None));
    // B reads 0 twice before it meets a 1.
    assert_eq!(machine.run(5), Ok(None));
    assert_eq!(machine.run(6), Err((State::B, 1)));

    machine.add_transition(State::B, 1, Action::new(1, Direction::Right, State::Halt));
    assert_eq!(machine.run(1000), Ok(Some(4)));
    assert_eq!(machine.run(5), Ok(None));
}

#[test]
fn partial_run_tells_its_three_outcomes_apart() {
    let mut machine = empty::<2>();
    machine.add_transition(State::A, 0, Action::new(1, Direction::Right, State::Halt));
    assert_eq!(machine.run(10), Ok(Some(1)));

    let mut machine = empty::<2>();
    machine.add_transition(State::A, 0, Action::new(0, Direction::Right, State::A));
    assert_eq!(machine.run(10), Ok(None));

    let mut machine = empty::<2>();
    machine.add_transition(State::A, 0, Action::new(1, Direction::Left, State::B));
    assert_eq!(machine.run(10), Err((State::B, 0)));
}

#[test]
fn halting_with_a_blank_tape_counts_no_ones() {
    let mut machine = empty::<2>();
    machine.add_transition(State::A, 0, Action::new(0, Direction::Left, State::Halt));
    assert_eq!(machine.run(10), Ok(Some(0)));
}

#[test]
fn a_long_run_crosses_many_cells() {
    // Writes ones to the right for 300 steps, then stops for want of budget.
    let mut machine = empty::<2>();
    machine.add_transition(State::A, 0, Action::new(1, Direction::Right, State::A));
    assert_eq!(machine.run(300), Ok(None));
    // Walks left over blank cells until the budget ends.
    let mut machine = empty::<2>();
    machine.add_transition(State::A, 0, Action::new(0, Direction::Left, State::A));
    assert_eq!(machine.run(300), Ok(None));
}

#[test]
fn a_machine_can_halt_on_a_one_it_wrote() {
    let machine: TuringMachine<2> = TuringMachine::new([
        Transition::new(
            Action::new(1, Direction::Left, State::B),
            Action::new(1, Direction::Right, State::Halt),
        ),
        Transition::new(
            Action::new(1, Direction::Right, State::A),
            Action::new(1, Direction::Left, State::B),
        ),
    ]);
    // A: 0 -> 1LB; B at -1: 0 -> 1RA; A at 0 reads 1 -> halts.
    assert_eq!(machine.run(3), Some(2));
    assert_eq!(machine.run(2), None);
}

#[test]
fn machine_text() {
    assert_eq!(two_state_champion().to_string(), "1RB 1LB 1LA 1RH");
    assert_eq!(three_state_champion().to_string(), "1RB 1RH 0RC 1RB 1LC 1LA");
    assert_eq!(left_runner().to_string(), "1LA 0LA 1LA 0LA");
}

#[test]
fn partial_machine_text() {
    let mut machine = empty::<3>();
    assert_eq!(machine.to_string(), "--- --- --- --- --- ---");
    machine.add_transition(State::B, 1, Action::new(0, Direction::Left, State::C));
    assert_eq!(machine.to_string(), "--- --- --- 0LC --- ---");
    machine.add_transition(State::A, 0, Action::new(1, Direction::Right, State::B));
    assert_eq!(machine.to_string(), "1RB --- --- 0LC --- ---");
}

#[test]
fn completing_a_partial_machine_fills_the_gaps_with_halts() {
    let mut machine = empty::<2>();
    machine.add_transition(State::A, 0, Action::new(1, Direction::Right, State::B));
    machine.add_transition(State::B, 1, Action::new(0, Direction::Left, State::A));
    let full = TuringMachine::from(machine);
    assert_eq!(full.to_string(), "1RB 1RH 0RH 0LA");
    // A writes 1 and goes right; B reads 0, writes 0 and halts.
    assert_eq!(full.run(10), Some(1));

    let full: TuringMachine<3> = empty::<3>().into();
    assert_eq!(full.to_string(), "0RH 1RH 0RH 1RH 0RH 1RH");
    assert_eq!(full.run(10), Some(0));
}

#[test]
fn a_complete_partial_machine_runs_like_the_machine_it_becomes() {
    let mut machine = empty::<2>();
    machine.add_transition(State::A, 0, Action::new(1, Direction::Right, State::B));
    machine.add_transition(State::A, 1, Action::new(1, Direction::Left, State::B));
    machine.add_transition(State::B, 0, Action::new(1, Direction::Left, State::A));
    machine.add_transition(State::B, 1, Action::new(1, Direction::Right, State::Halt));
    assert_eq!(machine.run(6), Ok(Some(4)));
    assert_eq!(TuringMachine::from(machine).run(6), Some(4));
}

#[test]
fn add_transition_replaces_a_set_slot() {
    let mut machine = empty::<2>();
    machine.add_transition(State::A, 0, Action::new(1, Direction::Right, State::B));
    machine.add_transition(State::A, 0, Action::new(0, Direction::Left, State::A));
    assert_eq!(machine.to_string(), "0LA --- --- ---");
}

#[test]
fn stays_inside_finds_actions_that_leave_the_machine() {
    let machine: TuringMachine<2> = TuringMachine::new([
        Transition::new(
            Action::new(1, Direction::Right, State::B),
            Action::new(1, Direction::Left, State::C),
        ),
        Transition::new(
            Action::new(1, Direction::Left, State::A),
            Action::new(1, Direction::Right, State::Halt),
        ),
    ]);
    assert!(!machine.stays_inside());
    assert!(three_state_champion().stays_inside());

    let mut partial = empty::<2>();
    assert!(partial.stays_inside());
    partial.add_transition(State::B, 1, Action::new(1, Direction::Right, State::B));
    assert!(partial.stays_inside());
    partial.add_transition(State::B, 0, Action::new(1, Direction::Right, State::G));
    assert!(!partial.stays_inside());
}
