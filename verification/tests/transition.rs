use busy_beaver::transition::{Action, Direction, PartialTransition, State, Transition};
use busy_beaver::utils::map_range_inclusive;

const STATES: [State; 8] = [
    State::Halt,
    State::A,
    State::B,
    State::C,
    State::D,
    State::E,
    State::F,
    State::G,
];

#[test]
fn state_codes_round_trip() {
    for (code, state) in STATES.iter().enumerate() {
        assert_eq!(state.to_code(), code as u8);
        assert_eq!(State::from_code(code as u8), Some(*state));
    }
}

#[test]
fn state_codes_above_seven_name_no_state() {
    assert_eq!(State::from_code(8), None);
    assert_eq!(State::from_code(31), None);
    assert_eq!(State::from_code(255), None);
}

#[test]
fn direction_codes_round_trip() {
    assert_eq!(Direction::Left.to_code(), 0);
    assert_eq!(Direction::Right.to_code(), 1);
    assert_eq!(Direction::from_code(0), Some(Direction::Left));
    assert_eq!(Direction::from_code(1), Some(Direction::Right));
    assert_eq!(Direction::from_code(2), None);
}

#[test]
fn start_state_is_a() {
    assert_eq!(State::start(), State::A);
}

#[test]
fn only_halt_is_halting() {
    assert!(State::Halt.is_halting());
    for state in &STATES[1..] {
        assert!(!state.is_halting());
    }
}

#[test]
fn names_of_states_and_directions() {
    let names = ["Halt", "A", "B", "C", "D", "E", "F", "G"];
    for (state, name) in STATES.iter().zip(names) {
        assert_eq!(state.to_str(), name);
    }
    assert_eq!(Direction::Left.to_str(), "Left");
    assert_eq!(Direction::Right.to_str(), "Right");
}

#[test]
fn action_unpacks_to_what_it_was_made_of() {
    for symbol in 0..2u8 {
        for direction in [Direction::Left, Direction::Right] {
            for state in STATES {
                let action = Action::new(symbol, direction, state);
                assert_eq!(action.unpack(), (symbol, direction, state));
                assert_eq!(action.get_direction(), direction);
            }
        }
    }
}

#[test]
fn action_text() {
    assert_eq!(Action::new(1, Direction::Right, State::B).to_string(), "1RB");
    assert_eq!(Action::new(0, Direction::Left, State::Halt).to_string(), "0LH");
    assert_eq!(Action::new(1, Direction::Left, State::G).to_string(), "1LG");
    assert_eq!(Action::new(0, Direction::Right, State::A).to_string(), "0RA");
}

#[test]
fn transition_gives_the_action_of_the_symbol_read() {
    let transition = Transition::new(
        Action::new(1, Direction::Right, State::B),
        Action::new(0, Direction::Left, State::C),
    );
    assert_eq!(transition.get_action_of(0), (1, Direction::Right, State::B));
    assert_eq!(transition.get_action_of(1), (0, Direction::Left, State::C));
    assert_eq!(transition.to_string(), "1RB 0LC");
}

#[test]
fn partial_transition_starts_empty() {
    let transition = PartialTransition::default();
    assert_eq!(transition.get_action_of(0), None);
    assert_eq!(transition.get_action_of(1), None);
    assert_eq!(transition.count_specified_actions(), 0);
    assert_eq!(transition.to_string(), "--- ---");
}

#[test]
fn partial_transition_slots_are_set_one_by_one() {
    let mut transition = PartialTransition::new(None, None);
    transition.set_action_of(1, Some(Action::new(1, Direction::Left, State::D)));
    assert_eq!(transition.get_action_of(0), None);
    assert_eq!(transition.get_action_of(1), Some((1, Direction::Left, State::D)));
    assert_eq!(transition.count_specified_actions(), 1);
    assert_eq!(transition.to_string(), "--- 1LD");

    transition.set_action_of(0, Some(Action::new(0, Direction::Right, State::E)));
    assert_eq!(transition.get_action_of(0), Some((0, Direction::Right, State::E)));
    assert_eq!(transition.count_specified_actions(), 2);
    assert_eq!(transition.to_string(), "0RE 1LD");

    transition.set_action_of(1, None);
    assert_eq!(transition.get_action_of(1), None);
    assert_eq!(transition.count_specified_actions(), 1);
    assert_eq!(transition.to_string(), "0RE ---");
}

#[test]
fn partial_transition_new_keeps_both_slots() {
    let transition = PartialTransition::new(
        Some(Action::new(1, Direction::Right, State::F)),
        None,
    );
    assert_eq!(transition.get_action_of(0), Some((1, Direction::Right, State::F)));
    assert_eq!(transition.get_action_of(1), None);
}

#[test]
fn unset_slots_become_halting_actions() {
    let full = Transition::from(PartialTransition::default());
    assert_eq!(full.get_action_of(0), (0, Direction::Right, State::Halt));
    assert_eq!(full.get_action_of(1), (1, Direction::Right, State::Halt));
    assert_eq!(full.to_string(), "0RH 1RH");

    let half = PartialTransition::new(None, Some(Action::new(0, Direction::Left, State::A)));
    let full: Transition = half.into();
    assert_eq!(full.get_action_of(0), (0, Direction::Right, State::Halt));
    assert_eq!(full.get_action_of(1), (0, Direction::Left, State::A));
}

#[test]
fn set_slots_survive_the_conversion() {
    let both = PartialTransition::new(
        Some(Action::new(1, Direction::Left, State::B)),
        Some(Action::new(1, Direction::Right, State::C)),
    );
    assert_eq!(Transition::from(both).to_string(), "1LB 1RC");
}

#[test]
fn map_range_inclusive_maps_both_bounds() {
    let mapped = map_range_inclusive(1u8..=3u8, |bound| u32::from(bound) * 2);
    assert_eq!(mapped, 2u32..=6u32);
    let codes = map_range_inclusive(State::B..=State::E, State::to_code);
    assert_eq!(codes.into_inner(), (2, 5));
}

#[test]
fn random_state_stays_in_its_range() {
    for _ in 0..200 {
        let state = State::random(State::B..=State::D);
        assert!(2 <= state.to_code() && state.to_code() <= 4);
    }
    assert_eq!(State::random(State::C..=State::C), State::C);
    assert_eq!(State::random(State::Halt..=State::Halt), State::Halt);
}

#[test]
fn random_state_reaches_every_state_of_its_range() {
    let mut seen = [false; 8];
    for _ in 0..2000 {
        seen[State::random(State::Halt..=State::G).to_code() as usize] = true;
    }
    assert_eq!(seen, [true; 8]);
}

#[test]
fn random_direction_gives_both_directions() {
    let mut left = false;
    let mut right = false;
    for _ in 0..400 {
        match Direction::random() {
            Direction::Left => left = true,
            Direction::Right => right = true,
        }
    }
    assert!(left && right);
}
