//! What it means to run a transition table on the blank tape.
//!
//! A table holds one partial transition per ordinary state; a complete table
//! is the special case in which every slot is set. The functions here are the
//! mathematical reference that the executable machines are proved against.

use crate::tape::TapeView;
use crate::transition::{ActionView, Direction, PartialTransitionView, State, TransitionView};
use vstd::prelude::*;

verus! {

/// A transition table: the partial transition of state `A` first.
pub type Table = Seq<PartialTransitionView>;

/// The state of a machine and its tape at one moment of a run.
pub struct Configuration {
    /// Current state.
    pub state: State,
    /// Current tape.
    pub tape: TapeView,
}

impl Configuration {
    /// Every run starts in state `A` on the blank tape.
    pub open spec fn initial() -> Configuration {
        Configuration { state: State::A, tape: TapeView::blank() }
    }

    /// The configuration after performing `action`: write, move, change state.
    pub open spec fn apply(self, action: ActionView) -> Configuration {
        Configuration {
            state: action.next_state,
            tape: self.tape.write(action.symbol).move_head(action.direction),
        }
    }
}

/// How a run ends.
pub enum Outcome {
    /// The machine reached the halting state; `ones` cells hold a 1.
    Halted { ones: nat },
    /// The step budget ran out before the machine halted.
    Exhausted,
    /// The table has no action for `symbol` in `state`.
    Undefined { state: State, symbol: u8 },
}

/// The table of a complete machine, every slot set.
pub open spec fn lift(transitions: Seq<TransitionView>) -> Table {
    Seq::new(
        transitions.len(),
        |index: int|
            PartialTransitionView {
                on_0: Some(transitions[index].on_0),
                on_1: Some(transitions[index].on_1),
            },
    )
}

/// The complete table that a partial one stands for.
pub open spec fn complete(table: Table) -> Seq<TransitionView> {
    Seq::new(table.len(), |index: int| table[index].complete())
}

/// Whether `state` is one of the ordinary states that the table has a
/// transition for.
pub open spec fn has_state(table: Table, state: State) -> bool {
    1 <= state.code() <= table.len()
}

/// The action that the table gives for `symbol` in `state`, if any.
pub open spec fn lookup(table: Table, state: State, symbol: u8) -> Option<ActionView> {
    if has_state(table, state) {
        table[state.code() - 1].action_of(symbol)
    } else {
        None
    }
}

/// The table with the slot of (`state`, `symbol`) set to `action`.
pub open spec fn with_action(table: Table, state: State, symbol: u8, action: ActionView) -> Table {
    table.update(
        state.code() - 1,
        table[state.code() - 1].with_action(symbol, Some(action)),
    )
}

/// Whether an optional action leads to the halting state or to a state that
/// a table of `size` states has a transition for.
pub open spec fn slot_stays_inside(action: Option<ActionView>, size: nat) -> bool {
    action matches Some(action) ==> action.next_state.code() <= size
}

/// Whether every action of the table leads to the halting state or to a state
/// of the table.
pub open spec fn stays_inside(table: Table) -> bool {
    forall|index: int|
        0 <= index < table.len() ==> slot_stays_inside(#[trigger] table[index].on_0, table.len())
            && slot_stays_inside(table[index].on_1, table.len())
}

/// The outcome of running the table from `config` for at most `steps` steps.
pub open spec fn run_from(table: Table, config: Configuration, steps: nat) -> Outcome
    decreases steps,
{
    if config.state == State::Halt {
        Outcome::Halted { ones: config.tape.count_ones() }
    } else if steps == 0 {
        Outcome::Exhausted
    } else {
        match lookup(table, config.state, config.tape.read()) {
            Some(action) => run_from(table, config.apply(action), (steps - 1) as nat),
            None => Outcome::Undefined { state: config.state, symbol: config.tape.read() },
        }
    }
}

/// The number of actions performed when running the table from `config` for
/// at most `steps` steps.
pub open spec fn steps_from(table: Table, config: Configuration, steps: nat) -> nat
    decreases steps,
{
    if config.state == State::Halt || steps == 0 {
        0
    } else {
        match lookup(table, config.state, config.tape.read()) {
            Some(action) => 1 + steps_from(table, config.apply(action), (steps - 1) as nat),
            None => 0,
        }
    }
}

/// The outcome of running the table on the blank tape.
pub open spec fn run(table: Table, max_steps: nat) -> Outcome {
    run_from(table, Configuration::initial(), max_steps)
}

/// The number of actions performed when running the table on the blank tape.
pub open spec fn steps_taken(table: Table, max_steps: nat) -> nat {
    steps_from(table, Configuration::initial(), max_steps)
}

/// The outcome that the result of a complete machine's run stands for.
pub open spec fn outcome_of_full(result: Option<usize>) -> Outcome {
    match result {
        Some(ones) => Outcome::Halted { ones: ones as nat },
        None => Outcome::Exhausted,
    }
}

/// The outcome that the result of a partial machine's run stands for.
pub open spec fn outcome_of_partial(result: Result<Option<usize>, (State, u8)>) -> Outcome {
    match result {
        Ok(halted) => outcome_of_full(halted),
        Err((state, symbol)) => Outcome::Undefined { state, symbol },
    }
}

/// Whether every state of the table has at least one action set.
pub open spec fn n_state_full(table: Table) -> bool {
    forall|index: int| 0 <= index < table.len() ==> (#[trigger] table[index]).count_specified() >= 1
}

/// Whether the state at `index` moves the head right on reading a 0, once
/// `action` stands in the slot of (`state`, `symbol`).
pub open spec fn right_on_zero(
    table: Table,
    index: int,
    state: State,
    symbol: u8,
    action: ActionView,
) -> bool {
    if index + 1 == state.code() && symbol == 0 {
        action.direction == Direction::Right
    } else {
        table[index].on_0 matches Some(on_0) && on_0.direction == Direction::Right
    }
}

/// Whether every state of the table moves the head right on reading a 0,
/// once `action` stands in the slot of (`state`, `symbol`).
pub open spec fn zero_dextrous_with(
    table: Table,
    state: State,
    symbol: u8,
    action: ActionView,
) -> bool {
    forall|index: int|
        0 <= index < table.len() ==> #[trigger] right_on_zero(table, index, state, symbol, action)
}

/// Number of actions that are set in the table.
pub open spec fn count_specified(table: Table) -> nat
    decreases table.len(),
{
    if table.len() == 0 {
        0
    } else {
        count_specified(table.drop_last()) + table.last().count_specified()
    }
}

/// Code of the highest state of the table that has an action set, 0 if no
/// state has one.
pub open spec fn choice_limit(table: Table) -> nat
    decreases table.len(),
{
    if table.len() == 0 {
        0
    } else if table.last().count_specified() > 0 {
        table.len()
    } else {
        choice_limit(table.drop_last())
    }
}

/// The texts of `parts`, separated by single spaces.
pub open spec fn joined(parts: Seq<Seq<char>>) -> Seq<char>
    decreases parts.len(),
{
    if parts.len() == 0 {
        Seq::empty()
    } else if parts.len() == 1 {
        parts[0]
    } else {
        joined(parts.drop_last()) + seq![' '] + parts.last()
    }
}

/// The text of a complete machine: the texts of its transitions, that of
/// state `A` first, separated by single spaces.
pub open spec fn machine_text(transitions: Seq<TransitionView>) -> Seq<char> {
    joined(Seq::new(transitions.len(), |index: int| transitions[index].text()))
}

/// The text of a table, laid out in the same way.
pub open spec fn table_text(table: Table) -> Seq<char> {
    joined(Seq::new(table.len(), |index: int| table[index].text()))
}

/// A run is a function of the table and the step budget alone: two results
/// that stand for the outcome of the same run are equal.
pub proof fn lemma_run_deterministic(
    table: Table,
    max_steps: nat,
    first: Result<Option<usize>, (State, u8)>,
    second: Result<Option<usize>, (State, u8)>,
)
    requires
        outcome_of_partial(first) == run(table, max_steps),
        outcome_of_partial(second) == run(table, max_steps),
    ensures
        first == second,
{
}

/// The same holds of a complete machine's run.
pub proof fn lemma_full_run_deterministic(
    transitions: Seq<TransitionView>,
    max_steps: nat,
    first: Option<usize>,
    second: Option<usize>,
)
    requires
        outcome_of_full(first) == run(lift(transitions), max_steps),
        outcome_of_full(second) == run(lift(transitions), max_steps),
    ensures
        first == second,
{
}

/// A table that has no action for state `A` on 0 stops every run of at least
/// one step at once, at that slot.
pub proof fn lemma_unset_start_stops_at_once(table: Table, max_steps: nat)
    requires
        max_steps > 0,
        lookup(table, State::A, 0) is None,
    ensures
        run(table, max_steps) == (Outcome::Undefined { state: State::A, symbol: 0 }),
        steps_taken(table, max_steps) == 0,
{
}

/// A table none of whose actions leads to the halting state never halts,
/// whatever the step budget.
pub proof fn lemma_without_halting_action_never_halts(
    table: Table,
    config: Configuration,
    steps: nat,
)
    requires
        config.state != State::Halt,
        forall|state: State, symbol: u8|
            (#[trigger] lookup(table, state, symbol)) matches Some(action)
                ==> action.next_state != State::Halt,
    ensures
        !(run_from(table, config, steps) is Halted),
    decreases steps,
{
    if steps > 0 {
        match lookup(table, config.state, config.tape.read()) {
            Some(action) => {
                lemma_without_halting_action_never_halts(
                    table,
                    config.apply(action),
                    (steps - 1) as nat,
                );
            },
            None => {},
        }
    }
}

/// A run that stops at an undefined transition stops at a slot that the table
/// does not set, in a state that is not the halting state.
pub proof fn lemma_undefined_is_unset(
    table: Table,
    config: Configuration,
    steps: nat,
    state: State,
    symbol: u8,
)
    requires
        run_from(table, config, steps) == (Outcome::Undefined { state, symbol }),
    ensures
        lookup(table, state, symbol) is None,
        state != State::Halt,
        steps_from(table, config, steps) < steps,
    decreases steps,
{
    if config.state != State::Halt && steps > 0 {
        match lookup(table, config.state, config.tape.read()) {
            Some(action) => {
                lemma_undefined_is_unset(
                    table,
                    config.apply(action),
                    (steps - 1) as nat,
                    state,
                    symbol,
                );
            },
            None => {},
        }
    }
}

/// Setting the slot at which a run stopped lets the run go on from `config`
/// through every step it took before and at least one step further.
pub proof fn lemma_added_action_goes_further_from(
    table: Table,
    config: Configuration,
    steps: nat,
    state: State,
    symbol: u8,
    action: ActionView,
)
    requires
        run_from(table, config, steps) == (Outcome::Undefined { state, symbol }),
        has_state(table, state),
    ensures
        steps_from(with_action(table, state, symbol, action), config, steps) > steps_from(
            table,
            config,
            steps,
        ),
    decreases steps,
{
    let extended = with_action(table, state, symbol, action);
    lemma_undefined_is_unset(table, config, steps, state, symbol);
    if config.state != State::Halt && steps > 0 {
        let read = config.tape.read();
        match lookup(table, config.state, read) {
            Some(taken) => {
                assert(lookup(extended, config.state, read) == Some(taken));
                lemma_added_action_goes_further_from(
                    table,
                    config.apply(taken),
                    (steps - 1) as nat,
                    state,
                    symbol,
                    action,
                );
            },
            None => {
                assert(config.state == state && read == symbol);
                assert(lookup(extended, state, symbol) == Some(action));
            },
        }
    }
}

/// Setting the slot that a run on the blank tape reported as undefined lets
/// the next run take every step of the first and at least one more.
pub proof fn lemma_added_action_goes_further(
    table: Table,
    max_steps: nat,
    state: State,
    symbol: u8,
    action: ActionView,
)
    requires
        run(table, max_steps) == (Outcome::Undefined { state, symbol }),
        has_state(table, state),
    ensures
        steps_taken(with_action(table, state, symbol, action), max_steps) > steps_taken(
            table,
            max_steps,
        ),
{
    lemma_added_action_goes_further_from(
        table,
        Configuration::initial(),
        max_steps,
        state,
        symbol,
        action,
    );
}

/// Of a run from `config` that stops at an unset slot after `taken` steps:
/// `taken + 1` is the least budget with which it stops there, and with the
/// slot set the run of that budget does not stop at any unset slot; with any
/// budget it no longer stops at that slot.
pub proof fn lemma_least_failing_budget_from(
    table: Table,
    config: Configuration,
    steps: nat,
    state: State,
    symbol: u8,
    action: ActionView,
)
    requires
        run_from(table, config, steps) == (Outcome::Undefined { state, symbol }),
        has_state(table, state),
    ensures
        ({
            let taken = steps_from(table, config, steps);
            let extended = with_action(table, state, symbol, action);
            &&& taken < steps
            &&& run_from(table, config, taken) == Outcome::Exhausted
            &&& run_from(table, config, taken + 1) == (Outcome::Undefined { state, symbol })
            &&& !(run_from(extended, config, taken + 1) is Undefined)
            &&& steps_from(extended, config, taken + 1) == taken + 1
            &&& run_from(extended, config, steps) != (Outcome::Undefined { state, symbol })
        }),
    decreases steps,
{
    let extended = with_action(table, state, symbol, action);
    lemma_undefined_is_unset(table, config, steps, state, symbol);
    assert(lookup(extended, state, symbol) == Some(action));
    if run_from(extended, config, steps) == (Outcome::Undefined { state, symbol }) {
        lemma_undefined_is_unset(extended, config, steps, state, symbol);
    }
    if config.state != State::Halt && steps > 0 {
        let read = config.tape.read();
        match lookup(table, config.state, read) {
            Some(taken) => {
                assert(lookup(extended, config.state, read) == Some(taken));
                lemma_least_failing_budget_from(
                    table,
                    config.apply(taken),
                    (steps - 1) as nat,
                    state,
                    symbol,
                    action,
                );
            },
            None => {
                assert(config.state == state && read == symbol);
                reveal_with_fuel(run_from, 2);
                reveal_with_fuel(steps_from, 2);
            },
        }
    }
}

/// Of a run on the blank tape that reports an unset slot after `taken`
/// steps: `taken + 1` is the least budget with which it fails, and once the
/// slot is set the run of that budget succeeds, taking one step more; with
/// any budget it no longer fails at that slot.
pub proof fn lemma_least_failing_budget(
    table: Table,
    max_steps: nat,
    state: State,
    symbol: u8,
    action: ActionView,
)
    requires
        run(table, max_steps) == (Outcome::Undefined { state, symbol }),
        has_state(table, state),
    ensures
        ({
            let taken = steps_taken(table, max_steps);
            let extended = with_action(table, state, symbol, action);
            &&& taken < max_steps
            &&& run(table, taken) == Outcome::Exhausted
            &&& run(table, taken + 1) == (Outcome::Undefined { state, symbol })
            &&& !(run(extended, taken + 1) is Undefined)
            &&& steps_taken(extended, taken + 1) == taken + 1
            &&& run(extended, max_steps) != (Outcome::Undefined { state, symbol })
        }),
{
    lemma_least_failing_budget_from(
        table,
        Configuration::initial(),
        max_steps,
        state,
        symbol,
        action,
    );
}

/// The action that the search places to end a machine: write 1, move right,
/// halt.
pub open spec fn closing_action() -> ActionView {
    ActionView::halting(1)
}

/// The table after the first rule of the search: where every state has an
/// action and the closing action would not make the table 0-dextrous, the
/// closing action is placed in the slot of (`state`, `symbol`).
pub open spec fn closes(table: Table, state: State, symbol: u8) -> bool {
    n_state_full(table) && !zero_dextrous_with(table, state, symbol, closing_action())
}

/// The table after a candidate action was offered for the slot of (`state`,
/// `symbol`): the candidate is placed unless it would make the table
/// 0-dextrous.
pub open spec fn offered(table: Table, state: State, symbol: u8, action: ActionView) -> Table {
    if zero_dextrous_with(table, state, symbol, action) {
        table
    } else {
        with_action(table, state, symbol, action)
    }
}

/// A transition with exactly one slot set gets the closing action in the
/// other; any other transition stays as it is.
pub open spec fn fill_single(transition: PartialTransitionView) -> PartialTransitionView {
    if transition.count_specified() == 1 {
        if transition.on_0 is None {
            transition.with_action(0, Some(closing_action()))
        } else {
            transition.with_action(1, Some(closing_action()))
        }
    } else {
        transition
    }
}

/// The table with every half-set transition filled.
pub open spec fn fill_singles(table: Table) -> Table {
    Seq::new(table.len(), |index: int| fill_single(table[index]))
}

/// Whether a table has all its slots set but one.
pub open spec fn one_slot_left(table: Table) -> bool {
    count_specified(table) == 2 * table.len() - 1
}

/// The table after the second rule of the search: the candidate is offered,
/// and if all slots but one are set then, the last one is filled too.
pub open spec fn extended(table: Table, state: State, symbol: u8, action: ActionView) -> Table {
    let next = offered(table, state, symbol, action);
    if one_slot_left(next) {
        fill_singles(next)
    } else {
        next
    }
}

/// How often in a row the search may drop a candidate before it gives up
/// and hands out the machine as it stands. A candidate for a slot on 0 is
/// dropped only for moving right, so with a fair generator the limit is out
/// of reach in practice; it is there so that the search is sure to end.
pub const REDRAW_LIMIT: usize = 128;

/// The direction that a drawn number stands for.
pub open spec fn drawn_direction(number: u8) -> Direction {
    if number == 1 {
        Direction::Right
    } else {
        Direction::Left
    }
}

/// The state that a drawn number stands for.
pub open spec fn drawn_state(number: u8) -> State {
    match State::of_code(number) {
        Some(state) => state,
        None => State::Halt,
    }
}

/// The candidate action that the next three drawn numbers stand for: the
/// symbol, then the direction, then the state.
pub open spec fn drawn_action(numbers: Seq<u8>) -> ActionView {
    ActionView {
        symbol: numbers[0],
        direction: drawn_direction(numbers[1]),
        next_state: drawn_state(numbers[2]),
    }
}

/// The table of `size` states in which only state `A` on 0 is set: write 1,
/// move right, go to `B`.
pub open spec fn first_table(size: nat) -> Table {
    Seq::new(
        size,
        |index: int|
            if index == 0 {
                PartialTransitionView {
                    on_0: Some(
                        ActionView {
                            symbol: 1,
                            direction: Direction::Right,
                            next_state: State::B,
                        },
                    ),
                    on_1: None,
                }
            } else {
                PartialTransitionView::empty()
            },
    )
}

/// How many numbers the search draws before its first run: symbol and
/// direction of state `B` on 0, and its next state in a machine of two
/// states.
pub open spec fn seed_numbers(size: nat) -> nat {
    if size >= 3 {
        2
    } else {
        3
    }
}

/// The table that the search first runs: state `A` on 0 as in `first_table`,
/// and state `B` on 0 as drawn, going to `C` where the machine has one.
pub open spec fn seed_table(size: nat, numbers: Seq<u8>) -> Table {
    with_action(
        first_table(size),
        State::B,
        0,
        ActionView {
            symbol: numbers[0],
            direction: drawn_direction(numbers[1]),
            next_state: if size >= 3 {
                State::C
            } else {
                drawn_state(numbers[2])
            },
        },
    )
}

/// The table that the search ends with when it starts from `table`, has
/// dropped `dropped` candidates in a row, and draws `numbers`, three per
/// candidate. The table is run; unless the run stops at an unset slot, the
/// search is over. Else the first rule may close the machine. Else the next
/// candidate is offered: the search is over if that leaves one slot, which
/// is filled, or if the candidate is the last of `REDRAW_LIMIT` to be dropped
/// in a row; otherwise it goes on.
pub open spec fn search_from(table: Table, max_steps: nat, numbers: Seq<u8>, dropped: nat) -> Table
    decreases numbers.len(),
{
    match run(table, max_steps) {
        Outcome::Undefined { state, symbol } => {
            if closes(table, state, symbol) {
                with_action(table, state, symbol, closing_action())
            } else if numbers.len() < 3 {
                table
            } else {
                let action = drawn_action(numbers);
                if one_slot_left(offered(table, state, symbol, action)) {
                    extended(table, state, symbol, action)
                } else if !zero_dextrous_with(table, state, symbol, action) {
                    search_from(
                        with_action(table, state, symbol, action),
                        max_steps,
                        numbers.skip(3),
                        0,
                    )
                } else if dropped + 1 == REDRAW_LIMIT {
                    table
                } else {
                    search_from(table, max_steps, numbers.skip(3), dropped + 1)
                }
            }
        },
        _ => table,
    }
}

/// Whether the search of `search_from` comes to a point where it needs a
/// candidate and fewer than three numbers are left: the numbers were not
/// enough, and the table that `search_from` gives is not what a search ends
/// with.
pub open spec fn runs_dry(table: Table, max_steps: nat, numbers: Seq<u8>, dropped: nat) -> bool
    decreases numbers.len(),
{
    match run(table, max_steps) {
        Outcome::Undefined { state, symbol } => {
            if closes(table, state, symbol) {
                false
            } else if numbers.len() < 3 {
                true
            } else {
                let action = drawn_action(numbers);
                if one_slot_left(offered(table, state, symbol, action)) {
                    false
                } else if !zero_dextrous_with(table, state, symbol, action) {
                    runs_dry(
                        with_action(table, state, symbol, action),
                        max_steps,
                        numbers.skip(3),
                        0,
                    )
                } else if dropped + 1 == REDRAW_LIMIT {
                    false
                } else {
                    runs_dry(table, max_steps, numbers.skip(3), dropped + 1)
                }
            }
        },
        _ => false,
    }
}

/// How many of `numbers` the search of `search_from` uses: three for each
/// candidate that it offers.
pub open spec fn numbers_used(table: Table, max_steps: nat, numbers: Seq<u8>, dropped: nat) -> nat
    decreases numbers.len(),
{
    match run(table, max_steps) {
        Outcome::Undefined { state, symbol } => {
            if closes(table, state, symbol) || numbers.len() < 3 {
                0
            } else {
                let action = drawn_action(numbers);
                if one_slot_left(offered(table, state, symbol, action)) {
                    3
                } else if !zero_dextrous_with(table, state, symbol, action) {
                    3 + numbers_used(
                        with_action(table, state, symbol, action),
                        max_steps,
                        numbers.skip(3),
                        0,
                    )
                } else if dropped + 1 == REDRAW_LIMIT {
                    3
                } else {
                    3 + numbers_used(table, max_steps, numbers.skip(3), dropped + 1)
                }
            }
        },
        _ => 0,
    }
}

/// Whether the first three of `numbers` are a candidate that the search may
/// draw for `table`: a symbol 0 or 1, the code of a direction, and the code
/// of a state from `A` to the highest state of the table that has an
/// action.
pub open spec fn candidate_fits(table: Table, numbers: Seq<u8>) -> bool {
    &&& numbers[0] <= 1
    &&& numbers[1] <= 1
    &&& 1 <= numbers[2] <= choice_limit(table)
}

/// Whether every candidate that the search of `search_from` offers is one
/// that it may draw for the table it is offered to.
pub open spec fn candidates_fit(
    table: Table,
    max_steps: nat,
    numbers: Seq<u8>,
    dropped: nat,
) -> bool
    decreases numbers.len(),
{
    match run(table, max_steps) {
        Outcome::Undefined { state, symbol } => {
            if closes(table, state, symbol) || numbers.len() < 3 {
                true
            } else {
                let action = drawn_action(numbers);
                candidate_fits(table, numbers) && if one_slot_left(
                    offered(table, state, symbol, action),
                ) {
                    true
                } else if !zero_dextrous_with(table, state, symbol, action) {
                    candidates_fit(
                        with_action(table, state, symbol, action),
                        max_steps,
                        numbers.skip(3),
                        0,
                    )
                } else if dropped + 1 == REDRAW_LIMIT {
                    true
                } else {
                    candidates_fit(table, max_steps, numbers.skip(3), dropped + 1)
                }
            }
        },
        _ => true,
    }
}

/// Whether `numbers` begin with what the search draws before its first run:
/// a symbol 0 or 1, the code of a direction and, in a machine of two states,
/// the code of `A` or `B`.
pub open spec fn seed_fits(size: nat, numbers: Seq<u8>) -> bool {
    &&& numbers.len() >= seed_numbers(size)
    &&& numbers[0] <= 1
    &&& numbers[1] <= 1
    &&& size < 3 ==> 1 <= numbers[2] <= 2
}

/// Whether `machine` is what a search of `size` states builds that draws
/// `numbers`, all of them and no more: the numbers it draws before the first
/// run and for each candidate are ones that it may draw, it never lacks a
/// number, and it is over when the last number is used.
pub open spec fn searched(
    size: nat,
    max_steps: nat,
    numbers: Seq<u8>,
    machine: Seq<TransitionView>,
) -> bool {
    let first = seed_table(size, numbers);
    let rest = numbers.skip(seed_numbers(size) as int);
    &&& seed_fits(size, numbers)
    &&& candidates_fit(first, max_steps, rest, 0)
    &&& !runs_dry(first, max_steps, rest, 0)
    &&& numbers.len() == seed_numbers(size) + numbers_used(first, max_steps, rest, 0)
    &&& machine == search(size, max_steps, numbers)
}

/// Whether an optional action, where it is set, writes 0 or 1.
pub open spec fn slot_writes_binary(action: Option<ActionView>) -> bool {
    action matches Some(action) ==> action.symbol <= 1
}

/// Whether every action that is set in the table writes 0 or 1.
pub open spec fn table_writes_binary(table: Table) -> bool {
    forall|index: int|
        0 <= index < table.len() ==> slot_writes_binary((#[trigger] table[index]).on_0)
            && slot_writes_binary(table[index].on_1)
}

/// Whether every action of the machine writes 0 or 1.
pub open spec fn writes_binary(transitions: Seq<TransitionView>) -> bool {
    forall|index: int|
        0 <= index < transitions.len() ==> (#[trigger] transitions[index]).on_0.symbol <= 1
            && transitions[index].on_1.symbol <= 1
}

/// The machine of `size` states that the search builds when it draws
/// `numbers`.
pub open spec fn search(size: nat, max_steps: nat, numbers: Seq<u8>) -> Seq<TransitionView> {
    complete(
        search_from(
            seed_table(size, numbers),
            max_steps,
            numbers.skip(seed_numbers(size) as int),
            0,
        ),
    )
}

/// What the search establishes of its table before the first run and keeps
/// through every step: the table is runnable, state `A` on 0 writes 1, moves
/// right and goes to `B`, state `B` on 0 goes to `C` (to `A` or `B` in a
/// machine of two states), and no state beyond `G` has an action.
pub open spec fn seeded(table: Table) -> bool {
    &&& table.len() >= 2
    &&& stays_inside(table)
    &&& table[0].on_0 == Some(
        ActionView { symbol: 1, direction: Direction::Right, next_state: State::B },
    )
    &&& table[1].on_0 matches Some(second) && if table.len() >= 3 {
        second.next_state == State::C
    } else {
        second.next_state == State::A || second.next_state == State::B
    }
    &&& forall|index: int|
        7 <= index < table.len() ==> (#[trigger] table[index]).count_specified() == 0
}

/// The same of the complete machine that the search hands out; its states
/// beyond `G` halt at once.
pub open spec fn seeded_machine(transitions: Seq<TransitionView>) -> bool {
    &&& transitions.len() >= 2
    &&& stays_inside(lift(transitions))
    &&& transitions[0].on_0 == (ActionView {
        symbol: 1,
        direction: Direction::Right,
        next_state: State::B,
    })
    &&& if transitions.len() >= 3 {
        transitions[1].on_0.next_state == State::C
    } else {
        transitions[1].on_0.next_state == State::A || transitions[1].on_0.next_state == State::B
    }
    &&& forall|index: int|
        7 <= index < transitions.len() ==> #[trigger] transitions[index]
            == PartialTransitionView::empty().complete()
}

/// Whether every slot of the table is set.
pub open spec fn no_gaps(table: Table) -> bool {
    forall|state: State, symbol: u8|
        has_state(table, state) ==> (#[trigger] lookup(table, state, symbol)) is Some
}

/// Replacing one transition changes the number of set actions by the
/// difference between the two transitions.
pub proof fn lemma_count_update(table: Table, index: int, transition: PartialTransitionView)
    requires
        0 <= index < table.len(),
    ensures
        count_specified(table.update(index, transition)) + table[index].count_specified()
            == count_specified(table) + transition.count_specified(),
    decreases table.len(),
{
    let updated = table.update(index, transition);
    if index == table.len() - 1 {
        assert(updated.drop_last() =~= table.drop_last());
    } else {
        assert(updated.drop_last() =~= table.drop_last().update(index, transition));
        lemma_count_update(table.drop_last(), index, transition);
    }
}

/// A table has at most two actions per state.
pub proof fn lemma_count_bound(table: Table)
    ensures
        count_specified(table) <= 2 * table.len(),
    decreases table.len(),
{
    if table.len() > 0 {
        lemma_count_bound(table.drop_last());
    }
}

/// The first transitions of a table hold no more set actions than the table.
pub proof fn lemma_count_prefix(table: Table, len: int)
    requires
        0 <= len <= table.len(),
    ensures
        count_specified(table.take(len)) <= count_specified(table),
    decreases table.len(),
{
    if len == table.len() {
        assert(table.take(len) =~= table);
    } else {
        assert(table.take(len) =~= table.drop_last().take(len));
        lemma_count_prefix(table.drop_last(), len);
    }
}

/// Setting a slot that was not set adds one to the number of set actions.
pub proof fn lemma_count_with_action(table: Table, state: State, symbol: u8, action: ActionView)
    requires
        has_state(table, state),
        symbol < 2,
        lookup(table, state, symbol) is None,
    ensures
        count_specified(with_action(table, state, symbol, action)) == count_specified(table) + 1,
{
    let index = state.code() - 1;
    lemma_count_update(table, index, table[index].with_action(symbol, Some(action)));
}

/// The choice limit is the code of a state of the table, not below any
/// state that has an action, and not above `bound` where no state from
/// `bound` on has one.
pub proof fn lemma_choice_limit_bounds(table: Table, bound: int)
    requires
        0 <= bound,
        forall|index: int|
            bound <= index < table.len() ==> (#[trigger] table[index]).count_specified() == 0,
    ensures
        choice_limit(table) <= table.len(),
        choice_limit(table) <= bound,
        forall|index: int|
            0 <= index < table.len() && (#[trigger] table[index]).count_specified() > 0
                ==> choice_limit(table) >= index + 1,
    decreases table.len(),
{
    if table.len() > 0 {
        let shorter = table.drop_last();
        assert forall|index: int| bound <= index < shorter.len() implies (#[trigger] shorter[index]).count_specified() == 0 by {
            assert(shorter[index] == table[index]);
        }
        lemma_choice_limit_bounds(shorter, bound);
        assert forall|index: int|
            0 <= index < table.len() && (#[trigger] table[index]).count_specified() > 0 implies choice_limit(table) >= index + 1 by {
            if index < table.len() - 1 {
                assert(shorter[index] == table[index]);
            }
        }
        if table.last().count_specified() > 0 {
            assert(table[table.len() - 1].count_specified() > 0);
        }
    }
}

/// Setting an unset slot of an ordinary state to an action that leads to a
/// state of the table keeps what the search has established.
pub proof fn lemma_with_action_seeded(table: Table, state: State, symbol: u8, action: ActionView)
    requires
        seeded(table),
        has_state(table, state),
        symbol < 2,
        lookup(table, state, symbol) is None,
        action.next_state.code() <= table.len(),
    ensures
        seeded(with_action(table, state, symbol, action)),
{
    let next = with_action(table, state, symbol, action);
    let at = state.code() - 1;
    state.lemma_code_round_trip(0);
    assert forall|index: int| 0 <= index < next.len() implies slot_stays_inside(
        #[trigger] next[index].on_0,
        next.len(),
    ) && slot_stays_inside(next[index].on_1, next.len()) by {
        assert(slot_stays_inside(table[index].on_0, table.len()));
    }
    assert forall|index: int| 7 <= index < next.len() implies (#[trigger] next[index]).count_specified() == 0 by {
        assert(table[index].count_specified() == 0);
    }
}

/// Filling the half-set transitions keeps what the search has established.
pub proof fn lemma_fill_singles_seeded(table: Table)
    requires
        seeded(table),
    ensures
        seeded(fill_singles(table)),
{
    let next = fill_singles(table);
    assert forall|index: int| 0 <= index < next.len() implies slot_stays_inside(
        #[trigger] next[index].on_0,
        next.len(),
    ) && slot_stays_inside(next[index].on_1, next.len()) by {
        assert(slot_stays_inside(table[index].on_0, table.len()));
    }
    assert forall|index: int| 7 <= index < next.len() implies (#[trigger] next[index]).count_specified() == 0 by {
        assert(table[index].count_specified() == 0);
    }
}

/// The table of a complete machine has no gaps; so has, in particular, the
/// table of the machine that a partial table is completed to.
pub proof fn lemma_complete_has_no_gaps(transitions: Seq<TransitionView>, table: Table)
    ensures
        no_gaps(lift(transitions)),
        no_gaps(lift(complete(table))),
        complete(table).len() == table.len(),
{
}

/// Completing a table changes no slot that is set.
pub proof fn lemma_complete_keeps_actions(table: Table, state: State, symbol: u8)
    requires
        lookup(table, state, symbol) is Some,
    ensures
        lookup(lift(complete(table)), state, symbol) == lookup(table, state, symbol),
{
}

/// A run that meets no unset slot goes the same way on the completed table.
pub proof fn lemma_complete_runs_alike(table: Table, config: Configuration, steps: nat)
    requires
        !(run_from(table, config, steps) is Undefined),
    ensures
        run_from(lift(complete(table)), config, steps) == run_from(table, config, steps),
        steps_from(lift(complete(table)), config, steps) == steps_from(table, config, steps),
    decreases steps,
{
    if config.state != State::Halt && steps > 0 {
        let read = config.tape.read();
        match lookup(table, config.state, read) {
            Some(action) => {
                lemma_complete_keeps_actions(table, config.state, read);
                lemma_complete_runs_alike(table, config.apply(action), (steps - 1) as nat);
            },
            None => {},
        }
    }
}

/// Completing a table that the search has seeded gives a machine that can be
/// run and that starts as the search made it start.
pub proof fn lemma_complete_seeded(table: Table)
    requires
        seeded(table),
    ensures
        seeded_machine(complete(table)),
{
    let machine = lift(complete(table));
    assert forall|index: int| 0 <= index < machine.len() implies slot_stays_inside(
        #[trigger] machine[index].on_0,
        machine.len(),
    ) && slot_stays_inside(machine[index].on_1, machine.len()) by {
        assert(slot_stays_inside(table[index].on_0, table.len()));
    }
    assert forall|index: int| 7 <= index < table.len() implies #[trigger] complete(table)[index]
        == PartialTransitionView::empty().complete() by {
        assert(table[index].count_specified() == 0);
    }
}

} // verus!
