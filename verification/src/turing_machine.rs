//! Complete and partial Turing machines with `N` non-halting states, and the
//! executor that runs them on the blank tape.

use crate::random::{RandomSource, ThreadRandom};
use crate::semantics::{
    candidate_fits, candidates_fit, choice_limit, closes, closing_action, complete,
    count_specified, drawn_action, extended, fill_single, first_table, joined,
    lemma_choice_limit_bounds, lemma_complete_has_no_gaps, lemma_complete_seeded,
    lemma_count_bound, lemma_count_prefix, lemma_count_with_action, lemma_fill_singles_seeded,
    lemma_undefined_is_unset, lemma_with_action_seeded, lift, lookup, machine_text, n_state_full,
    no_gaps, numbers_used, offered, one_slot_left, outcome_of_full, outcome_of_partial,
    right_on_zero, run, run_from, runs_dry, search, search_from, searched, seed_fits, seed_numbers,
    seed_table, seeded, seeded_machine, slot_stays_inside, slot_writes_binary, stays_inside,
    steps_taken, table_text, table_writes_binary, with_action, writes_binary, zero_dextrous_with,
    Configuration, Table, REDRAW_LIMIT,
};
use crate::tape::Tape;
use crate::transition::{
    Action, ActionView, Direction, PartialTransition, State, Transition, TransitionView,
};
use std::ops::RangeInclusive;
use vstd::prelude::*;
use vstd::std_specs::convert::FromSpecImpl;

verus! {

/// A binary-alphabet Turing Machine with N non-halting states.
#[derive(Debug)]
pub struct TuringMachine<const N: usize> {
    transitions: [Transition; N],
}

impl<const N: usize> View for TuringMachine<N> {
    type V = Seq<TransitionView>;

    closed spec fn view(&self) -> Seq<TransitionView> {
        Seq::new(N as nat, |index: int| self.transitions@[index]@)
    }
}

impl<const N: usize> TuringMachine<N> {
    /// A machine has at least two non-halting states.
    #[verifier::type_invariant]
    closed spec fn sized(self) -> bool {
        N >= 2
    }

    /// A machine has one transition per non-halting state.
    pub proof fn lemma_view_len(&self)
        ensures
            self@.len() == N,
    {
    }

    /// Every action of a machine writes 0 or 1.
    pub proof fn lemma_writes_binary(&self)
        ensures
            writes_binary(self@),
    {
        assert forall|index: int| 0 <= index < self@.len() implies (#[trigger] self@[index]).on_0.symbol
            <= 1 && self@[index].on_1.symbol <= 1 by {
            self.transitions@[index].lemma_symbols_are_binary();
        }
    }

    /// The table that the machine runs.
    pub open spec fn table(&self) -> Table {
        lift(self@)
    }

    /// Creates a new binary-alphabet Turing Machine with the given transitions.
    pub fn new(transitions: [Transition; N]) -> (machine: Self)
        requires
            N >= 2,
        ensures
            machine@ == Seq::new(N as nat, |index: int| transitions@[index]@),
    {
        Self { transitions }
    }

    /// Checks that every action leads to the halting state or to one of the
    /// machine's `N` states, which is what a run relies on.
    pub fn stays_inside(&self) -> (inside: bool)
        ensures
            inside == stays_inside(self.table()),
    {
        let mut index: usize = 0;
        while index < N
            invariant
                index <= N,
                forall|earlier: int|
                    0 <= earlier < index ==> slot_stays_inside(
                        #[trigger] self.table()[earlier].on_0,
                        N as nat,
                    ) && slot_stays_inside(self.table()[earlier].on_1, N as nat),
            decreases N - index,
        {
            let (_, _, on_0) = self.transitions[index].get_action_of(0);
            let (_, _, on_1) = self.transitions[index].get_action_of(1);
            if on_0.to_code() as usize > N || on_1.to_code() as usize > N {
                assert(!(slot_stays_inside(self.table()[index as int].on_0, N as nat)
                    && slot_stays_inside(self.table()[index as int].on_1, N as nat)));
                return false;
            }
            index += 1;
        }
        true
    }

    /// Runs the turing machine on the blank input for a maximum number of steps.
    /// Returns `Some(productivity)` if the machine did halt and `None` otherwise.
    pub fn run(&self, max_steps: usize) -> (productivity: Option<usize>)
        requires
            stays_inside(self.table()),
        ensures
            outcome_of_full(productivity) == run(self.table(), max_steps as nat),
    {
        proof {
            use_type_invariant(self);
        }
        let mut current_state = State::start();
        let mut tape = Tape::new();
        let mut i: usize = 0;
        while !current_state.is_halting() && i < max_steps
            invariant
                tape.wf(),
                stays_inside(self.table()),
                    i <= max_steps,
                current_state.code() <= N,
                tape@.ones.finite(),
                tape@.ones.len() <= i,
                run(self.table(), max_steps as nat) == run_from(
                    self.table(),
                    Configuration { state: current_state, tape: tape@ },
                    (max_steps - i) as nat,
                ),
            decreases max_steps - i,
        {
            let index = current_state.to_code() as usize - 1;
            let read = tape.read();
            let (symbol, direction, new_state) = self.transitions[index].get_action_of(read);
            proof {
                let taken = self@[index as int].action_of(read);
                assert(lookup(self.table(), current_state, read) == Some(taken));
            }
            tape.write(symbol);
            tape.move_head(direction);
            proof {
                tape.lemma_wf_view();
            }
            current_state = new_state;
            i += 1;
        }
        if current_state.is_halting() {
            Some(tape.count_ones())
        } else {
            None
        }
    }

    /// Renders the machine as the texts of its transitions, separated by
    /// spaces.
    pub fn to_string(&self) -> (text: String)
        ensures
            text@ == machine_text(self@),
    {
        proof {
            use_type_invariant(self);
            reveal_strlit(" ");
        }
        let ghost parts = Seq::new(N as nat, |index: int| self@[index].text());
        let mut text = self.transitions[0].to_string();
        assert(parts.take(1) =~= seq![self@[0].text()]);
        let mut index: usize = 1;
        while index < N
            invariant
                1 <= index <= N,
                parts == Seq::new(N as nat, |index: int| self@[index].text()),
                text@ == joined(parts.take(index as int)),
            decreases N - index,
        {
            let ghost shorter = text@;
            text.append(" ");
            let next = self.transitions[index].to_string();
            text.append(next.as_str());
            proof {
                reveal_strlit(" ");
                let longer = parts.take(index + 1);
                assert(longer.drop_last() =~= parts.take(index as int));
                assert(longer.last() == self@[index as int].text());
                assert(text@ =~= shorter + seq![' '] + longer.last());
            }
            index += 1;
        }
        assert(parts.take(N as int) =~= parts);
        text
    }
}

/// A binary-alphabet partial Turing Machine with N non-halting states
#[derive(Debug)]
pub struct PartialTuringMachine<const N: usize> {
    transitions: [PartialTransition; N],
}

impl<const N: usize> View for PartialTuringMachine<N> {
    type V = Table;

    closed spec fn view(&self) -> Table {
        Seq::new(N as nat, |index: int| self.transitions@[index]@)
    }
}

impl<const N: usize> PartialTuringMachine<N> {
    /// A machine has at least two non-halting states.
    #[verifier::type_invariant]
    closed spec fn sized(self) -> bool {
        N >= 2
    }

    /// A machine has one partial transition per non-halting state.
    pub proof fn lemma_view_len(&self)
        ensures
            self@.len() == N,
    {
    }

    /// Every action that is set in a machine writes 0 or 1.
    pub proof fn lemma_writes_binary(&self)
        ensures
            table_writes_binary(self@),
    {
        assert forall|index: int| 0 <= index < self@.len() implies slot_writes_binary(
            (#[trigger] self@[index]).on_0,
        ) && slot_writes_binary(self@[index].on_1) by {
            self.transitions@[index].lemma_symbols_are_binary();
        }
    }

    /// Creates a new partial Turing Machine
    pub fn new(transitions: [PartialTransition; N]) -> (machine: Self)
        requires
            N >= 2,
        ensures
            machine@ == Seq::new(N as nat, |index: int| transitions@[index]@),
    {
        Self { transitions }
    }

    /// Adds the given transition to the `PartialTuringMachine`
    pub fn add_transition(&mut self, state: State, symbol: u8, action: Action)
        requires
            1 <= state.code() <= N,
            symbol < 2,
        ensures
            final(self)@ == with_action(old(self)@, state, symbol, action@),
    {
        proof {
            use_type_invariant(&*self);
        }
        let index = state.to_code() as usize - 1;
        let mut transition = self.transitions[index];
        transition.set_action_of(symbol, Some(action));
        self.transitions[index] = transition;
        assert(self@ =~= with_action(old(self)@, state, symbol, action@));
    }

    /// Checks if the machine is N-state full
    pub fn is_n_state_full(&self) -> (full: bool)
        ensures
            full == n_state_full(self@),
    {
        let mut index: usize = 0;
        while index < N
            invariant
                index <= N,
                forall|earlier: int|
                    0 <= earlier < index ==> (#[trigger] self@[earlier]).count_specified() >= 1,
            decreases N - index,
        {
            if self.transitions[index].count_specified_actions() == 0 {
                assert(self@[index as int].count_specified() == 0);
                return false;
            }
            index += 1;
        }
        true
    }

    /// Checks if the machine contains `N` transitions that moves the head to
    /// the right when a zero is read with the given transition
    pub fn is_0_dextrous_with(&self, state: State, symbol: u8, action: Action) -> (dextrous: bool)
        ensures
            dextrous == zero_dextrous_with(self@, state, symbol, action@),
    {
        let code = state.to_code() as usize;
        let mut index: usize = 0;
        while index < N
            invariant
                index <= N,
                code == state.code(),
                forall|earlier: int|
                    0 <= earlier < index ==> #[trigger] right_on_zero(
                        self@,
                        earlier,
                        state,
                        symbol,
                        action@,
                    ),
            decreases N - index,
        {
            let right = if index + 1 == code && symbol == 0 {
                match action.get_direction() {
                    Direction::Right => true,
                    Direction::Left => false,
                }
            } else {
                match self.transitions[index].get_action_of(0) {
                    Some((_, Direction::Right, _)) => true,
                    _ => false,
                }
            };
            assert(right == right_on_zero(self@, index as int, state, symbol, action@));
            if !right {
                return false;
            }
            index += 1;
        }
        true
    }

    /// Counts the number of specified transitions of the machine. The count
    /// must fit in `usize`.
    pub fn count_specified_transitions(&self) -> (count: usize)
        requires
            count_specified(self@) <= usize::MAX,
        ensures
            count == count_specified(self@),
    {
        let mut count: usize = 0;
        let mut index: usize = 0;
        while index < N
            invariant
                count_specified(self@) <= usize::MAX,
                self@.len() == N,
                index <= N,
                count == count_specified(self@.take(index as int)),
            decreases N - index,
        {
            proof {
                assert(self@.take(index + 1).drop_last() =~= self@.take(index as int));
                lemma_count_prefix(self@, index + 1);
            }
            count += self.transitions[index].count_specified_actions();
            index += 1;
        }
        assert(self@.take(N as int) =~= self@);
        count
    }

    /// Checks if all slots of the machine but one are specified.
    pub fn has_one_slot_left(&self) -> (left: bool)
        ensures
            left == one_slot_left(self@),
    {
        let mut count: u128 = 0;
        let mut index: usize = 0;
        while index < N
            invariant
                index <= N,
                count == count_specified(self@.take(index as int)),
                count <= 2 * index,
            decreases N - index,
        {
            assert(self@.take(index + 1).drop_last() =~= self@.take(index as int));
            count += self.transitions[index].count_specified_actions() as u128;
            index += 1;
        }
        assert(self@.take(N as int) =~= self@);
        count + 1 == 2 * (N as u128)
    }

    /// Gets the highest state that has a transition specified, or the halting
    /// state if none has.
    pub fn state_choice_limit(&self) -> (limit: State)
        requires
            choice_limit(self@) <= 7,
        ensures
            limit.code() == choice_limit(self@),
    {
        let mut s: usize = N;
        assert(self@.take(N as int) =~= self@);
        while s > 0 && self.transitions[s - 1].count_specified_actions() == 0
            invariant
                s <= N,
                choice_limit(self@) == choice_limit(self@.take(s as int)),
            decreases s,
        {
            assert(self@.take(s as int).drop_last() =~= self@.take(s - 1));
            s -= 1;
        }
        assert(choice_limit(self@) == s) by {
            if s > 0 {
                assert(self@.take(s as int).last() == self@[s - 1]);
            }
        }
        match State::from_code(s as u8) {
            Some(limit) => limit,
            None => {
                assert(false);
                State::Halt
            },
        }
    }

    /// Checks that every action that is set leads to the halting state or to
    /// one of the machine's `N` states, which is what a run relies on.
    pub fn stays_inside(&self) -> (inside: bool)
        ensures
            inside == stays_inside(self@),
    {
        let mut index: usize = 0;
        while index < N
            invariant
                index <= N,
                forall|earlier: int|
                    0 <= earlier < index ==> slot_stays_inside(
                        #[trigger] self@[earlier].on_0,
                        N as nat,
                    ) && slot_stays_inside(self@[earlier].on_1, N as nat),
            decreases N - index,
        {
            let on_0 = match self.transitions[index].get_action_of(0) {
                Some((_, _, next_state)) => next_state.to_code() as usize <= N,
                None => true,
            };
            let on_1 = match self.transitions[index].get_action_of(1) {
                Some((_, _, next_state)) => next_state.to_code() as usize <= N,
                None => true,
            };
            if !on_0 || !on_1 {
                assert(!(slot_stays_inside(self@[index as int].on_0, N as nat)
                    && slot_stays_inside(self@[index as int].on_1, N as nat)));
                return false;
            }
            index += 1;
        }
        true
    }

    /// Runs the `PartialTuringMachine` on a blank tape
    pub fn run(&self, max_steps: usize) -> (outcome: Result<Option<usize>, (State, u8)>)
        requires
            stays_inside(self@),
        ensures
            outcome_of_partial(outcome) == run(self@, max_steps as nat),
            outcome matches Err((state, symbol)) ==> 1 <= state.code() <= N && symbol < 2 && lookup(
                self@,
                state,
                symbol,
            ) is None,
            outcome is Err ==> steps_taken(self@, max_steps as nat) < max_steps,
    {
        proof {
            use_type_invariant(self);
        }
        let mut current_state = State::start();
        let mut tape = Tape::new();
        let mut i: usize = 0;
        while !current_state.is_halting() && i < max_steps
            invariant
                tape.wf(),
                stays_inside(self@),
                    i <= max_steps,
                current_state.code() <= N,
                tape@.ones.finite(),
                tape@.ones.len() <= i,
                run(self@, max_steps as nat) == run_from(
                    self@,
                    Configuration { state: current_state, tape: tape@ },
                    (max_steps - i) as nat,
                ),
            decreases max_steps - i,
        {
            let index = current_state.to_code() as usize - 1;
            let read = tape.read();
            match self.transitions[index].get_action_of(read) {
                Some((symbol, direction, new_state)) => {
                    tape.write(symbol);
                    tape.move_head(direction);
                    proof {
                        tape.lemma_wf_view();
                    }
                    current_state = new_state;
                    i += 1;
                },
                None => {
                    proof {
                        lemma_undefined_is_unset(
                            self@,
                            Configuration::initial(),
                            max_steps as nat,
                            current_state,
                            read,
                        );
                    }
                    return Err((current_state, read));
                },
            }
        }
        if current_state.is_halting() {
            Ok(Some(tape.count_ones()))
        } else {
            Ok(None)
        }
    }

    /// Renders the machine as the texts of its transitions, separated by
    /// spaces.
    pub fn to_string(&self) -> (text: String)
        ensures
            text@ == table_text(self@),
    {
        proof {
            use_type_invariant(self);
            reveal_strlit(" ");
        }
        let ghost parts = Seq::new(N as nat, |index: int| self@[index].text());
        let mut text = self.transitions[0].to_string();
        assert(parts.take(1) =~= seq![self@[0].text()]);
        let mut index: usize = 1;
        while index < N
            invariant
                1 <= index <= N,
                parts == Seq::new(N as nat, |index: int| self@[index].text()),
                text@ == joined(parts.take(index as int)),
            decreases N - index,
        {
            let ghost shorter = text@;
            text.append(" ");
            let next = self.transitions[index].to_string();
            text.append(next.as_str());
            proof {
                reveal_strlit(" ");
                let longer = parts.take(index + 1);
                assert(longer.drop_last() =~= parts.take(index as int));
                assert(longer.last() == self@[index as int].text());
                assert(text@ =~= shorter + seq![' '] + longer.last());
            }
            index += 1;
        }
        assert(parts.take(N as int) =~= parts);
        text
    }

    /// First rule of the search, for a run that stopped at the unset slot of
    /// (`state`, `symbol`): if every state has an action and the closing
    /// action would not make the machine 0-dextrous, the closing action is
    /// placed there and the search is over.
    pub fn close_with_halt(&mut self, state: State, symbol: u8) -> (closed: bool)
        requires
            1 <= state.code() <= N,
            symbol < 2,
        ensures
            closed == closes(old(self)@, state, symbol),
            final(self)@ == if closed {
                with_action(old(self)@, state, symbol, closing_action())
            } else {
                old(self)@
            },
    {
        let halting_action = Action::new(1, Direction::Right, State::Halt);
        if self.is_n_state_full() && !self.is_0_dextrous_with(state, symbol, halting_action) {
            self.add_transition(state, symbol, halting_action);
            true
        } else {
            false
        }
    }

    /// Second rule of the search: the candidate `action` is placed in the
    /// slot of (`state`, `symbol`) unless it would make the machine
    /// 0-dextrous; if all slots but one are set then, the last one gets the
    /// closing action and the search is over.
    pub fn extend_with(&mut self, state: State, symbol: u8, action: Action) -> (step: Extension)
        requires
            1 <= state.code() <= N,
            symbol < 2,
        ensures
            final(self)@ == extended(old(self)@, state, symbol, action@),
            step == Extension::of(old(self)@, state, symbol, action@),
    {
        proof {
            use_type_invariant(&*self);
        }
        let halting_action = Action::new(1, Direction::Right, State::Halt);
        let added = !self.is_0_dextrous_with(state, symbol, action);
        if added {
            self.add_transition(state, symbol, action);
        }
        let ghost next = self@;
        if self.has_one_slot_left() {
            let mut index: usize = 0;
            while index < N
                invariant
                    N >= 2,
                    index <= N,
                    next.len() == N,
                    halting_action@ == closing_action(),
                    forall|at: int| 0 <= at < index ==> #[trigger] self@[at] == fill_single(next[at]),
                    forall|at: int| index <= at < N ==> #[trigger] self@[at] == next[at],
                decreases N - index,
            {
                let ghost current = self@;
                let mut transition = self.transitions[index];
                assert(transition@ == self@[index as int]);
                if transition.count_specified_actions() == 1 {
                    if transition.get_action_of(0).is_none() {
                        transition.set_action_of(0, Some(halting_action));
                    } else {
                        transition.set_action_of(1, Some(halting_action));
                    }
                    self.transitions[index] = transition;
                }
                assert(self@[index as int] == fill_single(next[index as int]));
                assert forall|at: int| 0 <= at < index + 1 implies #[trigger] self@[at]
                    == fill_single(next[at]) by {
                    if at < index {
                        assert(self@[at] == current[at]);
                    }
                }
                assert forall|at: int| index + 1 <= at < N implies #[trigger] self@[at]
                    == next[at] by {
                    assert(self@[at] == current[at]);
                }
                index += 1;
            }
            assert(self@ =~= extended(old(self)@, state, symbol, action@));
            Extension::Completed
        } else if added {
            Extension::Added
        } else {
            Extension::Rejected
        }
    }
}

/// What offering a candidate action did to the search.
#[derive(Debug, Clone, Copy, PartialEq, Eq, Structural)]
pub enum Extension {
    /// The candidate would have made the machine 0-dextrous and was dropped.
    Rejected,
    /// The candidate was placed; more slots are open.
    Added,
    /// All slots but one were set after the offer, and the last one was
    /// filled: the search is over.
    Completed,
}

impl Extension {
    /// What offering `action` for the slot of (`state`, `symbol`) does.
    pub open spec fn of(table: Table, state: State, symbol: u8, action: ActionView) -> Extension {
        if one_slot_left(offered(table, state, symbol, action)) {
            Extension::Completed
        } else if zero_dextrous_with(table, state, symbol, action) {
            Extension::Rejected
        } else {
            Extension::Added
        }
    }
}

/// Builds a busy beaver candidate of `N` states: starting from two actions,
/// the machine is run again and again, and each time it stops at an unset
/// slot a randomly drawn action is offered for that slot, until a run ends
/// without meeting an unset slot or a rule of the search closes the machine.
/// Slots that are still unset then become halting actions.
///
/// Which machine comes out depends on the numbers drawn, and on them alone:
/// it is the machine that `searched` describes for some list of numbers.
/// Whatever they are, the search ends, and the machine has `N` states and no
/// unset slot, writes only 0 and 1, can be run, and starts as
/// `seeded_machine` says.
pub fn generate_busy_beaver<const N: usize>(max_steps: usize) -> (machine: TuringMachine<N>)
    requires
        N >= 2,
    ensures
        machine@.len() == N,
        no_gaps(machine.table()),
        seeded_machine(machine@),
        writes_binary(machine@),
        exists|numbers: Seq<u8>| #[trigger] searched(N as nat, max_steps as nat, numbers, machine@),
{
    let mut source = ThreadRandom::new();
    let machine = generate_busy_beaver_with(max_steps, &mut source);
    assert(searched(N as nat, max_steps as nat, source.drawn().skip(0), machine@));
    machine
}

/// The same search with the random numbers drawn from `source`: for each
/// action it needs, the search draws the symbol, then the direction, then,
/// unless the state is fixed, the state, from `A` to the highest state that
/// has an action. The machine is the one that `search` gives for the numbers
/// drawn during the call; the search never lacked a number and was over when
/// the last of them was used.
pub fn generate_busy_beaver_with<const N: usize, S: RandomSource>(
    max_steps: usize,
    source: &mut S,
) -> (machine: TuringMachine<N>)
    requires
        N >= 2,
    ensures
        machine@.len() == N,
        no_gaps(machine.table()),
        seeded_machine(machine@),
        old(source).drawn().len() <= final(source).drawn().len(),
        final(source).drawn().take(old(source).drawn().len() as int) == old(source).drawn(),
        writes_binary(machine@),
        ({
            let numbers = final(source).drawn().skip(old(source).drawn().len() as int);
            let first = seed_table(N as nat, numbers);
            let rest = numbers.skip(seed_numbers(N as nat) as int);
            &&& machine@ == search(N as nat, max_steps as nat, numbers)
            &&& seed_fits(N as nat, numbers)
            &&& candidates_fit(first, max_steps as nat, rest, 0)
            &&& !runs_dry(first, max_steps as nat, rest, 0)
            &&& numbers.len() == seed_numbers(N as nat) + numbers_used(
                first,
                max_steps as nat,
                rest,
                0,
            )
        }),
{
    let ghost earlier = source.drawn();
    let mut m = PartialTuringMachine::new([PartialTransition::default();N]);
    proof {
        m.lemma_view_len();
    }
    m.add_transition(State::A, 0, Action::new(1, Direction::Right, State::B));
    assert(m@ =~= first_table(N as nat));
    let written = source.draw(0, 1);
    let direction = Direction::random_from(source);
    if N >= 3 {
        m.add_transition(State::B, 0, Action::new(written, direction, State::C));
    } else {
        let next_state = State::random_from(RangeInclusive::new(State::A, State::B), source);
        proof {
            next_state.lemma_code_round_trip(0);
        }
        m.add_transition(State::B, 0, Action::new(written, direction, next_state));
    }
    let ghost seed = source.drawn().skip(earlier.len() as int);
    let ghost first = m@;
    proof {
        m.lemma_view_len();
        assert(seed.len() == seed_numbers(N as nat));
        assert(first == seed_table(N as nat, seed));
    }
    let ghost mut numbers: Seq<u8> = Seq::empty();
    let mut redraws: usize = 0;
    proof {
        assert(source.drawn() =~= earlier + seed + numbers);
        assert forall|rest: Seq<u8>| #[trigger]
            search_from(first, max_steps as nat, numbers + rest, 0) == search_from(
                m@,
                max_steps as nat,
                rest,
                redraws as nat,
            ) by {
            assert(numbers + rest =~= rest);
        }
        assert forall|rest: Seq<u8>| #[trigger]
            runs_dry(first, max_steps as nat, numbers + rest, 0) == runs_dry(
                m@,
                max_steps as nat,
                rest,
                redraws as nat,
            ) by {
            assert(numbers + rest =~= rest);
        }
        assert forall|rest: Seq<u8>| #[trigger]
            candidates_fit(first, max_steps as nat, numbers + rest, 0) == candidates_fit(
                m@,
                max_steps as nat,
                rest,
                redraws as nat,
            ) by {
            assert(numbers + rest =~= rest);
        }
        assert forall|rest: Seq<u8>| #[trigger]
            numbers_used(first, max_steps as nat, numbers + rest, 0) == numbers.len()
                + numbers_used(m@, max_steps as nat, rest, redraws as nat) by {
            assert(numbers + rest =~= rest);
        }
    }
    loop
        invariant_except_break
            forall|rest: Seq<u8>| #[trigger]
                search_from(first, max_steps as nat, numbers + rest, 0) == search_from(
                    m@,
                    max_steps as nat,
                    rest,
                    redraws as nat,
                ),
            forall|rest: Seq<u8>| #[trigger]
                runs_dry(first, max_steps as nat, numbers + rest, 0) == runs_dry(
                    m@,
                    max_steps as nat,
                    rest,
                    redraws as nat,
                ),
            forall|rest: Seq<u8>| #[trigger]
                candidates_fit(first, max_steps as nat, numbers + rest, 0) == candidates_fit(
                    m@,
                    max_steps as nat,
                    rest,
                    redraws as nat,
                ),
            forall|rest: Seq<u8>| #[trigger]
                numbers_used(first, max_steps as nat, numbers + rest, 0) == numbers.len()
                    + numbers_used(m@, max_steps as nat, rest, redraws as nat),
        invariant
            N >= 2,
            m@.len() == N,
            seeded(m@),
            redraws < REDRAW_LIMIT,
            source.drawn() == earlier + seed + numbers,
        ensures
            search_from(first, max_steps as nat, numbers, 0) == m@,
            !runs_dry(first, max_steps as nat, numbers, 0),
            candidates_fit(first, max_steps as nat, numbers, 0),
            numbers_used(first, max_steps as nat, numbers, 0) == numbers.len(),
        decreases 2 * N - count_specified(m@), REDRAW_LIMIT - redraws,
    {
        let ghost before = m@;
        proof {
            lemma_count_bound(before);
            assert(numbers + Seq::<u8>::empty() =~= numbers);
            assert(search_from(first, max_steps as nat, numbers, 0) == search_from(
                before,
                max_steps as nat,
                Seq::<u8>::empty(),
                redraws as nat,
            ));
            assert(runs_dry(first, max_steps as nat, numbers, 0) == runs_dry(
                before,
                max_steps as nat,
                Seq::<u8>::empty(),
                redraws as nat,
            ));
            assert(candidates_fit(first, max_steps as nat, numbers, 0) == candidates_fit(
                before,
                max_steps as nat,
                Seq::<u8>::empty(),
                redraws as nat,
            ));
            assert(numbers_used(first, max_steps as nat, numbers, 0) == numbers.len()
                + numbers_used(before, max_steps as nat, Seq::<u8>::empty(), redraws as nat));
        }
        match m.run(max_steps) {
            Ok(_) => {
                break ;
            },
            Err((state, symbol)) => {
                if m.close_with_halt(state, symbol) {
                    proof {
                        lemma_with_action_seeded(before, state, symbol, closing_action());
                    }
                    break ;
                }
                proof {
                    lemma_choice_limit_bounds(before, 7);
                    assert(before[0].count_specified() > 0);
                }
                let limit = m.state_choice_limit();
                let written = source.draw(0, 1);
                let direction = Direction::random_from(source);
                let next_state = State::random_from(RangeInclusive::new(State::A, limit), source);
                let action = Action::new(written, direction, next_state);
                let ghost candidate = seq![written, direction.code(), next_state.code()];
                let ghost longer = numbers + candidate;
                proof {
                    next_state.lemma_code_round_trip(0);
                    assert(action@ == drawn_action(candidate));
                    assert(source.drawn() =~= earlier + seed + longer);
                }
                let step = m.extend_with(state, symbol, action);
                proof {
                    m.lemma_view_len();
                    lemma_count_bound(m@);
                    if !zero_dextrous_with(before, state, symbol, action@) {
                        lemma_with_action_seeded(before, state, symbol, action@);
                        lemma_count_with_action(before, state, symbol, action@);
                    }
                    lemma_fill_singles_seeded(offered(before, state, symbol, action@));
                    assert forall|rest: Seq<u8>| #[trigger]
                        search_from(first, max_steps as nat, longer + rest, 0) == search_from(
                            before,
                            max_steps as nat,
                            candidate + rest,
                            redraws as nat,
                        ) by {
                        assert(longer + rest =~= numbers + (candidate + rest));
                    }
                    assert forall|rest: Seq<u8>| #[trigger]
                        runs_dry(first, max_steps as nat, longer + rest, 0) == runs_dry(
                            before,
                            max_steps as nat,
                            candidate + rest,
                            redraws as nat,
                        ) by {
                        assert(longer + rest =~= numbers + (candidate + rest));
                    }
                    assert forall|rest: Seq<u8>| #[trigger]
                        candidates_fit(first, max_steps as nat, longer + rest, 0)
                            == candidates_fit(
                            before,
                            max_steps as nat,
                            candidate + rest,
                            redraws as nat,
                        ) by {
                        assert(longer + rest =~= numbers + (candidate + rest));
                    }
                    assert forall|rest: Seq<u8>| #[trigger]
                        numbers_used(first, max_steps as nat, longer + rest, 0) == numbers.len()
                            + numbers_used(
                            before,
                            max_steps as nat,
                            candidate + rest,
                            redraws as nat,
                        ) by {
                        assert(longer + rest =~= numbers + (candidate + rest));
                    }
                    assert forall|rest: Seq<u8>| #[trigger]
                        candidate_fits(before, candidate + rest) by {}
                    assert forall|rest: Seq<u8>| #[trigger]
                        drawn_action(candidate + rest) == action@ && (candidate + rest).skip(3)
                            == rest by {
                        assert((candidate + rest).skip(3) =~= rest);
                    }
                    numbers = longer;
                }
                match step {
                    Extension::Completed => {
                        proof {
                            assert(numbers + Seq::<u8>::empty() =~= numbers);
                            assert(candidate + Seq::<u8>::empty() =~= candidate);
                        }
                        break ;
                    },
                    Extension::Added => {
                        redraws = 0;
                    },
                    Extension::Rejected => {
                        if redraws + 1 == REDRAW_LIMIT {
                            proof {
                                assert(numbers + Seq::<u8>::empty() =~= numbers);
                                assert(candidate + Seq::<u8>::empty() =~= candidate);
                            }
                            break ;
                        }
                        redraws += 1;
                    },
                }
            },
        }
    }
    proof {
        lemma_complete_seeded(m@);
        lemma_complete_has_no_gaps(complete(m@), m@);
        let since = source.drawn().skip(earlier.len() as int);
        assert(since =~= seed + numbers);
        assert(since.skip(seed_numbers(N as nat) as int) =~= numbers);
        assert(seed_table(N as nat, since) == seed_table(N as nat, seed));
        assert(source.drawn().take(earlier.len() as int) =~= earlier);
        assert(seed_fits(N as nat, since));
    }
    let machine: TuringMachine<N> = m.into();
    proof {
        machine.lemma_writes_binary();
    }
    machine
}

impl<const N: usize> From<PartialTuringMachine<N>> for TuringMachine<N> {
    /// The complete machine that a partial one stands for: every unset action
    /// becomes the action that writes the symbol read and halts.
    fn from(machine: PartialTuringMachine<N>) -> (full: TuringMachine<N>)
        ensures
            full@ == complete(machine@),
    {
        proof {
            use_type_invariant(&machine);
        }
        let mut transitions = [Transition::from(PartialTransition::default());N];
        let mut index: usize = 0;
        while index < N
            invariant
                index <= N,
                forall|earlier: int|
                    0 <= earlier < index ==> (#[trigger] transitions@[earlier])@
                        == machine@[earlier].complete(),
            decreases N - index,
        {
            transitions[index] = Transition::from(machine.transitions[index]);
            index += 1;
        }
        let full = TuringMachine::new(transitions);
        assert(full@ =~= complete(machine@));
        full
    }
}

/// The conversion is specified over views, by the postcondition of `from`;
/// no function on representations is given for it.
impl<const N: usize> FromSpecImpl<PartialTuringMachine<N>> for TuringMachine<N> {
    open spec fn obeys_from_spec() -> bool {
        false
    }

    open spec fn from_spec(machine: PartialTuringMachine<N>) -> TuringMachine<N> {
        arbitrary()
    }
}

} // verus!
