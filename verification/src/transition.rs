//! The vocabulary of a machine: directions, states, packed actions and
//! transitions.

use crate::random::{RandomSource, ThreadRandom};
use crate::utils::map_range_inclusive;
use std::ops::RangeInclusive;
use vstd::prelude::*;

verus! {

/// Direction in which the head moves.
#[derive(Debug, Clone, Copy, PartialEq, Eq, Structural)]
pub enum Direction {
    /// One cell towards lower positions.
    Left,
    /// One cell towards higher positions.
    Right,
}

impl Direction {
    /// Numeric code of the direction: 0 for `Left`, 1 for `Right`.
    pub open spec fn code(self) -> u8 {
        match self {
            Direction::Left => 0,
            Direction::Right => 1,
        }
    }

    /// Signed displacement of the head: -1 for `Left`, +1 for `Right`.
    pub open spec fn delta(self) -> int {
        match self {
            Direction::Left => -1,
            Direction::Right => 1,
        }
    }

    /// The direction with the given code, if there is one.
    pub open spec fn of_code(code: u8) -> Option<Direction> {
        if code == 0 {
            Some(Direction::Left)
        } else if code == 1 {
            Some(Direction::Right)
        } else {
            None
        }
    }

    /// Name of the direction as a sequence of characters.
    pub open spec fn name(self) -> Seq<char> {
        match self {
            Direction::Left => seq!['L', 'e', 'f', 't'],
            Direction::Right => seq!['R', 'i', 'g', 'h', 't'],
        }
    }

    /// Returns the numeric code of the direction.
    pub fn to_code(self) -> (code: u8)
        ensures
            code == self.code(),
    {
        match self {
            Direction::Left => 0,
            Direction::Right => 1,
        }
    }

    /// Converts a numeric code to a direction; codes above 1 name no direction.
    pub fn from_code(code: u8) -> (direction: Option<Direction>)
        ensures
            direction == Direction::of_code(code),
    {
        if code == 0 {
            Some(Direction::Left)
        } else if code == 1 {
            Some(Direction::Right)
        } else {
            None
        }
    }

    /// Returns a random direction.
    ///
    /// The distribution is uniform.
    pub fn random() -> Direction {
        let mut source = ThreadRandom::new();
        Direction::random_from(&mut source)
    }

    /// Returns the direction whose code is the next number that `source`
    /// draws from 0 and 1.
    pub fn random_from<S: RandomSource>(source: &mut S) -> (direction: Direction)
        ensures
            final(source).drawn() == old(source).drawn().push(direction.code()),
    {
        match Direction::from_code(source.draw(0, 1)) {
            Some(direction) => direction,
            None => {
                assert(false);
                Direction::Left
            },
        }
    }

    /// Returns the string representation of the direction.
    pub fn to_str(self) -> (s: &'static str)
        ensures
            s@ == self.name(),
    {
        proof {
            reveal_strlit("Left");
            reveal_strlit("Right");
        }
        match self {
            Direction::Left => {
                assert("Left"@ =~= seq!['L', 'e', 'f', 't']);
                "Left"
            },
            Direction::Right => {
                assert("Right"@ =~= seq!['R', 'i', 'g', 'h', 't']);
                "Right"
            },
        }
    }
}

/// State of a Turing machine: the halting state and up to seven ordinary
/// states.
#[derive(Debug, Clone, Copy, PartialEq, Eq, Structural)]
pub enum State {
    /// Halt state
    Halt,
    /// A state
    A,
    /// B state
    B,
    /// C state
    C,
    /// D state
    D,
    /// E state
    E,
    /// F state
    F,
    /// G state
    G,
}

impl State {
    /// Numeric code of the state: 0 for `Halt`, 1 to 7 for `A` to `G`.
    pub open spec fn code(self) -> u8 {
        match self {
            State::Halt => 0,
            State::A => 1,
            State::B => 2,
            State::C => 3,
            State::D => 4,
            State::E => 5,
            State::F => 6,
            State::G => 7,
        }
    }

    /// The state with the given code, if there is one.
    pub open spec fn of_code(code: u8) -> Option<State> {
        if code == 0 {
            Some(State::Halt)
        } else if code == 1 {
            Some(State::A)
        } else if code == 2 {
            Some(State::B)
        } else if code == 3 {
            Some(State::C)
        } else if code == 4 {
            Some(State::D)
        } else if code == 5 {
            Some(State::E)
        } else if code == 6 {
            Some(State::F)
        } else if code == 7 {
            Some(State::G)
        } else {
            None
        }
    }

    /// Name of the state as a sequence of characters.
    pub open spec fn name(self) -> Seq<char> {
        match self {
            State::Halt => seq!['H', 'a', 'l', 't'],
            State::A => seq!['A'],
            State::B => seq!['B'],
            State::C => seq!['C'],
            State::D => seq!['D'],
            State::E => seq!['E'],
            State::F => seq!['F'],
            State::G => seq!['G'],
        }
    }

    /// Codes and states correspond one to one: a state's code is at most 7
    /// and names that state, and a code that names a state is that state's.
    pub proof fn lemma_code_round_trip(self, code: u8)
        ensures
            self.code() <= 7,
            State::of_code(self.code()) == Some(self),
            State::of_code(code) == Some(self) ==> code == self.code(),
            State::of_code(code) is Some <==> code <= 7,
    {
    }

    /// Returns the starting state.
    /// As the order of the states does not matter we always start in state A
    /// by convention.
    pub fn start() -> (state: State)
        ensures
            state == State::A,
    {
        State::A
    }

    /// Checks if the state is halting.
    pub fn is_halting(self) -> (halting: bool)
        ensures
            halting == (self == State::Halt),
    {
        match self {
            State::Halt => true,
            _ => false,
        }
    }

    /// Returns the numeric code of the state.
    pub fn to_code(self) -> (code: u8)
        ensures
            code == self.code(),
    {
        match self {
            State::Halt => 0,
            State::A => 1,
            State::B => 2,
            State::C => 3,
            State::D => 4,
            State::E => 5,
            State::F => 6,
            State::G => 7,
        }
    }

    /// Converts a numeric code to a state; codes above 7 name no state.
    pub fn from_code(code: u8) -> (state: Option<State>)
        ensures
            state == State::of_code(code),
    {
        if code == 0 {
            Some(State::Halt)
        } else if code == 1 {
            Some(State::A)
        } else if code == 2 {
            Some(State::B)
        } else if code == 3 {
            Some(State::C)
        } else if code == 4 {
            Some(State::D)
        } else if code == 5 {
            Some(State::E)
        } else if code == 6 {
            Some(State::F)
        } else if code == 7 {
            Some(State::G)
        } else {
            None
        }
    }

    /// Returns a random state in the given range.
    ///
    /// The distribution is uniform.
    pub fn random(range: RangeInclusive<State>) -> (state: State)
        requires
            range@.start.code() <= range@.end.code(),
        ensures
            range@.start.code() <= state.code() <= range@.end.code(),
    {
        let mut source = ThreadRandom::new();
        State::random_from(range, &mut source)
    }

    /// Returns the state in the given range whose code is the next number
    /// that `source` draws from the codes of the range.
    pub fn random_from<S: RandomSource>(range: RangeInclusive<State>, source: &mut S) -> (state:
        State)
        requires
            range@.start.code() <= range@.end.code(),
        ensures
            range@.start.code() <= state.code() <= range@.end.code(),
            final(source).drawn() == old(source).drawn().push(state.code()),
    {
        let codes = map_range_inclusive(range, State::to_code);
        let (low, high) = codes.into_inner();
        proof {
            range@.end.lemma_code_round_trip(0);
        }
        match State::from_code(source.draw(low, high)) {
            Some(state) => state,
            None => {
                assert(false);
                State::Halt
            },
        }
    }

    /// Returns the string representation of the state.
    pub fn to_str(self) -> (s: &'static str)
        ensures
            s@ == self.name(),
    {
        proof {
            reveal_strlit("Halt");
            reveal_strlit("A");
            reveal_strlit("B");
            reveal_strlit("C");
            reveal_strlit("D");
            reveal_strlit("E");
            reveal_strlit("F");
            reveal_strlit("G");
        }
        let s = match self {
            State::Halt => "Halt",
            State::A => "A",
            State::B => "B",
            State::C => "C",
            State::D => "D",
            State::E => "E",
            State::F => "F",
            State::G => "G",
        };
        assert(s@ =~= self.name());
        s
    }
}

/// What an action says: the symbol to write, the direction to move in, and
/// the state to go to.
pub struct ActionView {
    /// Symbol to write on the tape, 0 or 1.
    pub symbol: u8,
    /// Direction in which to move the head.
    pub direction: Direction,
    /// State in which the machine goes on.
    pub next_state: State,
}

impl ActionView {
    /// The action that stops the machine after writing `symbol`.
    pub open spec fn halting(symbol: u8) -> ActionView {
        ActionView { symbol, direction: Direction::Right, next_state: State::Halt }
    }

    /// The action as the triple that the executable accessors hand out.
    pub open spec fn parts(self) -> (u8, Direction, State) {
        (self.symbol, self.direction, self.next_state)
    }

    /// The three-character code of the action: the digit of the symbol, then
    /// the first letters of the direction and of the state.
    pub open spec fn text(self) -> Seq<char> {
        seq![
            if self.symbol == 0 {
                '0'
            } else {
                '1'
            },
            self.direction.name()[0],
            self.next_state.name()[0],
        ]
    }
}

/// Encoded action to perform on a transition.
#[derive(Debug, Clone, Copy)]
pub struct Action {
    /// Packed representation of the action:
    /// Bit 0: Symbol to write on the tape
    /// Bit 1: Direction in which to move the head (0 = Left, 1 = Right)
    /// Bit 2-4: Next state
    representation: u8,
}

impl View for Action {
    type V = ActionView;

    closed spec fn view(&self) -> ActionView {
        ActionView {
            symbol: self.representation & 1,
            direction: if (self.representation >> 1) & 1 == 1 {
                Direction::Right
            } else {
                Direction::Left
            },
            next_state: match State::of_code(self.representation >> 2) {
                Some(state) => state,
                None => State::Halt,
            },
        }
    }
}

impl Action {
    /// Only five bits are ever used, so that the state code is at most 7.
    #[verifier::type_invariant]
    closed spec fn packed(self) -> bool {
        self.representation < 32
    }

    /// The symbol of an action is always 0 or 1.
    pub proof fn lemma_symbol_is_binary(self)
        ensures
            self@.symbol == 0 || self@.symbol == 1,
    {
        let byte = self.representation;
        assert(byte & 1 == 0 || byte & 1 == 1) by (bit_vector);
    }

    /// Creates a new action from the given symbol, direction and next state.
    pub fn new(symbol: u8, direction: Direction, next_state: State) -> (action: Action)
        requires
            symbol < 2,
        ensures
            action@ == (ActionView { symbol, direction, next_state }),
    {
        let state_code = next_state.to_code();
        let direction_code = direction.to_code();
        let representation = (state_code << 2) | (direction_code << 1) | symbol;
        assert(representation < 32 && representation & 1 == symbol && (representation >> 1) & 1
            == direction_code && representation >> 2 == state_code) by (bit_vector)
            requires
                representation == (state_code << 2) | (direction_code << 1) | symbol,
                state_code <= 7,
                direction_code <= 1,
                symbol <= 1,
        ;
        Action { representation }
    }

    /// Returns the direction in which to move the head.
    pub fn get_direction(self) -> (direction: Direction)
        ensures
            direction == self@.direction,
    {
        let byte = self.representation;
        let code = (byte >> 1) & 1;
        assert(code == 0 || code == 1) by (bit_vector)
            requires
                code == (byte >> 1) & 1,
        ;
        if code == 1 {
            Direction::Right
        } else {
            Direction::Left
        }
    }

    /// Unpacks the representation to return corresponding symbol to write,
    /// direction and state.
    pub fn unpack(self) -> (parts: (u8, Direction, State))
        ensures
            parts == self@.parts(),
            parts.0 == 0 || parts.0 == 1,
    {
        proof {
            use_type_invariant(&self);
            self.lemma_symbol_is_binary();
            let byte = self.representation;
            assert(byte < 32 ==> byte >> 2 <= 7) by (bit_vector);
        }
        let state = match State::from_code(self.representation >> 2) {
            Some(state) => state,
            None => {
                assert(false);
                State::Halt
            },
        };
        (self.representation & 1, self.get_direction(), state)
    }

    /// Renders the action as its three-character code.
    pub fn to_string(&self) -> (text: String)
        ensures
            text@ == self@.text(),
    {
        let (symbol, direction, state) = self.unpack();
        proof {
            reveal_strlit("0");
            reveal_strlit("1");
        }
        let mut text = String::new();
        if symbol == 0 {
            text.append("0");
        } else {
            text.append("1");
        }
        text.append(direction.to_str().substring_char(0, 1));
        text.append(state.to_str().substring_char(0, 1));
        assert(text@ =~= self@.text());
        text
    }
}

/// What a transition says: the action for each symbol that can be read.
pub struct TransitionView {
    /// Action performed when a 0 is read.
    pub on_0: ActionView,
    /// Action performed when a 1 is read.
    pub on_1: ActionView,
}

impl TransitionView {
    /// The action for the symbol read.
    pub open spec fn action_of(self, symbol: u8) -> ActionView {
        if symbol == 0 {
            self.on_0
        } else {
            self.on_1
        }
    }

    /// The codes of the two actions, separated by a space.
    pub open spec fn text(self) -> Seq<char> {
        self.on_0.text() + seq![' '] + self.on_1.text()
    }
}

/// Container for action to perform given a binary symbol.
#[derive(Debug, Clone, Copy)]
pub struct Transition {
    /// First action corresponds to the action executed when a 0 is read.
    /// Second action corresponds to the action executed when a 1 is read.
    actions: [Action; 2],
}

impl View for Transition {
    type V = TransitionView;

    closed spec fn view(&self) -> TransitionView {
        TransitionView { on_0: self.actions@[0]@, on_1: self.actions@[1]@ }
    }
}

impl Transition {
    /// Both actions of a transition write 0 or 1.
    pub proof fn lemma_symbols_are_binary(self)
        ensures
            self@.on_0.symbol <= 1,
            self@.on_1.symbol <= 1,
    {
        self.actions@[0].lemma_symbol_is_binary();
        self.actions@[1].lemma_symbol_is_binary();
    }

    /// Creates a new transition with the given actions.
    pub fn new(action_on_0: Action, action_on_1: Action) -> (transition: Transition)
        ensures
            transition@ == (TransitionView { on_0: action_on_0@, on_1: action_on_1@ }),
    {
        Transition { actions: [action_on_0, action_on_1] }
    }

    /// Returns the action corresponding to the given symbol.
    pub fn get_action_of(&self, symbol: u8) -> (parts: (u8, Direction, State))
        requires
            symbol < 2,
        ensures
            parts == self@.action_of(symbol).parts(),
            parts.0 == 0 || parts.0 == 1,
    {
        self.actions[symbol as usize].unpack()
    }

    /// Renders the transition as the codes of its two actions.
    pub fn to_string(&self) -> (text: String)
        ensures
            text@ == self@.text(),
    {
        proof {
            reveal_strlit(" ");
        }
        let mut text = self.actions[0].to_string();
        text.append(" ");
        let second = self.actions[1].to_string();
        text.append(second.as_str());
        assert(text@ =~= self@.text());
        text
    }
}

/// What a partial transition says: for each symbol that can be read, the
/// action to perform, where one is set.
pub struct PartialTransitionView {
    /// Action performed when a 0 is read.
    pub on_0: Option<ActionView>,
    /// Action performed when a 1 is read.
    pub on_1: Option<ActionView>,
}

impl PartialTransitionView {
    /// The transition with no action set.
    pub open spec fn empty() -> PartialTransitionView {
        PartialTransitionView { on_0: None, on_1: None }
    }

    /// The action for the symbol read, where one is set.
    pub open spec fn action_of(self, symbol: u8) -> Option<ActionView> {
        if symbol == 0 {
            self.on_0
        } else {
            self.on_1
        }
    }

    /// The transition with the slot of `symbol` replaced.
    pub open spec fn with_action(self, symbol: u8, action: Option<ActionView>) -> Self {
        if symbol == 0 {
            PartialTransitionView { on_0: action, on_1: self.on_1 }
        } else {
            PartialTransitionView { on_0: self.on_0, on_1: action }
        }
    }

    /// Number of slots that are set.
    pub open spec fn count_specified(self) -> nat {
        (if self.on_0 is Some {
            1nat
        } else {
            0nat
        }) + (if self.on_1 is Some {
            1nat
        } else {
            0nat
        })
    }

    /// The full transition in which each unset slot holds the action that
    /// writes the symbol read and halts.
    pub open spec fn complete(self) -> TransitionView {
        TransitionView {
            on_0: match self.on_0 {
                Some(action) => action,
                None => ActionView::halting(0),
            },
            on_1: match self.on_1 {
                Some(action) => action,
                None => ActionView::halting(1),
            },
        }
    }

    /// The code of an optional action: three dashes where none is set.
    pub open spec fn slot_text(action: Option<ActionView>) -> Seq<char> {
        match action {
            Some(action) => action.text(),
            None => seq!['-', '-', '-'],
        }
    }

    /// The codes of the two slots, separated by a space.
    pub open spec fn text(self) -> Seq<char> {
        Self::slot_text(self.on_0) + seq![' '] + Self::slot_text(self.on_1)
    }
}

/// Container for partially specified actions.
#[derive(Debug, Clone, Copy)]
pub struct PartialTransition {
    actions: [Option<Action>; 2],
}

impl View for PartialTransition {
    type V = PartialTransitionView;

    closed spec fn view(&self) -> PartialTransitionView {
        PartialTransitionView {
            on_0: PartialTransition::slot_view(self.actions@[0]),
            on_1: PartialTransition::slot_view(self.actions@[1]),
        }
    }
}

impl Default for PartialTransition {
    fn default() -> (transition: PartialTransition)
        ensures
            transition@ == PartialTransitionView::empty(),
    {
        PartialTransition { actions: [None, None] }
    }
}

impl PartialTransition {
    /// What an optional action says.
    pub open spec fn slot_view(action: Option<Action>) -> Option<ActionView> {
        match action {
            Some(action) => Some(action@),
            None => None,
        }
    }

    /// Each action that is set writes 0 or 1.
    pub proof fn lemma_symbols_are_binary(self)
        ensures
            self@.on_0 matches Some(action) ==> action.symbol <= 1,
            self@.on_1 matches Some(action) ==> action.symbol <= 1,
    {
        if let Some(action) = self.actions@[0] {
            action.lemma_symbol_is_binary();
        }
        if let Some(action) = self.actions@[1] {
            action.lemma_symbol_is_binary();
        }
    }

    /// Creates a new partial transition.
    pub fn new(action_on_0: Option<Action>, action_on_1: Option<Action>) -> (transition:
        PartialTransition)
        ensures
            transition@ == (PartialTransitionView {
                on_0: PartialTransition::slot_view(action_on_0),
                on_1: PartialTransition::slot_view(action_on_1),
            }),
    {
        PartialTransition { actions: [action_on_0, action_on_1] }
    }

    /// Sets action to perform when the given symbol is read.
    pub fn set_action_of(&mut self, symbol: u8, action: Option<Action>)
        requires
            symbol < 2,
        ensures
            final(self)@ == old(self)@.with_action(symbol, PartialTransition::slot_view(action)),
    {
        self.actions[symbol as usize] = action;
    }

    /// Returns action to perform when the given symbol is read.
    pub fn get_action_of(self, symbol: u8) -> (parts: Option<(u8, Direction, State)>)
        requires
            symbol < 2,
        ensures
            parts == match self@.action_of(symbol) {
                Some(action) => Some(action.parts()),
                None => None,
            },
            parts matches Some(triple) ==> triple.0 == 0 || triple.0 == 1,
    {
        match self.actions[symbol as usize] {
            Some(action) => Some(action.unpack()),
            None => None,
        }
    }

    /// Counts the number of specified actions.
    pub fn count_specified_actions(self) -> (count: usize)
        ensures
            count == self@.count_specified(),
    {
        let mut c: usize = 0;
        if self.actions[0].is_some() {
            c += 1;
        }
        if self.actions[1].is_some() {
            c += 1;
        }
        c
    }

    /// Renders the transition as the codes of its two slots.
    pub fn to_string(&self) -> (text: String)
        ensures
            text@ == self@.text(),
    {
        proof {
            reveal_strlit(" ");
            reveal_strlit("---");
        }
        let mut text = String::new();
        match self.actions[0] {
            Some(action) => {
                let code = action.to_string();
                text.append(code.as_str());
            },
            None => {
                text.append("---");
            },
        }
        text.append(" ");
        match self.actions[1] {
            Some(action) => {
                let code = action.to_string();
                text.append(code.as_str());
            },
            None => {
                text.append("---");
            },
        }
        assert("---"@ =~= seq!['-', '-', '-']);
        assert(text@ =~= self@.text());
        text
    }
}

impl From<PartialTransition> for Transition {
    /// The full transition that a partial one stands for: an unset action
    /// becomes the action that writes the symbol read and halts.
    fn from(transition: PartialTransition) -> (full: Transition)
        ensures
            full@ == transition@.complete(),
    {
        let on_0 = match transition.actions[0] {
            Some(action) => action,
            None => Action::new(0, Direction::Right, State::Halt),
        };
        let on_1 = match transition.actions[1] {
            Some(action) => action,
            None => Action::new(1, Direction::Right, State::Halt),
        };
        Transition::new(on_0, on_1)
    }
}

/// The conversion is specified over views, by the postcondition of `from`;
/// no function on representations is given for it.
impl vstd::std_specs::convert::FromSpecImpl<PartialTransition> for Transition {
    open spec fn obeys_from_spec() -> bool {
        false
    }

    open spec fn from_spec(transition: PartialTransition) -> Transition {
        arbitrary()
    }
}

} // verus!
