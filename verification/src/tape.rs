//! Tape for a binary-alphabet Turing machine.
//!
//! The tape is conceptually infinite in both directions and blank (all zeros)
//! at the start. Only a window of it is materialized, as 64-bit words held in
//! a deque; the window grows by one word on the side where the head reaches
//! its edge.
//!
//! Positions are `i128`: the window has 64 positions per word of the deque,
//! so with this width no window leaves the range of the positions, however
//! many words the deque holds, and a move needs no bound on the tape.

use crate::transition::Direction;
use std::collections::VecDeque;
use vstd::prelude::*;

verus! {

/// Number of tape positions stored in one word of the tape.
pub const CELL_BITS: i128 = 64;

/// Mathematical model of a tape: where the head is, which positions are
/// materialized, and which positions hold the symbol 1.
#[verifier::ext_equal]
pub struct TapeView {
    /// Position of the head.
    pub head: int,
    /// Lowest materialized position.
    pub lower: int,
    /// Highest materialized position.
    pub upper: int,
    /// The positions that hold the symbol 1; every other position holds 0.
    pub ones: Set<int>,
}

impl TapeView {
    /// The tape every run starts from: head at 0, positions -64..=63
    /// materialized, 0 everywhere.
    pub open spec fn blank() -> TapeView {
        TapeView { head: 0, lower: -64, upper: 63, ones: Set::empty() }
    }

    /// The symbol at a position.
    pub open spec fn symbol_at(self, position: int) -> u8 {
        if self.ones.contains(position) {
            1
        } else {
            0
        }
    }

    /// The symbol under the head.
    pub open spec fn read(self) -> u8 {
        self.symbol_at(self.head)
    }

    /// The tape after writing `symbol` under the head.
    pub open spec fn write(self, symbol: u8) -> TapeView {
        TapeView {
            head: self.head,
            lower: self.lower,
            upper: self.upper,
            ones: if symbol == 1 {
                self.ones.insert(self.head)
            } else {
                self.ones.remove(self.head)
            },
        }
    }

    /// The tape after moving the head one step. A side of the materialized
    /// window on whose edge the head sits before the move grows by 64.
    pub open spec fn move_head(self, direction: Direction) -> TapeView {
        TapeView {
            head: self.head + direction.delta(),
            lower: if self.head == self.lower {
                self.lower - 64
            } else {
                self.lower
            },
            upper: if self.head == self.upper {
                self.upper + 64
            } else {
                self.upper
            },
            ones: self.ones,
        }
    }

    /// The tape after a sequence of moves, first move first.
    pub open spec fn move_head_all(self, directions: Seq<Direction>) -> TapeView
        decreases directions.len(),
    {
        if directions.len() == 0 {
            self
        } else {
            self.move_head_all(directions.drop_last()).move_head(directions.last())
        }
    }

    /// Number of positions that hold the symbol 1.
    pub open spec fn count_ones(self) -> nat {
        self.ones.len()
    }

    /// Number of materialized positions.
    pub open spec fn width(self) -> int {
        self.upper - self.lower + 1
    }

    /// What holds of every tape that can be built: the window is made of
    /// whole words and covers the initial one, the head is inside it, and
    /// ones occur only inside it.
    pub open spec fn valid(self) -> bool {
        &&& self.lower <= self.head <= self.upper
        &&& self.lower <= -64
        &&& 63 <= self.upper
        &&& self.width() % 64 == 0
        &&& self.ones.finite()
        &&& forall|position: int|
            self.ones.contains(position) ==> self.lower <= position <= self.upper
    }

    /// Every move changes the head position by exactly one and leaves the
    /// head inside the window, on a tape that is again valid.
    pub proof fn lemma_move_head_in_window(self, direction: Direction)
        requires
            self.valid(),
        ensures
            self.move_head(direction).head == self.head + 1 || self.move_head(direction).head
                == self.head - 1,
            self.move_head(direction).head == self.head + direction.delta(),
            self.move_head(direction).lower <= self.move_head(direction).head
                <= self.move_head(direction).upper,
            self.move_head(direction).valid(),
    {
    }

    /// After any sequence of moves from a valid tape the tape is valid, and
    /// the last move of the sequence shifted the head by exactly one position
    /// and left it inside the window of that moment.
    pub proof fn lemma_moves_in_window(self, directions: Seq<Direction>)
        requires
            self.valid(),
        ensures
            self.move_head_all(directions).valid(),
            directions.len() > 0 ==> {
                let before = self.move_head_all(directions.drop_last());
                let after = self.move_head_all(directions);
                &&& before.valid()
                &&& after.head == before.head + directions.last().delta()
                &&& after.lower <= after.head <= after.upper
            },
        decreases directions.len(),
    {
        if directions.len() > 0 {
            let shorter = directions.drop_last();
            self.lemma_moves_in_window(shorter);
            self.move_head_all(shorter).lemma_move_head_in_window(directions.last());
        }
    }

    /// The window grows by exactly 64 positions on the side on whose edge the
    /// head sits before a move, and on that side only; reading and writing
    /// never change it.
    pub proof fn lemma_growth(self, direction: Direction, symbol: u8)
        requires
            self.valid(),
        ensures
            self.head == self.lower ==> self.move_head(direction).lower == self.lower - 64
                && self.move_head(direction).upper == self.upper,
            self.head == self.upper ==> self.move_head(direction).upper == self.upper + 64
                && self.move_head(direction).lower == self.lower,
            self.lower < self.head < self.upper ==> self.move_head(direction).lower == self.lower
                && self.move_head(direction).upper == self.upper,
            self.move_head(direction).ones == self.ones,
            self.write(symbol).lower == self.lower,
            self.write(symbol).upper == self.upper,
            self.write(symbol).head == self.head,
    {
    }

    /// Where the head does not leave an edge of the window inwards, the
    /// window grows exactly when the move takes the head past an edge: by 64
    /// positions, on that side only.
    pub proof fn lemma_growth_when_stepping_past(self, direction: Direction)
        requires
            self.valid(),
            !(self.head == self.lower && direction == Direction::Right),
            !(self.head == self.upper && direction == Direction::Left),
        ensures
            self.head + direction.delta() < self.lower ==> self.move_head(direction).lower
                == self.lower - 64 && self.move_head(direction).upper == self.upper,
            self.head + direction.delta() > self.upper ==> self.move_head(direction).upper
                == self.upper + 64 && self.move_head(direction).lower == self.lower,
            self.lower <= self.head + direction.delta() <= self.upper ==> self.move_head(
                direction,
            ).lower == self.lower && self.move_head(direction).upper == self.upper,
    {
    }

    /// Reading right after writing gives back the symbol written, whatever
    /// the tape held before.
    pub proof fn lemma_read_after_write(self, symbol: u8)
        requires
            symbol == 0 || symbol == 1,
        ensures
            self.write(symbol).read() == symbol,
    {
    }

    /// Writing keeps a valid tape valid and changes no other position.
    pub proof fn lemma_write_valid(self, symbol: u8)
        requires
            self.valid(),
        ensures
            self.write(symbol).valid(),
            forall|position: int|
                position != self.head ==> self.write(symbol).symbol_at(position)
                    == self.symbol_at(position),
    {
    }
}

/// Whether bit `index` of `word` is set.
spec fn word_bit(word: u64, index: u8) -> bool {
    (word >> index) & 1u64 == 1u64
}

/// A tape of binary-alphabet symbols.
#[derive(Debug)]
pub struct Tape {
    /// Bit vector representing the materialized window, lowest positions first.
    cells: VecDeque<u64>,
    /// Position of the head on the tape.
    head: i128,
    /// Lowest and highest materialized positions.
    range: (i128, i128),
}

impl View for Tape {
    type V = TapeView;

    closed spec fn view(&self) -> TapeView {
        TapeView {
            head: self.head as int,
            lower: self.range.0 as int,
            upper: self.range.1 as int,
            ones: Set::new(|position: int| self.holds_one(position)),
        }
    }
}

/// `VecDeque`'s indexed assignment (`IndexMut::index_mut` followed by a
/// store): replaces the element at `index`, which must exist, and leaves
/// every other element and the length as they were.
#[verifier::external_body]
fn set_cell(cells: &mut VecDeque<u64>, index: usize, value: u64)
    requires
        index < old(cells)@.len(),
    ensures
        final(cells)@ == old(cells)@.update(index as int, value),
{
    cells[index] = value;
}

impl Tape {
    /// Whether the stored words say that `position` holds the symbol 1.
    closed spec fn holds_one(&self, position: int) -> bool {
        &&& self.range.0 <= position <= self.range.1
        &&& word_bit(
            self.cells@[(position - self.range.0) / 64],
            ((position - self.range.0) % 64) as u8,
        )
    }

    /// Representation invariant: one word per 64 materialized positions, the
    /// head inside the window, and the window around the first one.
    pub closed spec fn wf(&self) -> bool {
        &&& self.cells@.len() * 64 == self.range.1 - self.range.0 + 1
        &&& self.cells@.len() <= usize::MAX
        &&& self.range.0 <= self.head <= self.range.1
        &&& self.range.0 <= -64
        &&& 63 <= self.range.1
    }

    /// Number of words that the deque holds.
    pub closed spec fn words(&self) -> nat {
        self.cells@.len()
    }

    /// A well-formed tape has a valid view, and holds one word for each 64
    /// positions of its window.
    pub proof fn lemma_wf_view(&self)
        requires
            self.wf(),
        ensures
            self@.valid(),
            self.words() * 64 == self@.width(),
    {
        let ones = self@.ones;
        let window = Set::new(|position: int| self.range.0 <= position < self.range.1 + 1);
        vstd::set_lib::lemma_int_range(self.range.0 as int, self.range.1 + 1);
        assert(window =~= vstd::set_lib::set_int_range(self.range.0 as int, self.range.1 + 1));
        assert(ones.subset_of(window));
        vstd::set_lib::lemma_len_subset(ones, window);
    }

    /// Creates a new tape with two cells and head at position 0.
    pub fn new() -> (tape: Tape)
        ensures
            tape.wf(),
            tape@ == TapeView::blank(),
    {
        let mut cells: VecDeque<u64> = VecDeque::new();
        cells.push_back(0);
        cells.push_back(0);
        let tape = Tape { cells, head: 0, range: (-64, 63) };
        proof {
            assert forall|position: int| !tape.holds_one(position) by {
                if -64 <= position <= 63 {
                    let index = ((position + 64) % 64) as u8;
                    assert(!word_bit(0u64, index)) by (bit_vector);
                }
            }
            assert(tape@.ones =~= Set::<int>::empty());
        }
        tape
    }

    /// Position of the head.
    pub fn head(&self) -> (head: i128)
        ensures
            head == self@.head,
    {
        self.head
    }

    /// Lowest and highest materialized positions.
    pub fn range(&self) -> (range: (i128, i128))
        ensures
            range.0 == self@.lower,
            range.1 == self@.upper,
    {
        self.range
    }

    /// Computes the cell index and bit index of the given position on the tape.
    pub fn get_cell_bit_index(&self, position: i128) -> (index: (usize, u8))
        requires
            self.wf(),
            self@.lower <= position <= self@.upper,
        ensures
            index.0 == (position - self@.lower) / 64,
            index.1 == (position - self@.lower) % 64,
            index.0 < self@.width() / 64,
    {
        let positive_position = (-self.range.0 + position) as u128;
        assert(positive_position >> 6 == positive_position / 64) by (bit_vector);
        assert(positive_position & 63 == positive_position % 64) by (bit_vector);
        ((positive_position >> 6) as usize, (positive_position & 63) as u8)
    }

    /// Reads the symbol on the tape at the head position.
    pub fn read(&self) -> (symbol: u8)
        requires
            self.wf(),
        ensures
            symbol == self@.read(),
    {
        let (cell_index, bit_index) = self.get_cell_bit_index(self.head);
        let word = self.cells[cell_index];
        assert(self.holds_one(self.head as int) == word_bit(word, bit_index));
        assert((word >> bit_index) & 1 == 0 || (word >> bit_index) & 1 == 1) by (bit_vector);
        ((word >> bit_index) & 1) as u8
    }

    /// Writes the given binary symbol at the head position.
    pub fn write(&mut self, symbol: u8)
        requires
            old(self).wf(),
            symbol == 0 || symbol == 1,
        ensures
            final(self).wf(),
            final(self)@ == old(self)@.write(symbol),
    {
        let (cell_index, bit_index) = self.get_cell_bit_index(self.head);
        let word = self.cells[cell_index];
        let updated = if symbol == 1 {
            word | (1u64 << bit_index)
        } else {
            word & !(1u64 << bit_index)
        };
        proof {
            if symbol == 1 {
                assert(forall|other: u8|
                    other < 64 ==> #[trigger] word_bit(updated, other) == (other == bit_index
                        || word_bit(word, other))) by (bit_vector)
                    requires
                        bit_index < 64,
                        updated == word | (1u64 << bit_index),
                ;
            } else {
                assert(forall|other: u8|
                    other < 64 ==> #[trigger] word_bit(updated, other) == (other != bit_index
                        && word_bit(word, other))) by (bit_vector)
                    requires
                        bit_index < 64,
                        updated == word & !(1u64 << bit_index),
                ;
            }
        }
        set_cell(&mut self.cells, cell_index, updated);
        proof {
            let before = old(self)@.write(symbol);
            assert forall|position: int| self.holds_one(position) == before.ones.contains(
                position,
            ) by {
                if self.range.0 <= position <= self.range.1 {
                    let offset = position - self.range.0;
                    assert(old(self).holds_one(position) == word_bit(
                        old(self).cells@[offset / 64],
                        (offset % 64) as u8,
                    ));
                }
            }
            assert(self@.ones =~= before.ones);
        }
    }

    /// Moves the head one step in the given direction.
    /// If the head sits on an edge of the materialized window, a new cell is
    /// allocated on that side first.
    pub fn move_head(&mut self, direction: Direction)
        requires
            old(self).wf(),
        ensures
            final(self).wf(),
            final(self)@ == old(self)@.move_head(direction),
            final(self)@.lower <= final(self)@.head <= final(self)@.upper,
    {
        if self.head == self.range.0 {
            self.cells.push_front(0);
            self.range.0 -= CELL_BITS;
            assert(self.cells@.len() == self.cells.len());
        }
        if self.head == self.range.1 {
            self.cells.push_back(0);
            self.range.1 += CELL_BITS;
            assert(self.cells@.len() == self.cells.len());
        }
        match direction {
            Direction::Left => {
                self.head -= 1;
            },
            Direction::Right => {
                self.head += 1;
            },
        }
        proof {
            let after = old(self)@.move_head(direction);
            assert forall|position: int| self.holds_one(position) == after.ones.contains(
                position,
            ) by {
                if self.range.0 <= position <= self.range.1 {
                    let index = ((position - self.range.0) % 64) as u8;
                    assert(!word_bit(0u64, index)) by (bit_vector);
                    if old(self).range.0 <= position <= old(self).range.1 {
                        assert(old(self).holds_one(position) == word_bit(
                            old(self).cells@[(position - old(self).range.0) / 64],
                            ((position - old(self).range.0) % 64) as u8,
                        ));
                    }
                }
            }
            assert(self@.ones =~= after.ones);
        }
    }

    /// Counts the positions of the tape that hold the symbol 1. The count
    /// must fit in `usize`; it does on a tape that took no more than
    /// `usize::MAX` writes.
    pub fn count_ones(&self) -> (count: usize)
        requires
            self.wf(),
            self@.count_ones() <= usize::MAX,
        ensures
            count == self@.count_ones(),
    {
        proof {
            self.lemma_wf_view();
        }
        let len = self.cells.len();
        let mut count: usize = 0;
        let ghost mut seen: Set<int> = Set::empty();
        let mut cell_index: usize = 0;
        while cell_index < len
            invariant
                self.wf(),
                len == self.cells@.len(),
                cell_index <= len,
                seen.finite(),
                count == seen.len(),
                self@.ones.finite(),
                self@.ones.len() <= usize::MAX,
                forall|position: int|
                    seen.contains(position) == (self.holds_one(position) && position
                        < self.range.0 + cell_index * 64),
            decreases len - cell_index,
        {
            let word = self.cells[cell_index];
            let mut bit_index: u8 = 0;
            while bit_index < 64
                invariant
                    self.wf(),
                    len == self.cells@.len(),
                    cell_index < len,
                    word == self.cells@[cell_index as int],
                    bit_index <= 64,
                    seen.finite(),
                    count == seen.len(),
                    self@.ones.finite(),
                    self@.ones.len() <= usize::MAX,
                    forall|position: int|
                        seen.contains(position) == (self.holds_one(position) && position
                            < self.range.0 + cell_index * 64 + bit_index),
                decreases 64 - bit_index,
            {
                let ghost position = self.range.0 + cell_index * 64 + bit_index;
                assert(self.holds_one(position) == word_bit(word, bit_index));
                if (word >> bit_index) & 1 == 1 {
                    proof {
                        seen = seen.insert(position);
                        assert(seen.subset_of(self@.ones));
                        vstd::set_lib::lemma_len_subset(seen, self@.ones);
                    }
                    count += 1;
                }
                bit_index += 1;
            }
            cell_index += 1;
        }
        proof {
            assert(seen =~= self@.ones);
        }
        count
    }
}

} // verus!
