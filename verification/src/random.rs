//! Where the search gets its random numbers from.
//!
//! The search draws through the `RandomSource` trait, so that the generator
//! can be chosen: `ThreadRandom` draws from the thread-local generator of the
//! `rand` crate, `Replay` hands out numbers that were fixed beforehand and so
//! makes a search repeatable. Every source keeps, for specifications only,
//! the list of the numbers it has handed out: what a search builds is stated
//! as a function of that list.

use rand::Rng;
use vstd::prelude::*;

verus! {

/// `rand::Rng::gen_range` on the generator of `rand::thread_rng`, for an
/// inclusive range of bytes: the number drawn lies within the bounds, both
/// included. Which one it is depends on the generator's state, so nothing
/// more is said of it. An empty range makes `gen_range` panic and is left out.
#[verifier::external_body]
fn random_in(low: u8, high: u8) -> (number: u8)
    requires
        low <= high,
    ensures
        low <= number <= high,
{
    rand::thread_rng().gen_range(low..=high)
}

/// A source of random numbers.
pub trait RandomSource {
    /// The numbers handed out so far, oldest first.
    spec fn drawn(&self) -> Seq<u8>;

    /// Draws a number between `low` and `high`, both included.
    fn draw(&mut self, low: u8, high: u8) -> (number: u8)
        requires
            low <= high,
        ensures
            low <= number <= high,
            final(self).drawn() == old(self).drawn().push(number),
    ;
}

/// The thread-local generator of the `rand` crate, seeded by the system.
/// Draws are uniform.
pub struct ThreadRandom {
    drawn: Ghost<Seq<u8>>,
}

impl ThreadRandom {
    /// A handle on the generator that has not drawn yet.
    pub fn new() -> (source: ThreadRandom)
        ensures
            source.drawn() == Seq::<u8>::empty(),
    {
        ThreadRandom { drawn: Ghost(Seq::empty()) }
    }
}

impl RandomSource for ThreadRandom {
    closed spec fn drawn(&self) -> Seq<u8> {
        self.drawn@
    }

    fn draw(&mut self, low: u8, high: u8) -> (number: u8) {
        let number = random_in(low, high);
        self.drawn = Ghost(self.drawn@.push(number));
        number
    }
}

/// A source that hands out numbers fixed beforehand, one per draw, each
/// brought into the range asked for. Once the numbers are used up, every
/// draw gives the lower bound.
pub struct Replay {
    values: Vec<u8>,
    position: usize,
    drawn: Ghost<Seq<u8>>,
}

impl View for Replay {
    type V = Seq<u8>;

    /// The numbers that have not been used yet. What has been handed out
    /// is `drawn()`.
    closed spec fn view(&self) -> Seq<u8> {
        if self.position <= self.values@.len() {
            self.values@.skip(self.position as int)
        } else {
            Seq::empty()
        }
    }
}

impl Replay {
    /// The number of `low..=high` that `value` stands for: `low` plus the
    /// remainder of `value` by the size of the range.
    pub open spec fn fit(value: u8, low: u8, high: u8) -> int {
        low + (value as int) % (high - low + 1)
    }

    /// Creates a source that hands out `values`, first one first.
    pub fn new(values: Vec<u8>) -> (source: Replay)
        ensures
            source@ == values@,
            source.drawn() == Seq::<u8>::empty(),
    {
        let source = Replay { values, position: 0, drawn: Ghost(Seq::empty()) };
        assert(source@ =~= values@);
        source
    }
}

impl RandomSource for Replay {
    closed spec fn drawn(&self) -> Seq<u8> {
        self.drawn@
    }

    fn draw(&mut self, low: u8, high: u8) -> (number: u8)
        ensures
            old(self)@.len() > 0 ==> number == Replay::fit(old(self)@[0], low, high),
            old(self)@.len() > 0 ==> final(self)@ == old(self)@.skip(1),
            old(self)@.len() == 0 ==> number == low && final(self)@ == old(self)@,
    {
        let number = if self.position < self.values.len() {
            let value = self.values[self.position];
            self.position += 1;
            let span: u16 = (high - low) as u16 + 1;
            let offset: u16 = value as u16 % span;
            assert(self@ =~= old(self)@.skip(1));
            low + offset as u8
        } else {
            low
        };
        self.drawn = Ghost(self.drawn@.push(number));
        number
    }
}

} // verus!
