//! Counting the turns of the anemometer from looks at its pin.

use vstd::prelude::*;

verus! {

/// The state of a count of the anemometer's turns: the level that the pin
/// was seen at last, and the number of times that it was seen to have gone
/// high.
pub struct CycleCount {
    pub last_state: bool,
    pub cycle_count: nat,
}

impl CycleCount {
    /// The count after one round, in which the pin was looked at twice: a
    /// pin that was low when it was seen last and is high at the first look
    /// has gone high once more, and the second look is what is remembered.
    pub open spec fn observe(self, first: bool, second: bool) -> CycleCount {
        CycleCount {
            last_state: second,
            cycle_count: if !self.last_state && first {
                self.cycle_count + 1
            } else {
                self.cycle_count
            },
        }
    }

    /// The count after the rounds `looks`, one after the other.
    pub open spec fn observe_all(self, looks: Seq<(bool, bool)>) -> CycleCount
        decreases looks.len(),
    {
        if looks.len() == 0 {
            self
        } else {
            self.observe_all(looks.drop_last()).observe(looks.last().0, looks.last().1)
        }
    }
}

/// A pin is counted to have gone high at most once in each round.
pub proof fn lemma_count_is_bounded(start: CycleCount, looks: Seq<(bool, bool)>)
    ensures
        start.cycle_count <= start.observe_all(looks).cycle_count <= start.cycle_count
            + looks.len(),
    decreases looks.len(),
{
    if looks.len() > 0 {
        lemma_count_is_bounded(start, looks.drop_last());
    }
}

/// Counts how often the pin of the anemometer goes high.
pub struct CycleCounter {
    last_state: bool,
    cycle_count: u32,
}

impl View for CycleCounter {
    type V = CycleCount;

    closed spec fn view(&self) -> CycleCount {
        CycleCount { last_state: self.last_state, cycle_count: self.cycle_count as nat }
    }
}

impl CycleCounter {
    /// A counter that has counted nothing, for a pin that is at `level`.
    pub fn new(level: bool) -> (counter: Self)
        ensures
            counter@ == (CycleCount { last_state: level, cycle_count: 0 }),
    {
        CycleCounter { last_state: level, cycle_count: 0 }
    }

    /// Takes the two looks at the pin of one round. Nothing is taken, and
    /// `false` is returned, once the count has reached the largest number
    /// that it can hold.
    pub fn observe(&mut self, first: bool, second: bool) -> (taken: bool)
        ensures
            taken == (old(self)@.cycle_count < u32::MAX),
            final(self)@ == if taken {
                old(self)@.observe(first, second)
            } else {
                old(self)@
            },
    {
        if self.cycle_count == u32::MAX {
            return false;
        }
        if self.last_state == false && first {
            self.cycle_count += 1;
        }
        self.last_state = second;
        true
    }

    /// How often the pin was seen to have gone high.
    pub fn cycle_count(&self) -> (count: u32)
        ensures
            count == self@.cycle_count,
    {
        self.cycle_count
    }
}

} // verus!
