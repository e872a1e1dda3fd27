use vstd::prelude::*;

verus! {

/// The successor of a generation counter that wraps past `u64::MAX`
/// (`wrapping_add(1)`).
pub open spec fn wrap_next(g: u64) -> u64 {
    if g == u64::MAX {
        0
    } else {
        (g + 1) as u64
    }
}

pub fn wrapping_next(g: u64) -> (r: u64)
    ensures
        r == wrap_next(g),
{
    if g == u64::MAX {
        0
    } else {
        g + 1
    }
}

/// A wrapped successor never equals the generation it supersedes.
pub proof fn lemma_wrap_next_differs(g: u64)
    ensures
        wrap_next(g) != g,
{
}

/// The successor of a query generation: one past the current value, where
/// wrapping onto 0 lands on 1 instead, because 0 means "no query".
pub open spec fn nonzero_next(g: u64) -> u64 {
    if g == u64::MAX {
        1
    } else {
        (g + 1) as u64
    }
}

/// A query generation counter whose issued values are never 0.
#[derive(Clone, Copy, Debug, PartialEq, Eq, Default)]
pub struct GenerationCounter {
    pub value: u64,
}

impl GenerationCounter {
    pub fn new(value: u64) -> (c: GenerationCounter)
        ensures
            c.value == value,
    {
        GenerationCounter { value }
    }

    /// The generation currently in force.
    pub fn current(&self) -> (v: u64)
        ensures
            v == self.value,
    {
        self.value
    }

    /// Issue the next generation: it becomes current and
    /// every earlier one is superseded.
    pub fn next_generation(&mut self) -> (g: u64)
        ensures
            g == nonzero_next(old(self).value),
            final(self).value == g,
            g != 0,
            g != old(self).value,
    {
        let g = if self.value == u64::MAX {
            1
        } else {
            self.value + 1
        };
        self.value = g;
        g
    }

    /// A result produced under `generation` may still be published.
    pub fn is_current(&self, generation: u64) -> (r: bool)
        ensures
            r == (generation == self.value),
    {
        generation == self.value
    }
}

/// Once a newer generation has been issued, a result stamped with an earlier
/// one is no longer current.
pub proof fn lemma_superseded_is_stale(g: u64)
    ensures
        nonzero_next(g) != g,
        nonzero_next(g) != 0,
{
}

} // verus!
