use vstd::prelude::*;

use crate::vc::{in_place_reservation, Vc};

verus! {

/// What an in-place decode does with the next element of its source.
#[derive(Debug, Clone, Copy, PartialEq, Eq)]
pub enum InPlaceStep {
    /// Decode it into the existing slot at this index.
    Reuse(usize),
    /// Decode it fresh and append it.
    Extend,
}

/// The progress of one in-place decode: how many slots the target held when
/// it began, and how many of them have been decoded into so far.
#[derive(Debug)]
pub struct InPlaceCursor {
    reusable: usize,
    filled: usize,
}

impl InPlaceCursor {
    pub closed spec fn reusable(&self) -> nat {
        self.reusable as nat
    }

    pub closed spec fn filled(&self) -> nat {
        self.filled as nat
    }

    /// Starts an in-place decode of `target`, reserving room for the part of
    /// the bounded `hint` that its current elements do not cover.
    pub fn begin<T>(target: &mut Vc<T>, hint: Option<usize>) -> (c: InPlaceCursor)
        ensures
            final(target)@ == old(target)@,
            c.reusable() == old(target)@.len(),
            c.filled() == 0,
    {
        let len = target.len();
        let additional = in_place_reservation(hint, len);
        if additional > 0 {
            target.reserve(additional);
        }
        InPlaceCursor { reusable: len, filled: 0 }
    }

    /// The slot for the next element while unvisited slots remain, else
    /// appending.
    pub fn next_step(&self) -> (s: InPlaceStep)
        ensures
            self.filled() < self.reusable() ==> s == InPlaceStep::Reuse(self.filled() as usize),
            self.filled() >= self.reusable() ==> s == InPlaceStep::Extend,
    {
        if self.filled < self.reusable {
            InPlaceStep::Reuse(self.filled)
        } else {
            InPlaceStep::Extend
        }
    }

    /// Records that the slot named by `next_step` now holds a decoded element.
    pub fn slot_decoded(&mut self)
        ensures
            final(self).reusable() == old(self).reusable(),
            old(self).filled() < old(self).reusable() ==> final(self).filled() == old(self).filled() + 1,
            old(self).filled() >= old(self).reusable() ==> final(self).filled() == old(self).filled(),
    {
        if self.filled < self.reusable {
            self.filled = self.filled + 1;
        }
    }

    /// Closes the decode when the source has no more elements: slots that
    /// were never reached are cut off, since they hold stale elements.
    pub fn finish<T>(&self, target: &mut Vc<T>)
        ensures
            self.filled() < self.reusable() && self.filled() <= old(target)@.len() ==> final(target)@
                == old(target)@.subrange(0, self.filled() as int),
            self.filled() < self.reusable() && self.filled() > old(target)@.len() ==> final(target)@
                == old(target)@,
            self.filled() >= self.reusable() ==> final(target)@ == old(target)@,
    {
        if self.filled < self.reusable {
            target.truncate(self.filled);
        }
    }
}

} // verus!
