//! A list of output destinations that every write goes to.
use vstd::prelude::*;

verus! {

/// A multi-way writer: the destinations, in the order they were added.
pub struct Tee<W> {
    pub writers: Vec<W>,
}

impl<W> View for Tee<W> {
    type V = Seq<W>;

    open spec fn view(&self) -> Seq<W> {
        self.writers@
    }
}

impl<W> Tee<W> {
    /// A tee with no destinations.
    pub fn new() -> (r: Self)
        ensures
            r@ == Seq::<W>::empty(),
    {
        Tee { writers: Vec::new() }
    }

    /// Adds a destination after the existing ones.
    pub fn push(&mut self, w: W)
        ensures
            final(self)@ == old(self)@.push(w),
    {
        self.writers.push(w);
    }
}

} // verus!
