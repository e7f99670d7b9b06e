use vstd::prelude::*;

verus! {

/// Holds whether a fetch is armed, and a generation counter that
/// distinguishes fetch attempts. The generation only ever grows; each call
/// of `arm` produces a fresh generation, even with no resolution in between.
#[derive(Clone, Copy, Debug, PartialEq, Eq, Structural)]
pub struct TriggerCell {
    pub armed: bool,
    pub generation: u64,
}

impl TriggerCell {
    /// A fresh cell: not armed, generation zero.
    pub fn new() -> (r: TriggerCell)
        ensures
            !r.armed,
            r.generation == 0,
    {
        TriggerCell { armed: false, generation: 0 }
    }

    /// Arms the cell and starts a new generation.
    pub fn arm(&mut self)
        requires
            old(self).generation < u64::MAX,
        ensures
            final(self).armed,
            final(self).generation == old(self).generation + 1,
    {
        self.armed = true;
        self.generation = self.generation + 1;
    }

    /// Disarms the cell without starting a new generation; used to force an
    /// immediate return to a neutral or loading view.
    pub fn reset(&mut self)
        ensures
            !final(self).armed,
            final(self).generation == old(self).generation,
    {
        self.armed = false;
    }
}

} // verus!
