//! The flags of runs that were asked to stop.

use vstd::prelude::*;

verus! {

/// The flags of handles. A flag that was set stays set.
#[derive(Debug)]
pub struct Flags {
    set: Vec<bool>,
}

impl View for Flags {
    type V = Seq<bool>;

    closed spec fn view(&self) -> Seq<bool> {
        self.set@
    }
}

/// Some flags and one more, which is not set.
pub open spec fn with_flag(flags: Seq<bool>) -> Seq<bool> {
    flags.push(false)
}

impl Flags {
    /// No flags.
    pub fn new() -> (flags: Self)
        ensures
            flags@ == Seq::<bool>::empty(),
    {
        Flags { set: Vec::new() }
    }

    /// Adds a flag that is not set.
    pub(crate) fn add(&mut self) -> (bit: usize)
        ensures
            bit == old(self)@.len(),
            final(self)@ == with_flag(old(self)@),
    {
        let bit: usize = self.set.len();
        self.set.push(false);
        bit
    }

    /// Sets a flag.
    pub(crate) fn raise(&mut self, bit: usize)
        requires
            bit < old(self)@.len(),
        ensures
            final(self)@ == old(self)@.update(bit as int, true),
    {
        self.set.set(bit, true);
    }

    /// Whether a flag is set.
    pub(crate) fn read(&self, bit: usize) -> (set: bool)
        requires
            bit < self@.len(),
        ensures
            set == self@[bit as int],
    {
        self.set[bit]
    }
}

impl Default for Flags {
    fn default() -> (flags: Self)
        ensures
            flags@ == Seq::<bool>::empty(),
    {
        Flags::new()
    }
}

} // verus!
