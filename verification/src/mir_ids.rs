//! Handles of program items that the encoder threads through its fixups.
use vstd::prelude::*;

verus! {

/// A function of the program, by its index in the function list.
#[derive(Clone, Copy, PartialEq, Eq, Structural, Debug)]
pub struct FnId(pub u32);

impl FnId {
    /// The position of the function in the program's function list.
    pub fn index(self) -> (r: usize)
        ensures
            r == self.0,
    {
        self.0 as usize
    }
}

} // verus!
