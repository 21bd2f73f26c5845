//! The runtime support routines that compiled code calls.
use vstd::prelude::*;

verus! {

/// A routine of the runtime support library.
#[derive(Clone, Copy, PartialEq, Eq, Structural, Debug)]
pub enum RuntimeFn {
    /// Allocate `n` elements of a given size from an allocator handle.
    Alloc,
    /// Resize an allocation.
    Realloc,
    /// Release an allocation.
    Free,
    /// Register a fresh allocator handle.
    AllocId,
    /// Tear down a general-purpose allocator, reporting leaks.
    GpaDeinit,
    /// Release every block of an arena.
    ArenaDeinit,
}

/// What compiled code knows of the runtime support library.
pub struct RuntimeAbi {
    /// The offset of the clock in the state segment.
    pub clock_nanos: u32,
    /// The offset of the random number state in the state segment.
    pub rng_state: u32,
    /// The runtime's number of each allocator kind.
    pub kind_tags: Vec<i64>,
    /// The runtime's number of any other kind.
    pub other_kind: i64,
}

impl RuntimeAbi {
    /// The runtime's number of an allocator kind.
    pub open spec fn tag_of(self, kind: int) -> i64 {
        if 0 <= kind < self.kind_tags@.len() {
            self.kind_tags@[kind]
        } else {
            self.other_kind
        }
    }

    /// The runtime's number of an allocator kind.
    pub fn kind_tag(&self, kind: u64) -> (r: i64)
        ensures
            r == self.tag_of(kind as int),
    {
        if kind < self.kind_tags.len() as u64 {
            self.kind_tags[kind as usize]
        } else {
            self.other_kind
        }
    }
}

} // verus!
