//! Register allocation over live intervals.

pub mod linear;

pub use linear::LinearScan;

use vstd::prelude::*;

verus! {

/// Failure of the register allocator.
#[derive(Debug, Clone, PartialEq, Eq)]
pub enum RegAllocError {
    /// No register was available and nothing could be spilled.
    OutOfRegisters,
    /// A register index outside the register file was encountered.
    InvalidRegister(u8),
    /// A spill slot could not be allocated.
    SpillFailed(String),
}

pub type RegAllocResult<T> = Result<T, RegAllocError>;

/// Physical register of the target machine.
pub type PhysicalReg = crate::target::Reg;

/// Identifier of a virtual register, minted during translation.
#[derive(Debug, Clone, Copy, PartialEq, Eq, Structural, Hash)]
pub struct VirtualReg(pub u32);

/// Live interval of a virtual register: the half-open range
/// `[start, end)` of linear instruction indices during which its value
/// must be preserved.
#[derive(Debug, Clone, Copy, PartialEq, Eq, Structural)]
pub struct LiveInterval {
    pub vreg: VirtualReg,
    pub start: u32,
    pub end: u32,
}

/// Two intervals overlap when each starts before the other ends.
pub open spec fn spec_overlaps(a: LiveInterval, b: LiveInterval) -> bool {
    a.start < b.end && b.start < a.end
}

impl LiveInterval {
    pub fn new(vreg: VirtualReg, start: u32, end: u32) -> (r: Self)
        ensures
            r == (LiveInterval { vreg, start, end }),
    {
        Self { vreg, start, end }
    }

    /// Returns whether this interval overlaps `other`, with half-open
    /// semantics: `[s1, e1)` and `[s2, e2)` overlap when `s1 < e2 && s2 < e1`.
    pub fn overlaps(&self, other: &LiveInterval) -> (r: bool)
        ensures
            r == spec_overlaps(*self, *other),
    {
        self.start < other.end && other.start < self.end
    }
}

/// Overlap is symmetric, and an interval that ends no later than another
/// starts is disjoint from it.
pub proof fn lemma_overlap_symmetric(a: LiveInterval, b: LiveInterval)
    ensures
        spec_overlaps(a, b) == spec_overlaps(b, a),
        a.end <= b.start ==> !spec_overlaps(a, b),
        a.end <= b.start ==> !spec_overlaps(b, a),
{
}

} // verus!
