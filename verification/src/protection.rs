//! The protection discipline for mapped code regions: a region is reserved,
//! then writable, then executable, each transition one-way, and no state
//! ever carries write and execute permission together.

use vstd::prelude::*;

verus! {

/// The protection bit for readable pages.
pub const PROT_READ_BIT: i32 = 1;

/// The protection bit for writable pages.
pub const PROT_WRITE_BIT: i32 = 2;

/// The protection bit for executable pages.
pub const PROT_EXEC_BIT: i32 = 4;

/// Where a mapped region stands in its lifecycle.
#[derive(Debug, Clone, Copy, PartialEq, Eq, Structural)]
pub enum RegionState {
    /// Freshly mapped: no access.
    Reserved,
    /// Read and write access, for filling in code.
    Writable,
    /// Read and execute access, for running it.
    Executable,
}

/// The protection bits a region carries in each state.
pub open spec fn spec_protection_bits(s: RegionState) -> i32 {
    match s {
        RegionState::Reserved => 0,
        RegionState::Writable => 3,
        RegionState::Executable => 5,
    }
}

/// The one-way transitions the lifecycle allows.
pub open spec fn can_transition(a: RegionState, b: RegionState) -> bool {
    ||| (a == RegionState::Reserved && b == RegionState::Writable)
    ||| (a == RegionState::Writable && b == RegionState::Executable)
}

impl RegionState {
    /// The protection bits to map or protect a region with in this state:
    /// nothing while reserved, read|write while writable, read|execute once
    /// executable.
    pub fn protection_bits(&self) -> (r: i32)
        ensures
            r == spec_protection_bits(*self),
    {
        match self {
            RegionState::Reserved => 0,
            RegionState::Writable => 3,
            RegionState::Executable => 5,
        }
    }

    /// Makes a reserved region writable; the old state is consumed.
    pub fn into_writable(self) -> (r: Self)
        requires
            self == RegionState::Reserved,
        ensures
            r == RegionState::Writable,
            can_transition(self, r),
    {
        RegionState::Writable
    }

    /// Makes a writable region executable; the old state is consumed, so the
    /// region is never writable again.
    pub fn into_executable(self) -> (r: Self)
        requires
            self == RegionState::Writable,
        ensures
            r == RegionState::Executable,
            can_transition(self, r),
    {
        RegionState::Executable
    }
}

/// No state of the lifecycle carries write and execute permission at once,
/// and none can be regained: every transition chain visits each state at
/// most once, in lifecycle order.
pub proof fn lemma_write_xor_execute(s: RegionState)
    ensures
        !(spec_protection_bits(s) & PROT_WRITE_BIT != 0 && spec_protection_bits(s) & PROT_EXEC_BIT
            != 0),
        forall|b: RegionState| can_transition(s, b) ==> !can_transition(b, s),
{
    let bits = spec_protection_bits(s);
    assert(!(0i32 & 2i32 != 0 && 0i32 & 4i32 != 0)) by (bit_vector);
    assert(!(3i32 & 2i32 != 0 && 3i32 & 4i32 != 0)) by (bit_vector);
    assert(!(5i32 & 2i32 != 0 && 5i32 & 4i32 != 0)) by (bit_vector);
}

} // verus!
