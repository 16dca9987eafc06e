//! Decisions of the run set-up that do not depend on the emulator: where a
//! memory region is mapped, and which mapping failures a run survives.
use vstd::prelude::*;

verus! {

/// Mapping granularity of the emulator.
pub const PAGE_SIZE: usize = 0x1000;

/// How the emulator refused to map a region.
#[derive(Clone, Copy, PartialEq, Eq, Structural, Debug)]
pub enum MapFailure {
    /// The region, or part of it, is mapped already.
    AlreadyMapped,
    /// The emulator has no memory left for it.
    NoMemory,
    /// Any other refusal.
    Other,
}

pub open spec fn spec_map_region(address: u64, size: usize) -> (u64, usize) {
    (address & 0xFFFF_FFFF_FFFF_F000u64, if size >= PAGE_SIZE { size } else { PAGE_SIZE })
}

/// The region that is mapped for `size` bytes at `address`: its base
/// rounded down to a page, its length at least one page.
pub fn map_region(address: u64, size: usize) -> (r: (u64, usize))
    ensures
        r == spec_map_region(address, size),
{
    let length = if size >= PAGE_SIZE {
        size
    } else {
        PAGE_SIZE
    };
    (address & 0xFFFF_FFFF_FFFF_F000u64, length)
}

/// Whether a run goes on after this mapping failure (with a warning): a
/// region that is mapped already or does not fit is skipped, anything else
/// ends the run.
pub fn map_failure_tolerated(failure: MapFailure) -> (r: bool)
    ensures
        r == (failure == MapFailure::AlreadyMapped || failure == MapFailure::NoMemory),
{
    match failure {
        MapFailure::AlreadyMapped => true,
        MapFailure::NoMemory => true,
        MapFailure::Other => false,
    }
}

} // verus!
