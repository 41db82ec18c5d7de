//! The request validator: raw inputs become a validated `Requirements`
//! value, or a descriptive error.

use vstd::prelude::*;

verus! {

/// Everything that can go wrong between raw user input and a finished dump.
#[derive(Clone, Copy, Debug, PartialEq, Eq, Structural)]
pub enum DumpError {
    /// A numeral argument does not match its grammar, or overflows `usize`.
    MalformedNumber,
    /// The start address is not a multiple of 4.
    MisalignedAddress,
    /// The span length is not a multiple of 4.
    MisalignedSize,
    /// Zero words per row would make the row arithmetic degenerate.
    ZeroRowWidth,
    /// The memory-mapping collaborator could not produce a view.
    MappingFailure,
}

/// Raw, as-parsed command line input, not yet validated.
#[derive(Clone, Copy, Debug, PartialEq, Eq, Structural)]
pub struct Opt {
    /// Start address in bytes.
    pub start_addr_bytes: usize,
    /// Read size in bytes.
    pub size_bytes: usize,
    /// Count of 32-bit values per displayed row.
    pub per_row: usize,
}

/// A validated dump request: the three fields carried unchanged once
/// the alignment and non-degeneracy checks have passed.
#[derive(Clone, Copy, Debug, PartialEq, Eq, Structural)]
pub struct Requirements {
    pub addr: usize,
    pub size: usize,
    pub per_row: usize,
}

impl Requirements {
    /// The invariant that validation establishes.
    pub open spec fn wf(self) -> bool {
        &&& self.addr % 4 == 0
        &&& self.size % 4 == 0
        &&& self.per_row > 0
    }

    /// Checks the three invariants in order, failing fast on the first
    /// violation; on success the fields pass through unchanged.
    pub fn try_from(opt: Opt) -> (result: Result<Requirements, DumpError>)
        ensures
            result matches Ok(reqs) ==> {
                &&& reqs.wf()
                &&& reqs.addr == opt.start_addr_bytes
                &&& reqs.size == opt.size_bytes
                &&& reqs.per_row == opt.per_row
            },
            result.is_ok() <==> {
                &&& opt.start_addr_bytes % 4 == 0
                &&& opt.size_bytes % 4 == 0
                &&& opt.per_row != 0
            },
            result == Err::<Requirements, DumpError>(DumpError::MisalignedAddress) <==> opt.start_addr_bytes % 4 != 0,
            result == Err::<Requirements, DumpError>(DumpError::MisalignedSize) <==> {
                &&& opt.start_addr_bytes % 4 == 0
                &&& opt.size_bytes % 4 != 0
            },
            result == Err::<Requirements, DumpError>(DumpError::ZeroRowWidth) <==> {
                &&& opt.start_addr_bytes % 4 == 0
                &&& opt.size_bytes % 4 == 0
                &&& opt.per_row == 0
            },
    {
        if opt.start_addr_bytes % 4 != 0 {
            return Err(DumpError::MisalignedAddress);
        }
        if opt.size_bytes % 4 != 0 {
            return Err(DumpError::MisalignedSize);
        }
        if opt.per_row == 0 {
            return Err(DumpError::ZeroRowWidth);
        }
        Ok(Requirements { addr: opt.start_addr_bytes, size: opt.size_bytes, per_row: opt.per_row })
    }
}

} // verus!
