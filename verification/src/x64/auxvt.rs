//! The values that the loader hands to the loaded program in its auxiliary
//! vector.

use vstd::prelude::*;

verus! {

/// The auxiliary-vector values that the loader gathers while it maps an image.
#[derive(Debug, Clone, Copy)]
pub struct Auxvt {
    pub base_interp: u64,
    pub base_phdr: u64,
    pub sz_phdr_entry: u64,
    pub n: u64,
    pub ep: u64,
    pub target_name: u64,
    pub fd: u64,
}

impl Auxvt {
    /// An auxiliary vector with the given values.
    pub fn new(
        base_interp: u64,
        base_phdr: u64,
        sz_phdr_entry: u64,
        n: u64,
        ep: u64,
        target_name: u64,
        fd: u64,
    ) -> (r: Self)
        ensures
            r == (Auxvt { base_interp, base_phdr, sz_phdr_entry, n, ep, target_name, fd }),
    {
        Self { base_interp, base_phdr, sz_phdr_entry, n, ep, target_name, fd }
    }

    /// An auxiliary vector whose values are all zero.
    pub fn new_null() -> (r: Self)
        ensures
            r == Auxvt::new_null_spec(),
    {
        Self::new(0, 0, 0, 0, 0, 0, 0)
    }

    /// The auxiliary vector whose values are all zero.
    pub open spec fn new_null_spec() -> Self {
        Auxvt {
            base_interp: 0,
            base_phdr: 0,
            sz_phdr_entry: 0,
            n: 0,
            ep: 0,
            target_name: 0,
            fd: 0,
        }
    }
}

/// Tags of the auxiliary-vector entries.
pub const AT_PHDR: u64 = 3;
pub const AT_PHENT: u64 = 4;
pub const AT_ENTRY: u64 = 9;
pub const AT_UID: u64 = 11;
pub const AT_EUID: u64 = 12;
pub const AT_GID: u64 = 13;
pub const AT_EGID: u64 = 14;
pub const AT_EXECFN: u64 = 31;
pub const AT_RANDOM: u64 = 25;
pub const AT_PLATFORM: u64 = 15;
pub const AT_PHNUM: u64 = 5;
pub const AT_SYSINFO_EHDR: u64 = 7;

} // verus!
