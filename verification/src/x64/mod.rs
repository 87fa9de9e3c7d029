//! A loaded x86-64 program: where it starts and where its stack is.

pub mod auxvt;

use vstd::prelude::*;

verus! {

/// A program ready to run: its entry point and its initial stack pointer.
#[derive(Debug)]
pub struct Binary64 {
    pub ep: u64,
    pub stack: u64,
}

impl Binary64 {
    /// A program with the given entry point and stack pointer.
    pub fn new(ep: u64, stack: u64) -> (r: Self)
        ensures
            r.ep == ep,
            r.stack == stack,
    {
        Self { ep, stack }
    }
}

} // verus!
