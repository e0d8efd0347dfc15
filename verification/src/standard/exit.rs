//! Exits the program.
use vstd::prelude::*;

verus! {

/// Asks the host to end the program.
#[derive(Clone, Copy)]
pub struct Exit;

} // verus!
