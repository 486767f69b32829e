use vstd::prelude::*;

pub mod buf;
pub mod conn;
pub mod frame;
pub mod write;

verus! {

/// Options handed to every conformance case.
pub struct Config {}

} // verus!
