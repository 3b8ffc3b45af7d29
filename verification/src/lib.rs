use vstd::prelude::*;

pub mod args;
pub mod preprocessors;
pub mod resolver;
pub mod response;
pub mod strings;

verus! {

/// Priority given to a preprocessor whose configured priority could not be
/// used: the largest value, which sorts it last.
pub const LOWEST_PRIORITY: u16 = 65535;

} // verus!
