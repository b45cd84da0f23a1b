use vstd::prelude::*;

pub mod contract;
pub mod error;
pub mod json;
pub mod runtime;
pub mod text;
pub mod utils;

verus! {

/// The runtime's version, as `runtime.version` reports it.
pub const VERSION: &'static str = "0.2.0";

} // verus!
