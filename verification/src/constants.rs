//! Reserved names and the fixed texts of the interpreter.

use vstd::prelude::*;

pub mod errors;
pub mod exit_codes;

verus! {

/// The name under which a method finds its receiver.
pub const THIS_KEYWORD: &'static str = "this";

/// The name under which a method finds the superclass of its class.
pub const SUPER_KEYWORD: &'static str = "super";

/// The name of the method that a class runs on each new instance.
pub const INIT_METHOD: &'static str = "init";

/// The name of the built-in clock function.
pub const CLOCK_FUNCTION: &'static str = "clock";

} // verus!
