//! Arguments of the interpreter.
//!
//! Reading the actual command line (and deriving the default concurrency
//! bound from the machine's core count) is the command-line layer's job;
//! the library only defines the argument record itself.

use vstd::prelude::*;

verus! {

/// Args for the interpreter.
#[derive(Debug, Clone)]
pub struct Args {
    pub max_machines: usize,
    pub scramble: bool,
    pub fail_io: Option<usize>,
    pub fuzz: Option<String>,
    pub module: Option<String>,
}

impl Args {
    /// The argument set with every option off, for a machine-concurrency
    /// bound supplied by the caller.
    pub fn with_max_machines(max_machines: usize) -> (a: Args)
        ensures
            a.max_machines == max_machines,
            !a.scramble,
            a.fail_io is None,
            a.fuzz is None,
            a.module is None,
    {
        Args { max_machines, scramble: false, fail_io: None, fuzz: None, module: None }
    }
}

} // verus!
