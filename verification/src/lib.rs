//! Seed of a concurrent actor-style language runtime.
//!
//! The one fully realized subsystem is the [`machine_table`] module: a
//! grow-only, two-level radix page table that maps dense 64-bit identifiers
//! to runtime execution units ("machines").  Everything else — the argument
//! record, the AST, the solver interface, the interpreter shell — is the
//! surrounding scaffolding of the runtime.

use vstd::prelude::*;

pub mod args;
pub mod ast;
pub mod machine_table;
pub mod smt;
mod stack;

pub use args::Args;
use machine_table::MachineTable;

verus! {

/// The abstract syntax tree of the module under interpretation.  Loading
/// one from a file belongs to the command-line layer.
pub struct Ast;

/// A runtime execution unit: what the scheduler's machine table stores.
pub struct Machine {
    pub ast: Ast,
}

/// The scheduler: owns the table of live machines.
pub struct Scheduler {
    pub work: MachineTable<Machine>,
}

impl Scheduler {
    /// Starts a scheduler with an empty machine table at the default
    /// identifier ceiling.
    pub fn start(_args: &Args) -> (s: Scheduler)
        ensures
            s.work.wf(),
            s.work@ == machine_table::empty_view::<Machine>(machine_table::MAX_MID),
    {
        Scheduler { work: MachineTable::default() }
    }
}

/// The interpreter shell.
pub struct Interpreter {
    pub ast: Ast,
    pub scheduler: Scheduler,
}

impl Interpreter {
    /// One round of the read-eval-print loop.  The language has no surface
    /// forms to evaluate, so a round leaves the interpreter unchanged.
    pub fn repl(&mut self)
        ensures
            *final(self) == *old(self),
    {
    }
}

/// A scheduling-delay hook called at key points of the machine table's
/// algorithms.  Test harnesses of the surrounding system may inject random
/// jitter here to widen the explored interleavings; this build does
/// nothing, at zero cost.
pub fn debug_delay() {
}

} // verus!
