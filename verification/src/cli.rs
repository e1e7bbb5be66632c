//! The command surface: what the binary is asked to do. The argument
//! reading itself is the caller's work; these are the values it hands over.

use vstd::prelude::*;

verus! {

/// One invocation's command.
#[derive(Clone, Debug)]
pub enum Command {
    Download { path: String },
    Create { path: String },
    Test,
}

/// The parsed arguments.
#[derive(Clone, Debug)]
pub struct Args {
    pub command: Command,
}

} // verus!
