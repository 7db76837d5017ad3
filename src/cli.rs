//! The command line, as plain values.
use vstd::prelude::*;

verus! {

/// The parsed command line: what to do, and as whom.
#[derive(Clone, Debug)]
pub struct Cli {
    pub command: Commands,
    pub name: String,
    pub host: String,
}

/// What the program is asked to do.
#[derive(Clone, Debug)]
pub enum Commands {
    /// Send a message to one user.
    Send { recipient: String, message: String },
    /// Send a message to everyone.
    Broadcast { message: String },
    /// List the users online.
    List,
    /// Start an interactive session.
    Chat,
}

} // verus!
