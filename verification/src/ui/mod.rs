//! Presentation layers: `plain` for pipes, CI logs, and `--json`; the others
//! for interactive terminals.

use vstd::prelude::*;

pub mod app;
pub mod layout;
pub mod lines;
pub mod palette;
pub mod plain;
pub mod shape;
pub mod table;

verus! {

/// Exit status of a finished session.
#[derive(Debug, Clone, Copy, PartialEq, Eq, Structural)]
pub enum Outcome {
    Finished,
    Aborted,
    Failed,
}

impl Outcome {
    pub fn exit_code(self) -> (r: u8)
        ensures
            r == (match self {
                Outcome::Finished => 0u8,
                Outcome::Aborted => 130,
                Outcome::Failed => 1,
            }),
    {
        match self {
            Outcome::Finished => 0,
            // Conventional "terminated by SIGINT" code.
            Outcome::Aborted => 130,
            Outcome::Failed => 1,
        }
    }
}

} // verus!
