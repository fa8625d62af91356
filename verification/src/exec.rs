//! Shell state carried across executed lines.
//!
//! Running commands — builtin effects, external executables, the driver
//! loop — is input/output and lives with the caller; the state and the
//! error form it reports are defined here.

use vstd::prelude::*;

verus! {

/// Why executing a parsed line stopped.
#[derive(Clone, Debug, PartialEq, Eq)]
pub enum Error {
    /// Leave the shell with this status.
    Exit(i32),
    /// A command failed, with its report.
    CommandError(String),
}

/// The shell's state between lines.
#[derive(Clone, Debug)]
pub struct Shell {
    last_status: Option<i32>,
}

impl Shell {
    /// The status of the last finished command, if any.
    pub closed spec fn status(&self) -> Option<i32> {
        self.last_status
    }

    /// A fresh shell: no command has finished yet.
    pub fn new() -> (r: Self)
        ensures
            r.status() is None,
    {
        Self::default()
    }
}

impl Default for Shell {
    /// The same fresh state as `new`.
    fn default() -> (r: Self)
        ensures
            r.status() is None,
    {
        Shell { last_status: None }
    }
}

} // verus!
