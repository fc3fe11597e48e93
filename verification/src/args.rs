//! The server's command-line settings.

use vstd::prelude::*;

verus! {

/// The port the server listens on when none is given.
pub const DEFAULT_PORT: u32 = 80;

/// The server's settings: the port to listen on.
#[derive(Debug, Clone, Copy, PartialEq, Eq)]
pub struct Args {
    pub port: u32,
}

impl Default for Args {
    /// The settings when nothing is given: port `DEFAULT_PORT`.
    fn default() -> (a: Args)
        ensures
            a.port == DEFAULT_PORT,
    {
        Args { port: DEFAULT_PORT }
    }
}

} // verus!
