//! The startup configuration: the tracked symbols and the feed credential,
//! supplied once at process start and fixed for the process lifetime.
use vstd::prelude::*;

verus! {

/// The options the program is started with.
pub struct CLIOptions {
    /// whether to log verbosely
    pub verbose: bool,
    /// the feed credential
    pub token: String,
    /// the stock symbols to track
    pub stocks: Vec<String>,
}

} // verus!
