//! The command line of `drag-into-djay`.
use vstd::prelude::*;

verus! {

/// Loads the selected track into a djay Pro deck.
pub struct Cli {
    /// The deck to load into (1 or 2).
    pub deck: u8,
    /// How long to hover over the drop target before releasing, in
    /// milliseconds.
    pub drop_delay: u64,
    /// Skip activating the source app before the drag.
    pub no_activate: bool,
    /// The session log file to append the track to, if any.
    pub session_file: Option<String>,
}

} // verus!
