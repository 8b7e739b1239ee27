//! A command and its output, as cut out of a captured pane.

use vstd::prelude::*;

verus! {

/// One command of the scrollback and the output it produced.
pub struct CommandBlock {
    /// The command line as captured, prompt and ANSI escape codes included.
    pub command: String,
    /// The command line with ANSI escape codes removed.
    pub clean_command: String,
    /// The command alone, without the prompt.
    pub command_text: String,
    /// The output as captured, ANSI escape codes included.
    pub output: String,
}

} // verus!
