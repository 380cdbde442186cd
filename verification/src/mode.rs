//! The three ways of handling a stream, and the choice between them.

use vstd::prelude::*;

verus! {

/// How lines are handled. The mode is chosen once, before the first line.
#[derive(Clone, Copy, Debug, PartialEq, Eq, Structural)]
pub enum Mode {
    /// Every line is echoed unchanged.
    Passthrough,
    /// Every line overwrites the one before it.
    SingleLine,
    /// The last lines are kept and redrawn as a block.
    MultiLine,
}

/// The mode for an output stream and a window size: pass-through when the
/// output is no interactive terminal or the window holds no line, whatever the
/// other value is; with a terminal, single-line for a window of one line and
/// multi-line for a larger one.
pub open spec fn mode_for(is_interactive_terminal: bool, window_size: nat) -> Mode {
    if !is_interactive_terminal || window_size == 0 {
        Mode::Passthrough
    } else if window_size == 1 {
        Mode::SingleLine
    } else {
        Mode::MultiLine
    }
}

/// Selects the mode for an output stream and a window size.
pub fn select_mode(is_interactive_terminal: bool, window_size: usize) -> (mode: Mode)
    ensures
        mode == mode_for(is_interactive_terminal, window_size as nat),
{
    if !is_interactive_terminal || window_size == 0 {
        Mode::Passthrough
    } else if window_size == 1 {
        Mode::SingleLine
    } else {
        Mode::MultiLine
    }
}

/// `atty::is` asked about the standard output: whether that stream is attached
/// to a terminal. The answer depends on how the process was started, so
/// nothing is claimed of it.
#[verifier::external_body]
pub(crate) fn stdout_is_terminal() -> (yes: bool) {
    atty::is(atty::Stream::Stdout)
}

} // verus!
