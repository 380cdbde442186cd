//! When a line ends the current block instead of being shown.

use vstd::prelude::*;
use crate::text::{contains_text, has_substring, is_blank, line_is_blank};

verus! {

/// The rule that decides which lines are reset events. One rule is in force
/// for a whole run.
#[derive(Debug, PartialEq, Eq)]
pub enum ResetPolicy {
    /// No line is a reset event.
    Never,
    /// A line is a reset event when it contains the marker, anywhere and with
    /// the same case.
    Marker(String),
    /// A line is a reset event when it is empty or holds white space only.
    BlankLine,
}

/// The mathematical value of a [`ResetPolicy`].
pub enum ResetRule {
    Never,
    Marker(Seq<char>),
    BlankLine,
}

impl ResetRule {
    /// The rule makes `line` a reset event.
    pub open spec fn fires(self, line: Seq<char>) -> bool {
        match self {
            ResetRule::Never => false,
            ResetRule::Marker(marker) => has_substring(line, marker),
            ResetRule::BlankLine => is_blank(line),
        }
    }

    /// The rule that a configuration selects: the marker rule when a marker is
    /// configured; without a marker the blank-line rule where that is switched
    /// on, and no rule at all where it is not.
    pub open spec fn resolved(marker: Option<Seq<char>>, blank_lines: bool) -> ResetRule {
        match marker {
            Some(m) => ResetRule::Marker(m),
            None => if blank_lines {
                ResetRule::BlankLine
            } else {
                ResetRule::Never
            },
        }
    }
}

impl View for ResetPolicy {
    type V = ResetRule;

    open spec fn view(&self) -> ResetRule {
        match self {
            ResetPolicy::Never => ResetRule::Never,
            ResetPolicy::Marker(marker) => ResetRule::Marker(marker@),
            ResetPolicy::BlankLine => ResetRule::BlankLine,
        }
    }
}

/// The text of an optional marker.
pub open spec fn marker_text(marker: Option<&str>) -> Option<Seq<char>> {
    match marker {
        Some(m) => Some(m@),
        None => None,
    }
}

impl ResetPolicy {
    /// Picks the one policy of a run. A configured marker takes precedence
    /// over the blank-line rule.
    pub fn resolve(marker: Option<&str>, blank_lines: bool) -> (policy: ResetPolicy)
        ensures
            policy@ == ResetRule::resolved(marker_text(marker), blank_lines),
    {
        match marker {
            Some(m) => ResetPolicy::Marker(m.to_owned()),
            None => if blank_lines {
                ResetPolicy::BlankLine
            } else {
                ResetPolicy::Never
            },
        }
    }

    /// Tells whether `line` is a reset event under this policy.
    pub fn fires(&self, line: &str) -> (reset: bool)
        ensures
            reset == self@.fires(line@),
    {
        match self {
            ResetPolicy::Never => false,
            ResetPolicy::Marker(marker) => contains_text(line, marker.as_str()),
            ResetPolicy::BlankLine => line_is_blank(line),
        }
    }
}

} // verus!
