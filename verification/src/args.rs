//! The command line: the size of the window and the marker of the reset
//! events.

use vstd::prelude::*;
use vstd::string::*;
use crate::decimal::{parse_usize, parse_word};
use crate::text::chars_of;
use crate::window::texts;

verus! {

/// `text` starts with `prefix`.
pub open spec fn has_prefix(text: Seq<char>, prefix: Seq<char>) -> bool {
    prefix.len() <= text.len() && text.subrange(0, prefix.len() as int) == prefix
}

/// What follows the first `skip` characters of `text`.
pub open spec fn after(text: Seq<char>, skip: nat) -> Seq<char> {
    text.subrange(skip as int, text.len() as int)
}

/// The window size after an option has given `text` as its value: the number
/// that the text denotes where it denotes one above zero, else the size as it
/// was.
pub open spec fn window_size_or(text: Seq<char>, current: usize) -> usize {
    match parse_word(text) {
        Some(v) => if v > 0 {
            v
        } else {
            current
        },
        None => current,
    }
}

/// The settings that the arguments from position `at` on leave, given the
/// settings so far. `-l N`, `--lines N`, `-l=N` and `--lines=N` set the window
/// size; `--skip-at TEXT` and `--skip-at=TEXT` set the marker. An option that
/// lacks its value, a value that is no size, and any other argument change
/// nothing. Of several settings of one thing the last one holds.
pub open spec fn settings_from(
    args: Seq<Seq<char>>,
    at: int,
    lines: usize,
    skip_at: Option<Seq<char>>,
) -> (usize, Option<Seq<char>>)
    decreases args.len() - at,
{
    if at < 0 || at >= args.len() {
        (lines, skip_at)
    } else {
        let arg = args[at];
        if arg == "-l"@ || arg == "--lines"@ {
            if at + 1 < args.len() {
                settings_from(args, at + 2, window_size_or(args[at + 1], lines), skip_at)
            } else {
                (lines, skip_at)
            }
        } else if has_prefix(arg, "-l="@) {
            settings_from(args, at + 1, window_size_or(after(arg, "-l="@.len()), lines), skip_at)
        } else if has_prefix(arg, "--lines="@) {
            settings_from(
                args,
                at + 1,
                window_size_or(after(arg, "--lines="@.len()), lines),
                skip_at,
            )
        } else if arg == "--skip-at"@ {
            if at + 1 < args.len() {
                settings_from(args, at + 2, lines, Some(args[at + 1]))
            } else {
                (lines, skip_at)
            }
        } else if has_prefix(arg, "--skip-at="@) {
            settings_from(args, at + 1, lines, Some(after(arg, "--skip-at="@.len())))
        } else {
            settings_from(args, at + 1, lines, skip_at)
        }
    }
}

/// The settings of a command line: a window of one line and no marker, unless
/// the arguments say otherwise.
pub open spec fn settings(args: Seq<Seq<char>>) -> (usize, Option<Seq<char>>) {
    settings_from(args, 0, 1, None)
}

/// The text of an optional string.
pub open spec fn optional_text(value: Option<String>) -> Option<Seq<char>> {
    match value {
        Some(s) => Some(s@),
        None => None,
    }
}

/// Tells whether `arg` is exactly `word`.
fn is_word(arg: &String, word: &str) -> (same: bool)
    ensures
        same == (arg@ == word@),
{
    let owned = word.to_owned();
    *arg == owned
}

/// What follows `prefix` in `arg`, where `arg` starts with it.
fn value_after(arg: &String, prefix: &str) -> (value: Option<String>)
    ensures
        has_prefix(arg@, prefix@) ==> optional_text(value) == Some(after(arg@, prefix@.len())),
        !has_prefix(arg@, prefix@) ==> value is None,
{
    let text = chars_of(arg.as_str());
    let start = chars_of(prefix);
    if start.len() > text.len() {
        return None;
    }
    let mut i: usize = 0;
    while i < start.len()
        invariant
            i <= start@.len() <= text@.len(),
            text@ == arg@,
            start@ == prefix@,
            text@.subrange(0, i as int) == start@.subrange(0, i as int),
        decreases start@.len() - i,
    {
        if text[i] != start[i] {
            proof {
                if has_prefix(arg@, prefix@) {
                    assert(arg@.subrange(0, prefix@.len() as int)[i as int] == prefix@[i as int]);
                }
            }
            return None;
        }
        i = i + 1;
        proof {
            assert(text@.subrange(0, i as int) =~= text@.subrange(0, i - 1).push(text@[i - 1]));
            assert(start@.subrange(0, i as int) =~= start@.subrange(0, i - 1).push(start@[i - 1]));
        }
    }
    proof {
        assert(start@.subrange(0, start@.len() as int) =~= start@);
    }
    Some(arg.as_str().substring_char(start.len(), text.len()).to_owned())
}

/// Reads the settings from the arguments of the command line, the program's
/// own name left out: the size of the window and the marker, if any.
pub fn parse_args(args: &Vec<String>) -> (result: (usize, Option<String>))
    ensures
        (result.0, optional_text(result.1)) == settings(texts(args@)),
{
    let mut lines: usize = 1;
    let mut skip_at: Option<String> = None;
    let mut i: usize = 0;
    let ghost all = texts(args@);
    while i < args.len()
        invariant
            i <= args@.len(),
            all == texts(args@),
            settings_from(all, i as int, lines, optional_text(skip_at)) == settings(all),
        decreases args@.len() - i,
    {
        let arg = &args[i];
        proof {
            assert(all[i as int] == arg@);
            if i + 1 < args@.len() {
                assert(all[i + 1] == args@[i + 1]@);
            }
        }
        if is_word(arg, "-l") || is_word(arg, "--lines") {
            if i + 1 < args.len() {
                match parse_usize(args[i + 1].as_str()) {
                    Some(v) => {
                        if v > 0 {
                            lines = v;
                        }
                    },
                    None => {},
                }
                i = i + 2;
            } else {
                i = i + 1;
            }
        } else if let Some(value) = value_after(arg, "-l=") {
            match parse_usize(value.as_str()) {
                Some(v) => {
                    if v > 0 {
                        lines = v;
                    }
                },
                None => {},
            }
            i = i + 1;
        } else if let Some(value) = value_after(arg, "--lines=") {
            match parse_usize(value.as_str()) {
                Some(v) => {
                    if v > 0 {
                        lines = v;
                    }
                },
                None => {},
            }
            i = i + 1;
        } else if is_word(arg, "--skip-at") {
            if i + 1 < args.len() {
                skip_at = Some(args[i + 1].clone());
                i = i + 2;
            } else {
                i = i + 1;
            }
        } else if let Some(value) = value_after(arg, "--skip-at=") {
            skip_at = Some(value);
            i = i + 1;
        } else {
            i = i + 1;
        }
    }
    (lines, skip_at)
}

} // verus!
