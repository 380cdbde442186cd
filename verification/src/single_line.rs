//! The renderer for a window of one line: every line overwrites the one
//! before it, in place.

use vstd::prelude::*;
use crate::terminal::{Op, TermOp};
use crate::text::width;

verus! {

/// What is written to replace a line of width `prev_width` by `line`: back to
/// the first column, the text, as many spaces as the old line was longer, and
/// back to the first column again. The row is never cleared first.
pub open spec fn overwrite_ops(prev_width: nat, line: Seq<char>) -> Seq<Op> {
    if prev_width > line.len() {
        seq![
            Op::CarriageReturn,
            Op::Text(line),
            Op::Spaces((prev_width - line.len()) as nat),
            Op::CarriageReturn,
            Op::Flush,
        ]
    } else {
        seq![Op::CarriageReturn, Op::Text(line), Op::CarriageReturn, Op::Flush]
    }
}

/// What is written on a reset event: a newline, which leaves the current row
/// as it is for good.
pub open spec fn finalize_ops() -> Seq<Op> {
    seq![Op::Newline, Op::Flush]
}

/// What is written for one incoming line.
pub open spec fn single_ops(prev_width: nat, line: Seq<char>, reset: bool) -> Seq<Op> {
    if reset {
        finalize_ops()
    } else {
        overwrite_ops(prev_width, line)
    }
}

/// The width to remember after one incoming line: nothing after a reset
/// event, else the width of the line that was drawn.
pub open spec fn single_next(line: Seq<char>, reset: bool) -> nat {
    if reset {
        0
    } else {
        line.len()
    }
}

/// The state of the single-line renderer: the width of the line that the
/// current row shows.
pub struct SingleLine {
    prev_width: usize,
}

impl View for SingleLine {
    type V = nat;

    closed spec fn view(&self) -> nat {
        self.prev_width as nat
    }
}

impl SingleLine {
    /// The state before the first line: nothing has been drawn.
    pub fn new() -> (state: SingleLine)
        ensures
            state@ == 0,
    {
        SingleLine { prev_width: 0 }
    }

    /// The width of the line that the current row shows.
    pub fn prev_width(&self) -> (w: usize)
        ensures
            w == self@,
    {
        self.prev_width
    }

    /// Handles one line. A reset event is not drawn: it ends the current row
    /// and forgets its width. Any other line overwrites the current row.
    pub fn consume(&mut self, line: &str, reset: bool) -> (ops: Vec<TermOp>)
        ensures
            final(self)@ == single_next(line@, reset),
            ops.deep_view() == single_ops(old(self)@, line@, reset),
    {
        let mut ops: Vec<TermOp> = Vec::new();
        if reset {
            ops.push(TermOp::Newline);
            ops.push(TermOp::Flush);
            self.prev_width = 0;
        } else {
            let w = width(line);
            ops.push(TermOp::CarriageReturn);
            ops.push(TermOp::Text(line.to_owned()));
            if self.prev_width > w {
                ops.push(TermOp::Spaces(self.prev_width - w));
            }
            ops.push(TermOp::CarriageReturn);
            ops.push(TermOp::Flush);
            self.prev_width = w;
        }
        proof {
            assert(ops.deep_view() =~= single_ops(old(self)@, line@, reset));
        }
        ops
    }
}

} // verus!
