//! The renderer for a window of several lines: the last lines are kept and
//! redrawn as a block, row by row.

use vstd::prelude::*;
use crate::terminal::{Op, TermOp};
use crate::window::{bounded_push, counts, widths_of, Window};

verus! {

/// The width that row `i` had in the previous drawing; zero for a row that was
/// not drawn.
pub open spec fn width_at(prev_widths: Seq<nat>, i: int) -> nat {
    if 0 <= i < prev_widths.len() {
        prev_widths[i]
    } else {
        0
    }
}

/// What is written for one row: the text, as many spaces as the row's former
/// text was longer, and a newline.
pub open spec fn row_ops(text: Seq<char>, prev_width: nat) -> Seq<Op> {
    if prev_width > text.len() {
        seq![Op::Text(text), Op::Spaces((prev_width - text.len()) as nat), Op::Newline]
    } else {
        seq![Op::Text(text), Op::Newline]
    }
}

/// What is written for the first `upto` rows of a window, top to bottom.
pub open spec fn draw_ops(lines: Seq<Seq<char>>, prev_widths: Seq<nat>, upto: int) -> Seq<Op>
    decreases upto,
{
    if upto <= 0 {
        Seq::empty()
    } else {
        draw_ops(lines, prev_widths, upto - 1) + row_ops(
            lines[upto - 1],
            width_at(prev_widths, upto - 1),
        )
    }
}

/// What is written to blank the rows `from..to` of the previous drawing: for
/// each row its former width in spaces, and a newline.
pub open spec fn erase_ops(prev_widths: Seq<nat>, from: int, to: int) -> Seq<Op>
    decreases to - from,
{
    if to <= from {
        Seq::empty()
    } else {
        erase_ops(prev_widths, from, to - 1) + seq![
            Op::Spaces(width_at(prev_widths, to - 1)),
            Op::Newline,
        ]
    }
}

/// The cursor movement to the top of a block of `printed_count` rows. Nothing
/// is written where no row was drawn.
pub open spec fn cursor_up_ops(printed_count: nat) -> Seq<Op> {
    if printed_count > 0 {
        seq![Op::CursorUp(printed_count)]
    } else {
        Seq::empty()
    }
}

/// What is written to draw `lines` over a previous drawing: up to the top of
/// the old block, every row of the window, blanks over any rows of the old
/// block that the window no longer reaches, and a flush.
pub open spec fn redraw_ops(lines: Seq<Seq<char>>, prev_widths: Seq<nat>, printed_count: nat) -> Seq<
    Op,
> {
    cursor_up_ops(printed_count) + draw_ops(lines, prev_widths, lines.len() as int) + erase_ops(
        prev_widths,
        lines.len() as int,
        printed_count as int,
    ) + seq![Op::Flush]
}

/// What is written on a reset event: where rows were drawn, up to the top of
/// the block, blanks over each of its rows, and a flush; else nothing.
pub open spec fn clear_ops(prev_widths: Seq<nat>, printed_count: nat) -> Seq<Op> {
    if printed_count > 0 {
        cursor_up_ops(printed_count) + erase_ops(prev_widths, 0, printed_count as int) + seq![
            Op::Flush,
        ]
    } else {
        Seq::empty()
    }
}

/// The mathematical value of a [`MultiLine`] renderer.
pub struct MultiModel {
    /// The largest number of lines in the window.
    pub capacity: nat,
    /// The lines of the window, oldest first.
    pub window: Seq<Seq<char>>,
    /// The widths of the rows as they were drawn last.
    pub prev_widths: Seq<nat>,
    /// The number of rows that were drawn last.
    pub printed_count: nat,
}

impl MultiModel {
    /// The state before the first line.
    pub open spec fn initial(capacity: nat) -> MultiModel {
        MultiModel {
            capacity,
            window: Seq::empty(),
            prev_widths: Seq::empty(),
            printed_count: 0,
        }
    }

    /// The window is within its capacity, and the remembered drawing is the
    /// drawing of the window: one row for each line, with that line's width.
    pub open spec fn wf(self) -> bool {
        &&& self.window.len() <= self.capacity
        &&& self.prev_widths.len() == self.printed_count
        &&& self.prev_widths == widths_of(self.window)
    }

    /// The state after one incoming line. A reset event empties the window and
    /// forgets the drawing. Any other line enters the window, and the drawing
    /// becomes that of the new window.
    pub open spec fn step(self, line: Seq<char>, reset: bool) -> MultiModel {
        if reset {
            MultiModel::initial(self.capacity)
        } else {
            let window = bounded_push(self.window, line, self.capacity);
            MultiModel {
                capacity: self.capacity,
                window,
                prev_widths: widths_of(window),
                printed_count: window.len(),
            }
        }
    }

    /// What is written for one incoming line.
    pub open spec fn ops(self, line: Seq<char>, reset: bool) -> Seq<Op> {
        if reset {
            clear_ops(self.prev_widths, self.printed_count)
        } else {
            redraw_ops(
                bounded_push(self.window, line, self.capacity),
                self.prev_widths,
                self.printed_count,
            )
        }
    }
}

/// Every step leaves a well-formed state well-formed.
pub proof fn lemma_step_keeps_wf(state: MultiModel, line: Seq<char>, reset: bool)
    requires
        state.wf(),
    ensures
        state.step(line, reset).wf(),
{
    if reset {
        assert(widths_of(Seq::<Seq<char>>::empty()) =~= Seq::<nat>::empty());
    }
}

/// In a well-formed state a redraw never has rows of the old block left over
/// below the window: the window shrinks only on a reset event, which forgets
/// the old block altogether.
pub proof fn lemma_no_rows_left_over(state: MultiModel, line: Seq<char>)
    requires
        state.wf(),
    ensures
        state.printed_count <= bounded_push(state.window, line, state.capacity).len(),
        erase_ops(
            state.prev_widths,
            bounded_push(state.window, line, state.capacity).len() as int,
            state.printed_count as int,
        ) == Seq::<Op>::empty(),
{
}

/// The state of the multi-line renderer: the window, and what was drawn last.
pub struct MultiLine {
    window: Window,
    prev_widths: Vec<usize>,
    printed_count: usize,
}

impl View for MultiLine {
    type V = MultiModel;

    closed spec fn view(&self) -> MultiModel {
        MultiModel {
            capacity: self.window.bound(),
            window: self.window@,
            prev_widths: counts(self.prev_widths@),
            printed_count: self.printed_count as nat,
        }
    }
}

impl MultiLine {
    /// The value is well-formed, and so is its view.
    pub closed spec fn wf(&self) -> bool {
        &&& self.window.wf()
        &&& self@.wf()
    }

    /// A well-formed renderer has a well-formed view.
    pub proof fn lemma_wf(&self)
        requires
            self.wf(),
        ensures
            self@.wf(),
    {
    }

    /// The state before the first line, for a window of up to `capacity`
    /// lines.
    pub fn new(capacity: usize) -> (state: MultiLine)
        ensures
            state.wf(),
            state@ == MultiModel::initial(capacity as nat),
    {
        let state = MultiLine { window: Window::new(capacity), prev_widths: Vec::new(), printed_count: 0 };
        proof {
            state.window.lemma_wf();
            assert(counts(state.prev_widths@) =~= Seq::<nat>::empty());
            assert(widths_of(state.window@) =~= Seq::<nat>::empty());
        }
        state
    }

    /// The number of rows that were drawn last.
    pub fn printed_count(&self) -> (n: usize)
        ensures
            n == self@.printed_count,
    {
        self.printed_count
    }

    /// The window.
    pub fn window(&self) -> (window: &Window)
        ensures
            window@ == self@.window,
            window.bound() == self@.capacity,
    {
        &self.window
    }

    /// Handles one line. A reset event is not drawn: it blanks the rows of
    /// the block, empties the window and forgets the drawing. Any other line
    /// enters the window, which is then drawn over the old block.
    pub fn consume(&mut self, line: &str, reset: bool) -> (ops: Vec<TermOp>)
        requires
            old(self).wf(),
        ensures
            final(self).wf(),
            final(self)@ == old(self)@.step(line@, reset),
            ops.deep_view() == old(self)@.ops(line@, reset),
    {
        proof {
            self.window.lemma_wf();
        }
        let mut ops: Vec<TermOp> = Vec::new();
        let ghost before = self@;
        if reset {
            if self.printed_count > 0 {
                ops.push(TermOp::CursorUp(self.printed_count));
                let mut i: usize = 0;
                while i < self.printed_count
                    invariant
                        i <= self.printed_count,
                        self.prev_widths@.len() == self.printed_count,
                        before.prev_widths == counts(self.prev_widths@),
                        before.printed_count == self.printed_count,
                        ops.deep_view() == cursor_up_ops(before.printed_count) + erase_ops(
                            before.prev_widths,
                            0,
                            i as int,
                        ),
                    decreases self.printed_count - i,
                {
                    let ghost drawn = ops.deep_view();
                    let w = self.prev_widths[i];
                    ops.push(TermOp::Spaces(w));
                    ops.push(TermOp::Newline);
                    i = i + 1;
                    proof {
                        assert(width_at(before.prev_widths, i - 1) == w);
                        assert(ops.deep_view() =~= drawn + seq![Op::Spaces(w as nat), Op::Newline]);
                        assert(erase_ops(before.prev_widths, 0, i as int) == erase_ops(
                            before.prev_widths,
                            0,
                            i - 1,
                        ) + seq![Op::Spaces(w as nat), Op::Newline]);
                        assert(ops.deep_view() =~= cursor_up_ops(before.printed_count) + erase_ops(
                            before.prev_widths,
                            0,
                            i as int,
                        ));
                    }
                }
                ops.push(TermOp::Flush);
                proof {
                    assert(ops.deep_view() =~= clear_ops(before.prev_widths, before.printed_count));
                }
            }
            self.window.clear();
            self.prev_widths.clear();
            self.printed_count = 0;
            proof {
                self.window.lemma_wf();
                assert(counts(self.prev_widths@) =~= Seq::<nat>::empty());
                assert(widths_of(self.window@) =~= Seq::<nat>::empty());
            }
        } else {
            self.window.push(line.to_owned());
            let cur_widths = self.window.widths();
            let cur_len = self.window.len();
            let ghost lines = self.window@;
            proof {
                self.window.lemma_wf();
                lemma_no_rows_left_over(before, line@);
                assert(counts(cur_widths@).len() == widths_of(lines).len());
            }
            if self.printed_count > 0 {
                ops.push(TermOp::CursorUp(self.printed_count));
            }
            let mut i: usize = 0;
            while i < cur_len
                invariant
                    i <= cur_len,
                    cur_len == lines.len(),
                    cur_len == cur_widths@.len(),
                    lines == self.window@,
                    counts(cur_widths@) == widths_of(lines),
                    before.prev_widths == counts(self.prev_widths@),
                    before.printed_count == self.printed_count,
                    ops.deep_view() == cursor_up_ops(before.printed_count) + draw_ops(
                        lines,
                        before.prev_widths,
                        i as int,
                    ),
                decreases cur_len - i,
            {
                let ghost drawn = ops.deep_view();
                let w = cur_widths[i];
                proof {
                    assert(counts(cur_widths@)[i as int] == widths_of(lines)[i as int]);
                    if i < self.prev_widths@.len() {
                        assert(counts(self.prev_widths@)[i as int] == self.prev_widths@[i as int]);
                    }
                }
                ops.push(TermOp::Text(self.window.line(i).clone()));
                if i < self.prev_widths.len() && self.prev_widths[i] > w {
                    ops.push(TermOp::Spaces(self.prev_widths[i] - w));
                }
                ops.push(TermOp::Newline);
                i = i + 1;
                proof {
                    let row = row_ops(lines[i - 1], width_at(before.prev_widths, i - 1));
                    assert(ops.deep_view() =~= drawn + row);
                    assert(draw_ops(lines, before.prev_widths, i as int) == draw_ops(
                        lines,
                        before.prev_widths,
                        i - 1,
                    ) + row);
                    assert(ops.deep_view() =~= cursor_up_ops(before.printed_count) + draw_ops(
                        lines,
                        before.prev_widths,
                        i as int,
                    ));
                }
            }
            // The window never shrinks here, so no row of the old block is left
            // below it to blank.
            ops.push(TermOp::Flush);
            proof {
                assert(ops.deep_view() =~= redraw_ops(
                    lines,
                    before.prev_widths,
                    before.printed_count,
                ));
            }
            self.prev_widths = cur_widths;
            self.printed_count = cur_len;
        }
        ops
    }
}

} // verus!
