//! Erasure by padding: a text that replaces a longer one is followed by
//! exactly as many spaces as the longer one had more characters.

use vstd::prelude::*;
use crate::multi_line::{
    cursor_up_ops, draw_ops, lemma_no_rows_left_over, lemma_step_keeps_wf, row_ops, MultiModel,
};
use crate::single_line::{overwrite_ops, single_next, single_ops};
use crate::terminal::{encoding, encoding_all, Op};
use crate::text::spaces;

verus! {

/// One more operation at the end of a list is written last.
pub proof fn lemma_encoding_push(ops: Seq<Op>, op: Op)
    ensures
        encoding_all(ops.push(op)) == encoding_all(ops) + encoding(op),
{
    assert(ops.push(op).drop_last() =~= ops);
}

/// A row whose new text is shorter than its old one is written as the text,
/// the difference of the widths in spaces, and a newline.
pub proof fn lemma_shorter_row_is_padded(text: Seq<char>, old_width: nat)
    requires
        text.len() < old_width,
    ensures
        row_ops(text, old_width) == seq![
            Op::Text(text),
            Op::Spaces((old_width - text.len()) as nat),
            Op::Newline,
        ],
        encoding_all(row_ops(text, old_width)) == text + spaces((old_width - text.len()) as nat)
            + seq!['\n'],
{
    let pad = (old_width - text.len()) as nat;
    let none = Seq::<Op>::empty();
    lemma_encoding_push(none, Op::Text(text));
    lemma_encoding_push(none.push(Op::Text(text)), Op::Spaces(pad));
    lemma_encoding_push(none.push(Op::Text(text)).push(Op::Spaces(pad)), Op::Newline);
    assert(row_ops(text, old_width) =~= none.push(Op::Text(text)).push(Op::Spaces(pad)).push(
        Op::Newline,
    ));
    assert(encoding_all(none) + text =~= text);
}

/// A line that overwrites a longer one is written as a carriage return, the
/// text, the difference of the widths in spaces, and a carriage return.
pub proof fn lemma_shorter_line_is_padded(line: Seq<char>, old_width: nat)
    requires
        line.len() < old_width,
    ensures
        encoding_all(overwrite_ops(old_width, line)) == seq!['\r'] + line + spaces(
            (old_width - line.len()) as nat,
        ) + seq!['\r'],
{
    let pad = (old_width - line.len()) as nat;
    let none = Seq::<Op>::empty();
    let a = none.push(Op::CarriageReturn);
    let b = a.push(Op::Text(line));
    let c = b.push(Op::Spaces(pad));
    let d = c.push(Op::CarriageReturn);
    lemma_encoding_push(none, Op::CarriageReturn);
    lemma_encoding_push(a, Op::Text(line));
    lemma_encoding_push(b, Op::Spaces(pad));
    lemma_encoding_push(c, Op::CarriageReturn);
    lemma_encoding_push(d, Op::Flush);
    assert(overwrite_ops(old_width, line) =~= d.push(Op::Flush));
    assert(encoding_all(d.push(Op::Flush)) =~= seq!['\r'] + line + spaces(pad) + seq!['\r']);
}

/// Erasure in single-line mode. Of two lines drawn one after the other, where
/// the second is shorter than the first, the second is written as its text
/// followed by exactly the difference of the two widths in spaces.
pub proof fn lemma_single_line_erasure(first: Seq<char>, second: Seq<char>)
    requires
        second.len() < first.len(),
    ensures
        single_ops(single_next(first, false), second, false) == seq![
            Op::CarriageReturn,
            Op::Text(second),
            Op::Spaces((first.len() - second.len()) as nat),
            Op::CarriageReturn,
            Op::Flush,
        ],
        encoding_all(single_ops(single_next(first, false), second, false)) == seq!['\r'] + second
            + spaces((first.len() - second.len()) as nat) + seq!['\r'],
{
    lemma_shorter_line_is_padded(second, first.len());
}

/// Erasure in multi-line mode. Take two drawings of the window, one right
/// after the other, and a row that both of them have. Where the row's new text
/// is shorter than its old one, what the second drawing writes for that row is
/// the new text, exactly the difference of the two widths in spaces, and a
/// newline.
pub proof fn lemma_erasure(state: MultiModel, first: Seq<char>, second: Seq<char>, i: int)
    requires
        state.wf(),
        0 <= i < state.step(first, false).window.len(),
        i < state.step(first, false).step(second, false).window.len(),
        state.step(first, false).step(second, false).window[i].len() < state.step(
            first,
            false,
        ).window[i].len(),
    ensures
        ({
            let drawn = state.step(first, false);
            let next = drawn.step(second, false);
            let pad = (drawn.window[i].len() - next.window[i].len()) as nat;
            let row = seq![Op::Text(next.window[i]), Op::Spaces(pad), Op::Newline];
            &&& drawn.ops(second, false) == cursor_up_ops(drawn.window.len()) + draw_ops(
                next.window,
                drawn.prev_widths,
                next.window.len() as int,
            ) + seq![Op::Flush]
            &&& draw_ops(next.window, drawn.prev_widths, i + 1) == draw_ops(
                next.window,
                drawn.prev_widths,
                i,
            ) + row
            &&& encoding_all(row) == next.window[i] + spaces(pad) + seq!['\n']
        }),
{
    let drawn = state.step(first, false);
    let next = drawn.step(second, false);
    lemma_step_keeps_wf(state, first, false);
    lemma_no_rows_left_over(drawn, second);
    lemma_shorter_row_is_padded(next.window[i], drawn.window[i].len());
    assert(drawn.ops(second, false) =~= cursor_up_ops(drawn.window.len()) + draw_ops(
        next.window,
        drawn.prev_widths,
        next.window.len() as int,
    ) + seq![Op::Flush]);
}

} // verus!
