//! What the terminal shows after the renderer has written: the proofs that
//! the redraw algorithm displays the window, row for row, and leaves no stale
//! character behind.

use vstd::prelude::*;
use crate::mode::Mode;
use crate::multi_line::{
    cursor_up_ops, draw_ops, erase_ops, lemma_no_rows_left_over, lemma_step_keeps_wf, redraw_ops,
    row_ops, width_at, MultiModel,
};
use crate::page::{
    lemma_apply_concat, lemma_apply_none, lemma_apply_one, lemma_apply_push, lemma_apply_three,
    lemma_apply_two, lemma_overwrite_erases, lemma_spaces_blank, overwritten, shows, Page,
};
use crate::policy::ResetRule;
use crate::renderer::{EngineModel, RendererModel};
use crate::single_line::{finalize_ops, overwrite_ops};
use crate::terminal::Op;
use crate::text::spaces;
use crate::window::{bounded_push, last_lines, widths_of};

verus! {

/// The line at position `i` of a block; the empty text beyond its end.
pub open spec fn text_at(block: Seq<Seq<char>>, i: int) -> Seq<char> {
    if 0 <= i < block.len() {
        block[i]
    } else {
        Seq::empty()
    }
}

/// The page shows `window` as a block that ends just above the cursor, the
/// cursor stands in the first column, and everything from its row on is
/// blank.
pub open spec fn block_shown(page: Page, window: Seq<Seq<char>>) -> bool {
    &&& page.col == 0
    &&& page.row >= window.len()
    &&& page.shows_block(page.row - window.len(), window)
    &&& page.blank_from(page.row)
}

/// Drawing one row over a row that shows an older text leaves it showing the
/// new text, with the cursor at the start of the next row. No other row
/// changes.
pub proof fn lemma_row_drawn(page: Page, old_text: Seq<char>, text: Seq<char>)
    requires
        page.col == 0,
        shows(page.line(page.row), old_text),
    ensures
        ({
            let after = page.apply_all(row_ops(text, old_text.len()));
            &&& after.row == page.row + 1
            &&& after.col == 0
            &&& shows(after.line(page.row), text)
            &&& after.same_outside(page, page.row as int, page.row + 1int)
        }),
{
    lemma_overwrite_erases(page.line(page.row), old_text, text);
    let written = page.put(text);
    assert(written.line(page.row) == overwritten(page.line(page.row), 0, text));
    if old_text.len() > text.len() {
        let pad = (old_text.len() - text.len()) as nat;
        lemma_apply_three(page, Op::Text(text), Op::Spaces(pad), Op::Newline);
        let padded = written.put(spaces(pad));
        assert(padded.line(page.row) == overwritten(written.line(page.row), text.len(), spaces(pad)));
        let after = padded.apply(Op::Newline);
        assert(after.line(page.row) == padded.line(page.row));
        assert forall|r: nat| !(page.row <= r < page.row + 1) implies #[trigger] after.line(r)
            == page.line(r) by {
            assert(padded.line(r) == written.line(r));
        }
    } else {
        lemma_apply_two(page, Op::Text(text), Op::Newline);
        let after = written.apply(Op::Newline);
        assert(after.line(page.row) == written.line(page.row));
    }
}

/// Blanking one row that shows a text leaves it blank, with the cursor at the
/// start of the next row. No other row changes.
pub proof fn lemma_row_erased(page: Page, old_text: Seq<char>)
    requires
        page.col == 0,
        shows(page.line(page.row), old_text),
    ensures
        ({
            let after = page.apply_all(seq![Op::Spaces(old_text.len()), Op::Newline]);
            &&& after.row == page.row + 1
            &&& after.col == 0
            &&& shows(after.line(page.row), Seq::empty())
            &&& after.same_outside(page, page.row as int, page.row + 1int)
        }),
{
    lemma_spaces_blank(page.line(page.row), old_text);
    lemma_apply_two(page, Op::Spaces(old_text.len()), Op::Newline);
    let written = page.put(spaces(old_text.len()));
    assert(written.line(page.row) == overwritten(page.line(page.row), 0, spaces(old_text.len())));
    let after = written.apply(Op::Newline);
    assert(after.line(page.row) == written.line(page.row));
}

/// Drawing the first `k` lines of a window from the cursor's row down, over
/// rows that show the older block `shown` (and nothing below it), leaves those
/// rows showing the new lines. No other row changes.
pub proof fn lemma_rows_drawn(top: Page, shown: Seq<Seq<char>>, lines: Seq<Seq<char>>, k: int)
    requires
        top.col == 0,
        0 <= k <= lines.len(),
        forall|r: nat|
            top.row <= r < top.row + k ==> shows(#[trigger] top.line(r), text_at(shown, r - top.row)),
    ensures
        ({
            let after = top.apply_all(draw_ops(lines, widths_of(shown), k));
            &&& after.row == top.row + k
            &&& after.col == 0
            &&& after.shows_block(top.row as int, lines.take(k))
            &&& after.same_outside(top, top.row as int, top.row + k)
        }),
    decreases k,
{
    if k > 0 {
        lemma_rows_drawn(top, shown, lines, k - 1);
        let head = draw_ops(lines, widths_of(shown), k - 1);
        let mid = top.apply_all(head);
        let old_text = text_at(shown, k - 1);
        let r: nat = (top.row + k - 1) as nat;
        assert(width_at(widths_of(shown), k - 1) == old_text.len());
        assert(mid.line(r) == top.line(r));
        assert(shows(top.line(r), old_text));
        lemma_row_drawn(mid, old_text, lines[k - 1]);
        lemma_apply_concat(top, head, row_ops(lines[k - 1], old_text.len()));
        let after = top.apply_all(draw_ops(lines, widths_of(shown), k));
        assert(after == mid.apply_all(row_ops(lines[k - 1], old_text.len())));
        assert forall|q: nat| top.row <= q < top.row + lines.take(k).len() implies shows(
            #[trigger] after.line(q),
            lines.take(k)[q - top.row],
        ) by {
            if q < r {
                assert(after.line(q) == mid.line(q));
                assert(shows(mid.line(q), lines.take(k - 1)[q - top.row]));
            }
        }
        assert forall|q: nat| !(top.row <= q < top.row + k) implies #[trigger] after.line(q)
            == top.line(q) by {
            assert(after.line(q) == mid.line(q));
        }
    }
}

/// Blanking the first `k` rows of a block from the cursor's row down leaves
/// those rows blank. No other row changes.
pub proof fn lemma_rows_erased(top: Page, shown: Seq<Seq<char>>, k: int)
    requires
        top.col == 0,
        0 <= k <= shown.len(),
        top.shows_block(top.row as int, shown),
    ensures
        ({
            let after = top.apply_all(erase_ops(widths_of(shown), 0, k));
            &&& after.row == top.row + k
            &&& after.col == 0
            &&& forall|r: nat|
                top.row <= r < top.row + k ==> shows(#[trigger] after.line(r), Seq::empty())
            &&& after.same_outside(top, top.row as int, top.row + k)
        }),
    decreases k,
{
    if k > 0 {
        lemma_rows_erased(top, shown, k - 1);
        let head = erase_ops(widths_of(shown), 0, k - 1);
        let mid = top.apply_all(head);
        let old_text = shown[k - 1];
        let r: nat = (top.row + k - 1) as nat;
        let tail = seq![Op::Spaces(old_text.len()), Op::Newline];
        assert(width_at(widths_of(shown), k - 1) == old_text.len());
        assert(mid.line(r) == top.line(r));
        assert(shows(top.line(r), old_text));
        lemma_row_erased(mid, old_text);
        lemma_apply_concat(top, head, tail);
        let after = top.apply_all(erase_ops(widths_of(shown), 0, k));
        assert(after == mid.apply_all(tail));
        assert forall|q: nat| top.row <= q < top.row + k implies shows(
            #[trigger] after.line(q),
            Seq::empty(),
        ) by {
            if q < r {
                assert(after.line(q) == mid.line(q));
            }
        }
        assert forall|q: nat| !(top.row <= q < top.row + k) implies #[trigger] after.line(q)
            == top.line(q) by {
            assert(after.line(q) == mid.line(q));
        }
    }
}

/// One step of the multi-line renderer keeps the block on display: where the
/// page showed the window before the line came in, it shows the new window
/// afterwards. A line that enters the window leaves the top of the block where
/// it was; a reset event leaves the cursor where it was, above it the blanked
/// rows of the old block. Rows above the old block never change.
pub proof fn lemma_block_redrawn(page: Page, state: MultiModel, line: Seq<char>, reset: bool)
    requires
        state.wf(),
        block_shown(page, state.window),
    ensures
        ({
            let after = page.apply_all(state.ops(line, reset));
            let next = state.step(line, reset);
            let top = page.row - state.window.len();
            &&& next.wf()
            &&& block_shown(after, next.window)
            &&& after.same_outside(page, top, after.row as int)
            &&& !reset ==> after.row == top + next.window.len()
            &&& reset ==> after.row == page.row
            &&& reset ==> forall|r: nat|
                top <= r < page.row ==> shows(#[trigger] after.line(r), Seq::empty())
        }),
{
    lemma_step_keeps_wf(state, line, reset);
    let count = state.printed_count;
    let shown = state.window;
    let top = (page.row - count) as nat;
    let up = cursor_up_ops(count);
    let raised = page.apply_all(up);
    if count > 0 {
        lemma_apply_one(page, Op::CursorUp(count));
    } else {
        lemma_apply_none(page);
    }
    assert(raised.row == top && raised.col == 0 && raised.rows == page.rows);
    assert forall|r: nat| top <= r < top + shown.len() implies shows(
        #[trigger] raised.line(r),
        shown[r - top],
    ) by {
        assert(raised.line(r) == page.line(r));
    }
    if reset {
        if count > 0 {
            let erase = erase_ops(state.prev_widths, 0, count as int);
            lemma_rows_erased(raised, shown, count as int);
            let erased = raised.apply_all(erase);
            lemma_apply_concat(page, up, erase);
            lemma_apply_push(page, up + erase, Op::Flush);
            assert(up + erase + seq![Op::Flush] =~= (up + erase).push(Op::Flush));
            let after = page.apply_all(state.ops(line, reset));
            assert(after == erased);
            assert forall|r: nat| r >= after.row implies shows(
                #[trigger] after.line(r),
                Seq::empty(),
            ) by {
                assert(erased.line(r) == raised.line(r));
                assert(raised.line(r) == page.line(r));
            }
            assert forall|r: nat| !(top <= r < after.row) implies #[trigger] after.line(r)
                == page.line(r) by {
                assert(erased.line(r) == raised.line(r));
                assert(raised.line(r) == page.line(r));
            }
        } else {
            lemma_apply_none(page);
        }
    } else {
        let lines = bounded_push(state.window, line, state.capacity);
        let draw = draw_ops(lines, state.prev_widths, lines.len() as int);
        lemma_no_rows_left_over(state, line);
        assert forall|r: nat| raised.row <= r < raised.row + lines.len() implies shows(
            #[trigger] raised.line(r),
            text_at(shown, r - raised.row),
        ) by {
            assert(raised.line(r) == page.line(r));
            if r >= page.row {
                assert(shows(page.line(r), Seq::empty()));
            }
        }
        lemma_rows_drawn(raised, shown, lines, lines.len() as int);
        let drawn = raised.apply_all(draw);
        lemma_apply_concat(page, up, draw);
        lemma_apply_push(page, up + draw, Op::Flush);
        assert(redraw_ops(lines, state.prev_widths, count) =~= (up + draw).push(Op::Flush));
        let after = page.apply_all(state.ops(line, reset));
        assert(after == drawn);
        assert(lines.take(lines.len() as int) =~= lines);
        assert forall|r: nat| r >= after.row implies shows(
            #[trigger] after.line(r),
            Seq::empty(),
        ) by {
            assert(drawn.line(r) == raised.line(r));
            assert(raised.line(r) == page.line(r));
        }
        assert forall|r: nat| !(top <= r < after.row) implies #[trigger] after.line(r)
            == page.line(r) by {
            assert(drawn.line(r) == raised.line(r));
            assert(raised.line(r) == page.line(r));
        }
    }
}

/// The multi-line renderer keeps its window on display throughout a run:
/// where the page showed the window before the first line, it shows the
/// window after the last one, whatever came in between.
pub proof fn lemma_window_stays_displayed(
    start: Page,
    renderer: RendererModel,
    lines: Seq<Seq<char>>,
)
    requires
        renderer.mode() == Mode::MultiLine,
        renderer.wf(),
        block_shown(start, renderer.window()),
    ensures
        renderer.run(lines).mode() == Mode::MultiLine,
        renderer.run(lines).wf(),
        block_shown(start.apply_all(renderer.transcript(lines)), renderer.run(lines).window()),
    decreases lines.len(),
{
    if lines.len() > 0 {
        let earlier = lines.drop_last();
        lemma_window_stays_displayed(start, renderer, earlier);
        let before = renderer.run(earlier);
        let page = start.apply_all(renderer.transcript(earlier));
        let state = before.engine->MultiLine_0;
        lemma_block_redrawn(page, state, lines.last(), before.rule.fires(lines.last()));
        lemma_apply_concat(start, renderer.transcript(earlier), before.emitted(lines.last()));
    }
}

/// Sliding-window correctness. A multi-line renderer for `capacity` lines
/// that has consumed at least that many lines, none of them a reset event,
/// holds exactly the last `capacity` lines in its window, in the order in
/// which they came in; and a page that was blank from the cursor on shows
/// exactly those lines, one per row, from the row where the cursor started.
pub proof fn lemma_sliding_window(
    start: Page,
    capacity: nat,
    rule: ResetRule,
    lines: Seq<Seq<char>>,
)
    requires
        lines.len() >= capacity,
        forall|i: int| 0 <= i < lines.len() ==> !rule.fires(#[trigger] lines[i]),
        start.col == 0,
        start.blank_from(start.row),
    ensures
        ({
            let renderer = RendererModel::initial(Mode::MultiLine, capacity, rule);
            let end = start.apply_all(renderer.transcript(lines));
            let recent = lines.subrange(lines.len() - capacity, lines.len() as int);
            &&& renderer.run(lines).window() == recent
            &&& end.row == start.row + capacity
            &&& end.shows_block(start.row as int, recent)
            &&& end.blank_from(end.row)
            &&& end.same_outside(start, start.row as int, end.row as int)
        }),
{
    lemma_fill_then_slide(start, capacity, rule, lines);
}

/// What holds after any number of lines without a reset event: the window is
/// the last `capacity` lines, or all of them while there are fewer, and the
/// page shows it from the row where the cursor started.
pub proof fn lemma_fill_then_slide(
    start: Page,
    capacity: nat,
    rule: ResetRule,
    lines: Seq<Seq<char>>,
)
    requires
        forall|i: int| 0 <= i < lines.len() ==> !rule.fires(#[trigger] lines[i]),
        start.col == 0,
        start.blank_from(start.row),
    ensures
        ({
            let renderer = RendererModel::initial(Mode::MultiLine, capacity, rule);
            let end = start.apply_all(renderer.transcript(lines));
            let recent = last_lines(lines, capacity);
            &&& renderer.run(lines).mode() == Mode::MultiLine
            &&& renderer.run(lines).wf()
            &&& renderer.run(lines).engine->MultiLine_0.capacity == capacity
            &&& renderer.run(lines).rule == rule
            &&& renderer.run(lines).window() == recent
            &&& end.row == start.row + recent.len()
            &&& block_shown(end, recent)
            &&& end.same_outside(start, start.row as int, end.row as int)
        }),
    decreases lines.len(),
{
    let renderer = RendererModel::initial(Mode::MultiLine, capacity, rule);
    if lines.len() == 0 {
        assert(widths_of(Seq::<Seq<char>>::empty()) =~= Seq::<nat>::empty());
        lemma_apply_none(start);
    } else {
        let earlier = lines.drop_last();
        assert forall|i: int| 0 <= i < earlier.len() implies !rule.fires(#[trigger] earlier[i]) by {
            assert(earlier[i] == lines[i]);
        }
        lemma_fill_then_slide(start, capacity, rule, earlier);
        let before = renderer.run(earlier);
        let page = start.apply_all(renderer.transcript(earlier));
        let state = before.engine->MultiLine_0;
        assert(!rule.fires(lines.last()));
        lemma_block_redrawn(page, state, lines.last(), false);
        lemma_apply_concat(start, renderer.transcript(earlier), before.emitted(lines.last()));
        assert(bounded_push(last_lines(earlier, capacity), lines.last(), capacity) =~= last_lines(
            lines,
            capacity,
        )) by {
            assert(earlier.push(lines.last()) =~= lines);
        }
        let end = start.apply_all(renderer.transcript(lines));
        assert forall|r: nat| !(start.row <= r < end.row) implies #[trigger] end.line(r)
            == start.line(r) by {
            assert(end.line(r) == page.line(r));
        }
    }
}

/// Overwriting the current row, which shows an older text, leaves it showing
/// the new line, with the cursor back in its first column. No other row
/// changes.
pub proof fn lemma_line_overwritten(page: Page, old_text: Seq<char>, line: Seq<char>)
    requires
        shows(page.line(page.row), old_text),
    ensures
        ({
            let after = page.apply_all(overwrite_ops(old_text.len(), line));
            &&& after.row == page.row
            &&& after.col == 0
            &&& shows(after.line(page.row), line)
            &&& after.same_outside(page, page.row as int, page.row + 1int)
        }),
{
    lemma_overwrite_erases(page.line(page.row), old_text, line);
    let home = page.apply(Op::CarriageReturn);
    let written = home.put(line);
    assert(written.line(page.row) == overwritten(page.line(page.row), 0, line));
    if old_text.len() > line.len() {
        let pad = (old_text.len() - line.len()) as nat;
        let head = seq![Op::CarriageReturn, Op::Text(line), Op::Spaces(pad)];
        lemma_apply_three(page, Op::CarriageReturn, Op::Text(line), Op::Spaces(pad));
        lemma_apply_push(page, head, Op::CarriageReturn);
        lemma_apply_push(page, head.push(Op::CarriageReturn), Op::Flush);
        assert(overwrite_ops(old_text.len(), line) =~= head.push(Op::CarriageReturn).push(
            Op::Flush,
        ));
        let padded = written.put(spaces(pad));
        assert(padded.line(page.row) == overwritten(written.line(page.row), line.len(), spaces(pad)));
        let after = page.apply_all(overwrite_ops(old_text.len(), line));
        assert(after.rows == padded.rows);
        assert forall|r: nat| !(page.row <= r < page.row + 1) implies #[trigger] after.line(r)
            == page.line(r) by {
            assert(padded.line(r) == written.line(r));
        }
    } else {
        let head = seq![Op::CarriageReturn, Op::Text(line)];
        lemma_apply_two(page, Op::CarriageReturn, Op::Text(line));
        lemma_apply_push(page, head, Op::CarriageReturn);
        lemma_apply_push(page, head.push(Op::CarriageReturn), Op::Flush);
        assert(overwrite_ops(old_text.len(), line) =~= head.push(Op::CarriageReturn).push(
            Op::Flush,
        ));
        let after = page.apply_all(overwrite_ops(old_text.len(), line));
        assert(after.rows == written.rows);
    }
}

/// Ending the current row writes nothing into the page: the cursor moves to
/// the start of the next row, and every row stays as it is.
pub proof fn lemma_line_finalized(page: Page)
    ensures
        ({
            let after = page.apply_all(finalize_ops());
            &&& after.row == page.row + 1
            &&& after.col == 0
            &&& after.rows == page.rows
        }),
{
    lemma_apply_two(page, Op::Newline, Op::Flush);
}

/// The line that a single-line renderer has on display after `lines`: the
/// last of them, or nothing where there is none or the last one was a reset
/// event.
pub open spec fn current_line(rule: ResetRule, lines: Seq<Seq<char>>) -> Seq<char> {
    if lines.len() == 0 || rule.fires(lines.last()) {
        Seq::empty()
    } else {
        lines.last()
    }
}

/// The single-line renderer keeps its current line on display throughout a
/// run. On a page that was blank from the cursor on, the cursor's row shows
/// the last line that came in, or nothing after a reset event; the renderer
/// remembers exactly that line's width; and everything below is still blank.
pub proof fn lemma_current_line_displayed(start: Page, rule: ResetRule, lines: Seq<Seq<char>>)
    requires
        start.blank_from(start.row),
    ensures
        ({
            let renderer = RendererModel::initial(Mode::SingleLine, 1, rule);
            let end = start.apply_all(renderer.transcript(lines));
            &&& renderer.run(lines).rule == rule
            &&& renderer.run(lines).engine == EngineModel::SingleLine {
                prev_width: current_line(rule, lines).len(),
            }
            &&& end.row >= start.row
            &&& shows(end.line(end.row), current_line(rule, lines))
            &&& end.blank_from(end.row + 1)
            &&& end.same_outside(start, start.row as int, end.row + 1int)
        }),
    decreases lines.len(),
{
    let renderer = RendererModel::initial(Mode::SingleLine, 1, rule);
    if lines.len() == 0 {
        lemma_apply_none(start);
        assert(shows(start.line(start.row), Seq::empty()));
    } else {
        let earlier = lines.drop_last();
        let line = lines.last();
        lemma_current_line_displayed(start, rule, earlier);
        let before = renderer.run(earlier);
        let page = start.apply_all(renderer.transcript(earlier));
        let old_text = current_line(rule, earlier);
        lemma_apply_concat(start, renderer.transcript(earlier), before.emitted(line));
        let end = start.apply_all(renderer.transcript(lines));
        if rule.fires(line) {
            lemma_line_finalized(page);
            assert(shows(page.line(end.row), Seq::empty()));
            assert forall|r: nat| r >= end.row + 1 implies shows(
                #[trigger] end.line(r),
                Seq::empty(),
            ) by {
                assert(end.line(r) == page.line(r));
            }
            assert forall|r: nat| !(start.row <= r < end.row + 1) implies #[trigger] end.line(r)
                == start.line(r) by {
                assert(end.line(r) == page.line(r));
            }
        } else {
            lemma_line_overwritten(page, old_text, line);
            assert forall|r: nat| r >= end.row + 1 implies shows(
                #[trigger] end.line(r),
                Seq::empty(),
            ) by {
                assert(end.line(r) == page.line(r));
            }
            assert forall|r: nat| !(start.row <= r < end.row + 1) implies #[trigger] end.line(r)
                == start.line(r) by {
                assert(end.line(r) == page.line(r));
            }
        }
    }
}

/// Overwrite convergence. A single-line renderer without a reset policy that
/// has consumed any lines at all, on a row that was blank before, leaves that
/// row showing the last line and nothing else: no character of an earlier,
/// longer line is left over. The cursor never leaves the row, and no other row
/// changes.
pub proof fn lemma_overwrite_convergence(start: Page, lines: Seq<Seq<char>>)
    requires
        lines.len() > 0,
        shows(start.line(start.row), Seq::empty()),
    ensures
        ({
            let renderer = RendererModel::initial(Mode::SingleLine, 1, ResetRule::Never);
            let end = start.apply_all(renderer.transcript(lines));
            &&& end.row == start.row
            &&& end.col == 0
            &&& shows(end.line(end.row), lines.last())
            &&& end.same_outside(start, start.row as int, start.row + 1int)
        }),
    decreases lines.len(),
{
    let renderer = RendererModel::initial(Mode::SingleLine, 1, ResetRule::Never);
    let earlier = lines.drop_last();
    let line = lines.last();
    lemma_never_resets(renderer, earlier);
    let before = renderer.run(earlier);
    let page = start.apply_all(renderer.transcript(earlier));
    lemma_apply_concat(start, renderer.transcript(earlier), before.emitted(line));
    if earlier.len() == 0 {
        lemma_apply_none(start);
        lemma_line_overwritten(page, Seq::empty(), line);
    } else {
        lemma_overwrite_convergence(start, earlier);
        lemma_line_overwritten(page, earlier.last(), line);
        let end = start.apply_all(renderer.transcript(lines));
        assert forall|r: nat| !(start.row <= r < start.row + 1) implies #[trigger] end.line(r)
            == start.line(r) by {
            assert(end.line(r) == page.line(r));
        }
    }
}

/// Without a reset policy the single-line renderer always remembers the width
/// of the last line that came in.
pub proof fn lemma_never_resets(renderer: RendererModel, lines: Seq<Seq<char>>)
    requires
        renderer.rule == ResetRule::Never,
        renderer.engine == (EngineModel::SingleLine { prev_width: 0 }),
    ensures
        renderer.run(lines).rule == ResetRule::Never,
        renderer.run(lines).engine == (EngineModel::SingleLine {
            prev_width: if lines.len() == 0 {
                0
            } else {
                lines.last().len()
            },
        }),
    decreases lines.len(),
{
    if lines.len() > 0 {
        lemma_never_resets(renderer, lines.drop_last());
    }
}

} // verus!
