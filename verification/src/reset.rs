//! Reset events: they clear what the renderer remembers, and their own text
//! is never drawn.

use vstd::prelude::*;
use crate::mode::Mode;
use crate::multi_line::{draw_ops, erase_ops, lemma_step_keeps_wf, MultiModel};
use crate::policy::ResetRule;
use crate::renderer::{EngineModel, RendererModel};
use crate::terminal::Op;
use crate::window::{bounded_push, widths_of};

verus! {

/// No operation of the list writes a text.
pub open spec fn draws_no_text(ops: Seq<Op>) -> bool {
    forall|k: int| 0 <= k < ops.len() ==> !(#[trigger] ops[k] is Text)
}

/// No text that the list writes is a reset event under `rule`.
pub open spec fn draws_no_reset_line(ops: Seq<Op>, rule: ResetRule) -> bool {
    forall|k: int|
        0 <= k < ops.len() ==> ((#[trigger] ops[k]) matches Op::Text(text) ==> !rule.fires(text))
}

/// None of the lines is a reset event under `rule`.
pub open spec fn holds_no_reset_line(lines: Seq<Seq<char>>, rule: ResetRule) -> bool {
    forall|i: int| 0 <= i < lines.len() ==> !rule.fires(#[trigger] lines[i])
}

/// Blanking rows writes no text.
pub proof fn lemma_erase_draws_no_text(prev_widths: Seq<nat>, from: int, to: int)
    ensures
        draws_no_text(erase_ops(prev_widths, from, to)),
    decreases to - from,
{
    if to > from {
        lemma_erase_draws_no_text(prev_widths, from, to - 1);
    }
}

/// Drawing rows writes the lines of the window and no other text.
pub proof fn lemma_draw_writes_window_lines(
    lines: Seq<Seq<char>>,
    prev_widths: Seq<nat>,
    upto: int,
    rule: ResetRule,
)
    requires
        upto <= lines.len(),
        holds_no_reset_line(lines, rule),
    ensures
        draws_no_reset_line(draw_ops(lines, prev_widths, upto), rule),
    decreases upto,
{
    if upto > 0 {
        lemma_draw_writes_window_lines(lines, prev_widths, upto - 1, rule);
        assert(!rule.fires(lines[upto - 1]));
    }
}

/// A reset event resets. Whatever the renderer remembered, after a reset
/// event it is as it was before the first line: no row counts as drawn, no
/// width is remembered and the window is empty. Nothing that is written for
/// the event is text, so the event's own line is not drawn.
pub proof fn lemma_reset_clears(renderer: RendererModel, line: Seq<char>)
    requires
        renderer.mode() != Mode::Passthrough,
        renderer.rule.fires(line),
    ensures
        draws_no_text(renderer.emitted(line)),
        renderer.step(line).rule == renderer.rule,
        match renderer.engine {
            EngineModel::Passthrough => false,
            EngineModel::SingleLine { .. } => renderer.step(line).engine
                == (EngineModel::SingleLine { prev_width: 0 }),
            EngineModel::MultiLine(state) => renderer.step(line).engine == EngineModel::MultiLine(
                MultiModel::initial(state.capacity),
            ),
        },
{
    match renderer.engine {
        EngineModel::MultiLine(state) => {
            lemma_erase_draws_no_text(state.prev_widths, 0, state.printed_count as int);
        },
        _ => {},
    }
}

/// Reset idempotence. A second reset event right after a first one changes
/// nothing in what the renderer remembers.
pub proof fn lemma_reset_is_idempotent(renderer: RendererModel, first: Seq<char>, second: Seq<char>)
    requires
        renderer.rule.fires(first),
        renderer.rule.fires(second),
    ensures
        renderer.step(first).step(second) == renderer.step(first),
{
}

/// One line keeps reset events out of the window and out of what is written.
pub proof fn lemma_step_draws_no_reset_line(renderer: RendererModel, line: Seq<char>)
    requires
        renderer.mode() != Mode::Passthrough,
        renderer.wf(),
        holds_no_reset_line(renderer.window(), renderer.rule),
    ensures
        renderer.step(line).mode() == renderer.mode(),
        renderer.step(line).rule == renderer.rule,
        renderer.step(line).wf(),
        holds_no_reset_line(renderer.step(line).window(), renderer.rule),
        draws_no_reset_line(renderer.emitted(line), renderer.rule),
{
    let rule = renderer.rule;
    if rule.fires(line) {
        lemma_reset_clears(renderer, line);
        match renderer.engine {
            EngineModel::MultiLine(state) => {
                lemma_step_keeps_wf(state, line, true);
            },
            _ => {},
        }
    } else {
        match renderer.engine {
            EngineModel::MultiLine(state) => {
                let lines = bounded_push(state.window, line, state.capacity);
                lemma_step_keeps_wf(state, line, false);
                assert forall|i: int| 0 <= i < lines.len() implies !rule.fires(
                    #[trigger] lines[i],
                ) by {
                    let grown = state.window.push(line);
                    if lines.len() < grown.len() {
                        assert(lines[i] == grown[i + 1]);
                    } else {
                        assert(lines[i] == grown[i]);
                    }
                    if lines[i] != line {
                        let j = if lines.len() < grown.len() {
                            i + 1
                        } else {
                            i
                        };
                        assert(grown[j] == state.window[j]);
                    }
                }
                lemma_draw_writes_window_lines(lines, state.prev_widths, lines.len() as int, rule);
                lemma_erase_draws_no_text(
                    state.prev_widths,
                    lines.len() as int,
                    state.printed_count as int,
                );
            },
            _ => {},
        }
    }
}

/// A reset event never appears in what is written. Through a whole run, with
/// any number of reset events in it, no text that the renderer writes is the
/// line of a reset event, and no such line is ever held in the window.
pub proof fn lemma_reset_lines_are_never_drawn(
    mode: Mode,
    window_size: nat,
    rule: ResetRule,
    lines: Seq<Seq<char>>,
)
    requires
        mode != Mode::Passthrough,
    ensures
        ({
            let renderer = RendererModel::initial(mode, window_size, rule);
            &&& renderer.run(lines).mode() == mode
            &&& renderer.run(lines).rule == rule
            &&& renderer.run(lines).wf()
            &&& holds_no_reset_line(renderer.run(lines).window(), rule)
            &&& draws_no_reset_line(renderer.transcript(lines), rule)
        }),
    decreases lines.len(),
{
    let renderer = RendererModel::initial(mode, window_size, rule);
    if lines.len() == 0 {
        assert(widths_of(Seq::<Seq<char>>::empty()) =~= Seq::<nat>::empty());
    } else {
        lemma_reset_lines_are_never_drawn(mode, window_size, rule, lines.drop_last());
        lemma_step_draws_no_reset_line(renderer.run(lines.drop_last()), lines.last());
    }
}

} // verus!
