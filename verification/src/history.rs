//! The logical output of a run: the lines that stay on display once the
//! stream has ended, block by block, without any control sequence.

use vstd::prelude::*;
use crate::display::{block_shown, lemma_window_stays_displayed};
use crate::mode::Mode;
use crate::multi_line::lemma_step_keeps_wf;
use crate::page::Page;
use crate::policy::{marker_text, ResetPolicy, ResetRule};
use crate::renderer::{echo_ops, RendererModel};
use crate::terminal::Op;
use crate::window::{
    bounded_push, last_lines, lemma_bounded_push_is_last_lines, texts, widths_of, Window,
};

verus! {

/// The texts of a sequence of string slices.
pub open spec fn slice_texts(input: Seq<&str>) -> Seq<Seq<char>> {
    Seq::new(input.len(), |i: int| input[i]@)
}

/// The lines that came in after the last reset event, or all of them where
/// there was none.
pub open spec fn since_last_reset(lines: Seq<Seq<char>>, rule: ResetRule) -> Seq<Seq<char>>
    decreases lines.len(),
{
    if lines.len() == 0 || rule.fires(lines.last()) {
        Seq::empty()
    } else {
        since_last_reset(lines.drop_last(), rule).push(lines.last())
    }
}

/// The window after `lines` have come in: a reset event empties it, any other
/// line enters it and pushes the oldest one out of a full window.
pub open spec fn live_window(lines: Seq<Seq<char>>, capacity: nat, rule: ResetRule) -> Seq<
    Seq<char>,
>
    decreases lines.len(),
{
    if lines.len() == 0 || rule.fires(lines.last()) {
        Seq::empty()
    } else {
        bounded_push(live_window(lines.drop_last(), capacity, rule), lines.last(), capacity)
    }
}

/// What reset events have put out of reach: at each of them the window as it
/// was, followed by one empty line.
pub open spec fn finalized(lines: Seq<Seq<char>>, capacity: nat, rule: ResetRule) -> Seq<
    Seq<char>,
>
    decreases lines.len(),
{
    if lines.len() == 0 {
        Seq::empty()
    } else if rule.fires(lines.last()) {
        finalized(lines.drop_last(), capacity, rule) + live_window(
            lines.drop_last(),
            capacity,
            rule,
        ) + seq![Seq::<char>::empty()]
    } else {
        finalized(lines.drop_last(), capacity, rule)
    }
}

/// The logical output of a run: every block that a reset event ended, each
/// followed by an empty line, and then the window as the end of the stream
/// left it. With a window of no lines every line passes through: the output is
/// the input, line for line, whatever the reset rule is.
pub open spec fn logical_output(lines: Seq<Seq<char>>, capacity: nat, rule: ResetRule) -> Seq<
    Seq<char>,
> {
    if capacity == 0 {
        lines
    } else {
        finalized(lines, capacity, rule) + live_window(lines, capacity, rule)
    }
}

/// The window holds the most recent lines since the last reset event: all of
/// them while they are no more than the capacity, else the last `capacity`.
pub proof fn lemma_live_window_is_recent(lines: Seq<Seq<char>>, capacity: nat, rule: ResetRule)
    ensures
        live_window(lines, capacity, rule) == last_lines(since_last_reset(lines, rule), capacity),
        live_window(lines, capacity, rule).len() <= capacity,
    decreases lines.len(),
{
    if lines.len() > 0 && !rule.fires(lines.last()) {
        lemma_live_window_is_recent(lines.drop_last(), capacity, rule);
        lemma_bounded_push_is_last_lines(
            since_last_reset(lines.drop_last(), rule),
            lines.last(),
            capacity,
        );
    }
}

/// Where no line is a reset event, every line counts as recent and nothing is
/// put out of reach.
pub proof fn lemma_without_resets(lines: Seq<Seq<char>>, capacity: nat, rule: ResetRule)
    requires
        forall|i: int| 0 <= i < lines.len() ==> !rule.fires(#[trigger] lines[i]),
    ensures
        since_last_reset(lines, rule) == lines,
        finalized(lines, capacity, rule) == Seq::<Seq<char>>::empty(),
    decreases lines.len(),
{
    if lines.len() > 0 {
        let earlier = lines.drop_last();
        assert forall|i: int| 0 <= i < earlier.len() implies !rule.fires(#[trigger] earlier[i]) by {
            assert(earlier[i] == lines[i]);
        }
        lemma_without_resets(earlier, capacity, rule);
        assert(!rule.fires(lines.last()));
        assert(earlier.push(lines.last()) =~= lines);
    }
}

/// Sliding window, in the logical output. With a window of `capacity` lines,
/// one at least, and no reset event among at least `capacity` lines, the
/// output is exactly the last `capacity` lines, in the order in which they
/// came in.
pub proof fn lemma_output_is_last_lines(lines: Seq<Seq<char>>, capacity: nat, rule: ResetRule)
    requires
        capacity > 0,
        lines.len() >= capacity,
        forall|i: int| 0 <= i < lines.len() ==> !rule.fires(#[trigger] lines[i]),
    ensures
        logical_output(lines, capacity, rule) == lines.subrange(
            lines.len() - capacity,
            lines.len() as int,
        ),
{
    lemma_without_resets(lines, capacity, rule);
    lemma_live_window_is_recent(lines, capacity, rule);
    assert(logical_output(lines, capacity, rule) =~= last_lines(lines, capacity));
    assert(last_lines(lines, capacity) =~= lines.subrange(
        lines.len() - capacity,
        lines.len() as int,
    ));
}

/// Overwrite convergence, in the logical output. With a window of one line
/// and no reset policy, the output of any lines at all is the last of them and
/// nothing else.
pub proof fn lemma_output_is_last_line(lines: Seq<Seq<char>>)
    requires
        lines.len() > 0,
    ensures
        logical_output(lines, 1, ResetRule::Never) == seq![lines.last()],
{
    lemma_output_is_last_lines(lines, 1, ResetRule::Never);
    assert(lines.subrange(lines.len() - 1, lines.len() as int) =~= seq![lines.last()]);
}

/// A reset event never appears in the logical output: every line of it is a
/// line of the input that is no reset event, or the empty line that stands
/// for one.
pub proof fn lemma_output_holds_no_reset_line(
    lines: Seq<Seq<char>>,
    capacity: nat,
    rule: ResetRule,
)
    ensures
        forall|k: int|
            0 <= k < live_window(lines, capacity, rule).len() ==> lines.contains(
                #[trigger] live_window(lines, capacity, rule)[k],
            ) && !rule.fires(live_window(lines, capacity, rule)[k]),
        forall|k: int|
            0 <= k < finalized(lines, capacity, rule).len() ==> {
                let line = #[trigger] finalized(lines, capacity, rule)[k];
                line == Seq::<char>::empty() || (lines.contains(line) && !rule.fires(line))
            },
    decreases lines.len(),
{
    if lines.len() > 0 {
        let earlier = lines.drop_last();
        let last = lines.last();
        lemma_output_holds_no_reset_line(earlier, capacity, rule);
        let window = live_window(lines, capacity, rule);
        let before = live_window(earlier, capacity, rule);
        assert forall|k: int| 0 <= k < window.len() implies lines.contains(#[trigger] window[k])
            && !rule.fires(window[k]) by {
            let grown = before.push(last);
            let j = if window.len() < grown.len() {
                k + 1
            } else {
                k
            };
            assert(window[k] == grown[j]);
            if j < before.len() {
                assert(earlier.contains(before[j]));
                let at = choose|at: int| 0 <= at < earlier.len() && earlier[at] == before[j];
                assert(lines[at] == before[j]);
            } else {
                assert(lines[lines.len() - 1] == last);
            }
        }
        let done = finalized(lines, capacity, rule);
        let done_before = finalized(earlier, capacity, rule);
        assert forall|k: int| 0 <= k < done.len() implies {
            let line = #[trigger] done[k];
            line == Seq::<char>::empty() || (lines.contains(line) && !rule.fires(line))
        } by {
            let line = done[k];
            if k < done_before.len() {
                assert(line == done_before[k]);
                if line != Seq::<char>::empty() {
                    let at = choose|at: int| 0 <= at < earlier.len() && earlier[at] == line;
                    assert(lines[at] == line);
                }
            } else if k < done_before.len() + before.len() {
                let j = k - done_before.len();
                assert(line == before[j]);
                assert(earlier.contains(before[j]));
                let at = choose|at: int| 0 <= at < earlier.len() && earlier[at] == before[j];
                assert(lines[at] == line);
            }
        }
    }
}

/// Pass-through keeps nothing and changes nothing: for every line the
/// renderer writes the line and a newline, whatever the reset rule is, so what
/// it writes is the logical output for a window of no lines, line for line.
pub proof fn lemma_passthrough_writes_the_input(
    window_size: nat,
    rule: ResetRule,
    lines: Seq<Seq<char>>,
)
    ensures
        ({
            let renderer = RendererModel::initial(Mode::Passthrough, window_size, rule);
            let written = renderer.transcript(lines);
            let output = logical_output(lines, 0, rule);
            &&& renderer.run(lines) == renderer
            &&& output == lines
            &&& written.len() == 2 * output.len()
            &&& forall|i: int|
                0 <= i < output.len() ==> written[2 * i] == Op::Text(#[trigger] output[i])
                    && written[2 * i + 1] == Op::Newline
        }),
    decreases lines.len(),
{
    if lines.len() > 0 {
        let renderer = RendererModel::initial(Mode::Passthrough, window_size, rule);
        let earlier = lines.drop_last();
        lemma_passthrough_writes_the_input(window_size, rule, earlier);
        let before = renderer.transcript(earlier);
        let written = renderer.transcript(lines);
        assert(written == before + echo_ops(lines.last()));
        assert forall|i: int| 0 <= i < lines.len() implies written[2 * i] == Op::Text(
            #[trigger] lines[i],
        ) && written[2 * i + 1] == Op::Newline by {
            if i < earlier.len() {
                assert(earlier[i] == lines[i]);
                assert(written[2 * i] == before[2 * i]);
                assert(written[2 * i + 1] == before[2 * i + 1]);
            } else {
                assert(written[2 * i] == echo_ops(lines.last())[0]);
                assert(written[2 * i + 1] == echo_ops(lines.last())[1]);
            }
        }
    }
}

/// The window of a multi-line renderer is the window of the logical output.
pub proof fn lemma_renderer_holds_live_window(
    capacity: nat,
    rule: ResetRule,
    lines: Seq<Seq<char>>,
)
    ensures
        ({
            let renderer = RendererModel::initial(Mode::MultiLine, capacity, rule);
            &&& renderer.run(lines).mode() == Mode::MultiLine
            &&& renderer.run(lines).rule == rule
            &&& renderer.run(lines).wf()
            &&& renderer.run(lines).engine->MultiLine_0.capacity == capacity
            &&& renderer.run(lines).window() == live_window(lines, capacity, rule)
        }),
    decreases lines.len(),
{
    if lines.len() == 0 {
        assert(widths_of(Seq::<Seq<char>>::empty()) =~= Seq::<nat>::empty());
    } else {
        lemma_renderer_holds_live_window(capacity, rule, lines.drop_last());
        let before = RendererModel::initial(Mode::MultiLine, capacity, rule).run(lines.drop_last());
        lemma_step_keeps_wf(
            before.engine->MultiLine_0,
            lines.last(),
            rule.fires(lines.last()),
        );
    }
}

/// What the terminal shows at the end of a run in multi-line mode, reset
/// events included: on a page that was blank from the cursor on, the rows just
/// above the cursor show the window of the logical output, one line per row,
/// and everything from the cursor's row on is blank.
pub proof fn lemma_live_window_displayed(
    start: Page,
    capacity: nat,
    rule: ResetRule,
    lines: Seq<Seq<char>>,
)
    requires
        start.col == 0,
        start.blank_from(start.row),
    ensures
        block_shown(
            start.apply_all(
                RendererModel::initial(Mode::MultiLine, capacity, rule).transcript(lines),
            ),
            live_window(lines, capacity, rule),
        ),
{
    let renderer = RendererModel::initial(Mode::MultiLine, capacity, rule);
    assert(widths_of(Seq::<Seq<char>>::empty()) =~= Seq::<nat>::empty());
    lemma_window_stays_displayed(start, renderer, lines);
    lemma_renderer_holds_live_window(capacity, rule, lines);
}

/// Replays a run without a terminal and returns its logical output: each
/// block that a reset event ended, followed by an empty line, and at the end
/// the lines that are left in the window. `lines` is the size of the window,
/// `skip_at` the marker of the reset events, if there is one. A window of no
/// lines means pass-through: every line is returned unchanged and in order,
/// the lines that hold the marker too.
pub fn simulate(input: &[&str], lines: usize, skip_at: Option<&str>) -> (output: Vec<String>)
    ensures
        texts(output@) == logical_output(
            slice_texts(input@),
            lines as nat,
            ResetRule::resolved(marker_text(skip_at), false),
        ),
        lines == 0 ==> output@.len() == input@.len(),
        lines == 0 ==> forall|i: int|
            0 <= i < input@.len() ==> (#[trigger] output@[i])@ == input@[i]@,
{
    let mut output: Vec<String> = Vec::new();
    let ghost all = slice_texts(input@);
    let ghost rule = ResetRule::resolved(marker_text(skip_at), false);
    proof {
        assert(texts(output@) =~= Seq::<Seq<char>>::empty());
    }
    let mut i: usize = 0;
    proof {
        assert(all.take(0) =~= Seq::<Seq<char>>::empty());
    }
    if lines == 0 {
        while i < input.len()
            invariant
                i <= input@.len(),
                all == slice_texts(input@),
                texts(output@) == all.take(i as int),
            decreases input@.len() - i,
        {
            let raw: &str = input[i];
            let ghost copied = output@;
            output.push(raw.to_owned());
            i = i + 1;
            proof {
                assert(all[i - 1] == raw@);
                assert(texts(output@) =~= texts(copied).push(raw@));
                assert(all.take(i as int) =~= all.take(i - 1).push(raw@));
            }
        }
        proof {
            assert(all.take(input@.len() as int) =~= all);
            assert(texts(output@).len() == all.len());
            assert forall|k: int| 0 <= k < input@.len() implies (#[trigger] output@[k])@
                == input@[k]@ by {
                assert(texts(output@)[k] == all[k]);
            }
        }
        return output;
    }
    let policy = ResetPolicy::resolve(skip_at, false);
    let mut buffer = Window::new(lines);
    while i < input.len()
        invariant
            i <= input@.len(),
            all == slice_texts(input@),
            policy@ == rule,
            buffer.wf(),
            buffer.bound() == lines,
            buffer@ == live_window(all.take(i as int), lines as nat, rule),
            texts(output@) == finalized(all.take(i as int), lines as nat, rule),
        decreases input@.len() - i,
    {
        let raw: &str = input[i];
        proof {
            assert(all.take(i + 1).drop_last() =~= all.take(i as int));
            assert(all.take(i + 1).last() == raw@);
        }
        if policy.fires(raw) {
            let ghost done = texts(output@);
            buffer.drain_into(&mut output);
            let ghost flushed = output@;
            output.push(String::new());
            proof {
                assert(texts(output@) =~= texts(flushed) + seq![Seq::<char>::empty()]);
            }
        } else {
            buffer.push(raw.to_owned());
        }
        i = i + 1;
    }
    proof {
        assert(all.take(input@.len() as int) =~= all);
    }
    buffer.drain_into(&mut output);
    output
}

} // verus!
