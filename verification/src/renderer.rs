//! The renderer: one of three engines, chosen once, and the reset policy that
//! decides which lines it draws.

use vstd::prelude::*;
use crate::mode::{mode_for, select_mode, stdout_is_terminal, Mode};
use crate::multi_line::{MultiLine, MultiModel};
use crate::policy::{ResetPolicy, ResetRule};
use crate::single_line::{single_next, single_ops, SingleLine};
use crate::terminal::{Op, TermOp};
use crate::window::texts;

verus! {

/// The mathematical value of the engine of a renderer.
pub enum EngineModel {
    /// Lines are echoed; nothing is remembered.
    Passthrough,
    /// Lines overwrite each other; the width of the current one is
    /// remembered.
    SingleLine { prev_width: nat },
    /// The last lines are redrawn as a block.
    MultiLine(MultiModel),
}

/// The mathematical value of a [`Renderer`].
pub struct RendererModel {
    /// The reset rule of the run.
    pub rule: ResetRule,
    /// The engine and its state.
    pub engine: EngineModel,
}

/// What pass-through writes for a line: the line, unchanged, and a newline.
pub open spec fn echo_ops(line: Seq<char>) -> Seq<Op> {
    seq![Op::Text(line), Op::Newline]
}

impl RendererModel {
    /// The renderer before the first line, for a mode, a window size and a
    /// reset rule.
    pub open spec fn initial(mode: Mode, window_size: nat, rule: ResetRule) -> RendererModel {
        RendererModel {
            rule,
            engine: match mode {
                Mode::Passthrough => EngineModel::Passthrough,
                Mode::SingleLine => EngineModel::SingleLine { prev_width: 0 },
                Mode::MultiLine => EngineModel::MultiLine(MultiModel::initial(window_size)),
            },
        }
    }

    /// The mode of the renderer. It never changes.
    pub open spec fn mode(self) -> Mode {
        match self.engine {
            EngineModel::Passthrough => Mode::Passthrough,
            EngineModel::SingleLine { .. } => Mode::SingleLine,
            EngineModel::MultiLine(_) => Mode::MultiLine,
        }
    }

    /// The lines of the window; none where the engine keeps no window.
    pub open spec fn window(self) -> Seq<Seq<char>> {
        match self.engine {
            EngineModel::MultiLine(state) => state.window,
            _ => Seq::empty(),
        }
    }

    /// The state of the engine is well-formed.
    pub open spec fn wf(self) -> bool {
        match self.engine {
            EngineModel::MultiLine(state) => state.wf(),
            _ => true,
        }
    }

    /// The renderer after one incoming line.
    pub open spec fn step(self, line: Seq<char>) -> RendererModel {
        RendererModel {
            rule: self.rule,
            engine: match self.engine {
                EngineModel::Passthrough => EngineModel::Passthrough,
                EngineModel::SingleLine { prev_width } => EngineModel::SingleLine {
                    prev_width: single_next(line, self.rule.fires(line)),
                },
                EngineModel::MultiLine(state) => EngineModel::MultiLine(
                    state.step(line, self.rule.fires(line)),
                ),
            },
        }
    }

    /// What the renderer writes for one incoming line.
    pub open spec fn emitted(self, line: Seq<char>) -> Seq<Op> {
        match self.engine {
            EngineModel::Passthrough => echo_ops(line),
            EngineModel::SingleLine { prev_width } => single_ops(
                prev_width,
                line,
                self.rule.fires(line),
            ),
            EngineModel::MultiLine(state) => state.ops(line, self.rule.fires(line)),
        }
    }

    /// The renderer after a sequence of incoming lines.
    pub open spec fn run(self, lines: Seq<Seq<char>>) -> RendererModel
        decreases lines.len(),
    {
        if lines.len() == 0 {
            self
        } else {
            self.run(lines.drop_last()).step(lines.last())
        }
    }

    /// Everything that the renderer writes for a sequence of incoming lines.
    pub open spec fn transcript(self, lines: Seq<Seq<char>>) -> Seq<Op>
        decreases lines.len(),
    {
        if lines.len() == 0 {
            Seq::empty()
        } else {
            self.transcript(lines.drop_last()) + self.run(lines.drop_last()).emitted(lines.last())
        }
    }
}

/// The engine of a renderer.
enum Engine {
    Passthrough,
    SingleLine(SingleLine),
    MultiLine(MultiLine),
}

/// Turns a stream of lines into terminal operations, one line at a time.
pub struct Renderer {
    policy: ResetPolicy,
    engine: Engine,
}

impl View for Renderer {
    type V = RendererModel;

    closed spec fn view(&self) -> RendererModel {
        RendererModel {
            rule: self.policy@,
            engine: match self.engine {
                Engine::Passthrough => EngineModel::Passthrough,
                Engine::SingleLine(state) => EngineModel::SingleLine { prev_width: state@ },
                Engine::MultiLine(state) => EngineModel::MultiLine(state@),
            },
        }
    }
}

impl Renderer {
    /// The value is well-formed, and so is its view.
    pub closed spec fn wf(&self) -> bool {
        &&& self@.wf()
        &&& match self.engine {
            Engine::MultiLine(state) => state.wf(),
            _ => true,
        }
    }

    /// A well-formed renderer has a well-formed view.
    pub proof fn lemma_wf(&self)
        requires
            self.wf(),
        ensures
            self@.wf(),
    {
    }

    /// A renderer before its first line. The mode follows from the kind of
    /// output stream and the window size, and stays as it is.
    pub fn new(is_interactive_terminal: bool, window_size: usize, policy: ResetPolicy) -> (renderer:
        Renderer)
        ensures
            renderer.wf(),
            renderer@ == RendererModel::initial(
                mode_for(is_interactive_terminal, window_size as nat),
                window_size as nat,
                policy@,
            ),
    {
        let engine = match select_mode(is_interactive_terminal, window_size) {
            Mode::Passthrough => Engine::Passthrough,
            Mode::SingleLine => Engine::SingleLine(SingleLine::new()),
            Mode::MultiLine => {
                let state = MultiLine::new(window_size);
                proof {
                    state.lemma_wf();
                }
                Engine::MultiLine(state)
            },
        };
        Renderer { policy, engine }
    }

    /// A renderer for the standard output of this process. Whether that
    /// stream is a terminal is asked once, here; the renderer is the one that
    /// [`Renderer::new`] gives for the answer.
    pub fn for_stdout(window_size: usize, policy: ResetPolicy) -> (renderer: Renderer)
        ensures
            renderer.wf(),
            exists|is_interactive_terminal: bool|
                renderer@ == RendererModel::initial(
                    mode_for(is_interactive_terminal, window_size as nat),
                    window_size as nat,
                    policy@,
                ),
            window_size == 0 ==> renderer@.mode() == Mode::Passthrough,
    {
        let is_interactive_terminal = stdout_is_terminal();
        Renderer::new(is_interactive_terminal, window_size, policy)
    }

    /// The mode of the renderer.
    pub fn mode(&self) -> (mode: Mode)
        ensures
            mode == self@.mode(),
    {
        match &self.engine {
            Engine::Passthrough => Mode::Passthrough,
            Engine::SingleLine(_) => Mode::SingleLine,
            Engine::MultiLine(_) => Mode::MultiLine,
        }
    }

    /// Handles one line and returns what is to be written for it, in order.
    pub fn consume(&mut self, line: &str) -> (ops: Vec<TermOp>)
        requires
            old(self).wf(),
        ensures
            final(self).wf(),
            final(self)@ == old(self)@.step(line@),
            ops.deep_view() == old(self)@.emitted(line@),
    {
        match &mut self.engine {
            Engine::Passthrough => {
                let mut ops: Vec<TermOp> = Vec::new();
                ops.push(TermOp::Text(line.to_owned()));
                ops.push(TermOp::Newline);
                proof {
                    assert(ops.deep_view() =~= echo_ops(line@));
                }
                ops
            },
            Engine::SingleLine(state) => {
                let reset = self.policy.fires(line);
                state.consume(line, reset)
            },
            Engine::MultiLine(state) => {
                let reset = self.policy.fires(line);
                let ops = state.consume(line, reset);
                proof {
                    state.lemma_wf();
                }
                ops
            },
        }
    }

    /// Handles a sequence of lines and returns everything that is to be
    /// written for them, in order.
    pub fn consume_all(&mut self, lines: &Vec<String>) -> (ops: Vec<TermOp>)
        requires
            old(self).wf(),
        ensures
            final(self).wf(),
            final(self)@ == old(self)@.run(texts(lines@)),
            ops.deep_view() == old(self)@.transcript(texts(lines@)),
    {
        let mut ops: Vec<TermOp> = Vec::new();
        let mut i: usize = 0;
        let ghost start = self@;
        let ghost all = texts(lines@);
        proof {
            assert(all.take(0) =~= Seq::<Seq<char>>::empty());
            assert(ops.deep_view() =~= Seq::<Op>::empty());
        }
        while i < lines.len()
            invariant
                i <= lines.len(),
                all == texts(lines@),
                self.wf(),
                self@ == start.run(all.take(i as int)),
                ops.deep_view() == start.transcript(all.take(i as int)),
            decreases lines.len() - i,
        {
            let ghost drawn = ops.deep_view();
            let ghost state = self@;
            let mut more = self.consume(lines[i].as_str());
            ops.append(&mut more);
            proof {
                assert(all.take(i + 1).drop_last() =~= all.take(i as int));
                assert(all.take(i + 1).last() == lines@[i as int]@);
                assert(ops.deep_view() =~= drawn + state.emitted(lines@[i as int]@));
            }
            i = i + 1;
        }
        proof {
            assert(all.take(lines.len() as int) =~= all);
        }
        ops
    }
}

} // verus!
