//! What a renderer asks of a terminal: a short list of operations, and the
//! characters that each of them is written as.

use vstd::prelude::*;
use vstd::string::*;
use crate::decimal::{decimal, format_decimal};
use crate::text::{blank_string, spaces};

verus! {

/// One request to the terminal.
#[derive(Debug, PartialEq, Eq)]
pub enum TermOp {
    /// Write the text at the cursor.
    Text(String),
    /// Write this many spaces at the cursor.
    Spaces(usize),
    /// Move the cursor up by this many rows.
    CursorUp(usize),
    /// Move the cursor to the first column of its row.
    CarriageReturn,
    /// Move the cursor to the first column of the next row.
    Newline,
    /// Hand everything written so far to the terminal.
    Flush,
}

/// The mathematical value of a [`TermOp`].
pub enum Op {
    Text(Seq<char>),
    Spaces(nat),
    CursorUp(nat),
    CarriageReturn,
    Newline,
    Flush,
}

impl View for TermOp {
    type V = Op;

    open spec fn view(&self) -> Op {
        match self {
            TermOp::Text(text) => Op::Text(text@),
            TermOp::Spaces(n) => Op::Spaces(*n as nat),
            TermOp::CursorUp(n) => Op::CursorUp(*n as nat),
            TermOp::CarriageReturn => Op::CarriageReturn,
            TermOp::Newline => Op::Newline,
            TermOp::Flush => Op::Flush,
        }
    }
}

impl DeepView for TermOp {
    type V = Op;

    open spec fn deep_view(&self) -> Op {
        self@
    }
}

/// The characters that one operation is written as: text and spaces as they
/// are, a carriage return and a newline as their control characters, a cursor
/// movement as the escape character, `[`, the row count in decimal and `A`.
/// A flush writes nothing.
pub open spec fn encoding(op: Op) -> Seq<char> {
    match op {
        Op::Text(text) => text,
        Op::Spaces(n) => spaces(n),
        Op::CursorUp(n) => seq!['\u{1b}', '['] + decimal(n) + seq!['A'],
        Op::CarriageReturn => seq!['\r'],
        Op::Newline => seq!['\n'],
        Op::Flush => Seq::empty(),
    }
}

/// The characters that a list of operations is written as, in order.
pub open spec fn encoding_all(ops: Seq<Op>) -> Seq<char>
    decreases ops.len(),
{
    if ops.len() == 0 {
        Seq::empty()
    } else {
        encoding_all(ops.drop_last()) + encoding(ops.last())
    }
}

impl TermOp {
    /// The characters to write for this operation.
    pub fn encode(&self) -> (s: String)
        ensures
            s@ == encoding(self@),
    {
        match self {
            TermOp::Text(text) => text.clone(),
            TermOp::Spaces(n) => blank_string(*n),
            TermOp::CursorUp(n) => {
                let mut s = "\x1b[".to_owned();
                let count = format_decimal(*n);
                s.append(count.as_str());
                s.append("A");
                proof {
                    reveal_strlit("\x1b[");
                    reveal_strlit("A");
                    assert("\x1b["@ =~= seq!['\u{1b}', '[']);
                    assert("A"@ =~= seq!['A']);
                }
                s
            },
            TermOp::CarriageReturn => {
                proof {
                    reveal_strlit("\r");
                    assert("\r"@ =~= seq!['\r']);
                }
                "\r".to_owned()
            },
            TermOp::Newline => {
                proof {
                    reveal_strlit("\n");
                    assert("\n"@ =~= seq!['\n']);
                }
                "\n".to_owned()
            },
            TermOp::Flush => String::new(),
        }
    }
}

/// The characters to write for a list of operations.
pub fn encode_ops(ops: &Vec<TermOp>) -> (s: String)
    ensures
        s@ == encoding_all(ops.deep_view()),
{
    let mut s = String::new();
    let mut i: usize = 0;
    while i < ops.len()
        invariant
            i <= ops.len(),
            s@ == encoding_all(ops.deep_view().take(i as int)),
        decreases ops.len() - i,
    {
        let piece = ops[i].encode();
        s.append(piece.as_str());
        proof {
            let done = ops.deep_view().take(i + 1);
            assert(done.drop_last() =~= ops.deep_view().take(i as int));
            assert(done.last() == ops[i as int]@);
        }
        i = i + 1;
    }
    proof {
        assert(ops.deep_view().take(ops.len() as int) =~= ops.deep_view());
    }
    s
}

} // verus!
