//! A terminal as a page of character cells: what each operation does to what
//! is visible.
//!
//! The page is unbounded downwards and to the right. Every character fills
//! one cell, and a cell that was never written holds a space. A newline puts
//! the cursor at the start of the next row, as a terminal does for a program
//! that writes to it in the usual way.

use vstd::prelude::*;
use crate::terminal::Op;
use crate::text::spaces;

verus! {

/// The character in cell `j` of a row. Cells beyond the written ones hold a
/// space.
pub open spec fn cell(cells: Seq<char>, j: int) -> char {
    if 0 <= j < cells.len() {
        cells[j]
    } else {
        ' '
    }
}

/// The row looks like `text`: cell for cell the same, up to spaces at the
/// end.
pub open spec fn shows(cells: Seq<char>, text: Seq<char>) -> bool {
    forall|j: int| #[trigger] cell(cells, j) == cell(text, j)
}

/// The row after `text` was written into it from column `col` on. The cells
/// under the text are replaced; no other cell changes.
pub open spec fn overwritten(cells: Seq<char>, col: nat, text: Seq<char>) -> Seq<char> {
    Seq::new(
        if cells.len() > col + text.len() {
            cells.len()
        } else {
            col + text.len()
        },
        |j: int|
            if col <= j < col + text.len() {
                text[j - col]
            } else {
                cell(cells, j)
            },
    )
}

/// What a terminal shows, and where its cursor is.
pub struct Page {
    /// The rows that were written to, by row number from the top.
    pub rows: Map<nat, Seq<char>>,
    /// The row of the cursor.
    pub row: nat,
    /// The column of the cursor.
    pub col: nat,
}

impl Page {
    /// The cells of row `r`.
    pub open spec fn line(self, r: nat) -> Seq<char> {
        if self.rows.dom().contains(r) {
            self.rows[r]
        } else {
            Seq::empty()
        }
    }

    /// Every row from `r` on is blank.
    pub open spec fn blank_from(self, r: nat) -> bool {
        forall|below: nat| below >= r ==> shows(#[trigger] self.line(below), Seq::empty())
    }

    /// The rows from `top` on show `block`, one line per row.
    pub open spec fn shows_block(self, top: int, block: Seq<Seq<char>>) -> bool {
        forall|r: nat|
            top <= r < top + block.len() ==> shows(#[trigger] self.line(r), block[r - top])
    }

    /// Every row but those from `top` up to `end` is as it is on `other`.
    pub open spec fn same_outside(self, other: Page, top: int, end: int) -> bool {
        forall|r: nat| !(top <= r < end) ==> #[trigger] self.line(r) == other.line(r)
    }

    /// The page after `text` was written at the cursor.
    pub open spec fn put(self, text: Seq<char>) -> Page {
        Page {
            rows: self.rows.insert(self.row, overwritten(self.line(self.row), self.col, text)),
            row: self.row,
            col: self.col + text.len(),
        }
    }

    /// The page after one operation. A cursor movement stops at the first
    /// row, and a movement by no rows moves by one, as terminals read it.
    pub open spec fn apply(self, op: Op) -> Page {
        match op {
            Op::Text(text) => self.put(text),
            Op::Spaces(n) => self.put(spaces(n)),
            Op::CursorUp(n) => {
                let by = if n == 0 {
                    1
                } else {
                    n
                };
                Page {
                    rows: self.rows,
                    row: if self.row >= by {
                        (self.row - by) as nat
                    } else {
                        0
                    },
                    col: self.col,
                }
            },
            Op::CarriageReturn => Page { rows: self.rows, row: self.row, col: 0 },
            Op::Newline => Page { rows: self.rows, row: self.row + 1, col: 0 },
            Op::Flush => self,
        }
    }

    /// The page after a list of operations, in order.
    pub open spec fn apply_all(self, ops: Seq<Op>) -> Page
        decreases ops.len(),
    {
        if ops.len() == 0 {
            self
        } else {
            self.apply_all(ops.drop_last()).apply(ops.last())
        }
    }
}

/// One more operation at the end of a list is applied last.
pub proof fn lemma_apply_push(page: Page, ops: Seq<Op>, op: Op)
    ensures
        page.apply_all(ops.push(op)) == page.apply_all(ops).apply(op),
{
    assert(ops.push(op).drop_last() =~= ops);
}

/// Two lists one after the other are applied one after the other.
pub proof fn lemma_apply_concat(page: Page, first: Seq<Op>, second: Seq<Op>)
    ensures
        page.apply_all(first + second) == page.apply_all(first).apply_all(second),
    decreases second.len(),
{
    if second.len() == 0 {
        assert(first + second =~= first);
    } else {
        assert((first + second).drop_last() =~= first + second.drop_last());
        lemma_apply_concat(page, first, second.drop_last());
    }
}

/// The empty list changes nothing.
pub proof fn lemma_apply_none(page: Page)
    ensures
        page.apply_all(Seq::empty()) == page,
{
}

/// A list of one operation.
pub proof fn lemma_apply_one(page: Page, a: Op)
    ensures
        page.apply_all(seq![a]) == page.apply(a),
{
    assert(seq![a] =~= Seq::<Op>::empty().push(a));
    lemma_apply_push(page, Seq::empty(), a);
}

/// A list of two operations.
pub proof fn lemma_apply_two(page: Page, a: Op, b: Op)
    ensures
        page.apply_all(seq![a, b]) == page.apply(a).apply(b),
{
    assert(seq![a, b] =~= seq![a].push(b));
    lemma_apply_push(page, seq![a], b);
    lemma_apply_one(page, a);
}

/// A list of three operations.
pub proof fn lemma_apply_three(page: Page, a: Op, b: Op, c: Op)
    ensures
        page.apply_all(seq![a, b, c]) == page.apply(a).apply(b).apply(c),
{
    assert(seq![a, b, c] =~= seq![a, b].push(c));
    lemma_apply_push(page, seq![a, b], c);
    lemma_apply_two(page, a, b);
}

/// Writing a text over a row that shows an older one, from the first column
/// on, and then as many spaces as the older text was longer, leaves a row
/// that shows the new text and nothing else.
pub proof fn lemma_overwrite_erases(cells: Seq<char>, old_text: Seq<char>, text: Seq<char>)
    requires
        shows(cells, old_text),
    ensures
        old_text.len() <= text.len() ==> shows(overwritten(cells, 0, text), text),
        old_text.len() > text.len() ==> shows(
            overwritten(
                overwritten(cells, 0, text),
                text.len(),
                spaces((old_text.len() - text.len()) as nat),
            ),
            text,
        ),
{
    if old_text.len() <= text.len() {
        let after = overwritten(cells, 0, text);
        assert forall|j: int| #[trigger] cell(after, j) == cell(text, j) by {
            if !(0 <= j < text.len()) {
                assert(cell(cells, j) == cell(old_text, j));
            }
        }
    } else {
        let pad = spaces((old_text.len() - text.len()) as nat);
        let written = overwritten(cells, 0, text);
        let after = overwritten(written, text.len(), pad);
        assert forall|j: int| #[trigger] cell(after, j) == cell(text, j) by {
            if 0 <= j < text.len() {
                assert(cell(written, j) == text[j]);
            } else if text.len() <= j < old_text.len() {
                assert(after[j] == pad[j - text.len()]);
            } else {
                assert(cell(written, j) == cell(cells, j));
                assert(cell(cells, j) == cell(old_text, j));
            }
        }
    }
}

/// Writing as many spaces over a row as the text that it shows is wide, from
/// the first column on, leaves a blank row.
pub proof fn lemma_spaces_blank(cells: Seq<char>, old_text: Seq<char>)
    requires
        shows(cells, old_text),
    ensures
        shows(overwritten(cells, 0, spaces(old_text.len())), Seq::empty()),
{
    let after = overwritten(cells, 0, spaces(old_text.len()));
    assert forall|j: int| #[trigger] cell(after, j) == cell(Seq::<char>::empty(), j) by {
        if !(0 <= j < old_text.len()) {
            assert(cell(cells, j) == cell(old_text, j));
        }
    }
}

} // verus!
