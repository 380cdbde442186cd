//! The bounded buffer of the most recent lines.

use vstd::prelude::*;
use crate::text::width;

verus! {

/// The texts of a sequence of strings.
pub open spec fn texts(lines: Seq<String>) -> Seq<Seq<char>> {
    Seq::new(lines.len(), |i: int| lines[i]@)
}

/// The widths of a sequence of machine words, as numbers.
pub open spec fn counts(widths: Seq<usize>) -> Seq<nat> {
    Seq::new(widths.len(), |i: int| widths[i] as nat)
}

/// The width of each line of a window.
pub open spec fn widths_of(lines: Seq<Seq<char>>) -> Seq<nat> {
    Seq::new(lines.len(), |i: int| lines[i].len())
}

/// The last `n` of `lines`, or all of them where there are no more than `n`.
pub open spec fn last_lines(lines: Seq<Seq<char>>, n: nat) -> Seq<Seq<char>> {
    if lines.len() <= n {
        lines
    } else {
        lines.subrange(lines.len() - n, lines.len() as int)
    }
}

/// A window after one more line has arrived: the line is appended, and where
/// that leaves more than `capacity` lines the oldest one is dropped.
pub open spec fn bounded_push(window: Seq<Seq<char>>, line: Seq<char>, capacity: nat) -> Seq<
    Seq<char>,
> {
    let grown = window.push(line);
    if grown.len() > capacity {
        grown.drop_first()
    } else {
        grown
    }
}

/// Appending to the last `n` lines and dropping the overflow gives the last
/// `n` lines of the longer input.
pub proof fn lemma_bounded_push_is_last_lines(lines: Seq<Seq<char>>, line: Seq<char>, n: nat)
    ensures
        bounded_push(last_lines(lines, n), line, n) == last_lines(lines.push(line), n),
{
    assert(bounded_push(last_lines(lines, n), line, n) =~= last_lines(lines.push(line), n));
}

/// The most recent lines of a stream, oldest first, never more than a fixed
/// number of them.
pub struct Window {
    lines: Vec<String>,
    capacity: usize,
}

impl View for Window {
    type V = Seq<Seq<char>>;

    closed spec fn view(&self) -> Seq<Seq<char>> {
        texts(self.lines@)
    }
}

impl Window {
    /// The largest number of lines that the window holds.
    pub closed spec fn bound(&self) -> nat {
        self.capacity as nat
    }

    /// The window holds no more lines than its capacity.
    pub closed spec fn wf(&self) -> bool {
        self.lines@.len() <= self.capacity
    }

    /// What well-formedness means for the view.
    pub proof fn lemma_wf(&self)
        ensures
            self.wf() <==> self@.len() <= self.bound(),
    {
    }

    /// An empty window for up to `capacity` lines.
    pub fn new(capacity: usize) -> (window: Window)
        ensures
            window.wf(),
            window@ == Seq::<Seq<char>>::empty(),
            window.bound() == capacity,
    {
        let window = Window { lines: Vec::new(), capacity };
        proof {
            assert(window@ =~= Seq::<Seq<char>>::empty());
        }
        window
    }

    /// The largest number of lines that the window holds.
    pub fn capacity(&self) -> (capacity: usize)
        ensures
            capacity == self.bound(),
    {
        self.capacity
    }

    /// The number of lines in the window.
    pub fn len(&self) -> (len: usize)
        ensures
            len == self@.len(),
    {
        self.lines.len()
    }

    /// Tells whether the window holds no line.
    pub fn is_empty(&self) -> (empty: bool)
        ensures
            empty == (self@.len() == 0),
    {
        self.lines.len() == 0
    }

    /// The line at position `i`, counted from the oldest.
    pub fn line(&self, i: usize) -> (line: &String)
        requires
            i < self@.len(),
        ensures
            line@ == self@[i as int],
    {
        &self.lines[i]
    }

    /// Adds the newest line. A window that was full loses its oldest line.
    pub fn push(&mut self, line: String)
        requires
            old(self).wf(),
        ensures
            final(self).wf(),
            final(self).bound() == old(self).bound(),
            final(self)@ == bounded_push(old(self)@, line@, old(self).bound()),
    {
        self.lines.push(line);
        proof {
            assert(texts(self.lines@) =~= texts(old(self).lines@).push(line@));
        }
        if self.lines.len() > self.capacity {
            let ghost grown = self.lines@;
            self.lines.remove(0);
            proof {
                assert(texts(self.lines@) =~= texts(grown).drop_first());
            }
        }
    }

    /// Removes every line.
    pub fn clear(&mut self)
        ensures
            final(self).wf(),
            final(self).bound() == old(self).bound(),
            final(self)@ == Seq::<Seq<char>>::empty(),
    {
        self.lines.clear();
        proof {
            assert(texts(self.lines@) =~= Seq::<Seq<char>>::empty());
        }
    }

    /// The width of each line, oldest first.
    pub fn widths(&self) -> (widths: Vec<usize>)
        ensures
            counts(widths@) == widths_of(self@),
    {
        let mut widths: Vec<usize> = Vec::new();
        let mut i: usize = 0;
        while i < self.lines.len()
            invariant
                i <= self.lines@.len(),
                widths@.len() == i,
                forall|j: int| 0 <= j < i ==> widths@[j] == (#[trigger] self.lines@[j])@.len(),
            decreases self.lines@.len() - i,
        {
            widths.push(width(self.lines[i].as_str()));
            i = i + 1;
        }
        proof {
            assert(counts(widths@) =~= widths_of(self@));
        }
        widths
    }

    /// Moves every line, oldest first, to the end of `out` and leaves the
    /// window empty.
    pub fn drain_into(&mut self, out: &mut Vec<String>)
        ensures
            final(self).wf(),
            final(self).bound() == old(self).bound(),
            final(self)@ == Seq::<Seq<char>>::empty(),
            texts(final(out)@) == texts(old(out)@) + old(self)@,
    {
        out.append(&mut self.lines);
        proof {
            assert(texts(self.lines@) =~= Seq::<Seq<char>>::empty());
            assert(texts(out@) =~= texts(old(out)@) + old(self)@);
        }
    }
}

} // verus!
