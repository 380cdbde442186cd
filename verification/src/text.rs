//! Text measured in characters: widths, padding, substring and blank-line
//! tests.

use vstd::prelude::*;
use vstd::string::*;

verus! {

/// A run of `n` space characters.
pub open spec fn spaces(n: nat) -> Seq<char> {
    Seq::new(n, |i: int| ' ')
}

/// `needle` occurs in `hay` starting at character `at`.
pub open spec fn occurs_at(hay: Seq<char>, needle: Seq<char>, at: int) -> bool {
    &&& 0 <= at
    &&& at + needle.len() <= hay.len()
    &&& hay.subrange(at, at + needle.len()) == needle
}

/// `needle` occurs somewhere in `hay`. The empty text occurs in every text.
pub open spec fn has_substring(hay: Seq<char>, needle: Seq<char>) -> bool {
    exists|at: int| occurs_at(hay, needle, at)
}

/// The characters that count as white space: the code points that Unicode
/// marks as `White_Space`.
pub open spec fn is_whitespace(c: char) -> bool {
    ||| c == ' '
    ||| '\u{9}' <= c <= '\u{d}'
    ||| c == '\u{85}'
    ||| c == '\u{a0}'
    ||| c == '\u{1680}'
    ||| '\u{2000}' <= c <= '\u{200a}'
    ||| c == '\u{2028}'
    ||| c == '\u{2029}'
    ||| c == '\u{202f}'
    ||| c == '\u{205f}'
    ||| c == '\u{3000}'
}

/// A text is blank when it is empty or holds white space only.
pub open spec fn is_blank(text: Seq<char>) -> bool {
    forall|i: int| 0 <= i < text.len() ==> is_whitespace(#[trigger] text[i])
}

/// The width of a line: its number of characters. Every character counts as
/// one column, whatever its encoding or its shape on the terminal.
pub fn width(line: &str) -> (w: usize)
    ensures
        w == line@.len(),
{
    line.unicode_len()
}

/// Tells whether `c` is white space.
pub fn char_is_whitespace(c: char) -> (b: bool)
    ensures
        b == is_whitespace(c),
{
    c == ' ' || ('\u{9}' <= c && c <= '\u{d}') || c == '\u{85}' || c == '\u{a0}' || c == '\u{1680}'
        || ('\u{2000}' <= c && c <= '\u{200a}') || c == '\u{2028}' || c == '\u{2029}' || c
        == '\u{202f}' || c == '\u{205f}' || c == '\u{3000}'
}

/// Tells whether `line` is empty or holds white space only.
pub fn line_is_blank(line: &str) -> (b: bool)
    ensures
        b == is_blank(line@),
{
    let mut blank: bool = true;
    for c in it: line.chars()
        invariant
            it.seq() == line@,
            blank == is_blank(line@.take(it.index())),
    {
        let ghost k = it.index();
        blank = blank && char_is_whitespace(c);
        proof {
            let shorter = line@.take(k);
            let longer = line@.take(k + 1);
            assert(forall|i: int| 0 <= i < k ==> shorter[i] == longer[i]);
            assert(longer[k] == c);
            if is_blank(longer) {
                assert forall|i: int| 0 <= i < shorter.len() implies is_whitespace(
                    #[trigger] shorter[i],
                ) by {
                    assert(shorter[i] == longer[i]);
                }
            }
        }
    }
    proof {
        assert(line@.take(line@.len() as int) =~= line@);
    }
    blank
}

/// Tells whether `needle` occurs in `hay` starting at character `at`.
fn occurs_here(hay: &Vec<char>, needle: &Vec<char>, at: usize) -> (found: bool)
    requires
        at + needle@.len() <= hay@.len(),
    ensures
        found == occurs_at(hay@, needle@, at as int),
{
    let len = hay.len();
    let mut i: usize = 0;
    while i < needle.len()
        invariant
            i <= needle@.len(),
            len == hay@.len(),
            at + needle@.len() <= hay@.len(),
            forall|j: int| 0 <= j < i ==> hay@[at + j] == needle@[j],
        decreases needle@.len() - i,
    {
        if hay[at + i] != needle[i] {
            proof {
                assert(hay@.subrange(at as int, at + needle@.len())[i as int] == hay@[at + i]);
            }
            return false;
        }
        i = i + 1;
    }
    proof {
        assert(hay@.subrange(at as int, at + needle@.len()) =~= needle@);
    }
    true
}

/// Tells whether `marker` occurs in `line`, anywhere and with the same case.
/// The empty marker occurs in every line.
pub fn contains_text(line: &str, marker: &str) -> (found: bool)
    ensures
        found == has_substring(line@, marker@),
{
    let hay = chars_of(line);
    let needle = chars_of(marker);
    if needle.len() > hay.len() {
        return false;
    }
    let last = hay.len() - needle.len();
    let mut at: usize = 0;
    loop
        invariant
            at <= last,
            hay@ == line@,
            needle@ == marker@,
            last == hay@.len() - needle@.len(),
            forall|k: int| 0 <= k < at ==> !occurs_at(hay@, needle@, k),
        decreases last - at,
    {
        if occurs_here(&hay, &needle, at) {
            return true;
        }
        if at == last {
            return false;
        }
        at = at + 1;
    }
}

/// A string of `n` spaces.
pub fn blank_string(n: usize) -> (s: String)
    ensures
        s@ == spaces(n as nat),
{
    let mut s = String::new();
    let mut i: usize = 0;
    while i < n
        invariant
            i <= n,
            s@ == spaces(i as nat),
        decreases n - i,
    {
        s.append(" ");
        i = i + 1;
        proof {
            reveal_strlit(" ");
            assert(s@ =~= spaces(i as nat));
        }
    }
    s
}

/// The characters of `text`, one by one.
pub fn chars_of(text: &str) -> (chars: Vec<char>)
    ensures
        chars@ == text@,
{
    let mut chars: Vec<char> = Vec::new();
    for c in it: text.chars()
        invariant
            it.seq() == text@,
            chars@ == text@.take(it.index()),
    {
        let ghost k = it.index();
        chars.push(c);
        proof {
            assert(chars@ =~= text@.take(k + 1));
        }
    }
    proof {
        assert(text@.take(text@.len() as int) =~= text@);
    }
    chars
}

} // verus!
