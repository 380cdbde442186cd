//! Unsigned numbers in decimal notation: how a count is written into a
//! cursor-movement sequence, and how a window size is read from text.

use vstd::prelude::*;
use vstd::string::*;
use crate::text::chars_of;

verus! {

/// `c` is one of the ten ASCII digits.
pub open spec fn is_digit(c: char) -> bool {
    '0' <= c <= '9'
}

/// The number that the digit `c` stands for.
pub open spec fn digit_value(c: char) -> nat {
    (c as int - '0' as int) as nat
}

/// The digit that stands for `d`, for `d` below ten.
pub open spec fn digit_char(d: nat) -> char {
    (d + '0' as int) as char
}

/// Every character of `text` is a digit.
pub open spec fn all_digits(text: Seq<char>) -> bool {
    forall|i: int| 0 <= i < text.len() ==> is_digit(#[trigger] text[i])
}

/// The number that a run of digits stands for, most significant digit first.
pub open spec fn decimal_value(digits: Seq<char>) -> nat
    decreases digits.len(),
{
    if digits.len() == 0 {
        0
    } else {
        decimal_value(digits.drop_last()) * 10 + digit_value(digits.last())
    }
}

/// The decimal notation of `n`, without sign or leading zeros.
pub open spec fn decimal(n: nat) -> Seq<char>
    decreases n,
{
    if n < 10 {
        seq![digit_char(n)]
    } else {
        decimal(n / 10).push(digit_char(n % 10))
    }
}

/// The digits of an unsigned number in text form: the text itself, without
/// one leading `+` if it has one.
pub open spec fn unsigned_digits(text: Seq<char>) -> Seq<char> {
    if text.len() > 0 && text[0] == '+' {
        text.drop_first()
    } else {
        text
    }
}

/// The number that `text` denotes: an optional `+`, then one or more digits
/// and nothing else. Any other text denotes no number.
pub open spec fn parse_unsigned(text: Seq<char>) -> Option<nat> {
    let digits = unsigned_digits(text);
    if digits.len() > 0 && all_digits(digits) {
        Some(decimal_value(digits))
    } else {
        None
    }
}

/// The number that `text` denotes, where it fits the machine word.
pub open spec fn parse_word(text: Seq<char>) -> Option<usize> {
    match parse_unsigned(text) {
        Some(v) => if v <= usize::MAX {
            Some(v as usize)
        } else {
            None
        },
        None => None,
    }
}

/// A longer run of digits stands for a number that is no smaller than the
/// number of any of its prefixes.
pub proof fn lemma_value_of_prefix(digits: Seq<char>, k: int)
    requires
        0 <= k <= digits.len(),
    ensures
        decimal_value(digits.take(k)) <= decimal_value(digits),
    decreases digits.len(),
{
    if k == digits.len() {
        assert(digits.take(k) =~= digits);
    } else {
        assert(digits.drop_last().take(k) =~= digits.take(k));
        lemma_value_of_prefix(digits.drop_last(), k);
    }
}

/// The notation of a number is a run of at least one digit.
pub proof fn lemma_decimal_is_digits(n: nat)
    ensures
        decimal(n).len() > 0,
        all_digits(decimal(n)),
    decreases n,
{
    if n >= 10 {
        lemma_decimal_is_digits(n / 10);
    }
}

/// Reading back what was written gives the number that was written.
pub proof fn lemma_decimal_round_trip(n: nat)
    ensures
        decimal_value(decimal(n)) == n,
        parse_unsigned(decimal(n)) == Some(n),
    decreases n,
{
    lemma_decimal_is_digits(n);
    if n < 10 {
        assert(decimal(n).drop_last() =~= Seq::<char>::empty());
        assert(decimal_value(decimal(n).drop_last()) == 0);
    } else {
        lemma_decimal_round_trip(n / 10);
        assert(decimal(n).drop_last() =~= decimal(n / 10));
    }
    assert(is_digit(decimal(n)[0]));
}

/// The one-character string of the digit for `d`.
fn digit_str(d: usize) -> (s: &'static str)
    requires
        d < 10,
    ensures
        s@ == seq![digit_char(d as nat)],
{
    proof {
        reveal_strlit("0");
        reveal_strlit("1");
        reveal_strlit("2");
        reveal_strlit("3");
        reveal_strlit("4");
        reveal_strlit("5");
        reveal_strlit("6");
        reveal_strlit("7");
        reveal_strlit("8");
        reveal_strlit("9");
    }
    let s = if d == 0 {
        "0"
    } else if d == 1 {
        "1"
    } else if d == 2 {
        "2"
    } else if d == 3 {
        "3"
    } else if d == 4 {
        "4"
    } else if d == 5 {
        "5"
    } else if d == 6 {
        "6"
    } else if d == 7 {
        "7"
    } else if d == 8 {
        "8"
    } else {
        "9"
    };
    proof {
        assert(s@ =~= seq![digit_char(d as nat)]);
    }
    s
}

/// Writes `n` in decimal notation.
pub fn format_decimal(n: usize) -> (s: String)
    ensures
        s@ == decimal(n as nat),
    decreases n,
{
    if n < 10 {
        let mut s = String::new();
        s.append(digit_str(n));
        proof {
            assert(s@ =~= decimal(n as nat));
        }
        s
    } else {
        let mut s = format_decimal(n / 10);
        s.append(digit_str(n % 10));
        proof {
            assert(s@ =~= decimal(n as nat));
        }
        s
    }
}

/// Reads an unsigned number: an optional `+`, then digits only. Text that is
/// empty, holds anything else, or denotes a number beyond the machine word
/// gives `None`.
pub fn parse_usize(text: &str) -> (value: Option<usize>)
    ensures
        value == parse_word(text@),
{
    let chars = chars_of(text);
    let n = chars.len();
    let start: usize = if n > 0 && chars[0] == '+' {
        1
    } else {
        0
    };
    let ghost digits = unsigned_digits(text@);
    proof {
        assert(digits =~= chars@.subrange(start as int, n as int));
    }
    if start == n {
        return None;
    }
    let mut acc: usize = 0;
    let mut i: usize = start;
    while i < n
        invariant
            start <= i <= n,
            n == chars@.len(),
            digits == unsigned_digits(text@),
            digits == chars@.subrange(start as int, n as int),
            all_digits(digits.take(i - start)),
            acc == decimal_value(digits.take(i - start)),
        decreases n - i,
    {
        let c = chars[i];
        let ghost k = i - start;
        proof {
            assert(digits[k] == c);
            assert(digits.take(k + 1).drop_last() =~= digits.take(k));
            assert(digits.take(k + 1).last() == c);
        }
        if !('0' <= c && c <= '9') {
            proof {
                assert(!is_digit(digits[k]));
            }
            return None;
        }
        let d: usize = (c as u32 - '0' as u32) as usize;
        if acc > (usize::MAX - d) / 10 {
            proof {
                assert(decimal_value(digits.take(k + 1)) == acc * 10 + d);
                lemma_value_of_prefix(digits, k + 1);
            }
            return None;
        }
        acc = acc * 10 + d;
        i = i + 1;
        proof {
            assert forall|j: int| 0 <= j < digits.take(k + 1).len() implies is_digit(
                #[trigger] digits.take(k + 1)[j],
            ) by {
                if j < k {
                    assert(digits.take(k + 1)[j] == digits.take(k)[j]);
                }
            }
        }
    }
    proof {
        assert(digits.take(n - start) =~= digits);
    }
    Some(acc)
}

} // verus!
