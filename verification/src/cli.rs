//! Parsing of textual move coordinates.
//!
//! A move is written `<letter><number>`: an upper-case column letter in
//! `A..O` followed by a row number in `1..=15`, as in `C10`.  Lower-case
//! letters, embedded spaces, out-of-range values and anything else are
//! rejected.  The words `exit`, `quit` and `q` end a session; recognising
//! them is I/O glue and stays with the caller that reads input lines.

use vstd::prelude::*;
use vstd::string::StrSliceExecFns;

verus! {

/// A parsed line of input: a request to stop, a move, or nothing usable.
#[derive(Clone, Copy, Debug, PartialEq, Eq, Structural)]
pub enum Command {
    /// End the session.
    Exit,
    /// Play at the given zero-based column and row.
    Move(u32, u32),
    /// The line was not a valid command.
    Nothing,
}

/// Whether the character is an ASCII decimal digit.
pub open spec fn is_digit(c: char) -> bool {
    48 <= c as int <= 57
}

/// The value of an ASCII decimal digit.
pub open spec fn digit_val(c: char) -> int {
    c as int - 48
}

/// Whether every character of the sequence is a decimal digit.
pub open spec fn all_digits(s: Seq<char>) -> bool {
    forall|i: int| 0 <= i < s.len() ==> is_digit(#[trigger] s[i])
}

/// The numeric value of a digit string, most significant digit first.
pub open spec fn spec_number_val(s: Seq<char>) -> int
    decreases s.len(),
{
    if s.len() == 0 {
        0
    } else {
        spec_number_val(s.drop_last()) * 10 + digit_val(s.last())
    }
}

/// The column encoded by a letter: `A` through `O` give 0 through 14.
pub open spec fn spec_parse_letter(c: char) -> Option<u32> {
    if 65 <= (c as int) && (c as int) < 80 {
        Some((c as int - 65) as u32)
    } else {
        None
    }
}

/// The row encoded by a digit string: values 1 through 15 give 0 through
/// 14; anything else is rejected.
pub open spec fn spec_parse_number(s: Seq<char>) -> Option<u32> {
    if s.len() > 0 && all_digits(s) && 1 <= spec_number_val(s) <= 15 {
        Some((spec_number_val(s) - 1) as u32)
    } else {
        None
    }
}

/// The command encoded by a line: a letter then a number, both in range.
pub open spec fn spec_parse_pos(s: Seq<char>) -> Command {
    if s.len() < 2 {
        Command::Nothing
    } else {
        match (spec_parse_letter(s[0]), spec_parse_number(s.subrange(1, s.len() as int))) {
            (Some(x), Some(y)) => Command::Move(x, y),
            _ => Command::Nothing,
        }
    }
}

/// Parse a column letter.
pub fn parse_letter(character: char) -> (r: Option<u32>)
    ensures
        r == spec_parse_letter(character),
{
    let letter = character as u32;
    let a = 'A' as u32;
    if letter >= a && letter < a + 15 {
        Some(letter - a)
    } else {
        None
    }
}

/// Parse a row number.
pub fn parse_number(s: &str) -> (r: Option<u32>)
    ensures
        r == spec_parse_number(s@),
{
    let len = s.unicode_len();
    if len == 0 {
        return None;
    }
    let mut acc: u32 = 0;
    let mut i: usize = 0;
    while i < len
        invariant
            len == s@.len(),
            i <= len,
            all_digits(s@.subrange(0, i as int)),
            acc == if spec_number_val(s@.subrange(0, i as int)) <= 15 {
                spec_number_val(s@.subrange(0, i as int))
            } else {
                16int
            },
        decreases len - i,
    {
        let c = s.get_char(i);
        let code = c as u32;
        if code < 48 || code > 57 {
            assert(!is_digit(s@[i as int]));
            return None;
        }
        let d = code - 48;
        acc = acc * 10 + d;
        if acc > 15 {
            acc = 16;
        }
        proof {
            assert(s@.subrange(0, i + 1 as int).drop_last() =~= s@.subrange(0, i as int));
            assert(s@.subrange(0, i + 1 as int).last() == s@[i as int]);
        }
        i = i + 1;
    }
    proof {
        assert(s@.subrange(0, len as int) =~= s@);
    }
    if acc >= 1 && acc <= 15 {
        Some(acc - 1)
    } else {
        None
    }
}

/// Parse a whole move, such as `C10`.
pub fn parse_pos(s: &str) -> (r: Command)
    ensures
        r == spec_parse_pos(s@),
{
    let len = s.unicode_len();
    if len < 2 {
        return Command::Nothing;
    }
    let head = s.get_char(0);
    let tail = s.substring_char(1, len);
    let col = parse_letter(head);
    let row = parse_number(tail);
    match (col, row) {
        (Some(x), Some(y)) => Command::Move(x, y),
        _ => Command::Nothing,
    }
}

/// Whether a line ends in a question mark.
pub fn is_question(s: &str) -> (b: bool)
    ensures
        b == (s@.len() > 0 && s@.last() == '?'),
{
    let len = s.unicode_len();
    if len == 0 {
        false
    } else {
        s.get_char(len - 1) == '?'
    }
}

/// A copy of the line without its last character; an empty line stays
/// empty.
pub fn drop_last(s: &str) -> (r: String)
    ensures
        s@.len() == 0 ==> r@ == s@,
        s@.len() > 0 ==> r@ == s@.drop_last(),
{
    let len = s.unicode_len();
    if len == 0 {
        s.to_owned()
    } else {
        let head = s.substring_char(0, len - 1);
        proof {
            assert(s@.subrange(0, s@.len() - 1) =~= s@.drop_last());
        }
        head.to_owned()
    }
}

} // verus!
