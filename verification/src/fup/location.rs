//! Where a position of the source text lies: its line and column.
use vstd::prelude::*;

use super::{ParseError, ParseErrorKind};
use crate::grammar::repeat_chars;
use crate::lexer::chars_of;

verus! {

/// The number of line breaks in `s`.
pub open spec fn count_line_breaks(s: Seq<char>) -> nat
    decreases s.len(),
{
    if s.len() == 0 {
        0
    } else {
        count_line_breaks(s.drop_last()) + if s.last() == '\n' {
            1nat
        } else {
            0nat
        }
    }
}

/// The position just after the last line break of `s`, or 0 when there is
/// none: where the last line of `s` begins.
pub open spec fn last_line_start(s: Seq<char>) -> nat
    decreases s.len(),
{
    if s.len() == 0 {
        0
    } else if s.last() == '\n' {
        s.len()
    } else {
        last_line_start(s.drop_last())
    }
}

/// A place in a text: its line and column, both counted from 1, and the
/// position where its line begins.
#[derive(Clone, Copy, Debug, PartialEq, Eq, Structural)]
pub struct Location {
    pub line: usize,
    pub column: usize,
    pub line_start: usize,
}

proof fn lemma_counts_bounded(s: Seq<char>)
    ensures
        count_line_breaks(s) <= s.len(),
        last_line_start(s) <= s.len(),
    decreases s.len(),
{
    if s.len() > 0 {
        lemma_counts_bounded(s.drop_last());
    }
}

/// The line and column of the character at `position` of `text` (of the
/// end of the text, for a position past it).
pub fn locate(text: &str, position: usize) -> (loc: Location)
    requires
        text@.len() < usize::MAX,
    ensures
        ({
            let p = if position <= text@.len() {
                position as int
            } else {
                text@.len() as int
            };
            &&& loc.line == 1 + count_line_breaks(text@.take(p))
            &&& loc.line_start == last_line_start(text@.take(p))
            &&& loc.column == 1 + p - last_line_start(text@.take(p))
            &&& loc.line_start <= p
        }),
{
    let chars = chars_of(text);
    let end = if position <= chars.len() {
        position
    } else {
        chars.len()
    };
    let mut line: usize = 1;
    let mut start: usize = 0;
    let mut k: usize = 0;
    while k < end
        invariant
            k <= end <= chars@.len() < usize::MAX,
            chars@ == text@,
            line == 1 + count_line_breaks(chars@.take(k as int)),
            start == last_line_start(chars@.take(k as int)),
        decreases end - k,
    {
        proof {
            assert(chars@.take(k + 1).drop_last() =~= chars@.take(k as int));
            lemma_counts_bounded(chars@.take(k as int));
        }
        if chars[k] == '\n' {
            line = line + 1;
            start = k + 1;
        }
        k = k + 1;
    }
    proof {
        lemma_counts_bounded(chars@.take(end as int));
    }
    Location { line, column: end - start + 1, line_start: start }
}


/// The decimal digits of `n`.
pub open spec fn decimal_text(n: nat) -> Seq<char>
    decreases n,
{
    if n < 10 {
        seq![(48 + n) as char]
    } else {
        decimal_text(n / 10) + seq![(48 + n % 10) as char]
    }
}

/// The first line break at or after `k`, or the end of `s`.
pub open spec fn line_end(s: Seq<char>, k: int) -> int
    decreases s.len() - k,
{
    if k < 0 || k >= s.len() {
        s.len() as int
    } else if s[k] == '\n' {
        k
    } else {
        line_end(s, k + 1)
    }
}

/// What went wrong, in words.
pub open spec fn problem_text(kind: ParseErrorKind) -> Seq<char> {
    match kind {
        ParseErrorKind::Lexical => "no token begins here"@,
        ParseErrorKind::Syntax => "no expression begins here"@,
    }
}

/// The message for the error `e` in the text `s`: the line and column, the
/// line itself with a caret under the column, and what went wrong.
pub open spec fn error_message(s: Seq<char>, e: ParseError) -> Seq<char> {
    let p = if e.position <= s.len() {
        e.position as int
    } else {
        s.len() as int
    };
    let start = last_line_start(s.take(p));
    let line = 1 + count_line_breaks(s.take(p));
    let column = 1 + p - start;
    " --> "@ + decimal_text(line) + ":"@ + decimal_text(column as nat) + "\n  |\n  | "@
        + s.subrange(start as int, line_end(s, start as int)) + "\n  | "@ + repeat_chars(
        " "@,
        (column - 1) as nat,
    ) + "^\n  |\n  = "@ + problem_text(e.kind)
}

/// The text of one decimal digit.
fn digit_text(d: usize) -> (r: &'static str)
    requires
        d < 10,
    ensures
        r@ == seq![(48 + d) as char],
{
    proof {
        reveal_strlit("0");
        reveal_strlit("1");
        reveal_strlit("2");
        reveal_strlit("3");
        reveal_strlit("4");
        reveal_strlit("5");
        reveal_strlit("6");
        reveal_strlit("7");
        reveal_strlit("8");
        reveal_strlit("9");
    }
    let r = match d {
        0 => "0",
        1 => "1",
        2 => "2",
        3 => "3",
        4 => "4",
        5 => "5",
        6 => "6",
        7 => "7",
        8 => "8",
        _ => "9",
    };
    assert(r@ =~= seq![(48 + d) as char]);
    r
}

/// Appends the decimal digits of `n` to `out`.
fn push_decimal(out: &mut String, n: usize)
    ensures
        final(out)@ == old(out)@ + decimal_text(n as nat),
    decreases n,
{
    if n >= 10 {
        push_decimal(out, n / 10);
    }
    out.append(digit_text(n % 10));
    assert(final(out)@ =~= old(out)@ + decimal_text(n as nat));
}

/// The message for the parse error `err` in `input`, as the user reads it.
pub fn error_text(input: &str, err: ParseError) -> (text: String)
    requires
        input@.len() < usize::MAX,
    ensures
        text@ == error_message(input@, err),
{
    let loc = locate(input, err.position);
    let chars = chars_of(input);
    let mut end = loc.line_start;
    while end < chars.len() && chars[end] != '\n'
        invariant
            loc.line_start <= end <= chars@.len(),
            chars@ == input@,
            line_end(input@, loc.line_start as int) == line_end(input@, end as int),
        decreases chars.len() - end,
    {
        end = end + 1;
    }
    let mut out = String::from_str(" --> ");
    push_decimal(&mut out, loc.line);
    out.append(":");
    push_decimal(&mut out, loc.column);
    out.append("\n  |\n  | ");
    out.append(input.substring_char(loc.line_start, end));
    out.append("\n  | ");
    let ghost before = out@;
    let mut k: usize = 1;
    while k < loc.column
        invariant
            1 <= k <= loc.column,
            out@ == before + repeat_chars(" "@, (k - 1) as nat),
        decreases loc.column - k,
    {
        out.append(" ");
        k = k + 1;
    }
    out.append("^\n  |\n  = ");
    match err.kind {
        ParseErrorKind::Lexical => out.append("no token begins here"),
        ParseErrorKind::Syntax => out.append("no expression begins here"),
    }
    out
}

} // verus!
