//! The diagnostic renderer: turns a parse error into the text of a
//! pinpointed message — the offending source line, an underline over
//! the error's span, and a fixed note per error kind. Printing the text
//! is the caller's business; this module only builds it, exactly as
//! [`render_error`] says.

use vstd::prelude::*;
use vstd::string::{StringSliceAdditionalSpecFns, StrSliceExecFns, StringExecFns, is_ascii};
use vstd::utf8::{is_ascii_chars, is_ascii_chars_encode_utf8};
use crate::lexer::Span;
use crate::parser::ParserError;

verus! {

/// The decimal digit character for one digit value.
pub open spec fn digit_char(d: int) -> char {
    if d == 0 {
        '0'
    } else if d == 1 {
        '1'
    } else if d == 2 {
        '2'
    } else if d == 3 {
        '3'
    } else if d == 4 {
        '4'
    } else if d == 5 {
        '5'
    } else if d == 6 {
        '6'
    } else if d == 7 {
        '7'
    } else if d == 8 {
        '8'
    } else {
        '9'
    }
}

/// The decimal digits of a number, most significant first.
pub open spec fn digits_of(n: nat) -> Seq<char>
    decreases n,
{
    if n < 10 {
        seq![digit_char(n as int)]
    } else {
        digits_of(n / 10).push(digit_char((n % 10) as int))
    }
}

/// How many newline bytes sit before position `e`.
pub open spec fn nl_prefix(bytes: Seq<u8>, e: int) -> nat
    decreases e,
{
    if e <= 0 {
        0
    } else {
        nl_prefix(bytes, e - 1) + if 0 <= e - 1 < bytes.len() && bytes[e - 1] == 10 {
            1nat
        } else {
            0nat
        }
    }
}

/// How many newline characters sit before position `e`.
pub open spec fn count_nl_chars(s: Seq<char>, e: int) -> nat
    decreases e,
{
    if e <= 0 {
        0
    } else {
        count_nl_chars(s, e - 1) + if 0 <= e - 1 < s.len() && s[e - 1] == '\n' {
            1nat
        } else {
            0nat
        }
    }
}

/// The start of the line that position `x` lies on: the position just
/// after the previous newline.
pub open spec fn line_start_at(s: Seq<char>, x: int) -> int
    decreases x,
{
    if x <= 0 {
        0
    } else if 0 <= x - 1 < s.len() && s[x - 1] == '\n' {
        x
    } else {
        line_start_at(s, x - 1)
    }
}

/// The position of the first newline at or after `from`, or the end.
pub open spec fn next_nl(s: Seq<char>, from: int) -> int
    decreases s.len() - from,
{
    if from >= s.len() {
        s.len() as int
    } else if from >= 0 && s[from] == '\n' {
        from
    } else {
        next_nl(s, from + 1)
    }
}

/// `k` copies of one character.
pub open spec fn char_repeat(c: char, k: nat) -> Seq<char> {
    Seq::new(k, |i: int| c)
}

/// The location block under an error message: a gutter line, the
/// offending source line behind its one-based line number, an underline
/// of the span starting at its column, and the note.
pub open spec fn render_location(s: Seq<char>, span: Span, note: Seq<char>) -> Seq<char> {
    let from = if span.from <= s.len() {
        span.from as int
    } else {
        s.len() as int
    };
    let line = count_nl_chars(s, from);
    let a = line_start_at(s, from);
    let b = next_nl(s, from);
    let b2 = if b > a && s[b - 1] == '\r' {
        b - 1
    } else {
        b
    };
    let code_line = s.subrange(a, b2);
    let num = digits_of(line + 1);
    let col = (from - a) as nat;
    let width = (span.to - span.from) as nat;
    char_repeat(' ', num.len()) + " |"@ + "\n"@ + num + " | "@ + code_line + "\n"@ + char_repeat(
        ' ',
        num.len(),
    ) + " |"@ + char_repeat(' ', col + 1) + char_repeat('^', width) + "\n"@ + char_repeat(
        ' ',
        num.len() + 1,
    ) + "= note: "@ + note + "\n"@
}

/// The whole diagnostic for one parse error.
pub open spec fn render_error(e: ParserError, s: Seq<char>) -> Seq<char> {
    match e {
        ParserError::UnexpectedEOF(span) => "Error: "@ + "End of file before loop close"@ + "\n"@
            + render_location(s, span, "close the loop before the file ends"@),
        ParserError::UnexpectedClosing(span) => "Error: "@ + "Unexpected closing of loop"@
            + "\n"@ + render_location(s, span, "Remove the unnecessary \"]\""@),
    }
}

/// The span an error points at.
pub open spec fn error_span(e: ParserError) -> Span {
    match e {
        ParserError::UnexpectedEOF(span) => span,
        ParserError::UnexpectedClosing(span) => span,
    }
}

/// The digits of any number are ASCII.
proof fn lemma_digits_ascii(n: nat)
    ensures
        is_ascii_chars(digits_of(n)),
        digits_of(n).len() >= 1,
    decreases n,
{
    if n >= 10 {
        lemma_digits_ascii(n / 10);
    }
}

/// A positive number has no more digits than its value.
proof fn lemma_digits_len(n: nat)
    requires
        n >= 1,
    ensures
        digits_of(n).len() <= n,
    decreases n,
{
    if n >= 10 {
        assert(1 <= n / 10 && n / 10 <= n - 1) by (nonlinear_arith)
            requires
                n >= 10,
        ;
        lemma_digits_len(n / 10);
    }
}

/// One digit as text.
fn digit_str(d: usize) -> (r: &'static str)
    requires
        d < 10,
    ensures
        r@ == seq![digit_char(d as int)],
{
    proof {
        reveal_strlit("0");
        reveal_strlit("1");
        reveal_strlit("2");
        reveal_strlit("3");
        reveal_strlit("4");
        reveal_strlit("5");
        reveal_strlit("6");
        reveal_strlit("7");
        reveal_strlit("8");
        reveal_strlit("9");
    }
    let r = if d == 0 {
        "0"
    } else if d == 1 {
        "1"
    } else if d == 2 {
        "2"
    } else if d == 3 {
        "3"
    } else if d == 4 {
        "4"
    } else if d == 5 {
        "5"
    } else if d == 6 {
        "6"
    } else if d == 7 {
        "7"
    } else if d == 8 {
        "8"
    } else {
        "9"
    };
    proof {
        assert(r@ =~= seq![digit_char(d as int)]);
    }
    r
}

/// A number in decimal, as [`digits_of`] says.
fn digits_string(n: usize) -> (r: String)
    ensures
        r@ == digits_of(n as nat),
    decreases n,
{
    if n < 10 {
        String::from_str(digit_str(n))
    } else {
        proof {
            assert(n / 10 < n) by (nonlinear_arith)
                requires
                    n >= 10,
            ;
        }
        let mut r = digits_string(n / 10);
        r.append(digit_str(n % 10));
        proof {
            assert(r@ =~= digits_of(n as nat));
        }
        r
    }
}

/// `count` copies of a one-character piece, as [`char_repeat`] says.
fn repeat_one(piece: &str, count: usize) -> (r: String)
    requires
        piece@.len() == 1,
    ensures
        r@ == char_repeat(piece@[0], count as nat),
{
    let mut r = String::new();
    let mut i: usize = 0;
    while i < count
        invariant
            piece@.len() == 1,
            i <= count,
            r@ =~= char_repeat(piece@[0], i as nat),
        decreases count - i,
    {
        r.append(piece);
        proof {
            assert(r@ =~= char_repeat(piece@[0], (i + 1) as nat));
        }
        i = i + 1;
    }
    r
}

/// Builds the diagnostic text for a parse error over its source text:
/// the error's message line, then the location block of
/// [`render_location`]. The source must be ASCII (as the language's
/// syntax is); spans are then byte- and character-exact.
pub fn print_error(err: &ParserError, input: &str) -> (r: String)
    requires
        is_ascii(input),
        input@.len() < usize::MAX,
        error_span(*err).from <= error_span(*err).to,
    ensures
        r@ == render_error(*err, input@),
{
    let mut out = String::new();
    let span = match err {
        ParserError::UnexpectedEOF(span) => {
            out.append("Error: ");
            out.append("End of file before loop close");
            out.append("\n");
            *span
        },
        ParserError::UnexpectedClosing(span) => {
            out.append("Error: ");
            out.append("Unexpected closing of loop");
            out.append("\n");
            *span
        },
    };
    let location = match err {
        ParserError::UnexpectedEOF(_) => render_location_text(
            input,
            span,
            "close the loop before the file ends",
        ),
        ParserError::UnexpectedClosing(_) => render_location_text(
            input,
            span,
            "Remove the unnecessary \"]\"",
        ),
    };
    out.append(location.as_str());
    proof {
        assert(out@ =~= render_error(*err, input@));
    }
    out
}

/// The line number, line start and line end around one position of an
/// ASCII text: everything the location block needs of the source.
#[verifier::rlimit(40)]
fn scan_position(input: &str, from: usize) -> (r: (usize, usize, usize))
    requires
        is_ascii(input),
        input@.len() < usize::MAX,
        from <= input@.len(),
    ensures
        r.0 == count_nl_chars(input@, from as int),
        r.1 == line_start_at(input@, from as int),
        r.2 == next_nl(input@, from as int),
        r.1 <= from <= r.2 <= input@.len(),
        r.0 <= from,
{
    let ghost s = input@;
    proof {
        is_ascii_chars_encode_utf8(s);
    }
    let bytes = input.as_bytes();
    let n = input.len();
    proof {
        assert(bytes@ =~= Seq::new(s.len(), |i: int| s[i] as u8));
        assert(n == s.len());
        assert forall|j: int| 0 <= j < s.len() implies (s[j] == '\n' <==> bytes@[j] == 10) by {
            assert(s[j] <= '\u{7f}');
        }
    }
    let mut line: usize = 0;
    let mut i: usize = 0;
    while i < from
        invariant
            from <= n,
            n == s.len(),
            bytes@.len() == n,
            i <= from,
            forall|j: int| 0 <= j < s.len() ==> (s[j] == '\n' <==> bytes@[j] == 10),
            line == count_nl_chars(s, i as int),
            line <= i,
        decreases from - i,
    {
        if bytes[i] == 10 {
            line = line + 1;
        }
        i = i + 1;
    }
    let mut a: usize = from;
    while a > 0 && bytes[a - 1] != 10
        invariant
            from <= n,
            n == s.len(),
            bytes@.len() == n,
            a <= from,
            forall|j: int| 0 <= j < s.len() ==> (s[j] == '\n' <==> bytes@[j] == 10),
            line_start_at(s, from as int) == line_start_at(s, a as int),
        decreases a,
    {
        a = a - 1;
    }
    proof {
        assert(line_start_at(s, from as int) == a);
    }
    let mut b: usize = from;
    while b < n && bytes[b] != 10
        invariant
            from <= b <= n,
            n == s.len(),
            bytes@.len() == n,
            forall|j: int| 0 <= j < s.len() ==> (s[j] == '\n' <==> bytes@[j] == 10),
            next_nl(s, from as int) == next_nl(s, b as int),
        decreases n - b,
    {
        b = b + 1;
    }
    proof {
        assert(next_nl(s, from as int) == b);
    }
    (line, a, b)
}

/// Whether the character at `i` is a carriage return.
fn is_cr_at(input: &str, i: usize) -> (r: bool)
    requires
        is_ascii(input),
        i < input@.len(),
    ensures
        r == (input@[i as int] == '\r'),
{
    proof {
        is_ascii_chars_encode_utf8(input@);
        assert(input.spec_bytes() =~= Seq::new(input@.len(), |j: int| input@[j] as u8));
        assert(input@[i as int] <= '\u{7f}');
    }
    let bytes = input.as_bytes();
    bytes[i] == 13
}

/// Builds the location block, as [`render_location`] says.
#[verifier::rlimit(40)]
fn render_location_text(input: &str, span: Span, note: &str) -> (r: String)
    requires
        is_ascii(input),
        input@.len() < usize::MAX,
        span.from <= span.to,
    ensures
        r@ == render_location(input@, span, note@),
{
    let ghost s = input@;
    let n = input.len();
    proof {
        is_ascii_chars_encode_utf8(s);
        assert(n == s.len());
    }
    let from = if span.from <= n {
        span.from
    } else {
        n
    };
    let (line, a, b) = scan_position(input, from);
    let b2 = if b > a && is_cr_at(input, b - 1) {
        b - 1
    } else {
        b
    };
    let code_line = input.substring_char(a, b2);
    let num = digits_string(line + 1);
    let num_str = num.as_str();
    proof {
        lemma_digits_ascii((line + 1) as nat);
        lemma_digits_len((line + 1) as nat);
        assert(num_str@ == num@);
        assert(is_ascii_chars(num_str@));
        is_ascii_chars_encode_utf8(num_str@);
    }
    let numlen = num_str.len();
    proof {
        assert(numlen == num@.len());
        reveal_strlit(" ");
        reveal_strlit("^");
    }
    let gutter = repeat_one(" ", numlen);
    let col = from - a;
    let underline_pad = repeat_one(" ", col + 1);
    let carets = repeat_one("^", span.to - span.from);
    let mut out = String::new();
    out.append(gutter.as_str());
    out.append(" |");
    out.append("\n");
    out.append(num.as_str());
    out.append(" | ");
    out.append(code_line);
    out.append("\n");
    out.append(gutter.as_str());
    out.append(" |");
    out.append(underline_pad.as_str());
    out.append(carets.as_str());
    out.append("\n");
    out.append(gutter.as_str());
    out.append(" ");
    out.append("= note: ");
    out.append(note);
    out.append("\n");
    proof {
        assert(out@ =~= render_location(s, span, note@));
    }
    out
}

/// How many newlines come before the error's span: the zero-based line
/// number its diagnostic points at.
pub fn get_line_of_error(span: &Span, input: &str) -> (r: usize)
    ensures
        r as nat == nl_prefix(
            input.spec_bytes(),
            if span.from <= input.spec_bytes().len() {
                span.from as int
            } else {
                input.spec_bytes().len() as int
            },
        ),
{
    let bytes = input.as_bytes();
    let n = bytes.len();
    let end = if span.from <= n {
        span.from
    } else {
        n
    };
    let mut count: usize = 0;
    let mut i: usize = 0;
    while i < end
        invariant
            end <= n,
            n == bytes@.len(),
            i <= end,
            count == nl_prefix(bytes@, i as int),
            count <= i,
        decreases end - i,
    {
        if bytes[i] == 10 {
            count = count + 1;
        }
        i = i + 1;
    }
    count
}

} // verus!
