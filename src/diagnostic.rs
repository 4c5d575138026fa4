//! Diagnostics: the two kinds of malformed input the scanner reports.
use vstd::prelude::*;
use vstd::string::StringExecFns;
use crate::text::{collect_text, decode};

verus! {

/// Malformed input met while scanning. Neither kind stops the scan.
#[derive(Clone, Copy, Debug, PartialEq, Eq, Structural)]
pub enum Diagnostic {
    /// A string literal whose opening quote has no closing quote before the
    /// end of input.
    UnterminatedString { line: usize },
    /// A character that matches no lexical rule.
    UnexpectedCharacter { line: usize, code_point: u32 },
}

/// An error as the front end prints it: `[line N] Error<location>: <message>`.
pub struct Report {
    pub line: usize,
    pub location: String,
    pub message: String,
}

/// The report of an error at `line` that names no particular location.
pub fn error(line: usize, message: String) -> (r: Report)
    ensures
        r.line == line,
        r.location@ == Seq::<char>::empty(),
        r.message == message,
{
    Report { line, location: String::new(), message }
}

/// The lower-case hexadecimal digit of value `d`, for `d < 16`.
pub open spec fn hex_digit(d: nat) -> char {
    seq!['0', '1', '2', '3', '4', '5', '6', '7', '8', '9', 'a', 'b', 'c', 'd', 'e', 'f'][d as int]
}

/// The lower-case hexadecimal numeral of `n`, without leading zeros.
pub open spec fn hex_digits(n: nat) -> Seq<char>
    decreases n,
{
    if n < 16 {
        seq![hex_digit(n)]
    } else {
        hex_digits(n / 16).push(hex_digit(n % 16))
    }
}

/// The text that describes a diagnostic.
pub open spec fn message_text(d: Diagnostic) -> Seq<char> {
    match d {
        Diagnostic::UnterminatedString { .. } => "Unterminated string."@,
        Diagnostic::UnexpectedCharacter { code_point, .. } => "Unexpected character code: '0x"@
            + hex_digits(code_point as nat) + seq!['\'', '.'],
    }
}

/// Appends the hexadecimal numeral of `n` to `out`.
fn push_hex(out: &mut Vec<char>, n: u32)
    ensures
        final(out)@ == old(out)@ + hex_digits(n as nat),
    decreases n,
{
    let digits: [char; 16] = [
        '0', '1', '2', '3', '4', '5', '6', '7', '8', '9', 'a', 'b', 'c', 'd', 'e', 'f',
    ];
    let ghost before = out@;
    if n >= 16 {
        push_hex(out, n / 16);
    }
    out.push(digits[(n % 16) as usize]);
    proof {
        assert(digits@ == seq![
            '0', '1', '2', '3', '4', '5', '6', '7', '8', '9', 'a', 'b', 'c', 'd', 'e', 'f',
        ]);
        if n >= 16 {
            assert(out@ =~= before + hex_digits(n as nat));
        } else {
            assert(out@ =~= before + hex_digits(n as nat));
        }
    }
}

impl Diagnostic {
    /// The line the diagnostic was reported on.
    pub open spec fn spec_line(self) -> usize {
        match self {
            Diagnostic::UnterminatedString { line } => line,
            Diagnostic::UnexpectedCharacter { line, .. } => line,
        }
    }

    pub fn line(&self) -> (r: usize)
        ensures
            r == self.spec_line(),
    {
        match self {
            Diagnostic::UnterminatedString { line } => *line,
            Diagnostic::UnexpectedCharacter { line, .. } => *line,
        }
    }

    /// The text that describes the diagnostic.
    pub fn message(&self) -> (r: String)
        ensures
            r@ == message_text(*self),
    {
        match self {
            Diagnostic::UnterminatedString { .. } => String::from_str("Unterminated string."),
            Diagnostic::UnexpectedCharacter { code_point, .. } => {
                let mut text = decode("Unexpected character code: '0x");
                push_hex(&mut text, *code_point);
                text.push('\'');
                text.push('.');
                collect_text(text.as_slice())
            },
        }
    }

    /// The report of the diagnostic: its line and its message.
    pub fn report(&self) -> (r: Report)
        ensures
            r.line == self.spec_line(),
            r.location@ == Seq::<char>::empty(),
            r.message@ == message_text(*self),
    {
        error(self.line(), self.message())
    }
}

} // verus!
