//! The text of a diagnostic.

use vstd::prelude::*;
use vstd::string::StringExecFns;
use crate::structure::Diagnostic;

verus! {

/// The character of a decimal digit.
pub open spec fn digit(d: nat) -> char {
    if d == 0 {
        '0'
    } else if d == 1 {
        '1'
    } else if d == 2 {
        '2'
    } else if d == 3 {
        '3'
    } else if d == 4 {
        '4'
    } else if d == 5 {
        '5'
    } else if d == 6 {
        '6'
    } else if d == 7 {
        '7'
    } else if d == 8 {
        '8'
    } else {
        '9'
    }
}

/// A number in decimal notation, without leading zeros.
pub open spec fn decimal(n: nat) -> Seq<char>
    decreases n,
{
    if n < 10 {
        seq![digit(n)]
    } else {
        decimal(n / 10).push(digit(n % 10))
    }
}

fn digit_text(d: usize) -> (text: &'static str)
    requires
        d < 10,
    ensures
        text@ == seq![digit(d as nat)],
{
    proof {
        reveal_strlit("0");
        reveal_strlit("1");
        reveal_strlit("2");
        reveal_strlit("3");
        reveal_strlit("4");
        reveal_strlit("5");
        reveal_strlit("6");
        reveal_strlit("7");
        reveal_strlit("8");
        reveal_strlit("9");
    }
    let text = if d == 0 {
        "0"
    } else if d == 1 {
        "1"
    } else if d == 2 {
        "2"
    } else if d == 3 {
        "3"
    } else if d == 4 {
        "4"
    } else if d == 5 {
        "5"
    } else if d == 6 {
        "6"
    } else if d == 7 {
        "7"
    } else if d == 8 {
        "8"
    } else {
        "9"
    };
    text
}

/// Appends a number in decimal notation to a text.
pub(crate) fn push_decimal(text: &mut String, n: usize)
    ensures
        final(text)@ == old(text)@ + decimal(n as nat),
    decreases n,
{
    if n >= 10 {
        push_decimal(text, n / 10);
    }
    text.append(digit_text(n % 10));
}

impl Diagnostic {
    /// The text of the diagnostic: what went wrong and, for a bracket, the
    /// index of the opcode at which.
    pub open spec fn text(self) -> Seq<char> {
        match self {
            Diagnostic::UnterminatedOpen(position) => "Unterminated '[' at position "@ + decimal(
                position as nat,
            ) + "."@,
            Diagnostic::UnexpectedClose(position) => "Unexpected ']' in position "@ + decimal(
                position as nat,
            ) + "."@,
            Diagnostic::PointerOutOfRange => "Data pointer out of range."@,
            Diagnostic::MismatchedLoopStack => "Mismatched loop points."@,
        }
    }

    /// Renders the diagnostic as text.
    pub fn message(&self) -> (text: String)
        ensures
            text@ == self.text(),
    {
        match self {
            Diagnostic::UnterminatedOpen(position) => {
                let mut text = String::from_str("Unterminated '[' at position ");
                push_decimal(&mut text, *position);
                text.append(".");
                text
            },
            Diagnostic::UnexpectedClose(position) => {
                let mut text = String::from_str("Unexpected ']' in position ");
                push_decimal(&mut text, *position);
                text.append(".");
                text
            },
            Diagnostic::PointerOutOfRange => String::from_str("Data pointer out of range."),
            Diagnostic::MismatchedLoopStack => String::from_str("Mismatched loop points."),
        }
    }
}

} // verus!
