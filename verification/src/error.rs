use vstd::prelude::*;
use vstd::string::StringExecFns;
use crate::decode::{ascii_chars, decimal_repr, decimal_string};

verus! {

/// A lexical failure, optionally carrying the 1-based `(line, column)` of the
/// byte where scanning halted.
///
/// The tokenizer constructs every error without a position; the scanner is
/// the only component that attaches one, and it does so before the error
/// reaches a caller.
#[derive(Clone, Debug)]
pub enum Error {
    BadNumber(Option<(usize, usize)>),

    MalformatedHexNumber(Option<(usize, usize)>),

    UnrecognizedToken(Option<(usize, usize)>),

    UnterminatedStringLiteral(Option<(usize, usize)>),
}

impl Error {
    /// The position carried by the error, if any.
    pub open spec fn spec_position(&self) -> Option<(usize, usize)> {
        match *self {
            Error::BadNumber(pos) => pos,
            Error::MalformatedHexNumber(pos) => pos,
            Error::UnrecognizedToken(pos) => pos,
            Error::UnterminatedStringLiteral(pos) => pos,
        }
    }

    /// The same error with its position replaced.
    pub open spec fn with_position(&self, line: usize, column: usize) -> Error {
        match *self {
            Error::BadNumber(_) => Error::BadNumber(Some((line, column))),
            Error::MalformatedHexNumber(_) => Error::MalformatedHexNumber(Some((line, column))),
            Error::UnrecognizedToken(_) => Error::UnrecognizedToken(Some((line, column))),
            Error::UnterminatedStringLiteral(_) => Error::UnterminatedStringLiteral(
                Some((line, column)),
            ),
        }
    }

    /// Returns the carried line and column, or `None` for each when the
    /// position was never attached.
    pub fn position(&self) -> (r: (Option<usize>, Option<usize>))
        ensures
            match self.spec_position() {
                Some(p) => r == (Some(p.0), Some(p.1)),
                None => r == (None::<usize>, None::<usize>),
            },
    {
        let pos = match self {
            Error::BadNumber(pos) => pos,
            Error::MalformatedHexNumber(pos) => pos,
            Error::UnrecognizedToken(pos) => pos,
            Error::UnterminatedStringLiteral(pos) => pos,
        };
        match pos {
            Some((line, column)) => (Some(*line), Some(*column)),
            None => (None, None),
        }
    }

    /// The short human-readable label of the error's variant.
    pub open spec fn spec_label(&self) -> Seq<char> {
        match *self {
            Error::BadNumber(_) => "bad number format"@,
            Error::MalformatedHexNumber(_) => "malformatted hexadecimal integer"@,
            Error::UnrecognizedToken(_) => "unrecognized token"@,
            Error::UnterminatedStringLiteral(_) => "non-terminated string literal"@,
        }
    }

    /// How one position component renders: its decimal digits, or the word
    /// `unknown` where no position was attached.
    pub open spec fn spec_position_text(p: Option<usize>) -> Seq<char> {
        match p {
            Some(n) => ascii_chars(decimal_repr(n as nat)),
            None => "unknown"@,
        }
    }

    /// The full rendered message: the label, then the line and column.
    pub open spec fn spec_message(&self) -> Seq<char> {
        "lexer error occured: "@ + self.spec_label() + " (line: "@ + Self::spec_position_text(
            match self.spec_position() {
                Some(p) => Some(p.0),
                None => None,
            },
        ) + ", column: "@ + Self::spec_position_text(
            match self.spec_position() {
                Some(p) => Some(p.1),
                None => None,
            },
        ) + ")"@
    }

    /// Renders the error for diagnostics: a human-readable label plus the
    /// carried line and column (or `unknown` where none was attached, which
    /// a caller never sees from the scanner).
    pub fn message(&self) -> (r: String)
        ensures
            r@ == self.spec_message(),
    {
        let mut s = String::from_str("lexer error occured: ");
        match self {
            Error::BadNumber(_) => s.append("bad number format"),
            Error::MalformatedHexNumber(_) => s.append("malformatted hexadecimal integer"),
            Error::UnrecognizedToken(_) => s.append("unrecognized token"),
            Error::UnterminatedStringLiteral(_) => s.append("non-terminated string literal"),
        }
        s.append(" (line: ");
        let (line, column) = self.position();
        match line {
            Some(n) => {
                let digits = decimal_string(n as u64);
                s.append(digits.as_str());
            },
            None => s.append("unknown"),
        }
        s.append(", column: ");
        match column {
            Some(n) => {
                let digits = decimal_string(n as u64);
                s.append(digits.as_str());
            },
            None => s.append("unknown"),
        }
        s.append(")");
        s
    }

    /// Stamps a position onto the error, keeping its variant.
    pub fn set_position(&mut self, line: usize, column: usize)
        ensures
            *final(self) == old(self).with_position(line, column),
    {
        match self {
            Error::BadNumber(pos) => *pos = Some((line, column)),
            Error::MalformatedHexNumber(pos) => *pos = Some((line, column)),
            Error::UnrecognizedToken(pos) => *pos = Some((line, column)),
            Error::UnterminatedStringLiteral(pos) => *pos = Some((line, column)),
        }
    }
}

} // verus!
