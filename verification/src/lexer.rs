use vstd::prelude::*;
use vstd::string::StringExecFns;
use crate::decode::{ascii_chars, decimal_repr, decimal_string, decoded_as, lossy_of};
use crate::error::Error;
use crate::scanner::{advance, spec_scan, Scanner, ScanStep};
use crate::token::{Token, TokenKind, TokenValue};

verus! {

/// Thin pull-iterator over a borrowed input: hands out one token per call,
/// emits a synthetic end-of-input token exactly once, and can be reset onto
/// new input.
pub struct Lexer<'i> {
    eof: bool,
    input: &'i [u8],
    scanner: Scanner,
}

impl<'i> Lexer<'i> {
    /// The borrowed input never fills the whole address space, so position
    /// arithmetic cannot overflow. Every constructor establishes this and
    /// every method keeps it.
    pub open spec fn wf(&self) -> bool {
        self.spec_input().len() < usize::MAX
    }

    /// Whether the end-of-input token has already been emitted.
    pub closed spec fn spec_eof(&self) -> bool {
        self.eof
    }

    /// The bytes the lexer is scanning.
    pub closed spec fn spec_input(&self) -> Seq<u8> {
        self.input@
    }

    /// The scanner's absolute byte offset.
    pub closed spec fn spec_offset(&self) -> usize {
        self.scanner.spec_offset()
    }

    /// The scanner's current 1-based line.
    pub closed spec fn spec_line(&self) -> usize {
        self.scanner.spec_line()
    }

    /// The scanner's current 1-based column.
    pub closed spec fn spec_column(&self) -> usize {
        self.scanner.spec_column()
    }

    /// A lexer at the start of `input`: offset 0, line 1, column 1, with the
    /// end-of-input token still to come.
    pub fn new(input: &'i [u8]) -> (r: Self)
        requires
            input@.len() < usize::MAX,
        ensures
            r.wf(),
            !r.spec_eof(),
            r.spec_input() == input@,
            r.spec_offset() == 0,
            r.spec_line() == 1,
            r.spec_column() == 1,
    {
        Self { eof: false, input, scanner: Scanner::new() }
    }

    pub fn column(&self) -> (r: usize)
        ensures
            r == self.spec_column(),
    {
        self.scanner.column()
    }

    pub fn line(&self) -> (r: usize)
        ensures
            r == self.spec_line(),
    {
        self.scanner.line()
    }

    /// Pulls the next token.
    ///
    /// Once the end-of-input token has been emitted, every further call
    /// returns `Ok(None)` and changes nothing, until `reset`. Otherwise the
    /// call yields what scanning from the current offset yields: the next
    /// classified token with the position of its first byte and its decoded
    /// payload; or, at the input's end, the end-of-input token (kind
    /// `EndOfInput`, length 0, positioned past the final byte); or the first
    /// lexical error, stamped with the position where scanning halted.
    pub fn next_token(&mut self) -> (r: Result<Option<Token>, Error>)
        requires
            old(self).wf(),
        ensures
            final(self).wf(),
            final(self).spec_input() == old(self).spec_input(),
            old(self).spec_eof() ==> r == Ok::<Option<Token>, Error>(None::<Token>) && *final(self)
                == *old(self),
            !old(self).spec_eof() ==> match spec_scan(
                old(self).spec_input(),
                old(self).spec_offset() as int,
            ) {
                ScanStep::Found(kind, start, n) => {
                    &&& !final(self).spec_eof()
                    &&& final(self).spec_offset() == start + n
                    &&& (final(self).spec_line() as int, final(self).spec_column() as int)
                        == advance(
                        old(self).spec_line() as int,
                        old(self).spec_column() as int,
                        old(self).spec_input().subrange(old(self).spec_offset() as int, start + n),
                    )
                    &&& r matches Ok(Some(t)) && {
                        &&& t.kind == kind
                        &&& (t.line as int, t.column as int) == advance(
                            old(self).spec_line() as int,
                            old(self).spec_column() as int,
                            old(self).spec_input().subrange(old(self).spec_offset() as int, start),
                        )
                        &&& t.length == n
                        &&& match kind {
                            TokenKind::Identifier => t.value matches Some(TokenValue::String(txt))
                                && txt@ == lossy_of(
                                old(self).spec_input().subrange(start, start + n),
                            ),
                            TokenKind::Literal => t.value matches Some(v) && decoded_as(
                                old(self).spec_input().subrange(start, start + n),
                                v,
                            ),
                            _ => t.value is None,
                        }
                    }
                },
                ScanStep::End => {
                    &&& final(self).spec_eof()
                    &&& r matches Ok(Some(t)) && t.kind == TokenKind::EndOfInput && t.length == 0
                        && t.value is None && t.line == final(self).spec_line() && t.column
                        == final(self).spec_column()
                    &&& if old(self).spec_offset() >= old(self).spec_input().len() {
                        &&& final(self).spec_offset() == old(self).spec_offset()
                        &&& final(self).spec_line() == old(self).spec_line()
                        &&& final(self).spec_column() == old(self).spec_column()
                    } else {
                        &&& final(self).spec_offset() == old(self).spec_input().len()
                        &&& (final(self).spec_line() as int, final(self).spec_column() as int)
                            == advance(
                            old(self).spec_line() as int,
                            old(self).spec_column() as int,
                            old(self).spec_input().subrange(
                                old(self).spec_offset() as int,
                                old(self).spec_input().len() as int,
                            ),
                        )
                    }
                },
                ScanStep::Failed(e, eoff) => {
                    &&& !final(self).spec_eof()
                    &&& final(self).spec_offset() == eoff
                    &&& (final(self).spec_line() as int, final(self).spec_column() as int)
                        == advance(
                        old(self).spec_line() as int,
                        old(self).spec_column() as int,
                        old(self).spec_input().subrange(old(self).spec_offset() as int, eoff),
                    )
                    &&& r == Err::<Option<Token>, Error>(
                        e.with_position(final(self).spec_line(), final(self).spec_column()),
                    )
                },
            },
    {
        if self.eof {
            return Ok(None);
        }
        let input = self.input;
        let token = match self.scanner.scan(input) {
            Err(e) => {
                return Err(e);
            },
            Ok(Some(token)) => token,
            Ok(None) => {
                self.eof = true;
                Token::new(
                    TokenKind::EndOfInput,
                    self.scanner.line(),
                    self.scanner.column(),
                    0,
                )
            },
        };
        Ok(Some(token))
    }


    /// The lexer's state, as diagnostics spell it.
    pub open spec fn spec_render(&self) -> Seq<char> {
        "Lexer(line = "@ + ascii_chars(decimal_repr(self.spec_line() as nat)) + ", column = "@
            + ascii_chars(decimal_repr(self.spec_column() as nat)) + ", eof = "@ + (if self
            .spec_eof() {
            "true"@
        } else {
            "false"@
        }) + ")"@
    }

    /// Renders the lexer's state for diagnostics.
    pub fn render(&self) -> (r: String)
        ensures
            r@ == self.spec_render(),
    {
        let mut s = String::from_str("Lexer(line = ");
        let line = decimal_string(self.scanner.line() as u64);
        s.append(line.as_str());
        s.append(", column = ");
        let column = decimal_string(self.scanner.column() as u64);
        s.append(column.as_str());
        s.append(", eof = ");
        if self.eof {
            s.append("true");
        } else {
            s.append("false");
        }
        s.append(")");
        s
    }

    /// Rebinds the lexer onto new input, back in its construction state.
    pub fn reset(&mut self, input: &'i [u8])
        requires
            input@.len() < usize::MAX,
        ensures
            final(self).wf(),
            !final(self).spec_eof(),
            final(self).spec_input() == input@,
            final(self).spec_offset() == 0,
            final(self).spec_line() == 1,
            final(self).spec_column() == 1,
    {
        self.eof = false;
        self.input = input;
        self.scanner.reset();
    }
}

} // verus!
