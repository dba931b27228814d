use vstd::prelude::*;
use vstd::slice::slice_subrange;
use crate::decode::{decode_literal, decoded_as, lossy_decode, lossy_of};
use crate::error::Error;
use crate::token::{Token, TokenKind, TokenValue};
use crate::tokenizer::{lemma_tokenize_bounds, spec_tokenize, Scanned, Tokenizer};

verus! {

/// The outcome of one `scan` call started at a given offset: a token of some
/// kind found at a start offset with a byte length, the input's end after
/// any trailing whitespace, or a failure at the offset where it arose.
pub enum ScanStep {
    Found(TokenKind, int, int),
    End,
    Failed(Error, int),
}

/// What scanning from offset `off` yields: whitespace skips move the offset
/// forward one byte at a time; the first classified token, failure, or the
/// input's end decides the step.
pub open spec fn spec_scan(s: Seq<u8>, off: int) -> ScanStep
    decreases s.len() - off
        when 0 <= off
{
    if off >= s.len() {
        ScanStep::End
    } else {
        match spec_tokenize(s.subrange(off, s.len() as int)) {
            Scanned::Tok(k, n) => ScanStep::Found(k, off, n),
            Scanned::Skip(n) => if n == 1 {
                spec_scan(s, off + 1)
            } else {
                ScanStep::End
            },
            Scanned::Fail(e) => ScanStep::Failed(e, off),
        }
    }
}

/// The position reached after walking `s` from line `line`, column `column`:
/// a line-feed byte moves to the next line's first column; any other byte
/// moves one column to the right.
pub open spec fn advance(line: int, column: int, s: Seq<u8>) -> (int, int)
    decreases s.len(),
{
    if s.len() == 0 {
        (line, column)
    } else if s[0] == 10 {
        advance(line + 1, 1, s.subrange(1, s.len() as int))
    } else {
        advance(line, column + 1, s.subrange(1, s.len() as int))
    }
}

/// Walking `n` bytes moves the line down by at most `n` and the column right
/// by at most `n` (from its old place, or from column 1 after a line feed).
pub proof fn lemma_advance_bounds(line: int, column: int, s: Seq<u8>)
    ensures
        line <= advance(line, column, s).0 <= line + s.len(),
        advance(line, column, s).1 <= (if column >= 1 {
            column
        } else {
            1
        }) + s.len(),
    decreases s.len(),
{
    if s.len() > 0 {
        if s[0] == 10 {
            lemma_advance_bounds(line + 1, 1, s.subrange(1, s.len() as int));
        } else {
            lemma_advance_bounds(line, column + 1, s.subrange(1, s.len() as int));
        }
    }
}

/// Stateful scanning driver: owns the current 1-based line and column, the
/// absolute byte offset into the input, and a saved mark for rollback.
pub struct Scanner {
    column: usize,
    line: usize,
    mark: (usize, usize, usize),
    offset: usize,
    tokenizer: Tokenizer,
}

impl Scanner {
    /// The line and column never outrun the offset: each starts at 1 and
    /// grows by at most one per consumed byte.
    #[verifier::type_invariant]
    spec fn wf(&self) -> bool {
        &&& self.line as int <= self.offset as int + 1
        &&& self.column as int <= self.offset as int + 1
        &&& self.mark.1 as int <= self.mark.0 as int + 1
        &&& self.mark.2 as int <= self.mark.0 as int + 1
    }

    /// The absolute byte offset scanning has reached.
    pub closed spec fn spec_offset(&self) -> usize {
        self.offset
    }

    /// The current 1-based line.
    pub closed spec fn spec_line(&self) -> usize {
        self.line
    }

    /// The current 1-based column.
    pub closed spec fn spec_column(&self) -> usize {
        self.column
    }

    /// The saved `(offset, line, column)` rollback point.
    pub closed spec fn spec_mark(&self) -> (usize, usize, usize) {
        self.mark
    }

    /// A fresh scanner: offset 0, line 1, column 1, mark cleared.
    pub fn new() -> (r: Self)
        ensures
            r.spec_offset() == 0,
            r.spec_line() == 1,
            r.spec_column() == 1,
            r.spec_mark() == (0usize, 0usize, 0usize),
    {
        Self { column: 1, line: 1, mark: (0, 0, 0), offset: 0, tokenizer: Tokenizer::new() }
    }

    pub fn column(&self) -> (r: usize)
        ensures
            r == self.spec_column(),
    {
        self.column
    }

    pub fn line(&self) -> (r: usize)
        ensures
            r == self.spec_line(),
    {
        self.line
    }

    /// Walks the `amount` input bytes at the current offset, moving the
    /// position as `advance` says and the offset past them.
    fn consume(&mut self, input: &[u8], amount: usize)
        requires
            old(self).spec_offset() + amount <= input@.len(),
            old(self).spec_line() + amount <= usize::MAX,
            old(self).spec_column() + amount <= usize::MAX,
        ensures
            final(self).spec_offset() == old(self).spec_offset() + amount,
            final(self).spec_mark() == old(self).spec_mark(),
            (final(self).spec_line() as int, final(self).spec_column() as int) == advance(
                old(self).spec_line() as int,
                old(self).spec_column() as int,
                input@.subrange(
                    old(self).spec_offset() as int,
                    old(self).spec_offset() + amount,
                ),
            ),
    {
        proof {
            use_type_invariant(&*self);
        }
        let ghost seg = input@.subrange(
            self.offset as int,
            self.offset as int + amount as int,
        );
        let total = input.len();
        let offset = self.offset;
        let mut line = self.line;
        let mut column = self.column;
        let mut j: usize = 0;
        proof {
            assert(seg.subrange(0, amount as int) =~= seg);
        }
        while j < amount
            invariant
                j <= amount,
                offset + amount <= total,
                total == input@.len(),
                seg == input@.subrange(offset as int, offset as int + amount as int),
                line + (amount - j) <= usize::MAX,
                column + (amount - j) <= usize::MAX,
                advance(old(self).spec_line() as int, old(self).spec_column() as int, seg)
                    == advance(line as int, column as int, seg.subrange(j as int, amount as int)),
            decreases amount - j,
        {
            let b = input[offset + j];
            proof {
                assert(seg.subrange(j as int, amount as int).subrange(
                    1,
                    (amount - j) as int,
                ) =~= seg.subrange(j as int + 1, amount as int));
                assert(seg.subrange(j as int, amount as int)[0] == input@[offset + j]);
            }
            if b == 10 {
                line = line + 1;
                column = 1;
            } else {
                column = column + 1;
            }
            j = j + 1;
        }
        proof {
            assert(seg.subrange(amount as int, amount as int) =~= Seq::<u8>::empty());
            lemma_advance_bounds(
                old(self).spec_line() as int,
                old(self).spec_column() as int,
                seg,
            );
        }
        *self = Scanner {
            column,
            line,
            mark: self.mark,
            offset: offset + amount,
            tokenizer: Tokenizer::new(),
        };
    }

    /// Saves the current `(offset, line, column)` as the rollback point.
    pub fn mark_current_position(&mut self)
        ensures
            final(self).spec_mark() == (
                old(self).spec_offset(),
                old(self).spec_line(),
                old(self).spec_column(),
            ),
            final(self).spec_offset() == old(self).spec_offset(),
            final(self).spec_line() == old(self).spec_line(),
            final(self).spec_column() == old(self).spec_column(),
    {
        proof {
            use_type_invariant(&*self);
        }
        self.mark = (self.offset, self.line, self.column);
    }

    /// Puts the scanner back in its construction state.
    pub fn reset(&mut self)
        ensures
            final(self).spec_offset() == 0,
            final(self).spec_line() == 1,
            final(self).spec_column() == 1,
            final(self).spec_mark() == (0usize, 0usize, 0usize),
    {
        *self = Scanner { column: 1, line: 1, mark: (0, 0, 0), offset: 0, tokenizer: Tokenizer::new() };
    }

    /// Rolls the scanning position back to the saved mark, atomically.
    pub fn reset_to_mark(&mut self)
        ensures
            final(self).spec_offset() == old(self).spec_mark().0,
            final(self).spec_line() == old(self).spec_mark().1,
            final(self).spec_column() == old(self).spec_mark().2,
            final(self).spec_mark() == old(self).spec_mark(),
    {
        proof {
            use_type_invariant(&*self);
        }
        let (offset, line, column) = self.mark;
        *self = Scanner {
            column,
            line,
            mark: self.mark,
            offset,
            tokenizer: Tokenizer::new(),
        };
    }

    /// Drives the tokenizer over the remaining input and produces the next
    /// fully-formed token, `None` at the input's end, or a positioned error
    /// — whatever `spec_scan` names for the current offset. A found token
    /// carries the position of its first byte (after skipped whitespace) and
    /// its decoded payload; a failure carries the position where scanning
    /// halted; the consumed bytes move the scanner's own position forward.
    pub fn scan(&mut self, input: &[u8]) -> (r: Result<Option<Token>, Error>)
        requires
            input@.len() < usize::MAX,
        ensures
            match spec_scan(input@, old(self).spec_offset() as int) {
                ScanStep::Found(kind, start, n) => {
                    &&& final(self).spec_offset() == start + n
                    &&& final(self).spec_mark() == old(self).spec_mark()
                    &&& (final(self).spec_line() as int, final(self).spec_column() as int)
                        == advance(
                        old(self).spec_line() as int,
                        old(self).spec_column() as int,
                        input@.subrange(old(self).spec_offset() as int, start + n),
                    )
                    &&& r matches Ok(Some(t)) && {
                        &&& t.kind == kind
                        &&& (t.line as int, t.column as int) == advance(
                            old(self).spec_line() as int,
                            old(self).spec_column() as int,
                            input@.subrange(old(self).spec_offset() as int, start),
                        )
                        &&& t.length == n
                        &&& match kind {
                            TokenKind::Identifier => t.value matches Some(TokenValue::String(txt))
                                && txt@ == lossy_of(input@.subrange(start, start + n)),
                            TokenKind::Literal => t.value matches Some(v) && decoded_as(
                                input@.subrange(start, start + n),
                                v,
                            ),
                            _ => t.value is None,
                        }
                    }
                },
                ScanStep::End => {
                    &&& r == Ok::<Option<Token>, Error>(None::<Token>)
                    &&& final(self).spec_mark() == old(self).spec_mark()
                    &&& if old(self).spec_offset() >= input@.len() {
                        *final(self) == *old(self)
                    } else {
                        &&& final(self).spec_offset() == input@.len()
                        &&& (final(self).spec_line() as int, final(self).spec_column() as int)
                            == advance(
                            old(self).spec_line() as int,
                            old(self).spec_column() as int,
                            input@.subrange(old(self).spec_offset() as int, input@.len() as int),
                        )
                    }
                },
                ScanStep::Failed(e, eoff) => {
                    &&& final(self).spec_offset() == eoff
                    &&& final(self).spec_mark() == old(self).spec_mark()
                    &&& (final(self).spec_line() as int, final(self).spec_column() as int)
                        == advance(
                        old(self).spec_line() as int,
                        old(self).spec_column() as int,
                        input@.subrange(old(self).spec_offset() as int, eoff),
                    )
                    &&& r == Err::<Option<Token>, Error>(
                        e.with_position(final(self).spec_line(), final(self).spec_column()),
                    )
                },
            },
    {
        if self.offset >= input.len() {
            return Ok(None);
        }
        let ghost init = *self;
        proof {
            assert(input@.subrange(init.offset as int, init.offset as int) =~= Seq::<
                u8,
            >::empty());
        }
        loop
            invariant
                init == *old(self),
                input@.len() < usize::MAX,
                init.mark == self.mark,
                init.offset <= self.offset,
                self.offset as int <= input@.len(),
                spec_scan(input@, init.offset as int) == spec_scan(input@, self.offset as int),
                (self.line as int, self.column as int) == advance(
                    init.line as int,
                    init.column as int,
                    input@.subrange(init.offset as int, self.offset as int),
                ),
            decreases input@.len() - self.offset,
        {
            proof {
                use_type_invariant(&*self);
            }
            if self.offset >= input.len() {
                return Ok(None);
            }
            let window = slice_subrange(input, self.offset, input.len());
            proof {
                lemma_tokenize_bounds(window@);
            }
            match self.tokenizer.tokenize(window) {
                Ok((Some((kind, length)), _)) => {
                    let tline = self.line;
                    let tcol = self.column;
                    let start = self.offset;
                    proof {
                        assert(window@.subrange(0, length as int) =~= input@.subrange(
                            start as int,
                            start as int + length as int,
                        ));
                        assert(input@.subrange(init.offset as int, start as int) + input@.subrange(
                            start as int,
                            start as int + length as int,
                        ) =~= input@.subrange(init.offset as int, start as int + length as int));
                        lemma_advance_concat(
                            init.line as int,
                            init.column as int,
                            input@.subrange(init.offset as int, start as int),
                            input@.subrange(start as int, start as int + length as int),
                        );
                    }
                    self.consume(input, length);
                    let token = match kind {
                        TokenKind::Identifier => {
                            let word = slice_subrange(input, start, start + length);
                            Token::new(kind, tline, tcol, length).with_value(
                                TokenValue::String(lossy_decode(word)),
                            )
                        },
                        TokenKind::Literal => {
                            let word = slice_subrange(input, start, start + length);
                            Token::new(kind, tline, tcol, length).with_value(decode_literal(word))
                        },
                        _ => Token::new(kind, tline, tcol, length),
                    };
                    return Ok(Some(token));
                },
                Ok((None, length)) => {
                    if length > 0 {
                        proof {
                            assert(input@.subrange(init.offset as int, self.offset as int)
                                + input@.subrange(
                                self.offset as int,
                                self.offset as int + 1,
                            ) =~= input@.subrange(init.offset as int, self.offset as int + 1));
                            lemma_advance_concat(
                                init.line as int,
                                init.column as int,
                                input@.subrange(init.offset as int, self.offset as int),
                                input@.subrange(self.offset as int, self.offset as int + 1),
                            );
                        }
                        self.consume(input, length);
                    } else {
                        return Ok(None);
                    }
                },
                Err(e) => {
                    let mut err = e;
                    err.set_position(self.line, self.column);
                    return Err(err);
                },
            }
        }
    }
}

/// Walking a concatenation advances as walking its parts in turn.
pub proof fn lemma_advance_concat(line: int, column: int, a: Seq<u8>, b: Seq<u8>)
    ensures
        advance(line, column, a + b) == advance(
            advance(line, column, a).0,
            advance(line, column, a).1,
            b,
        ),
    decreases a.len(),
{
    if a.len() == 0 {
        assert(a + b =~= b);
    } else {
        assert((a + b).subrange(1, (a + b).len() as int) =~= a.subrange(1, a.len() as int) + b);
        if a[0] == 10 {
            lemma_advance_concat(line + 1, 1, a.subrange(1, a.len() as int), b);
        } else {
            lemma_advance_concat(line, column + 1, a.subrange(1, a.len() as int), b);
        }
    }
}

} // verus!
