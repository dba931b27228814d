use vstd::prelude::*;
use crate::decode::{digit_ok, is_digit_byte, quote_byte, underscore_byte};
use crate::error::Error;
use crate::token::TokenKind;

verus! {

/// A classified token: its kind and the byte length of its span. Every span
/// starts at the first byte of the window handed to the tokenizer.
pub type RawToken = (TokenKind, usize);

/// An ASCII whitespace byte: space, tab, line feed, form feed or carriage
/// return.
pub open spec fn is_space_byte(b: u8) -> bool {
    b == 32 || b == 9 || b == 10 || b == 12 || b == 13
}

/// A byte that may start or continue an identifier: an ASCII letter, any
/// byte with its high bit set, or an underscore.
pub open spec fn is_ident_byte(b: u8) -> bool {
    (65 <= b && b <= 90) || (97 <= b && b <= 122) || b > 127 || b == underscore_byte()
}

/// The outcome of classifying one window: a token with its length, a length
/// to skip, or a positionless failure.
pub enum Scanned {
    Tok(TokenKind, int),
    Skip(int),
    Fail(Error),
}

/// How the tokenizer's executable result encodes a classification outcome.
pub open spec fn matches_scanned(
    r: Result<(Option<RawToken>, usize), Error>,
    sc: Scanned,
) -> bool {
    match sc {
        Scanned::Tok(kind, n) => r matches Ok((Some((k, s)), m)) && k == kind && s == n && m == n,
        Scanned::Skip(n) => r matches Ok((None, m)) && m == n,
        Scanned::Fail(e) => r matches Err(err) && err == e,
    }
}

/// Where a run of digits (with underscore separators allowed only between
/// two digits) ends, starting at index `i`:
/// - `Boundary(j)`: the first byte at or past `i` that neither continues the
///   run nor is a well-placed separator, and is not an underscore;
/// - `End`: the run reaches the end of the window;
/// - `Sep`: an underscore stands somewhere other than between two digits.
pub enum RunEnd {
    Boundary(int),
    End,
    Sep,
}

pub open spec fn run_end(s: Seq<u8>, i: int, hex: bool) -> RunEnd
    decreases s.len() - i
        when 0 <= i
{
    if i >= s.len() {
        RunEnd::End
    } else if digit_ok(s[i], hex) {
        run_end(s, i + 1, hex)
    } else if s[i] == underscore_byte() {
        if i >= 1 && digit_ok(s[i - 1], hex) && i + 1 < s.len() && digit_ok(s[i + 1], hex) {
            run_end(s, i + 1, hex)
        } else {
            RunEnd::Sep
        }
    } else {
        RunEnd::Boundary(i)
    }
}

/// Classification of a window whose first bytes spell an exponent part:
/// `s[p]` is the marker `e`/`E`, an optional sign follows, then at least one
/// digit must follow; the token ends at the digit run's boundary, which may
/// not itself start an identifier.
pub open spec fn spec_exponential(s: Seq<u8>, p: int) -> Scanned {
    if p + 1 < s.len() {
        let q: int = if s[p + 1] == 43 || s[p + 1] == 45 {
            p + 1
        } else {
            p
        };
        match run_end(s, q + 1, false) {
            RunEnd::Boundary(i) => if is_ident_byte(s[i]) || i == q + 1 {
                Scanned::Fail(Error::BadNumber(None))
            } else {
                Scanned::Tok(TokenKind::Literal, i)
            },
            RunEnd::End => if s.len() == q + 1 {
                Scanned::Fail(Error::BadNumber(None))
            } else {
                Scanned::Tok(TokenKind::Literal, s.len() as int)
            },
            RunEnd::Sep => Scanned::Fail(Error::BadNumber(None)),
        }
    } else {
        Scanned::Fail(Error::BadNumber(None))
    }
}

/// Classification of a window whose fractional part starts just past index
/// `p` (the dot): a digit run, optionally followed by an exponent part. As
/// everywhere in number scanning, a boundary byte that could start an
/// identifier is rejected.
pub open spec fn spec_fractional(s: Seq<u8>, p: int) -> Scanned {
    match run_end(s, p + 1, false) {
        RunEnd::Boundary(i) => if s[i] == 69 || s[i] == 101 {
            spec_exponential(s, i)
        } else if is_ident_byte(s[i]) {
            Scanned::Fail(Error::BadNumber(None))
        } else {
            Scanned::Tok(TokenKind::Literal, i)
        },
        RunEnd::End => Scanned::Tok(TokenKind::Literal, s.len() as int),
        RunEnd::Sep => Scanned::Fail(Error::BadNumber(None)),
    }
}

/// Classification of a window opening with the `0x`/`0X` prefix: at least
/// one hexadecimal digit must follow, and the boundary byte may not start an
/// identifier.
pub open spec fn spec_hex(s: Seq<u8>) -> Scanned {
    match run_end(s, 2, true) {
        RunEnd::Boundary(i) => if is_ident_byte(s[i]) || i == 2 {
            Scanned::Fail(Error::MalformatedHexNumber(None))
        } else {
            Scanned::Tok(TokenKind::Literal, i)
        },
        RunEnd::End => if s.len() == 2 {
            Scanned::Fail(Error::MalformatedHexNumber(None))
        } else {
            Scanned::Tok(TokenKind::Literal, s.len() as int)
        },
        RunEnd::Sep => Scanned::Fail(Error::BadNumber(None)),
    }
}

/// Classification of a window opening a numeric literal (a digit, or a minus
/// sign directly followed by a digit): a hexadecimal integer after a `0x`
/// prefix, else a digit run that may continue into a fractional or exponent
/// part. A boundary byte that could start an identifier is rejected, so a
/// span such as a digit run directly followed by letters is no literal.
pub open spec fn spec_number(s: Seq<u8>) -> Scanned
    recommends
        s.len() > 0,
{
    if s[0] == 48 && s.len() >= 2 && (s[1] == 88 || s[1] == 120) {
        spec_hex(s)
    } else if s[0] == 48 && s.len() == 1 {
        Scanned::Tok(TokenKind::Literal, 1)
    } else {
        match run_end(s, 1, false) {
            RunEnd::Boundary(i) => if s[i] == 69 || s[i] == 101 {
                spec_exponential(s, i)
            } else if s[i] == 46 {
                spec_fractional(s, i)
            } else if is_ident_byte(s[i]) {
                Scanned::Fail(Error::BadNumber(None))
            } else {
                Scanned::Tok(TokenKind::Literal, i)
            },
            RunEnd::End => Scanned::Tok(TokenKind::Literal, s.len() as int),
            RunEnd::Sep => Scanned::Fail(Error::BadNumber(None)),
        }
    }
}

/// Where a string literal that opened at index 0 ends. `prev_quote` says
/// whether the previous byte was a quote that may close the literal. A
/// doubled quote is absorbed; a lone quote followed by byte `i` closes the
/// literal just before `i`; a lone quote at the end closes it at the end;
/// anything else leaves the literal unterminated.
pub open spec fn string_end(s: Seq<u8>, i: int, prev_quote: bool) -> Option<int>
    decreases s.len() - i
        when 0 <= i
{
    if i >= s.len() {
        if prev_quote {
            Some(s.len() as int)
        } else {
            None
        }
    } else if prev_quote && s[i] == quote_byte() {
        string_end(s, i + 1, false)
    } else if prev_quote {
        Some(i)
    } else {
        string_end(s, i + 1, s[i] == quote_byte())
    }
}

/// Classification of a window opening with a quote.
pub open spec fn spec_string(s: Seq<u8>) -> Scanned {
    match string_end(s, 1, false) {
        Some(i) => Scanned::Tok(TokenKind::Literal, i),
        None => Scanned::Fail(Error::UnterminatedStringLiteral(None)),
    }
}

/// The first index at or past `i` whose byte cannot continue an identifier,
/// or the window's length when the identifier runs to the end.
pub open spec fn ident_end(s: Seq<u8>, i: int) -> int
    decreases s.len() - i
        when 0 <= i
{
    if i >= s.len() {
        s.len() as int
    } else if !is_ident_byte(s[i]) {
        i
    } else {
        ident_end(s, i + 1)
    }
}

/// The window opens with the keyword `OR`.
pub open spec fn starts_or(s: Seq<u8>) -> bool {
    s.len() >= 2 && s[0] == 79 && s[1] == 82
}

/// The window opens with the keyword `AND`.
pub open spec fn starts_and(s: Seq<u8>) -> bool {
    s.len() >= 3 && s[0] == 65 && s[1] == 78 && s[2] == 68
}

/// The window opens with the keyword `NOT`.
pub open spec fn starts_not(s: Seq<u8>) -> bool {
    s.len() >= 3 && s[0] == 78 && s[1] == 79 && s[2] == 84
}

/// The window opens with the literal `true`.
pub open spec fn starts_true(s: Seq<u8>) -> bool {
    s.len() >= 4 && s[0] == 116 && s[1] == 114 && s[2] == 117 && s[3] == 101
}

/// The window opens with the literal `false`.
pub open spec fn starts_false(s: Seq<u8>) -> bool {
    s.len() >= 5 && s[0] == 102 && s[1] == 97 && s[2] == 108 && s[3] == 115 && s[4] == 101
}

/// The window opens with the literal `null`.
pub open spec fn starts_null(s: Seq<u8>) -> bool {
    s.len() >= 4 && s[0] == 110 && s[1] == 117 && s[2] == 108 && s[3] == 108
}

/// The identifier word opening the window is exactly one of the keywords
/// `OR`, `AND`, `NOT`: it spells the keyword and the identifier run ends at
/// the keyword's last byte.
pub open spec fn keyword_word(s: Seq<u8>) -> bool {
    let n = ident_end(s, 1);
    (n == 2 && starts_or(s)) || (n == 3 && (starts_and(s) || starts_not(s)))
}

/// The identifier word opening the window is exactly `true` or `false`.
pub open spec fn boolean_word(s: Seq<u8>) -> bool {
    let n = ident_end(s, 1);
    (n == 4 && starts_true(s)) || (n == 5 && starts_false(s))
}

/// The identifier word opening the window is exactly `null`.
pub open spec fn null_word(s: Seq<u8>) -> bool {
    ident_end(s, 1) == 4 && starts_null(s)
}

/// Classification of a window whose opening word is a keyword; the keywords
/// differ in their first byte, so at most one matches.
pub open spec fn spec_keyword(s: Seq<u8>) -> Scanned {
    if starts_or(s) {
        Scanned::Tok(TokenKind::Or, 2)
    } else if starts_and(s) {
        Scanned::Tok(TokenKind::And, 3)
    } else if starts_not(s) {
        Scanned::Tok(TokenKind::Not, 3)
    } else {
        Scanned::Fail(Error::UnrecognizedToken(None))
    }
}

/// Classification of a window whose opening word is a boolean literal; the
/// two literals differ in their first byte, so at most one matches.
pub open spec fn spec_boolean(s: Seq<u8>) -> Scanned {
    if starts_true(s) {
        Scanned::Tok(TokenKind::True, 4)
    } else if starts_false(s) {
        Scanned::Tok(TokenKind::False, 5)
    } else {
        Scanned::Fail(Error::UnrecognizedToken(None))
    }
}

/// Classification of a window whose opening word is the `null` literal.
pub open spec fn spec_null(s: Seq<u8>) -> Scanned {
    if starts_null(s) {
        Scanned::Tok(TokenKind::Null, 4)
    } else {
        Scanned::Fail(Error::UnrecognizedToken(None))
    }
}

/// How a non-empty window is classified, driven by its first byte:
/// single-byte punctuation; two-byte comparisons by one byte of lookahead;
/// a minus sign or dot directly followed by a digit opens a numeric literal;
/// a quote opens a string literal; an identifier word that is exactly one of
/// the literals `AND`, `OR`, `NOT`, `true`, `false`, `null` maps to its
/// kind, while a word that merely begins with one stays an identifier;
/// whitespace is skipped one byte at a time; any other identifier byte opens
/// an identifier; anything else is unrecognized.
pub open spec fn spec_tokenize(s: Seq<u8>) -> Scanned
    recommends
        s.len() > 0,
{
    let b = s[0];
    if b == 33 {
        // `!` must be followed by `=`
        if s.len() >= 2 && s[1] == 61 {
            Scanned::Tok(TokenKind::NotEquals, 2)
        } else {
            Scanned::Fail(Error::UnrecognizedToken(None))
        }
    } else if b == 40 {
        Scanned::Tok(TokenKind::LeftParenthesis, 1)
    } else if b == 41 {
        Scanned::Tok(TokenKind::RightParenthesis, 1)
    } else if b == 62 {
        if s.len() >= 2 && s[1] == 61 {
            Scanned::Tok(TokenKind::GreaterThanEquals, 2)
        } else {
            Scanned::Tok(TokenKind::GreaterThan, 1)
        }
    } else if b == 60 {
        if s.len() >= 2 && s[1] == 61 {
            Scanned::Tok(TokenKind::LesserThanEquals, 2)
        } else {
            Scanned::Tok(TokenKind::LesserThan, 1)
        }
    } else if b == 61 {
        Scanned::Tok(TokenKind::Equals, 1)
    } else if b == 45 {
        if s.len() >= 2 && is_digit_byte(s[1]) {
            spec_number(s)
        } else {
            Scanned::Tok(TokenKind::Minus, 1)
        }
    } else if b == quote_byte() {
        spec_string(s)
    } else if b == 58 {
        Scanned::Tok(TokenKind::Colon, 1)
    } else if b == 46 {
        if s.len() >= 2 && is_digit_byte(s[1]) {
            spec_fractional(s, 0)
        } else {
            Scanned::Tok(TokenKind::Dot, 1)
        }
    } else if b == 44 {
        Scanned::Tok(TokenKind::Comma, 1)
    } else if is_digit_byte(b) {
        spec_number(s)
    } else if (b == 65 || b == 78 || b == 79) && keyword_word(s) {
        spec_keyword(s)
    } else if (b == 102 || b == 116) && boolean_word(s) {
        spec_boolean(s)
    } else if b == 110 && null_word(s) {
        spec_null(s)
    } else if is_space_byte(b) {
        Scanned::Skip(1)
    } else if is_ident_byte(b) {
        Scanned::Tok(TokenKind::Identifier, ident_end(s, 1))
    } else {
        Scanned::Fail(Error::UnrecognizedToken(None))
    }
}

/// Stateless classifier over byte windows.
pub struct Tokenizer {}

impl Tokenizer {
    pub fn new() -> (r: Self)
        ensures
            r == (Tokenizer {  }),
    {
        Self {  }
    }

    /// Classifies the start of a non-empty byte window into exactly one
    /// outcome: a recognized token with its byte span, a skip length for a
    /// whitespace byte, or a classification failure — the one that
    /// `spec_tokenize` names for the window.
    pub fn tokenize(&self, input: &[u8]) -> (r: Result<(Option<RawToken>, usize), Error>)
        requires
            input@.len() > 0,
        ensures
            matches_scanned(r, spec_tokenize(input@)),
    {
        let n = input.len();
        match input[0] {
            // `!`
            33 => {
                if n >= 2 && input[1] == 61 {
                    Ok((Some((TokenKind::NotEquals, 2)), 2))
                } else {
                    Err(Error::UnrecognizedToken(None))
                }
            },
            // `(`
            40 => Ok((Some((TokenKind::LeftParenthesis, 1)), 1)),
            // `)`
            41 => Ok((Some((TokenKind::RightParenthesis, 1)), 1)),
            // `>`
            62 => {
                if n >= 2 && input[1] == 61 {
                    Ok((Some((TokenKind::GreaterThanEquals, 2)), 2))
                } else {
                    Ok((Some((TokenKind::GreaterThan, 1)), 1))
                }
            },
            // `<`
            60 => {
                if n >= 2 && input[1] == 61 {
                    Ok((Some((TokenKind::LesserThanEquals, 2)), 2))
                } else {
                    Ok((Some((TokenKind::LesserThan, 1)), 1))
                }
            },
            // `=`
            61 => Ok((Some((TokenKind::Equals, 1)), 1)),
            // `-`
            45 => {
                if n >= 2 && is_digit(input[1]) {
                    number(input)
                } else {
                    Ok((Some((TokenKind::Minus, 1)), 1))
                }
            },
            // `"`
            34 => string(input),
            // `:`
            58 => Ok((Some((TokenKind::Colon, 1)), 1)),
            // `.`
            46 => {
                if n >= 2 && is_digit(input[1]) {
                    fractional_part(input, 0)
                } else {
                    Ok((Some((TokenKind::Dot, 1)), 1))
                }
            },
            // `,`
            44 => Ok((Some((TokenKind::Comma, 1)), 1)),
            // digits
            48..=57 => number(input),
            // `A`, `N`, `O`
            65 | 78 | 79 => {
                if is_keyword(input) {
                    keyword(input)
                } else {
                    Ok(identifier(input))
                }
            },
            // `f`, `t`
            102 | 116 => {
                if is_boolean(input) {
                    boolean(input)
                } else {
                    Ok(identifier(input))
                }
            },
            // `n`
            110 => {
                if is_null(input) {
                    null(input)
                } else {
                    Ok(identifier(input))
                }
            },
            b => {
                if b == 32 || b == 9 || b == 10 || b == 12 || b == 13 {
                    Ok((None, 1))
                } else if is_identifier_byte(b) {
                    Ok(identifier(input))
                } else {
                    Err(Error::UnrecognizedToken(None))
                }
            },
        }
    }
}

/// Reports whether a byte is a decimal digit.
fn is_digit(b: u8) -> (r: bool)
    ensures
        r == is_digit_byte(b),
{
    48 <= b && b <= 57
}

/// Reports whether a byte continues a digit run of the chosen base.
fn digit_of_base(b: u8, hex: bool) -> (r: bool)
    ensures
        r == digit_ok(b, hex),
{
    if hex {
        (48 <= b && b <= 57) || (65 <= b && b <= 70) || (97 <= b && b <= 102)
    } else {
        48 <= b && b <= 57
    }
}

/// Reports whether a byte may start or continue an identifier.
fn is_identifier_byte(b: u8) -> (r: bool)
    ensures
        r == is_ident_byte(b),
{
    (65 <= b && b <= 90) || (97 <= b && b <= 122) || b > 127 || b == 95
}

/// Walks a digit run from `position` and reports where it ends: the boundary
/// index and its byte, `None` when the run reaches the window's end, or a
/// failure for a misplaced separator — as `run_end` names it.
fn find_end_of_number(input: &[u8], position: usize, hex: bool) -> (r: Result<
    Option<(usize, u8)>,
    Error,
>)
    ensures
        match run_end(input@, position as int, hex) {
            RunEnd::Boundary(i) => r == Ok::<_, Error>(Some((i as usize, input@[i])))
                && position <= i < input@.len(),
            RunEnd::End => r == Ok::<_, Error>(None::<(usize, u8)>),
            RunEnd::Sep => r == Err::<Option<(usize, u8)>, _>(Error::BadNumber(None)),
        },
{
    let mut idx = position;
    while idx < input.len()
        invariant
            position <= idx,
            run_end(input@, position as int, hex) == run_end(input@, idx as int, hex),
        decreases input@.len() - idx,
    {
        let b = input[idx];
        if digit_of_base(b, hex) {
            idx = idx + 1;
        } else if b == 95 {
            if idx >= 1 && idx + 1 < input.len() && digit_of_base(input[idx - 1], hex)
                && digit_of_base(input[idx + 1], hex) {
                idx = idx + 1;
            } else {
                return Err(Error::BadNumber(None));
            }
        } else {
            return Ok(Some((idx, b)));
        }
    }
    Ok(None)
}

/// Scans a numeric literal; see `spec_number`.
fn number(input: &[u8]) -> (r: Result<(Option<RawToken>, usize), Error>)
    requires
        input@.len() > 0,
    ensures
        matches_scanned(r, spec_number(input@)),
{
    let n = input.len();
    if input[0] == 48 {
        if n >= 2 {
            if input[1] == 88 || input[1] == 120 {
                return hex_integer(input);
            }
        } else {
            return Ok((Some((TokenKind::Literal, 1)), 1));
        }
    }
    match find_end_of_number(input, 1, false) {
        Err(e) => Err(e),
        Ok(Some((idx, b))) => {
            if b == 69 || b == 101 {
                exponential_part(input, idx)
            } else if b == 46 {
                fractional_part(input, idx)
            } else if is_identifier_byte(b) {
                Err(Error::BadNumber(None))
            } else {
                Ok((Some((TokenKind::Literal, idx)), idx))
            }
        },
        Ok(None) => Ok((Some((TokenKind::Literal, n)), n)),
    }
}

/// Scans a hexadecimal integer after its two prefix bytes; see `spec_hex`.
fn hex_integer(input: &[u8]) -> (r: Result<(Option<RawToken>, usize), Error>)
    requires
        input@.len() >= 2,
    ensures
        matches_scanned(r, spec_hex(input@)),
{
    let n = input.len();
    match find_end_of_number(input, 2, true) {
        Err(e) => Err(e),
        Ok(Some((idx, b))) => {
            if is_identifier_byte(b) || idx == 2 {
                Err(Error::MalformatedHexNumber(None))
            } else {
                Ok((Some((TokenKind::Literal, idx)), idx))
            }
        },
        Ok(None) => {
            if n == 2 {
                Err(Error::MalformatedHexNumber(None))
            } else {
                Ok((Some((TokenKind::Literal, n)), n))
            }
        },
    }
}

/// Scans a fractional part that starts just past `position`; see
/// `spec_fractional`.
fn fractional_part(input: &[u8], position: usize) -> (r: Result<(Option<RawToken>, usize), Error>)
    requires
        position < input@.len(),
    ensures
        matches_scanned(r, spec_fractional(input@, position as int)),
{
    let n = input.len();
    match find_end_of_number(input, position + 1, false) {
        Err(e) => Err(e),
        Ok(Some((idx, b))) => {
            if b == 69 || b == 101 {
                exponential_part(input, idx)
            } else if is_identifier_byte(b) {
                Err(Error::BadNumber(None))
            } else {
                Ok((Some((TokenKind::Literal, idx)), idx))
            }
        },
        Ok(None) => Ok((Some((TokenKind::Literal, n)), n)),
    }
}

/// Scans an exponent part whose marker stands at `position`; see
/// `spec_exponential`.
fn exponential_part(input: &[u8], position: usize) -> (r: Result<(Option<RawToken>, usize), Error>)
    requires
        position < input@.len(),
    ensures
        matches_scanned(r, spec_exponential(input@, position as int)),
{
    let n = input.len();
    if position + 1 < n {
        let b = input[position + 1];
        let start = if b == 43 || b == 45 {
            position + 1
        } else {
            position
        };
        match find_end_of_number(input, start + 1, false) {
            Err(e) => Err(e),
            Ok(Some((idx, b2))) => {
                if is_identifier_byte(b2) || idx == start + 1 {
                    Err(Error::BadNumber(None))
                } else {
                    Ok((Some((TokenKind::Literal, idx)), idx))
                }
            },
            Ok(None) => {
                if n == start + 1 {
                    Err(Error::BadNumber(None))
                } else {
                    Ok((Some((TokenKind::Literal, n)), n))
                }
            },
        }
    } else {
        Err(Error::BadNumber(None))
    }
}

/// Scans a string literal from its opening quote; see `spec_string`.
fn string(input: &[u8]) -> (r: Result<(Option<RawToken>, usize), Error>)
    requires
        input@.len() > 0,
    ensures
        matches_scanned(r, spec_string(input@)),
{
    let n = input.len();
    let mut idx: usize = 1;
    let mut prev_quote = false;
    while idx < n
        invariant
            n == input@.len(),
            1 <= idx <= input@.len(),
            string_end(input@, 1, false) == string_end(input@, idx as int, prev_quote),
        decreases input@.len() - idx,
    {
        let current = input[idx];
        if prev_quote && current == 34 {
            prev_quote = false;
            idx = idx + 1;
        } else if prev_quote {
            return Ok((Some((TokenKind::Literal, idx)), idx));
        } else {
            prev_quote = current == 34;
            idx = idx + 1;
        }
    }
    if prev_quote {
        Ok((Some((TokenKind::Literal, n)), n))
    } else {
        Err(Error::UnterminatedStringLiteral(None))
    }
}

/// Scans an identifier from its first byte; its span ends at the first byte
/// past index 0 that cannot continue an identifier.
fn identifier(input: &[u8]) -> (r: (Option<RawToken>, usize))
    requires
        input@.len() > 0,
    ensures
        1 <= ident_end(input@, 1) <= input@.len(),
        r == (Some((TokenKind::Identifier, ident_end(input@, 1) as usize)), ident_end(
            input@,
            1,
        ) as usize),
{
    let n = input.len();
    let mut idx: usize = 1;
    while idx < n
        invariant
            n == input@.len(),
            1 <= idx <= input@.len(),
            ident_end(input@, 1) == ident_end(input@, idx as int),
        decreases input@.len() - idx,
    {
        if is_identifier_byte(input[idx]) {
            idx = idx + 1;
        } else {
            return (Some((TokenKind::Identifier, idx)), idx);
        }
    }
    (Some((TokenKind::Identifier, n)), n)
}

/// Reports whether the window's opening word is exactly `OR`, `AND` or
/// `NOT`.
fn is_keyword(input: &[u8]) -> (r: bool)
    requires
        input@.len() > 0,
    ensures
        r == keyword_word(input@),
{
    let (_, n) = identifier(input);
    if n == 2 && input[0] == 79 && input[1] == 82 {
        true
    } else if n == 3 && input[0] == 65 && input[1] == 78 && input[2] == 68 {
        true
    } else if n == 3 && input[0] == 78 && input[1] == 79 && input[2] == 84 {
        true
    } else {
        false
    }
}

/// Maps a keyword prefix to its kind; see `spec_keyword`.
fn keyword(input: &[u8]) -> (r: Result<(Option<RawToken>, usize), Error>)
    ensures
        matches_scanned(r, spec_keyword(input@)),
{
    if input.len() >= 2 && input[0] == 79 && input[1] == 82 {
        return Ok((Some((TokenKind::Or, 2)), 2));
    }
    if input.len() >= 3 {
        if input[0] == 65 && input[1] == 78 && input[2] == 68 {
            return Ok((Some((TokenKind::And, 3)), 3));
        }
        if input[0] == 78 && input[1] == 79 && input[2] == 84 {
            return Ok((Some((TokenKind::Not, 3)), 3));
        }
    }
    Err(Error::UnrecognizedToken(None))
}

/// Reports whether the window's opening word is exactly `true` or `false`.
fn is_boolean(input: &[u8]) -> (r: bool)
    requires
        input@.len() > 0,
    ensures
        r == boolean_word(input@),
{
    let (_, n) = identifier(input);
    if n == 4 && input[0] == 116 && input[1] == 114 && input[2] == 117 && input[3] == 101 {
        true
    } else if n == 5 && input[0] == 102 && input[1] == 97 && input[2] == 108 && input[3] == 115
        && input[4] == 101 {
        true
    } else {
        false
    }
}

/// Maps a boolean literal prefix to its kind; see `spec_boolean`.
fn boolean(input: &[u8]) -> (r: Result<(Option<RawToken>, usize), Error>)
    ensures
        matches_scanned(r, spec_boolean(input@)),
{
    if input.len() >= 4 && input[0] == 116 && input[1] == 114 && input[2] == 117 && input[3]
        == 101 {
        return Ok((Some((TokenKind::True, 4)), 4));
    }
    if input.len() >= 5 && input[0] == 102 && input[1] == 97 && input[2] == 108 && input[3] == 115
        && input[4] == 101 {
        return Ok((Some((TokenKind::False, 5)), 5));
    }
    Err(Error::UnrecognizedToken(None))
}

/// Reports whether the window's opening word is exactly `null`.
fn is_null(input: &[u8]) -> (r: bool)
    requires
        input@.len() > 0,
    ensures
        r == null_word(input@),
{
    let (_, n) = identifier(input);
    n == 4 && input[0] == 110 && input[1] == 117 && input[2] == 108 && input[3] == 108
}

/// Maps the `null` literal prefix to its kind; see `spec_null`.
fn null(input: &[u8]) -> (r: Result<(Option<RawToken>, usize), Error>)
    ensures
        matches_scanned(r, spec_null(input@)),
{
    if input.len() >= 4 && input[0] == 110 && input[1] == 117 && input[2] == 108 && input[3]
        == 108 {
        return Ok((Some((TokenKind::Null, 4)), 4));
    }
    Err(Error::UnrecognizedToken(None))
}

/// A boundary reported by `run_end` lies between the run's start and the
/// window's end.
pub proof fn lemma_run_end_bounds(s: Seq<u8>, i: int, hex: bool)
    requires
        0 <= i,
    ensures
        run_end(s, i, hex) matches RunEnd::Boundary(j) ==> i <= j < s.len(),
    decreases s.len() - i,
{
    if i < s.len() {
        if digit_ok(s[i], hex) {
            lemma_run_end_bounds(s, i + 1, hex);
        } else if s[i] == underscore_byte() {
            if i >= 1 && digit_ok(s[i - 1], hex) && i + 1 < s.len() && digit_ok(s[i + 1], hex) {
                lemma_run_end_bounds(s, i + 1, hex);
            }
        }
    }
}

/// An identifier's end lies between its start and the window's end.
pub proof fn lemma_ident_end_bounds(s: Seq<u8>, i: int)
    requires
        0 <= i <= s.len(),
    ensures
        i <= ident_end(s, i) <= s.len(),
    decreases s.len() - i,
{
    if i < s.len() && is_ident_byte(s[i]) {
        lemma_ident_end_bounds(s, i + 1);
    }
}

/// A string literal's end lies between the scan's start and the window's end.
pub proof fn lemma_string_end_bounds(s: Seq<u8>, i: int, prev_quote: bool)
    requires
        0 <= i <= s.len(),
    ensures
        string_end(s, i, prev_quote) matches Some(j) ==> i <= j <= s.len(),
    decreases s.len() - i,
{
    if i < s.len() {
        if prev_quote && s[i] == quote_byte() {
            lemma_string_end_bounds(s, i + 1, false);
        } else if !prev_quote {
            lemma_string_end_bounds(s, i + 1, s[i] == quote_byte());
        }
    }
}

/// An exponent part's token, where one is recognized, spans at least one
/// byte and at most the window.
pub proof fn lemma_exponential_bounds(s: Seq<u8>, p: int)
    requires
        0 <= p < s.len(),
    ensures
        spec_exponential(s, p) matches Scanned::Tok(_, n) ==> 1 <= n <= s.len(),
{
    if p + 1 < s.len() {
        let q: int = if s[p + 1] == 43 || s[p + 1] == 45 {
            p + 1
        } else {
            p
        };
        lemma_run_end_bounds(s, q + 1, false);
    }
}

/// A fractional part's token, where one is recognized, spans at least one
/// byte and at most the window.
pub proof fn lemma_fractional_bounds(s: Seq<u8>, p: int)
    requires
        0 <= p < s.len(),
    ensures
        spec_fractional(s, p) matches Scanned::Tok(_, n) ==> 1 <= n <= s.len(),
{
    lemma_run_end_bounds(s, p + 1, false);
    match run_end(s, p + 1, false) {
        RunEnd::Boundary(i) => {
            if s[i] == 69 || s[i] == 101 {
                lemma_exponential_bounds(s, i);
            }
        },
        _ => {},
    }
}

/// A numeric literal's token, where one is recognized, spans at least one
/// byte and at most the window.
pub proof fn lemma_number_bounds(s: Seq<u8>)
    requires
        s.len() > 0,
    ensures
        spec_number(s) matches Scanned::Tok(_, n) ==> 1 <= n <= s.len(),
{
    if s[0] == 48 && s.len() >= 2 && (s[1] == 88 || s[1] == 120) {
        lemma_run_end_bounds(s, 2, true);
    } else if !(s[0] == 48 && s.len() == 1) {
        lemma_run_end_bounds(s, 1, false);
        match run_end(s, 1, false) {
            RunEnd::Boundary(i) => {
                if s[i] == 69 || s[i] == 101 {
                    lemma_exponential_bounds(s, i);
                } else if s[i] == 46 {
                    lemma_fractional_bounds(s, i);
                }
            },
            _ => {},
        }
    }
}

/// Every recognized token spans at least one byte and at most the window;
/// every skip is of exactly one byte.
pub proof fn lemma_tokenize_bounds(s: Seq<u8>)
    requires
        s.len() > 0,
    ensures
        spec_tokenize(s) matches Scanned::Tok(_, n) ==> 1 <= n <= s.len(),
        spec_tokenize(s) matches Scanned::Skip(n) ==> n == 1,
{
    let b = s[0];
    if b == 45 || b == 46 {
        if s.len() >= 2 && is_digit_byte(s[1]) {
            if b == 45 {
                lemma_number_bounds(s);
            } else {
                lemma_fractional_bounds(s, 0);
            }
        }
    } else if b == 34 {
        lemma_string_end_bounds(s, 1, false);
    } else if is_digit_byte(b) {
        lemma_number_bounds(s);
    } else {
        lemma_ident_end_bounds(s, 1);
    }
}

} // verus!
