use vstd::prelude::*;
use vstd::arithmetic::div_mod::lemma_fundamental_div_mod;
use crate::decode::{
    all_digits, canon_number, collapse_quotes, decimal_repr, decoded_as, digits_value,
    lemma_decimal_repr, lossy_of, strip_separators, unescaped,
};
use crate::scanner::{advance, spec_scan, ScanStep};
use crate::token::{TokenKind, TokenValue};
use crate::tokenizer::{is_space_byte, spec_string, spec_tokenize, string_end, Scanned};

verus! {

/// A scan of whitespace-only input skips every byte and reports the end:
/// with the lexer's contract, the first pull on such input yields the
/// end-of-input token and no prior token.
pub proof fn lemma_whitespace_only_scans_to_end(s: Seq<u8>, off: int)
    requires
        0 <= off,
        forall|i: int| 0 <= i < s.len() ==> is_space_byte(#[trigger] s[i]),
    ensures
        spec_scan(s, off) == ScanStep::End,
    decreases s.len() - off,
{
    if off < s.len() {
        let w = s.subrange(off, s.len() as int);
        assert(w[0] == s[off]);
        assert(spec_tokenize(w) == Scanned::Skip(1int));
        lemma_whitespace_only_scans_to_end(s, off + 1);
    }
}

/// No recognized token carries the end-of-input or the sentinel kind: those
/// are the lexer's alone, so a stream never holds one before its end.
pub proof fn lemma_tokenize_kinds(s: Seq<u8>)
    requires
        s.len() > 0,
    ensures
        spec_tokenize(s) matches Scanned::Tok(k, _) ==> k != TokenKind::EndOfInput && k
            != TokenKind::Undefined,
{
}

/// Decoding round-trips every decimal integer literal exactly: the spelling
/// of a value that fits a 64-bit signed integer, with an optional minus
/// sign, decodes to that signed value.
pub proof fn lemma_integer_round_trip(n: nat, negative: bool, v: TokenValue)
    requires
        negative ==> n <= 0x8000000000000000,
        !negative ==> n <= 0x7fffffffffffffff,
        decoded_as(
            if negative {
                seq![45u8] + decimal_repr(n)
            } else {
                decimal_repr(n)
            },
            v,
        ),
    ensures
        v matches TokenValue::Integer(k) && k as int == (if negative {
            -(n as int)
        } else {
            n as int
        }),
{
    lemma_decimal_repr(n);
    let w = if negative {
        seq![45u8] + decimal_repr(n)
    } else {
        decimal_repr(n)
    };
    if negative {
        assert(w.subrange(1, w.len() as int) =~= decimal_repr(n));
    }
}

/// The hexadecimal spelling of `n`: most significant digit first, lower-case
/// letter digits.
pub open spec fn hex_repr(n: nat) -> Seq<u8>
    decreases n,
{
    if n < 16 {
        seq![hex_digit_byte(n)]
    } else {
        hex_repr(n / 16).push(hex_digit_byte(n % 16))
    }
}

/// The byte spelling one hexadecimal digit.
pub open spec fn hex_digit_byte(d: nat) -> u8 {
    if d < 10 {
        (48 + d) as u8
    } else {
        (87 + d) as u8
    }
}

/// The hexadecimal spelling is made of digit bytes and reads back as `n`.
pub proof fn lemma_hex_repr(n: nat)
    ensures
        hex_repr(n).len() > 0,
        strip_separators(hex_repr(n)) == hex_repr(n),
        all_digits(hex_repr(n), true),
        digits_value(hex_repr(n), true) == n,
    decreases n,
{
    if n < 16 {
        reveal_with_fuel(strip_separators, 2);
        reveal_with_fuel(digits_value, 2);
        assert(hex_repr(n).drop_last() =~= Seq::<u8>::empty());
        assert(hex_repr(n).last() == hex_digit_byte(n));
        assert(strip_separators(hex_repr(n)) =~= hex_repr(n));
    } else {
        lemma_hex_repr(n / 16);
        lemma_fundamental_div_mod(n as int, 16);
        assert(hex_repr(n).drop_last() =~= hex_repr(n / 16));
        assert(strip_separators(hex_repr(n)) =~= hex_repr(n));
    }
}

/// Decoding round-trips every hexadecimal integer literal exactly: a `0x`
/// prefix and the spelling of a value that fits a 64-bit signed integer
/// decode to that value.
pub proof fn lemma_hex_round_trip(n: nat, v: TokenValue)
    requires
        n <= 0x7fffffffffffffff,
        decoded_as(seq![48u8, 120u8] + hex_repr(n), v),
    ensures
        v matches TokenValue::Integer(k) && k as int == n,
{
    lemma_hex_repr(n);
    let w = seq![48u8, 120u8] + hex_repr(n);
    assert(w.subrange(2, w.len() as int) =~= hex_repr(n));
}


/// Two numeric spans with the same canonical text decode to the same
/// floating-point payload: the case of the exponent marker and the placing
/// of digit-group separators never show in the decoded value.
pub proof fn lemma_float_decode_canonical(a: Seq<u8>, b: Seq<u8>, va: TokenValue, vb: TokenValue)
    requires
        a.len() > 0,
        b.len() > 0,
        decoded_as(a, va),
        decoded_as(b, vb),
        va is Float,
        vb is Float,
        canon_number(a) == canon_number(b),
    ensures
        va matches TokenValue::Float(x) && vb matches TokenValue::Float(y) && x@ == y@,
{
}

/// The content of a string literal as it is spelled inside the delimiters:
/// each quote byte doubled.
pub open spec fn double_quotes(c: Seq<u8>) -> Seq<u8>
    decreases c.len(),
{
    if c.len() == 0 {
        Seq::empty()
    } else if c[0] == 34 {
        seq![34u8, 34u8] + double_quotes(c.subrange(1, c.len() as int))
    } else {
        seq![c[0]] + double_quotes(c.subrange(1, c.len() as int))
    }
}

/// Collapsing undoes doubling: the decoded content of a string literal is
/// exactly the text that was spelled, quote for quote.
pub proof fn lemma_collapse_undoes_doubling(c: Seq<u8>)
    ensures
        collapse_quotes(double_quotes(c)) == c,
    decreases c.len(),
{
    if c.len() > 0 {
        let rest = c.subrange(1, c.len() as int);
        lemma_collapse_undoes_doubling(rest);
        if c[0] == 34 {
            assert(double_quotes(c).subrange(2, double_quotes(c).len() as int) =~= double_quotes(
                rest,
            ));
            assert(seq![34u8] + collapse_quotes(double_quotes(rest)) =~= c);
        } else {
            assert(double_quotes(c).subrange(1, double_quotes(c).len() as int) =~= double_quotes(
                rest,
            ));
            assert(seq![c[0]] + collapse_quotes(double_quotes(rest)) =~= c);
        }
    }
}

/// Scanning a string literal whose remaining bytes are doubled content and a
/// closing quote runs to the very end of the window.
pub proof fn lemma_string_scan_complete(s: Seq<u8>, i: int, c: Seq<u8>)
    requires
        0 <= i <= s.len(),
        s.subrange(i, s.len() as int) == double_quotes(c) + seq![34u8],
    ensures
        string_end(s, i, false) == Some(s.len() as int),
    decreases c.len(),
{
    let rest = s.subrange(i, s.len() as int);
    let dq = double_quotes(c);
    if c.len() == 0 {
        assert(rest =~= seq![34u8]);
        assert(rest[0] == s[i]);
        assert(s[i] == 34);
        assert(i + 1 == s.len());
        assert(string_end(s, i + 1, true) == Some(s.len() as int));
    } else if c[0] == 34 {
        assert(dq == seq![34u8, 34u8] + double_quotes(c.subrange(1, c.len() as int)));
        assert(dq.len() >= 2);
        assert(rest.len() == dq.len() + 1);
        assert(i + 2 < s.len());
        assert(rest[0] == s[i]);
        assert(rest[1] == s[i + 1]);
        assert((dq + seq![34u8])[0] == dq[0] && (dq + seq![34u8])[1] == dq[1]);
        assert(dq[0] == 34 && dq[1] == 34);
        assert(s[i] == 34);
        assert(s[i + 1] == 34);
        assert(rest =~= seq![34u8, 34u8] + (double_quotes(c.subrange(1, c.len() as int))
            + seq![34u8]));
        assert(s.subrange(i + 2, s.len() as int) =~= rest.subrange(2, rest.len() as int));
        assert(rest.subrange(2, rest.len() as int) =~= double_quotes(
            c.subrange(1, c.len() as int),
        ) + seq![34u8]);
        lemma_string_scan_complete(s, i + 2, c.subrange(1, c.len() as int));
    } else {
        assert(dq == seq![c[0]] + double_quotes(c.subrange(1, c.len() as int)));
        assert(dq.len() >= 1);
        assert(rest.len() == dq.len() + 1);
        assert(i + 1 < s.len());
        assert(rest[0] == s[i]);
        assert((dq + seq![34u8])[0] == dq[0]);
        assert(dq[0] == c[0]);
        assert(s[i] == c[0]);
        assert(s[i] != 34);
        assert(rest =~= seq![c[0]] + (double_quotes(c.subrange(1, c.len() as int)) + seq![34u8]));
        assert(s.subrange(i + 1, s.len() as int) =~= rest.subrange(1, rest.len() as int));
        assert(rest.subrange(1, rest.len() as int) =~= double_quotes(
            c.subrange(1, c.len() as int),
        ) + seq![34u8]);
        lemma_string_scan_complete(s, i + 1, c.subrange(1, c.len() as int));
    }
}

/// String literals round-trip: for any content, the literal that doubles
/// each internal quote is recognized as one token spanning the whole window,
/// and its decoded value is the content itself — each doubled quote
/// collapsed, the delimiters excluded.
pub proof fn lemma_string_round_trip(c: Seq<u8>, v: TokenValue)
    requires
        decoded_as(seq![34u8] + double_quotes(c) + seq![34u8], v),
    ensures
        spec_tokenize(seq![34u8] + double_quotes(c) + seq![34u8]) == Scanned::Tok(
            TokenKind::Literal,
            double_quotes(c).len() + 2int,
        ),
        v matches TokenValue::String(t) && t@ == lossy_of(c),
{
    let w = seq![34u8] + double_quotes(c) + seq![34u8];
    assert(w[0] == 34);
    assert(w.subrange(1, w.len() as int) =~= double_quotes(c) + seq![34u8]);
    lemma_string_scan_complete(w, 1, c);
    assert(spec_string(w) == Scanned::Tok(TokenKind::Literal, w.len() as int));
    assert(w.subrange(1, w.len() - 1) =~= double_quotes(c));
    lemma_collapse_undoes_doubling(c);
    assert(unescaped(w) == c);
}

/// How many line-feed bytes `s` holds.
pub open spec fn count_line_feeds(s: Seq<u8>) -> int
    decreases s.len(),
{
    if s.len() == 0 {
        0
    } else {
        (if s[0] == 10 {
            1int
        } else {
            0int
        }) + count_line_feeds(s.subrange(1, s.len() as int))
    }
}

/// Position tracking: after walking `s` the line has moved down by exactly
/// the number of line feeds in `s` — so a byte with `N` line feeds before it
/// sits on line `N + 1` — and the column stands at 1 directly after each
/// line feed.
pub proof fn lemma_position_tracking(line: int, column: int, s: Seq<u8>)
    ensures
        advance(line, column, s).0 == line + count_line_feeds(s),
        s.len() > 0 && s.last() == 10 ==> advance(line, column, s).1 == 1,
    decreases s.len(),
{
    if s.len() > 0 {
        let rest = s.subrange(1, s.len() as int);
        if s.len() > 1 {
            assert(rest.last() == s.last());
        }
        if s[0] == 10 {
            lemma_position_tracking(line + 1, 1, rest);
        } else {
            lemma_position_tracking(line, column + 1, rest);
        }
    }
}


} // verus!
