use vstd::prelude::*;
use vstd::arithmetic::div_mod::lemma_fundamental_div_mod;
use vstd::string::StringExecFns;
use crate::token::TokenValue;

verus! {

// Byte values the decoder dispatches on.
pub open spec fn quote_byte() -> u8 {
    34
}

pub open spec fn underscore_byte() -> u8 {
    95
}

/// A decimal digit byte, `0` through `9`.
pub open spec fn is_digit_byte(b: u8) -> bool {
    48 <= b && b <= 57
}

/// A hexadecimal digit byte, `0`-`9`, `A`-`F` or `a`-`f`.
pub open spec fn is_hex_digit_byte(b: u8) -> bool {
    is_digit_byte(b) || (65 <= b && b <= 70) || (97 <= b && b <= 102)
}

/// The numeric value of a digit byte (decimal or hexadecimal).
pub open spec fn digit_value(b: u8) -> nat {
    if 48 <= b && b <= 57 {
        (b - 48) as nat
    } else if 65 <= b && b <= 70 {
        (b - 55) as nat
    } else if 97 <= b && b <= 102 {
        (b - 87) as nat
    } else {
        0
    }
}

/// Every byte of `s` is a digit of the chosen base.
pub open spec fn all_digits(s: Seq<u8>, hex: bool) -> bool {
    forall|i: int| 0 <= i < s.len() ==> #[trigger] digit_ok(s[i], hex)
}

/// Whether a byte is a digit of the chosen base.
pub open spec fn digit_ok(b: u8, hex: bool) -> bool {
    if hex {
        is_hex_digit_byte(b)
    } else {
        is_digit_byte(b)
    }
}

/// The value of a most-significant-first digit string in the chosen base.
pub open spec fn digits_value(s: Seq<u8>, hex: bool) -> nat
    decreases s.len(),
{
    if s.len() == 0 {
        0
    } else {
        digits_value(s.drop_last(), hex) * (if hex {
            16nat
        } else {
            10nat
        }) + digit_value(s.last())
    }
}

/// `s` with every underscore digit-group separator removed.
pub open spec fn strip_separators(s: Seq<u8>) -> Seq<u8>
    decreases s.len(),
{
    if s.len() == 0 {
        Seq::empty()
    } else if s.last() == underscore_byte() {
        strip_separators(s.drop_last())
    } else {
        strip_separators(s.drop_last()).push(s.last())
    }
}

/// `s` with every upper-case exponent marker `E` lowered to `e`.
pub open spec fn lower_exponent(s: Seq<u8>) -> Seq<u8>
    decreases s.len(),
{
    if s.len() == 0 {
        Seq::empty()
    } else if s.last() == 69 {
        lower_exponent(s.drop_last()).push(101)
    } else {
        lower_exponent(s.drop_last()).push(s.last())
    }
}

/// The canonical text of a numeric literal: separators stripped and the
/// exponent marker lowered. Two spellings of one number canonicalise alike.
pub open spec fn canon_number(s: Seq<u8>) -> Seq<u8> {
    lower_exponent(strip_separators(s))
}

/// The content bytes of a quoted span: the surrounding quotes dropped and
/// each doubled internal quote collapsed to a single quote.
pub open spec fn unescaped(w: Seq<u8>) -> Seq<u8> {
    if w.len() >= 2 {
        collapse_quotes(w.subrange(1, w.len() - 1))
    } else {
        Seq::empty()
    }
}

/// Each doubled quote of `s` collapsed to a single quote byte.
pub open spec fn collapse_quotes(s: Seq<u8>) -> Seq<u8>
    decreases s.len(),
{
    if s.len() == 0 {
        Seq::empty()
    } else if s.len() >= 2 && s[0] == quote_byte() && s[1] == quote_byte() {
        seq![quote_byte()] + collapse_quotes(s.subrange(2, s.len() as int))
    } else {
        seq![s[0]] + collapse_quotes(s.subrange(1, s.len() as int))
    }
}

/// The first index at or past `i` whose byte is not a decimal digit.
pub open spec fn skip_digits(s: Seq<u8>, i: int) -> int
    decreases s.len() - i
        when 0 <= i

{
    if i >= s.len() || !is_digit_byte(s[i]) {
        i
    } else {
        skip_digits(s, i + 1)
    }
}

/// An exponent tail: an optional sign, then at least one digit, to the end.
pub open spec fn exponent_tail_ok(s: Seq<u8>, i: int) -> bool {
    let j = if i < s.len() && (s[i] == 43 || s[i] == 45) {
        i + 1
    } else {
        i
    };
    let k = skip_digits(s, j);
    k > j && k == s.len()
}

/// Whether `s` spells a floating-point number in the grammar that
/// `str::parse` of a 32-bit float documents, after canonicalisation:
/// an optional sign, then either digits with an optional fraction or a
/// bare fraction, then an optional `e` exponent with its own optional sign.
pub open spec fn is_float_text(s: Seq<u8>) -> bool {
    let i0: int = if s.len() > 0 && (s[0] == 43 || s[0] == 45) {
        1
    } else {
        0
    };
    let i1 = skip_digits(s, i0);
    if i1 > i0 {
        // digits, then an optional `.` with optional further digits
        let i2 = if i1 < s.len() && s[i1] == 46 {
            skip_digits(s, i1 + 1)
        } else {
            i1
        };
        i2 == s.len() || (s[i2] == 101 && exponent_tail_ok(s, i2 + 1))
    } else {
        // no leading digits: a `.` with at least one digit
        if i0 < s.len() && s[i0] == 46 {
            let i2 = skip_digits(s, i0 + 1);
            i2 > i0 + 1 && (i2 == s.len() || (s[i2] == 101 && exponent_tail_ok(s, i2 + 1)))
        } else {
            false
        }
    }
}

/// Whether a signed decimal magnitude fits a 64-bit signed integer.
pub open spec fn fits_i64(negative: bool, magnitude: nat) -> bool {
    if negative {
        magnitude <= 0x8000000000000000
    } else {
        magnitude <= 0x7fffffffffffffff
    }
}

/// The signed value of a magnitude.
pub open spec fn signed_value(negative: bool, magnitude: nat) -> int {
    if negative {
        -(magnitude as int)
    } else {
        magnitude as int
    }
}

/// What the payload of a `Literal` token is for a given span, as the
/// scanner decodes it:
/// - a span opening with a quote decodes to its unescaped string content;
/// - a span with a `0x`/`0X` prefix decodes to the base-16 integer of its
///   remaining digits (separators removed) when that fits a 64-bit signed
///   integer, and to its raw text otherwise;
/// - any other span decodes to its decimal integer value when its bytes
///   (after an optional minus sign, separators removed) are all digits and
///   the value fits, else to its canonical text when that spells a float,
///   else to its raw text.
pub open spec fn decoded_as(w: Seq<u8>, v: TokenValue) -> bool
    recommends
        w.len() > 0,
{
    if w[0] == quote_byte() {
        v matches TokenValue::String(t) && t@ == lossy_of(unescaped(w))
    } else if w.len() >= 2 && w[0] == 48 && (w[1] == 88 || w[1] == 120) {
        let d = strip_separators(w.subrange(2, w.len() as int));
        if d.len() > 0 && all_digits(d, true) && digits_value(d, true) <= 0x7fffffffffffffff {
            v matches TokenValue::Integer(n) && n == digits_value(d, true)
        } else {
            v matches TokenValue::String(t) && t@ == lossy_of(w)
        }
    } else {
        let negative = w[0] == 45;
        let body = if negative {
            w.subrange(1, w.len() as int)
        } else {
            w
        };
        let d = strip_separators(body);
        if d.len() > 0 && all_digits(d, false) && fits_i64(negative, digits_value(d, false)) {
            v matches TokenValue::Integer(n) && n == signed_value(negative, digits_value(d, false))
        } else if is_float_text(canon_number(w)) {
            v matches TokenValue::Float(t) && t@ == lossy_of(canon_number(w))
        } else {
            v matches TokenValue::String(t) && t@ == lossy_of(w)
        }
    }
}

/// The characters that `String::from_utf8_lossy` decodes from the given bytes.
pub uninterp spec fn lossy_of(s: Seq<u8>) -> Seq<char>;

/// Relies on String::from_utf8_lossy: the decoded text depends on the bytes
/// alone, and bytes that are all ASCII decode to the characters of the same
/// codes.
#[verifier::external_body]
pub(crate) fn lossy_decode(bytes: &[u8]) -> (r: String)
    ensures
        r@ == lossy_of(bytes@),
        (forall|i: int| 0 <= i < bytes@.len() ==> bytes@[i] < 128) ==> r@ == Seq::new(
            bytes@.len(),
            |i: int| bytes@[i] as char,
        ),
{
    String::from_utf8_lossy(bytes).into_owned()
}


/// Removing separators distributes over concatenation.
pub proof fn lemma_strip_separators_concat(a: Seq<u8>, b: Seq<u8>)
    ensures
        strip_separators(a + b) == strip_separators(a) + strip_separators(b),
    decreases b.len(),
{
    if b.len() == 0 {
        assert(a + b =~= a);
        assert(strip_separators(a) + strip_separators(b) =~= strip_separators(a));
    } else {
        assert((a + b).drop_last() =~= a + b.drop_last());
        lemma_strip_separators_concat(a, b.drop_last());
        if b.last() == underscore_byte() {
        } else {
            assert(strip_separators(a) + strip_separators(b.drop_last()).push(b.last())
                =~= (strip_separators(a) + strip_separators(b.drop_last())).push(b.last()));
        }
    }
}

/// Appending digits never shrinks a digit string's value.
pub proof fn lemma_digits_value_extend(d: Seq<u8>, e: Seq<u8>, hex: bool)
    ensures
        digits_value(d + e, hex) >= digits_value(d, hex),
    decreases e.len(),
{
    if e.len() == 0 {
        assert(d + e =~= d);
    } else {
        assert((d + e).drop_last() =~= d + e.drop_last());
        lemma_digits_value_extend(d, e.drop_last(), hex);
    }
}

/// Reports the numeric value of a digit byte in the chosen base, or `None`
/// for a byte that is no digit of that base.
fn try_digit(b: u8, hex: bool) -> (r: Option<u8>)
    ensures
        match r {
            Some(v) => digit_ok(b, hex) && v == digit_value(b),
            None => !digit_ok(b, hex),
        },
{
    if 48 <= b && b <= 57 {
        Some(b - 48)
    } else if hex && 65 <= b && b <= 70 {
        Some(b - 55)
    } else if hex && 97 <= b && b <= 102 {
        Some(b - 87)
    } else {
        None
    }
}

/// Reads the digits of `word` from index `from` to the end, skipping
/// underscore separators, as a magnitude in the chosen base. Returns the
/// value exactly when the remaining bytes hold at least one digit, nothing
/// but digits and separators, and a value of at most `max`.
fn digits_magnitude(word: &[u8], from: usize, hex: bool, max: u64) -> (r: Option<u64>)
    requires
        from as int <= word@.len(),
    ensures
        ({
            let d = strip_separators(word@.subrange(from as int, word@.len() as int));
            match r {
                Some(v) => d.len() > 0 && all_digits(d, hex) && digits_value(d, hex) <= max && v
                    == digits_value(d, hex),
                None => !(d.len() > 0 && all_digits(d, hex) && digits_value(d, hex) <= max),
            }
        }),
{
    let n = word.len();
    let base: u64 = if hex {
        16
    } else {
        10
    };
    let ghost whole = word@.subrange(from as int, n as int);
    let mut i = from;
    let mut acc: u64 = 0;
    let mut seen = false;
    while i < n
        invariant
            from <= i <= n,
            n == word@.len(),
            whole == word@.subrange(from as int, n as int),
            base == (if hex { 16int } else { 10int }),
            acc <= max,
            all_digits(strip_separators(word@.subrange(from as int, i as int)), hex),
            acc == digits_value(strip_separators(word@.subrange(from as int, i as int)), hex),
            seen == (strip_separators(word@.subrange(from as int, i as int)).len() > 0),
        decreases n - i,
    {
        let ghost prefix = strip_separators(word@.subrange(from as int, i as int));
        let b = word[i];
        proof {
            assert(word@.subrange(from as int, i as int + 1).drop_last() =~= word@.subrange(
                from as int,
                i as int,
            ));
            assert(whole =~= word@.subrange(from as int, i as int + 1) + word@.subrange(
                i as int + 1,
                n as int,
            ));
            lemma_strip_separators_concat(
                word@.subrange(from as int, i as int + 1),
                word@.subrange(i as int + 1, n as int),
            );
        }
        if b == 95 {
            i = i + 1;
        } else {
            match try_digit(b, hex) {
                Some(dv) => {
                    proof {
                        assert(strip_separators(word@.subrange(from as int, i as int + 1))
                            =~= prefix.push(b));
                        assert(prefix.push(b).drop_last() =~= prefix);
                    }
                    let mut next: u64 = 0;
                    let mut overflowed = false;
                    match acc.checked_mul(base) {
                        Some(m) => {
                            match m.checked_add(dv as u64) {
                                Some(x) => next = x,
                                None => overflowed = true,
                            }
                        },
                        None => overflowed = true,
                    }
                    if overflowed || next > max {
                        proof {
                            lemma_digits_value_extend(
                                prefix.push(b),
                                strip_separators(word@.subrange(i as int + 1, n as int)),
                                hex,
                            );
                        }
                        return None;
                    }
                    acc = next;
                    seen = true;
                    i = i + 1;
                },
                None => {
                    proof {
                        assert(strip_separators(word@.subrange(from as int, i as int + 1))
                            =~= prefix.push(b));
                        assert(strip_separators(whole)[prefix.len() as int] == b);
                    }
                    return None;
                },
            }
        }
    }
    proof {
        assert(word@.subrange(from as int, i as int) =~= whole);
    }
    if seen {
        Some(acc)
    } else {
        None
    }
}


/// Reads a hexadecimal literal `0x…`/`0X…` as a 64-bit signed integer:
/// the value of its digits (separators removed) when they are non-empty,
/// all hexadecimal, and the value fits; `None` otherwise.
fn parse_hex_literal(word: &[u8]) -> (r: Option<i64>)
    requires
        word@.len() >= 2,
    ensures
        ({
            let d = strip_separators(word@.subrange(2, word@.len() as int));
            match r {
                Some(v) => d.len() > 0 && all_digits(d, true) && digits_value(d, true)
                    <= 0x7fffffffffffffff && v == digits_value(d, true),
                None => !(d.len() > 0 && all_digits(d, true) && digits_value(d, true)
                    <= 0x7fffffffffffffff),
            }
        }),
{
    match digits_magnitude(word, 2, true, 0x7fffffffffffffff) {
        Some(v) => Some(v as i64),
        None => None,
    }
}

/// Reads a decimal literal with an optional leading minus sign as a 64-bit
/// signed integer: the signed value of its digits (separators removed) when
/// they are non-empty, all decimal, and the value fits; `None` otherwise.
fn parse_decimal_literal(word: &[u8]) -> (r: Option<i64>)
    requires
        word@.len() > 0,
    ensures
        ({
            let negative = word@[0] == 45;
            let body = if negative {
                word@.subrange(1, word@.len() as int)
            } else {
                word@
            };
            let d = strip_separators(body);
            match r {
                Some(v) => d.len() > 0 && all_digits(d, false) && fits_i64(
                    negative,
                    digits_value(d, false),
                ) && v == signed_value(negative, digits_value(d, false)),
                None => !(d.len() > 0 && all_digits(d, false) && fits_i64(
                    negative,
                    digits_value(d, false),
                )),
            }
        }),
{
    let negative = word[0] == 45;
    let from: usize = if negative {
        1
    } else {
        0
    };
    let max: u64 = if negative {
        0x8000000000000000
    } else {
        0x7fffffffffffffff
    };
    proof {
        if negative {
            assert(word@.subrange(1, word@.len() as int) =~= word@.subrange(
                from as int,
                word@.len() as int,
            ));
        } else {
            assert(word@ =~= word@.subrange(from as int, word@.len() as int));
        }
    }
    match digits_magnitude(word, from, false, max) {
        Some(v) => {
            if negative {
                if v == 0x8000000000000000 {
                    Some(i64::MIN)
                } else {
                    Some(-(v as i64))
                }
            } else {
                Some(v as i64)
            }
        },
        None => None,
    }
}

/// Builds the canonical text of a numeric literal: underscore separators
/// removed and each `E` lowered to `e`.
fn canonicalize_number(word: &[u8]) -> (r: Vec<u8>)
    ensures
        r@ == canon_number(word@),
{
    let n = word.len();
    let mut out: Vec<u8> = Vec::new();
    let mut i: usize = 0;
    while i < n
        invariant
            i <= n,
            n == word@.len(),
            out@ == canon_number(word@.subrange(0, i as int)),
        decreases n - i,
    {
        let b = word[i];
        proof {
            assert(word@.subrange(0, i as int + 1).drop_last() =~= word@.subrange(0, i as int));
            let p = strip_separators(word@.subrange(0, i as int));
            if b != 95 {
                assert(strip_separators(word@.subrange(0, i as int + 1)) =~= p.push(b));
                assert(p.push(b).drop_last() =~= p);
            }
        }
        if b == 95 {
        } else if b == 69 {
            out.push(101);
        } else {
            out.push(b);
        }
        i = i + 1;
    }
    proof {
        assert(word@.subrange(0, n as int) =~= word@);
    }
    out
}

/// Walks past decimal digits from index `i` and returns the first index
/// holding none.
fn walk_digits(s: &[u8], i: usize) -> (r: usize)
    requires
        i as int <= s@.len(),
    ensures
        r as int == skip_digits(s@, i as int),
        i <= r <= s@.len(),
{
    let n = s.len();
    let mut j = i;
    while j < n
        invariant
            i <= j <= n,
            n == s@.len(),
            skip_digits(s@, i as int) == skip_digits(s@, j as int),
        decreases n - j,
    {
        let b = s[j];
        if 48 <= b && b <= 57 {
            j = j + 1;
        } else {
            return j;
        }
    }
    j
}

/// Recognizes an exponent tail from index `i`: an optional sign, then at
/// least one digit, running to the end.
fn exponent_tail(s: &[u8], i: usize) -> (r: bool)
    requires
        i as int <= s@.len(),
    ensures
        r == exponent_tail_ok(s@, i as int),
{
    let n = s.len();
    let j = if i < n && (s[i] == 43 || s[i] == 45) {
        i + 1
    } else {
        i
    };
    let k = walk_digits(s, j);
    k > j && k == n
}

/// Recognizes the floating-point grammar of `is_float_text`.
fn float_text(s: &[u8]) -> (r: bool)
    ensures
        r == is_float_text(s@),
{
    let n = s.len();
    let i0: usize = if n > 0 && (s[0] == 43 || s[0] == 45) {
        1
    } else {
        0
    };
    let i1 = walk_digits(s, i0);
    if i1 > i0 {
        let i2 = if i1 < n && s[i1] == 46 {
            walk_digits(s, i1 + 1)
        } else {
            i1
        };
        if i2 == n {
            true
        } else if s[i2] == 101 {
            exponent_tail(s, i2 + 1)
        } else {
            false
        }
    } else {
        if i0 < n && s[i0] == 46 {
            let i2 = walk_digits(s, i0 + 1);
            i2 > i0 + 1 && (i2 == n || (s[i2] == 101 && exponent_tail(s, i2 + 1)))
        } else {
            false
        }
    }
}

/// Rebuilds the content of a quoted span: the surrounding quotes dropped
/// and each doubled quote collapsed to one.
fn unescape_quoted(word: &[u8]) -> (r: Vec<u8>)
    ensures
        r@ == unescaped(word@),
{
    if word.len() < 2 {
        return Vec::new();
    }
    let inner = vstd::slice::slice_subrange(word, 1, word.len() - 1);
    let n = inner.len();
    let mut out: Vec<u8> = Vec::new();
    let mut i: usize = 0;
    proof {
        assert(inner@.subrange(0, n as int) =~= inner@);
        assert(Seq::<u8>::empty() + collapse_quotes(inner@) =~= collapse_quotes(inner@));
    }
    while i < n
        invariant
            i <= n,
            n == inner@.len(),
            inner@ == word@.subrange(1, word@.len() - 1),
            collapse_quotes(inner@) == out@ + collapse_quotes(
                inner@.subrange(i as int, n as int),
            ),
        decreases n - i,
    {
        let ghost tail = inner@.subrange(i as int, n as int);
        if i + 1 < n && inner[i] == 34 && inner[i + 1] == 34 {
            proof {
                assert(tail.subrange(2, tail.len() as int) =~= inner@.subrange(
                    i as int + 2,
                    n as int,
                ));
                assert((out@ + seq![34u8]) + collapse_quotes(
                    inner@.subrange(i as int + 2, n as int),
                ) =~= out@ + (seq![34u8] + collapse_quotes(
                    inner@.subrange(i as int + 2, n as int),
                )));
            }
            out.push(34);
            i = i + 2;
        } else {
            proof {
                assert(tail.subrange(1, tail.len() as int) =~= inner@.subrange(
                    i as int + 1,
                    n as int,
                ));
                assert((out@ + seq![inner@[i as int]]) + collapse_quotes(
                    inner@.subrange(i as int + 1, n as int),
                ) =~= out@ + (seq![inner@[i as int]] + collapse_quotes(
                    inner@.subrange(i as int + 1, n as int),
                )));
            }
            let b = inner[i];
            out.push(b);
            i = i + 1;
        }
    }
    proof {
        assert(inner@.subrange(n as int, n as int) =~= Seq::<u8>::empty());
        assert(out@ + Seq::<u8>::empty() =~= out@);
    }
    out
}

/// Decodes the payload of a `Literal` span, as `decoded_as` relates it:
/// quoted spans to their unescaped string content; hexadecimal and decimal
/// spans to their integer value when it fits; float-shaped spans to their
/// canonical text; anything else to its raw text.
pub fn decode_literal(word: &[u8]) -> (r: TokenValue)
    requires
        word@.len() > 0,
    ensures
        decoded_as(word@, r),
{
    let n = word.len();
    if word[0] == 34 {
        let inner = unescape_quoted(word);
        TokenValue::String(lossy_decode(inner.as_slice()))
    } else if n >= 2 && word[0] == 48 && (word[1] == 88 || word[1] == 120) {
        match parse_hex_literal(word) {
            Some(v) => TokenValue::Integer(v),
            None => TokenValue::String(lossy_decode(word)),
        }
    } else {
        match parse_decimal_literal(word) {
            Some(v) => TokenValue::Integer(v),
            None => {
                let canon = canonicalize_number(word);
                if float_text(canon.as_slice()) {
                    TokenValue::Float(lossy_decode(canon.as_slice()))
                } else {
                    TokenValue::String(lossy_decode(word))
                }
            },
        }
    }
}

/// The decimal spelling of `n`: most significant digit first.
pub open spec fn decimal_repr(n: nat) -> Seq<u8>
    decreases n,
{
    if n < 10 {
        seq![(48 + n) as u8]
    } else {
        decimal_repr(n / 10).push((48 + n % 10) as u8)
    }
}

/// The decimal spelling is made of digit bytes and reads back as `n`.
pub proof fn lemma_decimal_repr(n: nat)
    ensures
        decimal_repr(n).len() > 0,
        forall|i: int| 0 <= i < decimal_repr(n).len() ==> 48 <= #[trigger] decimal_repr(n)[i]
            && decimal_repr(n)[i] <= 57,
        strip_separators(decimal_repr(n)) == decimal_repr(n),
        all_digits(decimal_repr(n), false),
        digits_value(decimal_repr(n), false) == n,
    decreases n,
{
    if n < 10 {
        reveal_with_fuel(strip_separators, 2);
        reveal_with_fuel(digits_value, 2);
        assert(decimal_repr(n).drop_last() =~= Seq::<u8>::empty());
        assert(decimal_repr(n).last() == (48 + n) as u8);
        assert(strip_separators(decimal_repr(n)) =~= decimal_repr(n));
    } else {
        lemma_decimal_repr(n / 10);
        lemma_fundamental_div_mod(n as int, 10);
        assert(decimal_repr(n).drop_last() =~= decimal_repr(n / 10));
        assert(strip_separators(decimal_repr(n)) =~= decimal_repr(n));
    }
}


/// The characters of an ASCII byte string, code for code.
pub open spec fn ascii_chars(s: Seq<u8>) -> Seq<char> {
    Seq::new(s.len(), |i: int| s[i] as char)
}

/// Builds the decimal digit bytes of `n`, most significant first.
fn u64_digits(n: u64) -> (r: Vec<u8>)
    ensures
        r@ == decimal_repr(n as nat),
    decreases n,
{
    if n < 10 {
        let mut out: Vec<u8> = Vec::new();
        out.push(48 + (n as u8));
        proof {
            assert(out@ =~= decimal_repr(n as nat));
        }
        out
    } else {
        let mut out = u64_digits(n / 10);
        out.push(48 + ((n % 10) as u8));
        out
    }
}

/// Renders `n` in decimal.
pub(crate) fn decimal_string(n: u64) -> (r: String)
    ensures
        r@ == ascii_chars(decimal_repr(n as nat)),
{
    let digits = u64_digits(n);
    proof {
        lemma_decimal_repr(n as nat);
    }
    let r = lossy_decode(digits.as_slice());
    proof {
        assert(r@ =~= ascii_chars(decimal_repr(n as nat)));
    }
    r
}


/// The characters of a signed decimal rendering.
pub open spec fn signed_decimal_chars(v: int) -> Seq<char> {
    if v < 0 {
        "-"@ + ascii_chars(decimal_repr((-v) as nat))
    } else {
        ascii_chars(decimal_repr(v as nat))
    }
}

/// Renders `v` in signed decimal.
pub(crate) fn i64_string(v: i64) -> (r: String)
    ensures
        r@ == signed_decimal_chars(v as int),
{
    if v >= 0 {
        decimal_string(v as u64)
    } else {
        let magnitude: u64 = if v == i64::MIN {
            9223372036854775808
        } else {
            (-v) as u64
        };
        let mut s = String::from_str("-");
        let digits = decimal_string(magnitude);
        s.append(digits.as_str());
        s
    }
}

} // verus!
