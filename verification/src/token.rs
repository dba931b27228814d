use vstd::prelude::*;
use vstd::std_specs::cmp::PartialEqSpec;
use vstd::string::StringExecFns;
use crate::decode::{i64_string, signed_decimal_chars};

verus! {

/// The classification of one lexical unit of the filter-query language.
#[derive(Clone, Copy, Debug, Default, PartialEq, Eq, Structural)]
pub enum TokenKind {
    /// (
    LeftParenthesis,
    /// )
    RightParenthesis,
    /// :
    Colon,
    /// ,
    Comma,
    /// .
    Dot,
    /// -
    Minus,
    /// =
    Equals,
    /// !=
    NotEquals,
    /// >
    GreaterThan,
    /// >=
    GreaterThanEquals,
    /// <
    LesserThan,
    /// <=
    LesserThanEquals,
    /// Identifier
    Identifier,
    /// Literal
    Literal,
    /// AND keyword
    And,
    /// OR keyword
    Or,
    /// NOT keyword
    Not,
    /// true
    True,
    /// false
    False,
    /// null
    Null,
    /// Synthetic end-of-input marker
    EndOfInput,
    /// Sentinel kind, never produced by a correct scan
    #[default]
    Undefined,
}

/// The decoded payload carried by Identifier and Literal tokens.
///
/// A floating-point literal is carried as its canonical text — digit-group
/// separators stripped and the exponent marker lowered — so that every
/// contract over the payload stays within integer and byte arithmetic.
/// Reading the text as a 32-bit value is the caller's concern.
#[derive(Clone, Debug)]
pub enum TokenValue {
    /// The canonical text of the decoded floating-point literal.
    Float(String),
    /// The decoded 64-bit signed integer value.
    Integer(i64),
    /// The decoded text.
    String(String),
}

impl PartialEq for TokenValue {
    fn eq(&self, other: &Self) -> (r: bool) {
        match (self, other) {
            (TokenValue::Float(a), TokenValue::Float(b)) => a.eq(b),
            (TokenValue::Integer(a), TokenValue::Integer(b)) => a == b,
            (TokenValue::String(a), TokenValue::String(b)) => a.eq(b),
            _ => false,
        }
    }
}

impl vstd::std_specs::cmp::PartialEqSpecImpl for TokenValue {
    open spec fn obeys_eq_spec() -> bool {
        true
    }

    open spec fn eq_spec(&self, other: &Self) -> bool {
        match (self, other) {
            (TokenValue::Float(a), TokenValue::Float(b)) => a@ == b@,
            (TokenValue::Integer(a), TokenValue::Integer(b)) => a == b,
            (TokenValue::String(a), TokenValue::String(b)) => a@ == b@,
            _ => false,
        }
    }
}

/// One positioned lexical unit: a kind, the 1-based position of its first
/// byte, its byte length, and an optional decoded payload.
#[derive(Clone, Debug)]
pub struct Token {
    pub kind: TokenKind,
    pub line: usize,
    pub column: usize,
    pub length: usize,
    pub value: Option<TokenValue>,
}

impl Token {
    /// Builds a token with no payload.
    pub fn new(kind: TokenKind, line: usize, column: usize, length: usize) -> (r: Self)
        ensures
            r.kind == kind,
            r.line == line,
            r.column == column,
            r.length == length,
            r.value is None,
    {
        Self { kind, line, column, length, value: None }
    }

    /// Attaches a decoded payload to the token.
    pub fn with_value(self, value: TokenValue) -> (r: Self)
        ensures
            r.kind == self.kind,
            r.line == self.line,
            r.column == self.column,
            r.length == self.length,
            r.value == Some(value),
    {
        Self { value: Some(value), ..self }
    }

    /// What token equality means: the kind and the payload agree; position
    /// and length are diagnostic, not identity.
    pub open spec fn same_token(&self, other: &Token) -> bool {
        &&& self.kind == other.kind
        &&& match (&self.value, &other.value) {
            (Some(a), Some(b)) => a.eq_spec(b),
            (None, None) => true,
            _ => false,
        }
    }
}

impl PartialEq for Token {
    fn eq(&self, other: &Self) -> (r: bool) {
        let values_eq = match (&self.value, &other.value) {
            (Some(a), Some(b)) => a.eq(b),
            (None, None) => true,
            _ => false,
        };
        self.kind == other.kind && values_eq
    }
}

impl vstd::std_specs::cmp::PartialEqSpecImpl for Token {
    open spec fn obeys_eq_spec() -> bool {
        true
    }

    open spec fn eq_spec(&self, other: &Self) -> bool {
        self.same_token(other)
    }
}


impl TokenValue {
    /// The payload's text, as diagnostics spell it.
    pub open spec fn spec_render(&self) -> Seq<char> {
        match self {
            TokenValue::Float(t) => t@,
            TokenValue::Integer(v) => signed_decimal_chars(*v as int),
            TokenValue::String(t) => t@,
        }
    }

    /// Renders the payload for diagnostics.
    pub fn render(&self) -> (r: String)
        ensures
            r@ == self.spec_render(),
    {
        match self {
            TokenValue::Float(t) => t.clone(),
            TokenValue::Integer(v) => i64_string(*v),
            TokenValue::String(t) => t.clone(),
        }
    }
}

impl TokenKind {
    /// The kind's name, as diagnostics spell it.
    pub open spec fn spec_name(&self) -> Seq<char> {
        match *self {
            TokenKind::LeftParenthesis => "LeftParenthesis"@,
            TokenKind::RightParenthesis => "RightParenthesis"@,
            TokenKind::Colon => "Colon"@,
            TokenKind::Comma => "Comma"@,
            TokenKind::Dot => "Dot"@,
            TokenKind::Minus => "Minus"@,
            TokenKind::Equals => "Equals"@,
            TokenKind::NotEquals => "NotEquals"@,
            TokenKind::GreaterThan => "GreaterThan"@,
            TokenKind::GreaterThanEquals => "GreaterThanEquals"@,
            TokenKind::LesserThan => "LesserThan"@,
            TokenKind::LesserThanEquals => "LesserThanEquals"@,
            TokenKind::Identifier => "Identifier"@,
            TokenKind::Literal => "Literal"@,
            TokenKind::And => "And"@,
            TokenKind::Or => "Or"@,
            TokenKind::Not => "Not"@,
            TokenKind::True => "True"@,
            TokenKind::False => "False"@,
            TokenKind::Null => "Null"@,
            TokenKind::EndOfInput => "EndOfInput"@,
            TokenKind::Undefined => "Undefined"@,
        }
    }

    /// Renders the kind's name for diagnostics.
    pub fn name(&self) -> (r: String)
        ensures
            r@ == self.spec_name(),
    {
        match self {
            TokenKind::LeftParenthesis => "LeftParenthesis".to_owned(),
            TokenKind::RightParenthesis => "RightParenthesis".to_owned(),
            TokenKind::Colon => "Colon".to_owned(),
            TokenKind::Comma => "Comma".to_owned(),
            TokenKind::Dot => "Dot".to_owned(),
            TokenKind::Minus => "Minus".to_owned(),
            TokenKind::Equals => "Equals".to_owned(),
            TokenKind::NotEquals => "NotEquals".to_owned(),
            TokenKind::GreaterThan => "GreaterThan".to_owned(),
            TokenKind::GreaterThanEquals => "GreaterThanEquals".to_owned(),
            TokenKind::LesserThan => "LesserThan".to_owned(),
            TokenKind::LesserThanEquals => "LesserThanEquals".to_owned(),
            TokenKind::Identifier => "Identifier".to_owned(),
            TokenKind::Literal => "Literal".to_owned(),
            TokenKind::And => "And".to_owned(),
            TokenKind::Or => "Or".to_owned(),
            TokenKind::Not => "Not".to_owned(),
            TokenKind::True => "True".to_owned(),
            TokenKind::False => "False".to_owned(),
            TokenKind::Null => "Null".to_owned(),
            TokenKind::EndOfInput => "EndOfInput".to_owned(),
            TokenKind::Undefined => "Undefined".to_owned(),
        }
    }
}


impl Token {
    /// The token's text, as diagnostics spell it: identifiers and literals
    /// with their payload, every other kind by its name.
    pub open spec fn spec_render(&self) -> Seq<char> {
        match (self.kind, &self.value) {
            (TokenKind::Identifier, Some(v)) => "Token::ID("@ + v.spec_render() + ")"@,
            (TokenKind::Literal, Some(TokenValue::Float(t))) => "Token::Float("@ + t@ + ")"@,
            (TokenKind::Literal, Some(TokenValue::Integer(n))) => "Token::Integer("@
                + signed_decimal_chars(*n as int) + ")"@,
            (TokenKind::Literal, Some(TokenValue::String(t))) => "Token::String("@ + t@ + ")"@,
            (k, _) => "Token::"@ + k.spec_name(),
        }
    }

    /// Renders the token for diagnostics.
    pub fn render(&self) -> (r: String)
        ensures
            r@ == self.spec_render(),
    {
        match (&self.kind, &self.value) {
            (TokenKind::Identifier, Some(v)) => {
                let mut s = String::from_str("Token::ID(");
                let payload = v.render();
                s.append(payload.as_str());
                s.append(")");
                s
            },
            (TokenKind::Literal, Some(TokenValue::Float(t))) => {
                let mut s = String::from_str("Token::Float(");
                s.append(t.as_str());
                s.append(")");
                s
            },
            (TokenKind::Literal, Some(TokenValue::Integer(n))) => {
                let mut s = String::from_str("Token::Integer(");
                let digits = i64_string(*n);
                s.append(digits.as_str());
                s.append(")");
                s
            },
            (TokenKind::Literal, Some(TokenValue::String(t))) => {
                let mut s = String::from_str("Token::String(");
                s.append(t.as_str());
                s.append(")");
                s
            },
            (k, _) => {
                let mut s = String::from_str("Token::");
                let name = k.name();
                s.append(name.as_str());
                s
            },
        }
    }
}

} // verus!
