use vstd::prelude::*;
use crate::diagnostic::{decimal_text, push_decimal, push_str};
use crate::position::{Range, RangeView};
use crate::text::string_of;

verus! {

/// The kind of a token, with what it carries.
#[derive(Debug, PartialEq)]
pub enum TokenType {
    Hash,
    LParenthesis,
    RParenthesis,
    LBracket,
    RBracket,
    LBrace,
    RBrace,
    LCarat,
    RCarat,
    Colon,
    Equals,
    DoubleColon,
    Period,
    Comma,
    Plus,
    Minus,
    Astrisk,
    Slash,
    DoubleAstrisk,
    Bang,
    Identifier(String),
    Character(char),
    String(String),
    Integer(i64),
    /// Decimal text of the literal: digits, one point, at least one digit
    /// after it, separators removed.
    Float(String),
    Eol,
    Eof,
}

/// A token kind as a value.
pub enum TokenKind {
    Hash,
    LParenthesis,
    RParenthesis,
    LBracket,
    RBracket,
    LBrace,
    RBrace,
    LCarat,
    RCarat,
    Colon,
    Equals,
    DoubleColon,
    Period,
    Comma,
    Plus,
    Minus,
    Astrisk,
    Slash,
    DoubleAstrisk,
    Bang,
    Identifier(Seq<char>),
    Character(char),
    String(Seq<char>),
    Integer(i64),
    Float(Seq<char>),
    Eol,
    Eof,
}

impl View for TokenType {
    type V = TokenKind;

    open spec fn view(&self) -> TokenKind {
        match self {
            TokenType::Hash => TokenKind::Hash,
            TokenType::LParenthesis => TokenKind::LParenthesis,
            TokenType::RParenthesis => TokenKind::RParenthesis,
            TokenType::LBracket => TokenKind::LBracket,
            TokenType::RBracket => TokenKind::RBracket,
            TokenType::LBrace => TokenKind::LBrace,
            TokenType::RBrace => TokenKind::RBrace,
            TokenType::LCarat => TokenKind::LCarat,
            TokenType::RCarat => TokenKind::RCarat,
            TokenType::Colon => TokenKind::Colon,
            TokenType::Equals => TokenKind::Equals,
            TokenType::DoubleColon => TokenKind::DoubleColon,
            TokenType::Period => TokenKind::Period,
            TokenType::Comma => TokenKind::Comma,
            TokenType::Plus => TokenKind::Plus,
            TokenType::Minus => TokenKind::Minus,
            TokenType::Astrisk => TokenKind::Astrisk,
            TokenType::Slash => TokenKind::Slash,
            TokenType::DoubleAstrisk => TokenKind::DoubleAstrisk,
            TokenType::Bang => TokenKind::Bang,
            TokenType::Identifier(s) => TokenKind::Identifier(s@),
            TokenType::Character(c) => TokenKind::Character(*c),
            TokenType::String(s) => TokenKind::String(s@),
            TokenType::Integer(v) => TokenKind::Integer(*v),
            TokenType::Float(s) => TokenKind::Float(s@),
            TokenType::Eol => TokenKind::Eol,
            TokenType::Eof => TokenKind::Eof,
        }
    }
}

impl Clone for TokenType {
    fn clone(&self) -> (r: Self)
        ensures
            r@ == self@,
    {
        match self {
            TokenType::Hash => TokenType::Hash,
            TokenType::LParenthesis => TokenType::LParenthesis,
            TokenType::RParenthesis => TokenType::RParenthesis,
            TokenType::LBracket => TokenType::LBracket,
            TokenType::RBracket => TokenType::RBracket,
            TokenType::LBrace => TokenType::LBrace,
            TokenType::RBrace => TokenType::RBrace,
            TokenType::LCarat => TokenType::LCarat,
            TokenType::RCarat => TokenType::RCarat,
            TokenType::Colon => TokenType::Colon,
            TokenType::Equals => TokenType::Equals,
            TokenType::DoubleColon => TokenType::DoubleColon,
            TokenType::Period => TokenType::Period,
            TokenType::Comma => TokenType::Comma,
            TokenType::Plus => TokenType::Plus,
            TokenType::Minus => TokenType::Minus,
            TokenType::Astrisk => TokenType::Astrisk,
            TokenType::Slash => TokenType::Slash,
            TokenType::DoubleAstrisk => TokenType::DoubleAstrisk,
            TokenType::Bang => TokenType::Bang,
            TokenType::Identifier(s) => TokenType::Identifier(s.clone()),
            TokenType::Character(c) => TokenType::Character(*c),
            TokenType::String(s) => TokenType::String(s.clone()),
            TokenType::Integer(v) => TokenType::Integer(*v),
            TokenType::Float(s) => TokenType::Float(s.clone()),
            TokenType::Eol => TokenType::Eol,
            TokenType::Eof => TokenType::Eof,
        }
    }
}

/// A token as a value: its kind and its span.
pub struct TokenView {
    pub kind: TokenKind,
    pub range: RangeView,
}

/// A lexical unit and the span of source it was read from.
#[derive(Debug, PartialEq)]
pub struct Token {
    pub token: TokenType,
    pub range: Range,
}

impl View for Token {
    type V = TokenView;

    open spec fn view(&self) -> TokenView {
        TokenView { kind: self.token@, range: self.range@ }
    }
}

impl Token {
    pub fn new(token: TokenType, range: Range) -> (r: Token)
        ensures
            r@ == (TokenView { kind: token@, range: range@ }),
    {
        Token { token, range }
    }

    /// An end-of-input token at the void location.
    pub fn new_void() -> (r: Token)
        ensures
            r@ == (TokenView {
                kind: TokenKind::Eof,
                range: RangeView {
                    min: crate::position::void_position(),
                    max: crate::position::void_position(),
                },
            }),
    {
        Token { token: TokenType::Eof, range: Range::new_void() }
    }
}

impl Clone for Token {
    fn clone(&self) -> (r: Self)
        ensures
            r@ == self@,
    {
        Token { token: self.token.clone(), range: self.range.clone() }
    }
}

/// A token sequence as values.
pub open spec fn tokens_view(s: Seq<Token>) -> Seq<TokenView> {
    s.map_values(|t: Token| t@)
}

/// The source-like text of a token kind.
pub open spec fn token_text(k: TokenKind) -> Seq<char> {
    match k {
        TokenKind::Hash => "#"@,
        TokenKind::LParenthesis => "("@,
        TokenKind::RParenthesis => ")"@,
        TokenKind::LBracket => "["@,
        TokenKind::RBracket => "]"@,
        TokenKind::LBrace => "{"@,
        TokenKind::RBrace => "}"@,
        TokenKind::LCarat => "<"@,
        TokenKind::RCarat => ">"@,
        TokenKind::Colon => ":"@,
        TokenKind::Equals => "="@,
        TokenKind::DoubleColon => "::"@,
        TokenKind::Period => "."@,
        TokenKind::Comma => ","@,
        TokenKind::Plus => "+"@,
        TokenKind::Minus => "-"@,
        TokenKind::Astrisk => "*"@,
        TokenKind::Slash => "/"@,
        TokenKind::DoubleAstrisk => "**"@,
        TokenKind::Bang => "!"@,
        TokenKind::Identifier(s) => s,
        TokenKind::Character(c) => seq!['\'', c, '\''],
        TokenKind::String(s) => seq!['"'] + s + seq!['"'],
        TokenKind::Integer(v) => if v < 0 {
            seq!['-'] + decimal_text((-v) as nat)
        } else {
            decimal_text(v as nat)
        },
        TokenKind::Float(s) => s,
        TokenKind::Eol => ";"@,
        TokenKind::Eof => "Eof"@,
    }
}

impl TokenType {
    /// The token as it reads in source; the end of input reads `Eof`.
    pub fn to_text(&self) -> (r: String)
        ensures
            r@ == token_text(self@),
    {
        let fixed = match self {
            TokenType::Hash => "#",
            TokenType::LParenthesis => "(",
            TokenType::RParenthesis => ")",
            TokenType::LBracket => "[",
            TokenType::RBracket => "]",
            TokenType::LBrace => "{",
            TokenType::RBrace => "}",
            TokenType::LCarat => "<",
            TokenType::RCarat => ">",
            TokenType::Colon => ":",
            TokenType::Equals => "=",
            TokenType::DoubleColon => "::",
            TokenType::Period => ".",
            TokenType::Comma => ",",
            TokenType::Plus => "+",
            TokenType::Minus => "-",
            TokenType::Astrisk => "*",
            TokenType::Slash => "/",
            TokenType::DoubleAstrisk => "**",
            TokenType::Bang => "!",
            TokenType::Eol => ";",
            TokenType::Eof => "Eof",
            TokenType::Identifier(s) => {
                return s.clone();
            },
            TokenType::Float(s) => {
                return s.clone();
            },
            TokenType::Character(c) => {
                let v = vec!['\'', *c, '\''];
                assert(v@ =~= seq!['\'', *c, '\'']);
                return string_of(&v);
            },
            TokenType::String(s) => {
                let mut v: Vec<char> = Vec::new();
                v.push('"');
                push_str(&mut v, s.as_str());
                v.push('"');
                assert(v@ =~= seq!['"'] + s@ + seq!['"']);
                return string_of(&v);
            },
            TokenType::Integer(n) => {
                let mut v: Vec<char> = Vec::new();
                let wide = *n as i128;
                if wide < 0 {
                    v.push('-');
                    push_decimal(&mut v, (-wide) as u128);
                    assert(v@ =~= seq!['-'] + decimal_text((-*n) as nat));
                } else {
                    push_decimal(&mut v, wide as u128);
                    assert(v@ =~= decimal_text(*n as nat));
                }
                return string_of(&v);
            },
        };
        String::from_str(fixed)
    }
}

} // verus!
