use vstd::prelude::*;
use crate::exception::{LexerException, LexerExceptionType, StageExceptionView};
use crate::position::{lemma_line_col_bounded, pos_at, span, Position, Range, RangeView};
use crate::text::{
    alpha, chars_of, digit, ident_char, is_alpha, is_digit, is_ident_char, normalize,
    normalize_line_endings, string_of,
};
use crate::token::{tokens_view, Token, TokenKind, TokenType, TokenView};

verus! {

/// A diagnostic of the tokenizer, as a value.
pub type LexError = StageExceptionView<LexerExceptionType>;

/// What tokenizing yields: the tokens and the warnings, or the error that
/// stopped it with the warnings raised before it.
pub type LexOutcome = Result<(Seq<TokenView>, Seq<LexError>), (LexError, Seq<LexError>)>;

/// Tokenizer diagnostics as values.
pub open spec fn lex_errors_view(s: Seq<LexerException>) -> Seq<LexError> {
    s.map_values(|e: LexerException| e@)
}

/// The character at index `i`, a space past the end.
pub open spec fn at(t: Seq<char>, i: nat) -> char {
    if i < t.len() {
        t[i as int]
    } else {
        ' '
    }
}

/// What a backslash followed by `c` stands for.
pub open spec fn escape_of(c: char) -> Option<char> {
    if c == '\\' {
        Some('\\')
    } else if c == 'n' {
        Some('\n')
    } else if c == 't' {
        Some('\t')
    } else if c == '"' {
        Some('"')
    } else if c == '\'' {
        Some('\'')
    } else if c == 'r' {
        Some('\r')
    } else {
        None
    }
}

/// The token that a character stands for on its own, if it does.
pub open spec fn single_kind(c: char) -> Option<TokenKind> {
    if c == '#' {
        Some(TokenKind::Hash)
    } else if c == '(' {
        Some(TokenKind::LParenthesis)
    } else if c == ')' {
        Some(TokenKind::RParenthesis)
    } else if c == '[' {
        Some(TokenKind::LBracket)
    } else if c == ']' {
        Some(TokenKind::RBracket)
    } else if c == '{' {
        Some(TokenKind::LBrace)
    } else if c == '}' {
        Some(TokenKind::RBrace)
    } else if c == '<' {
        Some(TokenKind::LCarat)
    } else if c == '>' {
        Some(TokenKind::RCarat)
    } else if c == '=' {
        Some(TokenKind::Equals)
    } else if c == '.' {
        Some(TokenKind::Period)
    } else if c == ',' {
        Some(TokenKind::Comma)
    } else if c == '+' {
        Some(TokenKind::Plus)
    } else if c == '-' {
        Some(TokenKind::Minus)
    } else if c == '!' {
        Some(TokenKind::Bang)
    } else if c == ';' {
        Some(TokenKind::Eol)
    } else {
        None
    }
}

pub open spec fn is_blank(c: char) -> bool {
    c == ' ' || c == '\t' || c == '\n' || c == '\r'
}

/// How an escaped character is quoted in a message.
pub open spec fn shown_escape(c: char) -> Seq<char> {
    if c == '`' {
        seq!['\\', '`']
    } else {
        seq![c]
    }
}

pub open spec fn tok(f: Seq<char>, t: Seq<char>, kind: TokenKind, a: nat, b: nat) -> TokenView {
    TokenView { kind, range: span(f, t, a, b) }
}

pub open spec fn lex_error(
    f: Seq<char>,
    t: Seq<char>,
    kind: LexerExceptionType,
    message: Seq<char>,
    a: nat,
    b: nat,
) -> LexError {
    StageExceptionView { kind, message, script: t, range: span(f, t, a, b) }
}

/// End of the identifier that goes on at `i`.
pub open spec fn ident_end(t: Seq<char>, i: nat) -> nat
    decreases t.len() - i,
{
    if i < t.len() && is_ident_char(t[i as int]) {
        ident_end(t, i + 1)
    } else {
        i
    }
}

/// The line feed that ends a comment going on at `i`, or the end of text.
pub open spec fn comment_end(t: Seq<char>, i: nat) -> nat
    decreases t.len() - i,
{
    if i < t.len() && t[i as int] != '\n' {
        comment_end(t, i + 1)
    } else {
        i
    }
}

/// End of the number that goes on at `i`; `dot` tells whether it has had its
/// point.
pub open spec fn number_end(t: Seq<char>, i: nat, dot: bool) -> nat
    decreases t.len() - i,
{
    if i < t.len() && (is_digit(t[i as int]) || t[i as int] == '_' || (t[i as int] == '.'
        && !dot)) {
        number_end(t, i + 1, dot || t[i as int] == '.')
    } else {
        i
    }
}

/// The text with its `_` separators left out.
pub open spec fn strip_separators(s: Seq<char>) -> Seq<char>
    decreases s.len(),
{
    if s.len() == 0 {
        s
    } else if s.last() == '_' {
        strip_separators(s.drop_last())
    } else {
        strip_separators(s.drop_last()).push(s.last())
    }
}

/// The value of a run of decimal digits.
pub open spec fn decimal(s: Seq<char>) -> int
    decreases s.len(),
{
    if s.len() == 0 {
        0
    } else {
        decimal(s.drop_last()) * 10 + (s.last() as int - '0' as int)
    }
}

/// The content of a string literal from index `i` up to its closing quote:
/// the characters, the warnings on unknown escapes, the quote's index. Where
/// the text ends first, the warnings raised up to there.
pub open spec fn string_scan(
    f: Seq<char>,
    t: Seq<char>,
    i: nat,
    acc: Seq<char>,
    warns: Seq<LexError>,
) -> Result<(Seq<char>, Seq<LexError>, nat), Seq<LexError>>
    decreases t.len() - i,
{
    if i >= t.len() {
        Err(warns)
    } else if t[i as int] == '"' {
        Ok((acc, warns, i))
    } else if t[i as int] == '\\' {
        if i + 1 >= t.len() {
            Err(warns)
        } else {
            match escape_of(t[i + 1int]) {
                Some(c) => string_scan(f, t, i + 2, acc.push(c), warns),
                None => string_scan(
                    f,
                    t,
                    i + 2,
                    acc + seq!['\\', t[i + 1int]],
                    warns.push(
                        lex_error(
                            f,
                            t,
                            LexerExceptionType::InvalidEscape,
                            "Discarded escape `"@ + shown_escape(t[i + 1int]) + "`."@,
                            i,
                            i + 1,
                        ),
                    ),
                ),
            }
        }
    } else {
        string_scan(f, t, i + 1, acc.push(t[i as int]), warns)
    }
}

/// One step of the scan at index `i`: what it emits and where it goes on, or
/// the error it stops on.
pub enum LexStep {
    /// The error, after the warnings the step raised before it.
    Fail(LexError, Seq<LexError>),
    Next(Seq<TokenView>, Seq<LexError>, nat),
}

pub open spec fn missing_quote(c: char) -> Seq<char> {
    "Expected character `"@ + seq![c] + "` not found."@
}

pub open spec fn char_step(f: Seq<char>, t: Seq<char>, s: nat) -> LexStep {
    let j = s + 1;
    if at(t, j) == '\\' {
        match escape_of(at(t, j + 1)) {
            None => LexStep::Fail(
                lex_error(
                    f,
                    t,
                    LexerExceptionType::InvalidEscape,
                    "Discarded escape `"@ + shown_escape(at(t, j + 1))
                        + "` not allowed in character literal."@,
                    j,
                    j + 1,
                ), Seq::empty()),
            Some(c) => if at(t, j + 2) != '\'' {
                LexStep::Fail(
                    lex_error(
                        f,
                        t,
                        LexerExceptionType::MissingCharacter,
                        missing_quote('\''),
                        s,
                        j + 2,
                    ), Seq::empty())
            } else {
                LexStep::Next(seq![tok(f, t, TokenKind::Character(c), s, j + 2)], seq![], j + 3)
            },
        }
    } else if at(t, j) != '\'' {
        LexStep::Fail(
            lex_error(f, t, LexerExceptionType::MissingCharacter, missing_quote('\''), s, j), Seq::empty())
    } else {
        LexStep::Next(seq![tok(f, t, TokenKind::Character(' '), s, j)], seq![], j + 1)
    }
}

pub open spec fn string_step(f: Seq<char>, t: Seq<char>, s: nat) -> LexStep {
    match string_scan(f, t, s + 1, seq![], seq![]) {
        Err(warns) => LexStep::Fail(
            lex_error(f, t, LexerExceptionType::MissingCharacter, missing_quote('"'), s, t.len()),
            warns,
        ),
        Ok((content, warns, q)) => LexStep::Next(
            seq![tok(f, t, TokenKind::String(content), s, q)],
            warns,
            q + 1,
        ),
    }
}

pub open spec fn number_step(f: Seq<char>, t: Seq<char>, s: nat) -> LexStep {
    let e = number_end(t, s, false);
    let d = strip_separators(t.subrange(s as int, e as int));
    if d.contains('.') {
        let text = if d.last() == '.' {
            d.push('0')
        } else {
            d
        };
        LexStep::Next(seq![tok(f, t, TokenKind::Float(text), s, (e - 1) as nat)], seq![], e)
    } else if decimal(d) > i64::MAX {
        LexStep::Fail(
            lex_error(
                f,
                t,
                LexerExceptionType::InvalidNumber,
                "Integer literal `"@ + d + "` does not fit in 64 bits."@,
                s,
                (e - 1) as nat,
            ), Seq::empty())
    } else {
        LexStep::Next(
            seq![tok(f, t, TokenKind::Integer(decimal(d) as i64), s, (e - 1) as nat)],
            seq![],
            e,
        )
    }
}

/// The scan at index `i`, which lies in the text.
pub open spec fn lex_step(f: Seq<char>, t: Seq<char>, i: nat) -> LexStep {
    let c = t[i as int];
    if is_blank(c) {
        LexStep::Next(seq![], seq![], i + 1)
    } else if c == ':' || c == '*' {
        let (one, two) = if c == ':' {
            (TokenKind::Colon, TokenKind::DoubleColon)
        } else {
            (TokenKind::Astrisk, TokenKind::DoubleAstrisk)
        };
        if at(t, i + 1) == c {
            LexStep::Next(seq![tok(f, t, two, i, i + 1)], seq![], i + 2)
        } else {
            LexStep::Next(seq![tok(f, t, one, i, i)], seq![], i + 1)
        }
    } else if c == '/' {
        if at(t, i + 1) == '/' {
            LexStep::Next(seq![], seq![], comment_end(t, i + 1))
        } else {
            LexStep::Next(seq![tok(f, t, TokenKind::Slash, i, i)], seq![], i + 1)
        }
    } else if single_kind(c) is Some {
        LexStep::Next(seq![tok(f, t, single_kind(c)->0, i, i)], seq![], i + 1)
    } else if is_alpha(c) {
        let e = ident_end(t, i);
        LexStep::Next(
            seq![tok(f, t, TokenKind::Identifier(t.subrange(i as int, e as int)), i, (e - 1) as nat)],
            seq![],
            e,
        )
    } else if c == '\'' {
        char_step(f, t, i)
    } else if c == '"' {
        string_step(f, t, i)
    } else if is_digit(c) {
        number_step(f, t, i)
    } else {
        LexStep::Fail(
            lex_error(
                f,
                t,
                LexerExceptionType::IllegalCharacter,
                "Illegal character `"@ + seq![c] + "` found."@,
                i,
                i,
            ), Seq::empty())
    }
}

/// The scan of `t` from index `i` on, after `toks` and `warns` were emitted.
/// It ends with an end-of-input token at the end of the text.
pub open spec fn lex_acc(
    f: Seq<char>,
    t: Seq<char>,
    i: nat,
    toks: Seq<TokenView>,
    warns: Seq<LexError>,
) -> LexOutcome
    decreases t.len() - i,
{
    if i >= t.len() {
        Ok((toks.push(tok(f, t, TokenKind::Eof, i, i)), warns))
    } else {
        match lex_step(f, t, i) {
            LexStep::Fail(e, ws) => Err((e, warns + ws)),
            LexStep::Next(ts, ws, j) => if i < j && j <= t.len() {
                lex_acc(f, t, j, toks + ts, warns + ws)
            } else {
                Err((no_progress_error(), warns))
            },
        }
    }
}

/// Stands in a branch that no scan reaches: each step moves on.
pub open spec fn no_progress_error() -> LexError {
    lex_error(Seq::empty(), Seq::empty(), LexerExceptionType::IllegalCharacter, Seq::empty(), 0, 0)
}

/// The tokens of source text `s` of file `f`, after its line endings are
/// made uniform.
#[verifier::opaque]
pub open spec fn tokenize(f: Seq<char>, s: Seq<char>) -> LexOutcome {
    lex_acc(f, normalize(s), 0, seq![], seq![])
}

/// The tokenizer's cursor over one source text.
pub struct Lexer {
    text: Vec<char>,
    pub position: Position,
    ch: char,
    end: bool,
    tokens: Vec<Token>,
    warnings: Vec<LexerException>,
}

/// `s` followed by `c`, as a string.
fn text_with(s: &str, c: &Vec<char>, tail: &str) -> (r: String)
    ensures
        r@ == s@ + c@ + tail@,
{
    let mut r = String::from_str(s);
    let m = string_of(c);
    r.append(m.as_str());
    r.append(tail);
    r
}

fn one(c: char) -> (r: Vec<char>)
    ensures
        r@ == seq![c],
{
    let mut r: Vec<char> = Vec::new();
    r.push(c);
    assert(r@ =~= seq![c]);
    r
}

fn shown(c: char) -> (r: Vec<char>)
    ensures
        r@ == shown_escape(c),
{
    if c == '`' {
        vec!['\\', '`']
    } else {
        vec![c]
    }
}

impl Lexer {
    pub closed spec fn wf(&self) -> bool {
        &&& self.position.index <= self.text.len()
        &&& self.position@ == pos_at(self.position.filename@, self.text@, self.position.index as nat)
        &&& self.ch == at(self.text@, self.position.index as nat)
        &&& self.end == (self.position.index >= self.text.len())
    }

    pub closed spec fn file(&self) -> Seq<char> {
        self.position.filename@
    }

    pub closed spec fn t(&self) -> Seq<char> {
        self.text@
    }

    pub closed spec fn index(&self) -> nat {
        self.position.index as nat
    }

    pub closed spec fn toks(&self) -> Seq<TokenView> {
        tokens_view(self.tokens@)
    }

    pub closed spec fn warns(&self) -> Seq<LexError> {
        lex_errors_view(self.warnings@)
    }

    /// `new` is `old` after one step of the scan, with result `r`.
    pub closed spec fn stepped(old: Lexer, new: Lexer, r: Result<(), LexerException>) -> bool {
        match lex_step(old.file(), old.t(), old.index()) {
            LexStep::Fail(e, ws) => r is Err && r->Err_0@ == e && new.warns() == old.warns() + ws,
            LexStep::Next(ts, ws, j) => {
                &&& r is Ok
                &&& new.wf()
                &&& new.file() == old.file()
                &&& new.t() == old.t()
                &&& new.index() == j
                &&& new.toks() == old.toks() + ts
                &&& new.warns() == old.warns() + ws
            },
        }
    }

    /// Tokenizes `script` of file `filename`: the tokens, ending with an
    /// end-of-input token, and the warnings; or the error that stopped it,
    /// with the warnings raised before it.
    pub fn calculate(filename: String, script: String) -> (r: Result<
        (Vec<Token>, Vec<LexerException>),
        (LexerException, Vec<LexerException>),
    >)
        ensures
            match tokenize(filename@, script@) {
                Ok((ts, ws)) => r is Ok && tokens_view(r->Ok_0.0@) == ts
                    && lex_errors_view(r->Ok_0.1@) == ws,
                Err((e, ws)) => r is Err && r->Err_0.0@ == e && lex_errors_view(r->Err_0.1@) == ws,
            },
    {
        reveal(tokenize);
        let raw = chars_of(script.as_str());
        let text = normalize_line_endings(&raw);
        let normalized = string_of(&text);
        let first = if text.len() > 0 {
            text[0]
        } else {
            ' '
        };
        let mut lexer = Lexer {
            text,
            position: Position::new(0, 0, 0, filename, normalized),
            ch: first,
            end: false,
            tokens: Vec::new(),
            warnings: Vec::new(),
        };
        lexer.update();
        assert(lexer.toks() =~= seq![]);
        assert(lexer.warns() =~= seq![]);
        match lexer.start() {
            Ok(()) => Ok((lexer.tokens, lexer.warnings)),
            Err(e) => Err((e, lexer.warnings)),
        }
    }

    fn update(&mut self)
        requires
            old(self).position.index <= old(self).text.len(),
        ensures
            *final(self) == (Lexer {
                ch: at(old(self).text@, old(self).position.index as nat),
                end: old(self).position.index >= old(self).text.len(),
                ..*old(self)
            }),
    {
        if self.position.index < self.text.len() {
            self.ch = self.text[self.position.index];
            self.end = false;
        } else {
            self.ch = ' ';
            self.end = true;
        }
    }

    /// Moves to the next character. The cursor never leaves the text: its
    /// validity keeps the index at most the text's length, and every scan
    /// advances only from a character of the text.
    fn advance(&mut self)
        requires
            old(self).wf(),
            old(self).position.index < old(self).text.len(),
        ensures
            final(self).wf(),
            final(self).index() == old(self).index() + 1,
            final(self).file() == old(self).file(),
            final(self).t() == old(self).t(),
            final(self).tokens == old(self).tokens,
            final(self).warnings == old(self).warnings,
    {
        proof {
            lemma_line_col_bounded(self.text@, self.position.index as nat);
        }
        self.position.index = self.position.index + 1;
        self.position.column = self.position.column + 1;
        self.update();
        if self.ch == '\n' {
            self.position.line = self.position.line + 1;
            self.position.column = 0;
        }
    }

    fn push_token_start_end(&mut self, token: TokenType, start: Position, end: Position)
        ensures
            *final(self) == (Lexer { tokens: final(self).tokens, ..*old(self) }),
            final(self).toks() == old(self).toks() + seq![
                TokenView { kind: token@, range: RangeView { min: start@, max: end@ } },
            ],
    {
        self.tokens.push(Token::new(token, Range::new(start, end)));
        assert(self.toks() =~= old(self).toks() + seq![
            TokenView { kind: token@, range: RangeView { min: start@, max: end@ } },
        ]);
    }

    fn push_token(&mut self, token: TokenType)
        ensures
            *final(self) == (Lexer { tokens: final(self).tokens, ..*old(self) }),
            final(self).toks() == old(self).toks() + seq![
                TokenView {
                    kind: token@,
                    range: RangeView { min: old(self).position@, max: old(self).position@ },
                },
            ],
    {
        let a = self.position.clone();
        let b = self.position.clone();
        self.push_token_start_end(token, a, b);
    }

    fn push_token_start(&mut self, token: TokenType, start: Position)
        ensures
            *final(self) == (Lexer { tokens: final(self).tokens, ..*old(self) }),
            final(self).toks() == old(self).toks() + seq![
                TokenView { kind: token@, range: RangeView { min: start@, max: old(self).position@ } },
            ],
    {
        let b = self.position.clone();
        self.push_token_start_end(token, start, b);
    }

    fn push_token_end(&mut self, token: TokenType, end: Position)
        ensures
            *final(self) == (Lexer { tokens: final(self).tokens, ..*old(self) }),
            final(self).toks() == old(self).toks() + seq![
                TokenView { kind: token@, range: RangeView { min: end@, max: end@ } },
            ],
    {
        let a = end.clone();
        self.push_token_start_end(token, a, end);
    }

    fn error(&self, kind: LexerExceptionType, message: String, start: Position, end: Position) -> (r:
        LexerException)
        requires
            self.wf(),
        ensures
            r@ == (StageExceptionView {
                kind,
                message: message@,
                script: self.t(),
                range: RangeView { min: start@, max: end@ },
            }),
    {
        LexerException::new(kind, message, self.position.script.clone(), Range::new(start, end))
    }

    /// What `ch` stands for after a backslash, or `ch` itself where it is no
    /// escape.
    pub fn calculate_escape(ch: char) -> (r: Result<char, char>)
        ensures
            r == (match escape_of(ch) {
                Some(c) => Ok::<char, char>(c),
                None => Err(ch),
            }),
    {
        match ch {
            '\\' => Ok('\\'),
            'n' => Ok('\n'),
            't' => Ok('\t'),
            '"' => Ok('"'),
            '\'' => Ok('\''),
            'r' => Ok('\r'),
            _ => Err(ch),
        }
    }

    fn start(&mut self) -> (r: Result<(), LexerException>)
        requires
            old(self).wf(),
        ensures
            match lex_acc(old(self).file(), old(self).t(), old(self).index(), old(self).toks(), old(self).warns()) {
                Ok((ts, ws)) => r is Ok && final(self).toks() == ts && final(self).warns() == ws,
                Err((e, ws)) => r is Err && r->Err_0@ == e && final(self).warns() == ws,
            },
    {
        let ghost goal = lex_acc(self.file(), self.t(), self.index(), self.toks(), self.warns());
        while !self.end
            invariant
                self.wf(),
                goal == lex_acc(self.file(), self.t(), self.index(), self.toks(), self.warns()),
                goal == lex_acc(old(self).file(), old(self).t(), old(self).index(), old(self).toks(), old(self).warns()),
            decreases self.t().len() - self.index(),
        {
            let ghost before = *self;
            let r = self.start_one();
            match r {
                Err(e) => {
                    return Err(e);
                },
                Ok(()) => {},
            }
            assert(lex_acc(before.file(), before.t(), before.index(), before.toks(), before.warns())
                == lex_acc(self.file(), self.t(), self.index(), self.toks(), self.warns()));
        }
        self.push_token(TokenType::Eof);
        Ok(())
    }

    /// One step of the scan, at a character of the text.
    fn start_one(&mut self) -> (r: Result<(), LexerException>)
        requires
            old(self).wf(),
            old(self).index() < old(self).t().len(),
        ensures
            Lexer::stepped(*old(self), *final(self), r),
            r is Ok ==> old(self).index() < final(self).index() <= old(self).t().len(),
    {
        proof {
            lemma_add_empty(old(self).toks());
            lemma_add_empty(old(self).warns());
            lemma_ends_bounded(old(self).t(), old(self).index(), false);
            lemma_ends_bounded(old(self).t(), old(self).index() + 1, false);
        }
        let c = self.ch;
        if c == ' ' || c == '\t' || c == '\n' || c == '\r' {
            self.advance();
            Ok(())
        } else if c == ':' || c == '*' {
            let start = self.position.clone();
            self.advance();
            if self.ch == c {
                let kind = if c == ':' {
                    TokenType::DoubleColon
                } else {
                    TokenType::DoubleAstrisk
                };
                self.push_token_start(kind, start);
                self.advance();
            } else {
                let kind = if c == ':' {
                    TokenType::Colon
                } else {
                    TokenType::Astrisk
                };
                self.push_token_end(kind, start);
            }
            Ok(())
        } else if c == '/' {
            let start = self.position.clone();
            self.advance();
            if self.ch == '/' {
                self.start_eol_comment();
            } else {
                self.push_token_end(TokenType::Slash, start);
            }
            Ok(())
        } else if alpha(c) {
            self.start_identifier();
            Ok(())
        } else if c == '\'' {
            self.start_character()
        } else if c == '"' {
            self.start_string()
        } else if digit(c) {
            self.start_number()
        } else {
            let kind = match c {
                '#' => Some(TokenType::Hash),
                '(' => Some(TokenType::LParenthesis),
                ')' => Some(TokenType::RParenthesis),
                '[' => Some(TokenType::LBracket),
                ']' => Some(TokenType::RBracket),
                '{' => Some(TokenType::LBrace),
                '}' => Some(TokenType::RBrace),
                '<' => Some(TokenType::LCarat),
                '>' => Some(TokenType::RCarat),
                '=' => Some(TokenType::Equals),
                '.' => Some(TokenType::Period),
                ',' => Some(TokenType::Comma),
                '+' => Some(TokenType::Plus),
                '-' => Some(TokenType::Minus),
                '!' => Some(TokenType::Bang),
                ';' => Some(TokenType::Eol),
                _ => None,
            };
            match kind {
                Some(k) => {
                    self.push_token(k);
                    self.advance();
                    Ok(())
                },
                None => {
                    let m = text_with("Illegal character `", &one(c), "` found.");
                    let a = self.position.clone();
                    let b = self.position.clone();
                    Err(self.error(LexerExceptionType::IllegalCharacter, m, a, b))
                },
            }
        }
    }

    fn start_eol_comment(&mut self)
        requires
            old(self).wf(),
        ensures
            final(self).wf(),
            final(self).index() == comment_end(old(self).t(), old(self).index()),
            final(self).file() == old(self).file(),
            final(self).t() == old(self).t(),
            final(self).tokens == old(self).tokens,
            final(self).warnings == old(self).warnings,
    {
        let ghost i0 = self.index();
        while !self.end && self.ch != '\n'
            invariant
                self.wf(),
                comment_end(self.t(), i0) == comment_end(self.t(), self.index()),
                self.file() == old(self).file(),
                self.t() == old(self).t(),
                self.tokens == old(self).tokens,
                self.warnings == old(self).warnings,
            decreases self.t().len() - self.index(),
        {
            self.advance();
        }
    }

    fn start_identifier(&mut self)
        requires
            old(self).wf(),
            old(self).index() < old(self).t().len(),
            is_alpha(old(self).ch),
        ensures
            final(self).wf(),
            final(self).index() == ident_end(old(self).t(), old(self).index()),
            final(self).file() == old(self).file(),
            final(self).t() == old(self).t(),
            final(self).warnings == old(self).warnings,
            final(self).toks() == old(self).toks() + seq![
                tok(
                    old(self).file(),
                    old(self).t(),
                    TokenKind::Identifier(
                        old(self).t().subrange(old(self).index() as int, final(self).index() as int),
                    ),
                    old(self).index(),
                    (final(self).index() - 1) as nat,
                ),
            ],
    {
        let ghost i0 = self.index();
        let start = self.position.clone();
        let mut end = self.position.clone();
        let mut identifier: Vec<char> = Vec::new();
        while !self.end && ident_char(self.ch)
            invariant
                self.wf(),
                i0 <= self.index(),
                ident_end(self.t(), i0) == ident_end(self.t(), self.index()),
                identifier@ == self.t().subrange(i0 as int, self.index() as int),
                i0 < self.index() ==> end@ == pos_at(self.file(), self.t(), (self.index() - 1) as nat),
                start@ == pos_at(self.file(), self.t(), i0),
                self.file() == old(self).file(),
                self.t() == old(self).t(),
                self.tokens == old(self).tokens,
                self.warnings == old(self).warnings,
            decreases self.t().len() - self.index(),
        {
            identifier.push(self.ch);
            end = self.position.clone();
            self.advance();
            assert(identifier@ =~= self.t().subrange(i0 as int, self.index() as int));
        }
        let name = string_of(&identifier);
        self.push_token_start_end(TokenType::Identifier(name), start, end);
    }

    fn start_character(&mut self) -> (r: Result<(), LexerException>)
        requires
            old(self).wf(),
            old(self).index() < old(self).t().len(),
            old(self).ch == '\'',
        ensures
            Lexer::stepped(*old(self), *final(self), r),
            r is Ok ==> old(self).index() < final(self).index() <= old(self).t().len(),
    {
        proof {
            lemma_add_empty(old(self).toks());
            lemma_add_empty(old(self).warns());
            lemma_ends_bounded(old(self).t(), old(self).index(), false);
            lemma_ends_bounded(old(self).t(), old(self).index() + 1, false);
        }
        let start = self.position.clone();
        let mut ch = ' ';
        self.advance();
        if self.ch == '\\' {
            let ch_start = self.position.clone();
            self.advance();
            match Lexer::calculate_escape(self.ch) {
                Ok(c) => {
                    ch = c;
                },
                Err(c) => {
                    let m = text_with("Discarded escape `", &shown(c), "` not allowed in character literal.");
                    let b = self.position.clone();
                    return Err(self.error(LexerExceptionType::InvalidEscape, m, ch_start, b));
                },
            }
            self.advance();
        }
        if self.ch != '\'' {
            let m = text_with("Expected character `", &one('\''), "` not found.");
            let b = self.position.clone();
            return Err(self.error(LexerExceptionType::MissingCharacter, m, start, b));
        }
        self.push_token_start(TokenType::Character(ch), start);
        self.advance();
        Ok(())
    }

    fn start_string(&mut self) -> (r: Result<(), LexerException>)
        requires
            old(self).wf(),
            old(self).index() < old(self).t().len(),
            old(self).ch == '"',
        ensures
            Lexer::stepped(*old(self), *final(self), r),
            r is Ok ==> old(self).index() < final(self).index() <= old(self).t().len(),
    {
        proof {
            lemma_add_empty(old(self).toks());
            lemma_add_empty(old(self).warns());
            lemma_ends_bounded(old(self).t(), old(self).index(), false);
            lemma_ends_bounded(old(self).t(), old(self).index() + 1, false);
        }
        let ghost s0 = self.index();
        let ghost f = self.file();
        let ghost t = self.t();
        let start = self.position.clone();
        self.advance();
        let mut string: Vec<char> = Vec::new();
        let ghost ws: Seq<LexError> = seq![];
        loop
            invariant
                self.wf(),
                old(self).wf(),
                s0 == old(self).index(),
                f == old(self).file(),
                t == old(self).t(),
                old(self).ch == '"',
                s0 < t.len(),
                s0 < self.index() <= t.len(),
                start@ == pos_at(f, t, s0),
                self.file() == f,
                self.t() == t,
                self.tokens == old(self).tokens,
                self.warns() == old(self).warns() + ws,
                string_scan(f, t, s0 + 1, seq![], seq![]) == string_scan(
                    f,
                    t,
                    self.index(),
                    string@,
                    ws,
                ),
            decreases t.len() - self.index(),
        {
            if self.end {
                let m = text_with("Expected character `", &one('"'), "` not found.");
                let b = self.position.clone();
                return Err(self.error(LexerExceptionType::MissingCharacter, m, start, b));
            }
            if self.ch == '"' {
                self.push_token_start(TokenType::String(string_of(&string)), start);
                self.advance();
                return Ok(());
            }
            if self.ch == '\\' {
                let escape_start = self.position.clone();
                self.advance();
                if self.end {
                    let m = text_with("Expected character `", &one('"'), "` not found.");
                    let b = self.position.clone();
                    return Err(self.error(LexerExceptionType::MissingCharacter, m, start, b));
                }
                match Lexer::calculate_escape(self.ch) {
                    Ok(c) => {
                        string.push(c);
                    },
                    Err(c) => {
                        let m = text_with("Discarded escape `", &shown(c), "`.");
                        let b = self.position.clone();
                        let w = self.error(LexerExceptionType::InvalidEscape, m, escape_start, b);
                        let ghost before = self.warns();
                        self.warnings.push(w);
                        proof {
                            ws = ws.push(w@);
                            assert(self.warns() =~= before.push(w@));
                            assert(self.warns() =~= old(self).warns() + ws);
                        }
                        let ghost before_s = string@;
                        string.push('\\');
                        string.push(c);
                        assert(string@ =~= before_s + seq!['\\', c]);
                    },
                }
                self.advance();
            } else {
                string.push(self.ch);
                self.advance();
            }
        }
    }

    fn start_number(&mut self) -> (r: Result<(), LexerException>)
        requires
            old(self).wf(),
            old(self).index() < old(self).t().len(),
            is_digit(old(self).ch),
        ensures
            Lexer::stepped(*old(self), *final(self), r),
            r is Ok ==> old(self).index() < final(self).index() <= old(self).t().len(),
    {
        proof {
            lemma_add_empty(old(self).toks());
            lemma_add_empty(old(self).warns());
            lemma_ends_bounded(old(self).t(), old(self).index(), false);
            lemma_ends_bounded(old(self).t(), old(self).index() + 1, false);
        }
        let ghost s0 = self.index();
        let ghost f = self.file();
        let ghost t = self.t();
        let start = self.position.clone();
        let mut end = self.position.clone();
        let mut number: Vec<char> = Vec::new();
        let mut dots = false;
        let mut value: i64 = 0;
        let mut overflow = false;
        assert(t.subrange(s0 as int, s0 as int) =~= Seq::<char>::empty());
        while !self.end && (digit(self.ch) || self.ch == '_' || (self.ch == '.' && !dots))
            invariant
                self.wf(),
                s0 <= self.index() <= t.len(),
                self.index() == s0 ==> is_digit(self.ch) && !self.end,
                self.file() == f,
                self.t() == t,
                self.tokens == old(self).tokens,
                self.warnings == old(self).warnings,
                start@ == pos_at(f, t, s0),
                s0 < self.index() ==> end@ == pos_at(f, t, (self.index() - 1) as nat),
                number_end(t, s0, false) == number_end(t, self.index(), dots),
                number@ == strip_separators(t.subrange(s0 as int, self.index() as int)),
                dots == number@.contains('.'),
                forall|k: int| 0 <= k < number@.len() ==> is_digit(#[trigger] number@[k]) || number@[k] == '.',
                !dots ==> (if overflow {
                    decimal(number@) > i64::MAX
                } else {
                    value == decimal(number@) && value >= 0
                }),
            decreases t.len() - self.index(),
        {
            let c = self.ch;
            let ghost before = number@;
            proof {
                if !dots {
                    lemma_decimal_nonneg(before);
                }
            }
            if c == '.' {
                dots = true;
                number.push('.');
                assert(number@.last() == '.');
            } else if c != '_' {
                number.push(c);
                assert(number@.drop_last() =~= before);
                if !dots && !overflow {
                    let d = (c as u32 - '0' as u32) as i64;
                    assert(0 <= d <= 9);
                    if value > (i64::MAX - d) / 10 {
                        overflow = true;
                        assert(value * 10 + d > i64::MAX) by (nonlinear_arith)
                            requires
                                value > (i64::MAX - d) / 10,
                                0 <= d <= 9,
                        ;
                    } else {
                        assert(value * 10 + d <= i64::MAX) by (nonlinear_arith)
                            requires
                                value <= (i64::MAX - d) / 10,
                                0 <= d <= 9,
                        ;
                        value = value * 10 + d;
                    }
                } else if !dots {
                    assert(decimal(number@) > i64::MAX) by (nonlinear_arith)
                        requires
                            decimal(number@) == decimal(before) * 10 + (c as int - '0' as int),
                            decimal(before) > i64::MAX,
                            is_digit(c),
                    ;
                }
                assert(number@.contains('.') == before.contains('.')) by {
                    if before.contains('.') {
                        let k = choose|k: int| 0 <= k < before.len() && before[k] == '.';
                        assert(number@[k] == '.');
                    }
                    if number@.contains('.') {
                        let k = choose|k: int| 0 <= k < number@.len() && number@[k] == '.';
                        assert(k < before.len());
                        assert(before[k] == '.');
                    }
                }
            }
            end = self.position.clone();
            self.advance();
            proof {
                let w = t.subrange(s0 as int, self.index() as int);
                assert(w.drop_last() =~= t.subrange(s0 as int, self.index() - 1));
                if c == '.' {
                    assert(number@ =~= before.push('.'));
                }
            }
        }
        if dots {
            if number[number.len() - 1] == '.' {
                number.push('0');
            }
            self.push_token_start_end(TokenType::Float(string_of(&number)), start, end);
            Ok(())
        } else if overflow {
            let m = text_with("Integer literal `", &number, "` does not fit in 64 bits.");
            Err(self.error(LexerExceptionType::InvalidNumber, m, start, end))
        } else {
            self.push_token_start_end(TokenType::Integer(value), start, end);
            Ok(())
        }
    }
}

/// Tokenizing is deterministic: the same text of the same file gives the
/// same tokens, spans included, the same warnings, or the same error.
pub proof fn lemma_tokenize_idempotent(f1: Seq<char>, s1: Seq<char>, f2: Seq<char>, s2: Seq<char>)
    requires
        f1 == f2,
        s1 == s2,
    ensures
        tokenize(f1, s1) == tokenize(f2, s2),
{
}

proof fn lemma_normalize_no_cr(s: Seq<char>)
    ensures
        !normalize(s).contains('\r'),
        normalize(s).len() <= s.len(),
    decreases s.len(),
{
    if s.len() > 0 {
        let rest = if s.len() >= 2 && s[0] == '\r' && s[1] == '\n' {
            s.subrange(2, s.len() as int)
        } else {
            s.subrange(1, s.len() as int)
        };
        lemma_normalize_no_cr(rest);
        let n = normalize(s);
        if n.contains('\r') {
            let k = choose|k: int| 0 <= k < n.len() && n[k] == '\r';
            if k > 0 {
                assert(normalize(rest)[k - 1] == '\r');
            }
        }
    }
}

proof fn lemma_normalize_fixed(s: Seq<char>)
    requires
        !s.contains('\r'),
    ensures
        normalize(s) == s,
    decreases s.len(),
{
    if s.len() > 0 {
        let rest = s.subrange(1, s.len() as int);
        assert(!rest.contains('\r')) by {
            if rest.contains('\r') {
                let k = choose|k: int| 0 <= k < rest.len() && rest[k] == '\r';
                assert(s[k + 1] == '\r');
            }
        }
        assert(s[0] != '\r') by {
            assert(s[0] == s[0]);
        }
        lemma_normalize_fixed(rest);
        assert(seq![s[0]] + rest =~= s);
    }
}

/// Line endings are all one to the tokenizer: text and its normalized form
/// tokenize alike, so `\r\n`, `\r` and `\n` end a line in the same way.
pub proof fn lemma_tokenize_normalized(f: Seq<char>, s: Seq<char>)
    ensures
        tokenize(f, s) == tokenize(f, normalize(s)),
{
    reveal(tokenize);
    lemma_normalize_no_cr(s);
    lemma_normalize_fixed(normalize(s));
}

/// Text of the shape of an identifier: a letter, then letters, digits and
/// underscores.
pub open spec fn is_identifier_text(s: Seq<char>) -> bool {
    &&& s.len() > 0
    &&& is_alpha(s[0])
    &&& forall|k: int| 0 <= k < s.len() ==> is_ident_char(#[trigger] s[k])
}

proof fn lemma_ident_end_all(t: Seq<char>, i: nat)
    requires
        i <= t.len(),
        forall|k: int| 0 <= k < t.len() ==> is_ident_char(#[trigger] t[k]),
    ensures
        ident_end(t, i) == t.len(),
    decreases t.len() - i,
{
    if i < t.len() {
        lemma_ident_end_all(t, i + 1);
    }
}

/// Identifier text tokenizes to that one identifier, spanning all of it,
/// then the end of input.
pub proof fn lemma_identifier_round_trip(f: Seq<char>, s: Seq<char>)
    requires
        is_identifier_text(s),
    ensures
        tokenize(f, s) == Ok::<(Seq<TokenView>, Seq<LexError>), (LexError, Seq<LexError>)>((
            seq![
                tok(f, s, TokenKind::Identifier(s), 0, (s.len() - 1) as nat),
                tok(f, s, TokenKind::Eof, s.len(), s.len()),
            ],
            seq![],
        )),
{
    reveal(tokenize);
    assert(!s.contains('\r')) by {
        if s.contains('\r') {
            let k = choose|k: int| 0 <= k < s.len() && s[k] == '\r';
            assert(is_ident_char(s[k]));
        }
    }
    lemma_normalize_fixed(s);
    lemma_ident_end_all(s, 0);
    assert(s.subrange(0, s.len() as int) =~= s);
    let first = seq![tok(f, s, TokenKind::Identifier(s), 0, (s.len() - 1) as nat)];
    assert(seq![] + first =~= first);
    assert(Seq::<LexError>::empty() + Seq::<LexError>::empty() =~= Seq::<LexError>::empty());
    let c = s[0];
    assert(!is_blank(c) && c != ':' && c != '*' && c != '/' && single_kind(c) is None);
    assert(lex_step(f, s, 0) == LexStep::Next(first, seq![], s.len()));
    assert(lex_acc(f, s, 0, seq![], seq![]) == lex_acc(f, s, s.len(), seq![] + first, seq![] + seq![]));
    assert(first.push(tok(f, s, TokenKind::Eof, s.len(), s.len())) =~= seq![
        tok(f, s, TokenKind::Identifier(s), 0, (s.len() - 1) as nat),
        tok(f, s, TokenKind::Eof, s.len(), s.len()),
    ]);
}

proof fn lemma_string_scan_ends(f: Seq<char>, t: Seq<char>, i: nat, acc: Seq<char>, warns: Seq<LexError>)
    ensures
        string_scan(f, t, i, acc, warns) is Ok ==> i <= string_scan(f, t, i, acc, warns)->Ok_0.2
            < t.len(),
    decreases t.len() - i,
{
    if i < t.len() && t[i as int] != '"' {
        if t[i as int] == '\\' {
            if i + 1 < t.len() {
                match escape_of(t[i + 1int]) {
                    Some(c) => lemma_string_scan_ends(f, t, i + 2, acc.push(c), warns),
                    None => lemma_string_scan_ends(
                        f,
                        t,
                        i + 2,
                        acc + seq!['\\', t[i + 1int]],
                        warns.push(
                            lex_error(
                                f,
                                t,
                                LexerExceptionType::InvalidEscape,
                                "Discarded escape `"@ + shown_escape(t[i + 1int]) + "`."@,
                                i,
                                i + 1,
                            ),
                        ),
                    ),
                }
            }
        } else {
            lemma_string_scan_ends(f, t, i + 1, acc.push(t[i as int]), warns);
        }
    }
}

/// Each step of the scan moves on and stays in the text; so the scan never
/// takes the branch that `no_progress_error` stands in.
pub proof fn lemma_step_moves(f: Seq<char>, t: Seq<char>, i: nat)
    requires
        i < t.len(),
    ensures
        lex_step(f, t, i) is Next ==> i < lex_step(f, t, i)->Next_2 <= t.len(),
{
    lemma_ends_bounded(t, i, false);
    lemma_ends_bounded(t, i + 1, false);
    lemma_string_scan_ends(f, t, i + 1, seq![], seq![]);
}

proof fn lemma_ends_bounded(t: Seq<char>, i: nat, dot: bool)
    requires
        i <= t.len(),
    ensures
        i <= ident_end(t, i) <= t.len(),
        i <= comment_end(t, i) <= t.len(),
        i <= number_end(t, i, dot) <= t.len(),
    decreases t.len() - i,
{
    if i < t.len() {
        lemma_ends_bounded(t, i + 1, dot);
        lemma_ends_bounded(t, i + 1, dot || t[i as int] == '.');
    }
}

proof fn lemma_add_empty<A>(s: Seq<A>)
    ensures
        s + seq![] == s,
{
    assert(s + seq![] =~= s);
}

/// A run of digits has a value of zero or more.
pub proof fn lemma_decimal_nonneg(s: Seq<char>)
    requires
        forall|k: int| 0 <= k < s.len() ==> is_digit(#[trigger] s[k]) || s[k] == '.',
        !s.contains('.'),
    ensures
        decimal(s) >= 0,
    decreases s.len(),
{
    if s.len() > 0 {
        assert(!s.drop_last().contains('.')) by {
            if s.drop_last().contains('.') {
                let k = choose|k: int| 0 <= k < s.drop_last().len() && s.drop_last()[k] == '.';
                assert(s[k] == '.');
            }
        }
        assert(s.last() != '.') by {
            assert(s[s.len() - 1] == s.last());
        }
        lemma_decimal_nonneg(s.drop_last());
    }
}

} // verus!
