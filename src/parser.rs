use vstd::prelude::*;
use crate::exception::{ParserException, ParserExceptionType, StageExceptionView};
use crate::node::{
    no_headers, Literal, LiteralView, Node, NodeHeaders, NodeKind, NodeType, NodeView, Type,
    TypeView,
};
use crate::position::{void_position, Range, RangeView};
use crate::token::{tokens_view, Token, TokenKind, TokenType, TokenView};

verus! {

/// What a production may do where it stands: `allow_mutable` tells whether
/// `mut` is legal; `allow_assign` is kept for assignment contexts.
#[derive(Clone, Copy, Debug, PartialEq, Eq, Structural)]
pub struct ParserData {
    pub allow_assign: bool,
    pub allow_mutable: bool,
}

impl ParserData {
    pub open spec fn spec_new() -> ParserData {
        ParserData { allow_assign: true, allow_mutable: true }
    }

    pub fn new() -> (r: ParserData)
        ensures
            r == (ParserData { allow_assign: true, allow_mutable: true }),
    {
        ParserData { allow_assign: true, allow_mutable: true }
    }
}

/// A diagnostic of the parser, as a value.
pub type ParseError = StageExceptionView<ParserExceptionType>;

/// Parser diagnostics as values.
pub open spec fn parse_errors_view(s: Seq<ParserException>) -> Seq<ParseError> {
    s.map_values(|e: ParserException| e@)
}

/// What a production yields where it succeeds: its value and the index of
/// the first token after it.
pub type Parsed<V> = Result<(V, nat), ParseError>;

/// The parser's input as a value: the source text that diagnostics quote,
/// and the tokens.
pub struct ParseInput {
    pub script: Seq<char>,
    pub tokens: Seq<TokenView>,
}

pub open spec fn void_range() -> RangeView {
    RangeView { min: void_position(), max: void_position() }
}

/// The kind of token `i`; past the last token, the end of input.
pub open spec fn kind_at(p: ParseInput, i: nat) -> TokenKind {
    if i < p.tokens.len() {
        p.tokens[i as int].kind
    } else {
        TokenKind::Eof
    }
}

/// The span of token `i`; past the last token, the void span.
pub open spec fn range_at(p: ParseInput, i: nat) -> RangeView {
    if i < p.tokens.len() {
        p.tokens[i as int].range
    } else {
        void_range()
    }
}

pub open spec fn is_word(p: ParseInput, i: nat, w: Seq<char>) -> bool {
    kind_at(p, i) == TokenKind::Identifier(w)
}

pub open spec fn parse_error(p: ParseInput, kind: ParserExceptionType, message: Seq<char>, i: nat) -> ParseError {
    StageExceptionView { kind, message, script: p.script, range: range_at(p, i) }
}

pub open spec fn missing(p: ParseInput, i: nat, message: Seq<char>) -> ParseError {
    parse_error(p, ParserExceptionType::MissingToken, message, i)
}

/// Stands in a branch that no parse reaches: each production moves on.
pub open spec fn no_progress(p: ParseInput) -> ParseError {
    missing(p, 0, Seq::empty())
}

pub open spec fn leaf(kind: NodeKind, range: RangeView) -> NodeView {
    NodeView { kind, range, headers: no_headers() }
}

/// The span from the start of `a` to the end of `b`.
pub open spec fn join(a: RangeView, b: RangeView) -> RangeView {
    RangeView { min: a.min, max: b.max }
}

pub open spec fn expected_identifier() -> Seq<char> {
    "Expected Identifier not found."@
}

pub open spec fn literal(p: ParseInput, i: nat) -> Parsed<NodeView> {
    let r = range_at(p, i);
    match kind_at(p, i) {
        TokenKind::Identifier(s) => Ok((leaf(NodeKind::Literal(LiteralView::Name(s)), r), i + 1)),
        TokenKind::Character(c) => Ok((leaf(NodeKind::Literal(LiteralView::Character(c)), r), i + 1)),
        TokenKind::String(s) => Ok((leaf(NodeKind::Literal(LiteralView::String(s)), r), i + 1)),
        TokenKind::Integer(v) => Ok((leaf(NodeKind::Literal(LiteralView::Integer(v)), r), i + 1)),
        TokenKind::Float(s) => Ok((leaf(NodeKind::Literal(LiteralView::Float(s)), r), i + 1)),
        _ => Err(missing(p, i, "Expected Identifier, Character, String, Integer, Float not found."@)),
    }
}

/// `-` Atom | `!` Atom | Literal.
pub open spec fn atom(p: ParseInput, i: nat) -> Parsed<NodeView>
    decreases p.tokens.len() - i, 2nat,
{
    if kind_at(p, i) == TokenKind::Minus || kind_at(p, i) == TokenKind::Bang {
        match atom(p, i + 1) {
            Ok((a, k)) => Ok((
                leaf(
                    if kind_at(p, i) == TokenKind::Minus {
                        NodeKind::OppositeOperation(Box::new(a))
                    } else {
                        NodeKind::InvertOperation(Box::new(a))
                    },
                    join(range_at(p, i), a.range),
                ),
                k,
            )),
            Err(e) => Err(e),
        }
    } else {
        literal(p, i)
    }
}

/// Atom, then its postfix parts.
pub open spec fn term(p: ParseInput, i: nat) -> Parsed<NodeView>
    decreases p.tokens.len() - i, 4nat,
{
    match atom(p, i) {
        Ok((a, k)) => if i < k <= p.tokens.len() {
            term_rest(p, k, a)
        } else {
            Err(no_progress(p))
        },
        Err(e) => Err(e),
    }
}

/// The postfix parts of a term from token `j` on, after `left`. A call ends
/// the term.
pub open spec fn term_rest(p: ParseInput, j: nat, left: NodeView) -> Parsed<NodeView>
    decreases p.tokens.len() - j, 3nat,
{
    let k = kind_at(p, j);
    if k == TokenKind::DoubleColon || k == TokenKind::Period {
        match kind_at(p, j + 1) {
            TokenKind::Identifier(name) => term_rest(
                p,
                j + 2,
                leaf(
                    if k == TokenKind::DoubleColon {
                        NodeKind::ModuleMember(Box::new(left), name)
                    } else {
                        NodeKind::ClassMember(Box::new(left), name)
                    },
                    join(left.range, range_at(p, j + 1)),
                ),
            ),
            _ => Err(missing(p, j + 1, expected_identifier())),
        }
    } else if k == TokenKind::LBracket {
        match expression(p, j + 1) {
            Ok((e, m)) => if j + 1 < m <= p.tokens.len() {
                if kind_at(p, m) == TokenKind::RBracket {
                    term_rest(
                        p,
                        m + 1,
                        leaf(
                            NodeKind::Slice(Box::new(left), Box::new(e)),
                            join(left.range, range_at(p, m)),
                        ),
                    )
                } else {
                    Err(missing(p, m, "Expected `]` not found."@))
                }
            } else {
                Err(no_progress(p))
            },
            Err(e) => Err(e),
        }
    } else if k == TokenKind::LParenthesis {
        if kind_at(p, j + 1) == TokenKind::RParenthesis {
            Ok((
                leaf(NodeKind::Call(Box::new(left), Seq::empty()), join(left.range, range_at(p, j + 1))),
                j + 2,
            ))
        } else {
            match call_args(p, j + 1, Seq::empty()) {
                Ok((args, m)) => Ok((
                    leaf(NodeKind::Call(Box::new(left), args), join(left.range, range_at(p, m))),
                    m + 1,
                )),
                Err(e) => Err(e),
            }
        }
    } else {
        Ok((left, j))
    }
}

/// Call arguments from token `j` on, after `acc`; yields them and the index
/// of the closing parenthesis.
pub open spec fn call_args(p: ParseInput, j: nat, acc: Seq<NodeView>) -> Parsed<Seq<NodeView>>
    decreases p.tokens.len() - j, 9nat,
{
    match expression(p, j) {
        Ok((e, m)) => if j < m <= p.tokens.len() {
            if kind_at(p, m) == TokenKind::Comma {
                call_args(p, m + 1, acc.push(e))
            } else if kind_at(p, m) == TokenKind::RParenthesis {
                Ok((acc.push(e), m))
            } else {
                Err(missing(p, m, "Expected `,`, `)` not found."@))
            }
        } else {
            Err(no_progress(p))
        },
        Err(e) => Err(e),
    }
}

/// Term (`**` Term)*, folded to the left.
pub open spec fn power(p: ParseInput, i: nat) -> Parsed<NodeView>
    decreases p.tokens.len() - i, 5nat,
{
    match term(p, i) {
        Ok((l, k)) => if i < k <= p.tokens.len() {
            power_rest(p, k, l)
        } else {
            Err(no_progress(p))
        },
        Err(e) => Err(e),
    }
}

pub open spec fn power_rest(p: ParseInput, j: nat, left: NodeView) -> Parsed<NodeView>
    decreases p.tokens.len() - j, 4nat,
{
    if kind_at(p, j) == TokenKind::DoubleAstrisk {
        match term(p, j + 1) {
            Ok((r, k)) => if j + 1 < k <= p.tokens.len() {
                power_rest(
                    p,
                    k,
                    leaf(
                        NodeKind::PowerOperation(Box::new(left), Box::new(r)),
                        join(left.range, r.range),
                    ),
                )
            } else {
                Err(no_progress(p))
            },
            Err(e) => Err(e),
        }
    } else {
        Ok((left, j))
    }
}

/// Power ((`*` | `/`) Power)*, folded to the left.
pub open spec fn multiplication(p: ParseInput, i: nat) -> Parsed<NodeView>
    decreases p.tokens.len() - i, 6nat,
{
    match power(p, i) {
        Ok((l, k)) => if i < k <= p.tokens.len() {
            multiplication_rest(p, k, l)
        } else {
            Err(no_progress(p))
        },
        Err(e) => Err(e),
    }
}

pub open spec fn multiplication_rest(p: ParseInput, j: nat, left: NodeView) -> Parsed<NodeView>
    decreases p.tokens.len() - j, 5nat,
{
    let op = kind_at(p, j);
    if op == TokenKind::Astrisk || op == TokenKind::Slash {
        match power(p, j + 1) {
            Ok((r, k)) => if j + 1 < k <= p.tokens.len() {
                multiplication_rest(
                    p,
                    k,
                    leaf(
                        if op == TokenKind::Astrisk {
                            NodeKind::MultiplicationOperation(Box::new(left), Box::new(r))
                        } else {
                            NodeKind::DivisionOperation(Box::new(left), Box::new(r))
                        },
                        join(left.range, r.range),
                    ),
                )
            } else {
                Err(no_progress(p))
            },
            Err(e) => Err(e),
        }
    } else {
        Ok((left, j))
    }
}

/// Multiplication ((`+` | `-`) Multiplication)*, folded to the left.
pub open spec fn addition(p: ParseInput, i: nat) -> Parsed<NodeView>
    decreases p.tokens.len() - i, 7nat,
{
    match multiplication(p, i) {
        Ok((l, k)) => if i < k <= p.tokens.len() {
            addition_rest(p, k, l)
        } else {
            Err(no_progress(p))
        },
        Err(e) => Err(e),
    }
}

pub open spec fn addition_rest(p: ParseInput, j: nat, left: NodeView) -> Parsed<NodeView>
    decreases p.tokens.len() - j, 6nat,
{
    let op = kind_at(p, j);
    if op == TokenKind::Plus || op == TokenKind::Minus {
        match multiplication(p, j + 1) {
            Ok((r, k)) => if j + 1 < k <= p.tokens.len() {
                addition_rest(
                    p,
                    k,
                    leaf(
                        if op == TokenKind::Plus {
                            NodeKind::AdditionOperation(Box::new(left), Box::new(r))
                        } else {
                            NodeKind::SubtractionOperation(Box::new(left), Box::new(r))
                        },
                        join(left.range, r.range),
                    ),
                )
            } else {
                Err(no_progress(p))
            },
            Err(e) => Err(e),
        }
    } else {
        Ok((left, j))
    }
}

pub open spec fn expression(p: ParseInput, i: nat) -> Parsed<NodeView>
    decreases p.tokens.len() - i, 8nat,
{
    addition(p, i)
}

/// Identifier (`::` Identifier)* (`<` Type (`,` Type)* `>`)?
pub open spec fn type_expr(p: ParseInput, i: nat) -> Parsed<NodeView>
    decreases p.tokens.len() - i, 2nat,
{
    match kind_at(p, i) {
        TokenKind::Identifier(name) => type_path(p, i + 1, seq![name], range_at(p, i)),
        _ => Err(missing(p, i, expected_identifier())),
    }
}

/// The rest of a type from token `j` on, after the name parts `parts`, the
/// first of which spans `first`.
pub open spec fn type_path(p: ParseInput, j: nat, parts: Seq<Seq<char>>, first: RangeView) -> Parsed<
    NodeView,
>
    decreases p.tokens.len() - j, 1nat,
{
    if kind_at(p, j) == TokenKind::DoubleColon {
        match kind_at(p, j + 1) {
            TokenKind::Identifier(name) => type_path(p, j + 2, parts.push(name), first),
            _ => Err(missing(p, j + 1, expected_identifier())),
        }
    } else if kind_at(p, j) == TokenKind::LCarat {
        match type_args(p, j + 1, Seq::empty()) {
            Ok((args, m)) => Ok((
                leaf(NodeKind::Type(TypeView::Base(parts), args), join(first, range_at(p, m))),
                m + 1,
            )),
            Err(e) => Err(e),
        }
    } else {
        Ok((
            leaf(
                NodeKind::Type(TypeView::Base(parts), Seq::empty()),
                join(first, range_at(p, (j - 1) as nat)),
            ),
            j,
        ))
    }
}

/// Generic arguments from token `j` on, after `acc`; yields them and the
/// index of the closing `>`.
pub open spec fn type_args(p: ParseInput, j: nat, acc: Seq<NodeView>) -> Parsed<Seq<NodeView>>
    decreases p.tokens.len() - j, 3nat,
{
    match type_expr(p, j) {
        Ok((t, m)) => if j < m <= p.tokens.len() {
            if kind_at(p, m) == TokenKind::Comma {
                type_args(p, m + 1, acc.push(t))
            } else if kind_at(p, m) == TokenKind::RCarat {
                Ok((acc.push(t), m))
            } else {
                Err(missing(p, m, "Expected `,`, `>` not found."@))
            }
        } else {
            Err(no_progress(p))
        },
        Err(e) => Err(e),
    }
}

/// The type node of a binding that names no type.
pub open spec fn inferred_type() -> NodeView {
    leaf(NodeKind::Type(TypeView::Inferred, Seq::empty()), void_range())
}

/// The message for a binding that does not close: it lists what was absent.
pub open spec fn unclosed_binding(has_type: bool, has_value: bool) -> Seq<char> {
    "Expected "@ + (if has_type {
        Seq::empty()
    } else {
        "`:`, "@
    }) + (if has_value {
        Seq::empty()
    } else {
        "`=`, "@
    }) + "`;` not found."@
}

/// The end of a binding from token `q` on: it must close with `;`.
pub open spec fn binding_close(
    p: ParseInput,
    start: RangeView,
    q: nat,
    mutable: bool,
    name: Seq<char>,
    typ: Option<NodeView>,
    value: Option<NodeView>,
) -> Parsed<NodeView> {
    if kind_at(p, q) == TokenKind::Eol {
        Ok((
            leaf(
                NodeKind::InitializeVariable(
                    mutable,
                    name,
                    Box::new(
                        match typ {
                            Some(t) => t,
                            None => inferred_type(),
                        },
                    ),
                    match value {
                        Some(v) => Some(Box::new(v)),
                        None => None,
                    },
                ),
                join(start, range_at(p, q)),
            ),
            q + 1,
        ))
    } else {
        Err(missing(p, q, unclosed_binding(typ is Some, value is Some)))
    }
}

/// The value part of a binding from token `m` on: `=` Expression, which
/// only a mutable binding may leave out.
pub open spec fn binding_value(
    p: ParseInput,
    start: RangeView,
    m: nat,
    mutable: bool,
    name: Seq<char>,
    typ: Option<NodeView>,
) -> Parsed<NodeView> {
    if kind_at(p, m) == TokenKind::Equals {
        match expression(p, m + 1) {
            Ok((e, q)) => binding_close(p, start, q, mutable, name, typ, Some(e)),
            Err(e) => Err(e),
        }
    } else if !mutable {
        Err(
            parse_error(
                p,
                ParserExceptionType::InvalidMutability,
                "Immutable name requires a value."@,
                m,
            ),
        )
    } else {
        binding_close(p, start, m, mutable, name, typ, None)
    }
}

/// A binding from token `k` on, after its name: (`:` Type)? then its value.
pub open spec fn binding_rest(
    p: ParseInput,
    start: RangeView,
    k: nat,
    mutable: bool,
    name: Seq<char>,
) -> Parsed<NodeView> {
    if kind_at(p, k) == TokenKind::Colon {
        match type_expr(p, k + 1) {
            Ok((t, m)) => binding_value(p, start, m, mutable, name, Some(t)),
            Err(e) => Err(e),
        }
    } else {
        binding_value(p, start, k, mutable, name, None)
    }
}

/// `let` (`mut`)? Identifier (`:` Type)? (`=` Expression)? `;`, with `let`
/// at token `i`.
pub open spec fn binding(p: ParseInput, i: nat, data: ParserData) -> Parsed<NodeView> {
    let start = range_at(p, i);
    match kind_at(p, i + 1) {
        TokenKind::Identifier(w) => if w == "mut"@ {
            if data.allow_mutable {
                match kind_at(p, i + 2) {
                    TokenKind::Identifier(name) => binding_rest(p, start, i + 3, true, name),
                    _ => Err(missing(p, i + 2, expected_identifier())),
                }
            } else {
                Err(
                    parse_error(
                        p,
                        ParserExceptionType::InvalidMutability,
                        "Mutable name not allowed in this position."@,
                        i + 1,
                    ),
                )
            }
        } else {
            binding_rest(p, start, i + 2, false, w)
        },
        _ => Err(missing(p, i + 1, expected_identifier())),
    }
}

/// `#` `[` Identifier `]` at token `i`: the name and its span.
pub open spec fn header(p: ParseInput, i: nat) -> Parsed<(Seq<char>, RangeView)> {
    if kind_at(p, i) != TokenKind::Hash {
        Err(missing(p, i, "Expected `#` not found."@))
    } else if kind_at(p, i + 1) != TokenKind::LBracket {
        Err(missing(p, i + 1, "Expected `[` not found."@))
    } else {
        match kind_at(p, i + 2) {
            TokenKind::Identifier(name) => if kind_at(p, i + 3) != TokenKind::RBracket {
                Err(missing(p, i + 3, "Expected `]` not found."@))
            } else {
                Ok(((name, range_at(p, i + 2)), i + 4))
            },
            _ => Err(missing(p, i + 2, expected_identifier())),
        }
    }
}

/// The headers from token `i` on, after `acc`.
pub open spec fn headers(p: ParseInput, i: nat, acc: Seq<(Seq<char>, RangeView)>) -> Parsed<
    Seq<(Seq<char>, RangeView)>,
>
    decreases p.tokens.len() - i,
{
    if kind_at(p, i) == TokenKind::Hash {
        match header(p, i) {
            Ok((h, k)) => if i < k <= p.tokens.len() {
                headers(p, k, acc.push(h))
            } else {
                Err(no_progress(p))
            },
            Err(e) => Err(e),
        }
    } else {
        Ok((acc, i))
    }
}

/// The flags that header names set; unknown names set none.
pub open spec fn headers_of(hs: Seq<(Seq<char>, RangeView)>) -> NodeHeaders
    decreases hs.len(),
{
    if hs.len() == 0 {
        no_headers()
    } else {
        let h = headers_of(hs.drop_last());
        let name = hs.last().0;
        if name == "entry"@ {
            NodeHeaders { is_entry: true, ..h }
        } else if name == "static"@ {
            NodeHeaders { is_static: true, ..h }
        } else if name == "public"@ {
            NodeHeaders { is_public: true, ..h }
        } else {
            h
        }
    }
}

pub open spec fn known_header(name: Seq<char>) -> bool {
    name == "entry"@ || name == "static"@ || name == "public"@
}

/// One warning for each unknown header name, in order.
pub open spec fn header_warnings(script: Seq<char>, hs: Seq<(Seq<char>, RangeView)>) -> Seq<
    ParseError,
>
    decreases hs.len(),
{
    if hs.len() == 0 {
        Seq::empty()
    } else {
        let rest = header_warnings(script, hs.drop_last());
        let (name, range) = hs.last();
        if known_header(name) {
            rest
        } else {
            rest.push(
                StageExceptionView {
                    kind: ParserExceptionType::InvalidHeader,
                    message: "Invalid header `"@ + name + "`."@,
                    script,
                    range,
                },
            )
        }
    }
}

/// Parameters from token `j` on, after `acc`: Identifier `:` Type, split by
/// `,`; yields them and the index of the closing parenthesis.
pub open spec fn params(p: ParseInput, j: nat, acc: Seq<(Seq<char>, NodeView)>) -> Parsed<
    Seq<(Seq<char>, NodeView)>,
>
    decreases p.tokens.len() - j,
{
    match kind_at(p, j) {
        TokenKind::Identifier(name) => if kind_at(p, j + 1) != TokenKind::Colon {
            Err(missing(p, j + 1, "Expected `:` not found."@))
        } else {
            match type_expr(p, j + 2) {
                Ok((t, m)) => if j < m <= p.tokens.len() {
                    if kind_at(p, m) == TokenKind::Comma {
                        params(p, m + 1, acc.push((name, t)))
                    } else if kind_at(p, m) == TokenKind::RParenthesis {
                        Ok((acc.push((name, t)), m))
                    } else {
                        Err(missing(p, m, "Expected `,`, `)` not found."@))
                    }
                } else {
                    Err(no_progress(p))
                },
                Err(e) => Err(e),
            }
        },
        _ => Err(missing(p, j, expected_identifier())),
    }
}

/// The mode of a function body: `mut` is legal there.
pub open spec fn body_data() -> ParserData {
    ParserData { allow_assign: true, allow_mutable: true }
}

/// Body statements from token `j` on, after `acc`; yields them and the index
/// of the closing brace.
pub open spec fn body(p: ParseInput, j: nat, acc: Seq<NodeView>) -> Parsed<Seq<NodeView>>
    decreases p.tokens.len() - j, 9nat,
{
    if kind_at(p, j) == TokenKind::RBrace {
        Ok((acc, j))
    } else if is_word(p, j, "let"@) {
        match binding(p, j, body_data()) {
            Ok((b, k)) => if j < k <= p.tokens.len() {
                body(p, k, acc.push(b))
            } else {
                Err(no_progress(p))
            },
            Err(e) => Err(e),
        }
    } else {
        match expression(p, j) {
            Ok((e, k)) => if j < k <= p.tokens.len() {
                if kind_at(p, k) == TokenKind::Eol {
                    body(p, k + 1, acc.push(e))
                } else {
                    Err(missing(p, k, "Expected `;` not found."@))
                }
            } else {
                Err(no_progress(p))
            },
            Err(e) => Err(e),
        }
    }
}

/// The signature and body of a function whose parameters close at token
/// `r`; `func` is at token `i`.
pub open spec fn function_tail(
    p: ParseInput,
    i: nat,
    name: Seq<char>,
    args: Seq<(Seq<char>, NodeView)>,
    r: nat,
) -> Parsed<NodeView> {
    if kind_at(p, r + 1) != TokenKind::Colon {
        Err(missing(p, r + 1, "Expected `:` not found."@))
    } else {
        match type_expr(p, r + 2) {
            Ok((ret, k)) => if kind_at(p, k) != TokenKind::LBrace {
                Err(missing(p, k, "Expected `{` not found."@))
            } else {
                match body(p, k + 1, Seq::empty()) {
                    Ok((stmts, e)) => Ok((
                        leaf(
                            NodeKind::DefineFunction(name, args, Box::new(ret), stmts),
                            join(range_at(p, i), range_at(p, e)),
                        ),
                        e + 1,
                    )),
                    Err(err) => Err(err),
                }
            },
            Err(e) => Err(e),
        }
    }
}

/// `func` Identifier `(` parameters `)` `:` Type `{` body `}`, with `func` at
/// token `i`.
pub open spec fn function(p: ParseInput, i: nat) -> Parsed<NodeView> {
    match kind_at(p, i + 1) {
        TokenKind::Identifier(name) => if kind_at(p, i + 2) != TokenKind::LParenthesis {
            Err(missing(p, i + 2, "Expected `(` not found."@))
        } else if kind_at(p, i + 3) == TokenKind::RParenthesis {
            function_tail(p, i, name, Seq::empty(), i + 3)
        } else {
            match params(p, i + 3, Seq::empty()) {
                Ok((args, r)) => function_tail(p, i, name, args, r),
                Err(e) => Err(e),
            }
        },
        _ => Err(missing(p, i + 1, expected_identifier())),
    }
}

/// A statement at token `i`, with the warnings it raised.
pub open spec fn statement(p: ParseInput, i: nat, data: ParserData) -> Parsed<
    (NodeView, Seq<ParseError>),
> {
    if is_word(p, i, "let"@) {
        match binding(p, i, ParserData { allow_mutable: false, ..data }) {
            Ok((b, k)) => Ok(((b, Seq::empty()), k)),
            Err(e) => Err(e),
        }
    } else {
        match headers(p, i, Seq::empty()) {
            Ok((hs, k)) => if is_word(p, k, "func"@) {
                match function(p, k) {
                    Ok((f, e)) => Ok(
                        ((NodeView { headers: headers_of(hs), ..f }, header_warnings(p.script, hs)), e),
                    ),
                    Err(err) => Err(err),
                }
            } else {
                Err(
                    missing(
                        p,
                        k,
                        if hs.len() > 0 {
                            "Expected `#`, `func` not found."@
                        } else {
                            "Expected `let`, `#`, `func` not found."@
                        },
                    ),
                )
            },
            Err(e) => Err(e),
        }
    }
}

/// An import (`extern` or `use` Identifier) or a statement, at token `i`.
pub open spec fn global(p: ParseInput, i: nat) -> Parsed<(NodeView, Seq<ParseError>)> {
    if is_word(p, i, "extern"@) || is_word(p, i, "use"@) {
        match kind_at(p, i + 1) {
            TokenKind::Identifier(name) => Ok((
                (
                    leaf(
                        if is_word(p, i, "extern"@) {
                            NodeKind::ExternalImport(name)
                        } else {
                            NodeKind::LocalImport(name)
                        },
                        join(range_at(p, i), range_at(p, i + 1)),
                    ),
                    Seq::empty(),
                ),
                i + 2,
            )),
            _ => Err(missing(p, i + 1, expected_identifier())),
        }
    } else {
        statement(p, i, ParserData { allow_assign: true, allow_mutable: true })
    }
}

/// The program from token `i` on, after `nodes` and `warns`: statements
/// with `;` between them skipped, up to the end of input.
pub open spec fn program(
    p: ParseInput,
    i: nat,
    nodes: Seq<NodeView>,
    warns: Seq<ParseError>,
) -> Result<(Seq<NodeView>, Seq<ParseError>), ParseError>
    decreases p.tokens.len() - i,
{
    if i >= p.tokens.len() || kind_at(p, i) == TokenKind::Eof {
        Ok((nodes, warns))
    } else if kind_at(p, i) == TokenKind::Eol {
        program(p, i + 1, nodes, warns)
    } else {
        match global(p, i) {
            Ok(((n, ws), k)) => if i < k <= p.tokens.len() {
                program(p, k, nodes.push(n), warns + ws)
            } else {
                Err(no_progress(p))
            },
            Err(e) => Err(e),
        }
    }
}

/// The top-level nodes of `tokens`, with the warnings raised; or the error
/// that stopped the parse.
#[verifier::opaque]
pub open spec fn parse(script: Seq<char>, tokens: Seq<TokenView>) -> Result<
    (Seq<NodeView>, Seq<ParseError>),
    ParseError,
> {
    program(ParseInput { script, tokens }, 0, Seq::empty(), Seq::empty())
}

/// The parser over one token sequence. Each production reads from a token
/// index and yields what it built and the index after it.
pub struct Parser {
    script: String,
    tokens: Vec<Token>,
    void: Token,
}

/// `r` is what the production described by `s` yields.
pub open spec fn node_result(r: Result<(Node, usize), ParserException>, s: Parsed<NodeView>) -> bool {
    match s {
        Ok((v, k)) => r is Ok && r->Ok_0.0.view() == v && r->Ok_0.1 == k,
        Err(e) => r is Err && r->Err_0@ == e,
    }
}

pub open spec fn nodes_result(
    r: Result<(Vec<Node>, usize), ParserException>,
    s: Parsed<Seq<NodeView>>,
) -> bool {
    match s {
        Ok((v, k)) => r is Ok && crate::node::nodes_view(r->Ok_0.0@) == v && r->Ok_0.1 == k,
        Err(e) => r is Err && r->Err_0@ == e,
    }
}

/// `r` moved on from `i`, and stays in the tokens.
pub open spec fn moved<T>(r: Result<(T, usize), ParserException>, i: nat, len: nat) -> bool {
    r is Ok ==> i < r->Ok_0.1 <= len
}

impl Parser {
    pub closed spec fn input(&self) -> ParseInput {
        ParseInput { script: self.script@, tokens: tokens_view(self.tokens@) }
    }

    pub closed spec fn len(&self) -> nat {
        self.tokens.len() as nat
    }

    pub closed spec fn wf(&self) -> bool {
        self.void@ == (TokenView { kind: TokenKind::Eof, range: void_range() })
    }

    fn token(&self, i: usize) -> (r: &Token)
        requires
            self.wf(),
        ensures
            r@.kind == kind_at(self.input(), i as nat),
            r@.range == range_at(self.input(), i as nat),
            r@.kind != TokenKind::Eof ==> i < self.tokens.len(),
            self.input().tokens.len() == self.tokens.len(),
    {
        if i < self.tokens.len() {
            &self.tokens[i]
        } else {
            &self.void
        }
    }

    fn missing(&self, i: usize, message: &str) -> (r: ParserException)
        requires
            self.wf(),
        ensures
            r@ == missing(self.input(), i as nat, message@),
    {
        let t = self.token(i);
        ParserException::new(
            ParserExceptionType::MissingToken,
            String::from_str(message),
            self.script.clone(),
            t.range.clone(),
        )
    }

    fn start_literal(&self, i: usize) -> (r: Result<(Node, usize), ParserException>)
        requires
            self.wf(),
        ensures
            node_result(r, literal(self.input(), i as nat)),
            moved(r, i as nat, self.len()),
    {
        let t = self.token(i);
        let kind = match &t.token {
            TokenType::Identifier(s) => NodeType::Literal(Literal::Name(s.clone())),
            TokenType::Character(c) => NodeType::Literal(Literal::Character(*c)),
            TokenType::String(s) => NodeType::Literal(Literal::String(s.clone())),
            TokenType::Integer(v) => NodeType::Literal(Literal::Integer(*v)),
            TokenType::Float(s) => NodeType::Literal(Literal::Float(s.clone())),
            _ => {
                return Err(
                    self.missing(i, "Expected Identifier, Character, String, Integer, Float not found."),
                );
            },
        };
        assert(t@.kind != TokenKind::Eof);
        Ok((Node::new(kind, t.range.clone()), i + 1))
    }

    fn start_atom(&self, i: usize) -> (r: Result<(Node, usize), ParserException>)
        requires
            self.wf(),
        ensures
            node_result(r, atom(self.input(), i as nat)),
            moved(r, i as nat, self.len()),
        decreases self.tokens.len() - i, 2nat,
    {
        let t = self.token(i);
        let minus = matches!(t.token, TokenType::Minus);
        let bang = matches!(t.token, TokenType::Bang);
        if minus || bang {
            match self.start_atom(i + 1) {
                Ok((a, k)) => {
                    let range = Range::new(t.range.min.clone(), a.range.max.clone());
                    let kind = if minus {
                        NodeType::OppositeOperation(Box::new(a))
                    } else {
                        NodeType::InvertOperation(Box::new(a))
                    };
                    Ok((Node::new(kind, range), k))
                },
                Err(e) => Err(e),
            }
        } else {
            self.start_literal(i)
        }
    }

    fn start_term(&self, i: usize) -> (r: Result<(Node, usize), ParserException>)
        requires
            self.wf(),
        ensures
            node_result(r, term(self.input(), i as nat)),
            moved(r, i as nat, self.len()),
        decreases self.tokens.len() - i, 4nat,
    {
        let ghost p = self.input();
        let (mut left, mut j) = match self.start_atom(i) {
            Ok(x) => x,
            Err(e) => {
                return Err(e);
            },
        };
        loop
            invariant
                self.wf(),
                p == self.input(),
                i < j <= self.tokens.len(),
                term_rest(p, j as nat, left.view()) == term(p, i as nat),
            decreases self.tokens.len() - j,
        {
            let t = self.token(j);
            match &t.token {
                TokenType::DoubleColon | TokenType::Period => {
                    let module = matches!(t.token, TokenType::DoubleColon);
                    let n = self.token(j + 1);
                    match &n.token {
                        TokenType::Identifier(name) => {
                            let range = Range::new(left.range.min.clone(), n.range.max.clone());
                            let kind = if module {
                                NodeType::ModuleMember(Box::new(left), name.clone())
                            } else {
                                NodeType::ClassMember(Box::new(left), name.clone())
                            };
                            assert(n@.kind != TokenKind::Eof);
                            left = Node::new(kind, range);
                            j = j + 2;
                        },
                        _ => {
                            return Err(self.missing(j + 1, "Expected Identifier not found."));
                        },
                    }
                },
                TokenType::LBracket => {
                    match self.start_expression(j + 1) {
                        Ok((e, m)) => {
                            let close = self.token(m);
                            if matches!(close.token, TokenType::RBracket) {
                                let range = Range::new(left.range.min.clone(), close.range.max.clone());
                                left = Node::new(NodeType::Slice(Box::new(left), Box::new(e)), range);
                                assert(close@.kind != TokenKind::Eof);
                                j = m + 1;
                            } else {
                                return Err(self.missing(m, "Expected `]` not found."));
                            }
                        },
                        Err(e) => {
                            return Err(e);
                        },
                    }
                },
                TokenType::LParenthesis => {
                    let close = self.token(j + 1);
                    if matches!(close.token, TokenType::RParenthesis) {
                        let range = Range::new(left.range.min.clone(), close.range.max.clone());
                        let args: Vec<Node> = Vec::new();
                        assert(crate::node::nodes_view(args@) =~= Seq::empty());
                        assert(close@.kind != TokenKind::Eof);
                        return Ok((Node::new(NodeType::Call(Box::new(left), args), range), j + 2));
                    }
                    match self.start_call_arguments(j + 1) {
                        Ok((args, m)) => {
                            let close = self.token(m);
                            let range = Range::new(left.range.min.clone(), close.range.max.clone());
                            return Ok((Node::new(NodeType::Call(Box::new(left), args), range), m + 1));
                        },
                        Err(e) => {
                            return Err(e);
                        },
                    }
                },
                _ => {
                    return Ok((left, j));
                },
            }
        }
    }

    /// Call arguments from token `j0` on; yields them and the index of the
    /// closing parenthesis.
    fn start_call_arguments(&self, j0: usize) -> (r: Result<(Vec<Node>, usize), ParserException>)
        requires
            self.wf(),
            j0 <= self.tokens.len(),
        ensures
            nodes_result(r, call_args(self.input(), j0 as nat, Seq::empty())),
            r is Ok ==> j0 < r->Ok_0.1 < self.len(),
        decreases self.tokens.len() - j0, 9nat,
    {
        let ghost p = self.input();
        let mut args: Vec<Node> = Vec::new();
        let mut j = j0;
        assert(crate::node::nodes_view(args@) =~= Seq::empty());
        loop
            invariant
                self.wf(),
                p == self.input(),
                j0 <= j <= self.tokens.len(),
                call_args(p, j0 as nat, Seq::empty()) == call_args(
                    p,
                    j as nat,
                    crate::node::nodes_view(args@),
                ),
            decreases self.tokens.len() - j,
        {
            match self.start_expression(j) {
                Ok((e, m)) => {
                    let sep = self.token(m);
                    proof {
                        crate::node::lemma_nodes_view_push(args@, e);
                    }
                    if matches!(sep.token, TokenType::Comma) {
                        args.push(e);
                        j = m + 1;
                    } else if matches!(sep.token, TokenType::RParenthesis) {
                        args.push(e);
                        return Ok((args, m));
                    } else {
                        return Err(self.missing(m, "Expected `,`, `)` not found."));
                    }
                },
                Err(e) => {
                    return Err(e);
                },
            }
        }
    }

    fn start_expression_power(&self, i: usize) -> (r: Result<(Node, usize), ParserException>)
        requires
            self.wf(),
        ensures
            node_result(r, power(self.input(), i as nat)),
            moved(r, i as nat, self.len()),
        decreases self.tokens.len() - i, 5nat,
    {
        let ghost p = self.input();
        let (mut left, mut j) = match self.start_term(i) {
            Ok(x) => x,
            Err(e) => {
                return Err(e);
            },
        };
        while matches!(self.token(j).token, TokenType::DoubleAstrisk)
            invariant
                self.wf(),
                p == self.input(),
                i < j <= self.tokens.len(),
                power_rest(p, j as nat, left.view()) == power(p, i as nat),
            decreases self.tokens.len() - j,
        {
            match self.start_term(j + 1) {
                Ok((right, k)) => {
                    let range = Range::new(left.range.min.clone(), right.range.max.clone());
                    left = Node::new(NodeType::PowerOperation(Box::new(left), Box::new(right)), range);
                    j = k;
                },
                Err(e) => {
                    return Err(e);
                },
            }
        }
        Ok((left, j))
    }

    #[verifier::rlimit(30)]
    fn start_expression_multiplication(&self, i: usize) -> (r: Result<(Node, usize), ParserException>)
        requires
            self.wf(),
        ensures
            node_result(r, multiplication(self.input(), i as nat)),
            moved(r, i as nat, self.len()),
        decreases self.tokens.len() - i, 6nat,
    {
        let ghost p = self.input();
        let (mut left, mut j) = match self.start_expression_power(i) {
            Ok(x) => x,
            Err(e) => {
                return Err(e);
            },
        };
        loop
            invariant
                self.wf(),
                p == self.input(),
                i < j <= self.tokens.len(),
                multiplication_rest(p, j as nat, left.view()) == multiplication(p, i as nat),
            decreases self.tokens.len() - j,
        {
            let times = matches!(self.token(j).token, TokenType::Astrisk);
            if !times && !matches!(self.token(j).token, TokenType::Slash) {
                return Ok((left, j));
            }
            let ghost lv = left.view();
            match self.start_expression_power(j + 1) {
                Ok((right, k)) => {
                    let range = Range::new(left.range.min.clone(), right.range.max.clone());
                    assert(multiplication_rest(p, j as nat, lv) == multiplication_rest(
                        p,
                        k as nat,
                        leaf(
                            if times {
                                NodeKind::MultiplicationOperation(Box::new(lv), Box::new(right.view()))
                            } else {
                                NodeKind::DivisionOperation(Box::new(lv), Box::new(right.view()))
                            },
                            join(lv.range, right.view().range),
                        ),
                    ));
                    let kind = if times {
                        NodeType::MultiplicationOperation(Box::new(left), Box::new(right))
                    } else {
                        NodeType::DivisionOperation(Box::new(left), Box::new(right))
                    };
                    left = Node::new(kind, range);
                    j = k;
                },
                Err(e) => {
                    return Err(e);
                },
            }
        }
    }

    #[verifier::rlimit(30)]
    fn start_expression_addition(&self, i: usize) -> (r: Result<(Node, usize), ParserException>)
        requires
            self.wf(),
        ensures
            node_result(r, addition(self.input(), i as nat)),
            moved(r, i as nat, self.len()),
        decreases self.tokens.len() - i, 7nat,
    {
        let ghost p = self.input();
        let (mut left, mut j) = match self.start_expression_multiplication(i) {
            Ok(x) => x,
            Err(e) => {
                return Err(e);
            },
        };
        loop
            invariant
                self.wf(),
                p == self.input(),
                i < j <= self.tokens.len(),
                addition_rest(p, j as nat, left.view()) == addition(p, i as nat),
            decreases self.tokens.len() - j,
        {
            let plus = matches!(self.token(j).token, TokenType::Plus);
            if !plus && !matches!(self.token(j).token, TokenType::Minus) {
                return Ok((left, j));
            }
            let ghost lv = left.view();
            match self.start_expression_multiplication(j + 1) {
                Ok((right, k)) => {
                    let range = Range::new(left.range.min.clone(), right.range.max.clone());
                    assert(addition_rest(p, j as nat, lv) == addition_rest(
                        p,
                        k as nat,
                        leaf(
                            if plus {
                                NodeKind::AdditionOperation(Box::new(lv), Box::new(right.view()))
                            } else {
                                NodeKind::SubtractionOperation(Box::new(lv), Box::new(right.view()))
                            },
                            join(lv.range, right.view().range),
                        ),
                    ));
                    let kind = if plus {
                        NodeType::AdditionOperation(Box::new(left), Box::new(right))
                    } else {
                        NodeType::SubtractionOperation(Box::new(left), Box::new(right))
                    };
                    left = Node::new(kind, range);
                    j = k;
                },
                Err(e) => {
                    return Err(e);
                },
            }
        }
    }

    fn start_expression(&self, i: usize) -> (r: Result<(Node, usize), ParserException>)
        requires
            self.wf(),
        ensures
            node_result(r, expression(self.input(), i as nat)),
            moved(r, i as nat, self.len()),
        decreases self.tokens.len() - i, 8nat,
    {
        self.start_expression_addition(i)
    }

    fn error(&self, kind: ParserExceptionType, i: usize, message: &str) -> (r: ParserException)
        requires
            self.wf(),
        ensures
            r@ == parse_error(self.input(), kind, message@, i as nat),
    {
        let t = self.token(i);
        ParserException::new(kind, String::from_str(message), self.script.clone(), t.range.clone())
    }

    /// Whether token `i` is the word `w`.
    fn is_word(&self, i: usize, w: &str) -> (r: bool)
        requires
            self.wf(),
        ensures
            r == is_word(self.input(), i as nat, w@),
    {
        match &self.token(i).token {
            TokenType::Identifier(s) => *s == String::from_str(w),
            _ => false,
        }
    }

    fn start_type(&self, i: usize) -> (r: Result<(Node, usize), ParserException>)
        requires
            self.wf(),
        ensures
            node_result(r, type_expr(self.input(), i as nat)),
            moved(r, i as nat, self.len()),
        decreases self.tokens.len() - i, 2nat,
    {
        let ghost p = self.input();
        let first = self.token(i);
        let mut parts: Vec<String> = Vec::new();
        match &first.token {
            TokenType::Identifier(s) => {
                parts.push(s.clone());
                assert(parts@.map_values(|x: String| x@) =~= seq![s@]);
            },
            _ => {
                return Err(self.missing(i, "Expected Identifier not found."));
            },
        }
        assert(first@.kind != TokenKind::Eof);
        let mut j = i + 1;
        loop
            invariant
                self.wf(),
                p == self.input(),
                i < j <= self.tokens.len(),
                first@.range == range_at(p, i as nat),
                type_path(p, j as nat, parts@.map_values(|x: String| x@), first@.range) == type_expr(
                    p,
                    i as nat,
                ),
            decreases self.tokens.len() - j,
        {
            let t = self.token(j);
            if matches!(t.token, TokenType::DoubleColon) {
                let n = self.token(j + 1);
                match &n.token {
                    TokenType::Identifier(name) => {
                        let ghost before = parts@;
                        parts.push(name.clone());
                        assert(parts@.map_values(|x: String| x@) =~= before.map_values(|x: String| x@).push(name@));
                        assert(n@.kind != TokenKind::Eof);
                        j = j + 2;
                    },
                    _ => {
                        return Err(self.missing(j + 1, "Expected Identifier not found."));
                    },
                }
            } else if matches!(t.token, TokenType::LCarat) {
                match self.start_type_arguments(j + 1) {
                    Ok((args, m)) => {
                        let range = Range::new(first.range.min.clone(), self.token(m).range.max.clone());
                        return Ok((Node::new(NodeType::Type(Type::Base(parts), args), range), m + 1));
                    },
                    Err(e) => {
                        return Err(e);
                    },
                }
            } else {
                let range = Range::new(first.range.min.clone(), self.token(j - 1).range.max.clone());
                let args: Vec<Node> = Vec::new();
                assert(crate::node::nodes_view(args@) =~= Seq::empty());
                return Ok((Node::new(NodeType::Type(Type::Base(parts), args), range), j));
            }
        }
    }

    /// Generic arguments from token `j0` on; yields them and the index of the
    /// closing `>`.
    fn start_type_arguments(&self, j0: usize) -> (r: Result<(Vec<Node>, usize), ParserException>)
        requires
            self.wf(),
            j0 <= self.tokens.len(),
        ensures
            nodes_result(r, type_args(self.input(), j0 as nat, Seq::empty())),
            r is Ok ==> j0 < r->Ok_0.1 < self.len(),
        decreases self.tokens.len() - j0, 3nat,
    {
        let ghost p = self.input();
        let mut args: Vec<Node> = Vec::new();
        let mut j = j0;
        assert(crate::node::nodes_view(args@) =~= Seq::empty());
        loop
            invariant
                self.wf(),
                p == self.input(),
                j0 <= j <= self.tokens.len(),
                type_args(p, j0 as nat, Seq::empty()) == type_args(
                    p,
                    j as nat,
                    crate::node::nodes_view(args@),
                ),
            decreases self.tokens.len() - j,
        {
            match self.start_type(j) {
                Ok((t, m)) => {
                    let sep = self.token(m);
                    proof {
                        crate::node::lemma_nodes_view_push(args@, t);
                    }
                    if matches!(sep.token, TokenType::Comma) {
                        args.push(t);
                        j = m + 1;
                    } else if matches!(sep.token, TokenType::RCarat) {
                        args.push(t);
                        return Ok((args, m));
                    } else {
                        return Err(self.missing(m, "Expected `,`, `>` not found."));
                    }
                },
                Err(e) => {
                    return Err(e);
                },
            }
        }
    }

    /// A binding with `let` at token `i`.
    fn start_initialize_variable(&self, i: usize, data: ParserData) -> (r: Result<(Node, usize), ParserException>)
        requires
            self.wf(),
            i < self.tokens.len(),
        ensures
            node_result(r, binding(self.input(), i as nat, data)),
            moved(r, i as nat, self.len()),
    {
        let start = self.token(i).range.clone();
        let t1 = self.token(i + 1);
        match &t1.token {
            TokenType::Identifier(w) => {
                assert(t1@.kind != TokenKind::Eof);
                if *w == String::from_str("mut") {
                    if data.allow_mutable {
                        let t2 = self.token(i + 2);
                        match &t2.token {
                            TokenType::Identifier(n) => {
                                assert(t2@.kind != TokenKind::Eof);
                                self.start_binding_rest(start, i + 3, true, n.clone())
                            },
                            _ => Err(self.missing(i + 2, "Expected Identifier not found.")),
                        }
                    } else {
                        Err(
                            self.error(
                                ParserExceptionType::InvalidMutability,
                                i + 1,
                                "Mutable name not allowed in this position.",
                            ),
                        )
                    }
                } else {
                    self.start_binding_rest(start, i + 2, false, w.clone())
                }
            },
            _ => Err(self.missing(i + 1, "Expected Identifier not found.")),
        }
    }

    fn start_binding_rest(&self, start: Range, k: usize, mutable: bool, name: String) -> (r: Result<
        (Node, usize),
        ParserException,
    >)
        requires
            self.wf(),
            k <= self.tokens.len(),
        ensures
            node_result(r, binding_rest(self.input(), start@, k as nat, mutable, name@)),
            r is Ok ==> k < r->Ok_0.1 <= self.len(),
    {
        if matches!(self.token(k).token, TokenType::Colon) {
            match self.start_type(k + 1) {
                Ok((t, m)) => self.start_binding_value(start, m, mutable, name, Some(t)),
                Err(e) => Err(e),
            }
        } else {
            self.start_binding_value(start, k, mutable, name, None)
        }
    }

    fn start_binding_value(
        &self,
        start: Range,
        m: usize,
        mutable: bool,
        name: String,
        typ: Option<Node>,
    ) -> (r: Result<(Node, usize), ParserException>)
        requires
            self.wf(),
            m <= self.tokens.len(),
        ensures
            node_result(r, binding_value(self.input(), start@, m as nat, mutable, name@, opt_view(typ))),
            r is Ok ==> m < r->Ok_0.1 <= self.len(),
    {
        if matches!(self.token(m).token, TokenType::Equals) {
            match self.start_expression(m + 1) {
                Ok((e, q)) => self.start_binding_close(start, q, mutable, name, typ, Some(e)),
                Err(e) => Err(e),
            }
        } else if !mutable {
            Err(self.error(ParserExceptionType::InvalidMutability, m, "Immutable name requires a value."))
        } else {
            self.start_binding_close(start, m, mutable, name, typ, None)
        }
    }

    fn start_binding_close(
        &self,
        start: Range,
        q: usize,
        mutable: bool,
        name: String,
        typ: Option<Node>,
        value: Option<Node>,
    ) -> (r: Result<(Node, usize), ParserException>)
        requires
            self.wf(),
        ensures
            node_result(
                r,
                binding_close(self.input(), start@, q as nat, mutable, name@, opt_view(typ), opt_view(value)),
            ),
            r is Ok ==> q < r->Ok_0.1 <= self.len(),
    {
        let close = self.token(q);
        if !matches!(close.token, TokenType::Eol) {
            let mut message = String::from_str("Expected ");
            if typ.is_none() {
                message.append("`:`, ");
            }
            if value.is_none() {
                message.append("`=`, ");
            }
            message.append("`;` not found.");
            assert(message@ =~= unclosed_binding(typ is Some, value is Some));
            return Err(
                ParserException::new(
                    ParserExceptionType::MissingToken,
                    message,
                    self.script.clone(),
                    close.range.clone(),
                ),
            );
        }
        assert(close@.kind != TokenKind::Eof);
        let typ_node = match typ {
            Some(t) => t,
            None => {
                let none: Vec<Node> = Vec::new();
                assert(crate::node::nodes_view(none@) =~= Seq::empty());
                Node::new(NodeType::Type(Type::Inferred, none), Range::new_void())
            },
        };
        let boxed = match value {
            Some(v) => Some(Box::new(v)),
            None => None,
        };
        let range = Range::new(start.min, close.range.max.clone());
        Ok((Node::new(NodeType::InitializeVariable(mutable, name, Box::new(typ_node), boxed), range), q + 1))
    }

    /// A header at token `i`: its name and the name's span.
    fn start_statement_header(&self, i: usize) -> (r: Result<((String, Range), usize), ParserException>)
        requires
            self.wf(),
        ensures
            match header(self.input(), i as nat) {
                Ok((h, k)) => r is Ok && r->Ok_0.0.0@ == h.0 && r->Ok_0.0.1@ == h.1 && r->Ok_0.1 == k,
                Err(e) => r is Err && r->Err_0@ == e,
            },
            moved(r, i as nat, self.len()),
    {
        if !matches!(self.token(i).token, TokenType::Hash) {
            return Err(self.missing(i, "Expected `#` not found."));
        }
        if !matches!(self.token(i + 1).token, TokenType::LBracket) {
            return Err(self.missing(i + 1, "Expected `[` not found."));
        }
        let n = self.token(i + 2);
        let name = match &n.token {
            TokenType::Identifier(s) => s.clone(),
            _ => {
                return Err(self.missing(i + 2, "Expected Identifier not found."));
            },
        };
        if !matches!(self.token(i + 3).token, TokenType::RBracket) {
            return Err(self.missing(i + 3, "Expected `]` not found."));
        }
        Ok(((name, n.range.clone()), i + 4))
    }

    /// The headers from token `i0` on.
    fn start_headers(&self, i0: usize) -> (r: Result<(Vec<(String, Range)>, usize), ParserException>)
        requires
            self.wf(),
            i0 <= self.tokens.len(),
        ensures
            match headers(self.input(), i0 as nat, Seq::empty()) {
                Ok((hs, k)) => r is Ok && header_list(r->Ok_0.0@) == hs && r->Ok_0.1 == k,
                Err(e) => r is Err && r->Err_0@ == e,
            },
            r is Ok ==> i0 <= r->Ok_0.1 <= self.len(),
    {
        let ghost p = self.input();
        let mut list: Vec<(String, Range)> = Vec::new();
        let mut i = i0;
        assert(header_list(list@) =~= Seq::empty());
        while matches!(self.token(i).token, TokenType::Hash)
            invariant
                self.wf(),
                p == self.input(),
                i0 <= i <= self.tokens.len(),
                headers(p, i0 as nat, Seq::empty()) == headers(p, i as nat, header_list(list@)),
            decreases self.tokens.len() - i,
        {
            match self.start_statement_header(i) {
                Ok((h, k)) => {
                    let ghost before = list@;
                    list.push(h);
                    assert(header_list(list@) =~= header_list(before).push((h.0@, h.1@)));
                    i = k;
                },
                Err(e) => {
                    return Err(e);
                },
            }
        }
        Ok((list, i))
    }

    /// Parameters from token `j0` on; yields them and the index of the
    /// closing parenthesis.
    fn start_parameters(&self, j0: usize) -> (r: Result<(Vec<(String, Node)>, usize), ParserException>)
        requires
            self.wf(),
            j0 <= self.tokens.len(),
        ensures
            match params(self.input(), j0 as nat, Seq::empty()) {
                Ok((v, k)) => r is Ok && crate::node::args_view(r->Ok_0.0@) == v && r->Ok_0.1 == k,
                Err(e) => r is Err && r->Err_0@ == e,
            },
            r is Ok ==> j0 < r->Ok_0.1 < self.len(),
    {
        let ghost p = self.input();
        let mut args: Vec<(String, Node)> = Vec::new();
        let mut j = j0;
        assert(crate::node::args_view(args@) =~= Seq::empty());
        loop
            invariant
                self.wf(),
                p == self.input(),
                j0 <= j <= self.tokens.len(),
                params(p, j0 as nat, Seq::empty()) == params(p, j as nat, crate::node::args_view(args@)),
            decreases self.tokens.len() - j,
        {
            let t = self.token(j);
            let name = match &t.token {
                TokenType::Identifier(s) => s.clone(),
                _ => {
                    return Err(self.missing(j, "Expected Identifier not found."));
                },
            };
            assert(t@.kind != TokenKind::Eof);
            if !matches!(self.token(j + 1).token, TokenType::Colon) {
                return Err(self.missing(j + 1, "Expected `:` not found."));
            }
            match self.start_type(j + 2) {
                Ok((typ, m)) => {
                    let sep = self.token(m);
                    proof {
                        crate::node::lemma_args_view_push(args@, (name, typ));
                    }
                    if matches!(sep.token, TokenType::Comma) {
                        args.push((name, typ));
                        j = m + 1;
                    } else if matches!(sep.token, TokenType::RParenthesis) {
                        args.push((name, typ));
                        return Ok((args, m));
                    } else {
                        return Err(self.missing(m, "Expected `,`, `)` not found."));
                    }
                },
                Err(e) => {
                    return Err(e);
                },
            }
        }
    }

    /// Body statements from token `j0` on; yields them and the index of the
    /// closing brace.
    fn start_body(&self, j0: usize) -> (r: Result<(Vec<Node>, usize), ParserException>)
        requires
            self.wf(),
            j0 <= self.tokens.len(),
        ensures
            nodes_result(r, body(self.input(), j0 as nat, Seq::empty())),
            r is Ok ==> j0 <= r->Ok_0.1 < self.len(),
    {
        let ghost p = self.input();
        let mut stmts: Vec<Node> = Vec::new();
        let mut j = j0;
        assert(crate::node::nodes_view(stmts@) =~= Seq::empty());
        loop
            invariant
                self.wf(),
                p == self.input(),
                j0 <= j <= self.tokens.len(),
                body(p, j0 as nat, Seq::empty()) == body(p, j as nat, crate::node::nodes_view(stmts@)),
            decreases self.tokens.len() - j,
        {
            let t = self.token(j);
            if matches!(t.token, TokenType::RBrace) {
                return Ok((stmts, j));
            }
            if self.is_word(j, "let") {
                match self.start_initialize_variable(j, ParserData::new()) {
                    Ok((b, k)) => {
                        proof {
                            crate::node::lemma_nodes_view_push(stmts@, b);
                        }
                        stmts.push(b);
                        j = k;
                    },
                    Err(e) => {
                        return Err(e);
                    },
                }
            } else {
                match self.start_expression(j) {
                    Ok((e, k)) => {
                        if !matches!(self.token(k).token, TokenType::Eol) {
                            return Err(self.missing(k, "Expected `;` not found."));
                        }
                        proof {
                            crate::node::lemma_nodes_view_push(stmts@, e);
                        }
                        stmts.push(e);
                        j = k + 1;
                    },
                    Err(e) => {
                        return Err(e);
                    },
                }
            }
        }
    }

    /// A function definition with `func` at token `i`.
    fn start_statement_function(&self, i: usize) -> (r: Result<(Node, usize), ParserException>)
        requires
            self.wf(),
            i < self.tokens.len(),
        ensures
            node_result(r, function(self.input(), i as nat)),
            moved(r, i as nat, self.len()),
    {
        let n = self.token(i + 1);
        let name = match &n.token {
            TokenType::Identifier(s) => s.clone(),
            _ => {
                return Err(self.missing(i + 1, "Expected Identifier not found."));
            },
        };
        assert(n@.kind != TokenKind::Eof);
        if !matches!(self.token(i + 2).token, TokenType::LParenthesis) {
            return Err(self.missing(i + 2, "Expected `(` not found."));
        }
        let (args, r) = if matches!(self.token(i + 3).token, TokenType::RParenthesis) {
            let none: Vec<(String, Node)> = Vec::new();
            assert(crate::node::args_view(none@) =~= Seq::empty());
            (none, i + 3)
        } else {
            match self.start_parameters(i + 3) {
                Ok(x) => x,
                Err(e) => {
                    return Err(e);
                },
            }
        };
        assert(function(self.input(), i as nat) == function_tail(
            self.input(),
            i as nat,
            name@,
            crate::node::args_view(args@),
            r as nat,
        ));
        if !matches!(self.token(r + 1).token, TokenType::Colon) {
            return Err(self.missing(r + 1, "Expected `:` not found."));
        }
        let (ret, k) = match self.start_type(r + 2) {
            Ok(x) => x,
            Err(e) => {
                return Err(e);
            },
        };
        if !matches!(self.token(k).token, TokenType::LBrace) {
            return Err(self.missing(k, "Expected `{` not found."));
        }
        let (stmts, e) = match self.start_body(k + 1) {
            Ok(x) => x,
            Err(err) => {
                return Err(err);
            },
        };
        let range = Range::new(self.token(i).range.min.clone(), self.token(e).range.max.clone());
        Ok((Node::new(NodeType::DefineFunction(name, args, Box::new(ret), stmts), range), e + 1))
    }

    /// A statement at token `i`, with the warnings it raised.
    fn start_statement(&self, i: usize, data: ParserData) -> (r: Result<
        ((Node, Vec<ParserException>), usize),
        ParserException,
    >)
        requires
            self.wf(),
            i <= self.tokens.len(),
        ensures
            match statement(self.input(), i as nat, data) {
                Ok(((n, ws), k)) => r is Ok && r->Ok_0.0.0.view() == n && parse_errors_view(r->Ok_0.0.1@)
                    == ws && r->Ok_0.1 == k,
                Err(e) => r is Err && r->Err_0@ == e,
            },
            moved(r, i as nat, self.len()),
    {
        if self.is_word(i, "let") {
            let none: Vec<ParserException> = Vec::new();
            assert(parse_errors_view(none@) =~= Seq::<ParseError>::empty());
            return match self.start_initialize_variable(i, ParserData { allow_mutable: false, ..data }) {
                Ok((b, k)) => Ok(((b, none), k)),
                Err(e) => Err(e),
            };
        }
        let (list, k) = match self.start_headers(i) {
            Ok(x) => x,
            Err(e) => {
                return Err(e);
            },
        };
        if !self.is_word(k, "func") {
            if list.len() > 0 {
                return Err(self.missing(k, "Expected `#`, `func` not found."));
            } else {
                return Err(self.missing(k, "Expected `let`, `#`, `func` not found."));
            }
        }
        let (mut f, e) = match self.start_statement_function(k) {
            Ok(x) => x,
            Err(err) => {
                return Err(err);
            },
        };
        let (h, warnings) = NodeHeaders::from(list, self.script.clone());
        f.headers = h;
        Ok(((f, warnings), e))
    }

    /// An import or a statement at token `i`.
    fn start_statement_global(&self, i: usize, data: ParserData) -> (r: Result<
        ((Node, Vec<ParserException>), usize),
        ParserException,
    >)
        requires
            self.wf(),
            i <= self.tokens.len(),
            data == ParserData::spec_new(),
        ensures
            match global(self.input(), i as nat) {
                Ok(((n, ws), k)) => r is Ok && r->Ok_0.0.0.view() == n && parse_errors_view(r->Ok_0.0.1@)
                    == ws && r->Ok_0.1 == k,
                Err(e) => r is Err && r->Err_0@ == e,
            },
            moved(r, i as nat, self.len()),
    {
        let external = self.is_word(i, "extern");
        if external || self.is_word(i, "use") {
            let n = self.token(i + 1);
            let name = match &n.token {
                TokenType::Identifier(s) => s.clone(),
                _ => {
                    return Err(self.missing(i + 1, "Expected Identifier not found."));
                },
            };
            assert(n@.kind != TokenKind::Eof);
            let range = Range::new(self.token(i).range.min.clone(), n.range.max.clone());
            let kind = if external {
                NodeType::ExternalImport(name)
            } else {
                NodeType::LocalImport(name)
            };
            let none: Vec<ParserException> = Vec::new();
            assert(parse_errors_view(none@) =~= Seq::<ParseError>::empty());
            return Ok(((Node::new(kind, range), none), i + 2));
        }
        self.start_statement(i, data)
    }

    /// Parses `tokens` of source text `script` into its top-level nodes, with
    /// the warnings raised; or the error that stopped the parse.
    pub fn calculate(script: String, tokens: Vec<Token>) -> (r: Result<
        (Vec<Node>, Vec<ParserException>),
        ParserException,
    >)
        ensures
            match parse(script@, tokens_view(tokens@)) {
                Ok((ns, ws)) => r is Ok && crate::node::nodes_view(r->Ok_0.0@) == ns
                    && parse_errors_view(r->Ok_0.1@) == ws,
                Err(e) => r is Err && r->Err_0@ == e,
            },
    {
        reveal(parse);
        let parser = Parser { script, tokens, void: Token::new_void() };
        parser.start()
    }

    /// The program: statements with `;` between them skipped, up to the end
    /// of input.
    fn start(&self) -> (r: Result<(Vec<Node>, Vec<ParserException>), ParserException>)
        requires
            self.wf(),
        ensures
            match program(self.input(), 0, Seq::empty(), Seq::empty()) {
                Ok((ns, ws)) => r is Ok && crate::node::nodes_view(r->Ok_0.0@) == ns
                    && parse_errors_view(r->Ok_0.1@) == ws,
                Err(e) => r is Err && r->Err_0@ == e,
            },
    {
        let ghost p = self.input();
        let mut nodes: Vec<Node> = Vec::new();
        let mut warnings: Vec<ParserException> = Vec::new();
        let mut i: usize = 0;
        assert(crate::node::nodes_view(nodes@) =~= Seq::empty());
        assert(parse_errors_view(warnings@) =~= Seq::<ParseError>::empty());
        loop
            invariant
                self.wf(),
                p == self.input(),
                i <= self.tokens.len(),
                program(p, 0, Seq::empty(), Seq::empty()) == program(
                    p,
                    i as nat,
                    crate::node::nodes_view(nodes@),
                    parse_errors_view(warnings@),
                ),
            decreases self.tokens.len() - i,
        {
            if i >= self.tokens.len() || matches!(self.token(i).token, TokenType::Eof) {
                return Ok((nodes, warnings));
            }
            if matches!(self.token(i).token, TokenType::Eol) {
                i = i + 1;
            } else {
                match self.start_statement_global(i, ParserData::new()) {
                    Ok(((n, mut ws), k)) => {
                        proof {
                            crate::node::lemma_nodes_view_push(nodes@, n);
                        }
                        let ghost before = warnings@;
                        let ghost wsv = parse_errors_view(ws@);
                        nodes.push(n);
                        warnings.append(&mut ws);
                        assert(parse_errors_view(warnings@) =~= parse_errors_view(before) + wsv);
                        i = k;
                    },
                    Err(e) => {
                        return Err(e);
                    },
                }
            }
        }
    }
}

pub open spec fn opt_view(o: Option<Node>) -> Option<NodeView> {
    match o {
        Some(n) => Some(n.view()),
        None => None,
    }
}

/// Header names and spans, as values.
pub open spec fn header_list(v: Seq<(String, Range)>) -> Seq<(Seq<char>, RangeView)> {
    v.map_values(|h: (String, Range)| (h.0@, h.1@))
}

// Each production that succeeds moves past the token it starts at and stays
// within the tokens; so no production takes a branch that `no_progress`
// stands in.

proof fn lemma_atom_moves(p: ParseInput, i: nat)
    ensures
        atom(p, i) is Ok ==> i < atom(p, i)->Ok_0.1 <= p.tokens.len(),
    decreases p.tokens.len() - i, 2nat,
{
    if kind_at(p, i) == TokenKind::Minus || kind_at(p, i) == TokenKind::Bang {
        lemma_atom_moves(p, i + 1);
    }
}

proof fn lemma_term_moves(p: ParseInput, i: nat)
    ensures
        term(p, i) is Ok ==> i < term(p, i)->Ok_0.1 <= p.tokens.len(),
    decreases p.tokens.len() - i, 4nat,
{
    lemma_atom_moves(p, i);
    match atom(p, i) {
        Ok((a, k)) => if i < k <= p.tokens.len() {
            lemma_term_rest_moves(p, k, a);
        },
        Err(_) => {},
    }
}

proof fn lemma_term_rest_moves(p: ParseInput, j: nat, left: NodeView)
    requires
        j <= p.tokens.len(),
    ensures
        term_rest(p, j, left) is Ok ==> j <= term_rest(p, j, left)->Ok_0.1 <= p.tokens.len(),
    decreases p.tokens.len() - j, 3nat,
{
    let k = kind_at(p, j);
    if k == TokenKind::DoubleColon || k == TokenKind::Period {
        match kind_at(p, j + 1) {
            TokenKind::Identifier(name) => lemma_term_rest_moves(
                p,
                j + 2,
                leaf(
                    if k == TokenKind::DoubleColon {
                        NodeKind::ModuleMember(Box::new(left), name)
                    } else {
                        NodeKind::ClassMember(Box::new(left), name)
                    },
                    join(left.range, range_at(p, j + 1)),
                ),
            ),
            _ => {},
        }
    } else if k == TokenKind::LBracket {
        lemma_expression_moves(p, j + 1);
        match expression(p, j + 1) {
            Ok((e, m)) => if j + 1 < m <= p.tokens.len() && kind_at(p, m) == TokenKind::RBracket {
                lemma_term_rest_moves(
                    p,
                    m + 1,
                    leaf(NodeKind::Slice(Box::new(left), Box::new(e)), join(left.range, range_at(p, m))),
                );
            },
            Err(_) => {},
        }
    } else if k == TokenKind::LParenthesis && kind_at(p, j + 1) != TokenKind::RParenthesis {
        lemma_call_args_moves(p, j + 1, Seq::empty());
    }
}

proof fn lemma_call_args_moves(p: ParseInput, j: nat, acc: Seq<NodeView>)
    requires
        j <= p.tokens.len(),
    ensures
        call_args(p, j, acc) is Ok ==> j <= call_args(p, j, acc)->Ok_0.1 < p.tokens.len(),
    decreases p.tokens.len() - j, 9nat,
{
    lemma_expression_moves(p, j);
    match expression(p, j) {
        Ok((e, m)) => if j < m <= p.tokens.len() && kind_at(p, m) == TokenKind::Comma {
            lemma_call_args_moves(p, m + 1, acc.push(e));
        },
        Err(_) => {},
    }
}

proof fn lemma_power_moves(p: ParseInput, i: nat)
    ensures
        power(p, i) is Ok ==> i < power(p, i)->Ok_0.1 <= p.tokens.len(),
    decreases p.tokens.len() - i, 5nat,
{
    lemma_term_moves(p, i);
    match term(p, i) {
        Ok((l, k)) => if i < k <= p.tokens.len() {
            lemma_power_rest_moves(p, k, l);
        },
        Err(_) => {},
    }
}

proof fn lemma_power_rest_moves(p: ParseInput, j: nat, left: NodeView)
    requires
        j <= p.tokens.len(),
    ensures
        power_rest(p, j, left) is Ok ==> j <= power_rest(p, j, left)->Ok_0.1 <= p.tokens.len(),
    decreases p.tokens.len() - j, 4nat,
{
    if kind_at(p, j) == TokenKind::DoubleAstrisk {
        lemma_term_moves(p, j + 1);
        match term(p, j + 1) {
            Ok((r, k)) => if j + 1 < k <= p.tokens.len() {
                lemma_power_rest_moves(
                    p,
                    k,
                    leaf(NodeKind::PowerOperation(Box::new(left), Box::new(r)), join(left.range, r.range)),
                );
            },
            Err(_) => {},
        }
    }
}

proof fn lemma_multiplication_moves(p: ParseInput, i: nat)
    ensures
        multiplication(p, i) is Ok ==> i < multiplication(p, i)->Ok_0.1 <= p.tokens.len(),
    decreases p.tokens.len() - i, 6nat,
{
    lemma_power_moves(p, i);
    match power(p, i) {
        Ok((l, k)) => if i < k <= p.tokens.len() {
            lemma_multiplication_rest_moves(p, k, l);
        },
        Err(_) => {},
    }
}

proof fn lemma_multiplication_rest_moves(p: ParseInput, j: nat, left: NodeView)
    requires
        j <= p.tokens.len(),
    ensures
        multiplication_rest(p, j, left) is Ok ==> j <= multiplication_rest(p, j, left)->Ok_0.1
            <= p.tokens.len(),
    decreases p.tokens.len() - j, 5nat,
{
    let op = kind_at(p, j);
    if op == TokenKind::Astrisk || op == TokenKind::Slash {
        lemma_power_moves(p, j + 1);
        match power(p, j + 1) {
            Ok((r, k)) => if j + 1 < k <= p.tokens.len() {
                lemma_multiplication_rest_moves(
                    p,
                    k,
                    leaf(
                        if op == TokenKind::Astrisk {
                            NodeKind::MultiplicationOperation(Box::new(left), Box::new(r))
                        } else {
                            NodeKind::DivisionOperation(Box::new(left), Box::new(r))
                        },
                        join(left.range, r.range),
                    ),
                );
            },
            Err(_) => {},
        }
    }
}

proof fn lemma_addition_moves(p: ParseInput, i: nat)
    ensures
        addition(p, i) is Ok ==> i < addition(p, i)->Ok_0.1 <= p.tokens.len(),
    decreases p.tokens.len() - i, 7nat,
{
    lemma_multiplication_moves(p, i);
    match multiplication(p, i) {
        Ok((l, k)) => if i < k <= p.tokens.len() {
            lemma_addition_rest_moves(p, k, l);
        },
        Err(_) => {},
    }
}

proof fn lemma_addition_rest_moves(p: ParseInput, j: nat, left: NodeView)
    requires
        j <= p.tokens.len(),
    ensures
        addition_rest(p, j, left) is Ok ==> j <= addition_rest(p, j, left)->Ok_0.1 <= p.tokens.len(),
    decreases p.tokens.len() - j, 6nat,
{
    let op = kind_at(p, j);
    if op == TokenKind::Plus || op == TokenKind::Minus {
        lemma_multiplication_moves(p, j + 1);
        match multiplication(p, j + 1) {
            Ok((r, k)) => if j + 1 < k <= p.tokens.len() {
                lemma_addition_rest_moves(
                    p,
                    k,
                    leaf(
                        if op == TokenKind::Plus {
                            NodeKind::AdditionOperation(Box::new(left), Box::new(r))
                        } else {
                            NodeKind::SubtractionOperation(Box::new(left), Box::new(r))
                        },
                        join(left.range, r.range),
                    ),
                );
            },
            Err(_) => {},
        }
    }
}

proof fn lemma_expression_moves(p: ParseInput, i: nat)
    ensures
        expression(p, i) is Ok ==> i < expression(p, i)->Ok_0.1 <= p.tokens.len(),
    decreases p.tokens.len() - i, 8nat,
{
    lemma_addition_moves(p, i);
}

proof fn lemma_type_moves(p: ParseInput, i: nat)
    ensures
        type_expr(p, i) is Ok ==> i < type_expr(p, i)->Ok_0.1 <= p.tokens.len(),
    decreases p.tokens.len() - i, 2nat,
{
    match kind_at(p, i) {
        TokenKind::Identifier(name) => lemma_type_path_moves(p, i + 1, seq![name], range_at(p, i)),
        _ => {},
    }
}

proof fn lemma_type_path_moves(p: ParseInput, j: nat, parts: Seq<Seq<char>>, first: RangeView)
    requires
        j <= p.tokens.len(),
    ensures
        type_path(p, j, parts, first) is Ok ==> j <= type_path(p, j, parts, first)->Ok_0.1
            <= p.tokens.len(),
    decreases p.tokens.len() - j, 1nat,
{
    if kind_at(p, j) == TokenKind::DoubleColon {
        match kind_at(p, j + 1) {
            TokenKind::Identifier(name) => lemma_type_path_moves(p, j + 2, parts.push(name), first),
            _ => {},
        }
    } else if kind_at(p, j) == TokenKind::LCarat {
        lemma_type_args_moves(p, j + 1, Seq::empty());
    }
}

proof fn lemma_type_args_moves(p: ParseInput, j: nat, acc: Seq<NodeView>)
    requires
        j <= p.tokens.len(),
    ensures
        type_args(p, j, acc) is Ok ==> j <= type_args(p, j, acc)->Ok_0.1 < p.tokens.len(),
    decreases p.tokens.len() - j, 3nat,
{
    lemma_type_moves(p, j);
    match type_expr(p, j) {
        Ok((t, m)) => if j < m <= p.tokens.len() && kind_at(p, m) == TokenKind::Comma {
            lemma_type_args_moves(p, m + 1, acc.push(t));
        },
        Err(_) => {},
    }
}

/// Expressions and types that are parsed move on and stay in the tokens.
pub proof fn lemma_expressions_move(p: ParseInput)
    ensures
        forall|i: nat| #[trigger] expression(p, i) is Ok ==> i < expression(p, i)->Ok_0.1 <= p.tokens.len(),
        forall|i: nat| #[trigger] type_expr(p, i) is Ok ==> i < type_expr(p, i)->Ok_0.1 <= p.tokens.len(),
{
    assert forall|i: nat| #[trigger] expression(p, i) is Ok implies i < expression(p, i)->Ok_0.1
        <= p.tokens.len() by {
        lemma_expression_moves(p, i);
    }
    assert forall|i: nat| #[trigger] type_expr(p, i) is Ok implies i < type_expr(p, i)->Ok_0.1
        <= p.tokens.len() by {
        lemma_type_moves(p, i);
    }
}

proof fn lemma_binding_moves(p: ParseInput, i: nat, data: ParserData)
    ensures
        binding(p, i, data) is Ok ==> i < binding(p, i, data)->Ok_0.1 <= p.tokens.len(),
{
    lemma_expressions_move(p);
}

proof fn lemma_headers_moves(p: ParseInput, i: nat, acc: Seq<(Seq<char>, RangeView)>)
    requires
        i <= p.tokens.len(),
    ensures
        headers(p, i, acc) is Ok ==> i <= headers(p, i, acc)->Ok_0.1 <= p.tokens.len(),
    decreases p.tokens.len() - i,
{
    if kind_at(p, i) == TokenKind::Hash {
        match header(p, i) {
            Ok((h, k)) => lemma_headers_moves(p, i + 4, acc.push(h)),
            Err(_) => {},
        }
    }
}

proof fn lemma_params_moves(p: ParseInput, j: nat, acc: Seq<(Seq<char>, NodeView)>)
    requires
        j <= p.tokens.len(),
    ensures
        params(p, j, acc) is Ok ==> j <= params(p, j, acc)->Ok_0.1 < p.tokens.len(),
    decreases p.tokens.len() - j,
{
    lemma_expressions_move(p);
    match kind_at(p, j) {
        TokenKind::Identifier(name) => match type_expr(p, j + 2) {
            Ok((t, m)) => if j < m <= p.tokens.len() && kind_at(p, m) == TokenKind::Comma {
                lemma_params_moves(p, m + 1, acc.push((name, t)));
            },
            Err(_) => {},
        },
        _ => {},
    }
}

proof fn lemma_body_moves(p: ParseInput, j: nat, acc: Seq<NodeView>)
    requires
        j <= p.tokens.len(),
    ensures
        body(p, j, acc) is Ok ==> j <= body(p, j, acc)->Ok_0.1 < p.tokens.len(),
    decreases p.tokens.len() - j,
{
    lemma_expressions_move(p);
    if kind_at(p, j) != TokenKind::RBrace {
        if is_word(p, j, "let"@) {
            lemma_binding_moves(p, j, body_data());
            match binding(p, j, body_data()) {
                Ok((b, k)) => if j < k <= p.tokens.len() {
                    lemma_body_moves(p, k, acc.push(b));
                },
                Err(_) => {},
            }
        } else {
            match expression(p, j) {
                Ok((e, k)) => if j < k <= p.tokens.len() && kind_at(p, k) == TokenKind::Eol {
                    lemma_body_moves(p, k + 1, acc.push(e));
                },
                Err(_) => {},
            }
        }
    }
}

proof fn lemma_function_moves(p: ParseInput, i: nat)
    ensures
        function(p, i) is Ok ==> i < function(p, i)->Ok_0.1 <= p.tokens.len(),
{
    lemma_expressions_move(p);
    if i + 3 <= p.tokens.len() {
        lemma_params_moves(p, i + 3, Seq::empty());
    }
    assert forall|k: nat| k <= p.tokens.len() && #[trigger] body(p, k, Seq::empty()) is Ok implies k <= body(
        p,
        k,
        Seq::empty(),
    )->Ok_0.1 < p.tokens.len() by {
        lemma_body_moves(p, k, Seq::empty());
    }
}

/// Each top-level statement that is parsed moves on and stays in the tokens,
/// as each expression and type does: no production takes a branch that
/// `no_progress` stands in.
pub proof fn lemma_productions_move(p: ParseInput)
    ensures
        forall|i: nat| #[trigger] global(p, i) is Ok ==> i < global(p, i)->Ok_0.1 <= p.tokens.len(),
        forall|i: nat| #[trigger] expression(p, i) is Ok ==> i < expression(p, i)->Ok_0.1 <= p.tokens.len(),
        forall|i: nat| #[trigger] type_expr(p, i) is Ok ==> i < type_expr(p, i)->Ok_0.1 <= p.tokens.len(),
{
    lemma_expressions_move(p);
    assert forall|i: nat| #[trigger] global(p, i) is Ok implies i < global(p, i)->Ok_0.1 <= p.tokens.len() by {
        lemma_binding_moves(p, i, ParserData { allow_assign: true, allow_mutable: false });
        if i <= p.tokens.len() {
            lemma_headers_moves(p, i, Seq::empty());
            match headers(p, i, Seq::empty()) {
                Ok((hs, k)) => lemma_function_moves(p, k),
                Err(_) => {},
            }
        }
    }
}

} // verus!
