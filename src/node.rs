use vstd::prelude::*;
use crate::exception::{ParserException, ParserExceptionType};
use crate::parser::{header_list, header_warnings, headers_of, parse_errors_view, ParseError};
use crate::position::{Range, RangeView};
use crate::diagnostic::push_str;
use crate::text::string_of;
use crate::token::{token_text, TokenKind, TokenType};

verus! {

/// A literal value in the tree.
#[derive(Debug, PartialEq)]
pub enum Literal {
    Name(String),
    Character(char),
    String(String),
    Integer(i64),
    /// Decimal text of the literal, as the tokenizer gave it.
    Float(String),
}

pub enum LiteralView {
    Name(Seq<char>),
    Character(char),
    String(Seq<char>),
    Integer(i64),
    Float(Seq<char>),
}

impl View for Literal {
    type V = LiteralView;

    open spec fn view(&self) -> LiteralView {
        match self {
            Literal::Name(s) => LiteralView::Name(s@),
            Literal::Character(c) => LiteralView::Character(*c),
            Literal::String(s) => LiteralView::String(s@),
            Literal::Integer(v) => LiteralView::Integer(*v),
            Literal::Float(s) => LiteralView::Float(s@),
        }
    }
}

/// The base of a type expression: a qualified name, or no name given.
#[derive(Debug, PartialEq)]
pub enum Type {
    Base(Vec<String>),
    Inferred,
    Cancelled,
}

pub enum TypeView {
    Base(Seq<Seq<char>>),
    Inferred,
    Cancelled,
}

impl View for Type {
    type V = TypeView;

    open spec fn view(&self) -> TypeView {
        match self {
            Type::Base(parts) => TypeView::Base(parts@.map_values(|p: String| p@)),
            Type::Inferred => TypeView::Inferred,
            Type::Cancelled => TypeView::Cancelled,
        }
    }
}

/// The flags that `#[name]` annotations set on a statement.
#[derive(Clone, Copy, Debug, PartialEq, Eq, Structural)]
pub struct NodeHeaders {
    pub is_entry: bool,
    pub is_static: bool,
    pub is_public: bool,
}

/// The source-like text of a literal: as the token it was read from.
pub open spec fn literal_text(l: LiteralView) -> Seq<char> {
    match l {
        LiteralView::Name(s) => s,
        LiteralView::Character(c) => token_text(TokenKind::Character(c)),
        LiteralView::String(s) => token_text(TokenKind::String(s)),
        LiteralView::Integer(v) => token_text(TokenKind::Integer(v)),
        LiteralView::Float(s) => s,
    }
}

impl Literal {
    pub fn to_text(&self) -> (r: String)
        ensures
            r@ == literal_text(self@),
    {
        match self {
            Literal::Name(s) => s.clone(),
            Literal::Character(c) => TokenType::Character(*c).to_text(),
            Literal::String(s) => TokenType::String(s.clone()).to_text(),
            Literal::Integer(v) => TokenType::Integer(*v).to_text(),
            Literal::Float(s) => s.clone(),
        }
    }
}

/// The parts of a qualified name joined by `::`.
pub open spec fn path_text(parts: Seq<Seq<char>>) -> Seq<char>
    decreases parts.len(),
{
    if parts.len() == 0 {
        Seq::empty()
    } else if parts.len() == 1 {
        parts[0]
    } else {
        path_text(parts.drop_last()) + "::"@ + parts.last()
    }
}

/// The text of a type base: its qualified name, `?` where it is inferred.
pub open spec fn type_text(t: TypeView) -> Seq<char> {
    match t {
        TypeView::Base(parts) => path_text(parts),
        TypeView::Inferred => "?"@,
        TypeView::Cancelled => "Cancelled"@,
    }
}

impl Type {
    pub fn to_text(&self) -> (r: String)
        ensures
            r@ == type_text(self@),
    {
        match self {
            Type::Base(parts) => {
                let ghost ps = parts@.map_values(|p: String| p@);
                let mut out = String::new();
                let mut i: usize = 0;
                assert(ps.subrange(0, 0) =~= Seq::<Seq<char>>::empty());
                while i < parts.len()
                    invariant
                        i <= parts.len(),
                        ps == parts@.map_values(|p: String| p@),
                        out@ == path_text(ps.subrange(0, i as int)),
                    decreases parts.len() - i,
                {
                    let ghost before = out@;
                    if i > 0 {
                        out.append("::");
                    }
                    out.append(parts[i].as_str());
                    let ghost q = ps.subrange(0, i + 1);
                    assert(q.drop_last() =~= ps.subrange(0, i as int));
                    if i == 0 {
                        assert(out@ =~= q[0]);
                    } else {
                        assert(out@ =~= path_text(q.drop_last()) + "::"@ + q.last());
                    }
                    i = i + 1;
                }
                assert(ps.subrange(0, i as int) =~= ps);
                out
            },
            Type::Inferred => String::from_str("?"),
            Type::Cancelled => String::from_str("Cancelled"),
        }
    }
}

/// The annotations of a statement that has none.
pub open spec fn no_headers() -> NodeHeaders {
    NodeHeaders { is_entry: false, is_static: false, is_public: false }
}

impl NodeHeaders {
    /// All flags off.
    pub fn new() -> (r: NodeHeaders)
        ensures
            r == no_headers(),
    {
        NodeHeaders { is_entry: false, is_static: false, is_public: false }
    }

    /// The flags that header names set, and a warning for each name that is
    /// not `entry`, `static` or `public`, quoting `script`.
    pub fn from(array: Vec<(String, Range)>, script: String) -> (r: (NodeHeaders, Vec<ParserException>))
        ensures
            r.0 == headers_of(header_list(array@)),
            parse_errors_view(r.1@) == header_warnings(script@, header_list(array@)),
    {
        let mut headers = NodeHeaders::new();
        let mut warnings: Vec<ParserException> = Vec::new();
        let mut i: usize = 0;
        assert(array@.subrange(0, 0) =~= Seq::<(String, Range)>::empty());
        assert(parse_errors_view(warnings@) =~= Seq::<ParseError>::empty());
        while i < array.len()
            invariant
                i <= array.len(),
                headers == headers_of(header_list(array@.subrange(0, i as int))),
                parse_errors_view(warnings@) == header_warnings(
                    script@,
                    header_list(array@.subrange(0, i as int)),
                ),
            decreases array.len() - i,
        {
            let ghost hs = header_list(array@.subrange(0, i as int + 1));
            assert(hs.drop_last() =~= header_list(array@.subrange(0, i as int)));
            assert(hs.last() == (array@[i as int].0@, array@[i as int].1@));
            let name = &array[i].0;
            if *name == String::from_str("entry") {
                headers.is_entry = true;
            } else if *name == String::from_str("static") {
                headers.is_static = true;
            } else if *name == String::from_str("public") {
                headers.is_public = true;
            } else {
                let mut message = String::from_str("Invalid header `");
                message.append(name.as_str());
                message.append("`.");
                let w = ParserException::new(
                    ParserExceptionType::InvalidHeader,
                    message,
                    script.clone(),
                    array[i].1.clone(),
                );
                let ghost before = warnings@;
                warnings.push(w);
                assert(parse_errors_view(warnings@) =~= parse_errors_view(before).push(w@));
            }
            i = i + 1;
        }
        assert(array@.subrange(0, array.len() as int) =~= array@);
        (headers, warnings)
    }
}

/// One construct of the tree, the span it covers, and its annotations.
#[derive(Debug, PartialEq)]
pub struct Node {
    pub node: NodeType,
    pub range: Range,
    pub headers: NodeHeaders,
}

#[derive(Debug, PartialEq)]
pub enum NodeType {
    /// Module name.
    ExternalImport(String),
    /// File name.
    LocalImport(String),
    /// Name, parameters with their types, return type, body.
    DefineFunction(String, Vec<(String, Node)>, Box<Node>, Vec<Node>),
    /// Mutable flag, name, type, initial value.
    InitializeVariable(bool, String, Box<Node>, Option<Box<Node>>),
    /// Target, value.
    AssignVariable(Box<Node>, Box<Node>),
    AdditionOperation(Box<Node>, Box<Node>),
    SubtractionOperation(Box<Node>, Box<Node>),
    MultiplicationOperation(Box<Node>, Box<Node>),
    DivisionOperation(Box<Node>, Box<Node>),
    PowerOperation(Box<Node>, Box<Node>),
    InvertOperation(Box<Node>),
    OppositeOperation(Box<Node>),
    /// Parent, member name after `::`.
    ModuleMember(Box<Node>, String),
    /// Parent, member name after `.`.
    ClassMember(Box<Node>, String),
    /// Parent, index.
    Slice(Box<Node>, Box<Node>),
    /// Callee, arguments.
    Call(Box<Node>, Vec<Node>),
    /// Base, generic arguments.
    Type(Type, Vec<Node>),
    Literal(Literal),
}

/// A node as a value.
pub struct NodeView {
    pub kind: NodeKind,
    pub range: RangeView,
    pub headers: NodeHeaders,
}

pub enum NodeKind {
    ExternalImport(Seq<char>),
    LocalImport(Seq<char>),
    DefineFunction(Seq<char>, Seq<(Seq<char>, NodeView)>, Box<NodeView>, Seq<NodeView>),
    InitializeVariable(bool, Seq<char>, Box<NodeView>, Option<Box<NodeView>>),
    AssignVariable(Box<NodeView>, Box<NodeView>),
    AdditionOperation(Box<NodeView>, Box<NodeView>),
    SubtractionOperation(Box<NodeView>, Box<NodeView>),
    MultiplicationOperation(Box<NodeView>, Box<NodeView>),
    DivisionOperation(Box<NodeView>, Box<NodeView>),
    PowerOperation(Box<NodeView>, Box<NodeView>),
    InvertOperation(Box<NodeView>),
    OppositeOperation(Box<NodeView>),
    ModuleMember(Box<NodeView>, Seq<char>),
    ClassMember(Box<NodeView>, Seq<char>),
    Slice(Box<NodeView>, Box<NodeView>),
    Call(Box<NodeView>, Seq<NodeView>),
    Type(TypeView, Seq<NodeView>),
    Literal(LiteralView),
}

impl Node {
    pub open spec fn view(&self) -> NodeView
        decreases self,
    {
        NodeView { kind: kind_view(&self.node), range: self.range@, headers: self.headers }
    }

    /// A node of kind `node` over `range`, with no annotations.
    pub fn new(node: NodeType, range: Range) -> (r: Node)
        ensures
            r.node == node,
            r.range@ == range@,
            r.headers == no_headers(),
    {
        Node { node, range, headers: NodeHeaders::new() }
    }
}

pub open spec fn kind_view(k: &NodeType) -> NodeKind
    decreases k,
{
    match k {
        NodeType::ExternalImport(s) => NodeKind::ExternalImport(s@),
        NodeType::LocalImport(s) => NodeKind::LocalImport(s@),
        NodeType::DefineFunction(name, args, ret, body) => NodeKind::DefineFunction(
            name@,
            args_view(args@),
            Box::new(ret.view()),
            nodes_view(body@),
        ),
        NodeType::InitializeVariable(m, name, typ, value) => NodeKind::InitializeVariable(
            *m,
            name@,
            Box::new(typ.view()),
            match value {
                Some(v) => Some(Box::new(v.view())),
                None => None,
            },
        ),
        NodeType::AssignVariable(a, b) => NodeKind::AssignVariable(
            Box::new(a.view()),
            Box::new(b.view()),
        ),
        NodeType::AdditionOperation(a, b) => NodeKind::AdditionOperation(
            Box::new(a.view()),
            Box::new(b.view()),
        ),
        NodeType::SubtractionOperation(a, b) => NodeKind::SubtractionOperation(
            Box::new(a.view()),
            Box::new(b.view()),
        ),
        NodeType::MultiplicationOperation(a, b) => NodeKind::MultiplicationOperation(
            Box::new(a.view()),
            Box::new(b.view()),
        ),
        NodeType::DivisionOperation(a, b) => NodeKind::DivisionOperation(
            Box::new(a.view()),
            Box::new(b.view()),
        ),
        NodeType::PowerOperation(a, b) => NodeKind::PowerOperation(
            Box::new(a.view()),
            Box::new(b.view()),
        ),
        NodeType::InvertOperation(a) => NodeKind::InvertOperation(Box::new(a.view())),
        NodeType::OppositeOperation(a) => NodeKind::OppositeOperation(Box::new(a.view())),
        NodeType::ModuleMember(a, s) => NodeKind::ModuleMember(Box::new(a.view()), s@),
        NodeType::ClassMember(a, s) => NodeKind::ClassMember(Box::new(a.view()), s@),
        NodeType::Slice(a, b) => NodeKind::Slice(Box::new(a.view()), Box::new(b.view())),
        NodeType::Call(a, args) => NodeKind::Call(Box::new(a.view()), nodes_view(args@)),
        NodeType::Type(t, args) => NodeKind::Type(t@, nodes_view(args@)),
        NodeType::Literal(l) => NodeKind::Literal(l@),
    }
}

pub open spec fn nodes_view(s: Seq<Node>) -> Seq<NodeView>
    decreases s,
{
    if s.len() == 0 {
        Seq::empty()
    } else {
        nodes_view(s.subrange(0, s.len() - 1)).push(s[s.len() - 1].view())
    }
}

pub open spec fn args_view(s: Seq<(String, Node)>) -> Seq<(Seq<char>, NodeView)>
    decreases s,
{
    if s.len() == 0 {
        Seq::empty()
    } else {
        args_view(s.subrange(0, s.len() - 1)).push((s[s.len() - 1].0@, s[s.len() - 1].1.view()))
    }
}

pub proof fn lemma_nodes_view_push(s: Seq<Node>, n: Node)
    ensures
        nodes_view(s.push(n)) == nodes_view(s).push(n.view()),
{
    assert(s.push(n).subrange(0, s.len() as int) =~= s);
}

/// The view of a node list holds the view of each node, in order.
pub proof fn lemma_nodes_view_index(s: Seq<Node>)
    ensures
        nodes_view(s).len() == s.len(),
        forall|k: int| 0 <= k < s.len() ==> #[trigger] nodes_view(s)[k] == s[k].view(),
    decreases s.len(),
{
    if s.len() > 0 {
        let p = s.subrange(0, s.len() - 1);
        lemma_nodes_view_index(p);
        assert forall|k: int| 0 <= k < s.len() implies #[trigger] nodes_view(s)[k] == s[k].view() by {
            if k < s.len() - 1 {
                assert(nodes_view(p)[k] == p[k].view());
            }
        }
    }
}

pub proof fn lemma_args_view_push(s: Seq<(String, Node)>, a: (String, Node))
    ensures
        args_view(s.push(a)) == args_view(s).push((a.0@, a.1.view())),
{
    assert(s.push(a).subrange(0, s.len() as int) =~= s);
}

/// The source-like text of a node: binary operations fully parenthesized,
/// member, slice and call chains left to right, a function as
/// `func name(arg: type, ...): type {stmt; ...}`, generic arguments in `<>`.
pub open spec fn node_text(n: NodeView) -> Seq<char>
    decreases n,
{
    match n.kind {
        NodeKind::ExternalImport(s) => "extern "@ + s,
        NodeKind::LocalImport(s) => "use "@ + s,
        NodeKind::DefineFunction(name, args, ret, body) => "func "@ + name + "("@ + params_text(args)
            + "): "@ + node_text(*ret) + " {"@ + items_text(body, " "@, ";"@) + "}"@,
        NodeKind::InitializeVariable(m, name, t, v) => "let"@ + (if m {
            " mut"@
        } else {
            Seq::empty()
        }) + " "@ + name + ": "@ + node_text(*t) + match v {
            Some(x) => " = "@ + node_text(*x),
            None => Seq::empty(),
        },
        NodeKind::AssignVariable(a, b) => node_text(*a) + " = "@ + node_text(*b),
        NodeKind::AdditionOperation(a, b) => "("@ + node_text(*a) + " + "@ + node_text(*b) + ")"@,
        NodeKind::SubtractionOperation(a, b) => "("@ + node_text(*a) + " - "@ + node_text(*b) + ")"@,
        NodeKind::MultiplicationOperation(a, b) => "("@ + node_text(*a) + " * "@ + node_text(*b) + ")"@,
        NodeKind::DivisionOperation(a, b) => "("@ + node_text(*a) + " / "@ + node_text(*b) + ")"@,
        NodeKind::PowerOperation(a, b) => "("@ + node_text(*a) + " ** "@ + node_text(*b) + ")"@,
        NodeKind::InvertOperation(a) => "(! "@ + node_text(*a) + ")"@,
        NodeKind::OppositeOperation(a) => "(- "@ + node_text(*a) + ")"@,
        NodeKind::ModuleMember(a, s) => node_text(*a) + "::"@ + s,
        NodeKind::ClassMember(a, s) => node_text(*a) + "."@ + s,
        NodeKind::Slice(a, b) => node_text(*a) + "["@ + node_text(*b) + "]"@,
        NodeKind::Call(a, args) => node_text(*a) + "("@ + items_text(args, ", "@, Seq::empty()) + ")"@,
        NodeKind::Type(t, args) => type_text(t) + (if args.len() == 0 {
            Seq::empty()
        } else {
            "<"@ + items_text(args, ", "@, Seq::empty()) + ">"@
        }),
        NodeKind::Literal(l) => literal_text(l),
    }
}

/// The texts of `s`, each followed by `tail`, with `sep` between them.
pub open spec fn items_text(s: Seq<NodeView>, sep: Seq<char>, tail: Seq<char>) -> Seq<char>
    decreases s,
{
    if s.len() == 0 {
        Seq::empty()
    } else if s.len() == 1 {
        node_text(s[0]) + tail
    } else {
        items_text(s.subrange(0, s.len() - 1), sep, tail) + sep + node_text(s[s.len() - 1]) + tail
    }
}

/// Parameters as `name: type`, with `, ` between them.
pub open spec fn params_text(s: Seq<(Seq<char>, NodeView)>) -> Seq<char>
    decreases s,
{
    if s.len() == 0 {
        Seq::empty()
    } else if s.len() == 1 {
        s[0].0 + ": "@ + node_text(s[0].1)
    } else {
        params_text(s.subrange(0, s.len() - 1)) + ", "@ + s[s.len() - 1].0 + ": "@ + node_text(
            s[s.len() - 1].1,
        )
    }
}

/// The view of a parameter list holds the view of each parameter, in order.
pub proof fn lemma_args_view_index(s: Seq<(String, Node)>)
    ensures
        args_view(s).len() == s.len(),
        forall|k: int| 0 <= k < s.len() ==> #[trigger] args_view(s)[k] == (s[k].0@, s[k].1.view()),
    decreases s.len(),
{
    if s.len() > 0 {
        let p = s.subrange(0, s.len() - 1);
        lemma_args_view_index(p);
        assert forall|k: int| 0 <= k < s.len() implies #[trigger] args_view(s)[k] == (
            s[k].0@,
            s[k].1.view(),
        ) by {
            if k < s.len() - 1 {
                assert(args_view(p)[k] == (p[k].0@, p[k].1.view()));
            }
        }
    }
}

impl Node {
    /// The node as source-like text.
    pub fn to_text(&self) -> (r: String)
        ensures
            r@ == node_text(self.view()),
    {
        let mut out: Vec<char> = Vec::new();
        self.write_text(&mut out);
        assert(out@ =~= node_text(self.view()));
        string_of(&out)
    }

    #[verifier::rlimit(60)]
    fn write_text(&self, out: &mut Vec<char>)
        ensures
            final(out)@ == old(out)@ + node_text(self.view()),
        decreases self,
    {
        let ghost base = out@;
        match &self.node {
            NodeType::ExternalImport(s) => {
                push_str(out, "extern ");
                push_str(out, s.as_str());
                assert(out@ =~= base + node_text(self.view()));
            },
            NodeType::LocalImport(s) => {
                push_str(out, "use ");
                push_str(out, s.as_str());
                assert(out@ =~= base + node_text(self.view()));
            },
            NodeType::DefineFunction(name, args, ret, body) => {
                push_str(out, "func ");
                push_str(out, name.as_str());
                push_str(out, "(");
                write_params(args, out);
                push_str(out, "): ");
                ret.write_text(out);
                push_str(out, " {");
                write_items(body, " ", ";", out);
                push_str(out, "}");
                assert(out@ =~= base + node_text(self.view()));
            },
            NodeType::InitializeVariable(m, name, t, v) => {
                push_str(out, "let");
                if *m {
                    push_str(out, " mut");
                }
                push_str(out, " ");
                push_str(out, name.as_str());
                push_str(out, ": ");
                t.write_text(out);
                match v {
                    Some(x) => {
                        push_str(out, " = ");
                        x.write_text(out);
                    },
                    None => {},
                }
                assert(out@ =~= base + node_text(self.view()));
            },
            NodeType::AssignVariable(a, b) => {
                a.write_text(out);
                push_str(out, " = ");
                b.write_text(out);
                assert(out@ =~= base + node_text(self.view()));
            },
            NodeType::AdditionOperation(a, b) => {
                push_str(out, "(");
                a.write_text(out);
                push_str(out, " + ");
                b.write_text(out);
                push_str(out, ")");
                assert(out@ =~= base + node_text(self.view()));
            },
            NodeType::SubtractionOperation(a, b) => {
                push_str(out, "(");
                a.write_text(out);
                push_str(out, " - ");
                b.write_text(out);
                push_str(out, ")");
                assert(out@ =~= base + node_text(self.view()));
            },
            NodeType::MultiplicationOperation(a, b) => {
                push_str(out, "(");
                a.write_text(out);
                push_str(out, " * ");
                b.write_text(out);
                push_str(out, ")");
                assert(out@ =~= base + node_text(self.view()));
            },
            NodeType::DivisionOperation(a, b) => {
                push_str(out, "(");
                a.write_text(out);
                push_str(out, " / ");
                b.write_text(out);
                push_str(out, ")");
                assert(out@ =~= base + node_text(self.view()));
            },
            NodeType::PowerOperation(a, b) => {
                push_str(out, "(");
                a.write_text(out);
                push_str(out, " ** ");
                b.write_text(out);
                push_str(out, ")");
                assert(out@ =~= base + node_text(self.view()));
            },
            NodeType::InvertOperation(a) => {
                push_str(out, "(! ");
                a.write_text(out);
                push_str(out, ")");
                assert(out@ =~= base + node_text(self.view()));
            },
            NodeType::OppositeOperation(a) => {
                push_str(out, "(- ");
                a.write_text(out);
                push_str(out, ")");
                assert(out@ =~= base + node_text(self.view()));
            },
            NodeType::ModuleMember(a, s) => {
                a.write_text(out);
                push_str(out, "::");
                push_str(out, s.as_str());
                assert(out@ =~= base + node_text(self.view()));
            },
            NodeType::ClassMember(a, s) => {
                a.write_text(out);
                push_str(out, ".");
                push_str(out, s.as_str());
                assert(out@ =~= base + node_text(self.view()));
            },
            NodeType::Slice(a, b) => {
                a.write_text(out);
                push_str(out, "[");
                b.write_text(out);
                push_str(out, "]");
                assert(out@ =~= base + node_text(self.view()));
            },
            NodeType::Call(a, args) => {
                proof {
                    reveal_strlit("");
                    assert(""@ =~= Seq::<char>::empty());
                }
                a.write_text(out);
                push_str(out, "(");
                write_items(args, ", ", "", out);
                push_str(out, ")");
                assert(out@ =~= base + node_text(self.view()));
            },
            NodeType::Type(t, args) => {
                proof {
                    lemma_nodes_view_index(args@);
                    reveal_strlit("");
                    assert(""@ =~= Seq::<char>::empty());
                }
                let base_text = t.to_text();
                push_str(out, base_text.as_str());
                if args.len() > 0 {
                    push_str(out, "<");
                    write_items(args, ", ", "", out);
                    push_str(out, ">");
                }
                assert(out@ =~= base + node_text(self.view()));
            },
            NodeType::Literal(l) => {
                let lit = l.to_text();
                push_str(out, lit.as_str());
                assert(out@ =~= base + node_text(self.view()));
            },
        }
        assert(out@ =~= base + node_text(self.view()));
    }
}

/// Writes the texts of `v`, each followed by `tail`, with `sep` between them.
fn write_items(v: &Vec<Node>, sep: &str, tail: &str, out: &mut Vec<char>)
    ensures
        final(out)@ == old(out)@ + items_text(nodes_view(v@), sep@, tail@),
    decreases v,
{
    let ghost vs = nodes_view(v@);
    let ghost base = out@;
    proof {
        lemma_nodes_view_index(v@);
    }
    assert(vs.subrange(0, 0) =~= Seq::<NodeView>::empty());
    assert(out@ =~= base + items_text(vs.subrange(0, 0), sep@, tail@));
    let mut i: usize = 0;
    while i < v.len()
        invariant
            i <= v.len(),
            vs == nodes_view(v@),
            vs.len() == v.len(),
            forall|k: int| 0 <= k < v.len() ==> #[trigger] vs[k] == v@[k].view(),
            out@ == base + items_text(vs.subrange(0, i as int), sep@, tail@),
        decreases v.len() - i,
    {
        let ghost before = out@;
        if i > 0 {
            push_str(out, sep);
        }
        v[i].write_text(out);
        push_str(out, tail);
        proof {
            let q = vs.subrange(0, i + 1);
            assert(q.subrange(0, i as int) =~= vs.subrange(0, i as int));
            assert(q[i as int] == v@[i as int].view());
            if i == 0 {
                assert(out@ =~= base + items_text(q, sep@, tail@));
            } else {
                assert(out@ =~= before + sep@ + node_text(q[i as int]) + tail@);
                assert(out@ =~= base + items_text(q, sep@, tail@));
            }
        }
        i = i + 1;
    }
    assert(vs.subrange(0, i as int) =~= vs);
}

/// Writes parameters as `name: type`, with `, ` between them.
fn write_params(v: &Vec<(String, Node)>, out: &mut Vec<char>)
    ensures
        final(out)@ == old(out)@ + params_text(args_view(v@)),
    decreases v,
{
    let ghost vs = args_view(v@);
    let ghost base = out@;
    proof {
        lemma_args_view_index(v@);
    }
    assert(vs.subrange(0, 0) =~= Seq::<(Seq<char>, NodeView)>::empty());
    assert(out@ =~= base + params_text(vs.subrange(0, 0)));
    let mut i: usize = 0;
    while i < v.len()
        invariant
            i <= v.len(),
            vs == args_view(v@),
            vs.len() == v.len(),
            forall|k: int| 0 <= k < v.len() ==> #[trigger] vs[k] == (v@[k].0@, v@[k].1.view()),
            out@ == base + params_text(vs.subrange(0, i as int)),
        decreases v.len() - i,
    {
        let ghost before = out@;
        if i > 0 {
            push_str(out, ", ");
        }
        push_str(out, v[i].0.as_str());
        push_str(out, ": ");
        v[i].1.write_text(out);
        proof {
            let q = vs.subrange(0, i + 1);
            assert(q.subrange(0, i as int) =~= vs.subrange(0, i as int));
            assert(q[i as int] == (v@[i as int].0@, v@[i as int].1.view()));
            if i == 0 {
                assert(out@ =~= base + params_text(q));
            } else {
                assert(out@ =~= base + params_text(q));
            }
        }
        i = i + 1;
    }
    assert(vs.subrange(0, i as int) =~= vs);
}

} // verus!
