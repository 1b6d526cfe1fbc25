use vesuvius::diagnostic::nth_line;
use vesuvius::exception::{
    get_leading_erase_count, CommandLineException, CommandLineExceptionType, ExceptionLevel,
    InternalException, LexerException, LexerExceptionType, ParserException, ParserExceptionType,
};
use vesuvius::lexer::Lexer;
use vesuvius::node::{Literal, Node, NodeType, Type};
use vesuvius::parser::{Parser, ParserData};
use vesuvius::position::Range;
use vesuvius::run::run;
use vesuvius::text::chars_of;
use vesuvius::token::{Token, TokenType};
use vesuvius::validator::Validator;

fn lex(s: &str) -> Result<(Vec<Token>, Vec<LexerException>), (LexerException, Vec<LexerException>)> {
    Lexer::calculate(String::from("test.vs"), String::from(s))
}

fn kinds(s: &str) -> Vec<TokenType> {
    lex(s).unwrap().0.into_iter().map(|t| t.token).collect()
}

fn parse(s: &str) -> Result<(Vec<Node>, Vec<ParserException>), ParserException> {
    let (tokens, _) = lex(s).unwrap();
    Parser::calculate(String::from(s), tokens)
}

fn show(n: &Node) -> String {
    n.to_text()
}

fn body_of(s: &str) -> Vec<String> {
    let (nodes, _) = parse(s).unwrap();
    assert_eq!(nodes.len(), 1);
    match &nodes[0].node {
        NodeType::DefineFunction(_, _, _, body) => body.iter().map(show).collect(),
        _ => panic!("not a function"),
    }
}

#[test]
fn tokenizing_twice_gives_equal_tokens() {
    let text = "func f(a: Int): Int { a ** 2 + '\\n'; } // done\n#[entry]";
    assert_eq!(lex(text).unwrap(), lex(text).unwrap());
}

#[test]
fn line_endings_tokenize_alike() {
    let a = lex("a\r\nb").unwrap();
    let b = lex("a\rb").unwrap();
    let c = lex("a\nb").unwrap();
    assert_eq!(a, b);
    assert_eq!(b, c);
    assert_eq!(c.0[1].range.min.line, 1);
}

#[test]
fn identifier_round_trip() {
    let (tokens, warnings) = lex("abc_1Z").unwrap();
    assert!(warnings.is_empty());
    assert_eq!(tokens.len(), 2);
    assert_eq!(tokens[0].token, TokenType::Identifier(String::from("abc_1Z")));
    assert_eq!(tokens[0].range.min.index, 0);
    assert_eq!(tokens[0].range.max.index, 5);
    assert_eq!(tokens[1].token, TokenType::Eof);
}

#[test]
fn numbers() {
    assert_eq!(kinds("3."), vec![TokenType::Float(String::from("3.0")), TokenType::Eof]);
    assert_eq!(kinds("1_000"), vec![TokenType::Integer(1000), TokenType::Eof]);
    assert_eq!(
        kinds("1.2.3"),
        vec![
            TokenType::Float(String::from("1.2")),
            TokenType::Period,
            TokenType::Integer(3),
            TokenType::Eof
        ]
    );
}

#[test]
fn integer_too_large_is_an_error() {
    let e = lex("99999999999999999999").unwrap_err().0;
    assert_eq!(e.exception_type, LexerExceptionType::InvalidNumber);
    assert_eq!(kinds("9223372036854775807"), vec![TokenType::Integer(i64::MAX), TokenType::Eof]);
}

#[test]
fn operators() {
    assert_eq!(kinds(":"), vec![TokenType::Colon, TokenType::Eof]);
    assert_eq!(kinds("::"), vec![TokenType::DoubleColon, TokenType::Eof]);
    assert_eq!(kinds("*"), vec![TokenType::Astrisk, TokenType::Eof]);
    assert_eq!(kinds("**"), vec![TokenType::DoubleAstrisk, TokenType::Eof]);
    assert_eq!(kinds("//c\nx"), vec![TokenType::Identifier(String::from("x")), TokenType::Eof]);
    assert_eq!(kinds("a/b"), vec![
        TokenType::Identifier(String::from("a")),
        TokenType::Slash,
        TokenType::Identifier(String::from("b")),
        TokenType::Eof
    ]);
}

#[test]
fn colon_span_covers_one_character() {
    let (tokens, _) = lex(":x").unwrap();
    assert_eq!(tokens[0].range.min.index, 0);
    assert_eq!(tokens[0].range.max.index, 0);
    assert_eq!(tokens[1].token, TokenType::Identifier(String::from("x")));
    let (tokens, _) = lex("::").unwrap();
    assert_eq!(tokens[0].range.max.index, 1);
}

#[test]
fn escapes() {
    let e = lex("'\\q'").unwrap_err().0;
    assert_eq!(e.exception_type, LexerExceptionType::InvalidEscape);
    let (tokens, warnings) = lex("\"\\q\"").unwrap();
    assert_eq!(warnings.len(), 1);
    assert_eq!(warnings[0].exception_type, LexerExceptionType::InvalidEscape);
    assert_eq!(tokens[0].token, TokenType::String(String::from("\\q")));
    assert_eq!(kinds("'\\n'"), vec![TokenType::Character('\n'), TokenType::Eof]);
    assert_eq!(kinds("\"a\\tb\""), vec![TokenType::String(String::from("a\tb")), TokenType::Eof]);
    assert_eq!(Lexer::calculate_escape('r'), Ok('\r'));
    assert_eq!(Lexer::calculate_escape('q'), Err('q'));
}

#[test]
fn lexer_errors() {
    assert_eq!(lex("$").unwrap_err().0.exception_type, LexerExceptionType::IllegalCharacter);
    let e = lex("\"abc").unwrap_err().0;
    assert_eq!(e.exception_type, LexerExceptionType::MissingCharacter);
    assert_eq!(e.message, "Expected character `\"` not found.");
    assert_eq!(lex("'a'").unwrap_err().0.exception_type, LexerExceptionType::MissingCharacter);
}

#[test]
fn precedence() {
    assert_eq!(body_of("func f(): Int { 1 + 2 * 3; }"), vec!["(1 + (2 * 3))"]);
}

#[test]
fn power_folds_left() {
    assert_eq!(body_of("func f(): Int { 2 ** 3 ** 2; }"), vec!["((2 ** 3) ** 2)"]);
}

#[test]
fn postfix_terms() {
    assert_eq!(
        body_of("func f(): Int { a::b.c[1](x, -y) + !z; }"),
        vec!["(a::b.c[1](x, (- y)) + (! z))"]
    );
}

#[test]
fn mutability() {
    assert_eq!(body_of("func f(): Int { let mut x = 1; }"), vec!["let mut x: ? = 1"]);
    let e = parse("let x: Int;").unwrap_err();
    assert_eq!(e.exception_type, ParserExceptionType::InvalidMutability);
    let (nodes, _) = parse("let x = 1;").unwrap();
    match &nodes[0].node {
        NodeType::InitializeVariable(m, name, t, v) => {
            assert!(!m);
            assert_eq!(name, "x");
            assert!(matches!(t.node, NodeType::Type(Type::Inferred, _)));
            assert!(v.is_some());
        }
        _ => panic!("not a binding"),
    }
    let e = parse("let mut x = 1;").unwrap_err();
    assert_eq!(e.exception_type, ParserExceptionType::InvalidMutability);
}

#[test]
fn missing_semicolon_lists_what_is_absent() {
    let e = parse("let x = 1 2").unwrap_err();
    assert_eq!(e.exception_type, ParserExceptionType::MissingToken);
    assert_eq!(e.message, "Expected `:`, `;` not found.");
}

#[test]
fn unknown_header() {
    let (nodes, warnings) = parse("#[bogus] func f(): Int {1;}").unwrap();
    assert_eq!(warnings.len(), 1);
    assert_eq!(warnings[0].exception_type, ParserExceptionType::InvalidHeader);
    assert_eq!(nodes.len(), 1);
    assert!(!nodes[0].headers.is_entry && !nodes[0].headers.is_static && !nodes[0].headers.is_public);
    let (nodes, warnings) = parse("#[entry] #[public] func f(): Int {1;}").unwrap();
    assert!(warnings.is_empty());
    assert!(nodes[0].headers.is_entry && nodes[0].headers.is_public && !nodes[0].headers.is_static);
}

#[test]
fn end_to_end() {
    let (nodes, warnings) = parse("func add(a: Int, b: Int): Int { a + b; }").unwrap();
    assert!(warnings.is_empty());
    assert_eq!(nodes.len(), 1);
    assert_eq!(show(&nodes[0]), "func add(a: Int, b: Int): Int {(a + b);}");
}

#[test]
fn imports_and_types() {
    let (nodes, _) = parse("extern io; use lib; func f(x: std::Map<Int, Str>): Int { x; }").unwrap();
    assert_eq!(nodes.len(), 3);
    assert_eq!(show(&nodes[0]), "extern io");
    assert_eq!(show(&nodes[1]), "use lib");
    assert_eq!(show(&nodes[2]), "func f(x: std::Map<Int, Str>): Int {x;}");
}

#[test]
fn parser_errors() {
    let e = parse("1;").unwrap_err();
    assert_eq!(e.message, "Expected `let`, `#`, `func` not found.");
    let e = parse("#[entry] 1;").unwrap_err();
    assert_eq!(e.message, "Expected `#`, `func` not found.");
    let e = parse("func f(): Int { 1 }").unwrap_err();
    assert_eq!(e.message, "Expected `;` not found.");
}

#[test]
fn validator_objects() {
    let (nodes, _) = parse("use lib; func f(): Int { 1; }").unwrap();
    let objects = Validator::calculate(nodes).unwrap();
    assert_eq!(objects.len(), 2);
    let (nodes, _) = parse("let x = 1;").unwrap();
    assert!(Validator::calculate(nodes).is_err());
}

#[test]
fn run_reports_lexer_error() {
    let (d, level, warnings) = run(String::from("a.vs"), String::from("func $")).err().unwrap();
    assert!(warnings.is_empty());
    assert_eq!(level, ExceptionLevel::Error);
    assert_eq!(d.prefix, "Lexer");
    assert_eq!(d.title, "IllegalCharacter");
    let (objects, warnings) = run(String::from("a.vs"), String::from("func f(): Int { \"\\q\"; }")).ok().unwrap();
    assert_eq!(objects.len(), 1);
    assert_eq!(warnings.len(), 1);
}

#[test]
fn render_layout() {
    let e = lex("let x = $;").unwrap_err().0;
    let lines = e.to_diagnostic().render(ExceptionLevel::Error);
    assert_eq!(
        lines,
        vec![
            String::from(" ═ LexerException ══════════════════════════════════════════ "),
            String::from("  File `test.vs`, In <Void>,"),
            String::from("  Line 1, Column 8"),
            String::from("    let x = $;"),
            String::from("            ▔"),
            String::from(" ═ IllegalCharacterException: Illegal character `$` found. ═ "),
        ]
    );
}

#[test]
fn render_without_location() {
    let lines = InternalException::new(String::from("boom")).to_diagnostic().render(ExceptionLevel::Critical);
    assert_eq!(lines.len(), 2);
    assert_eq!(lines[0], " ═ InternalCriticalException ═══════ ");
    assert_eq!(lines[1], " ═ InternalCriticalException: boom ═ ");
}

#[test]
fn command_line_column() {
    let e = CommandLineException::new(
        CommandLineExceptionType::FileFailedToRead,
        String::from("File `x` was not found"),
        vec![String::from("run"), String::from("x")],
        1,
    );
    let d = e.to_diagnostic();
    assert_eq!(d.line_text, "run x");
    assert_eq!(d.range.min.column, 4);
    assert_eq!(d.range.max.column, 4);
    let lines = d.render(ExceptionLevel::Error);
    assert_eq!(lines[3], "    run x");
    assert_eq!(lines[4], "        ▔");
}

#[test]
fn helpers() {
    assert_eq!(get_leading_erase_count(String::from(" \t x ")), 3);
    assert_eq!(nth_line(&String::from("a\nbc\nd"), 1), "bc");
    assert_eq!(nth_line(&String::from("a"), 3), "");
    assert_eq!(chars_of("hé"), vec!['h', 'é']);
    let r = Range::new_void();
    assert_eq!(r.min.index, 0);
    assert!(r.min.filename.is_empty());
    assert_eq!(ParserData::new(), ParserData { allow_assign: true, allow_mutable: true });
    let p = ParserException::new(ParserExceptionType::MissingToken, String::from("m"), String::new(), Range::new_void());
    assert_eq!(p.to_diagnostic().prefix, "Parser");
}

#[test]
fn token_text() {
    assert_eq!(TokenType::DoubleAstrisk.to_text(), "**");
    assert_eq!(TokenType::Integer(-42).to_text(), "-42");
    assert_eq!(TokenType::Integer(1000).to_text(), "1000");
    assert_eq!(TokenType::Character('x').to_text(), "'x'");
    assert_eq!(TokenType::String(String::from("hi")).to_text(), "\"hi\"");
    assert_eq!(TokenType::Identifier(String::from("name")).to_text(), "name");
    assert_eq!(TokenType::Eof.to_text(), "Eof");
}

#[test]
fn literal_and_type_text() {
    assert_eq!(Literal::Character('c').to_text(), "'c'");
    assert_eq!(Literal::Integer(7).to_text(), "7");
    assert_eq!(Literal::Float(String::from("3.0")).to_text(), "3.0");
    assert_eq!(Type::Base(vec![String::from("std"), String::from("Map")]).to_text(), "std::Map");
    assert_eq!(Type::Inferred.to_text(), "?");
}

#[test]
fn render_underline_on_later_line() {
    let e = lex("let a = 1;\n  x $").unwrap_err().0;
    assert_eq!(e.range.min.line, 1);
    assert_eq!(e.range.min.column, 5);
    let lines = e.to_diagnostic().render(ExceptionLevel::Error);
    assert_eq!(lines[2], "  Line 2, Column 5");
    assert_eq!(lines[3], "    x $");
    assert_eq!(lines[4], "      ▔");
}

#[test]
fn render_underline_at_column_zero() {
    let e = lex("$").unwrap_err().0;
    let lines = e.to_diagnostic().render(ExceptionLevel::Error);
    assert_eq!(lines[3], "    $");
    assert_eq!(lines[4], "    ▔");
}

#[test]
fn node_text() {
    let (nodes, _) = parse("func f(a: Int): Map<Int, Str> { let mut x: Int = -a[1] ** 2; g(x, '\\n'); }").unwrap();
    assert_eq!(
        nodes[0].to_text(),
        "func f(a: Int): Map<Int, Str> {let mut x: Int = ((- a)[1] ** 2); g(x, '\n');}"
    );
    let (nodes, _) = parse("extern io; use lib; let v = \"s\" / 2.5;").unwrap();
    assert_eq!(nodes[0].to_text(), "extern io");
    assert_eq!(nodes[1].to_text(), "use lib");
    assert_eq!(nodes[2].to_text(), "let v: ? = (\"s\" / 2.5)");
}

#[test]
fn warnings_before_an_error_are_kept() {
    let (e, warnings) = lex("\"\\q\" $").unwrap_err();
    assert_eq!(e.exception_type, LexerExceptionType::IllegalCharacter);
    assert_eq!(warnings.len(), 1);
    assert_eq!(warnings[0].exception_type, LexerExceptionType::InvalidEscape);
    let (e, warnings) = lex("\"a\\q").unwrap_err();
    assert_eq!(e.exception_type, LexerExceptionType::MissingCharacter);
    assert_eq!(warnings.len(), 1);
    let (d, level, warnings) = run(String::from("a.vs"), String::from("let s = \"\\q\" 1;")).err().unwrap();
    assert_eq!(level, ExceptionLevel::Error);
    assert_eq!(d.prefix, "Parser");
    assert_eq!(warnings.len(), 1);
    assert_eq!(warnings[0].prefix, "Lexer");
    assert_eq!(warnings[0].title, "InvalidEscape");
}

#[test]
fn quoted_line_keeps_trailing_blanks() {
    let e = lex("  a $ \t").unwrap_err().0;
    let lines = e.to_diagnostic().render(ExceptionLevel::Error);
    assert_eq!(lines[3], "    a $ \t");
    assert_eq!(lines[4], "      ▔");
}
