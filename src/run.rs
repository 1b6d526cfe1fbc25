use vstd::prelude::*;
use crate::diagnostic::{stage_diagnostic, Diagnostic};
use crate::exception::{ExceptionLevel, LexerException, ParserException};
use crate::lexer::{lex_errors_view, tokenize, LexError, Lexer};
use crate::node::{lemma_nodes_view_index, nodes_view, Node};
use crate::object::{is_definition, object_for};
use crate::parser::{parse, parse_errors_view, ParseError};
use crate::token::tokens_view;
use crate::text::normalize;
use crate::object::Object;
use crate::parser::Parser;
use crate::text::{chars_of, normalize_line_endings, string_of};
use crate::validator::Validator;

verus! {

fn push_lexer_diagnostics(out: &mut Vec<Diagnostic>, ws: &Vec<LexerException>)
    ensures
        final(out)@.len() == old(out)@.len() + ws.len(),
        forall|k: int| 0 <= k < old(out)@.len() ==> #[trigger] final(out)@[k] == old(out)@[k],
        forall|k: int| 0 <= k < ws.len() ==> (#[trigger] final(out)@[old(out)@.len() + k])@
            == stage_diagnostic("Lexer"@, ws@[k]@),
{
    let mut i: usize = 0;
    while i < ws.len()
        invariant
            i <= ws.len(),
            out@.len() == old(out)@.len() + i,
            forall|k: int| 0 <= k < old(out)@.len() ==> #[trigger] out@[k] == old(out)@[k],
            forall|k: int| 0 <= k < i ==> (#[trigger] out@[old(out)@.len() + k])@
                == stage_diagnostic("Lexer"@, ws@[k]@),
        decreases ws.len() - i,
    {
        out.push(ws[i].to_diagnostic());
        i = i + 1;
    }
}

fn push_parser_diagnostics(out: &mut Vec<Diagnostic>, ws: &Vec<ParserException>)
    ensures
        final(out)@.len() == old(out)@.len() + ws.len(),
        forall|k: int| 0 <= k < old(out)@.len() ==> #[trigger] final(out)@[k] == old(out)@[k],
        forall|k: int| 0 <= k < ws.len() ==> (#[trigger] final(out)@[old(out)@.len() + k])@
            == stage_diagnostic("Parser"@, ws@[k]@),
{
    let mut i: usize = 0;
    while i < ws.len()
        invariant
            i <= ws.len(),
            out@.len() == old(out)@.len() + i,
            forall|k: int| 0 <= k < old(out)@.len() ==> #[trigger] out@[k] == old(out)@[k],
            forall|k: int| 0 <= k < i ==> (#[trigger] out@[old(out)@.len() + k])@
                == stage_diagnostic("Parser"@, ws@[k]@),
        decreases ws.len() - i,
    {
        out.push(ws[i].to_diagnostic());
        i = i + 1;
    }
}

/// Tokenizes and parses `script` of file `filename`: the nodes and the
/// warnings of both stages, the tokenizer's first; or the diagnostic of the
/// error that stopped them, with the warnings raised before it.
#[verifier::rlimit(60)]
fn lex_and_parse(filename: String, script: String) -> (r: Result<
    (Vec<Node>, Vec<Diagnostic>),
    (Diagnostic, Vec<Diagnostic>),
>)
    ensures
        match tokenize(filename@, script@) {
            Err((e, lws)) => r is Err && r->Err_0.0@ == stage_diagnostic("Lexer"@, e) && warnings_are(
                r->Err_0.1@,
                lws,
                Seq::empty(),
            ),
            Ok((ts, lws)) => match parse(normalize(script@), ts) {
                Err(e) => r is Err && r->Err_0.0@ == stage_diagnostic("Parser"@, e) && warnings_are(
                    r->Err_0.1@,
                    lws,
                    Seq::empty(),
                ),
                Ok((ns, pws)) => r is Ok && nodes_view(r->Ok_0.0@) == ns && warnings_are(
                    r->Ok_0.1@,
                    lws,
                    pws,
                ),
            },
        },
{
    let ghost lexed = tokenize(filename@, script@);
    let normalized = string_of(&normalize_line_endings(&chars_of(script.as_str())));
    assert(normalized@ == normalize(script@));
    let (tokens, lexer_warnings) = match Lexer::calculate(filename, script) {
        Ok(x) => x,
        Err((e, ws)) => {
            assert(lexed is Err && lexed->Err_0.0 == e@ && lexed->Err_0.1 == lex_errors_view(ws@));
            let warnings = lexer_diagnostics(&ws);
            return Err((e.to_diagnostic(), warnings));
        },
    };
    assert(lexed is Ok && lexed->Ok_0.0 == tokens_view(tokens@) && lexed->Ok_0.1 == lex_errors_view(
        lexer_warnings@,
    ));
    let mut warnings = lexer_diagnostics(&lexer_warnings);
    let ghost w1 = warnings@;
    let ghost parsed = parse(normalized@, tokens_view(tokens@));
    let (nodes, parser_warnings) = match Parser::calculate(normalized, tokens) {
        Ok(x) => x,
        Err(e) => {
            assert(parsed is Err && parsed->Err_0 == e@);
            return Err((e.to_diagnostic(), warnings));
        },
    };
    assert(parsed is Ok && parsed->Ok_0.1 == parse_errors_view(parser_warnings@));
    push_parser_diagnostics(&mut warnings, &parser_warnings);
    proof {
        let lws = lex_errors_view(lexer_warnings@);
        let pws = parse_errors_view(parser_warnings@);
        assert(lws.len() == w1.len());
        assert forall|k: int| 0 <= k < lws.len() implies (#[trigger] warnings@[k])@ == stage_diagnostic(
            "Lexer"@,
            lws[k],
        ) by {
            assert(warnings@[k] == w1[k]);
        }
        assert forall|k: int| 0 <= k < pws.len() implies (#[trigger] warnings@[lws.len() + k])@
            == stage_diagnostic("Parser"@, pws[k]) by {
            assert(pws[k] == parser_warnings@[k]@);
        }
    }
    Ok((nodes, warnings))
}

/// The diagnostics of the tokenizer's warnings, in order.
fn lexer_diagnostics(ws: &Vec<LexerException>) -> (r: Vec<Diagnostic>)
    ensures
        warnings_are(r@, lex_errors_view(ws@), Seq::empty()),
{
    let mut out: Vec<Diagnostic> = Vec::new();
    push_lexer_diagnostics(&mut out, ws);
    proof {
        let lws = lex_errors_view(ws@);
        assert forall|k: int| 0 <= k < lws.len() implies (#[trigger] out@[k])@ == stage_diagnostic(
            "Lexer"@,
            lws[k],
        ) by {
            assert(lws[k] == ws@[k]@);
            assert(out@[0 + k] == out@[k]);
        }
    }
    out
}

/// `ds` shows the tokenizer's warnings `lws`, then the parser's `pws`.
pub open spec fn warnings_are(ds: Seq<Diagnostic>, lws: Seq<LexError>, pws: Seq<ParseError>) -> bool {
    &&& ds.len() == lws.len() + pws.len()
    &&& forall|k: int| 0 <= k < lws.len() ==> (#[trigger] ds[k])@ == stage_diagnostic("Lexer"@, lws[k])
    &&& forall|k: int| 0 <= k < pws.len() ==> (#[trigger] ds[lws.len() + k])@ == stage_diagnostic(
        "Parser"@,
        pws[k],
    )
}

/// Runs the front end on `script` of file `filename`: tokenizes, parses and
/// validates it. Yields the objects of its definitions and the warnings
/// raised on the way; or the diagnostic that stopped it, its level and the
/// warnings raised before it: an error for bad input, critical where
/// validation finds a node that is no definition.
pub fn run(filename: String, script: String) -> (r: Result<
    (Vec<Object>, Vec<Diagnostic>),
    (Diagnostic, ExceptionLevel, Vec<Diagnostic>),
>)
    ensures
        match tokenize(filename@, script@) {
            Err((e, lws)) => r is Err && r->Err_0.0@ == stage_diagnostic("Lexer"@, e) && r->Err_0.1
                == ExceptionLevel::Error && warnings_are(r->Err_0.2@, lws, Seq::empty()),
            Ok((ts, lws)) => match parse(normalize(script@), ts) {
                Err(e) => r is Err && r->Err_0.0@ == stage_diagnostic("Parser"@, e) && r->Err_0.1
                    == ExceptionLevel::Error && warnings_are(r->Err_0.2@, lws, Seq::empty()),
                Ok((ns, pws)) => {
                    &&& r is Ok <==> forall|k: int| 0 <= k < ns.len() ==> is_definition(#[trigger] ns[k])
                    &&& r is Err ==> r->Err_0.1 == ExceptionLevel::Critical && warnings_are(
                        r->Err_0.2@,
                        lws,
                        pws,
                    )
                    &&& r is Ok ==> r->Ok_0.0.len() == ns.len() && warnings_are(r->Ok_0.1@, lws, pws)
                    &&& r is Ok ==> forall|k: int|
                        0 <= k < ns.len() ==> object_for(#[trigger] r->Ok_0.0@[k], ns[k])
                },
            },
        },
{
    let (nodes, warnings) = match lex_and_parse(filename, script) {
        Ok(x) => x,
        Err((d, ws)) => {
            return Err((d, ExceptionLevel::Error, ws));
        },
    };
    let ghost all = nodes@;
    let ghost ns = nodes_view(all);
    proof {
        lemma_nodes_view_index(all);
    }
    match Validator::calculate(nodes) {
        Ok(objects) => {
            assert forall|k: int| 0 <= k < ns.len() implies is_definition(#[trigger] ns[k])
                && object_for(objects@[k], ns[k]) by {
                assert(ns[k] == all[k].view());
            }
            Ok((objects, warnings))
        },
        Err(e) => {
            assert(!(forall|k: int| 0 <= k < ns.len() ==> is_definition(#[trigger] ns[k]))) by {
                let k = choose|k: int| 0 <= k < all.len() && !is_definition(#[trigger] all[k].view());
                assert(ns[k] == all[k].view());
            }
            Err((e.to_diagnostic(), ExceptionLevel::Critical, warnings))
        },
    }
}

} // verus!
