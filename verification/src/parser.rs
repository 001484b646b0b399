//! The top-level parser: statements and collected errors.

use vstd::prelude::*;

use crate::ast::Statement;
use crate::ast::StmtM;
use crate::ast::stmt_view;
use crate::ast::stmts_view;
use crate::lexer::Lexer;
use crate::token::TokenM;
use crate::token::tokens_view;
use crate::token_parser::PErrM;
use crate::token_parser::ParseError;
use crate::token_parser::TokenParser;
use crate::token_parser::clamp_pos;
use crate::token_parser::perr_view;
use crate::token_parser::perrs_view;
use crate::token_parser::spec_parse_stmt;

verus! {

/// The recovery point after a failed statement: tokens are skipped up to
/// a statement boundary, the next semicolon (stepped over) or a token
/// that starts a new statement.
pub open spec fn spec_recover(ts: Seq<TokenM>, pos: int) -> int
    decreases ts.len() - pos,
{
    if pos < 0 || pos >= ts.len() {
        pos
    } else if ts[pos] == TokenM::Semicolon {
        pos + 1
    } else if ts[pos] == TokenM::Let || ts[pos] == TokenM::Return {
        pos
    } else {
        spec_recover(ts, pos + 1)
    }
}

/// The whole token stream parsed into statements and errors: statements
/// parse one after the other; a failed statement adds its error and the
/// parse recovers at the next statement boundary.
pub open spec fn spec_parse_program(
    ts: Seq<TokenM>,
    pos: int,
    nodes: Seq<StmtM>,
    errs: Seq<PErrM>,
) -> (Seq<StmtM>, Seq<PErrM>)
    decreases ts.len() - pos,
{
    if pos < 0 || pos >= ts.len() {
        (nodes, errs)
    } else {
        let s = spec_parse_stmt(ts, ts[pos], pos + 1);
        match s.r {
            Ok(st) => spec_parse_program(
                ts,
                clamp_pos(s.pos, pos + 1, ts.len() as int),
                nodes.push(st),
                errs,
            ),
            Err(e) => spec_parse_program(
                ts,
                clamp_pos(spec_recover(ts, clamp_pos(s.pos, pos + 1, ts.len() as int)), pos + 1, ts.len() as int),
                nodes,
                errs.push(e),
            ),
        }
    }
}

/// The parsed program: its statements, and the errors met on the way.
///
/// The parser does not stop at the first error; it collects each one and
/// goes on at the next statement boundary.
#[derive(Debug)]
pub struct Parser {
    pub nodes: Vec<Statement>,
    pub errors: Vec<ParseError>,
}

impl Parser {
    /// Parses all tokens of the lexer into statements and errors.
    pub fn new(lexer: Lexer) -> (r: Self)
        ensures
            (stmts_view(r.nodes@), perrs_view(r.errors@)) == spec_parse_program(
                tokens_view(lexer.tokens@),
                0,
                Seq::empty(),
                Seq::empty(),
            ),
    {
        let mut tokens = TokenParser::new(lexer.tokens);
        let nodes: Vec<Statement> = Vec::new();
        let errors: Vec<ParseError> = Vec::new();
        proof {
            assert(stmts_view(nodes@) =~= Seq::<StmtM>::empty());
            assert(perrs_view(errors@) =~= Seq::<PErrM>::empty());
        }
        parse_program_rest(&mut tokens, nodes, errors)
    }
}

/// Skips to the next statement boundary after an error.
fn recover(tp: &mut TokenParser)
    requires
        old(tp).wf(),
    ensures
        final(tp).tokens == old(tp).tokens,
        final(tp).wf(),
        old(tp).pos <= final(tp).pos,
        final(tp).pos as int == spec_recover(old(tp).toks(), old(tp).pos as int),
    decreases old(tp).tokens@.len() - old(tp).pos,
{
    if tp.pos >= tp.tokens.len() {
        return;
    }
    let is_semi = crate::token::token_eq(&tp.tokens[tp.pos], &crate::token::Token::Semicolon);
    if is_semi {
        tp.pos = tp.pos + 1;
        return;
    }
    let is_let = crate::token::token_eq(&tp.tokens[tp.pos], &crate::token::Token::Let);
    let is_return = crate::token::token_eq(&tp.tokens[tp.pos], &crate::token::Token::Return);
    if is_let || is_return {
        return;
    }
    tp.pos = tp.pos + 1;
    recover(tp);
}

/// Parses the remaining statements, accumulating nodes and errors.
fn parse_program_rest(
    tp: &mut TokenParser,
    nodes: Vec<Statement>,
    errors: Vec<ParseError>,
) -> (r: Parser)
    requires
        old(tp).wf(),
    ensures
        (stmts_view(r.nodes@), perrs_view(r.errors@)) == spec_parse_program(
            old(tp).toks(),
            old(tp).pos as int,
            stmts_view(nodes@),
            perrs_view(errors@),
        ),
    decreases old(tp).tokens@.len() - old(tp).pos,
{
    let ghost ts = old(tp).toks();
    let ghost pos0 = old(tp).pos as int;
    if tp.pos >= tp.tokens.len() {
        return Parser { nodes, errors };
    }
    let current = tp.try_next().unwrap();
    match tp.parse_statement(current) {
        Ok(st) => {
            proof {
                assert(clamp_pos(tp.pos as int, pos0 + 1, ts.len() as int) == tp.pos as int);
                assert(stmts_view(nodes@.push(st)) =~= stmts_view(nodes@).push(stmt_view(st)));
            }
            let mut nodes = nodes;
            nodes.push(st);
            parse_program_rest(tp, nodes, errors)
        },
        Err(e) => {
            proof {
                assert(clamp_pos(tp.pos as int, pos0 + 1, ts.len() as int) == tp.pos as int);
                assert(perrs_view(errors@.push(e)) =~= perrs_view(errors@).push(perr_view(e)));
            }
            recover(tp);
            proof {
                assert(clamp_pos(tp.pos as int, pos0 + 1, ts.len() as int) == tp.pos as int);
            }
            let mut errors = errors;
            errors.push(e);
            parse_program_rest(tp, nodes, errors)
        },
    }
}

} // verus!
