//! The Pratt parser: from tokens to the syntax tree.
//!
//! The executable parser is proved equal to a spec-level parser over the
//! token models.  The spec parser threads an explicit position through
//! the token sequence; positions handed back by inner parses are clamped
//! from below with [`at_least`], which never changes the value on the
//! executable path, where positions only move forward, and keeps every
//! recursion visibly well-founded.

use vstd::prelude::*;

use crate::ast::BinaryExpression;
use crate::ast::BlockStatement;
use crate::ast::CallExpression;
use crate::ast::ExprM;
use crate::ast::Expression;
use crate::ast::FunctionExpression;
use crate::ast::IfExpression;
use crate::ast::IndexExpression;
use crate::ast::LitM;
use crate::ast::Literal;
use crate::ast::StmtM;
use crate::ast::Statement;
use crate::ast::UnaryExpression;
use crate::ast::UnaryOperator;
use crate::ast::spec_binary_operator;
use crate::token::Identifier;
use crate::token::Token;
use crate::token::TokenM;
use crate::token::spec_precedence;
use crate::token::token_clone;
use crate::token::token_eq;
use crate::token::tokens_view;
use crate::ast::block_view;
use crate::ast::expr_view;
use crate::ast::lit_view;
use crate::ast::exprs_view;
use crate::ast::pairs_view;
use crate::ast::params_view;
use crate::ast::stmt_view;
use crate::ast::stmts_view;

verus! {

/// A parse error; the parser collects them and recovers at statement
/// boundaries.
#[derive(Debug, PartialEq, Eq)]
pub enum ParseError {
    /// The tokens ended where one more was needed.
    UnexpectedEof,
    /// One particular token was needed; `expected` holds a representative
    /// of it (an empty name stands for any identifier).
    UnexpectedToken { expected: Token, got: Token },
    /// A token that no expression can start with stood in expression
    /// position.
    CannotStartExpression(Token),
    /// A piece of source text that is no token of the language.
    IllegalToken,
}

/// The model of a parse error.
#[verifier::ext_equal]
pub enum PErrM {
    UnexpectedEof,
    UnexpectedToken { expected: TokenM, got: TokenM },
    CannotStartExpression(TokenM),
    IllegalToken,
}

/// The model of a parse error.
pub open spec fn perr_view(e: ParseError) -> PErrM {
    match e {
        ParseError::UnexpectedEof => PErrM::UnexpectedEof,
        ParseError::UnexpectedToken { expected, got } => PErrM::UnexpectedToken {
            expected: expected@,
            got: got@,
        },
        ParseError::CannotStartExpression(t) => PErrM::CannotStartExpression(t@),
        ParseError::IllegalToken => PErrM::IllegalToken,
    }
}

/// The models of a parse error vector, element by element.
pub open spec fn perrs_view(es: Seq<ParseError>) -> Seq<PErrM> {
    Seq::new(es.len(), |i: int| if 0 <= i < es.len() { perr_view(es[i]) } else { PErrM::UnexpectedEof })
}

/// `p`, but kept within `lo .. n`: inner parses hand back positions in
/// that range anyway, so on the executable path this changes nothing.
pub open spec fn clamp_pos(p: int, lo: int, n: int) -> int {
    if lo > n {
        n
    } else if p < lo {
        lo
    } else if p > n {
        n
    } else {
        p
    }
}

/// The outcome of parsing one expression: the node or the error, and the
/// position to go on from.
#[verifier::ext_equal]
pub struct ExpRes {
    pub r: Result<ExprM, PErrM>,
    pub pos: int,
}

/// The outcome of parsing one statement.
#[verifier::ext_equal]
pub struct StRes {
    pub r: Result<StmtM, PErrM>,
    pub pos: int,
}

/// The outcome of parsing a block body.
#[verifier::ext_equal]
pub struct BlkRes {
    pub r: Result<Seq<StmtM>, PErrM>,
    pub pos: int,
}

/// The outcome of parsing an expression list.
#[verifier::ext_equal]
pub struct ExpsRes {
    pub r: Result<Seq<ExprM>, PErrM>,
    pub pos: int,
}

/// The outcome of parsing a parameter list.
#[verifier::ext_equal]
pub struct PrsRes {
    pub r: Result<Seq<Seq<char>>, PErrM>,
    pub pos: int,
}

/// The outcome of parsing a hash literal's entries.
#[verifier::ext_equal]
pub struct PairsRes {
    pub r: Result<Seq<(ExprM, ExprM)>, PErrM>,
    pub pos: int,
}

/// The outcome of requiring one particular token.
#[verifier::ext_equal]
pub struct EatRes {
    pub err: Option<PErrM>,
    pub pos: int,
}

/// Requires the token at `pos` to be `t` and steps over it.
pub open spec fn spec_eat(ts: Seq<TokenM>, pos: int, t: TokenM) -> EatRes {
    if pos < 0 || pos >= ts.len() {
        EatRes { err: Some(PErrM::UnexpectedEof), pos }
    } else if ts[pos] == t {
        EatRes { err: None, pos: pos + 1 }
    } else {
        EatRes { err: Some(PErrM::UnexpectedToken { expected: t, got: ts[pos] }), pos }
    }
}

/// One statement, with `cur` already consumed at `pos - 1`.
///
/// `let` needs a name, `=`, an expression and `;`; `return` needs an
/// expression and `;`; anything else is an expression statement with an
/// optional `;`.
pub open spec fn spec_parse_stmt(ts: Seq<TokenM>, cur: TokenM, pos: int) -> StRes
    decreases ts.len() - pos, 5int,
{
    match cur {
        TokenM::Let => {
            if pos < 0 || pos >= ts.len() {
                StRes { r: Err(PErrM::UnexpectedEof), pos }
            } else {
                match ts[pos] {
                    TokenM::Identifier(name) => {
                        let e1 = spec_eat(ts, pos + 1, TokenM::Assign);
                        match e1.err {
                            Some(err) => StRes { r: Err(err), pos: e1.pos },
                            None => {
                                if pos + 2 >= ts.len() {
                                    StRes { r: Err(PErrM::UnexpectedEof), pos: pos + 2 }
                                } else {
                                    let v = spec_parse_expr(ts, ts[pos + 2], pos + 3, 0);
                                    match v.r {
                                        Ok(value) => {
                                            let e2 = spec_eat(
                                                ts,
                                                clamp_pos(v.pos, pos + 3, ts.len() as int),
                                                TokenM::Semicolon,
                                            );
                                            match e2.err {
                                                Some(err) => StRes { r: Err(err), pos: e2.pos },
                                                None => StRes {
                                                    r: Ok(StmtM::Let { name, value }),
                                                    pos: e2.pos,
                                                },
                                            }
                                        },
                                        Err(err) => StRes { r: Err(err), pos: v.pos },
                                    }
                                }
                            },
                        }
                    },
                    other => StRes {
                        r: Err(
                            PErrM::UnexpectedToken {
                                expected: TokenM::Identifier(Seq::empty()),
                                got: other,
                            },
                        ),
                        pos: pos + 1,
                    },
                }
            }
        },
        TokenM::Return => {
            if pos < 0 || pos >= ts.len() {
                StRes { r: Err(PErrM::UnexpectedEof), pos }
            } else {
                let v = spec_parse_expr(ts, ts[pos], pos + 1, 0);
                match v.r {
                    Ok(value) => {
                        let e2 = spec_eat(ts, clamp_pos(v.pos, pos + 1, ts.len() as int), TokenM::Semicolon);
                        match e2.err {
                            Some(err) => StRes { r: Err(err), pos: e2.pos },
                            None => StRes { r: Ok(StmtM::Return(value)), pos: e2.pos },
                        }
                    },
                    Err(err) => StRes { r: Err(err), pos: v.pos },
                }
            }
        },
        _ => {
            let v = spec_parse_expr(ts, cur, pos, 0);
            match v.r {
                Ok(value) => {
                    let p = clamp_pos(v.pos, pos, ts.len() as int);
                    if p < ts.len() && ts[p] == TokenM::Semicolon {
                        StRes { r: Ok(StmtM::Expression(value)), pos: p + 1 }
                    } else {
                        StRes { r: Ok(StmtM::Expression(value)), pos: p }
                    }
                },
                Err(err) => StRes { r: Err(err), pos: v.pos },
            }
        },
    }
}

/// One expression, with `cur` already consumed at `pos - 1`: a prefix
/// parse, then infix operators as long as they bind tighter than `prec`.
pub open spec fn spec_parse_expr(ts: Seq<TokenM>, cur: TokenM, pos: int, prec: u8) -> ExpRes
    decreases ts.len() - pos, 4int,
{
    if pos < 0 || pos > ts.len() {
        ExpRes { r: Err(PErrM::UnexpectedEof), pos }
    } else {
        let pr = spec_parse_prefix(ts, cur, pos);
        match pr.r {
            Ok(left) => spec_parse_infix_chain(
                ts,
                left,
                clamp_pos(pr.pos, pos, ts.len() as int),
                prec,
            ),
            Err(err) => ExpRes { r: Err(err), pos: pr.pos },
        }
    }
}

/// Infix continuations: binary operators, calls and indexing, while the
/// next token binds tighter than `prec` and is no semicolon.
pub open spec fn spec_parse_infix_chain(ts: Seq<TokenM>, left: ExprM, pos: int, prec: u8) -> ExpRes
    decreases ts.len() - pos, 3int,
{
    if pos < 0 || pos >= ts.len() {
        ExpRes { r: Ok(left), pos }
    } else {
        let t = ts[pos];
        if t == TokenM::Semicolon || prec >= spec_precedence(t) {
            ExpRes { r: Ok(left), pos }
        } else {
            match spec_binary_operator(t) {
                Some(op) => {
                    if pos + 1 >= ts.len() {
                        ExpRes { r: Err(PErrM::UnexpectedEof), pos: pos + 1 }
                    } else {
                        let rhs = spec_parse_expr(ts, ts[pos + 1], pos + 2, spec_precedence(t));
                        match rhs.r {
                            Ok(right) => spec_parse_infix_chain(
                                ts,
                                ExprM::Binary { op, lhs: Box::new(left), rhs: Box::new(right) },
                                clamp_pos(rhs.pos, pos + 2, ts.len() as int),
                                prec,
                            ),
                            Err(err) => ExpRes { r: Err(err), pos: rhs.pos },
                        }
                    }
                },
                None => {
                    if t == TokenM::LParen {
                        let args = spec_parse_args(ts, pos + 1);
                        match args.r {
                            Ok(arguments) => spec_parse_infix_chain(
                                ts,
                                ExprM::Call { callee: Box::new(left), args: arguments },
                                clamp_pos(args.pos, pos + 2, ts.len() as int),
                                prec,
                            ),
                            Err(err) => ExpRes { r: Err(err), pos: args.pos },
                        }
                    } else if t == TokenM::LBracket {
                        if pos + 1 >= ts.len() {
                            ExpRes { r: Err(PErrM::UnexpectedEof), pos: pos + 1 }
                        } else {
                            let ix = spec_parse_expr(ts, ts[pos + 1], pos + 2, 0);
                            match ix.r {
                                Ok(index) => {
                                    let e = spec_eat(
                                        ts,
                                        clamp_pos(ix.pos, pos + 2, ts.len() as int),
                                        TokenM::RBracket,
                                    );
                                    match e.err {
                                        Some(err) => ExpRes { r: Err(err), pos: e.pos },
                                        None => spec_parse_infix_chain(
                                            ts,
                                            ExprM::Index {
                                                container: Box::new(left),
                                                index: Box::new(index),
                                            },
                                            clamp_pos(e.pos, pos + 3, ts.len() as int),
                                            prec,
                                        ),
                                    }
                                },
                                Err(err) => ExpRes { r: Err(err), pos: ix.pos },
                            }
                        }
                    } else {
                        ExpRes { r: Ok(left), pos }
                    }
                },
            }
        }
    }
}

/// A prefix parse: literals and names stand alone; `!`, `-`, grouping,
/// conditionals, function literals, array and hash literals open their
/// own forms.
pub open spec fn spec_parse_prefix(ts: Seq<TokenM>, cur: TokenM, pos: int) -> ExpRes
    decreases ts.len() - pos, 2int,
{
    match cur {
        TokenM::Identifier(name) => ExpRes { r: Ok(ExprM::Identifier(name)), pos },
        TokenM::Int(i) => ExpRes { r: Ok(ExprM::Literal(LitM::Int(i))), pos },
        TokenM::String(s) => ExpRes { r: Ok(ExprM::Literal(LitM::String(s))), pos },
        TokenM::True => ExpRes { r: Ok(ExprM::Literal(LitM::True)), pos },
        TokenM::False => ExpRes { r: Ok(ExprM::Literal(LitM::False)), pos },
        TokenM::Nil => ExpRes { r: Ok(ExprM::Literal(LitM::Nil)), pos },
        TokenM::Bang => spec_parse_unary(ts, UnaryOperator::Not, pos),
        TokenM::Minus => spec_parse_unary(ts, UnaryOperator::Minus, pos),
        TokenM::LParen => {
            if pos >= ts.len() {
                ExpRes { r: Err(PErrM::UnexpectedEof), pos }
            } else {
                let inner = spec_parse_expr(ts, ts[pos], pos + 1, 0);
                match inner.r {
                    Ok(value) => {
                        let e = spec_eat(ts, clamp_pos(inner.pos, pos + 1, ts.len() as int), TokenM::RParen);
                        match e.err {
                            Some(err) => ExpRes { r: Err(err), pos: e.pos },
                            None => ExpRes { r: Ok(value), pos: e.pos },
                        }
                    },
                    Err(err) => ExpRes { r: Err(err), pos: inner.pos },
                }
            }
        },
        TokenM::If => spec_parse_if(ts, pos),
        TokenM::Function => spec_parse_fn(ts, pos),
        TokenM::LBracket => {
            let items = spec_parse_array_items(ts, pos);
            match items.r {
                Ok(elements) => ExpRes {
                    r: Ok(ExprM::Literal(LitM::Array(elements))),
                    pos: items.pos,
                },
                Err(err) => ExpRes { r: Err(err), pos: items.pos },
            }
        },
        TokenM::LBrace => {
            let entries = spec_parse_hash_items(ts, pos);
            match entries.r {
                Ok(pairs) => ExpRes { r: Ok(ExprM::Literal(LitM::Hash(pairs))), pos: entries.pos },
                Err(err) => ExpRes { r: Err(err), pos: entries.pos },
            }
        },
        TokenM::Illegal => ExpRes { r: Err(PErrM::IllegalToken), pos },
        other => ExpRes { r: Err(PErrM::CannotStartExpression(other)), pos },
    }
}

/// A unary operator applied to an operand parsed at unary precedence.
pub open spec fn spec_parse_unary(ts: Seq<TokenM>, op: UnaryOperator, pos: int) -> ExpRes
    decreases ts.len() - pos, 0int,
{
    if pos < 0 || pos >= ts.len() {
        ExpRes { r: Err(PErrM::UnexpectedEof), pos }
    } else {
        let operand = spec_parse_expr(ts, ts[pos], pos + 1, 6);
        match operand.r {
            Ok(value) => ExpRes {
                r: Ok(ExprM::Unary { op, operand: Box::new(value) }),
                pos: operand.pos,
            },
            Err(err) => ExpRes { r: Err(err), pos: operand.pos },
        }
    }
}

/// An `if`: `( condition ) { consequence }` with an optional
/// `else { alternative }`.
pub open spec fn spec_parse_if(ts: Seq<TokenM>, pos: int) -> ExpRes
    decreases ts.len() - pos, 0int,
{
    let e1 = spec_eat(ts, pos, TokenM::LParen);
    match e1.err {
        Some(err) => ExpRes { r: Err(err), pos: e1.pos },
        None => {
            if pos + 1 >= ts.len() {
                ExpRes { r: Err(PErrM::UnexpectedEof), pos: pos + 1 }
            } else {
                let cond = spec_parse_expr(ts, ts[pos + 1], pos + 2, 0);
                match cond.r {
                    Ok(condition) => {
                        let e2 = spec_eat(ts, clamp_pos(cond.pos, pos + 2, ts.len() as int), TokenM::RParen);
                        match e2.err {
                            Some(err) => ExpRes { r: Err(err), pos: e2.pos },
                            None => {
                                let e3 = spec_eat(ts, e2.pos, TokenM::LBrace);
                                match e3.err {
                                    Some(err) => ExpRes { r: Err(err), pos: e3.pos },
                                    None => {
                                        let cons = spec_parse_block(
                                            ts,
                                            clamp_pos(e3.pos, pos + 3, ts.len() as int),
                                            Seq::empty(),
                                        );
                                        match cons.r {
                                            Ok(consequence) => {
                                                let p = clamp_pos(cons.pos, pos + 4, ts.len() as int);
                                                if p < ts.len() && ts[p] == TokenM::Else {
                                                    let e4 = spec_eat(ts, p + 1, TokenM::LBrace);
                                                    match e4.err {
                                                        Some(err) => ExpRes {
                                                            r: Err(err),
                                                            pos: e4.pos,
                                                        },
                                                        None => {
                                                            let alt = spec_parse_block(
                                                                ts,
                                                                p + 2,
                                                                Seq::empty(),
                                                            );
                                                            match alt.r {
                                                                Ok(alternative) => ExpRes {
                                                                    r: Ok(
                                                                        ExprM::If {
                                                                            cond: Box::new(condition),
                                                                            cons: consequence,
                                                                            alt: Some(alternative),
                                                                        },
                                                                    ),
                                                                    pos: alt.pos,
                                                                },
                                                                Err(err) => ExpRes {
                                                                    r: Err(err),
                                                                    pos: alt.pos,
                                                                },
                                                            }
                                                        },
                                                    }
                                                } else {
                                                    ExpRes {
                                                        r: Ok(
                                                            ExprM::If {
                                                                cond: Box::new(condition),
                                                                cons: consequence,
                                                                alt: None,
                                                            },
                                                        ),
                                                        pos: p,
                                                    }
                                                }
                                            },
                                            Err(err) => ExpRes { r: Err(err), pos: cons.pos },
                                        }
                                    },
                                }
                            },
                        }
                    },
                    Err(err) => ExpRes { r: Err(err), pos: cond.pos },
                }
            }
        },
    }
}

/// A function literal: `( parameters ) { body }`.
pub open spec fn spec_parse_fn(ts: Seq<TokenM>, pos: int) -> ExpRes
    decreases ts.len() - pos, 0int,
{
    let e1 = spec_eat(ts, pos, TokenM::LParen);
    match e1.err {
        Some(err) => ExpRes { r: Err(err), pos: e1.pos },
        None => {
            let params = spec_parse_params(ts, pos + 1, Seq::empty());
            match params.r {
                Ok(parameters) => {
                    let e2 = spec_eat(ts, clamp_pos(params.pos, pos + 2, ts.len() as int), TokenM::LBrace);
                    match e2.err {
                        Some(err) => ExpRes { r: Err(err), pos: e2.pos },
                        None => {
                            let body = spec_parse_block(ts, clamp_pos(e2.pos, pos + 3, ts.len() as int), Seq::empty());
                            match body.r {
                                Ok(b) => ExpRes {
                                    r: Ok(ExprM::Function { params: parameters, body: b }),
                                    pos: body.pos,
                                },
                                Err(err) => ExpRes { r: Err(err), pos: body.pos },
                            }
                        },
                    }
                },
                Err(err) => ExpRes { r: Err(err), pos: params.pos },
            }
        },
    }
}

/// The statements of a block, up to and over the closing brace.
pub open spec fn spec_parse_block(ts: Seq<TokenM>, pos: int, acc: Seq<StmtM>) -> BlkRes
    decreases ts.len() - pos, 6int,
{
    if pos < 0 || pos >= ts.len() {
        BlkRes { r: Err(PErrM::UnexpectedEof), pos }
    } else if ts[pos] == TokenM::RBrace {
        BlkRes { r: Ok(acc), pos: pos + 1 }
    } else {
        let s = spec_parse_stmt(ts, ts[pos], pos + 1);
        match s.r {
            Ok(st) => spec_parse_block(ts, clamp_pos(s.pos, pos + 1, ts.len() as int), acc.push(st)),
            Err(err) => BlkRes { r: Err(err), pos: s.pos },
        }
    }
}

/// Call arguments after the opening parenthesis: empty, or expressions
/// separated by commas, closed by `)`.
pub open spec fn spec_parse_args(ts: Seq<TokenM>, pos: int) -> ExpsRes
    decreases ts.len() - pos, 1int,
{
    if pos < 0 || pos >= ts.len() {
        ExpsRes { r: Err(PErrM::UnexpectedEof), pos }
    } else if ts[pos] == TokenM::RParen {
        ExpsRes { r: Ok(Seq::empty()), pos: pos + 1 }
    } else {
        let first = spec_parse_expr(ts, ts[pos], pos + 1, 0);
        match first.r {
            Ok(e) => spec_parse_more_exprs(
                ts,
                clamp_pos(first.pos, pos + 1, ts.len() as int),
                seq![e],
                TokenM::RParen,
            ),
            Err(err) => ExpsRes { r: Err(err), pos: first.pos },
        }
    }
}

/// Array elements after the opening bracket: empty, or expressions
/// separated by commas, closed by `]`.
pub open spec fn spec_parse_array_items(ts: Seq<TokenM>, pos: int) -> ExpsRes
    decreases ts.len() - pos, 1int,
{
    if pos < 0 || pos >= ts.len() {
        ExpsRes { r: Err(PErrM::UnexpectedEof), pos }
    } else if ts[pos] == TokenM::RBracket {
        ExpsRes { r: Ok(Seq::empty()), pos: pos + 1 }
    } else {
        let first = spec_parse_expr(ts, ts[pos], pos + 1, 0);
        match first.r {
            Ok(e) => spec_parse_more_exprs(
                ts,
                clamp_pos(first.pos, pos + 1, ts.len() as int),
                seq![e],
                TokenM::RBracket,
            ),
            Err(err) => ExpsRes { r: Err(err), pos: first.pos },
        }
    }
}

/// Further comma-led expressions, closed by `closing`.
pub open spec fn spec_parse_more_exprs(
    ts: Seq<TokenM>,
    pos: int,
    acc: Seq<ExprM>,
    closing: TokenM,
) -> ExpsRes
    decreases ts.len() - pos, 0int,
{
    if pos < 0 || pos >= ts.len() {
        ExpsRes { r: Err(PErrM::UnexpectedEof), pos }
    } else if ts[pos] == TokenM::Comma {
        if pos + 1 >= ts.len() {
            ExpsRes { r: Err(PErrM::UnexpectedEof), pos: pos + 1 }
        } else {
            let e = spec_parse_expr(ts, ts[pos + 1], pos + 2, 0);
            match e.r {
                Ok(item) => spec_parse_more_exprs(
                    ts,
                    clamp_pos(e.pos, pos + 2, ts.len() as int),
                    acc.push(item),
                    closing,
                ),
                Err(err) => ExpsRes { r: Err(err), pos: e.pos },
            }
        }
    } else if ts[pos] == closing {
        ExpsRes { r: Ok(acc), pos: pos + 1 }
    } else {
        ExpsRes {
            r: Err(PErrM::UnexpectedToken { expected: closing, got: ts[pos] }),
            pos,
        }
    }
}

/// Parameter names after the opening parenthesis: empty, or identifiers
/// separated by commas, closed by `)`.
pub open spec fn spec_parse_params(ts: Seq<TokenM>, pos: int, acc: Seq<Seq<char>>) -> PrsRes
    decreases ts.len() - pos, 1int,
{
    if pos < 0 || pos >= ts.len() {
        PrsRes { r: Err(PErrM::UnexpectedEof), pos }
    } else if ts[pos] == TokenM::RParen && acc.len() == 0 {
        PrsRes { r: Ok(acc), pos: pos + 1 }
    } else {
        match ts[pos] {
            TokenM::Identifier(name) => spec_parse_more_params(ts, pos + 1, acc.push(name)),
            other => PrsRes {
                r: Err(
                    PErrM::UnexpectedToken {
                        expected: TokenM::Identifier(Seq::empty()),
                        got: other,
                    },
                ),
                pos: pos + 1,
            },
        }
    }
}

/// Further comma-led parameter names, closed by `)`.
pub open spec fn spec_parse_more_params(ts: Seq<TokenM>, pos: int, acc: Seq<Seq<char>>) -> PrsRes
    decreases ts.len() - pos, 0int,
{
    if pos < 0 || pos >= ts.len() {
        PrsRes { r: Err(PErrM::UnexpectedEof), pos }
    } else if ts[pos] == TokenM::Comma {
        if pos + 1 >= ts.len() {
            PrsRes { r: Err(PErrM::UnexpectedEof), pos: pos + 1 }
        } else {
            match ts[pos + 1] {
                TokenM::Identifier(name) => spec_parse_more_params(ts, pos + 2, acc.push(name)),
                other => PrsRes {
                    r: Err(
                        PErrM::UnexpectedToken {
                            expected: TokenM::Identifier(Seq::empty()),
                            got: other,
                        },
                    ),
                    pos: pos + 2,
                },
            }
        }
    } else if ts[pos] == TokenM::RParen {
        PrsRes { r: Ok(acc), pos: pos + 1 }
    } else {
        PrsRes {
            r: Err(PErrM::UnexpectedToken { expected: TokenM::RParen, got: ts[pos] }),
            pos,
        }
    }
}

/// Hash entries after the opening brace: empty, or `key : value` pairs
/// separated by commas, closed by `}`.
pub open spec fn spec_parse_hash_items(ts: Seq<TokenM>, pos: int) -> PairsRes
    decreases ts.len() - pos, 1int,
{
    if pos < 0 || pos >= ts.len() {
        PairsRes { r: Err(PErrM::UnexpectedEof), pos }
    } else if ts[pos] == TokenM::RBrace {
        PairsRes { r: Ok(Seq::empty()), pos: pos + 1 }
    } else {
        let first = spec_parse_hash_pair(ts, pos);
        match first.r {
            Ok(pair) => spec_parse_more_pairs(ts, clamp_pos(first.pos, pos + 1, ts.len() as int), seq![pair]),
            Err(err) => PairsRes { r: Err(err), pos: first.pos },
        }
    }
}

/// One `key : value` entry.
pub open spec fn spec_parse_hash_pair(ts: Seq<TokenM>, pos: int) -> HPairRes
    decreases ts.len() - pos, 0int,
{
    if pos < 0 || pos >= ts.len() {
        HPairRes { r: Err(PErrM::UnexpectedEof), pos }
    } else {
        let k = spec_parse_expr(ts, ts[pos], pos + 1, 0);
        match k.r {
            Ok(key) => {
                let e = spec_eat(ts, clamp_pos(k.pos, pos + 1, ts.len() as int), TokenM::Colon);
                match e.err {
                    Some(err) => HPairRes { r: Err(err), pos: e.pos },
                    None => {
                        if e.pos >= ts.len() {
                            HPairRes { r: Err(PErrM::UnexpectedEof), pos: e.pos }
                        } else {
                            let v = spec_parse_expr(ts, ts[e.pos], e.pos + 1, 0);
                            match v.r {
                                Ok(value) => HPairRes {
                                    r: Ok((key, value)),
                                    pos: clamp_pos(v.pos, e.pos + 1, ts.len() as int),
                                },
                                Err(err) => HPairRes { r: Err(err), pos: v.pos },
                            }
                        }
                    },
                }
            },
            Err(err) => HPairRes { r: Err(err), pos: k.pos },
        }
    }
}

/// The outcome of parsing one hash entry.
#[verifier::ext_equal]
pub struct HPairRes {
    pub r: Result<(ExprM, ExprM), PErrM>,
    pub pos: int,
}

/// Further comma-led hash entries, closed by `}`.
pub open spec fn spec_parse_more_pairs(
    ts: Seq<TokenM>,
    pos: int,
    acc: Seq<(ExprM, ExprM)>,
) -> PairsRes
    decreases ts.len() - pos, 0int,
{
    if pos < 0 || pos >= ts.len() {
        PairsRes { r: Err(PErrM::UnexpectedEof), pos }
    } else if ts[pos] == TokenM::Comma {
        let pair = spec_parse_hash_pair(ts, pos + 1);
        match pair.r {
            Ok(p) => spec_parse_more_pairs(ts, clamp_pos(pair.pos, pos + 2, ts.len() as int), acc.push(p)),
            Err(err) => PairsRes { r: Err(err), pos: pair.pos },
        }
    } else if ts[pos] == TokenM::RBrace {
        PairsRes { r: Ok(acc), pos: pos + 1 }
    } else {
        PairsRes {
            r: Err(PErrM::UnexpectedToken { expected: TokenM::RBrace, got: ts[pos] }),
            pos,
        }
    }
}


/// The executable parser state: the tokens and a cursor into them.
pub struct TokenParser {
    pub tokens: Vec<Token>,
    pub pos: usize,
}

impl TokenParser {
    /// The token models this parser reads.
    pub open spec fn toks(&self) -> Seq<TokenM> {
        tokens_view(self.tokens@)
    }

    /// The cursor never leaves the token vector.
    pub open spec fn wf(&self) -> bool {
        self.pos <= self.tokens@.len()
    }

    pub fn new(tokens: Vec<Token>) -> (r: Self)
        ensures
            r.toks() == tokens_view(tokens@),
            r.pos == 0,
            r.wf(),
    {
        Self { tokens, pos: 0 }
    }

    /// Steps over the token at the cursor when it is `expected`.
    fn try_eat(&mut self, expected: Token) -> (r: Result<(), ParseError>)
        requires
            old(self).wf(),
        ensures
            final(self).tokens == old(self).tokens,
            final(self).wf(),
            old(self).pos <= final(self).pos,
            ({
                let e = spec_eat(old(self).toks(), old(self).pos as int, expected@);
                &&& final(self).pos == e.pos
                &&& match r {
                    Ok(_) => e.err is None,
                    Err(pe) => e.err == Some(perr_view(pe)),
                }
            }),
    {
        if self.pos >= self.tokens.len() {
            return Err(ParseError::UnexpectedEof);
        }
        let got = &self.tokens[self.pos];
        if token_eq(got, &expected) {
            self.pos = self.pos + 1;
            Ok(())
        } else {
            Err(ParseError::UnexpectedToken { expected, got: token_clone(got) })
        }
    }

    /// Takes the token at the cursor, or the end-of-input error.
    pub(crate) fn try_next(&mut self) -> (r: Result<Token, ParseError>)
        requires
            old(self).wf(),
        ensures
            final(self).tokens == old(self).tokens,
            final(self).wf(),
            match r {
                Ok(t) => old(self).pos < old(self).toks().len() && t@ == old(self).toks()[
                    old(self).pos as int
                ] && final(self).pos == old(self).pos + 1,
                Err(pe) => old(self).pos == old(self).toks().len() && perr_view(pe)
                    == PErrM::UnexpectedEof && final(self).pos == old(self).pos,
            },
    {
        if self.pos >= self.tokens.len() {
            return Err(ParseError::UnexpectedEof);
        }
        let t = token_clone(&self.tokens[self.pos]);
        self.pos = self.pos + 1;
        Ok(t)
    }

    /// One statement, with `token` already consumed just before the
    /// cursor; on an error the cursor stays where parsing stopped, for
    /// the caller's recovery.
    pub fn parse_statement(&mut self, token: Token) -> (r: Result<Statement, ParseError>)
        requires
            old(self).wf(),
        ensures
            final(self).tokens == old(self).tokens,
            final(self).wf(),
            old(self).pos <= final(self).pos,
            ({
                let res = spec_parse_stmt(old(self).toks(), token@, old(self).pos as int);
                &&& final(self).pos == res.pos
                &&& match r {
                    Ok(st) => res.r == Ok::<StmtM, PErrM>(stmt_view(st)),
                    Err(pe) => res.r == Err::<StmtM, PErrM>(perr_view(pe)),
                }
            }),
        decreases old(self).tokens@.len() - old(self).pos, 7int,
    {
        let ghost res = spec_parse_stmt(old(self).toks(), token@, old(self).pos as int);
        match token {
            Token::Let => {
                let ident_token = self.try_next()?;
                let identifier = match ident_token {
                    Token::Identifier(name) => name,
                    other => {
                        return Err(ParseError::UnexpectedToken {
                            expected: Token::Identifier(Identifier::new(String::new())),
                            got: other,
                        });
                    },
                };
                self.try_eat(Token::Assign)?;
                let first = self.try_next()?;
                let value = self.parse_expression(first, 0)?;
                self.try_eat(Token::Semicolon)?;
                let st = Statement::Let { identifier, value: Box::new(value) };
                proof {
                    assert(res.r == Ok::<StmtM, PErrM>(stmt_view(st)));
                }
                Ok(st)
            },
            Token::Return => {
                let first = self.try_next()?;
                let value = self.parse_expression(first, 0)?;
                self.try_eat(Token::Semicolon)?;
                let st = Statement::Return(Box::new(value));
                proof {
                    assert(res.r == Ok::<StmtM, PErrM>(stmt_view(st)));
                }
                Ok(st)
            },
            other => {
                let value = self.parse_expression(other, 0)?;
                // A trailing semicolon after an expression statement is
                // optional.
                if self.pos < self.tokens.len() {
                    let is_semi = token_eq(&self.tokens[self.pos], &Token::Semicolon);
                    if is_semi {
                        self.pos = self.pos + 1;
                    }
                }
                let st = Statement::Expression(Box::new(value));
                proof {
                    assert(res.r == Ok::<StmtM, PErrM>(stmt_view(st)));
                }
                Ok(st)
            },
        }
    }

    /// One expression: a prefix parse, then infix continuations.
    fn parse_expression(&mut self, cur: Token, prec: u8) -> (r: Result<Expression, ParseError>)
        requires
            old(self).wf(),
        ensures
            final(self).tokens == old(self).tokens,
            final(self).wf(),
            old(self).pos <= final(self).pos,
            ({
                let res = spec_parse_expr(old(self).toks(), cur@, old(self).pos as int, prec);
                &&& final(self).pos == res.pos
                &&& match r {
                    Ok(e) => res.r == Ok::<ExprM, PErrM>(expr_view(e)),
                    Err(pe) => res.r == Err::<ExprM, PErrM>(perr_view(pe)),
                }
            }),
        decreases old(self).tokens@.len() - old(self).pos, 6int,
    {
        let left = self.parse_prefix(&cur)?;
        proof {
            assert(clamp_pos(self.pos as int, old(self).pos as int, old(self).toks().len() as int)
                == self.pos as int);
        }
        self.parse_infix_chain(left, prec)
    }

    /// Infix continuations while the next token binds tighter than
    /// `prec` and is no semicolon.
    fn parse_infix_chain(&mut self, left: Expression, prec: u8) -> (r: Result<
        Expression,
        ParseError,
    >)
        requires
            old(self).wf(),
        ensures
            final(self).tokens == old(self).tokens,
            final(self).wf(),
            old(self).pos <= final(self).pos,
            ({
                let res = spec_parse_infix_chain(
                    old(self).toks(),
                    expr_view(left),
                    old(self).pos as int,
                    prec,
                );
                &&& final(self).pos == res.pos
                &&& match r {
                    Ok(e) => res.r == Ok::<ExprM, PErrM>(expr_view(e)),
                    Err(pe) => res.r == Err::<ExprM, PErrM>(perr_view(pe)),
                }
            }),
        decreases old(self).tokens@.len() - old(self).pos, 5int,
    {
        let ghost ts = old(self).toks();
        let ghost pos0 = old(self).pos as int;
        if self.pos >= self.tokens.len() {
            return Ok(left);
        }
        let t = token_clone(&self.tokens[self.pos]);
        let is_semi = token_eq(&t, &Token::Semicolon);
        if is_semi || prec >= t.precedence() {
            return Ok(left);
        }
        match t.binary_expression_type() {
            Some(op) => {
                self.pos = self.pos + 1;
                let first = self.try_next()?;
                let right = self.parse_expression(first, t.precedence())?;
                proof {
                    assert(clamp_pos(self.pos as int, pos0 + 2, ts.len() as int)
                        == self.pos as int);
                }
                let new_left = Expression::BinaryExp(BinaryExpression {
                    operator: op,
                    lhs: Box::new(left),
                    rhs: Box::new(right),
                });
                self.parse_infix_chain(new_left, prec)
            },
            None => {
                let is_lparen = token_eq(&t, &Token::LParen);
                let is_lbracket = token_eq(&t, &Token::LBracket);
                if is_lparen {
                    self.pos = self.pos + 1;
                    let arguments = self.parse_call_arguments()?;
                    proof {
                        assert(clamp_pos(self.pos as int, pos0 + 2, ts.len() as int)
                            == self.pos as int);
                    }
                    let new_left = Expression::Call(CallExpression {
                        function: Box::new(left),
                        arguments,
                    });
                    self.parse_infix_chain(new_left, prec)
                } else if is_lbracket {
                    self.pos = self.pos + 1;
                    let first = self.try_next()?;
                    let index = self.parse_expression(first, 0)?;
                    proof {
                        assert(clamp_pos(self.pos as int, pos0 + 2, ts.len() as int)
                            == self.pos as int);
                    }
                    self.try_eat(Token::RBracket)?;
                    proof {
                        assert(clamp_pos(self.pos as int, pos0 + 3, ts.len() as int)
                            == self.pos as int);
                    }
                    let new_left = Expression::IndexExpression(IndexExpression {
                        container: Box::new(left),
                        index: Box::new(index),
                    });
                    self.parse_infix_chain(new_left, prec)
                } else {
                    Ok(left)
                }
            },
        }
    }

    /// A prefix parse.
    fn parse_prefix(&mut self, cur: &Token) -> (r: Result<Expression, ParseError>)
        requires
            old(self).wf(),
        ensures
            final(self).tokens == old(self).tokens,
            final(self).wf(),
            old(self).pos <= final(self).pos,
            ({
                let res = spec_parse_prefix(old(self).toks(), cur@, old(self).pos as int);
                &&& final(self).pos == res.pos
                &&& match r {
                    Ok(e) => res.r == Ok::<ExprM, PErrM>(expr_view(e)),
                    Err(pe) => res.r == Err::<ExprM, PErrM>(perr_view(pe)),
                }
            }),
        decreases old(self).tokens@.len() - old(self).pos, 4int,
    {
        let ghost res = spec_parse_prefix(old(self).toks(), cur@, old(self).pos as int);
        match cur {
            Token::Identifier(name) => Ok(Expression::Identifier(Identifier::new(name.inner()))),
            Token::Int(i) => {
                let e = Expression::Literal(Literal::Int(*i));
                proof {
                    assert(expr_view(e) == ExprM::Literal(lit_view(Literal::Int(*i))));
                }
                Ok(e)
            },
            Token::String(s) => {
                let copy = s.clone();
                let e = Expression::Literal(Literal::String(copy));
                proof {
                    assert(expr_view(e) == ExprM::Literal(lit_view(Literal::String(copy))));
                    assert(lit_view(Literal::String(copy)) == LitM::String(s@));
                }
                Ok(e)
            },
            Token::True => {
                let e = Expression::Literal(Literal::True);
                proof {
                    assert(expr_view(e) == ExprM::Literal(lit_view(Literal::True)));
                }
                Ok(e)
            },
            Token::False => {
                let e = Expression::Literal(Literal::False);
                proof {
                    assert(expr_view(e) == ExprM::Literal(lit_view(Literal::False)));
                }
                Ok(e)
            },
            Token::Nil => {
                let e = Expression::Literal(Literal::Nil);
                proof {
                    assert(expr_view(e) == ExprM::Literal(lit_view(Literal::Nil)));
                }
                Ok(e)
            },
            Token::Bang => self.parse_unary_expression(UnaryOperator::Not),
            Token::Minus => self.parse_unary_expression(UnaryOperator::Minus),
            Token::LParen => self.parse_grouped_expression(),
            Token::If => self.parse_if_expression(),
            Token::Function => self.parse_fn_expression(),
            Token::LBracket => {
                let elements = self.parse_array_items()?;
                let e = Expression::Literal(Literal::Array(elements));
                proof {
                    assert(expr_view(e) == ExprM::Literal(lit_view(Literal::Array(elements))));
                    assert(lit_view(Literal::Array(elements)) == LitM::Array(exprs_view(elements@)));
                    assert(res.r == Ok::<ExprM, PErrM>(expr_view(e)));
                }
                Ok(e)
            },
            Token::LBrace => {
                let pairs = self.parse_hash_items()?;
                let e = Expression::Literal(Literal::Hash(pairs));
                proof {
                    assert(expr_view(e) == ExprM::Literal(lit_view(Literal::Hash(pairs))));
                    assert(lit_view(Literal::Hash(pairs)) == LitM::Hash(pairs_view(pairs@)));
                    assert(res.r == Ok::<ExprM, PErrM>(expr_view(e)));
                }
                Ok(e)
            },
            Token::Illegal => Err(ParseError::IllegalToken),
            other => Err(ParseError::CannotStartExpression(token_clone(other))),
        }
    }

    /// A unary operator applied to an operand at unary precedence.
    fn parse_unary_expression(&mut self, op: UnaryOperator) -> (r: Result<Expression, ParseError>)
        requires
            old(self).wf(),
        ensures
            final(self).tokens == old(self).tokens,
            final(self).wf(),
            old(self).pos <= final(self).pos,
            ({
                let res = spec_parse_unary(old(self).toks(), op, old(self).pos as int);
                &&& final(self).pos == res.pos
                &&& match r {
                    Ok(e) => res.r == Ok::<ExprM, PErrM>(expr_view(e)),
                    Err(pe) => res.r == Err::<ExprM, PErrM>(perr_view(pe)),
                }
            }),
        decreases old(self).tokens@.len() - old(self).pos, 3int,
    {
        let first = self.try_next()?;
        let value = self.parse_expression(first, 6)?;
        Ok(Expression::UnaryExpression(UnaryExpression { operator: op, value: Box::new(value) }))
    }

    /// A parenthesised expression.
    fn parse_grouped_expression(&mut self) -> (r: Result<Expression, ParseError>)
        requires
            old(self).wf(),
        ensures
            final(self).tokens == old(self).tokens,
            final(self).wf(),
            old(self).pos <= final(self).pos,
            ({
                let res = spec_parse_prefix(old(self).toks(), TokenM::LParen, old(self).pos as int);
                &&& final(self).pos == res.pos
                &&& match r {
                    Ok(e) => res.r == Ok::<ExprM, PErrM>(expr_view(e)),
                    Err(pe) => res.r == Err::<ExprM, PErrM>(perr_view(pe)),
                }
            }),
        decreases old(self).tokens@.len() - old(self).pos, 3int,
    {
        let ghost ts = old(self).toks();
        let ghost pos0 = old(self).pos as int;
        if self.pos >= self.tokens.len() {
            return Err(ParseError::UnexpectedEof);
        }
        let first = self.try_next()?;
        let value = self.parse_expression(first, 0)?;
        proof {
            assert(clamp_pos(self.pos as int, pos0 + 1, ts.len() as int) == self.pos as int);
        }
        self.try_eat(Token::RParen)?;
        Ok(value)
    }

    /// An `if` expression.
    fn parse_if_expression(&mut self) -> (r: Result<Expression, ParseError>)
        requires
            old(self).wf(),
        ensures
            final(self).tokens == old(self).tokens,
            final(self).wf(),
            old(self).pos <= final(self).pos,
            ({
                let res = spec_parse_if(old(self).toks(), old(self).pos as int);
                &&& final(self).pos == res.pos
                &&& match r {
                    Ok(e) => res.r == Ok::<ExprM, PErrM>(expr_view(e)),
                    Err(pe) => res.r == Err::<ExprM, PErrM>(perr_view(pe)),
                }
            }),
        decreases old(self).tokens@.len() - old(self).pos, 3int,
    {
        let ghost ts = old(self).toks();
        let ghost pos0 = old(self).pos as int;
        self.try_eat(Token::LParen)?;
        let first = self.try_next()?;
        let condition = self.parse_expression(first, 0)?;
        proof {
            assert(clamp_pos(self.pos as int, pos0 + 2, ts.len() as int) == self.pos as int);
        }
        self.try_eat(Token::RParen)?;
        self.try_eat(Token::LBrace)?;
        proof {
            assert(clamp_pos(self.pos as int, pos0 + 3, ts.len() as int) == self.pos as int);
        }
        let consequence = self.parse_block()?;
        proof {
            assert(clamp_pos(self.pos as int, pos0 + 4, ts.len() as int) == self.pos as int);
        }
        let has_else = self.pos < self.tokens.len() && token_eq(
            &self.tokens[self.pos],
            &Token::Else,
        );
        if !has_else {
            let e = Expression::If(IfExpression {
                condition: Box::new(condition),
                consequence: BlockStatement(consequence),
                alternative: None,
            });
            proof {
                assert(block_view(BlockStatement(consequence)) == stmts_view(consequence@));
                assert(spec_parse_if(ts, pos0).r == Ok::<ExprM, PErrM>(expr_view(e)));
            }
            return Ok(e);
        }
        self.pos = self.pos + 1;
        self.try_eat(Token::LBrace)?;
        let alternative = self.parse_block()?;
        let e = Expression::If(IfExpression {
            condition: Box::new(condition),
            consequence: BlockStatement(consequence),
            alternative: Some(BlockStatement(alternative)),
        });
        proof {
            assert(block_view(BlockStatement(consequence)) == stmts_view(consequence@));
            assert(block_view(BlockStatement(alternative)) == stmts_view(alternative@));
            assert(spec_parse_if(ts, pos0).r == Ok::<ExprM, PErrM>(expr_view(e)));
        }
        Ok(e)
    }

    /// A function literal.
    fn parse_fn_expression(&mut self) -> (r: Result<Expression, ParseError>)
        requires
            old(self).wf(),
        ensures
            final(self).tokens == old(self).tokens,
            final(self).wf(),
            old(self).pos <= final(self).pos,
            ({
                let res = spec_parse_fn(old(self).toks(), old(self).pos as int);
                &&& final(self).pos == res.pos
                &&& match r {
                    Ok(e) => res.r == Ok::<ExprM, PErrM>(expr_view(e)),
                    Err(pe) => res.r == Err::<ExprM, PErrM>(perr_view(pe)),
                }
            }),
        decreases old(self).tokens@.len() - old(self).pos, 3int,
    {
        let ghost ts = old(self).toks();
        let ghost pos0 = old(self).pos as int;
        self.try_eat(Token::LParen)?;
        let parameters = self.parse_function_parameters()?;
        proof {
            assert(clamp_pos(self.pos as int, pos0 + 2, ts.len() as int) == self.pos as int);
        }
        self.try_eat(Token::LBrace)?;
        proof {
            assert(clamp_pos(self.pos as int, pos0 + 3, ts.len() as int) == self.pos as int);
        }
        let body = self.parse_block()?;
        let e = Expression::Function(FunctionExpression {
            parameters,
            body: BlockStatement(body),
        });
        proof {
            assert(block_view(BlockStatement(body)) == stmts_view(body@));
            assert(spec_parse_fn(ts, pos0).r == Ok::<ExprM, PErrM>(expr_view(e)));
        }
        Ok(e)
    }

    /// The statements of a block, up to and over the closing brace.
    fn parse_block(&mut self) -> (r: Result<Vec<Statement>, ParseError>)
        requires
            old(self).wf(),
        ensures
            final(self).tokens == old(self).tokens,
            final(self).wf(),
            old(self).pos <= final(self).pos,
            r is Ok ==> old(self).pos < final(self).pos,
            ({
                let res = spec_parse_block(old(self).toks(), old(self).pos as int, Seq::empty());
                &&& final(self).pos == res.pos
                &&& match r {
                    Ok(ss) => res.r == Ok::<Seq<StmtM>, PErrM>(stmts_view(ss@)),
                    Err(pe) => res.r == Err::<Seq<StmtM>, PErrM>(perr_view(pe)),
                }
            }),
        decreases old(self).tokens@.len() - old(self).pos, 8int,
    {
        let acc: Vec<Statement> = Vec::new();
        proof {
            assert(stmts_view(acc@) =~= Seq::<StmtM>::empty());
        }
        self.parse_block_rest(acc)
    }

    /// The remaining statements of a block, given the ones parsed so far.
    fn parse_block_rest(&mut self, acc: Vec<Statement>) -> (r: Result<Vec<Statement>, ParseError>)
        requires
            old(self).wf(),
        ensures
            final(self).tokens == old(self).tokens,
            final(self).wf(),
            old(self).pos <= final(self).pos,
            r is Ok ==> old(self).pos < final(self).pos,
            ({
                let res = spec_parse_block(old(self).toks(), old(self).pos as int, stmts_view(acc@));
                &&& final(self).pos == res.pos
                &&& match r {
                    Ok(ss) => res.r == Ok::<Seq<StmtM>, PErrM>(stmts_view(ss@)),
                    Err(pe) => res.r == Err::<Seq<StmtM>, PErrM>(perr_view(pe)),
                }
            }),
        decreases old(self).tokens@.len() - old(self).pos, 7int,
    {
        let ghost ts = old(self).toks();
        let ghost pos0 = old(self).pos as int;
        if self.pos >= self.tokens.len() {
            return Err(ParseError::UnexpectedEof);
        }
        let is_rbrace = token_eq(&self.tokens[self.pos], &Token::RBrace);
        if is_rbrace {
            self.pos = self.pos + 1;
            return Ok(acc);
        }
        let first = self.try_next()?;
        let st = self.parse_statement(first)?;
        proof {
            assert(clamp_pos(self.pos as int, pos0 + 1, ts.len() as int) == self.pos as int);
            assert(stmts_view(acc@.push(st)) =~= stmts_view(acc@).push(stmt_view(st)));
        }
        let mut acc = acc;
        acc.push(st);
        self.parse_block_rest(acc)
    }

    /// Call arguments after the opening parenthesis.
    fn parse_call_arguments(&mut self) -> (r: Result<Vec<Expression>, ParseError>)
        requires
            old(self).wf(),
        ensures
            final(self).tokens == old(self).tokens,
            final(self).wf(),
            old(self).pos <= final(self).pos,
            r is Ok ==> old(self).pos < final(self).pos,
            ({
                let res = spec_parse_args(old(self).toks(), old(self).pos as int);
                &&& final(self).pos == res.pos
                &&& match r {
                    Ok(es) => res.r == Ok::<Seq<ExprM>, PErrM>(exprs_view(es@)),
                    Err(pe) => res.r == Err::<Seq<ExprM>, PErrM>(perr_view(pe)),
                }
            }),
        decreases old(self).tokens@.len() - old(self).pos, 3int,
    {
        let ghost ts = old(self).toks();
        let ghost pos0 = old(self).pos as int;
        if self.pos >= self.tokens.len() {
            return Err(ParseError::UnexpectedEof);
        }
        let is_rparen = token_eq(&self.tokens[self.pos], &Token::RParen);
        if is_rparen {
            self.pos = self.pos + 1;
            let acc: Vec<Expression> = Vec::new();
            proof {
                assert(exprs_view(acc@) =~= Seq::<ExprM>::empty());
            }
            return Ok(acc);
        }
        let first_token = self.try_next()?;
        let first = self.parse_expression(first_token, 0)?;
        proof {
            assert(clamp_pos(self.pos as int, pos0 + 1, ts.len() as int) == self.pos as int);
        }
        let mut acc: Vec<Expression> = Vec::new();
        acc.push(first);
        proof {
            assert(exprs_view(acc@) =~= seq![expr_view(acc@[0])]);
        }
        self.parse_more_exprs(acc, Token::RParen)
    }

    /// Array elements after the opening bracket.
    fn parse_array_items(&mut self) -> (r: Result<Vec<Expression>, ParseError>)
        requires
            old(self).wf(),
        ensures
            final(self).tokens == old(self).tokens,
            final(self).wf(),
            old(self).pos <= final(self).pos,
            r is Ok ==> old(self).pos < final(self).pos,
            ({
                let res = spec_parse_array_items(old(self).toks(), old(self).pos as int);
                &&& final(self).pos == res.pos
                &&& match r {
                    Ok(es) => res.r == Ok::<Seq<ExprM>, PErrM>(exprs_view(es@)),
                    Err(pe) => res.r == Err::<Seq<ExprM>, PErrM>(perr_view(pe)),
                }
            }),
        decreases old(self).tokens@.len() - old(self).pos, 3int,
    {
        let ghost ts = old(self).toks();
        let ghost pos0 = old(self).pos as int;
        if self.pos >= self.tokens.len() {
            return Err(ParseError::UnexpectedEof);
        }
        let is_rbracket = token_eq(&self.tokens[self.pos], &Token::RBracket);
        if is_rbracket {
            self.pos = self.pos + 1;
            let acc: Vec<Expression> = Vec::new();
            proof {
                assert(exprs_view(acc@) =~= Seq::<ExprM>::empty());
            }
            return Ok(acc);
        }
        let first_token = self.try_next()?;
        let first = self.parse_expression(first_token, 0)?;
        proof {
            assert(clamp_pos(self.pos as int, pos0 + 1, ts.len() as int) == self.pos as int);
        }
        let mut acc: Vec<Expression> = Vec::new();
        acc.push(first);
        proof {
            assert(exprs_view(acc@) =~= seq![expr_view(acc@[0])]);
        }
        self.parse_more_exprs(acc, Token::RBracket)
    }

    /// Further comma-led expressions, closed by `closing`.
    fn parse_more_exprs(&mut self, acc: Vec<Expression>, closing: Token) -> (r: Result<
        Vec<Expression>,
        ParseError,
    >)
        requires
            old(self).wf(),
        ensures
            final(self).tokens == old(self).tokens,
            final(self).wf(),
            old(self).pos <= final(self).pos,
            r is Ok ==> old(self).pos < final(self).pos,
            ({
                let res = spec_parse_more_exprs(
                    old(self).toks(),
                    old(self).pos as int,
                    exprs_view(acc@),
                    closing@,
                );
                &&& final(self).pos == res.pos
                &&& match r {
                    Ok(es) => res.r == Ok::<Seq<ExprM>, PErrM>(exprs_view(es@)),
                    Err(pe) => res.r == Err::<Seq<ExprM>, PErrM>(perr_view(pe)),
                }
            }),
        decreases old(self).tokens@.len() - old(self).pos, 2int,
    {
        let ghost ts = old(self).toks();
        let ghost pos0 = old(self).pos as int;
        if self.pos >= self.tokens.len() {
            return Err(ParseError::UnexpectedEof);
        }
        let is_comma = token_eq(&self.tokens[self.pos], &Token::Comma);
        if is_comma {
            self.pos = self.pos + 1;
            let first_token = self.try_next()?;
            let item = self.parse_expression(first_token, 0)?;
            proof {
                assert(clamp_pos(self.pos as int, pos0 + 2, ts.len() as int) == self.pos as int);
                assert(exprs_view(acc@.push(item)) =~= exprs_view(acc@).push(expr_view(item)));
            }
            let mut acc = acc;
            acc.push(item);
            self.parse_more_exprs(acc, closing)
        } else {
            let is_closing = token_eq(&self.tokens[self.pos], &closing);
            if is_closing {
                self.pos = self.pos + 1;
                return Ok(acc);
            }
            Err(ParseError::UnexpectedToken {
                expected: closing,
                got: token_clone(&self.tokens[self.pos]),
            })
        }
    }

    /// Parameter names after the opening parenthesis.
    fn parse_function_parameters(&mut self) -> (r: Result<Vec<Identifier>, ParseError>)
        requires
            old(self).wf(),
        ensures
            final(self).tokens == old(self).tokens,
            final(self).wf(),
            old(self).pos <= final(self).pos,
            r is Ok ==> old(self).pos < final(self).pos,
            ({
                let res = spec_parse_params(old(self).toks(), old(self).pos as int, Seq::empty());
                &&& final(self).pos == res.pos
                &&& match r {
                    Ok(ps) => res.r == Ok::<Seq<Seq<char>>, PErrM>(params_view(ps@)),
                    Err(pe) => res.r == Err::<Seq<Seq<char>>, PErrM>(perr_view(pe)),
                }
            }),
        decreases old(self).tokens@.len() - old(self).pos, 3int,
    {
        if self.pos >= self.tokens.len() {
            return Err(ParseError::UnexpectedEof);
        }
        let is_rparen = token_eq(&self.tokens[self.pos], &Token::RParen);
        if is_rparen {
            self.pos = self.pos + 1;
            let acc: Vec<Identifier> = Vec::new();
            proof {
                assert(params_view(acc@) =~= Seq::<Seq<char>>::empty());
            }
            return Ok(acc);
        }
        let first_token = self.try_next()?;
        let name = match first_token {
            Token::Identifier(name) => name,
            other => {
                return Err(ParseError::UnexpectedToken {
                    expected: Token::Identifier(Identifier::new(String::new())),
                    got: other,
                });
            },
        };
        let mut acc: Vec<Identifier> = Vec::new();
        acc.push(name);
        proof {
            assert(params_view(acc@) =~= Seq::<Seq<char>>::empty().push(acc@[0]@));
        }
        self.parse_more_params(acc)
    }

    /// Further comma-led parameter names, closed by `)`.
    fn parse_more_params(&mut self, acc: Vec<Identifier>) -> (r: Result<Vec<Identifier>, ParseError>)
        requires
            old(self).wf(),
        ensures
            final(self).tokens == old(self).tokens,
            final(self).wf(),
            old(self).pos <= final(self).pos,
            r is Ok ==> old(self).pos < final(self).pos,
            ({
                let res = spec_parse_more_params(
                    old(self).toks(),
                    old(self).pos as int,
                    params_view(acc@),
                );
                &&& final(self).pos == res.pos
                &&& match r {
                    Ok(ps) => res.r == Ok::<Seq<Seq<char>>, PErrM>(params_view(ps@)),
                    Err(pe) => res.r == Err::<Seq<Seq<char>>, PErrM>(perr_view(pe)),
                }
            }),
        decreases old(self).tokens@.len() - old(self).pos, 2int,
    {
        if self.pos >= self.tokens.len() {
            return Err(ParseError::UnexpectedEof);
        }
        let is_comma = token_eq(&self.tokens[self.pos], &Token::Comma);
        if is_comma {
            self.pos = self.pos + 1;
            let next_token = self.try_next()?;
            match next_token {
                Token::Identifier(name) => {
                    proof {
                        assert(params_view(acc@.push(name)) =~= params_view(acc@).push(name@));
                    }
                    let mut acc = acc;
                    acc.push(name);
                    self.parse_more_params(acc)
                },
                other => {
                    Err(ParseError::UnexpectedToken {
                        expected: Token::Identifier(Identifier::new(String::new())),
                        got: other,
                    })
                },
            }
        } else {
            let is_rparen = token_eq(&self.tokens[self.pos], &Token::RParen);
            if is_rparen {
                self.pos = self.pos + 1;
                return Ok(acc);
            }
            Err(ParseError::UnexpectedToken {
                expected: Token::RParen,
                got: token_clone(&self.tokens[self.pos]),
            })
        }
    }

    /// Hash entries after the opening brace.
    fn parse_hash_items(&mut self) -> (r: Result<Vec<(Expression, Expression)>, ParseError>)
        requires
            old(self).wf(),
        ensures
            final(self).tokens == old(self).tokens,
            final(self).wf(),
            old(self).pos <= final(self).pos,
            r is Ok ==> old(self).pos < final(self).pos,
            ({
                let res = spec_parse_hash_items(old(self).toks(), old(self).pos as int);
                &&& final(self).pos == res.pos
                &&& match r {
                    Ok(ps) => res.r == Ok::<Seq<(ExprM, ExprM)>, PErrM>(pairs_view(ps@)),
                    Err(pe) => res.r == Err::<Seq<(ExprM, ExprM)>, PErrM>(perr_view(pe)),
                }
            }),
        decreases old(self).tokens@.len() - old(self).pos, 3int,
    {
        let ghost ts = old(self).toks();
        let ghost pos0 = old(self).pos as int;
        if self.pos >= self.tokens.len() {
            return Err(ParseError::UnexpectedEof);
        }
        let is_rbrace = token_eq(&self.tokens[self.pos], &Token::RBrace);
        if is_rbrace {
            self.pos = self.pos + 1;
            let acc: Vec<(Expression, Expression)> = Vec::new();
            proof {
                assert(pairs_view(acc@) =~= Seq::<(ExprM, ExprM)>::empty());
            }
            return Ok(acc);
        }
        let first = self.parse_hash_pair()?;
        proof {
            assert(clamp_pos(self.pos as int, pos0 + 1, ts.len() as int) == self.pos as int);
        }
        let mut acc: Vec<(Expression, Expression)> = Vec::new();
        acc.push(first);
        proof {
            assert(pairs_view(acc@) =~= seq![(expr_view(acc@[0].0), expr_view(acc@[0].1))]);
        }
        self.parse_more_pairs(acc)
    }

    /// Further comma-led hash entries, closed by `}`.
    fn parse_more_pairs(&mut self, acc: Vec<(Expression, Expression)>) -> (r: Result<
        Vec<(Expression, Expression)>,
        ParseError,
    >)
        requires
            old(self).wf(),
        ensures
            final(self).tokens == old(self).tokens,
            final(self).wf(),
            old(self).pos <= final(self).pos,
            r is Ok ==> old(self).pos < final(self).pos,
            ({
                let res = spec_parse_more_pairs(
                    old(self).toks(),
                    old(self).pos as int,
                    pairs_view(acc@),
                );
                &&& final(self).pos == res.pos
                &&& match r {
                    Ok(ps) => res.r == Ok::<Seq<(ExprM, ExprM)>, PErrM>(pairs_view(ps@)),
                    Err(pe) => res.r == Err::<Seq<(ExprM, ExprM)>, PErrM>(perr_view(pe)),
                }
            }),
        decreases old(self).tokens@.len() - old(self).pos, 2int,
    {
        let ghost ts = old(self).toks();
        let ghost pos0 = old(self).pos as int;
        if self.pos >= self.tokens.len() {
            return Err(ParseError::UnexpectedEof);
        }
        let is_comma = token_eq(&self.tokens[self.pos], &Token::Comma);
        if is_comma {
            self.pos = self.pos + 1;
            let pair = self.parse_hash_pair()?;
            proof {
                assert(clamp_pos(self.pos as int, pos0 + 2, ts.len() as int) == self.pos as int);
                assert(pairs_view(acc@.push(pair)) =~= pairs_view(acc@).push(
                    (expr_view(pair.0), expr_view(pair.1)),
                ));
            }
            let mut acc = acc;
            acc.push(pair);
            self.parse_more_pairs(acc)
        } else {
            let is_rbrace = token_eq(&self.tokens[self.pos], &Token::RBrace);
            if is_rbrace {
                self.pos = self.pos + 1;
                return Ok(acc);
            }
            Err(ParseError::UnexpectedToken {
                expected: Token::RBrace,
                got: token_clone(&self.tokens[self.pos]),
            })
        }
    }

    /// One `key : value` entry of a hash literal.
    fn parse_hash_pair(&mut self) -> (r: Result<(Expression, Expression), ParseError>)
        requires
            old(self).wf(),
        ensures
            final(self).tokens == old(self).tokens,
            final(self).wf(),
            old(self).pos <= final(self).pos,
            r is Ok ==> old(self).pos < final(self).pos,
            ({
                let res = spec_parse_hash_pair(old(self).toks(), old(self).pos as int);
                &&& final(self).pos == res.pos
                &&& match r {
                    Ok(p) => res.r == Ok::<(ExprM, ExprM), PErrM>(
                        (expr_view(p.0), expr_view(p.1)),
                    ),
                    Err(pe) => res.r == Err::<(ExprM, ExprM), PErrM>(perr_view(pe)),
                }
            }),
        decreases old(self).tokens@.len() - old(self).pos, 1int,
    {
        let ghost ts = old(self).toks();
        let ghost pos0 = old(self).pos as int;
        if self.pos >= self.tokens.len() {
            return Err(ParseError::UnexpectedEof);
        }
        let key_token = self.try_next()?;
        let key = self.parse_expression(key_token, 0)?;
        proof {
            assert(clamp_pos(self.pos as int, pos0 + 1, ts.len() as int) == self.pos as int);
        }
        self.try_eat(Token::Colon)?;
        let ghost after_colon = self.pos as int;
        if self.pos >= self.tokens.len() {
            return Err(ParseError::UnexpectedEof);
        }
        let value_token = self.try_next()?;
        let value = self.parse_expression(value_token, 0)?;
        proof {
            assert(clamp_pos(self.pos as int, after_colon + 1, ts.len() as int) == self.pos as int);
        }
        Ok((key, value))
    }
}

} // verus!
