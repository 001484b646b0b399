//! The abstract syntax tree and its mathematical model.

use vstd::prelude::*;

use crate::token::Identifier;
use crate::token::Token;
use crate::token::TokenM;

verus! {

/// A binary operator of the language.
#[derive(Debug, Clone, Copy, PartialEq, Eq, Structural)]
pub enum BinaryOperator {
    Eq,
    NotEq,
    Lt,
    Lte,
    Gt,
    Gte,
    Add,
    Sub,
    Mul,
    Div,
}

/// A unary operator of the language.
#[derive(Debug, Clone, Copy, PartialEq, Eq, Structural)]
pub enum UnaryOperator {
    Not,
    Minus,
}

/// A top-level or block-level statement.
#[derive(Debug, PartialEq, Eq)]
pub enum Statement {
    Let { identifier: Identifier, value: Box<Expression> },
    Return(Box<Expression>),
    Expression(Box<Expression>),
}

/// An expression node.
#[derive(Debug, PartialEq, Eq)]
pub enum Expression {
    Literal(Literal),
    Identifier(Identifier),
    BinaryExp(BinaryExpression),
    UnaryExpression(UnaryExpression),
    If(IfExpression),
    IndexExpression(IndexExpression),
    Function(FunctionExpression),
    Call(CallExpression),
}

/// A unary operator applied to an operand.
#[derive(Debug, PartialEq, Eq)]
pub struct UnaryExpression {
    pub value: Box<Expression>,
    pub operator: UnaryOperator,
}

/// A callee applied to a list of arguments.
#[derive(Debug, PartialEq, Eq)]
pub struct CallExpression {
    pub arguments: Vec<Expression>,
    pub function: Box<Expression>,
}

/// A container indexed by an expression.
#[derive(Debug, PartialEq, Eq)]
pub struct IndexExpression {
    pub container: Box<Expression>,
    pub index: Box<Expression>,
}

/// A function literal: parameter names and a body block.
#[derive(Debug, PartialEq, Eq)]
pub struct FunctionExpression {
    pub parameters: Vec<Identifier>,
    pub body: BlockStatement,
}

/// A conditional with an optional alternative block.
#[derive(Debug, PartialEq, Eq)]
pub struct IfExpression {
    pub condition: Box<Expression>,
    pub consequence: BlockStatement,
    pub alternative: Option<BlockStatement>,
}

/// A binary operator applied to two operands.
#[derive(Debug, PartialEq, Eq)]
pub struct BinaryExpression {
    pub operator: BinaryOperator,
    pub lhs: Box<Expression>,
    pub rhs: Box<Expression>,
}

/// An ordered sequence of statements enclosed by braces.
#[derive(Debug, PartialEq, Eq)]
pub struct BlockStatement(pub Vec<Statement>);

/// A literal expression.
#[derive(Debug, PartialEq, Eq)]
pub enum Literal {
    Int(i64),
    String(String),
    Array(Vec<Expression>),
    Hash(Vec<(Expression, Expression)>),
    True,
    False,
    Nil,
}

/// The model of a literal.
#[verifier::ext_equal]
pub enum LitM {
    Int(i64),
    String(Seq<char>),
    Array(Seq<ExprM>),
    Hash(Seq<(ExprM, ExprM)>),
    True,
    False,
    Nil,
}

/// The model of an expression; blocks are statement sequences.
#[verifier::ext_equal]
pub enum ExprM {
    Literal(LitM),
    Identifier(Seq<char>),
    Binary { op: BinaryOperator, lhs: Box<ExprM>, rhs: Box<ExprM> },
    Unary { op: UnaryOperator, operand: Box<ExprM> },
    If { cond: Box<ExprM>, cons: Seq<StmtM>, alt: Option<Seq<StmtM>> },
    Function { params: Seq<Seq<char>>, body: Seq<StmtM> },
    Call { callee: Box<ExprM>, args: Seq<ExprM> },
    Index { container: Box<ExprM>, index: Box<ExprM> },
}

/// The model of a statement.
#[verifier::ext_equal]
pub enum StmtM {
    Let { name: Seq<char>, value: ExprM },
    Return(ExprM),
    Expression(ExprM),
}

/// The model of an expression node.
pub open spec fn expr_view(e: Expression) -> ExprM
    decreases e, 0int,
{
    match e {
        Expression::Literal(lit) => ExprM::Literal(lit_view(lit)),
        Expression::Identifier(name) => ExprM::Identifier(name@),
        Expression::BinaryExp(b) => ExprM::Binary {
            op: b.operator,
            lhs: Box::new(expr_view(*b.lhs)),
            rhs: Box::new(expr_view(*b.rhs)),
        },
        Expression::UnaryExpression(u) => ExprM::Unary {
            op: u.operator,
            operand: Box::new(expr_view(*u.value)),
        },
        Expression::If(f) => ExprM::If {
            cond: Box::new(expr_view(*f.condition)),
            cons: block_view(f.consequence),
            alt: match f.alternative {
                Some(alt) => Some(block_view(alt)),
                None => None,
            },
        },
        Expression::IndexExpression(ix) => ExprM::Index {
            container: Box::new(expr_view(*ix.container)),
            index: Box::new(expr_view(*ix.index)),
        },
        Expression::Function(f) => ExprM::Function {
            params: params_view(f.parameters@),
            body: block_view(f.body),
        },
        Expression::Call(c) => ExprM::Call {
            callee: Box::new(expr_view(*c.function)),
            args: exprs_view(c.arguments@),
        },
    }
}

/// The model of a literal.
pub open spec fn lit_view(l: Literal) -> LitM
    decreases l, 0int,
{
    match l {
        Literal::Int(i) => LitM::Int(i),
        Literal::String(s) => LitM::String(s@),
        Literal::Array(es) => LitM::Array(exprs_view(es@)),
        Literal::Hash(ps) => LitM::Hash(pairs_view(ps@)),
        Literal::True => LitM::True,
        Literal::False => LitM::False,
        Literal::Nil => LitM::Nil,
    }
}

/// The model of a statement.
pub open spec fn stmt_view(s: Statement) -> StmtM
    decreases s, 0int,
{
    match s {
        Statement::Let { identifier, value } => StmtM::Let {
            name: identifier@,
            value: expr_view(*value),
        },
        Statement::Return(e) => StmtM::Return(expr_view(*e)),
        Statement::Expression(e) => StmtM::Expression(expr_view(*e)),
    }
}

/// The model of an expression sequence, element by element.
pub open spec fn exprs_view(es: Seq<Expression>) -> Seq<ExprM>
    decreases es, 1int,
{
    Seq::new(es.len(), |i: int| if 0 <= i < es.len() { expr_view(es[i]) } else { ExprM::Identifier(Seq::empty()) })
}

/// The model of a sequence of key-value expression pairs.
pub open spec fn pairs_view(ps: Seq<(Expression, Expression)>) -> Seq<(ExprM, ExprM)>
    decreases ps, 1int,
{
    Seq::new(
        ps.len(),
        |i: int| if 0 <= i < ps.len() {
            (expr_view(ps[i].0), expr_view(ps[i].1))
        } else {
            (ExprM::Identifier(Seq::empty()), ExprM::Identifier(Seq::empty()))
        },
    )
}

/// The model of a statement sequence, element by element.
pub open spec fn stmts_view(ss: Seq<Statement>) -> Seq<StmtM>
    decreases ss, 1int,
{
    Seq::new(
        ss.len(),
        |i: int| if 0 <= i < ss.len() {
            stmt_view(ss[i])
        } else {
            StmtM::Expression(ExprM::Identifier(Seq::empty()))
        },
    )
}

/// The model of a block: the sequence of its statement models.
pub open spec fn block_view(b: BlockStatement) -> Seq<StmtM>
    decreases b, 2int,
{
    stmts_view(b.0@)
}

/// The model of a parameter list: the sequence of the names.
pub open spec fn params_view(ps: Seq<Identifier>) -> Seq<Seq<char>> {
    Seq::new(ps.len(), |i: int| if 0 <= i < ps.len() { ps[i]@ } else { Seq::empty() })
}

impl BlockStatement {
    pub fn new(value: Vec<Statement>) -> (r: Self)
        ensures
            block_view(r) == stmts_view(value@),
    {
        Self(value)
    }
}

impl Expression {
    pub fn boxed(self) -> (r: Box<Self>)
        ensures
            *r == self,
    {
        Box::new(self)
    }
}

impl Literal {
    pub fn into_exp(self) -> (r: Box<Expression>)
        ensures
            expr_view(*r) == ExprM::Literal(lit_view(self)),
    {
        Expression::Literal(self).boxed()
    }
}

impl Token {
    /// The binary operator that this token stands for in infix position.
    pub fn binary_expression_type(&self) -> (r: Option<BinaryOperator>)
        ensures
            r == spec_binary_operator(self@),
    {
        match self {
            Token::Plus => Some(BinaryOperator::Add),
            Token::Minus => Some(BinaryOperator::Sub),
            Token::Slash => Some(BinaryOperator::Div),
            Token::Asterisk => Some(BinaryOperator::Mul),
            Token::Eq => Some(BinaryOperator::Eq),
            Token::NotEq => Some(BinaryOperator::NotEq),
            Token::Lt => Some(BinaryOperator::Lt),
            Token::Lte => Some(BinaryOperator::Lte),
            Token::Gt => Some(BinaryOperator::Gt),
            Token::Gte => Some(BinaryOperator::Gte),
            _ => None,
        }
    }
}

/// The binary operator a token stands for, if any.
pub open spec fn spec_binary_operator(t: TokenM) -> Option<BinaryOperator> {
    match t {
        TokenM::Plus => Some(BinaryOperator::Add),
        TokenM::Minus => Some(BinaryOperator::Sub),
        TokenM::Slash => Some(BinaryOperator::Div),
        TokenM::Asterisk => Some(BinaryOperator::Mul),
        TokenM::Eq => Some(BinaryOperator::Eq),
        TokenM::NotEq => Some(BinaryOperator::NotEq),
        TokenM::Lt => Some(BinaryOperator::Lt),
        TokenM::Lte => Some(BinaryOperator::Lte),
        TokenM::Gt => Some(BinaryOperator::Gt),
        TokenM::Gte => Some(BinaryOperator::Gte),
        _ => None,
    }
}

/// A deep copy of a block, equal to the original in the model.
pub fn clone_block(b: &BlockStatement) -> (r: BlockStatement)
    ensures
        block_view(r) == block_view(*b),
    decreases *b, 2int,
{
    let r = BlockStatement(clone_stmts(&b.0));
    proof {
        assert(block_view(r) =~= block_view(*b));
    }
    r
}

/// A deep copy of a statement list, equal to the original in the model.
pub fn clone_stmts(ss: &Vec<Statement>) -> (r: Vec<Statement>)
    ensures
        stmts_view(r@) == stmts_view(ss@),
    decreases ss@, 1int,
{
    let mut r: Vec<Statement> = Vec::new();
    let mut i: usize = 0;
    while i < ss.len()
        invariant
            i <= ss.len(),
            r@.len() == i,
            forall|j: int| 0 <= j < i ==> stmt_view(r@[j]) == stmt_view(ss@[j]),
        decreases ss@.len() - i,
    {
        r.push(clone_stmt(&ss[i]));
        i = i + 1;
    }
    proof {
        assert(stmts_view(r@) =~= stmts_view(ss@));
    }
    r
}

/// A deep copy of a statement, equal to the original in the model.
pub fn clone_stmt(s: &Statement) -> (r: Statement)
    ensures
        stmt_view(r) == stmt_view(*s),
    decreases *s, 0int,
{
    match s {
        Statement::Let { identifier, value } => Statement::Let {
            identifier: Identifier::new(identifier.inner()),
            value: Box::new(clone_expr(value)),
        },
        Statement::Return(e) => Statement::Return(Box::new(clone_expr(e))),
        Statement::Expression(e) => Statement::Expression(Box::new(clone_expr(e))),
    }
}

/// A deep copy of an expression list, equal to the original in the model.
pub fn clone_exprs(es: &Vec<Expression>) -> (r: Vec<Expression>)
    ensures
        exprs_view(r@) == exprs_view(es@),
    decreases es@, 1int,
{
    let mut r: Vec<Expression> = Vec::new();
    let mut i: usize = 0;
    while i < es.len()
        invariant
            i <= es.len(),
            r@.len() == i,
            forall|j: int| 0 <= j < i ==> expr_view(r@[j]) == expr_view(es@[j]),
        decreases es@.len() - i,
    {
        r.push(clone_expr(&es[i]));
        i = i + 1;
    }
    proof {
        assert(exprs_view(r@) =~= exprs_view(es@));
    }
    r
}

/// A deep copy of a key-value pair list, equal to the original in the model.
pub fn clone_pairs(ps: &Vec<(Expression, Expression)>) -> (r: Vec<(Expression, Expression)>)
    ensures
        pairs_view(r@) == pairs_view(ps@),
    decreases ps@, 1int,
{
    let mut r: Vec<(Expression, Expression)> = Vec::new();
    let mut i: usize = 0;
    while i < ps.len()
        invariant
            i <= ps.len(),
            r@.len() == i,
            forall|j: int| 0 <= j < i ==> expr_view(r@[j].0) == expr_view(ps@[j].0)
                && expr_view(r@[j].1) == expr_view(ps@[j].1),
        decreases ps@.len() - i,
    {
        let pair = (clone_expr(&ps[i].0), clone_expr(&ps[i].1));
        r.push(pair);
        i = i + 1;
    }
    proof {
        assert(pairs_view(r@) =~= pairs_view(ps@));
    }
    r
}

/// A deep copy of a parameter list, equal to the original in the model.
pub fn clone_params(ps: &Vec<Identifier>) -> (r: Vec<Identifier>)
    ensures
        params_view(r@) == params_view(ps@),
{
    let mut r: Vec<Identifier> = Vec::new();
    let mut i: usize = 0;
    while i < ps.len()
        invariant
            i <= ps.len(),
            r@.len() == i,
            forall|j: int| 0 <= j < i ==> r@[j]@ == ps@[j]@,
        decreases ps@.len() - i,
    {
        r.push(Identifier::new(ps[i].inner()));
        i = i + 1;
    }
    proof {
        assert(params_view(r@) =~= params_view(ps@));
    }
    r
}

/// A deep copy of an expression, equal to the original in the model.
pub fn clone_expr(e: &Expression) -> (r: Expression)
    ensures
        expr_view(r) == expr_view(*e),
    decreases *e, 0int,
{
    match e {
        Expression::Literal(lit) => Expression::Literal(clone_literal(lit)),
        Expression::Identifier(name) => Expression::Identifier(Identifier::new(name.inner())),
        Expression::BinaryExp(b) => Expression::BinaryExp(BinaryExpression {
            operator: b.operator,
            lhs: Box::new(clone_expr(&b.lhs)),
            rhs: Box::new(clone_expr(&b.rhs)),
        }),
        Expression::UnaryExpression(u) => Expression::UnaryExpression(UnaryExpression {
            operator: u.operator,
            value: Box::new(clone_expr(&u.value)),
        }),
        Expression::If(f) => Expression::If(IfExpression {
            condition: Box::new(clone_expr(&f.condition)),
            consequence: clone_block(&f.consequence),
            alternative: match &f.alternative {
                Some(alt) => Some(clone_block(alt)),
                None => None,
            },
        }),
        Expression::IndexExpression(ix) => Expression::IndexExpression(IndexExpression {
            container: Box::new(clone_expr(&ix.container)),
            index: Box::new(clone_expr(&ix.index)),
        }),
        Expression::Function(f) => Expression::Function(FunctionExpression {
            parameters: clone_params(&f.parameters),
            body: clone_block(&f.body),
        }),
        Expression::Call(c) => Expression::Call(CallExpression {
            function: Box::new(clone_expr(&c.function)),
            arguments: clone_exprs(&c.arguments),
        }),
    }
}

/// A deep copy of a literal, equal to the original in the model.
pub fn clone_literal(l: &Literal) -> (r: Literal)
    ensures
        lit_view(r) == lit_view(*l),
    decreases *l, 0int,
{
    match l {
        Literal::Int(i) => Literal::Int(*i),
        Literal::String(s) => Literal::String(s.clone()),
        Literal::Array(es) => Literal::Array(clone_exprs(es)),
        Literal::Hash(ps) => Literal::Hash(clone_pairs(ps)),
        Literal::True => Literal::True,
        Literal::False => Literal::False,
        Literal::Nil => Literal::Nil,
    }
}

} // verus!
