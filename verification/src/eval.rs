//! The evaluator: walks the syntax tree against the environment.
//!
//! The executable evaluator is proved equal to a spec-level interpreter
//! over the models.  Every spec-level evaluation takes a fuel bound that
//! falls by one at each nested step; exhausting it is the stack-overflow
//! error, which guards the executable recursion the same way.

use vstd::prelude::*;

use crate::token::Identifier;

use crate::ast::ExprM;
use crate::ast::LitM;
use crate::ast::StmtM;
use crate::ast::BinaryOperator;
use crate::ast::Expression;
use crate::ast::Literal;
use crate::ast::Statement;
use crate::ast::block_view;
use crate::ast::clone_block;
use crate::ast::clone_params;
use crate::ast::expr_view;
use crate::ast::exprs_view;
use crate::ast::lit_view;
use crate::ast::pairs_view;
use crate::ast::params_view;
use crate::ast::stmt_view;
use crate::ast::stmts_view;
use crate::ast::UnaryOperator;
use crate::object::BuiltInFn;
use crate::object::ErrM;
use crate::object::StateM;
use crate::object::ValM;
use crate::object::FrameM;
use crate::object::EvalError;
use crate::object::Object;
use crate::object::Environment;
use crate::parser::Parser;
use crate::object::binds_wf;
use crate::object::err_view;
use crate::object::int_of_len;
use crate::object::lemma_val_wf_mono;
use crate::object::state_wf;
use crate::object::vals_wf;
use crate::object::lemma_pairs_wf_forall;
use crate::object::lemma_vals_wf_forall;
use crate::object::obj_clone;
use crate::object::obj_view;
use crate::object::objpairs_view;
use crate::object::objs_view;
use crate::object::pair_wf;
use crate::object::val_wf;
use crate::object::display_of;
use crate::object::env_get;
use crate::object::frame_lookup;
use crate::object::is_hashable;
use crate::object::kind_of;
use crate::object::spec_add;
use crate::object::spec_div;
use crate::object::spec_gt;
use crate::object::spec_gte;
use crate::object::spec_lt;
use crate::object::spec_lte;
use crate::object::spec_minus;
use crate::object::spec_mul;
use crate::object::spec_not;
use crate::object::spec_sub;
use crate::object::spec_truthy;
use crate::object::state_insert;
use crate::object::ValueKind;
use crate::object::vals_eq;

verus! {

/// The spec-level outcome of one evaluation: a value or an error, and
/// the state it left behind.
#[verifier::ext_equal]
pub struct ERes {
    pub r: Result<ValM, ErrM>,
    pub st: StateM,
}

/// The spec-level outcome of evaluating a list of expressions.
#[verifier::ext_equal]
pub struct EsRes {
    pub r: Result<Seq<ValM>, ErrM>,
    pub st: StateM,
}

/// The spec-level outcome of evaluating a list of key-value pairs.
#[verifier::ext_equal]
pub struct PsRes {
    pub r: Result<Seq<(ValM, ValM)>, ErrM>,
    pub st: StateM,
}

/// The value mapped to a key, by the equality of the language.
pub open spec fn tbl_get(ps: Seq<(ValM, ValM)>, k: ValM) -> Option<ValM>
    decreases ps.len(),
{
    if ps.len() == 0 {
        None
    } else if vals_eq(ps[0].0, k) {
        Some(ps[0].1)
    } else {
        tbl_get(ps.skip(1), k)
    }
}

/// The table with `k` mapped to `v`: an existing key keeps its place and
/// takes the new value, a new key goes at the end.
pub open spec fn tbl_put(ps: Seq<(ValM, ValM)>, k: ValM, v: ValM) -> Seq<(ValM, ValM)>
    decreases ps.len(),
{
    if ps.len() == 0 {
        seq![(k, v)]
    } else if vals_eq(ps[0].0, k) {
        seq![(ps[0].0, v)] + ps.skip(1)
    } else {
        seq![ps[0]] + tbl_put(ps.skip(1), k, v)
    }
}

/// The table built from evaluated pairs, in order: a later equal key
/// overwrites the earlier value.
pub open spec fn tbl_from(pairs: Seq<(ValM, ValM)>, i: int, acc: Seq<(ValM, ValM)>) -> Seq<(ValM, ValM)>
    decreases pairs.len() - i,
{
    if i < 0 || i >= pairs.len() {
        acc
    } else {
        tbl_from(pairs, i + 1, tbl_put(acc, pairs[i].0, pairs[i].1))
    }
}

/// Indexing: arrays by integer, counting from the end when negative and
/// yielding `nil` out of range; hashes by hashable key, yielding `nil`
/// when absent; anything else is an error.
pub open spec fn spec_index(c: ValM, ix: ValM) -> Result<ValM, ErrM> {
    match (c, ix) {
        (ValM::Arr(es), ValM::Int(i)) => {
            let j = if i < 0 {
                es.len() + i
            } else {
                i as int
            };
            if 0 <= j < es.len() {
                Ok(es[j])
            } else {
                Ok(ValM::Nil)
            }
        },
        (ValM::Tbl(ps), k) => {
            if !is_hashable(k) {
                Err(ErrM::UnhashableKey(kind_of(k)))
            } else {
                match tbl_get(ps, k) {
                    Some(v) => Ok(v),
                    None => Ok(ValM::Nil),
                }
            }
        },
        _ => Err(ErrM::IndexTypeError { container: kind_of(c), index: kind_of(ix) }),
    }
}

/// The binding list of a call frame: parameters zipped with arguments.
pub open spec fn bind_params(params: Seq<Seq<char>>, args: Seq<ValM>) -> Seq<(Seq<char>, ValM)> {
    Seq::new(
        params.len(),
        |i: int| if 0 <= i < params.len() && i < args.len() {
            (params[i], args[i])
        } else {
            (Seq::empty(), ValM::Nil)
        },
    )
}

/// The display lines that `puts` writes: one per argument.
pub open spec fn puts_lines(args: Seq<ValM>) -> Seq<Seq<char>> {
    Seq::new(args.len(), |i: int| if 0 <= i < args.len() { display_of(args[i]) } else { Seq::empty() })
}

/// A built-in call on evaluated arguments.
///
/// Each built-in checks its arity first, then its argument types; `puts`
/// takes anything and appends one display line per argument.
pub open spec fn eval_builtin(b: BuiltInFn, args: Seq<ValM>, st: StateM) -> ERes {
    match b {
        BuiltInFn::Len => if args.len() != 1 {
            ERes { r: Err(ErrM::Arity { expected: 1, got: args.len() as int }), st }
        } else {
            match args[0] {
                ValM::Str(s) => ERes { r: Ok(ValM::Int(int_of_len(s.len() as int))), st },
                ValM::Arr(es) => ERes { r: Ok(ValM::Int(int_of_len(es.len() as int))), st },
                _ => ERes {
                    r: Err(ErrM::CoercionError { target: ValueKind::Array, value: kind_of(args[0]) }),
                    st,
                },
            }
        },
        BuiltInFn::First => if args.len() != 1 {
            ERes { r: Err(ErrM::Arity { expected: 1, got: args.len() as int }), st }
        } else {
            match args[0] {
                ValM::Arr(es) => ERes {
                    r: Ok(if es.len() > 0 {
                        es[0]
                    } else {
                        ValM::Nil
                    }),
                    st,
                },
                _ => ERes {
                    r: Err(ErrM::CoercionError { target: ValueKind::Array, value: kind_of(args[0]) }),
                    st,
                },
            }
        },
        BuiltInFn::Last => if args.len() != 1 {
            ERes { r: Err(ErrM::Arity { expected: 1, got: args.len() as int }), st }
        } else {
            match args[0] {
                ValM::Arr(es) => ERes {
                    r: Ok(if es.len() > 0 {
                        es.last()
                    } else {
                        ValM::Nil
                    }),
                    st,
                },
                _ => ERes {
                    r: Err(ErrM::CoercionError { target: ValueKind::Array, value: kind_of(args[0]) }),
                    st,
                },
            }
        },
        BuiltInFn::Rest => if args.len() != 1 {
            ERes { r: Err(ErrM::Arity { expected: 1, got: args.len() as int }), st }
        } else {
            match args[0] {
                ValM::Arr(es) => ERes {
                    r: Ok(if es.len() > 0 {
                        ValM::Arr(es.skip(1))
                    } else {
                        ValM::Nil
                    }),
                    st,
                },
                _ => ERes {
                    r: Err(ErrM::CoercionError { target: ValueKind::Array, value: kind_of(args[0]) }),
                    st,
                },
            }
        },
        BuiltInFn::Push => if args.len() != 2 {
            ERes { r: Err(ErrM::Arity { expected: 2, got: args.len() as int }), st }
        } else {
            match args[0] {
                ValM::Arr(es) => ERes { r: Ok(ValM::Arr(es.push(args[1]))), st },
                _ => ERes {
                    r: Err(ErrM::CoercionError { target: ValueKind::Array, value: kind_of(args[0]) }),
                    st,
                },
            }
        },
        BuiltInFn::Puts => ERes {
            r: Ok(ValM::Nil),
            st: StateM { frames: st.frames, out: st.out + puts_lines(args) },
        },
    }
}

/// One expression, evaluated against the state at frame `f`.
pub open spec fn eval_expr(e: ExprM, st: StateM, f: int, fuel: nat) -> ERes
    decreases fuel,
{
    if fuel == 0 {
        ERes { r: Err(ErrM::StackOverflow), st }
    } else {
        match e {
            ExprM::Literal(lit) => match lit {
                LitM::Int(i) => ERes { r: Ok(ValM::Int(i)), st },
                LitM::String(s) => ERes { r: Ok(ValM::Str(s)), st },
                LitM::True => ERes { r: Ok(ValM::Bool(true)), st },
                LitM::False => ERes { r: Ok(ValM::Bool(false)), st },
                LitM::Nil => ERes { r: Ok(ValM::Nil), st },
                LitM::Array(es) => {
                    let res = eval_exprs(es, 0, st, f, (fuel - 1) as nat, Seq::empty());
                    match res.r {
                        Ok(vs) => ERes { r: Ok(ValM::Arr(vs)), st: res.st },
                        Err(err) => ERes { r: Err(err), st: res.st },
                    }
                },
                LitM::Hash(ps) => {
                    let res = eval_pairs(ps, 0, st, f, (fuel - 1) as nat, Seq::empty());
                    match res.r {
                        Ok(pairs) => ERes {
                            r: Ok(ValM::Tbl(tbl_from(pairs, 0, Seq::empty()))),
                            st: res.st,
                        },
                        Err(err) => ERes { r: Err(err), st: res.st },
                    }
                },
            },
            ExprM::Identifier(name) => match env_get(st, f, name) {
                Some(v) => ERes { r: Ok(v), st },
                None => ERes { r: Err(ErrM::UnknownIdentifier(name)), st },
            },
            ExprM::Unary { op, operand } => {
                let res = eval_expr(*operand, st, f, (fuel - 1) as nat);
                match res.r {
                    Ok(v) => match op {
                        UnaryOperator::Not => ERes { r: spec_not(v), st: res.st },
                        UnaryOperator::Minus => ERes { r: spec_minus(v), st: res.st },
                    },
                    Err(err) => ERes { r: Err(err), st: res.st },
                }
            },
            ExprM::Binary { op, lhs, rhs } => {
                let lres = eval_expr(*lhs, st, f, (fuel - 1) as nat);
                match lres.r {
                    Ok(a) => {
                        let rres = eval_expr(*rhs, lres.st, f, (fuel - 1) as nat);
                        match rres.r {
                            Ok(b) => ERes { r: eval_binop(op, a, b), st: rres.st },
                            Err(err) => ERes { r: Err(err), st: rres.st },
                        }
                    },
                    Err(err) => ERes { r: Err(err), st: lres.st },
                }
            },
            ExprM::If { cond, cons, alt } => {
                let cres = eval_expr(*cond, st, f, (fuel - 1) as nat);
                match cres.r {
                    Ok(c) => match spec_truthy(c) {
                        Ok(b) => if b {
                            eval_block(cons, 0, cres.st, f, (fuel - 1) as nat, ValM::Nil)
                        } else {
                            match alt {
                                Some(else_block) => eval_block(
                                    else_block,
                                    0,
                                    cres.st,
                                    f,
                                    (fuel - 1) as nat,
                                    ValM::Nil,
                                ),
                                None => ERes { r: Ok(ValM::Nil), st: cres.st },
                            }
                        },
                        Err(err) => ERes { r: Err(err), st: cres.st },
                    },
                    Err(err) => ERes { r: Err(err), st: cres.st },
                }
            },
            ExprM::Function { params, body } => ERes {
                r: Ok(ValM::Fun { params, body, env: f }),
                st,
            },
            ExprM::Call { callee, args } => {
                let cres = eval_expr(*callee, st, f, (fuel - 1) as nat);
                match cres.r {
                    Ok(cv) => {
                        let ares = eval_exprs(args, 0, cres.st, f, (fuel - 1) as nat, Seq::empty());
                        match ares.r {
                            Ok(avs) => eval_call(cv, avs, ares.st, (fuel - 1) as nat),
                            Err(err) => ERes { r: Err(err), st: ares.st },
                        }
                    },
                    Err(err) => ERes { r: Err(err), st: cres.st },
                }
            },
            ExprM::Index { container, index } => {
                let cres = eval_expr(*container, st, f, (fuel - 1) as nat);
                match cres.r {
                    Ok(c) => {
                        let ires = eval_expr(*index, cres.st, f, (fuel - 1) as nat);
                        match ires.r {
                            Ok(ix) => ERes { r: spec_index(c, ix), st: ires.st },
                            Err(err) => ERes { r: Err(err), st: ires.st },
                        }
                    },
                    Err(err) => ERes { r: Err(err), st: cres.st },
                }
            },
        }
    }
}

/// A binary operation on two evaluated operands.
pub open spec fn eval_binop(op: BinaryOperator, a: ValM, b: ValM) -> Result<ValM, ErrM> {
    match op {
        BinaryOperator::Eq => Ok(ValM::Bool(vals_eq(a, b))),
        BinaryOperator::NotEq => Ok(ValM::Bool(!vals_eq(a, b))),
        BinaryOperator::Lt => Ok(ValM::Bool(spec_lt(a, b))),
        BinaryOperator::Lte => Ok(ValM::Bool(spec_lte(a, b))),
        BinaryOperator::Gt => Ok(ValM::Bool(spec_gt(a, b))),
        BinaryOperator::Gte => Ok(ValM::Bool(spec_gte(a, b))),
        BinaryOperator::Add => spec_add(a, b),
        BinaryOperator::Sub => spec_sub(a, b),
        BinaryOperator::Mul => spec_mul(a, b),
        BinaryOperator::Div => spec_div(a, b),
    }
}

/// A call on an evaluated callee and evaluated arguments.
pub open spec fn eval_call(cv: ValM, args: Seq<ValM>, st: StateM, fuel: nat) -> ERes
    decreases fuel,
{
    if fuel == 0 {
        ERes { r: Err(ErrM::StackOverflow), st }
    } else {
        match cv {
            ValM::Fun { params, body, env } => if params.len() != args.len() {
                ERes {
                    r: Err(ErrM::Arity { expected: params.len() as int, got: args.len() as int }),
                    st,
                }
            } else {
                let nf = st.frames.len() as int;
                let st1 = StateM {
                    frames: st.frames.push(
                        FrameM { parent: Some(env), bindings: bind_params(params, args) },
                    ),
                    out: st.out,
                };
                let res = eval_block(body, 0, st1, nf, (fuel - 1) as nat, ValM::Nil);
                match res.r {
                    Ok(v) => match v {
                        ValM::Ret(inner) => ERes { r: Ok(*inner), st: res.st },
                        _ => ERes { r: Ok(v), st: res.st },
                    },
                    Err(err) => ERes { r: Err(err), st: res.st },
                }
            },
            ValM::Builtin(b) => eval_builtin(b, args, st),
            _ => ERes { r: Err(ErrM::NotCallable(kind_of(cv))), st },
        }
    }
}

/// One statement, evaluated against the state at frame `f`.
///
/// A `let` yields `nil` and binds in the current frame; a `return` wraps
/// its value in the internal marker; an expression statement yields its
/// value.
pub open spec fn eval_stmt(s: StmtM, st: StateM, f: int, fuel: nat) -> ERes
    decreases fuel,
{
    if fuel == 0 {
        ERes { r: Err(ErrM::StackOverflow), st }
    } else {
        match s {
            StmtM::Let { name, value } => {
                let res = eval_expr(value, st, f, (fuel - 1) as nat);
                match res.r {
                    Ok(v) => if frame_lookup(res.st.frames[f].bindings, name) is Some {
                        ERes { r: Err(ErrM::Redefined(name)), st: res.st }
                    } else {
                        ERes { r: Ok(ValM::Nil), st: state_insert(res.st, f, name, v) }
                    },
                    Err(err) => ERes { r: Err(err), st: res.st },
                }
            },
            StmtM::Return(e) => {
                let res = eval_expr(e, st, f, (fuel - 1) as nat);
                match res.r {
                    Ok(v) => ERes { r: Ok(ValM::Ret(Box::new(v))), st: res.st },
                    Err(err) => ERes { r: Err(err), st: res.st },
                }
            },
            StmtM::Expression(e) => eval_expr(e, st, f, (fuel - 1) as nat),
        }
    }
}

/// A block from statement `i` on: statements run in order in the same
/// frame; a return marker stops the block and travels outward unopened;
/// the block's value is its last statement's value, `last` to begin with.
pub open spec fn eval_block(ss: Seq<StmtM>, i: int, st: StateM, f: int, fuel: nat, last: ValM) -> ERes
    decreases fuel,
{
    if fuel == 0 {
        ERes { r: Err(ErrM::StackOverflow), st }
    } else if i < 0 || i >= ss.len() {
        ERes { r: Ok(last), st }
    } else {
        let res = eval_stmt(ss[i], st, f, (fuel - 1) as nat);
        match res.r {
            Ok(v) => if v is Ret {
                ERes { r: Ok(v), st: res.st }
            } else {
                eval_block(ss, i + 1, res.st, f, (fuel - 1) as nat, v)
            },
            Err(err) => ERes { r: Err(err), st: res.st },
        }
    }
}

/// A list of expressions from index `i` on, left to right, accumulating
/// the values.
pub open spec fn eval_exprs(
    es: Seq<ExprM>,
    i: int,
    st: StateM,
    f: int,
    fuel: nat,
    acc: Seq<ValM>,
) -> EsRes
    decreases fuel,
{
    if fuel == 0 {
        EsRes { r: Err(ErrM::StackOverflow), st }
    } else if i < 0 || i >= es.len() {
        EsRes { r: Ok(acc), st }
    } else {
        let res = eval_expr(es[i], st, f, (fuel - 1) as nat);
        match res.r {
            Ok(v) => eval_exprs(es, i + 1, res.st, f, (fuel - 1) as nat, acc.push(v)),
            Err(err) => EsRes { r: Err(err), st: res.st },
        }
    }
}

/// A list of key-value pairs from index `i` on, left to right: each key
/// evaluates, must be hashable, and then its value evaluates.
pub open spec fn eval_pairs(
    ps: Seq<(ExprM, ExprM)>,
    i: int,
    st: StateM,
    f: int,
    fuel: nat,
    acc: Seq<(ValM, ValM)>,
) -> PsRes
    decreases fuel,
{
    if fuel == 0 {
        PsRes { r: Err(ErrM::StackOverflow), st }
    } else if i < 0 || i >= ps.len() {
        PsRes { r: Ok(acc), st }
    } else {
        let kres = eval_expr(ps[i].0, st, f, (fuel - 1) as nat);
        match kres.r {
            Ok(k) => if !is_hashable(k) {
                PsRes { r: Err(ErrM::UnhashableKey(kind_of(k))), st: kres.st }
            } else {
                let vres = eval_expr(ps[i].1, kres.st, f, (fuel - 1) as nat);
                match vres.r {
                    Ok(v) => eval_pairs(ps, i + 1, vres.st, f, (fuel - 1) as nat, acc.push((k, v))),
                    Err(err) => PsRes { r: Err(err), st: vres.st },
                }
            },
            Err(err) => PsRes { r: Err(err), st: kres.st },
        }
    }
}

/// A whole program: its statements run at the root frame; a return
/// marker reaching the top is opened and ends the program; otherwise the
/// program's value is its last statement's value, `nil` for an empty
/// program.
pub open spec fn eval_program(ss: Seq<StmtM>, st: StateM, fuel: nat) -> ERes {
    let res = eval_block(ss, 0, st, 0, fuel, ValM::Nil);
    match res.r {
        Ok(v) => match v {
            ValM::Ret(inner) => ERes { r: Ok(*inner), st: res.st },
            _ => ERes { r: Ok(v), st: res.st },
        },
        Err(err) => ERes { r: Err(err), st: res.st },
    }
}


/// Whether two values are equal by the language's equality, without
/// consuming them.
pub fn obj_eq_ref(a: &Object, b: &Object) -> (r: bool)
    ensures
        r == vals_eq(obj_view(*a), obj_view(*b)),
{
    match (a, b) {
        (Object::Nil, Object::Nil) => true,
        (Object::Int(x), Object::Int(y)) => x == y,
        (Object::Bool(x), Object::Bool(y)) => x == y,
        (Object::String(x), Object::String(y)) => *x == *y,
        _ => false,
    }
}

/// Whether a value may serve as a hash key.
pub fn obj_is_hashable(v: &Object) -> (r: bool)
    ensures
        r == is_hashable(obj_view(*v)),
{
    match v {
        Object::Nil | Object::Int(_) | Object::Bool(_) | Object::String(_) => true,
        _ => false,
    }
}

/// The value a well-formed table maps a key to is well-formed.
pub proof fn lemma_tbl_get_wf(ps: Seq<(ValM, ValM)>, k: ValM, n: int)
    requires
        forall|i: int| 0 <= i < ps.len() ==> #[trigger] pair_wf(ps[i], n),
    ensures
        match tbl_get(ps, k) {
            Some(v) => val_wf(v, n),
            None => true,
        },
    decreases ps.len(),
{
    if ps.len() > 0 {
        assert(pair_wf(ps[0], n));
        if !vals_eq(ps[0].0, k) {
            assert forall|i: int| 0 <= i < ps.skip(1).len() implies #[trigger] pair_wf(
                ps.skip(1)[i],
                n,
            ) by {
                assert(ps.skip(1)[i] == ps[i + 1]);
                assert(pair_wf(ps[i + 1], n));
            }
            lemma_tbl_get_wf(ps.skip(1), k, n);
        }
    }
}

/// A value read out of a well-formed container is well-formed.
pub proof fn lemma_spec_index_wf(c: ValM, ix: ValM, n: int)
    requires
        val_wf(c, n),
    ensures
        match spec_index(c, ix) {
            Ok(v) => val_wf(v, n),
            Err(_) => true,
        },
{
    match (c, ix) {
        (ValM::Arr(es), ValM::Int(i)) => {
            lemma_vals_wf_forall(es, n);
        },
        (ValM::Tbl(ps), k) => {
            lemma_pairs_wf_forall(ps, n);
            if is_hashable(k) {
                lemma_tbl_get_wf(ps, k, n);
            }
        },
        _ => {},
    }
}

/// `tbl_put` on a missing key appends the pair.
pub proof fn lemma_tbl_put_absent(ps: Seq<(ValM, ValM)>, k: ValM, v: ValM)
    requires
        forall|j: int| 0 <= j < ps.len() ==> !vals_eq((#[trigger] ps[j]).0, k),
    ensures
        tbl_put(ps, k, v) == ps.push((k, v)),
    decreases ps.len(),
{
    if ps.len() == 0 {
        assert(tbl_put(ps, k, v) =~= ps.push((k, v)));
    } else {
        assert(!vals_eq(ps[0].0, k));
        assert forall|j: int| 0 <= j < ps.skip(1).len() implies !vals_eq(
            (#[trigger] ps.skip(1)[j]).0,
            k,
        ) by {
            assert(ps.skip(1)[j] == ps[j + 1]);
        }
        lemma_tbl_put_absent(ps.skip(1), k, v);
        assert(tbl_put(ps, k, v) =~= ps.push((k, v)));
    }
}

/// `tbl_put` on a present key updates the first matching entry in place.
pub proof fn lemma_tbl_put_found(ps: Seq<(ValM, ValM)>, k: ValM, v: ValM, i: int)
    requires
        0 <= i < ps.len(),
        vals_eq(ps[i].0, k),
        forall|j: int| 0 <= j < i ==> !vals_eq((#[trigger] ps[j]).0, k),
    ensures
        tbl_put(ps, k, v) == ps.update(i, (ps[i].0, v)),
    decreases ps.len(),
{
    if i == 0 {
        assert(tbl_put(ps, k, v) =~= ps.update(0, (ps[0].0, v)));
    } else {
        assert(!vals_eq(ps[0].0, k));
        assert forall|j: int| 0 <= j < i - 1 implies !vals_eq((#[trigger] ps.skip(1)[j]).0, k) by {
            assert(ps.skip(1)[j] == ps[j + 1]);
        }
        assert(ps.skip(1)[i - 1] == ps[i]);
        lemma_tbl_put_found(ps.skip(1), k, v, i - 1);
        assert(tbl_put(ps, k, v) =~= ps.update(i, (ps[i].0, v)));
    }
}

/// Looks a key up in a table, handing a copy of the value out.
fn tbl_get_exec(ps: &Vec<(Object, Object)>, k: &Object) -> (r: Option<Object>)
    ensures
        match r {
            Some(v) => tbl_get(objpairs_view(ps@), obj_view(*k)) == Some(obj_view(v)),
            None => tbl_get(objpairs_view(ps@), obj_view(*k)) is None,
        },
{
    let ghost psm = objpairs_view(ps@);
    let mut i: usize = 0;
    proof {
        assert(psm.skip(0) =~= psm);
    }
    while i < ps.len()
        invariant
            i <= ps@.len(),
            psm == objpairs_view(ps@),
            tbl_get(psm, obj_view(*k)) == tbl_get(psm.skip(i as int), obj_view(*k)),
        decreases ps@.len() - i,
    {
        proof {
            assert(psm.skip(i as int)[0] == psm[i as int]);
        }
        if obj_eq_ref(&ps[i].0, k) {
            return Some(obj_clone(&ps[i].1));
        }
        proof {
            assert(psm.skip(i as int).skip(1) =~= psm.skip(i + 1));
        }
        i = i + 1;
    }
    proof {
        assert(psm.skip(ps@.len() as int) =~= Seq::<(ValM, ValM)>::empty());
    }
    None
}

/// Maps `k` to `v` in a table: an existing equal key keeps its place and
/// takes the new value, a new key goes at the end.
fn tbl_put_exec(ps: &mut Vec<(Object, Object)>, k: Object, v: Object)
    ensures
        objpairs_view(final(ps)@) == tbl_put(objpairs_view(old(ps)@), obj_view(k), obj_view(v)),
{
    let ghost psm = objpairs_view(old(ps)@);
    let mut i: usize = 0;
    while i < ps.len()
        invariant
            i <= ps@.len(),
            ps@ == old(ps)@,
            psm == objpairs_view(ps@),
            forall|j: int| 0 <= j < i ==> !vals_eq((#[trigger] psm[j]).0, obj_view(k)),
        decreases ps@.len() - i,
    {
        if obj_eq_ref(&ps[i].0, &k) {
            proof {
                lemma_tbl_put_found(psm, obj_view(k), obj_view(v), i as int);
            }
            let entry = &mut ps[i];
            entry.1 = v;
            proof {
                assert(objpairs_view(ps@) =~= psm.update(i as int, (psm[i as int].0, obj_view(v))));
            }
            return;
        }
        i = i + 1;
    }
    proof {
        lemma_tbl_put_absent(psm, obj_view(k), obj_view(v));
    }
    ps.push((k, v));
    proof {
        assert(objpairs_view(ps@) =~= psm.push((obj_view(k), obj_view(v))));
    }
}

/// Builds a table from evaluated pairs, in order: a later equal key
/// overwrites the earlier value.
fn tbl_from_exec(pairs: &Vec<(Object, Object)>) -> (r: Vec<(Object, Object)>)
    ensures
        objpairs_view(r@) == tbl_from(objpairs_view(pairs@), 0, Seq::empty()),
{
    let ghost pm = objpairs_view(pairs@);
    let mut acc: Vec<(Object, Object)> = Vec::new();
    let mut i: usize = 0;
    proof {
        assert(objpairs_view(acc@) =~= Seq::<(ValM, ValM)>::empty());
    }
    while i < pairs.len()
        invariant
            i <= pairs@.len(),
            pm == objpairs_view(pairs@),
            tbl_from(pm, 0, Seq::empty()) == tbl_from(pm, i as int, objpairs_view(acc@)),
        decreases pairs@.len() - i,
    {
        let k = obj_clone(&pairs[i].0);
        let v = obj_clone(&pairs[i].1);
        proof {
            assert(pm[i as int] == (obj_view(pairs@[i as int].0), obj_view(pairs@[i as int].1)));
        }
        tbl_put_exec(&mut acc, k, v);
        i = i + 1;
    }
    acc
}

/// Indexes a container by an evaluated index value.
fn index_value(c: Object, ix: Object) -> (r: Result<Object, EvalError>)
    ensures
        match r {
            Ok(v) => spec_index(obj_view(c), obj_view(ix)) == Ok::<ValM, ErrM>(obj_view(v)),
            Err(e) => spec_index(obj_view(c), obj_view(ix)) == Err::<ValM, ErrM>(err_view(e)),
        },
{
    match (c, ix) {
        (Object::Array(a), Object::Int(i)) => {
            let ghost es = objs_view(a.0@);
            let len = a.0.len();
            proof {
                assert(es.len() == a.0@.len());
            }
            if i >= 0 {
                let iu = i as u64;
                if iu < len as u64 {
                    let el = obj_clone(&a.0[iu as usize]);
                    proof {
                        assert(es[i as int] == obj_view(a.0@[i as int]));
                    }
                    Ok(el)
                } else {
                    Ok(Object::Nil)
                }
            } else {
                // A negative index counts from the end.
                let mag: u64 = ((-(i + 1)) as u64) + 1;
                proof {
                    assert(mag == -(i as int));
                }
                if mag <= len as u64 {
                    let j = len - (mag as usize);
                    proof {
                        assert(j == es.len() + i);
                        assert(es[j as int] == obj_view(a.0@[j as int]));
                    }
                    Ok(obj_clone(&a.0[j]))
                } else {
                    Ok(Object::Nil)
                }
            }
        },
        (Object::HashTable(t), k) => {
            if obj_is_hashable(&k) {
                match tbl_get_exec(&t.0, &k) {
                    Some(v) => Ok(v),
                    None => Ok(Object::Nil),
                }
            } else {
                Err(EvalError::UnhashableKey(k.kind()))
            }
        },
        (c, ix) => Err(EvalError::IndexTypeError { container: c.kind(), index: ix.kind() }),
    }
}


/// How one executable evaluation step relates to its spec-level outcome:
/// same final state, well-formedness kept, the arena only grown, and the
/// same value or error.
pub open spec fn eval_post(
    old_st: StateM,
    new_st: StateM,
    r: Result<Object, EvalError>,
    res: ERes,
) -> bool {
    &&& new_st == res.st
    &&& state_wf(new_st)
    &&& new_st.frames.len() >= old_st.frames.len()
    &&& match r {
        Ok(v) => res.r == Ok::<ValM, ErrM>(obj_view(v)) && val_wf(
            obj_view(v),
            new_st.frames.len() as int,
        ),
        Err(e) => res.r == Err::<ValM, ErrM>(err_view(e)),
    }
}

/// `tbl_put` keeps every key and value well-formed.
pub proof fn lemma_tbl_put_pairs_wf(ps: Seq<(ValM, ValM)>, k: ValM, v: ValM, n: int)
    requires
        forall|i: int| 0 <= i < ps.len() ==> #[trigger] pair_wf(ps[i], n),
        val_wf(k, n),
        val_wf(v, n),
    ensures
        forall|i: int|
            0 <= i < tbl_put(ps, k, v).len() ==> #[trigger] pair_wf(tbl_put(ps, k, v)[i], n),
    decreases ps.len(),
{
    let res = tbl_put(ps, k, v);
    if ps.len() == 0 {
        assert(res =~= seq![(k, v)]);
        assert(pair_wf(res[0], n));
    } else if vals_eq(ps[0].0, k) {
        assert(pair_wf(ps[0], n));
        assert forall|i: int| 0 <= i < res.len() implies #[trigger] pair_wf(res[i], n) by {
            if i == 0 {
                assert(res[0] == (ps[0].0, v));
            } else {
                assert(res[i] == ps[i]);
                assert(pair_wf(ps[i], n));
            }
        }
    } else {
        assert forall|i: int| 0 <= i < ps.skip(1).len() implies #[trigger] pair_wf(
            ps.skip(1)[i],
            n,
        ) by {
            assert(ps.skip(1)[i] == ps[i + 1]);
            assert(pair_wf(ps[i + 1], n));
        }
        lemma_tbl_put_pairs_wf(ps.skip(1), k, v, n);
        assert(pair_wf(ps[0], n));
        assert forall|i: int| 0 <= i < res.len() implies #[trigger] pair_wf(res[i], n) by {
            if i == 0 {
                assert(res[0] == ps[0]);
            } else {
                assert(res[i] == tbl_put(ps.skip(1), k, v)[i - 1]);
            }
        }
    }
}

/// A table folded from well-formed pairs is well-formed.
pub proof fn lemma_tbl_from_wf(pairs: Seq<(ValM, ValM)>, i: int, acc: Seq<(ValM, ValM)>, n: int)
    requires
        forall|j: int| 0 <= j < pairs.len() ==> #[trigger] pair_wf(pairs[j], n),
        forall|j: int| 0 <= j < acc.len() ==> #[trigger] pair_wf(acc[j], n),
    ensures
        forall|j: int|
            0 <= j < tbl_from(pairs, i, acc).len() ==> #[trigger] pair_wf(tbl_from(pairs, i, acc)[j], n),
    decreases pairs.len() - i,
{
    if 0 <= i < pairs.len() {
        assert(pair_wf(pairs[i], n));
        lemma_tbl_put_pairs_wf(acc, pairs[i].0, pairs[i].1, n);
        lemma_tbl_from_wf(pairs, i + 1, tbl_put(acc, pairs[i].0, pairs[i].1), n);
        assert(tbl_from(pairs, i, acc) == tbl_from(pairs, i + 1, tbl_put(acc, pairs[i].0, pairs[i].1)));
    } else {
        assert(tbl_from(pairs, i, acc) == acc);
        assert forall|j: int| 0 <= j < tbl_from(pairs, i, acc).len() implies #[trigger] pair_wf(
            tbl_from(pairs, i, acc)[j],
            n,
        ) by {
            assert(tbl_from(pairs, i, acc)[j] == acc[j]);
            assert(pair_wf(acc[j], n));
        }
    }
}

/// Pushing a frame whose parent is in range and whose bindings are
/// well-formed keeps the state well-formed.
pub proof fn lemma_state_wf_push_frame(st: StateM, parent: int, bs: Seq<(Seq<char>, ValM)>)
    requires
        state_wf(st),
        0 <= parent < st.frames.len(),
        binds_wf(bs, st.frames.len() as int),
    ensures
        state_wf(
            StateM {
                frames: st.frames.push(FrameM { parent: Some(parent), bindings: bs }),
                out: st.out,
            },
        ),
{
    let st2 = StateM {
        frames: st.frames.push(FrameM { parent: Some(parent), bindings: bs }),
        out: st.out,
    };
    let n = st.frames.len() as int;
    assert forall|i: int| 0 <= i < st2.frames.len() implies match (#[trigger] st2.frames[i]).parent {
        Some(p) => 0 <= p < i,
        None => true,
    } by {
        if i < n {
            assert(st2.frames[i] == st.frames[i]);
        }
    }
    assert forall|i: int| 0 <= i < st2.frames.len() implies binds_wf(
        (#[trigger] st2.frames[i]).bindings,
        st2.frames.len() as int,
    ) by {
        if i < n {
            assert(st2.frames[i] == st.frames[i]);
            let obs = st.frames[i].bindings;
            assert forall|j: int| 0 <= j < obs.len() implies val_wf(
                (#[trigger] obs[j]).1,
                st2.frames.len() as int,
            ) by {
                assert(val_wf(obs[j].1, n));
                lemma_val_wf_mono(obs[j].1, n, n + 1);
            }
        } else {
            assert(st2.frames[i].bindings == bs);
            assert forall|j: int| 0 <= j < bs.len() implies val_wf(
                (#[trigger] bs[j]).1,
                st2.frames.len() as int,
            ) by {
                assert(val_wf(bs[j].1, n));
                lemma_val_wf_mono(bs[j].1, n, n + 1);
            }
        }
    }
}

impl BuiltInFn {
    /// Runs this built-in on evaluated arguments: arity first, then the
    /// argument types; `puts` writes one display line per argument.
    #[verifier::rlimit(100)]
    pub fn eval(self, env: &mut Environment, arguments: Vec<Object>) -> (r: Result<
        Object,
        EvalError,
    >)
        requires
            state_wf(old(env)@),
            vals_wf(objs_view(arguments@), old(env)@.frames.len() as int),
        ensures
            eval_post(old(env)@, final(env)@, r, eval_builtin(self, objs_view(arguments@), old(env)@)),
    {
        let ghost argm = objs_view(arguments@);
        let ghost n = old(env)@.frames.len() as int;
        let ghost res = eval_builtin(self, argm, old(env)@);
        proof {
            lemma_vals_wf_forall(argm, n);
        }
        let mut arguments = arguments;
        match self {
            BuiltInFn::Len => {
                if arguments.len() != 1 {
                    let e = EvalError::Arity { expected: 1, got: arguments.len() };
                    proof {
                        assert(res.r == Err::<ValM, ErrM>(err_view(e)));
                    }
                    return Err(e);
                }
                let a0 = arguments.pop().unwrap();
                proof {
                    assert(obj_view(a0) == argm[0]);
                }
                match a0 {
                    Object::String(s) => {
                        proof {
                            assert(argm[0] == ValM::Str(s@));
                        }
                        let len = s.as_str().unicode_len();
                        let out = if len as u64 > 0x7fff_ffff_ffff_ffffu64 {
                            Object::Int(i64::MAX)
                        } else {
                            Object::Int(len as i64)
                        };
                        proof {
                            assert(res.r == Ok::<ValM, ErrM>(obj_view(out)));
                        }
                        Ok(out)
                    },
                    Object::Array(a) => {
                        proof {
                            assert(argm[0] == ValM::Arr(objs_view(a.0@)));
                        }
                        let len = a.0.len();
                        let out = if len as u64 > 0x7fff_ffff_ffff_ffffu64 {
                            Object::Int(i64::MAX)
                        } else {
                            Object::Int(len as i64)
                        };
                        proof {
                            assert(res.r == Ok::<ValM, ErrM>(obj_view(out)));
                        }
                        Ok(out)
                    },
                    other => {
                        let e = EvalError::CoercionError {
                            target: ValueKind::Array,
                            value: other.kind(),
                        };
                        proof {
                            assert(res.r == Err::<ValM, ErrM>(err_view(e)));
                        }
                        Err(e)
                    },
                }
            },
            BuiltInFn::First => {
                if arguments.len() != 1 {
                    return Err(EvalError::Arity { expected: 1, got: arguments.len() });
                }
                let a0 = arguments.pop().unwrap();
                proof {
                    assert(obj_view(a0) == argm[0]);
                    assert(val_wf(argm[0], n));
                }
                match a0 {
                    Object::Array(mut a) => {
                        if a.0.len() > 0 {
                            let ghost es = objs_view(a.0@);
                            let el = a.0.swap_remove(0);
                            proof {
                                assert(obj_view(el) == es[0]);
                                assert(es == argm[0]->Arr_0);
                                lemma_vals_wf_forall(es, n);
                                assert(val_wf(es[0], n));
                                assert(res.r == Ok::<ValM, ErrM>(obj_view(el)));
                            }
                            Ok(el)
                        } else {
                            proof {
                                assert(obj_view(a0) == ValM::Arr(objs_view(a.0@)));
                                assert(argm[0] == ValM::Arr(objs_view(a.0@)));
                                assert(objs_view(a.0@).len() == 0);
                                assert(argm.len() == 1);
                                assert(res.r == Ok::<ValM, ErrM>(ValM::Nil));
                            }
                            Ok(Object::Nil)
                        }
                    },
                    other => Err(EvalError::CoercionError {
                        target: ValueKind::Array,
                        value: other.kind(),
                    }),
                }
            },
            BuiltInFn::Last => {
                if arguments.len() != 1 {
                    return Err(EvalError::Arity { expected: 1, got: arguments.len() });
                }
                let a0 = arguments.pop().unwrap();
                proof {
                    assert(obj_view(a0) == argm[0]);
                    assert(val_wf(argm[0], n));
                }
                match a0 {
                    Object::Array(mut a) => {
                        if a.0.len() > 0 {
                            let ghost es = objs_view(a.0@);
                            let el = a.0.pop().unwrap();
                            proof {
                                assert(obj_view(el) == es.last());
                                assert(es == argm[0]->Arr_0);
                                lemma_vals_wf_forall(es, n);
                                assert(es.last() == es[es.len() - 1]);
                                assert(val_wf(es[es.len() - 1], n));
                                assert(res.r == Ok::<ValM, ErrM>(obj_view(el)));
                            }
                            Ok(el)
                        } else {
                            proof {
                                assert(argm[0] == ValM::Arr(objs_view(a.0@)));
                                assert(objs_view(a.0@).len() == 0);
                                assert(res.r == Ok::<ValM, ErrM>(ValM::Nil));
                            }
                            Ok(Object::Nil)
                        }
                    },
                    other => Err(EvalError::CoercionError {
                        target: ValueKind::Array,
                        value: other.kind(),
                    }),
                }
            },
            BuiltInFn::Rest => {
                if arguments.len() != 1 {
                    return Err(EvalError::Arity { expected: 1, got: arguments.len() });
                }
                let a0 = arguments.pop().unwrap();
                proof {
                    assert(obj_view(a0) == argm[0]);
                    assert(val_wf(argm[0], n));
                }
                match a0 {
                    Object::Array(mut a) => {
                        if a.0.len() == 0 {
                            proof {
                                assert(argm[0] == ValM::Arr(objs_view(a.0@)));
                                assert(objs_view(a.0@).len() == 0);
                                assert(res.r == Ok::<ValM, ErrM>(ValM::Nil));
                            }
                            Ok(Object::Nil)
                        } else {
                            let ghost es = objs_view(a.0@);
                            a.0.remove(0);
                            proof {
                                assert(objs_view(a.0@) =~= es.skip(1));
                                lemma_vals_wf_forall(es, n);
                                assert forall|j: int| 0 <= j < es.skip(1).len() implies val_wf(
                                    #[trigger] es.skip(1)[j],
                                    n,
                                ) by {
                                    assert(es.skip(1)[j] == es[j + 1]);
                                }
                                lemma_vals_wf_forall(es.skip(1), n);
                                assert(es == argm[0]->Arr_0);
                                assert(res.r == Ok::<ValM, ErrM>(ValM::Arr(es.skip(1))));
                            }
                            Ok(Object::Array(a))
                        }
                    },
                    other => Err(EvalError::CoercionError {
                        target: ValueKind::Array,
                        value: other.kind(),
                    }),
                }
            },
            BuiltInFn::Push => {
                if arguments.len() != 2 {
                    return Err(EvalError::Arity { expected: 2, got: arguments.len() });
                }
                let a1 = arguments.pop().unwrap();
                let a0 = arguments.pop().unwrap();
                proof {
                    assert(obj_view(a0) == argm[0]);
                    assert(obj_view(a1) == argm[1]);
                    assert(val_wf(argm[0], n));
                    assert(val_wf(argm[1], n));
                }
                match a0 {
                    Object::Array(mut a) => {
                        let ghost es = objs_view(a.0@);
                        a.0.push(a1);
                        proof {
                            assert(objs_view(a.0@) =~= es.push(argm[1]));
                            lemma_vals_wf_forall(es, n);
                            assert forall|j: int| 0 <= j < es.push(argm[1]).len() implies val_wf(
                                #[trigger] es.push(argm[1])[j],
                                n,
                            ) by {
                                if j < es.len() {
                                    assert(es.push(argm[1])[j] == es[j]);
                                    assert(val_wf(es[j], n));
                                } else {
                                    assert(es.push(argm[1])[j] == argm[1]);
                                }
                            }
                            lemma_vals_wf_forall(es.push(argm[1]), n);
                            assert(es == argm[0]->Arr_0);
                            assert(res.r == Ok::<ValM, ErrM>(ValM::Arr(es.push(argm[1]))));
                        }
                        Ok(Object::Array(a))
                    },
                    other => Err(EvalError::CoercionError {
                        target: ValueKind::Array,
                        value: other.kind(),
                    }),
                }
            },
            BuiltInFn::Puts => {
                let mut i: usize = 0;
                while i < arguments.len()
                    invariant
                        i <= arguments@.len(),
                        argm == objs_view(arguments@),
                        env@.frames == old(env)@.frames,
                        env@.out == old(env)@.out + puts_lines(argm.take(i as int)),
                    decreases arguments@.len() - i,
                {
                    let line = arguments[i].display_string();
                    env.write_line(line);
                    proof {
                        assert(puts_lines(argm.take(i + 1)) =~= puts_lines(argm.take(i as int)).push(
                            display_of(argm[i as int]),
                        ));
                        assert(env@.out =~= old(env)@.out + puts_lines(argm.take(i + 1)));
                    }
                    i = i + 1;
                }
                proof {
                    assert(argm.take(argm.len() as int) =~= argm);
                    assert(env@ =~= res.st);
                }
                Ok(Object::Nil)
            },
        }
    }
}


/// One expression, executed; equal to the spec-level evaluation.
#[verifier::rlimit(100)]
fn eval_expr_x(e: &Expression, env: &mut Environment, f: usize, fuel: u64) -> (r: Result<
    Object,
    EvalError,
>)
    requires
        state_wf(old(env)@),
        f < old(env)@.frames.len(),
    ensures
        eval_post(old(env)@, final(env)@, r, eval_expr(expr_view(*e), old(env)@, f as int, fuel as nat)),
    decreases fuel,
{
    let ghost res = eval_expr(expr_view(*e), old(env)@, f as int, fuel as nat);
    if fuel == 0 {
        return Err(EvalError::StackOverflow);
    }
    match e {
        Expression::Literal(lit) => {
            proof {
                assert(expr_view(*e) == ExprM::Literal(lit_view(*lit)));
            }
            match lit {
            Literal::Int(i) => Ok(Object::Int(*i)),
            Literal::String(st) => Ok(Object::String(st.clone())),
            Literal::True => Ok(Object::Bool(true)),
            Literal::False => Ok(Object::Bool(false)),
            Literal::Nil => Ok(Object::Nil),
            Literal::Array(es) => {
                proof {
                    assert(lit_view(*lit) == LitM::Array(exprs_view(es@)));
                }
                match eval_exprs_x(es, env, f, fuel - 1) {
                    Ok(vs) => {
                        let out = Object::Array(crate::object::Array(vs));
                        proof {
                            assert(res.r == Ok::<ValM, ErrM>(obj_view(out)));
                        }
                        Ok(out)
                    },
                    Err(err) => Err(err),
                }
            },
            Literal::Hash(ps) => {
                proof {
                    assert(lit_view(*lit) == LitM::Hash(pairs_view(ps@)));
                }
                match eval_pairs_x(ps, env, f, fuel - 1) {
                    Ok(pairs) => {
                        let table = tbl_from_exec(&pairs);
                        let out = Object::HashTable(Box::new(crate::object::HashTable(table)));
                        proof {
                            let pm = objpairs_view(pairs@);
                            let nn = env@.frames.len() as int;
                            lemma_tbl_from_wf(pm, 0, Seq::empty(), nn);
                            lemma_pairs_wf_forall(tbl_from(pm, 0, Seq::empty()), nn);
                            assert(res.r == Ok::<ValM, ErrM>(obj_view(out)));
                        }
                        Ok(out)
                    },
                    Err(err) => Err(err),
                }
            },
        }},
        Expression::Identifier(name) => {
            let nm = name.inner();
            match env.get(f, &nm) {
                Some(o) => {
                    proof {
                        assert(res.r == Ok::<ValM, ErrM>(obj_view(o)));
                    }
                    Ok(o)
                },
                None => Err(EvalError::UnknownIdentifier(Identifier::new(nm))),
            }
        },
        Expression::UnaryExpression(u) => {
            match eval_expr_x(&u.value, env, f, fuel - 1) {
                Ok(v) => {
                    let out = match u.operator {
                        UnaryOperator::Not => v.not(),
                        UnaryOperator::Minus => v.minus(),
                    };
                    proof {
                        match &out {
                            Ok(o) => {
                                assert(res.r == Ok::<ValM, ErrM>(obj_view(*o)));
                                assert(val_wf(obj_view(*o), env@.frames.len() as int));
                            },
                            Err(er) => {
                                assert(res.r == Err::<ValM, ErrM>(err_view(*er)));
                            },
                        }
                    }
                    out
                },
                Err(err) => Err(err),
            }
        },
        Expression::BinaryExp(b) => {
            match eval_expr_x(&b.lhs, env, f, fuel - 1) {
                Ok(a) => {
                    match eval_expr_x(&b.rhs, env, f, fuel - 1) {
                        Ok(c) => {
                            let out = match b.operator {
                                BinaryOperator::Eq => Ok(Object::Bool(a.eq(c))),
                                BinaryOperator::NotEq => Ok(Object::Bool(a.not_eq(c))),
                                BinaryOperator::Lt => Ok(Object::Bool(a.lt(c))),
                                BinaryOperator::Lte => Ok(Object::Bool(a.lte(c))),
                                BinaryOperator::Gt => Ok(Object::Bool(a.gt(c))),
                                BinaryOperator::Gte => Ok(Object::Bool(a.gte(c))),
                                BinaryOperator::Add => a.add(c),
                                BinaryOperator::Sub => a.sub(c),
                                BinaryOperator::Mul => a.mul(c),
                                BinaryOperator::Div => a.div(c),
                            };
                            proof {
                                match &out {
                                    Ok(o) => {
                                        assert(res.r == Ok::<ValM, ErrM>(obj_view(*o)));
                                        assert(val_wf(obj_view(*o), env@.frames.len() as int));
                                    },
                                    Err(er) => {
                                        assert(res.r == Err::<ValM, ErrM>(err_view(*er)));
                                    },
                                }
                            }
                            out
                        },
                        Err(err) => Err(err),
                    }
                },
                Err(err) => Err(err),
            }
        },
        Expression::If(fx) => {
            proof {
                assert(block_view(fx.consequence) == stmts_view(fx.consequence.0@));
                match &fx.alternative {
                    Some(alt) => {
                        assert(block_view(*alt) == stmts_view(alt.0@));
                    },
                    None => {},
                }
            }
            match eval_expr_x(&fx.condition, env, f, fuel - 1) {
                Ok(c) => {
                    match c.into_bool() {
                        Ok(b) => {
                            if b {
                                eval_block_x(&fx.consequence.0, env, f, fuel - 1)
                            } else {
                                match &fx.alternative {
                                    Some(alt) => eval_block_x(&alt.0, env, f, fuel - 1),
                                    None => Ok(Object::Nil),
                                }
                            }
                        },
                        Err(err) => Err(err),
                    }
                },
                Err(err) => Err(err),
            }
        },
        Expression::Function(fx) => {
            let out = Object::Function(Box::new(crate::object::Function {
                parameters: clone_params(&fx.parameters),
                body: clone_block(&fx.body),
                env: f,
            }));
            proof {
                assert(res.r == Ok::<ValM, ErrM>(obj_view(out)));
            }
            Ok(out)
        },
        Expression::Call(c) => {
            match eval_expr_x(&c.function, env, f, fuel - 1) {
                Ok(cv) => {
                    let ghost len1 = env@.frames.len() as int;
                    match eval_exprs_x(&c.arguments, env, f, fuel - 1) {
                        Ok(avs) => {
                            proof {
                                lemma_val_wf_mono(obj_view(cv), len1, env@.frames.len() as int);
                            }
                            call_value_x(cv, avs, env, fuel - 1)
                        },
                        Err(err) => Err(err),
                    }
                },
                Err(err) => Err(err),
            }
        },
        Expression::IndexExpression(ix) => {
            match eval_expr_x(&ix.container, env, f, fuel - 1) {
                Ok(c) => {
                    let ghost len1 = env@.frames.len() as int;
                    match eval_expr_x(&ix.index, env, f, fuel - 1) {
                        Ok(i) => {
                            proof {
                                lemma_val_wf_mono(obj_view(c), len1, env@.frames.len() as int);
                                lemma_spec_index_wf(
                                    obj_view(c),
                                    obj_view(i),
                                    env@.frames.len() as int,
                                );
                            }
                            index_value(c, i)
                        },
                        Err(err) => Err(err),
                    }
                },
                Err(err) => Err(err),
            }
        },
    }
}

/// A call on an evaluated callee: functions get a fresh frame enclosed
/// by the frame they captured, with arguments bound positionally; the
/// argument count must match; built-ins dispatch; nothing else is
/// callable.
fn call_value_x(cv: Object, args: Vec<Object>, env: &mut Environment, fuel: u64) -> (r: Result<
    Object,
    EvalError,
>)
    requires
        state_wf(old(env)@),
        val_wf(obj_view(cv), old(env)@.frames.len() as int),
        vals_wf(objs_view(args@), old(env)@.frames.len() as int),
    ensures
        eval_post(
            old(env)@,
            final(env)@,
            r,
            eval_call(obj_view(cv), objs_view(args@), old(env)@, fuel as nat),
        ),
    decreases fuel,
{
    let ghost res = eval_call(obj_view(cv), objs_view(args@), old(env)@, fuel as nat);
    let ghost argm = objs_view(args@);
    if fuel == 0 {
        return Err(EvalError::StackOverflow);
    }
    match cv {
        Object::Function(bf) => {
            let fun = *bf;
            if fun.parameters.len() != args.len() {
                let e = EvalError::Arity { expected: fun.parameters.len(), got: args.len() };
                proof {
                    assert(res.r == Err::<ValM, ErrM>(err_view(e)));
                }
                return Err(e);
            }
            // Bind the parameters positionally in a fresh frame.
            let mut bindings: Vec<(String, Object)> = Vec::new();
            let mut i: usize = 0;
            while i < fun.parameters.len()
                invariant
                    i <= fun.parameters@.len(),
                    fun.parameters@.len() == args@.len(),
                    argm == objs_view(args@),
                    bindings@.len() == i,
                    forall|j: int| 0 <= j < i ==> (#[trigger] bindings@[j]).0@
                        == fun.parameters@[j]@ && obj_view(bindings@[j].1) == argm[j],
                decreases fun.parameters@.len() - i,
            {
                let name = fun.parameters[i].inner();
                let value = obj_clone(&args[i]);
                bindings.push((name, value));
                i = i + 1;
            }
            let ghost bm = crate::object::binds_view(bindings@);
            proof {
                assert(bm =~= bind_params(params_view(fun.parameters@), argm));
                lemma_vals_wf_forall(argm, old(env)@.frames.len() as int);
                assert forall|j: int| 0 <= j < bm.len() implies val_wf(
                    (#[trigger] bm[j]).1,
                    old(env)@.frames.len() as int,
                ) by {
                    assert(bm[j].1 == argm[j]);
                    assert(val_wf(argm[j], old(env)@.frames.len() as int));
                }
                lemma_state_wf_push_frame(old(env)@, fun.env as int, bm);
            }
            let nf = env.new_enclosed(fun.env, bindings);
            proof {
                assert(env@ =~= StateM {
                    frames: old(env)@.frames.push(
                        FrameM { parent: Some(fun.env as int), bindings: bm },
                    ),
                    out: old(env)@.out,
                });
            }
            let out = eval_block_x(&fun.body.0, env, nf, fuel - 1);
            match out {
                Ok(v) => {
                    match v {
                        Object::Return(inner) => {
                            proof {
                                assert(res.r == Ok::<ValM, ErrM>(obj_view(*inner)));
                            }
                            Ok(*inner)
                        },
                        other => {
                            proof {
                                assert(!(obj_view(other) is Ret));
                                assert(res.r == Ok::<ValM, ErrM>(obj_view(other)));
                            }
                            Ok(other)
                        },
                    }
                },
                Err(err) => Err(err),
            }
        },
        Object::BuiltInFn(b) => {
            let out = b.eval(env, args);
            proof {
                assert(eval_post(old(env)@, env@, out, eval_builtin(b, argm, old(env)@)));
            }
            out
        },
        other => Err(EvalError::NotCallable(other.kind())),
    }
}

/// One statement, executed; equal to the spec-level evaluation.
fn eval_stmt_x(s: &Statement, env: &mut Environment, f: usize, fuel: u64) -> (r: Result<
    Object,
    EvalError,
>)
    requires
        state_wf(old(env)@),
        f < old(env)@.frames.len(),
    ensures
        eval_post(old(env)@, final(env)@, r, eval_stmt(stmt_view(*s), old(env)@, f as int, fuel as nat)),
    decreases fuel,
{
    let ghost res = eval_stmt(stmt_view(*s), old(env)@, f as int, fuel as nat);
    if fuel == 0 {
        return Err(EvalError::StackOverflow);
    }
    match s {
        Statement::Let { identifier, value } => {
            match eval_expr_x(&**value, env, f, fuel - 1) {
                Ok(v) => {
                    match env.try_insert(f, identifier, v) {
                        Ok(_) => {
                            proof {
                                assert(res.r == Ok::<ValM, ErrM>(ValM::Nil));
                                assert(env@ == res.st);
                            }
                            Ok(Object::Nil)
                        },
                        Err(e) => {
                            proof {
                                assert(res.r == Err::<ValM, ErrM>(err_view(e)));
                            }
                            Err(e)
                        },
                    }
                },
                Err(err) => Err(err),
            }
        },
        Statement::Return(e) => {
            match eval_expr_x(&**e, env, f, fuel - 1) {
                Ok(v) => {
                    let out = Object::Return(Box::new(v));
                    proof {
                        assert(res.r == Ok::<ValM, ErrM>(obj_view(out)));
                    }
                    Ok(out)
                },
                Err(err) => Err(err),
            }
        },
        Statement::Expression(e) => eval_expr_x(&**e, env, f, fuel - 1),
    }
}

/// A block of statements, executed in order in the current frame.
fn eval_block_x(ss: &Vec<Statement>, env: &mut Environment, f: usize, fuel: u64) -> (r: Result<
    Object,
    EvalError,
>)
    requires
        state_wf(old(env)@),
        f < old(env)@.frames.len(),
    ensures
        eval_post(
            old(env)@,
            final(env)@,
            r,
            eval_block(stmts_view(ss@), 0, old(env)@, f as int, fuel as nat, ValM::Nil),
        ),
    decreases fuel,
{
    let ghost ssm = stmts_view(ss@);
    let mut last = Object::Nil;
    let mut i: usize = 0;
    let mut cur_fuel = fuel;
    loop
        invariant
            state_wf(env@),
            f < env@.frames.len(),
            env@.frames.len() >= old(env)@.frames.len(),
            val_wf(obj_view(last), env@.frames.len() as int),
            cur_fuel <= fuel,
            i <= ssm.len(),
            ssm == stmts_view(ss@),
            eval_block(ssm, 0, old(env)@, f as int, fuel as nat, ValM::Nil) == eval_block(
                ssm,
                i as int,
                env@,
                f as int,
                cur_fuel as nat,
                obj_view(last),
            ),
        decreases cur_fuel,
    {
        if cur_fuel == 0 {
            return Err(EvalError::StackOverflow);
        }
        if i == ss.len() {
            return Ok(last);
        }
        match eval_stmt_x(&ss[i], env, f, cur_fuel - 1) {
            Ok(v) => {
                let marker = match &v {
                    Object::Return(_) => true,
                    _ => false,
                };
                proof {
                    assert(marker == (obj_view(v) is Ret));
                }
                if marker {
                    return Ok(v);
                }
                last = v;
                i = i + 1;
                cur_fuel = cur_fuel - 1;
            },
            Err(err) => {
                return Err(err);
            },
        }
    }
}

/// A list of expressions, evaluated left to right.
fn eval_exprs_x(es: &Vec<Expression>, env: &mut Environment, f: usize, fuel: u64) -> (r: Result<
    Vec<Object>,
    EvalError,
>)
    requires
        state_wf(old(env)@),
        f < old(env)@.frames.len(),
    ensures
        ({
            let res = eval_exprs(exprs_view(es@), 0, old(env)@, f as int, fuel as nat, Seq::empty());
            &&& final(env)@ == res.st
            &&& state_wf(final(env)@)
            &&& final(env)@.frames.len() >= old(env)@.frames.len()
            &&& match r {
                Ok(vs) => res.r == Ok::<Seq<ValM>, ErrM>(objs_view(vs@)) && vals_wf(
                    objs_view(vs@),
                    final(env)@.frames.len() as int,
                ),
                Err(e) => res.r == Err::<Seq<ValM>, ErrM>(err_view(e)),
            }
        }),
    decreases fuel,
{
    let ghost esm = exprs_view(es@);
    let mut acc: Vec<Object> = Vec::new();
    let mut i: usize = 0;
    let mut cur_fuel = fuel;
    proof {
        assert(objs_view(acc@) =~= Seq::<ValM>::empty());
    }
    loop
        invariant
            state_wf(env@),
            f < env@.frames.len(),
            env@.frames.len() >= old(env)@.frames.len(),
            cur_fuel <= fuel,
            i <= esm.len(),
            esm == exprs_view(es@),
            acc@.len() == i,
            vals_wf(objs_view(acc@), env@.frames.len() as int),
            eval_exprs(esm, 0, old(env)@, f as int, fuel as nat, Seq::empty()) == eval_exprs(
                esm,
                i as int,
                env@,
                f as int,
                cur_fuel as nat,
                objs_view(acc@),
            ),
        decreases cur_fuel,
    {
        if cur_fuel == 0 {
            return Err(EvalError::StackOverflow);
        }
        if i == es.len() {
            return Ok(acc);
        }
        let ghost pre_len = env@.frames.len() as int;
        match eval_expr_x(&es[i], env, f, cur_fuel - 1) {
            Ok(v) => {
                proof {
                    let am = objs_view(acc@);
                    let nn = env@.frames.len() as int;
                    lemma_vals_wf_forall(am, pre_len);
                    assert forall|j: int| 0 <= j < am.push(obj_view(v)).len() implies val_wf(
                        #[trigger] am.push(obj_view(v))[j],
                        nn,
                    ) by {
                        if j < am.len() {
                            assert(am.push(obj_view(v))[j] == am[j]);
                            assert(val_wf(am[j], pre_len));
                            lemma_val_wf_mono(am[j], pre_len, nn);
                        } else {
                            assert(am.push(obj_view(v))[j] == obj_view(v));
                        }
                    }
                    lemma_vals_wf_forall(am.push(obj_view(v)), nn);
                    assert(objs_view(acc@.push(v)) =~= am.push(obj_view(v)));
                }
                acc.push(v);
                i = i + 1;
                cur_fuel = cur_fuel - 1;
            },
            Err(err) => {
                return Err(err);
            },
        }
    }
}

/// A list of key-value pairs, evaluated left to right; every key must be
/// hashable as soon as it is evaluated.
fn eval_pairs_x(
    ps: &Vec<(Expression, Expression)>,
    env: &mut Environment,
    f: usize,
    fuel: u64,
) -> (r: Result<Vec<(Object, Object)>, EvalError>)
    requires
        state_wf(old(env)@),
        f < old(env)@.frames.len(),
    ensures
        ({
            let res = eval_pairs(pairs_view(ps@), 0, old(env)@, f as int, fuel as nat, Seq::empty());
            &&& final(env)@ == res.st
            &&& state_wf(final(env)@)
            &&& final(env)@.frames.len() >= old(env)@.frames.len()
            &&& match r {
                Ok(out) => res.r == Ok::<Seq<(ValM, ValM)>, ErrM>(objpairs_view(out@)) && (forall|
                    j: int,
                |
                    0 <= j < objpairs_view(out@).len() ==> #[trigger] pair_wf(
                        objpairs_view(out@)[j],
                        final(env)@.frames.len() as int,
                    )),
                Err(e) => res.r == Err::<Seq<(ValM, ValM)>, ErrM>(err_view(e)),
            }
        }),
    decreases fuel,
{
    let ghost psm = pairs_view(ps@);
    let mut acc: Vec<(Object, Object)> = Vec::new();
    let mut i: usize = 0;
    let mut cur_fuel = fuel;
    proof {
        assert(objpairs_view(acc@) =~= Seq::<(ValM, ValM)>::empty());
    }
    loop
        invariant
            state_wf(env@),
            f < env@.frames.len(),
            env@.frames.len() >= old(env)@.frames.len(),
            cur_fuel <= fuel,
            i <= psm.len(),
            psm == pairs_view(ps@),
            acc@.len() == i,
            forall|j: int| 0 <= j < objpairs_view(acc@).len() ==> #[trigger] pair_wf(
                objpairs_view(acc@)[j],
                env@.frames.len() as int,
            ),
            eval_pairs(psm, 0, old(env)@, f as int, fuel as nat, Seq::empty()) == eval_pairs(
                psm,
                i as int,
                env@,
                f as int,
                cur_fuel as nat,
                objpairs_view(acc@),
            ),
        decreases cur_fuel,
    {
        if cur_fuel == 0 {
            return Err(EvalError::StackOverflow);
        }
        if i == ps.len() {
            return Ok(acc);
        }
        let ghost pre_len = env@.frames.len() as int;
        match eval_expr_x(&ps[i].0, env, f, cur_fuel - 1) {
            Ok(k) => {
                if !obj_is_hashable(&k) {
                    return Err(EvalError::UnhashableKey(k.kind()));
                }
                let ghost mid_len = env@.frames.len() as int;
                match eval_expr_x(&ps[i].1, env, f, cur_fuel - 1) {
                    Ok(v) => {
                        proof {
                            let am = objpairs_view(acc@);
                            let nn = env@.frames.len() as int;
                            let newp = (obj_view(k), obj_view(v));
                            assert forall|j: int| 0 <= j < am.push(newp).len() implies
                                #[trigger] pair_wf(am.push(newp)[j], nn) by {
                                if j < am.len() {
                                    assert(am.push(newp)[j] == am[j]);
                                    assert(pair_wf(am[j], pre_len));
                                    lemma_val_wf_mono(am[j].0, pre_len, nn);
                                    lemma_val_wf_mono(am[j].1, pre_len, nn);
                                } else {
                                    assert(am.push(newp)[j] == newp);
                                    lemma_val_wf_mono(obj_view(k), mid_len, nn);
                                }
                            }
                            assert(objpairs_view(acc@.push((k, v))) =~= am.push(newp));
                        }
                        acc.push((k, v));
                        i = i + 1;
                        cur_fuel = cur_fuel - 1;
                    },
                    Err(err) => {
                        return Err(err);
                    },
                }
            },
            Err(err) => {
                return Err(err);
            },
        }
    }
}


/// The spec-level fuel every program evaluation starts with: the bound
/// on nested evaluation steps before the stack-overflow error.
pub const DEFAULT_FUEL: u64 = 4096;

/// A program with a persistent environment: the interactive loop feeds
/// it one parsed line after another.
#[derive(Debug)]
pub struct Program {
    pub env: Environment,
}

impl Program {
    /// A fresh program over a fresh environment.
    pub fn new() -> (r: Self)
        ensures
            state_wf(r.env@),
            r.env@.frames.len() == 1,
            r.env@.frames[0].parent is None,
            r.env@.frames[0].bindings.len() == 0,
            r.env@.out.len() == 0,
    {
        Self { env: Environment::new() }
    }

    /// Runs the parsed statements at the root frame; a return marker
    /// reaching the top is opened and ends the program; parse errors the
    /// parser may have collected are the caller's to inspect.
    pub fn eval(&mut self, parser: Parser) -> (r: Result<Object, EvalError>)
        requires
            state_wf(old(self).env@),
            old(self).env@.frames.len() >= 1,
        ensures
            ({
                let res = eval_program(
                    stmts_view(parser.nodes@),
                    old(self).env@,
                    DEFAULT_FUEL as nat,
                );
                &&& final(self).env@ == res.st
                &&& state_wf(final(self).env@)
                &&& final(self).env@.frames.len() >= old(self).env@.frames.len()
                &&& match r {
                    Ok(v) => res.r == Ok::<ValM, ErrM>(obj_view(v)),
                    Err(e) => res.r == Err::<ValM, ErrM>(err_view(e)),
                }
            }),
    {
        let ghost res = eval_program(stmts_view(parser.nodes@), old(self).env@, DEFAULT_FUEL as nat);
        let out = eval_block_x(&parser.nodes, &mut self.env, 0, DEFAULT_FUEL);
        match out {
            Ok(v) => {
                match v {
                    Object::Return(inner) => {
                        proof {
                            assert(res.r == Ok::<ValM, ErrM>(obj_view(*inner)));
                        }
                        Ok(*inner)
                    },
                    other => {
                        proof {
                            assert(!(obj_view(other) is Ret));
                            assert(res.r == Ok::<ValM, ErrM>(obj_view(other)));
                        }
                        Ok(other)
                    },
                }
            },
            Err(e) => Err(e),
        }
    }
}

} // verus!
