//! Laws of the language, stated over the models and proved once and for
//! all inputs.

use vstd::prelude::*;

use crate::ast::BinaryOperator;
use crate::ast::ExprM;
use crate::ast::StmtM;
use crate::eval::ERes;
use crate::eval::bind_params;
use crate::eval::eval_call;
use crate::eval::eval_block;
use crate::eval::eval_expr;
use crate::eval::eval_stmt;
use crate::eval::tbl_get;
use crate::eval::tbl_put;
use crate::eval::spec_index;
use crate::lexer::is_ws;
use crate::lexer::spec_lex;
use crate::object::FrameM;
use crate::object::StateM;
use crate::object::ValM;
use crate::object::env_get;
use crate::object::env_lookup;
use crate::object::frame_lookup;
use crate::object::is_hashable;
use crate::object::kind_of;
use crate::object::state_insert;
use crate::object::vals_eq;

verus! {

/// Leading whitespace never changes the token stream: scanning any
/// whitespace run followed by a source is scanning the source.
pub proof fn lemma_lex_leading_whitespace(w: Seq<char>, cs: Seq<char>)
    requires
        forall|j: int| 0 <= j < w.len() ==> is_ws(#[trigger] w[j]),
    ensures
        spec_lex(w + cs) == spec_lex(cs),
    decreases w.len(),
{
    if w.len() == 0 {
        assert(w + cs =~= cs);
    } else {
        assert((w + cs)[0] == w[0]);
        assert((w + cs).skip(1) =~= w.skip(1) + cs);
        assert forall|j: int| 0 <= j < w.skip(1).len() implies is_ws(#[trigger] w.skip(1)[j]) by {
            assert(w.skip(1)[j] == w[j + 1]);
        }
        lemma_lex_leading_whitespace(w.skip(1), cs);
    }
}

/// Let scoping, first half: after binding `name` to `v` in frame `f`,
/// the name evaluates to `v` right there, whatever else is bound.
pub proof fn lemma_let_binds(st: StateM, f: int, name: Seq<char>, v: ValM, fuel: nat)
    requires
        0 <= f < st.frames.len(),
        fuel >= 1,
    ensures
        ({
            let st1 = state_insert(st, f, name, v);
            eval_expr(ExprM::Identifier(name), st1, f, fuel) == ERes { r: Ok(v), st: st1 }
        }),
{
    let st1 = state_insert(st, f, name, v);
    let bs = st1.frames[f].bindings;
    assert(bs.last() == (name, v));
    assert(frame_lookup(bs, name) == Some(v));
    assert(env_lookup(st1.frames, f, name) == Some(v));
    assert(env_get(st1, f, name) == Some(v));
}

/// Let scoping, composed: when the bound expression evaluates to a
/// value and the frame does not bind the name yet, the `let` statement
/// yields `nil`, binds the name in the innermost frame, and from then on
/// the name evaluates to that value there.
pub proof fn lemma_let_scoping(st: StateM, f: int, name: Seq<char>, value: ExprM, fuel: nat)
    requires
        0 <= f < st.frames.len(),
        fuel >= 2,
        eval_expr(value, st, f, (fuel - 1) as nat).r is Ok,
        ({
            let ev = eval_expr(value, st, f, (fuel - 1) as nat);
            &&& 0 <= f < ev.st.frames.len()
            &&& frame_lookup(ev.st.frames[f].bindings, name) is None
        }),
    ensures
        ({
            let ev = eval_expr(value, st, f, (fuel - 1) as nat);
            let v = ev.r->Ok_0;
            let after = eval_stmt(StmtM::Let { name, value }, st, f, fuel);
            &&& after == ERes { r: Ok(ValM::Nil), st: state_insert(ev.st, f, name, v) }
            &&& eval_expr(ExprM::Identifier(name), after.st, f, fuel) == ERes {
                r: Ok(v),
                st: after.st,
            }
        }),
{
    let ev = eval_expr(value, st, f, (fuel - 1) as nat);
    let v = ev.r->Ok_0;
    lemma_let_binds(ev.st, f, name, v, fuel);
}

/// Let scoping, second half: an inner frame's binding shadows any outer
/// one; lookup never reaches the parent when the frame itself binds the
/// name.
pub proof fn lemma_shadowing(st: StateM, f: int, name: Seq<char>, v: ValM)
    requires
        0 <= f < st.frames.len(),
        frame_lookup(st.frames[f].bindings, name) == Some(v),
    ensures
        env_lookup(st.frames, f, name) == Some(v),
        env_get(st, f, name) == Some(v),
{
}

/// Closure capture: a function value holding one parameter `y` and the
/// body `x + y`, closed over a frame where `x` is bound to `a`, yields
/// `a + b` when applied to `b` — in any state extending that frame, so
/// later bindings elsewhere change nothing.
pub proof fn lemma_closure_capture(
    st: StateM,
    k: int,
    x: Seq<char>,
    y: Seq<char>,
    a: i64,
    b: i64,
    fuel: nat,
)
    requires
        0 <= k < st.frames.len(),
        frame_lookup(st.frames[k].bindings, x) == Some(ValM::Int(a)),
        x != y,
        fuel >= 8,
    ensures
        ({
            let body = seq![
                StmtM::Expression(
                    ExprM::Binary {
                        op: BinaryOperator::Add,
                        lhs: Box::new(ExprM::Identifier(x)),
                        rhs: Box::new(ExprM::Identifier(y)),
                    },
                ),
            ];
            let clo = ValM::Fun { params: seq![y], body, env: k };
            eval_call(clo, seq![ValM::Int(b)], st, fuel).r == Ok::<ValM, crate::object::ErrM>(
                ValM::Int(vstd::wrapping::i64_specs::wrapping_add(a, b)),
            )
        }),
{
    let body = seq![
        StmtM::Expression(
            ExprM::Binary {
                op: BinaryOperator::Add,
                lhs: Box::new(ExprM::Identifier(x)),
                rhs: Box::new(ExprM::Identifier(y)),
            },
        ),
    ];
    let clo = ValM::Fun { params: seq![y], body, env: k };
    let args = seq![ValM::Int(b)];
    let nf = st.frames.len() as int;
    let binds = bind_params(seq![y], args);
    assert(binds.len() == 1);
    assert(binds[0] == (y, ValM::Int(b)));
    let st1 = StateM {
        frames: st.frames.push(FrameM { parent: Some(k), bindings: binds }),
        out: st.out,
    };
    // The new frame binds only `y`, so `x` resolves through the parent,
    // the captured frame.
    assert(st1.frames[nf].bindings == binds);
    assert(binds.drop_last() =~= Seq::<(Seq<char>, ValM)>::empty());
    assert(binds.last() == binds[0]);
    assert(frame_lookup(Seq::<(Seq<char>, ValM)>::empty(), x) is None);
    assert(frame_lookup(binds, x) == frame_lookup(binds.drop_last(), x));
    assert(frame_lookup(binds, x) is None);
    assert(frame_lookup(binds, y) == Some(ValM::Int(b)));
    assert(st1.frames[k] == st.frames[k]);
    assert(env_lookup(st1.frames, k, x) == Some(ValM::Int(a)));
    assert(env_get(st1, nf, x) == Some(ValM::Int(a)));
    assert(env_get(st1, nf, y) == Some(ValM::Int(b)));
    let e = ExprM::Binary {
        op: BinaryOperator::Add,
        lhs: Box::new(ExprM::Identifier(x)),
        rhs: Box::new(ExprM::Identifier(y)),
    };
    assert(eval_expr(ExprM::Identifier(x), st1, nf, (fuel - 4) as nat) == ERes {
        r: Ok(ValM::Int(a)),
        st: st1,
    });
    assert(eval_expr(ExprM::Identifier(y), st1, nf, (fuel - 4) as nat) == ERes {
        r: Ok(ValM::Int(b)),
        st: st1,
    });
    let v = ValM::Int(vstd::wrapping::i64_specs::wrapping_add(a, b));
    assert(eval_expr(e, st1, nf, (fuel - 3) as nat) == ERes { r: Ok(v), st: st1 });
    assert(body[0] == StmtM::Expression(e));
    assert(eval_stmt(body[0], st1, nf, (fuel - 2) as nat) == ERes { r: Ok(v), st: st1 });
    assert(eval_block(body, 1, st1, nf, (fuel - 2) as nat, v) == ERes { r: Ok(v), st: st1 });
    assert(eval_block(body, 0, st1, nf, (fuel - 1) as nat, ValM::Nil) == ERes {
        r: Ok(v),
        st: st1,
    });
    assert(eval_call(clo, args, st, fuel).r == Ok::<ValM, crate::object::ErrM>(v));
}

/// Array index negativity: for an array of length `n` and `-n <= i < 0`,
/// indexing at `i` is indexing at `n + i`; below `-n` or at `n` and
/// above, the result is `nil`.
pub proof fn lemma_index_negativity(es: Seq<ValM>, i: i64)
    ensures
        -(es.len() as int) <= i < 0 ==> spec_index(ValM::Arr(es), ValM::Int(i)) == Ok::<
            ValM,
            crate::object::ErrM,
        >(es[es.len() + i]),
        i < -(es.len() as int) || i >= es.len() ==> spec_index(ValM::Arr(es), ValM::Int(i)) == Ok::<
            ValM,
            crate::object::ErrM,
        >(ValM::Nil),
{
}

/// Hash lookup determinism, first half: after mapping `k` to `v`, looking
/// any key up finds `v` exactly when that key equals `k`, and is
/// otherwise undisturbed.
pub proof fn lemma_tbl_put_get(ps: Seq<(ValM, ValM)>, k: ValM, v: ValM, k2: ValM)
    requires
        is_hashable(k),
    ensures
        tbl_get(tbl_put(ps, k, v), k2) == if vals_eq(k, k2) {
            Some(v)
        } else {
            tbl_get(ps, k2)
        },
    decreases ps.len(),
{
    let res = tbl_put(ps, k, v);
    if ps.len() == 0 {
        assert(res =~= seq![(k, v)]);
        assert(res.skip(1) =~= Seq::<(ValM, ValM)>::empty());
    } else if vals_eq(ps[0].0, k) {
        assert(res =~= seq![(ps[0].0, v)] + ps.skip(1));
        assert(res[0] == (ps[0].0, v));
        assert(res.skip(1) =~= ps.skip(1));
    } else {
        assert(res =~= seq![ps[0]] + tbl_put(ps.skip(1), k, v));
        assert(res[0] == ps[0]);
        assert(res.skip(1) =~= tbl_put(ps.skip(1), k, v));
        lemma_tbl_put_get(ps.skip(1), k, v, k2);
    }
}

/// Hash lookup determinism, second half: values of different kinds are
/// never equal keys, so an integer key and its textual twin stay
/// distinct entries.
pub proof fn lemma_distinct_kinds_never_collide(a: ValM, b: ValM)
    requires
        kind_of(a) != kind_of(b),
    ensures
        !vals_eq(a, b),
{
}

/// A key that equals no key of the table finds nothing.
pub proof fn lemma_tbl_get_absent(ps: Seq<(ValM, ValM)>, k: ValM)
    requires
        forall|j: int| 0 <= j < ps.len() ==> !vals_eq((#[trigger] ps[j]).0, k),
    ensures
        tbl_get(ps, k) is None,
    decreases ps.len(),
{
    if ps.len() > 0 {
        assert(!vals_eq(ps[0].0, k));
        assert forall|j: int| 0 <= j < ps.skip(1).len() implies !vals_eq(
            (#[trigger] ps.skip(1)[j]).0,
            k,
        ) by {
            assert(ps.skip(1)[j] == ps[j + 1]);
        }
        lemma_tbl_get_absent(ps.skip(1), k);
    }
}


/// Return transparency at the function boundary: for any expression `E`
/// whose value is no internal return marker, the call of
/// `fn(){ return E; 1 }` agrees with the call of `fn(){ E }` — the early
/// return neither changes the value nor lets the trailing statement run.
pub proof fn lemma_return_transparency(st: StateM, k: int, e: ExprM, fuel: nat)
    requires
        0 <= k < st.frames.len(),
        fuel >= 4,
        ({
            let nf = st.frames.len() as int;
            let st1 = StateM {
                frames: st.frames.push(
                    FrameM { parent: Some(k), bindings: bind_params(Seq::empty(), Seq::empty()) },
                ),
                out: st.out,
            };
            match eval_expr(e, st1, nf, (fuel - 3) as nat).r {
                Ok(v) => !(v is Ret),
                Err(_) => true,
            }
        }),
    ensures
        ({
            let early = ValM::Fun {
                params: Seq::empty(),
                body: seq![
                    StmtM::Return(e),
                    StmtM::Expression(ExprM::Literal(crate::ast::LitM::Int(1))),
                ],
                env: k,
            };
            let plain = ValM::Fun { params: Seq::empty(), body: seq![StmtM::Expression(e)], env: k };
            eval_call(early, Seq::empty(), st, fuel) == eval_call(plain, Seq::empty(), st, fuel)
        }),
{
    let nf = st.frames.len() as int;
    let st1 = StateM {
        frames: st.frames.push(
            FrameM { parent: Some(k), bindings: bind_params(Seq::empty(), Seq::empty()) },
        ),
        out: st.out,
    };
    let body1 = seq![
        StmtM::Return(e),
        StmtM::Expression(ExprM::Literal(crate::ast::LitM::Int(1))),
    ];
    let body2 = seq![StmtM::Expression(e)];
    let ev = eval_expr(e, st1, nf, (fuel - 3) as nat);
    assert(body1[0] == StmtM::Return(e));
    assert(body2[0] == StmtM::Expression(e));
    match ev.r {
        Ok(v) => {
            assert(eval_stmt(body1[0], st1, nf, (fuel - 2) as nat) == ERes {
                r: Ok(ValM::Ret(Box::new(v))),
                st: ev.st,
            });
            assert(eval_block(body1, 0, st1, nf, (fuel - 1) as nat, ValM::Nil) == ERes {
                r: Ok(ValM::Ret(Box::new(v))),
                st: ev.st,
            });
            assert(eval_stmt(body2[0], st1, nf, (fuel - 2) as nat) == ev);
            assert(eval_block(body2, 1, ev.st, nf, (fuel - 2) as nat, v) == ERes {
                r: Ok(v),
                st: ev.st,
            });
            assert(eval_block(body2, 0, st1, nf, (fuel - 1) as nat, ValM::Nil) == ERes {
                r: Ok(v),
                st: ev.st,
            });
        },
        Err(err) => {
            assert(eval_stmt(body1[0], st1, nf, (fuel - 2) as nat) == ERes {
                r: Err(err),
                st: ev.st,
            });
            assert(eval_block(body1, 0, st1, nf, (fuel - 1) as nat, ValM::Nil) == ERes {
                r: Err(err),
                st: ev.st,
            });
            assert(eval_stmt(body2[0], st1, nf, (fuel - 2) as nat) == ev);
            assert(eval_block(body2, 0, st1, nf, (fuel - 1) as nat, ValM::Nil) == ERes {
                r: Err(err),
                st: ev.st,
            });
        },
    }
}

} // verus!
