//! Runtime values, the environment arena, and the operations on values.

use vstd::prelude::*;

use crate::ast::BinaryOperator;
use crate::ast::BlockStatement;
use crate::ast::StmtM;
use crate::ast::UnaryOperator;
use crate::ast::block_view;
use crate::ast::clone_block;
use crate::ast::clone_params;
use crate::ast::params_view;
use crate::lexer::push_char;
use crate::token::Identifier;

verus! {

/// A built-in function of the language.
#[derive(Debug, Clone, Copy, PartialEq, Eq, Structural)]
pub enum BuiltInFn {
    Len,
    First,
    Last,
    Rest,
    Push,
    Puts,
}

/// The name a built-in function answers to.
pub open spec fn spec_builtin_name(b: BuiltInFn) -> Seq<char> {
    match b {
        BuiltInFn::Len => "len"@,
        BuiltInFn::First => "first"@,
        BuiltInFn::Last => "last"@,
        BuiltInFn::Rest => "rest"@,
        BuiltInFn::Push => "push"@,
        BuiltInFn::Puts => "puts"@,
    }
}

impl BuiltInFn {
    /// The name this built-in answers to.
    pub fn name(&self) -> (r: &'static str)
        ensures
            r@ == spec_builtin_name(*self),
    {
        match self {
            BuiltInFn::Len => "len",
            BuiltInFn::First => "first",
            BuiltInFn::Last => "last",
            BuiltInFn::Rest => "rest",
            BuiltInFn::Push => "push",
            BuiltInFn::Puts => "puts",
        }
    }
}

/// The kind of a runtime value, as carried by errors.
#[derive(Debug, Clone, Copy, PartialEq, Eq, Structural)]
pub enum ValueKind {
    Nil,
    Int,
    Bool,
    String,
    Array,
    HashTable,
    Function,
    BuiltIn,
    Return,
}

/// A runtime value.
///
/// `Return` is an internal marker that carries a value out of a block up
/// to the enclosing function boundary or the program top; it never
/// escapes evaluation.
#[derive(Debug, PartialEq, Eq)]
pub enum Object {
    Nil,
    Int(i64),
    Bool(bool),
    String(String),
    BuiltInFn(BuiltInFn),
    Array(Array),
    HashTable(Box<HashTable>),
    Function(Box<Function>),
    Return(Box<Object>),
}

/// An array value: a sequence of values.
#[derive(Debug, PartialEq, Eq)]
pub struct Array(pub Vec<Object>);

/// A hash value: key-value pairs in insertion order; mapping an
/// existing key again overwrites its value in place.
#[derive(Debug, PartialEq, Eq)]
pub struct HashTable(pub Vec<(Object, Object)>);

/// A function value: parameters, a body, and the frame it closed over.
///
/// The environment is a frame arena; `env` is the index of the frame that
/// was current where the function literal was evaluated.
#[derive(Debug, PartialEq, Eq)]
pub struct Function {
    pub parameters: Vec<Identifier>,
    pub body: BlockStatement,
    pub env: usize,
}

impl Function {
    pub fn new(parameters: Vec<Identifier>, body: BlockStatement, env: usize) -> (r: Self)
        ensures
            r.parameters == parameters,
            r.body == body,
            r.env == env,
    {
        Self { parameters, body, env }
    }
}

impl Array {
    pub fn new(storage: Vec<Object>) -> (r: Self)
        ensures
            r.0 == storage,
    {
        Self(storage)
    }

    /// Appends a value in place.
    pub fn push(&mut self, obj: Object)
        ensures
            final(self).0@ == old(self).0@.push(obj),
    {
        self.0.push(obj)
    }
}

/// The model of a runtime value.
#[verifier::ext_equal]
pub enum ValM {
    Nil,
    Int(i64),
    Bool(bool),
    Str(Seq<char>),
    Builtin(BuiltInFn),
    Arr(Seq<ValM>),
    Tbl(Seq<(ValM, ValM)>),
    Fun { params: Seq<Seq<char>>, body: Seq<StmtM>, env: int },
    Ret(Box<ValM>),
}

/// The model of a runtime value.
pub open spec fn obj_view(o: Object) -> ValM
    decreases o, 0int,
{
    match o {
        Object::Nil => ValM::Nil,
        Object::Int(i) => ValM::Int(i),
        Object::Bool(b) => ValM::Bool(b),
        Object::String(s) => ValM::Str(s@),
        Object::BuiltInFn(b) => ValM::Builtin(b),
        Object::Array(a) => ValM::Arr(objs_view(a.0@)),
        Object::HashTable(t) => ValM::Tbl(objpairs_view(t.0@)),
        Object::Function(f) => ValM::Fun {
            params: params_view(f.parameters@),
            body: block_view(f.body),
            env: f.env as int,
        },
        Object::Return(v) => ValM::Ret(Box::new(obj_view(*v))),
    }
}

/// The model of a value sequence, element by element.
pub open spec fn objs_view(s: Seq<Object>) -> Seq<ValM>
    decreases s, 1int,
{
    Seq::new(s.len(), |i: int| if 0 <= i < s.len() { obj_view(s[i]) } else { ValM::Nil })
}

/// The model of a sequence of key-value pairs, element by element.
pub open spec fn objpairs_view(s: Seq<(Object, Object)>) -> Seq<(ValM, ValM)>
    decreases s, 1int,
{
    Seq::new(
        s.len(),
        |i: int| if 0 <= i < s.len() {
            (obj_view(s[i].0), obj_view(s[i].1))
        } else {
            (ValM::Nil, ValM::Nil)
        },
    )
}

/// The kind of a value.
pub open spec fn kind_of(v: ValM) -> ValueKind {
    match v {
        ValM::Nil => ValueKind::Nil,
        ValM::Int(_) => ValueKind::Int,
        ValM::Bool(_) => ValueKind::Bool,
        ValM::Str(_) => ValueKind::String,
        ValM::Builtin(_) => ValueKind::BuiltIn,
        ValM::Arr(_) => ValueKind::Array,
        ValM::Tbl(_) => ValueKind::HashTable,
        ValM::Fun { .. } => ValueKind::Function,
        ValM::Ret(_) => ValueKind::Return,
    }
}

/// Whether a value may be used as a hash key: the hashable scalars.
pub open spec fn is_hashable(v: ValM) -> bool {
    match v {
        ValM::Nil | ValM::Int(_) | ValM::Bool(_) | ValM::Str(_) => true,
        _ => false,
    }
}

/// Equality of the language: defined for the scalars; values of different
/// kinds, and all other values, are never equal.
pub open spec fn vals_eq(a: ValM, b: ValM) -> bool {
    match (a, b) {
        (ValM::Nil, ValM::Nil) => true,
        (ValM::Int(x), ValM::Int(y)) => x == y,
        (ValM::Bool(x), ValM::Bool(y)) => x == y,
        (ValM::Str(x), ValM::Str(y)) => x == y,
        _ => false,
    }
}

/// Well-formedness of a value against an arena of `n` frames: every
/// captured frame index, anywhere inside the value, is in range.
pub open spec fn val_wf(v: ValM, n: int) -> bool
    decreases v, 0int,
{
    match v {
        ValM::Arr(es) => vals_wf(es, n),
        ValM::Tbl(ps) => pairs_wf(ps, n),
        ValM::Fun { env, .. } => 0 <= env < n,
        ValM::Ret(b) => val_wf(*b, n),
        _ => true,
    }
}

/// Well-formedness of one key-value pair.
pub open spec fn pair_wf(p: (ValM, ValM), n: int) -> bool {
    val_wf(p.0, n) && val_wf(p.1, n)
}

/// Well-formedness of every value of a sequence.
pub open spec fn vals_wf(es: Seq<ValM>, n: int) -> bool
    decreases es, 1int,
{
    if es.len() == 0 {
        true
    } else {
        val_wf(es.last(), n) && vals_wf(es.drop_last(), n)
    }
}

/// Well-formedness of the keys and values of a pair sequence.
pub open spec fn pairs_wf(ps: Seq<(ValM, ValM)>, n: int) -> bool
    decreases ps, 1int,
{
    if ps.len() == 0 {
        true
    } else {
        val_wf(ps.last().0, n) && val_wf(ps.last().1, n) && pairs_wf(ps.drop_last(), n)
    }
}

/// `vals_wf` says that every element is well-formed.
pub proof fn lemma_vals_wf_forall(es: Seq<ValM>, n: int)
    ensures
        vals_wf(es, n) <==> (forall|i: int| 0 <= i < es.len() ==> #[trigger] val_wf(es[i], n)),
    decreases es.len(),
{
    if es.len() > 0 {
        lemma_vals_wf_forall(es.drop_last(), n);
        assert(es.last() == es[es.len() - 1]);
        if vals_wf(es, n) {
            assert forall|i: int| 0 <= i < es.len() implies #[trigger] val_wf(es[i], n) by {
                if i < es.len() - 1 {
                    assert(val_wf(es.drop_last()[i], n));
                    assert(es.drop_last()[i] == es[i]);
                }
            }
        }
        if forall|i: int| 0 <= i < es.len() ==> #[trigger] val_wf(es[i], n) {
            assert forall|i: int| 0 <= i < es.drop_last().len()
                implies #[trigger] val_wf(es.drop_last()[i], n) by {
                assert(es.drop_last()[i] == es[i]);
                assert(val_wf(es[i], n));
            }
            assert(vals_wf(es.drop_last(), n));
            assert(val_wf(es[es.len() - 1], n));
        }
    }
}

/// `pairs_wf` says that every key and value is well-formed.
pub proof fn lemma_pairs_wf_forall(ps: Seq<(ValM, ValM)>, n: int)
    ensures
        pairs_wf(ps, n) <==> (forall|i: int| 0 <= i < ps.len() ==> #[trigger] pair_wf(ps[i], n)),
    decreases ps.len(),
{
    if ps.len() > 0 {
        lemma_pairs_wf_forall(ps.drop_last(), n);
        assert(ps.last() == ps[ps.len() - 1]);
        if pairs_wf(ps, n) {
            assert(pair_wf(ps[ps.len() - 1], n));
            assert forall|i: int| 0 <= i < ps.len() implies #[trigger] pair_wf(ps[i], n) by {
                if i < ps.len() - 1 {
                    assert(pair_wf(ps.drop_last()[i], n));
                    assert(ps.drop_last()[i] == ps[i]);
                }
            }
        }
        if forall|i: int| 0 <= i < ps.len() ==> #[trigger] pair_wf(ps[i], n) {
            assert forall|i: int| 0 <= i < ps.drop_last().len()
                implies #[trigger] pair_wf(ps.drop_last()[i], n) by {
                assert(ps.drop_last()[i] == ps[i]);
                assert(pair_wf(ps[i], n));
            }
            assert(pairs_wf(ps.drop_last(), n));
            assert(pair_wf(ps[ps.len() - 1], n));
        }
    }
}

/// A value well-formed against an arena stays well-formed as it grows.
pub proof fn lemma_val_wf_mono(v: ValM, n: int, m: int)
    requires
        val_wf(v, n),
        n <= m,
    ensures
        val_wf(v, m),
    decreases v, 2int,
{
    match v {
        ValM::Arr(es) => {
            lemma_vals_wf_mono(es, n, m);
        },
        ValM::Tbl(ps) => {
            lemma_pairs_wf_mono(ps, n, m);
        },
        ValM::Ret(b) => {
            lemma_val_wf_mono(*b, n, m);
        },
        _ => {},
    }
}

/// Sequence well-formedness is kept as the arena grows.
pub proof fn lemma_vals_wf_mono(es: Seq<ValM>, n: int, m: int)
    requires
        vals_wf(es, n),
        n <= m,
    ensures
        vals_wf(es, m),
    decreases es, 0int,
{
    if es.len() > 0 {
        lemma_val_wf_mono(es.last(), n, m);
        lemma_vals_wf_mono(es.drop_last(), n, m);
    }
}

/// Pair-sequence well-formedness is kept as the arena grows.
pub proof fn lemma_pairs_wf_mono(ps: Seq<(ValM, ValM)>, n: int, m: int)
    requires
        pairs_wf(ps, n),
        n <= m,
    ensures
        pairs_wf(ps, m),
    decreases ps, 0int,
{
    if ps.len() > 0 {
        lemma_val_wf_mono(ps.last().0, n, m);
        lemma_val_wf_mono(ps.last().1, n, m);
        lemma_pairs_wf_mono(ps.drop_last(), n, m);
    }
}

/// A deep copy of a value, equal to the original in the model.
pub fn obj_clone(o: &Object) -> (r: Object)
    ensures
        obj_view(r) == obj_view(*o),
    decreases *o, 2int,
{
    match o {
        Object::Nil => Object::Nil,
        Object::Int(i) => Object::Int(*i),
        Object::Bool(b) => Object::Bool(*b),
        Object::String(s) => Object::String(s.clone()),
        Object::BuiltInFn(b) => Object::BuiltInFn(*b),
        Object::Array(a) => Object::Array(Array(clone_objs(&a.0))),
        Object::HashTable(t) => Object::HashTable(Box::new(HashTable(clone_objpairs(&t.0)))),
        Object::Function(f) => Object::Function(Box::new(Function {
            parameters: clone_params(&f.parameters),
            body: clone_block(&f.body),
            env: f.env,
        })),
        Object::Return(v) => Object::Return(Box::new(obj_clone(v))),
    }
}

/// A deep copy of a value vector, equal to the original in the model.
pub fn clone_objs(s: &Vec<Object>) -> (r: Vec<Object>)
    ensures
        objs_view(r@) == objs_view(s@),
    decreases s@, 1int,
{
    let mut r: Vec<Object> = Vec::new();
    let mut i: usize = 0;
    while i < s.len()
        invariant
            i <= s.len(),
            r@.len() == i,
            forall|j: int| 0 <= j < i ==> obj_view(r@[j]) == obj_view(s@[j]),
        decreases s@.len() - i,
    {
        r.push(obj_clone(&s[i]));
        i = i + 1;
    }
    proof {
        assert(objs_view(r@) =~= objs_view(s@));
    }
    r
}

/// A deep copy of a pair vector, equal to the original in the model.
pub fn clone_objpairs(s: &Vec<(Object, Object)>) -> (r: Vec<(Object, Object)>)
    ensures
        objpairs_view(r@) == objpairs_view(s@),
    decreases s@, 1int,
{
    let mut r: Vec<(Object, Object)> = Vec::new();
    let mut i: usize = 0;
    while i < s.len()
        invariant
            i <= s.len(),
            r@.len() == i,
            forall|j: int| 0 <= j < i ==> obj_view(r@[j].0) == obj_view(s@[j].0)
                && obj_view(r@[j].1) == obj_view(s@[j].1),
        decreases s@.len() - i,
    {
        let pair = (obj_clone(&s[i].0), obj_clone(&s[i].1));
        r.push(pair);
        i = i + 1;
    }
    proof {
        assert(objpairs_view(r@) =~= objpairs_view(s@));
    }
    r
}


/// An evaluation error; it aborts the evaluation that raised it.
#[derive(Debug, PartialEq, Eq)]
pub enum EvalError {
    UnknownIdentifier(Identifier),
    Redefined(Identifier),
    Arity { expected: usize, got: usize },
    NotCallable(ValueKind),
    UnaryTypeError { operator: UnaryOperator, operand: ValueKind },
    BinaryTypeError { operator: BinaryOperator, lhs: ValueKind, rhs: ValueKind },
    IndexTypeError { container: ValueKind, index: ValueKind },
    UnhashableKey(ValueKind),
    DivisionByZero,
    CoercionError { target: ValueKind, value: ValueKind },
    StackOverflow,
}

/// The model of an evaluation error.
#[verifier::ext_equal]
pub enum ErrM {
    UnknownIdentifier(Seq<char>),
    Redefined(Seq<char>),
    Arity { expected: int, got: int },
    NotCallable(ValueKind),
    UnaryTypeError { operator: UnaryOperator, operand: ValueKind },
    BinaryTypeError { operator: BinaryOperator, lhs: ValueKind, rhs: ValueKind },
    IndexTypeError { container: ValueKind, index: ValueKind },
    UnhashableKey(ValueKind),
    DivisionByZero,
    CoercionError { target: ValueKind, value: ValueKind },
    StackOverflow,
}

/// The model of an evaluation error.
pub open spec fn err_view(e: EvalError) -> ErrM {
    match e {
        EvalError::UnknownIdentifier(name) => ErrM::UnknownIdentifier(name@),
        EvalError::Redefined(name) => ErrM::Redefined(name@),
        EvalError::Arity { expected, got } => ErrM::Arity {
            expected: expected as int,
            got: got as int,
        },
        EvalError::NotCallable(k) => ErrM::NotCallable(k),
        EvalError::UnaryTypeError { operator, operand } => ErrM::UnaryTypeError { operator, operand },
        EvalError::BinaryTypeError { operator, lhs, rhs } => ErrM::BinaryTypeError { operator, lhs, rhs },
        EvalError::IndexTypeError { container, index } => ErrM::IndexTypeError { container, index },
        EvalError::UnhashableKey(k) => ErrM::UnhashableKey(k),
        EvalError::DivisionByZero => ErrM::DivisionByZero,
        EvalError::CoercionError { target, value } => ErrM::CoercionError { target, value },
        EvalError::StackOverflow => ErrM::StackOverflow,
    }
}

/// Truthiness: `false`, `nil`, `0` and the empty string are false; every
/// other value is true.  The internal return marker cannot be coerced.
pub open spec fn spec_truthy(v: ValM) -> Result<bool, ErrM> {
    match v {
        ValM::Nil => Ok(false),
        ValM::Int(i) => Ok(i != 0),
        ValM::Bool(b) => Ok(b),
        ValM::Str(s) => Ok(s.len() != 0),
        ValM::Ret(_) => Err(ErrM::CoercionError { target: ValueKind::Bool, value: ValueKind::Return }),
        _ => Ok(true),
    }
}

/// Logical negation: truthiness, negated.
pub open spec fn spec_not(v: ValM) -> Result<ValM, ErrM> {
    match spec_truthy(v) {
        Ok(b) => Ok(ValM::Bool(!b)),
        Err(e) => Err(e),
    }
}

/// Unary minus: integers only, wrapping on the smallest value.
pub open spec fn spec_minus(v: ValM) -> Result<ValM, ErrM> {
    match v {
        ValM::Int(i) => Ok(ValM::Int(vstd::wrapping::i64_specs::wrapping_sub(0, i))),
        _ => Err(ErrM::UnaryTypeError { operator: UnaryOperator::Minus, operand: kind_of(v) }),
    }
}

/// Addition: wrapping on integers, concatenation on strings.
pub open spec fn spec_add(a: ValM, b: ValM) -> Result<ValM, ErrM> {
    match (a, b) {
        (ValM::Int(x), ValM::Int(y)) => Ok(ValM::Int(vstd::wrapping::i64_specs::wrapping_add(x, y))),
        (ValM::Str(x), ValM::Str(y)) => Ok(ValM::Str(x + y)),
        _ => Err(ErrM::BinaryTypeError {
            operator: BinaryOperator::Add,
            lhs: kind_of(a),
            rhs: kind_of(b),
        }),
    }
}

/// Subtraction: wrapping, integers only.
pub open spec fn spec_sub(a: ValM, b: ValM) -> Result<ValM, ErrM> {
    match (a, b) {
        (ValM::Int(x), ValM::Int(y)) => Ok(ValM::Int(vstd::wrapping::i64_specs::wrapping_sub(x, y))),
        _ => Err(ErrM::BinaryTypeError {
            operator: BinaryOperator::Sub,
            lhs: kind_of(a),
            rhs: kind_of(b),
        }),
    }
}

/// Multiplication: wrapping, integers only.
pub open spec fn spec_mul(a: ValM, b: ValM) -> Result<ValM, ErrM> {
    match (a, b) {
        (ValM::Int(x), ValM::Int(y)) => Ok(ValM::Int(vstd::wrapping::i64_specs::wrapping_mul(x, y))),
        _ => Err(ErrM::BinaryTypeError {
            operator: BinaryOperator::Mul,
            lhs: kind_of(a),
            rhs: kind_of(b),
        }),
    }
}

/// The magnitude of a signed 64-bit integer.
pub open spec fn i64_abs(a: i64) -> int {
    if a < 0 {
        -(a as int)
    } else {
        a as int
    }
}

/// Division, truncated toward zero as the machine divides, wrapping on
/// the one overflowing case.
pub open spec fn spec_div_i64(a: i64, b: i64) -> i64
    recommends
        b != 0,
{
    let q = i64_abs(a) / i64_abs(b);
    if (a < 0) != (b < 0) {
        (-q) as i64
    } else if q > 0x7fff_ffff_ffff_ffff {
        i64::MIN
    } else {
        q as i64
    }
}

/// Division: integers only; dividing by zero is an error.
pub open spec fn spec_div(a: ValM, b: ValM) -> Result<ValM, ErrM> {
    match (a, b) {
        (ValM::Int(x), ValM::Int(y)) => if y == 0 {
            Err(ErrM::DivisionByZero)
        } else {
            Ok(ValM::Int(spec_div_i64(x, y)))
        },
        _ => Err(ErrM::BinaryTypeError {
            operator: BinaryOperator::Div,
            lhs: kind_of(a),
            rhs: kind_of(b),
        }),
    }
}

/// Order comparison: defined only between integers; every other pairing
/// compares false.
pub open spec fn spec_lt(a: ValM, b: ValM) -> bool {
    match (a, b) {
        (ValM::Int(x), ValM::Int(y)) => x < y,
        _ => false,
    }
}

pub open spec fn spec_gt(a: ValM, b: ValM) -> bool {
    match (a, b) {
        (ValM::Int(x), ValM::Int(y)) => x > y,
        _ => false,
    }
}

pub open spec fn spec_lte(a: ValM, b: ValM) -> bool {
    match (a, b) {
        (ValM::Int(x), ValM::Int(y)) => x <= y,
        _ => false,
    }
}

pub open spec fn spec_gte(a: ValM, b: ValM) -> bool {
    match (a, b) {
        (ValM::Int(x), ValM::Int(y)) => x >= y,
        _ => false,
    }
}

/// The integer a length comes out as: lengths over the largest signed
/// 64-bit value saturate there.
pub open spec fn int_of_len(n: int) -> i64 {
    if n <= 0x7fff_ffff_ffff_ffff {
        n as i64
    } else {
        0x7fff_ffff_ffff_ffff as i64
    }
}

/// The name of a value's type, as errors and debugging show it.
pub open spec fn spec_typeof(v: ValM) -> Seq<char> {
    match v {
        ValM::Nil => "nil"@,
        ValM::Int(_) => "int"@,
        ValM::Bool(_) => "bool"@,
        ValM::Str(_) => "string"@,
        ValM::Builtin(b) => spec_builtin_name(b),
        ValM::Arr(_) => "array"@,
        ValM::Tbl(_) => "object"@,
        ValM::Fun { .. } => "function"@,
        ValM::Ret(_) => "return"@,
    }
}

impl Object {
    /// The kind of this value.
    pub fn kind(&self) -> (r: ValueKind)
        ensures
            r == kind_of(obj_view(*self)),
    {
        match self {
            Object::Nil => ValueKind::Nil,
            Object::Int(_) => ValueKind::Int,
            Object::Bool(_) => ValueKind::Bool,
            Object::String(_) => ValueKind::String,
            Object::BuiltInFn(_) => ValueKind::BuiltIn,
            Object::Array(_) => ValueKind::Array,
            Object::HashTable(_) => ValueKind::HashTable,
            Object::Function(_) => ValueKind::Function,
            Object::Return(_) => ValueKind::Return,
        }
    }

    /// The name of this value's type.
    pub fn as_typeof(&self) -> (r: &'static str)
        ensures
            r@ == spec_typeof(obj_view(*self)),
    {
        match self {
            Object::Nil => "nil",
            Object::Int(_) => "int",
            Object::Bool(_) => "bool",
            Object::String(_) => "string",
            Object::BuiltInFn(b) => b.name(),
            Object::Array(_) => "array",
            Object::HashTable(_) => "object",
            Object::Function(_) => "function",
            Object::Return(_) => "return",
        }
    }

    /// Coerces this value to a boolean by the truthiness rule.
    pub fn into_bool(self) -> (r: Result<bool, EvalError>)
        ensures
            match r {
                Ok(b) => spec_truthy(obj_view(self)) == Ok::<bool, ErrM>(b),
                Err(e) => spec_truthy(obj_view(self)) == Err::<bool, ErrM>(err_view(e)),
            },
    {
        match self {
            Object::Nil => Ok(false),
            Object::Int(i) => Ok(i != 0),
            Object::Bool(b) => Ok(b),
            Object::String(s) => Ok(s.as_str().unicode_len() != 0),
            Object::Return(_) => Err(EvalError::CoercionError {
                target: ValueKind::Bool,
                value: ValueKind::Return,
            }),
            _ => Ok(true),
        }
    }

    /// Logical negation by truthiness.
    pub fn not(self) -> (r: Result<Object, EvalError>)
        ensures
            match r {
                Ok(v) => spec_not(obj_view(self)) == Ok::<ValM, ErrM>(obj_view(v)),
                Err(e) => spec_not(obj_view(self)) == Err::<ValM, ErrM>(err_view(e)),
            },
    {
        match self.into_bool() {
            Ok(b) => Ok(Object::Bool(!b)),
            Err(e) => Err(e),
        }
    }

    /// Unary minus on an integer.
    pub fn minus(self) -> (r: Result<Object, EvalError>)
        ensures
            match r {
                Ok(v) => spec_minus(obj_view(self)) == Ok::<ValM, ErrM>(obj_view(v)),
                Err(e) => spec_minus(obj_view(self)) == Err::<ValM, ErrM>(err_view(e)),
            },
    {
        match self {
            Object::Int(i) => Ok(Object::Int(0i64.wrapping_sub(i))),
            other => Err(EvalError::UnaryTypeError {
                operator: UnaryOperator::Minus,
                operand: other.kind(),
            }),
        }
    }

    /// Addition: wrapping on integers, concatenation on strings.
    pub fn add(self, rhs: Object) -> (r: Result<Object, EvalError>)
        ensures
            match r {
                Ok(v) => spec_add(obj_view(self), obj_view(rhs)) == Ok::<ValM, ErrM>(obj_view(v)),
                Err(e) => spec_add(obj_view(self), obj_view(rhs)) == Err::<ValM, ErrM>(err_view(e)),
            },
    {
        match (self, rhs) {
            (Object::Int(a), Object::Int(b)) => Ok(Object::Int(a.wrapping_add(b))),
            (Object::String(a), Object::String(b)) => Ok(Object::String(a.concat(b.as_str()))),
            (a, b) => Err(EvalError::BinaryTypeError {
                operator: BinaryOperator::Add,
                lhs: a.kind(),
                rhs: b.kind(),
            }),
        }
    }

    /// Subtraction on integers, wrapping.
    pub fn sub(self, rhs: Object) -> (r: Result<Object, EvalError>)
        ensures
            match r {
                Ok(v) => spec_sub(obj_view(self), obj_view(rhs)) == Ok::<ValM, ErrM>(obj_view(v)),
                Err(e) => spec_sub(obj_view(self), obj_view(rhs)) == Err::<ValM, ErrM>(err_view(e)),
            },
    {
        match (self, rhs) {
            (Object::Int(a), Object::Int(b)) => Ok(Object::Int(a.wrapping_sub(b))),
            (a, b) => Err(EvalError::BinaryTypeError {
                operator: BinaryOperator::Sub,
                lhs: a.kind(),
                rhs: b.kind(),
            }),
        }
    }

    /// Multiplication on integers, wrapping.
    pub fn mul(self, rhs: Object) -> (r: Result<Object, EvalError>)
        ensures
            match r {
                Ok(v) => spec_mul(obj_view(self), obj_view(rhs)) == Ok::<ValM, ErrM>(obj_view(v)),
                Err(e) => spec_mul(obj_view(self), obj_view(rhs)) == Err::<ValM, ErrM>(err_view(e)),
            },
    {
        match (self, rhs) {
            (Object::Int(a), Object::Int(b)) => Ok(Object::Int(a.wrapping_mul(b))),
            (a, b) => Err(EvalError::BinaryTypeError {
                operator: BinaryOperator::Mul,
                lhs: a.kind(),
                rhs: b.kind(),
            }),
        }
    }

    /// Division on integers; dividing by zero is an error; the quotient
    /// is truncated toward zero and wraps on the one overflowing case.
    pub fn div(self, rhs: Object) -> (r: Result<Object, EvalError>)
        ensures
            match r {
                Ok(v) => spec_div(obj_view(self), obj_view(rhs)) == Ok::<ValM, ErrM>(obj_view(v)),
                Err(e) => spec_div(obj_view(self), obj_view(rhs)) == Err::<ValM, ErrM>(err_view(e)),
            },
    {
        match (self, rhs) {
            (Object::Int(a), Object::Int(b)) => {
                if b == 0 {
                    Err(EvalError::DivisionByZero)
                } else {
                    let ua: u64 = if a < 0 {
                        ((-(a + 1)) as u64) + 1
                    } else {
                        a as u64
                    };
                    let ub: u64 = if b < 0 {
                        ((-(b + 1)) as u64) + 1
                    } else {
                        b as u64
                    };
                    proof {
                        assert(ua == i64_abs(a));
                        assert(ub == i64_abs(b));
                    }
                    let uq = ua / ub;
                    let q: i64 = if (a < 0) != (b < 0) {
                        if uq == 0x8000_0000_0000_0000u64 {
                            i64::MIN
                        } else {
                            -(uq as i64)
                        }
                    } else {
                        if uq >= 0x8000_0000_0000_0000u64 {
                            i64::MIN
                        } else {
                            uq as i64
                        }
                    };
                    Ok(Object::Int(q))
                }
            },
            (a, b) => Err(EvalError::BinaryTypeError {
                operator: BinaryOperator::Div,
                lhs: a.kind(),
                rhs: b.kind(),
            }),
        }
    }

    /// Equality of the language.
    pub fn eq(self, rhs: Object) -> (r: bool)
        ensures
            r == vals_eq(obj_view(self), obj_view(rhs)),
    {
        match (self, rhs) {
            (Object::Nil, Object::Nil) => true,
            (Object::Int(a), Object::Int(b)) => a == b,
            (Object::Bool(a), Object::Bool(b)) => a == b,
            (Object::String(a), Object::String(b)) => a == b,
            _ => false,
        }
    }

    /// Inequality of the language.
    pub fn not_eq(self, rhs: Object) -> (r: bool)
        ensures
            r == !vals_eq(obj_view(self), obj_view(rhs)),
    {
        !self.eq(rhs)
    }

    /// Strictly below; false between anything but two integers.
    pub fn lt(self, rhs: Object) -> (r: bool)
        ensures
            r == spec_lt(obj_view(self), obj_view(rhs)),
    {
        match (self, rhs) {
            (Object::Int(a), Object::Int(b)) => a < b,
            _ => false,
        }
    }

    /// Strictly above; false between anything but two integers.
    pub fn gt(self, rhs: Object) -> (r: bool)
        ensures
            r == spec_gt(obj_view(self), obj_view(rhs)),
    {
        match (self, rhs) {
            (Object::Int(a), Object::Int(b)) => a > b,
            _ => false,
        }
    }

    /// At most; false between anything but two integers.
    pub fn lte(self, rhs: Object) -> (r: bool)
        ensures
            r == spec_lte(obj_view(self), obj_view(rhs)),
    {
        match (self, rhs) {
            (Object::Int(a), Object::Int(b)) => a <= b,
            _ => false,
        }
    }

    /// At least; false between anything but two integers.
    pub fn gte(self, rhs: Object) -> (r: bool)
        ensures
            r == spec_gte(obj_view(self), obj_view(rhs)),
    {
        match (self, rhs) {
            (Object::Int(a), Object::Int(b)) => a >= b,
            _ => false,
        }
    }
}


/// The character of a decimal digit.
pub open spec fn dec_digit(d: int) -> char {
    ((48 + d) as u8) as char
}

/// The decimal digits of a nonnegative integer, most significant first.
pub open spec fn nat_to_seq(n: int) -> Seq<char>
    recommends
        n >= 0,
    decreases n,
{
    if n < 10 {
        seq![dec_digit(n)]
    } else {
        nat_to_seq(n / 10).push(dec_digit(n % 10))
    }
}

/// The decimal rendering of a signed 64-bit integer.
pub open spec fn i64_to_seq(n: i64) -> Seq<char> {
    if n < 0 {
        "-"@ + nat_to_seq(-(n as int))
    } else {
        nat_to_seq(n as int)
    }
}

/// How a value displays.
///
/// `nil`, booleans and integers display as words and decimal digits,
/// strings as their raw text, arrays bracketed and comma-separated,
/// hashes braced with `key: value` entries in insertion order, functions
/// with their parameter list and an elided body, and built-ins by name.
pub open spec fn display_of(v: ValM) -> Seq<char>
    decreases v, 0int, 0int,
{
    match v {
        ValM::Nil => "nil"@,
        ValM::Int(i) => i64_to_seq(i),
        ValM::Bool(b) => if b {
            "true"@
        } else {
            "false"@
        },
        ValM::Str(s) => s,
        ValM::Builtin(b) => spec_builtin_name(b),
        ValM::Arr(es) => "["@ + display_items(es, 0) + "]"@,
        ValM::Tbl(ps) => "{"@ + display_entries(ps, 0) + "}"@,
        ValM::Fun { params, .. } => "fn("@ + names_join(params, 0) + ") {...}"@,
        ValM::Ret(b) => display_of(*b),
    }
}

/// Comma-separated display of the values from index `i` on.
pub open spec fn display_items(es: Seq<ValM>, i: int) -> Seq<char>
    decreases es, es.len() - i, 1int,
{
    if i < 0 || i >= es.len() {
        Seq::empty()
    } else if i == es.len() - 1 {
        display_of(es[i])
    } else {
        display_of(es[i]) + ", "@ + display_items(es, i + 1)
    }
}

/// Comma-separated display of the `key: value` entries from index `i` on.
pub open spec fn display_entries(ps: Seq<(ValM, ValM)>, i: int) -> Seq<char>
    decreases ps, ps.len() - i, 1int,
{
    if i < 0 || i >= ps.len() {
        Seq::empty()
    } else if i == ps.len() - 1 {
        display_of(ps[i].0) + ": "@ + display_of(ps[i].1)
    } else {
        display_of(ps[i].0) + ": "@ + display_of(ps[i].1) + ", "@ + display_entries(ps, i + 1)
    }
}

/// Comma-separated join of names from index `i` on.
pub open spec fn names_join(ns: Seq<Seq<char>>, i: int) -> Seq<char>
    decreases ns.len() - i,
{
    if i < 0 || i >= ns.len() {
        Seq::empty()
    } else if i == ns.len() - 1 {
        ns[i]
    } else {
        ns[i] + ", "@ + names_join(ns, i + 1)
    }
}

/// Renders a nonnegative 64-bit integer in decimal.
fn u64_to_string(n: u64) -> (r: String)
    ensures
        r@ == nat_to_seq(n as int),
    decreases n,
{
    if n < 10 {
        let mut r = String::new();
        push_char(&mut r, (48 + (n as u8)) as char);
        proof {
            assert(r@ =~= seq![dec_digit(n as int)]);
        }
        r
    } else {
        let mut r = u64_to_string(n / 10);
        push_char(&mut r, (48 + ((n % 10) as u8)) as char);
        r
    }
}

/// Renders a signed 64-bit integer in decimal.
pub fn int_to_string(n: i64) -> (r: String)
    ensures
        r@ == i64_to_seq(n),
{
    if n >= 0 {
        u64_to_string(n as u64)
    } else {
        let mag: u64 = ((-(n + 1)) as u64) + 1;
        proof {
            assert(mag == -(n as int));
        }
        let mut r = String::from_str("-");
        let digits = u64_to_string(mag);
        r.append(digits.as_str());
        r
    }
}

impl Object {
    /// The display form of this value.
    pub fn display_string(&self) -> (r: String)
        ensures
            r@ == display_of(obj_view(*self)),
        decreases *self, 0int, 0int,
    {
        match self {
            Object::Nil => String::from_str("nil"),
            Object::Int(i) => int_to_string(*i),
            Object::Bool(b) => if *b {
                String::from_str("true")
            } else {
                String::from_str("false")
            },
            Object::String(s) => s.clone(),
            Object::BuiltInFn(b) => String::from_str(b.name()),
            Object::Array(a) => {
                let mut out = String::from_str("[");
                let items = display_items_string(&a.0, 0);
                out.append(items.as_str());
                out.append("]");
                proof {
                    assert(out@ =~= "["@ + display_items(objs_view(a.0@), 0) + "]"@);
                }
                out
            },
            Object::HashTable(t) => {
                let mut out = String::from_str("{");
                let entries = display_entries_string(&t.0, 0);
                out.append(entries.as_str());
                out.append("}");
                proof {
                    assert(out@ =~= "{"@ + display_entries(objpairs_view(t.0@), 0) + "}"@);
                }
                out
            },
            Object::Function(f) => {
                let mut out = String::from_str("fn(");
                let names = names_join_string(&f.parameters, 0);
                out.append(names.as_str());
                out.append(") {...}");
                proof {
                    assert(out@ =~= "fn("@ + names_join(params_view(f.parameters@), 0) + ") {...}"@);
                }
                out
            },
            Object::Return(v) => v.display_string(),
        }
    }
}

/// Renders the values from index `i` on, comma-separated.
fn display_items_string(items: &Vec<Object>, i: usize) -> (r: String)
    ensures
        r@ == display_items(objs_view(items@), i as int),
    decreases items@, items@.len() - i, 2int,
{
    if i >= items.len() {
        String::new()
    } else if i == items.len() - 1 {
        items[i].display_string()
    } else {
        let mut out = items[i].display_string();
        out.append(", ");
        let rest = display_items_string(items, i + 1);
        out.append(rest.as_str());
        proof {
            assert(out@ =~= display_of(objs_view(items@)[i as int]) + ", "@
                + display_items(objs_view(items@), i + 1));
        }
        out
    }
}

/// Renders the entries from index `i` on, comma-separated.
fn display_entries_string(pairs: &Vec<(Object, Object)>, i: usize) -> (r: String)
    ensures
        r@ == display_entries(objpairs_view(pairs@), i as int),
    decreases pairs@, pairs@.len() - i, 2int,
{
    if i >= pairs.len() {
        String::new()
    } else if i == pairs.len() - 1 {
        let mut out = pairs[i].0.display_string();
        out.append(": ");
        let val = pairs[i].1.display_string();
        out.append(val.as_str());
        proof {
            assert(out@ =~= display_of(objpairs_view(pairs@)[i as int].0) + ": "@
                + display_of(objpairs_view(pairs@)[i as int].1));
        }
        out
    } else {
        let mut out = pairs[i].0.display_string();
        out.append(": ");
        let val = pairs[i].1.display_string();
        out.append(val.as_str());
        out.append(", ");
        let rest = display_entries_string(pairs, i + 1);
        out.append(rest.as_str());
        proof {
            assert(out@ =~= display_of(objpairs_view(pairs@)[i as int].0) + ": "@
                + display_of(objpairs_view(pairs@)[i as int].1) + ", "@
                + display_entries(objpairs_view(pairs@), i + 1));
        }
        out
    }
}

/// Renders the parameter names from index `i` on, comma-separated.
fn names_join_string(params: &Vec<Identifier>, i: usize) -> (r: String)
    ensures
        r@ == names_join(params_view(params@), i as int),
    decreases params@.len() - i,
{
    if i >= params.len() {
        String::new()
    } else if i == params.len() - 1 {
        params[i].inner()
    } else {
        let mut out = params[i].inner();
        out.append(", ");
        let rest = names_join_string(params, i + 1);
        out.append(rest.as_str());
        proof {
            assert(out@ =~= params_view(params@)[i as int] + ", "@
                + names_join(params_view(params@), i + 1));
        }
        out
    }
}

/// What a value coerces to as a string: strings stay themselves,
/// integers and booleans display; nothing else coerces.
pub open spec fn spec_into_string(v: ValM) -> Result<Seq<char>, ErrM> {
    match v {
        ValM::Str(s) => Ok(s),
        ValM::Int(i) => Ok(i64_to_seq(i)),
        ValM::Bool(b) => Ok(if b {
            "true"@
        } else {
            "false"@
        }),
        _ => Err(ErrM::CoercionError { target: ValueKind::String, value: kind_of(v) }),
    }
}

impl Object {
    /// Coerces this value to its string form: strings stay themselves,
    /// integers and booleans display; nothing else coerces.
    pub fn into_string(self) -> (r: Result<String, EvalError>)
        ensures
            match r {
                Ok(out) => spec_into_string(obj_view(self)) == Ok::<Seq<char>, ErrM>(out@),
                Err(e) => spec_into_string(obj_view(self)) == Err::<Seq<char>, ErrM>(err_view(e)),
            },
    {
        match self {
            Object::String(s) => Ok(s),
            Object::Int(i) => Ok(int_to_string(i)),
            Object::Bool(b) => Ok(if b {
                String::from_str("true")
            } else {
                String::from_str("false")
            }),
            other => Err(EvalError::CoercionError {
                target: ValueKind::String,
                value: other.kind(),
            }),
        }
    }
}


/// One lexical frame: its bindings, in insertion order, and an optional
/// parent frame, which always comes earlier in the arena.
#[derive(Debug, PartialEq, Eq)]
pub struct Frame {
    pub parent: Option<usize>,
    pub bindings: Vec<(String, Object)>,
}

/// The model of a frame.
#[verifier::ext_equal]
pub struct FrameM {
    pub parent: Option<int>,
    pub bindings: Seq<(Seq<char>, ValM)>,
}

/// The whole runtime state: the frame arena, and the lines written by
/// `puts` so far, in order.
///
/// Frames are shared by index: a function value keeps the index of the
/// frame it closed over, and a call pushes a new frame whose parent is
/// that index.  Frames are never removed, so closures stay valid.
#[derive(Debug)]
pub struct Environment {
    pub frames: Vec<Frame>,
    pub output: Vec<String>,
}

/// The model of the runtime state.
#[verifier::ext_equal]
pub struct StateM {
    pub frames: Seq<FrameM>,
    pub out: Seq<Seq<char>>,
}

/// The model of a binding list.
pub open spec fn binds_view(bs: Seq<(String, Object)>) -> Seq<(Seq<char>, ValM)> {
    Seq::new(
        bs.len(),
        |i: int| if 0 <= i < bs.len() {
            (bs[i].0@, obj_view(bs[i].1))
        } else {
            (Seq::empty(), ValM::Nil)
        },
    )
}

/// The model of a frame.
pub open spec fn frame_view(f: Frame) -> FrameM {
    FrameM {
        parent: match f.parent {
            Some(p) => Some(p as int),
            None => None,
        },
        bindings: binds_view(f.bindings@),
    }
}

/// The model of the frame arena.
pub open spec fn frames_view(fs: Seq<Frame>) -> Seq<FrameM> {
    Seq::new(
        fs.len(),
        |i: int| if 0 <= i < fs.len() {
            frame_view(fs[i])
        } else {
            FrameM { parent: None, bindings: Seq::empty() }
        },
    )
}

/// The model of the output buffer.
pub open spec fn strings_view(ss: Seq<String>) -> Seq<Seq<char>> {
    Seq::new(ss.len(), |i: int| if 0 <= i < ss.len() { ss[i]@ } else { Seq::empty() })
}

impl View for Environment {
    type V = StateM;

    open spec fn view(&self) -> StateM {
        StateM { frames: frames_view(self.frames@), out: strings_view(self.output@) }
    }
}

/// Well-formedness of the bindings of one frame against an arena of `n`
/// frames.
pub open spec fn binds_wf(bs: Seq<(Seq<char>, ValM)>, n: int) -> bool {
    forall|j: int| 0 <= j < bs.len() ==> val_wf((#[trigger] bs[j]).1, n)
}

/// Well-formedness of the runtime state: every parent comes strictly
/// before its frame, and every bound value is well-formed.
pub open spec fn state_wf(st: StateM) -> bool {
    &&& forall|i: int| 0 <= i < st.frames.len() ==> match (#[trigger] st.frames[i]).parent {
        Some(p) => 0 <= p < i,
        None => true,
    }
    &&& forall|i: int| 0 <= i < st.frames.len() ==> binds_wf(
        (#[trigger] st.frames[i]).bindings,
        st.frames.len() as int,
    )
}

/// The value bound to `name` in one frame: the most recent binding wins.
pub open spec fn frame_lookup(bs: Seq<(Seq<char>, ValM)>, name: Seq<char>) -> Option<ValM>
    decreases bs.len(),
{
    if bs.len() == 0 {
        None
    } else if bs.last().0 == name {
        Some(bs.last().1)
    } else {
        frame_lookup(bs.drop_last(), name)
    }
}

/// The value bound to `name` at frame `f`, walking parent-ward.
pub open spec fn env_lookup(frames: Seq<FrameM>, f: int, name: Seq<char>) -> Option<ValM>
    decreases f,
{
    if f < 0 || f >= frames.len() {
        None
    } else {
        match frame_lookup(frames[f].bindings, name) {
            Some(v) => Some(v),
            None => match frames[f].parent {
                Some(p) => if 0 <= p < f {
                    env_lookup(frames, p, name)
                } else {
                    None
                },
                None => None,
            },
        }
    }
}

/// The built-in function a free name resolves to, if any.
pub open spec fn builtin_of(name: Seq<char>) -> Option<ValM> {
    if name == "len"@ {
        Some(ValM::Builtin(BuiltInFn::Len))
    } else if name == "first"@ {
        Some(ValM::Builtin(BuiltInFn::First))
    } else if name == "last"@ {
        Some(ValM::Builtin(BuiltInFn::Last))
    } else if name == "rest"@ {
        Some(ValM::Builtin(BuiltInFn::Rest))
    } else if name == "push"@ {
        Some(ValM::Builtin(BuiltInFn::Push))
    } else if name == "puts"@ {
        Some(ValM::Builtin(BuiltInFn::Puts))
    } else {
        None
    }
}

/// What a name resolves to at frame `f`: the frame chain first, then the
/// built-in table.
pub open spec fn env_get(st: StateM, f: int, name: Seq<char>) -> Option<ValM> {
    match env_lookup(st.frames, f, name) {
        Some(v) => Some(v),
        None => builtin_of(name),
    }
}

/// The state after binding `name` to `v` in frame `f`.
pub open spec fn state_insert(st: StateM, f: int, name: Seq<char>, v: ValM) -> StateM {
    StateM {
        frames: st.frames.update(
            f,
            FrameM { parent: st.frames[f].parent, bindings: st.frames[f].bindings.push((name, v)) },
        ),
        out: st.out,
    }
}

/// A value handed out by lookup is well-formed; by induction along the
/// parent chain.
pub proof fn lemma_env_lookup_wf(st: StateM, f: int, name: Seq<char>)
    requires
        state_wf(st),
    ensures
        match env_lookup(st.frames, f, name) {
            Some(v) => val_wf(v, st.frames.len() as int),
            None => true,
        },
    decreases f,
{
    if 0 <= f < st.frames.len() {
        match frame_lookup(st.frames[f].bindings, name) {
            Some(v) => {
                lemma_frame_lookup_wf(st.frames[f].bindings, name, st.frames.len() as int);
            },
            None => {
                match st.frames[f].parent {
                    Some(p) => {
                        if 0 <= p < f {
                            lemma_env_lookup_wf(st, p, name);
                        }
                    },
                    None => {},
                }
            },
        }
    }
}

/// A value found in a well-formed binding list is well-formed.
pub proof fn lemma_frame_lookup_wf(bs: Seq<(Seq<char>, ValM)>, name: Seq<char>, n: int)
    requires
        binds_wf(bs, n),
    ensures
        match frame_lookup(bs, name) {
            Some(v) => val_wf(v, n),
            None => true,
        },
    decreases bs.len(),
{
    if bs.len() > 0 {
        assert(bs.last() == bs[bs.len() - 1]);
        if bs.last().0 != name {
            assert forall|j: int| 0 <= j < bs.drop_last().len()
                implies val_wf((#[trigger] bs.drop_last()[j]).1, n) by {
                assert(bs.drop_last()[j] == bs[j]);
            }
            lemma_frame_lookup_wf(bs.drop_last(), name, n);
        }
    }
}

impl Environment {
    /// A fresh state: one empty root frame, frame `0`, and no output.
    pub fn new() -> (r: Self)
        ensures
            r@.frames.len() == 1,
            r@.frames[0].parent is None,
            r@.frames[0].bindings.len() == 0,
            r@.out.len() == 0,
            state_wf(r@),
    {
        let mut frames: Vec<Frame> = Vec::new();
        frames.push(Frame { parent: None, bindings: Vec::new() });
        let r = Environment { frames, output: Vec::new() };
        proof {
            assert(r@.frames[0].bindings =~= Seq::<(Seq<char>, ValM)>::empty());
        }
        r
    }

    /// Pushes a new frame enclosed by `outer`, holding `bindings`, and
    /// hands back its index.
    pub fn new_enclosed(&mut self, outer: usize, bindings: Vec<(String, Object)>) -> (idx: usize)
        requires
            outer < old(self)@.frames.len(),
        ensures
            idx == old(self)@.frames.len(),
            final(self)@.frames == old(self)@.frames.push(
                FrameM { parent: Some(outer as int), bindings: binds_view(bindings@) },
            ),
            final(self)@.out == old(self)@.out,
    {
        let idx = self.frames.len();
        self.frames.push(Frame { parent: Some(outer), bindings });
        proof {
            assert(final(self)@.frames =~= old(self)@.frames.push(
                FrameM { parent: Some(outer as int), bindings: binds_view(bindings@) },
            ));
            assert(final(self)@.out =~= old(self)@.out);
        }
        idx
    }

    /// Resolves `name` at `frame`: the frame chain first, then the
    /// built-in table; the value comes out as a copy.
    pub fn get(&self, frame: usize, name: &String) -> (r: Option<Object>)
        requires
            state_wf(self@),
            frame < self@.frames.len(),
        ensures
            match r {
                Some(o) => env_get(self@, frame as int, name@) == Some(obj_view(o))
                    && val_wf(obj_view(o), self@.frames.len() as int),
                None => env_get(self@, frame as int, name@) is None,
            },
    {
        let mut cur = frame;
        loop
            invariant_except_break
                state_wf(self@),
                cur < self@.frames.len(),
                env_lookup(self@.frames, frame as int, name@) == env_lookup(
                    self@.frames,
                    cur as int,
                    name@,
                ),
            ensures
                env_lookup(self@.frames, frame as int, name@) is None,
            decreases cur,
        {
            let fr = &self.frames[cur];
            let local = frame_get_local(fr, name);
            match local {
                Some(o) => {
                    proof {
                        lemma_frame_lookup_wf(
                            frame_view(self.frames@[cur as int]).bindings,
                            name@,
                            self@.frames.len() as int,
                        );
                    }
                    return Some(o);
                },
                None => {
                    match fr.parent {
                        Some(p) => {
                            cur = p;
                        },
                        None => {
                            break;
                        },
                    }
                },
            }
        }
        // Not bound anywhere on the chain: try the built-in table.
        if string_eq_lit(name, "len") {
            Some(Object::BuiltInFn(BuiltInFn::Len))
        } else if string_eq_lit(name, "first") {
            Some(Object::BuiltInFn(BuiltInFn::First))
        } else if string_eq_lit(name, "last") {
            Some(Object::BuiltInFn(BuiltInFn::Last))
        } else if string_eq_lit(name, "rest") {
            Some(Object::BuiltInFn(BuiltInFn::Rest))
        } else if string_eq_lit(name, "push") {
            Some(Object::BuiltInFn(BuiltInFn::Push))
        } else if string_eq_lit(name, "puts") {
            Some(Object::BuiltInFn(BuiltInFn::Puts))
        } else {
            None
        }
    }

    /// Binds `ident` in `frame` unless that very frame already binds it,
    /// which is the redefinition error.
    pub fn try_insert(&mut self, frame: usize, ident: &Identifier, value: Object) -> (r: Result<
        (),
        EvalError,
    >)
        requires
            state_wf(old(self)@),
            frame < old(self)@.frames.len(),
            val_wf(obj_view(value), old(self)@.frames.len() as int),
        ensures
            match r {
                Ok(_) => frame_lookup(old(self)@.frames[frame as int].bindings, ident@) is None
                    && final(self)@ == state_insert(old(self)@, frame as int, ident@, obj_view(value))
                    && state_wf(final(self)@),
                Err(e) => err_view(e) == ErrM::Redefined(ident@)
                    && frame_lookup(old(self)@.frames[frame as int].bindings, ident@) is Some
                    && final(self)@ == old(self)@,
            },
    {
        let has = frame_has_local(&self.frames[frame], ident);
        if has {
            Err(EvalError::Redefined(Identifier::new(ident.inner())))
        } else {
            let name = ident.inner();
            let ghost old_state = self@;
            self.frames[frame].bindings.push((name, value));
            proof {
                let target = state_insert(old_state, frame as int, ident@, obj_view(value));
                assert(binds_view(self.frames@[frame as int].bindings@) =~= target.frames[frame as int].bindings);
                assert(final(self)@.frames =~= target.frames);
                assert(final(self)@.out =~= target.out);
                assert(final(self)@ =~= target);
                // Well-formedness is kept: only one binding was added, and
                // the arena kept its length.
                let st = final(self)@;
                assert forall|i: int| 0 <= i < st.frames.len() implies binds_wf(
                    (#[trigger] st.frames[i]).bindings,
                    st.frames.len() as int,
                ) by {
                    if i == frame as int {
                        let bs = st.frames[i].bindings;
                        assert forall|j: int| 0 <= j < bs.len() implies val_wf(
                            (#[trigger] bs[j]).1,
                            st.frames.len() as int,
                        ) by {
                            if j < bs.len() - 1 {
                                assert(bs[j] == old_state.frames[i].bindings[j]);
                            } else {
                                assert(bs[j].1 == obj_view(value));
                            }
                        }
                    } else {
                        assert(st.frames[i] == old_state.frames[i]);
                    }
                }
            }
            Ok(())
        }
    }

    /// Appends one line to the output.
    pub fn write_line(&mut self, line: String)
        ensures
            final(self)@.frames == old(self)@.frames,
            final(self)@.out == old(self)@.out.push(line@),
    {
        self.output.push(line);
        proof {
            assert(final(self)@.frames =~= old(self)@.frames);
            assert(final(self)@.out =~= old(self)@.out.push(line@));
        }
    }

    /// A copy of the bindings of one frame, for callers that inspect the
    /// state from outside.
    pub fn snapshot(&self, frame: usize) -> (r: Vec<(String, Object)>)
        requires
            frame < self@.frames.len(),
        ensures
            binds_view(r@) == self@.frames[frame as int].bindings,
    {
        let fr = &self.frames[frame];
        let mut r: Vec<(String, Object)> = Vec::new();
        let mut i: usize = 0;
        while i < fr.bindings.len()
            invariant
                i <= fr.bindings.len(),
                fr == &self.frames@[frame as int],
                frame < self@.frames.len(),
                r@.len() == i,
                forall|j: int| 0 <= j < i ==> r@[j].0@ == fr.bindings@[j].0@
                    && obj_view(#[trigger] r@[j].1) == obj_view(fr.bindings@[j].1),
            decreases fr.bindings@.len() - i,
        {
            let name = fr.bindings[i].0.clone();
            let value = obj_clone(&fr.bindings[i].1);
            r.push((name, value));
            i = i + 1;
        }
        proof {
            assert(binds_view(r@) =~= binds_view(fr.bindings@));
        }
        r
    }
}

/// Whether a string equals a literal.
fn string_eq_lit(s: &String, lit: &str) -> (r: bool)
    ensures
        r == (s@ == lit@),
{
    let l = String::from_str(lit);
    *s == l
}

/// The most recent binding of `name` in one frame, as a copy.
fn frame_get_local(f: &Frame, name: &String) -> (r: Option<Object>)
    ensures
        match r {
            Some(o) => frame_lookup(frame_view(*f).bindings, name@) == Some(obj_view(o)),
            None => frame_lookup(frame_view(*f).bindings, name@) is None,
        },
{
    let ghost bs = frame_view(*f).bindings;
    let mut i = f.bindings.len();
    proof {
        assert(bs.take(i as int) =~= bs);
    }
    while i > 0
        invariant
            i <= f.bindings@.len(),
            bs == binds_view(f.bindings@),
            frame_lookup(bs, name@) == frame_lookup(bs.take(i as int), name@),
        decreases i,
    {
        i = i - 1;
        if f.bindings[i].0 == *name {
            proof {
                assert(bs.take(i + 1).last() == bs[i as int]);
            }
            return Some(obj_clone(&f.bindings[i].1));
        }
        proof {
            assert(bs.take(i + 1).last() == bs[i as int]);
            assert(bs.take(i + 1).drop_last() =~= bs.take(i as int));
        }
    }
    proof {
        assert(bs.take(0) =~= Seq::<(Seq<char>, ValM)>::empty());
    }
    None
}

/// Whether one frame already binds `name`.
fn frame_has_local(f: &Frame, ident: &Identifier) -> (r: bool)
    ensures
        r == (frame_lookup(frame_view(*f).bindings, ident@) is Some),
{
    let name = ident.inner();
    let local = frame_get_local(f, &name);
    match local {
        Some(_) => true,
        None => false,
    }
}


/// Whether every character is an ASCII digit.
pub open spec fn all_digits(ds: Seq<char>) -> bool {
    forall|j: int| 0 <= j < ds.len() ==> crate::lexer::is_digit(#[trigger] ds[j])
}

/// The signed 64-bit integer a text stands for: an optional sign, then
/// digits only, within range; anything else is nothing.
pub open spec fn spec_parse_i64(s: Seq<char>) -> Option<i64> {
    let signed = s.len() > 0 && (s[0] == '-' || s[0] == '+');
    let neg = s.len() > 0 && s[0] == '-';
    let ds = if signed {
        s.skip(1)
    } else {
        s
    };
    if ds.len() == 0 || !all_digits(ds) {
        None
    } else {
        let v = crate::lexer::digits_val(ds);
        if neg {
            if v <= 0x8000_0000_0000_0000 {
                Some((-v) as i64)
            } else {
                None
            }
        } else {
            if v <= 0x7fff_ffff_ffff_ffff {
                Some(v as i64)
            } else {
                None
            }
        }
    }
}

/// What a value coerces to as an integer: integers stay themselves,
/// booleans count as one and zero, and strings parse; nothing else
/// coerces.
pub open spec fn spec_into_int(v: ValM) -> Result<i64, ErrM> {
    match v {
        ValM::Int(i) => Ok(i),
        ValM::Bool(b) => Ok(
            if b {
                1
            } else {
                0
            },
        ),
        ValM::Str(s) => match spec_parse_i64(s) {
            Some(i) => Ok(i),
            None => Err(ErrM::CoercionError { target: ValueKind::Int, value: ValueKind::String }),
        },
        _ => Err(ErrM::CoercionError { target: ValueKind::Int, value: kind_of(v) }),
    }
}

/// Parses a decimal integer with an optional sign.
fn parse_i64(s: &str) -> (r: Option<i64>)
    ensures
        r == spec_parse_i64(s@),
{
    let n = s.unicode_len();
    let mut cs: Vec<char> = Vec::new();
    let mut i: usize = 0;
    while i < n
        invariant
            i <= n,
            n == s@.len(),
            cs@ =~= s@.subrange(0, i as int),
        decreases n - i,
    {
        let c = s.get_char(i);
        cs.push(c);
        proof {
            assert(cs@ =~= s@.subrange(0, i + 1));
        }
        i = i + 1;
    }
    proof {
        assert(cs@ =~= s@);
    }

    // The sign, if any.
    let signed = cs.len() > 0 && (cs[0] == '-' || cs[0] == '+');
    let neg = cs.len() > 0 && cs[0] == '-';
    let start: usize = if signed {
        1
    } else {
        0
    };
    let ghost ds = if signed {
        s@.skip(1)
    } else {
        s@
    };
    proof {
        assert(ds =~= cs@.subrange(start as int, cs@.len() as int));
    }
    let end = cs.len();
    if end == start {
        return None;
    }
    // Digits only.
    let mut j: usize = start;
    while j < end
        invariant
            start <= j <= end,
            end == cs@.len(),
            cs@ == s@,
            signed == (s@.len() > 0 && (s@[0] == '-' || s@[0] == '+')),
            ds == (if signed { s@.skip(1) } else { s@ }),
            ds == cs@.subrange(start as int, end as int),
            start == (if signed { 1int } else { 0int }),
            forall|x: int| 0 <= x < j - start ==> crate::lexer::is_digit(#[trigger] ds[x]),
        decreases end - j,
    {
        let u = cs[j] as u32;
        if !(48 <= u && u <= 57) {
            proof {
                assert(ds[j - start] == cs@[j as int]);
                assert(!crate::lexer::is_digit(ds[j - start]));
            }
            return None;
        }
        proof {
            assert(ds[j - start] == cs@[j as int]);
        }
        j = j + 1;
    }
    proof {
        assert(all_digits(ds));
    }

    // Skip leading zeros; they do not change the value.
    let mut k: usize = start;
    while k < end && cs[k] as u32 == 48
        invariant
            start <= k <= end,
            end == cs@.len(),
            forall|x: int| start <= x < k ==> cs@[x] as u32 == 48,
        decreases end - k,
    {
        k = k + 1;
    }
    proof {
        assert forall|x: int| 0 <= x < k - start implies ds[x] as u32 == 48 by {
            assert(ds[x] == cs@[start + x]);
        }
        crate::lexer::lemma_digits_leading_zeros(ds, k - start);
        assert(ds.skip(k - start) =~= cs@.subrange(k as int, end as int));
    }
    let ghost sig = cs@.subrange(k as int, end as int);

    if end - k > 19 {
        // Twenty or more significant digits: out of range either way.
        proof {
            assert(forall|x: int| 0 <= x < sig.len() ==> crate::lexer::is_digit(#[trigger] sig[x]));
            assert(sig[0] == cs@[k as int]);
            assert(sig[0] as u32 != 48);
            crate::lexer::lemma_digits_val_lower(sig);
            crate::lexer::lemma_pow10_monotone(19, (sig.len() - 1) as nat);
            assert(crate::lexer::pow10(19) == 10000000000000000000) by {
                reveal_with_fuel(crate::lexer::pow10, 20);
            }
        }
        return None;
    }
    // At most nineteen significant digits fit an unsigned accumulator.
    let mut acc: u64 = 0;
    let mut m: usize = k;
    proof {
        assert(forall|x: int| 0 <= x < sig.len() ==> crate::lexer::is_digit(#[trigger] sig[x]));
    }
    while m < end
        invariant
            k <= m <= end,
            end == cs@.len(),
            end - k <= 19,
            sig == cs@.subrange(k as int, end as int),
            forall|x: int| 0 <= x < sig.len() ==> crate::lexer::is_digit(#[trigger] sig[x]),
            acc == crate::lexer::digits_val(cs@.subrange(k as int, m as int)),
            acc < crate::lexer::pow10((m - k) as nat),
        decreases end - m,
    {
        proof {
            assert(sig[m - k] == cs@[m as int]);
            assert(crate::lexer::is_digit(cs@[m as int]));
            crate::lexer::lemma_pow10_monotone((m - k) as nat, 18);
            assert(crate::lexer::pow10(18) == 1000000000000000000) by {
                reveal_with_fuel(crate::lexer::pow10, 19);
            }
            assert(cs@.subrange(k as int, m + 1).drop_last() =~= cs@.subrange(k as int, m as int));
            assert(cs@.subrange(k as int, m + 1).last() == cs@[m as int]);
        }
        let d = cs[m] as u32 - 48;
        acc = acc * 10 + (d as u64);
        m = m + 1;
    }
    proof {
        assert(cs@.subrange(k as int, end as int) =~= sig);
        assert(acc == crate::lexer::digits_val(ds));
    }
    if neg {
        if acc > 0x8000_0000_0000_0000u64 {
            None
        } else if acc == 0x8000_0000_0000_0000u64 {
            Some(i64::MIN)
        } else {
            Some(-(acc as i64))
        }
    } else {
        if acc > 0x7fff_ffff_ffff_ffffu64 {
            None
        } else {
            Some(acc as i64)
        }
    }
}

impl Object {
    /// Coerces this value to an integer: integers stay themselves,
    /// booleans count as one and zero, and strings parse as optionally
    /// signed decimal numerals; nothing else coerces.
    pub fn into_int(self) -> (r: Result<i64, EvalError>)
        ensures
            match r {
                Ok(i) => spec_into_int(obj_view(self)) == Ok::<i64, ErrM>(i),
                Err(e) => spec_into_int(obj_view(self)) == Err::<i64, ErrM>(err_view(e)),
            },
    {
        match self {
            Object::Int(i) => Ok(i),
            Object::Bool(b) => Ok(
                if b {
                    1
                } else {
                    0
                },
            ),
            Object::String(s) => match parse_i64(s.as_str()) {
                Some(i) => Ok(i),
                None => Err(EvalError::CoercionError {
                    target: ValueKind::Int,
                    value: ValueKind::String,
                }),
            },
            other => Err(EvalError::CoercionError { target: ValueKind::Int, value: other.kind() }),
        }
    }
}

} // verus!
