use vstd::prelude::*;

use crate::ast::{BinaryOp, Expr, ExprView, Stmt, StmtView, UnaryOp};
use crate::bytes::clone_bytes;
use crate::value::{clone_values, Value, ValueView};
use crate::ast::lemma_models;

use std::sync::Arc;

verus! {

/// An error raised while evaluating. It is terminal for the statement or
/// program being evaluated; the environment seen by the caller is never
/// left half-updated, every extension being a fresh value.
#[derive(Debug, Clone, PartialEq, Eq)]
pub enum EvalError {
    /// The named variable is not bound in the environment.
    UndefinedVariable(Vec<u8>),
    /// An operand's kind does not fit the operator.
    BadOperandType,
    /// The callee of an application is not a function value.
    UncallableObject,
    /// An application's argument count differs from the parameter count.
    WrongNumberOfArguments,
    /// The nesting of function calls went past the evaluator's fuel.
    RecursionLimit,
}

/// The mathematical shape of an evaluation error.
#[verifier::ext_equal]
pub enum EvalErrorView {
    UndefinedVariable(Seq<u8>),
    BadOperandType,
    UncallableObject,
    WrongNumberOfArguments,
    RecursionLimit,
}

impl View for EvalError {
    type V = EvalErrorView;

    open spec fn view(&self) -> EvalErrorView {
        match self {
            EvalError::UndefinedVariable(n) => EvalErrorView::UndefinedVariable(n@),
            EvalError::BadOperandType => EvalErrorView::BadOperandType,
            EvalError::UncallableObject => EvalErrorView::UncallableObject,
            EvalError::WrongNumberOfArguments => EvalErrorView::WrongNumberOfArguments,
            EvalError::RecursionLimit => EvalErrorView::RecursionLimit,
        }
    }
}

/// A request to the number oracle: one operation on IEEE-754 doubles,
/// handed over and answered as bit patterns. The verified core cannot
/// hold machine floats, so the evaluator is handed the operations as a
/// function and states everything relative to that function's behaviour.
/// `Neg` and `Trunc` use only their first operand; `Trunc` asks for the
/// double truncated toward zero and clamped to an unsigned machine range,
/// as a cast to a repetition count does.
#[derive(Debug, Clone, Copy, PartialEq, Eq, Structural)]
pub enum NumOp {
    Add,
    Sub,
    Mul,
    Div,
    Neg,
    Trunc,
}

/// The function on bit patterns that a number oracle denotes: for each
/// request the one answer the oracle may give.
pub open spec fn arith_model<F: Fn(NumOp, u64, u64) -> u64>(f: F) -> spec_fn(NumOp, u64, u64) -> u64 {
    |op: NumOp, a: u64, b: u64| choose|r: u64| call_ensures(f, (op, a, b), r)
}

/// What the evaluator asks of a number oracle: it answers every request,
/// and its answers are a function of the request alone.
pub open spec fn arith_ok<F: Fn(NumOp, u64, u64) -> u64>(f: F) -> bool {
    &&& forall|op: NumOp, a: u64, b: u64| #[trigger] call_requires(f, (op, a, b))
    &&& forall|op: NumOp, a: u64, b: u64, r: u64|
        call_ensures(f, (op, a, b), r) ==> r == arith_model(f)(op, a, b)
}

/// Asks the number oracle for one operation.
fn apply_arith<F: Fn(NumOp, u64, u64) -> u64>(arith: &F, op: NumOp, a: u64, b: u64) -> (r: u64)
    requires
        arith_ok(*arith),
    ensures
        r == arith_model(*arith)(op, a, b),
{
    arith(op, a, b)
}

/// The persistent map behind an environment.
///
/// Relies on `im::HashMap`, a hash array mapped trie: updates build a new
/// map that shares structure with the old one, which stays as it was.
#[verifier::external_type_specification]
#[verifier::external_body]
#[verifier::reject_recursive_types(K)]
#[verifier::reject_recursive_types(V)]
#[verifier::reject_recursive_types(S)]
pub struct ExImHashMap<K, V, S>(im::HashMap<K, V, S>);

/// The persistent map type an environment uses: names to slot indices.
pub type NameMap = im::HashMap<Vec<u8>, u64>;

/// The entries a persistent map holds, each name bound to a slot index.
pub uninterp spec fn im_map_entries(m: NameMap) -> Map<Seq<u8>, u64>;

/// The entries of a map that holds nothing.
pub open spec fn no_entries() -> Map<Seq<u8>, u64> {
    Map::empty()
}

/// Relies on `im::HashMap::new`: a fresh map holds no entries.
#[verifier::external_body]
fn im_map_new() -> (m: NameMap)
    ensures
        im_map_entries(m) == no_entries(),
{
    im::HashMap::new()
}

/// Relies on `im::HashMap::update`: the result holds the receiver's
/// entries plus the given binding, which wins over an old one for the
/// same key; the receiver itself is shared, not changed. Keys are
/// compared as byte strings.
#[verifier::external_body]
fn im_map_update(m: &NameMap, k: Vec<u8>, v: u64) -> (r: NameMap)
    ensures
        im_map_entries(r) == im_map_entries(*m).insert(k@, v),
{
    m.update(k, v)
}

/// Relies on `im::HashMap::get`: the value bound to the key, if the map
/// holds the key.
#[verifier::external_body]
fn im_map_get(m: &NameMap, k: &Vec<u8>) -> (r: Option<u64>)
    ensures
        r == if im_map_entries(*m).contains_key(k@) {
            Some(im_map_entries(*m)[k@])
        } else {
            None::<u64>
        },
{
    m.get(k).copied()
}

/// An immutable mapping from names to values. Extending it yields a new
/// environment and never changes the one extended, so many environments
/// built from a common base can be used side by side; the persistent map
/// shares unaffected structure between them. Values sit in slots and the
/// map binds each name to a slot index.
#[derive(Debug)]
pub struct Environment {
    slots: Vec<Value>,
    names: NameMap,
}

impl Environment {
    /// Every bound name points at a slot that exists.
    pub closed spec fn wf(&self) -> bool {
        forall|n: Seq<u8>| #[trigger]
            im_map_entries(self.names).contains_key(n) ==> (im_map_entries(self.names)[n] as int)
                < self.slots@.len()
    }

    /// The mapping an environment denotes.
    pub closed spec fn as_map(&self) -> Map<Seq<u8>, ValueView> {
        Map::new(
            |n: Seq<u8>| im_map_entries(self.names).contains_key(n),
            |n: Seq<u8>| self.slots@[im_map_entries(self.names)[n] as int]@,
        )
    }

    /// The empty environment: no name is bound.
    pub fn new() -> (e: Environment)
        ensures
            e@ == Map::<Seq<u8>, ValueView>::empty(),
            e.wf(),
    {
        let e = Environment { slots: Vec::new(), names: im_map_new() };
        proof {
            assert(e.as_map() =~= Map::<Seq<u8>, ValueView>::empty());
        }
        e
    }

    /// A new environment that binds `name` to `value` and every other
    /// name to what `self` binds it to. `self` is borrowed immutably and
    /// stays as it was: a binding for an already-bound name shadows the
    /// old binding in the result without touching the original.
    pub fn with_variable(&self, name: Vec<u8>, value: Value) -> (r: Environment)
        requires
            self.wf(),
        ensures
            r.wf(),
            r@ == self@.insert(name@, value@),
    {
        let mut slots = clone_values(&self.slots);
        let idx = slots.len() as u64;
        slots.push(value);
        let names = im_map_update(&self.names, name, idx);
        let r = Environment { slots, names };
        proof {
            assert(r.as_map() =~= self.as_map().insert(name@, value@));
        }
        r
    }

    /// The value bound to `name`, or nothing when `name` is unbound.
    pub fn lookup(&self, name: &Vec<u8>) -> (r: Option<Value>)
        requires
            self.wf(),
        ensures
            match r {
                Some(v) => self@.contains_key(name@) && v@ == self@[name@],
                None => !self@.contains_key(name@),
            },
    {
        match im_map_get(&self.names, name) {
            Some(idx) => {
                let n = self.slots.len();
                proof {
                    assert((idx as int) < n as int);
                }
                Some(self.slots[idx as usize].clone())
            },
            None => None,
        }
    }
}

impl View for Environment {
    type V = Map<Seq<u8>, ValueView>;

    closed spec fn view(&self) -> Map<Seq<u8>, ValueView> {
        self.as_map()
    }
}

/// Looking a name up after an extension: the new binding answers for its
/// own name, every other name resolves exactly as in the base map, and
/// the base map itself stands unchanged beside the extension — an
/// `Environment` built by `with_variable` denotes `base.insert(n, v)`
/// while the environment it was built from still denotes `base`.
pub proof fn lemma_extension_lookup(
    base: Map<Seq<u8>, ValueView>,
    n: Seq<u8>,
    v: ValueView,
    m: Seq<u8>,
)
    ensures
        base.insert(n, v).contains_key(n),
        base.insert(n, v)[n] == v,
        m != n ==> (base.insert(n, v).contains_key(m) <==> base.contains_key(m)),
        m != n && base.contains_key(m) ==> base.insert(n, v)[m] == base[m],
{
}

/// The text `s` repeated `count` times.
pub open spec fn spec_repeat(s: Seq<u8>, count: u64) -> Seq<u8>
    decreases count,
{
    if count == 0 {
        Seq::empty()
    } else {
        s + spec_repeat(s, (count - 1) as u64)
    }
}

/// Repeating once more appends one more copy at the end.
proof fn lemma_repeat_snoc(s: Seq<u8>, count: u64)
    requires
        count < u64::MAX,
    ensures
        spec_repeat(s, (count + 1) as u64) == spec_repeat(s, count) + s,
    decreases count,
{
    if count == 0 {
        assert(spec_repeat(s, 1) =~= spec_repeat(s, 0) + s);
    } else {
        lemma_repeat_snoc(s, (count - 1) as u64);
        assert(spec_repeat(s, (count + 1) as u64) =~= spec_repeat(s, count) + s);
    }
}

/// What a binary operator yields on two evaluated operands: numbers flow
/// through the number oracle `am`; addition joins two strings; a string
/// times a number repeats the string, the count being the number
/// truncated through the oracle; every other pairing is an error.
pub open spec fn spec_binop(
    op: BinaryOp,
    l: ValueView,
    r: ValueView,
    am: spec_fn(NumOp, u64, u64) -> u64,
) -> Result<ValueView, EvalErrorView> {
    match op {
        BinaryOp::Add => match (l, r) {
            (ValueView::Number(a), ValueView::Number(b)) => Ok(
                ValueView::Number(am(NumOp::Add, a, b)),
            ),
            (ValueView::String(a), ValueView::String(b)) => Ok(ValueView::String(a + b)),
            _ => Err(EvalErrorView::BadOperandType),
        },
        BinaryOp::Sub => match (l, r) {
            (ValueView::Number(a), ValueView::Number(b)) => Ok(
                ValueView::Number(am(NumOp::Sub, a, b)),
            ),
            _ => Err(EvalErrorView::BadOperandType),
        },
        BinaryOp::Mul => match (l, r) {
            (ValueView::Number(a), ValueView::Number(b)) => Ok(
                ValueView::Number(am(NumOp::Mul, a, b)),
            ),
            (ValueView::String(a), ValueView::Number(b)) => Ok(
                ValueView::String(spec_repeat(a, am(NumOp::Trunc, b, 0))),
            ),
            _ => Err(EvalErrorView::BadOperandType),
        },
        BinaryOp::Div => match (l, r) {
            (ValueView::Number(a), ValueView::Number(b)) => Ok(
                ValueView::Number(am(NumOp::Div, a, b)),
            ),
            _ => Err(EvalErrorView::BadOperandType),
        },
    }
}

/// The environment for a function body: the caller's environment with
/// each parameter bound to its argument, in order, later parameters
/// shadowing earlier ones of the same name.
pub open spec fn spec_bind_params(
    env: Map<Seq<u8>, ValueView>,
    params: Seq<Seq<u8>>,
    vals: Seq<ValueView>,
) -> Map<Seq<u8>, ValueView>
    decreases params.len(),
{
    if params.len() == 0 {
        env
    } else {
        spec_bind_params(
            env.insert(params[0], vals[0]),
            params.subrange(1, params.len() as int),
            vals.subrange(1, vals.len() as int),
        )
    }
}

/// What evaluating an expression yields: a value, or the first error met.
/// Evaluation is a function of the environment, the expression, the
/// number oracle, and the fuel that bounds how deep function calls nest.
pub open spec fn spec_eval_expr(
    fuel: nat,
    env: Map<Seq<u8>, ValueView>,
    e: ExprView,
    am: spec_fn(NumOp, u64, u64) -> u64,
) -> Result<ValueView, EvalErrorView>
    decreases fuel, e,
{
    match e {
        ExprView::Number(n) => Ok(ValueView::Number(n)),
        ExprView::String(s) => Ok(ValueView::String(s)),
        ExprView::UnaryOp(op, e1) => match spec_eval_expr(fuel, env, *e1, am) {
            Ok(v) => match op {
                UnaryOp::Neg => match v {
                    ValueView::Number(n) => Ok(ValueView::Number(am(NumOp::Neg, n, 0))),
                    _ => Err(EvalErrorView::BadOperandType),
                },
            },
            Err(er) => Err(er),
        },
        ExprView::BinaryOp(op, l, r) => match spec_eval_expr(fuel, env, *l, am) {
            Ok(lv) => match spec_eval_expr(fuel, env, *r, am) {
                Ok(rv) => spec_binop(op, lv, rv, am),
                Err(er) => Err(er),
            },
            Err(er) => Err(er),
        },
        ExprView::Variable(n) => if env.contains_key(n) {
            Ok(env[n])
        } else {
            Err(EvalErrorView::UndefinedVariable(n))
        },
        ExprView::Let(n, e1, e2) => match spec_eval_expr(fuel, env, *e1, am) {
            Ok(v) => spec_eval_expr(fuel, env.insert(n, v), *e2, am),
            Err(er) => Err(er),
        },
        ExprView::Apply(f, args) => match spec_eval_expr(fuel, env, *f, am) {
            Ok(fv) => match fv {
                ValueView::Function(name, params, body) => if args.len() != params.len() {
                    Err(EvalErrorView::WrongNumberOfArguments)
                } else {
                    match spec_eval_args(fuel, env, args, am) {
                        Ok(vals) => if fuel == 0 {
                            Err(EvalErrorView::RecursionLimit)
                        } else {
                            spec_eval_expr(
                                (fuel - 1) as nat,
                                spec_bind_params(env, params, vals),
                                body,
                                am,
                            )
                        },
                        Err(er) => Err(er),
                    }
                },
                _ => Err(EvalErrorView::UncallableObject),
            },
            Err(er) => Err(er),
        },
    }
}

/// What evaluating an argument list yields: every argument's value, each
/// evaluated against the caller's own environment, or the first error.
pub open spec fn spec_eval_args(
    fuel: nat,
    env: Map<Seq<u8>, ValueView>,
    args: Seq<ExprView>,
    am: spec_fn(NumOp, u64, u64) -> u64,
) -> Result<Seq<ValueView>, EvalErrorView>
    decreases fuel, args,
{
    if args.len() == 0 {
        Ok(Seq::empty())
    } else {
        match spec_eval_expr(fuel, env, args[0], am) {
            Ok(v) => match spec_eval_args(fuel, env, args.subrange(1, args.len() as int), am) {
                Ok(rest) => Ok(seq![v] + rest),
                Err(er) => Err(er),
            },
            Err(er) => Err(er),
        }
    }
}

/// An argument list that evaluates without error yields exactly one
/// value per argument.
pub proof fn lemma_eval_args_len(
    fuel: nat,
    env: Map<Seq<u8>, ValueView>,
    args: Seq<ExprView>,
    am: spec_fn(NumOp, u64, u64) -> u64,
)
    ensures
        spec_eval_args(fuel, env, args, am) matches Ok(vs) ==> vs.len() == args.len(),
    decreases args.len(),
{
    if args.len() > 0 {
        lemma_eval_args_len(fuel, env, args.subrange(1, args.len() as int), am);
    }
}

/// What evaluating a statement yields: a value and the environment the
/// next statement sees. A bare expression leaves the environment as it
/// was; `def` binds a function value built without evaluating its body;
/// a top-level `let` binds the evaluated value; both yield unit.
pub open spec fn spec_eval_stmt(
    fuel: nat,
    env: Map<Seq<u8>, ValueView>,
    s: StmtView,
    am: spec_fn(NumOp, u64, u64) -> u64,
) -> Result<(ValueView, Map<Seq<u8>, ValueView>), EvalErrorView> {
    match s {
        StmtView::Expr(e) => match spec_eval_expr(fuel, env, e, am) {
            Ok(v) => Ok((v, env)),
            Err(er) => Err(er),
        },
        StmtView::Def(name, params, body) => Ok(
            (ValueView::Unit, env.insert(name, ValueView::Function(name, params, body))),
        ),
        StmtView::Let(name, e) => match spec_eval_expr(fuel, env, e, am) {
            Ok(v) => Ok((ValueView::Unit, env.insert(name, v))),
            Err(er) => Err(er),
        },
    }
}

/// Folds statements left to right: each statement's environment feeds
/// the next, and `last` carries the value of the newest statement so far.
pub open spec fn spec_run(
    fuel: nat,
    env: Map<Seq<u8>, ValueView>,
    prog: Seq<StmtView>,
    last: ValueView,
    am: spec_fn(NumOp, u64, u64) -> u64,
) -> Result<(ValueView, Map<Seq<u8>, ValueView>), EvalErrorView>
    decreases prog.len(),
{
    if prog.len() == 0 {
        Ok((last, env))
    } else {
        match spec_eval_stmt(fuel, env, prog[0], am) {
            Ok(ve) => spec_run(fuel, ve.1, prog.subrange(1, prog.len() as int), ve.0, am),
            Err(er) => Err(er),
        }
    }
}

/// What evaluating a whole program yields: the last statement's value and
/// the final environment; an empty program yields unit and the starting
/// environment unchanged.
pub open spec fn spec_eval_program(
    fuel: nat,
    env: Map<Seq<u8>, ValueView>,
    prog: Seq<StmtView>,
    am: spec_fn(NumOp, u64, u64) -> u64,
) -> Result<(ValueView, Map<Seq<u8>, ValueView>), EvalErrorView> {
    spec_run(fuel, env, prog, ValueView::Unit, am)
}

/// The views of a list of values, in order.
pub open spec fn value_views(s: Seq<Value>) -> Seq<ValueView> {
    Seq::new(s.len(), |i: int| s[i]@)
}

/// The views of a list of statements, in order.
pub open spec fn stmt_views(s: Seq<Stmt>) -> Seq<StmtView> {
    Seq::new(s.len(), |i: int| s[i]@)
}

/// How an executable result must relate to a mathematical one: the same
/// value or the same error, compared by view.
pub open spec fn res_matches(
    r: Result<Value, EvalError>,
    s: Result<ValueView, EvalErrorView>,
) -> bool {
    match s {
        Ok(vv) => r matches Ok(v) && v@ == vv,
        Err(ev) => r matches Err(e) && e@ == ev,
    }
}

/// Relies on `im::HashMap::clone`: the copy holds the same entries,
/// sharing the map's structure rather than copying it.
#[verifier::external_body]
fn im_map_dup(m: &NameMap) -> (r: NameMap)
    ensures
        im_map_entries(r) == im_map_entries(*m),
{
    m.clone()
}

impl Clone for Environment {
    /// A copy of an environment binds exactly the same names to values
    /// with the same views.
    fn clone(&self) -> (r: Self)
        ensures
            self.wf() ==> r.wf() && r@ == self@,
    {
        let r = Environment { slots: clone_values(&self.slots), names: im_map_dup(&self.names) };
        proof {
            if self.wf() {
                assert(r.as_map() =~= self.as_map());
            }
        }
        r
    }
}

/// Appends the bytes of `src` at the end of `dst`.
fn append_bytes(dst: &mut Vec<u8>, src: &Vec<u8>)
    ensures
        final(dst)@ == old(dst)@ + src@,
{
    let mut i: usize = 0;
    while i < src.len()
        invariant
            i <= src.len(),
            dst@ == old(dst)@ + src@.take(i as int),
        decreases src.len() - i,
    {
        dst.push(src[i]);
        proof {
            assert(old(dst)@ + src@.take(i as int + 1) =~= (old(dst)@ + src@.take(i as int)).push(
                src@[i as int],
            ));
        }
        i = i + 1;
    }
    proof {
        assert(old(dst)@ + src@.take(src@.len() as int) =~= old(dst)@ + src@);
    }
}

/// The text of `s` repeated `count` times, in a fresh buffer.
fn repeat_bytes(s: &Vec<u8>, count: u64) -> (r: Vec<u8>)
    ensures
        r@ == spec_repeat(s@, count),
{
    let mut r: Vec<u8> = Vec::new();
    proof {
        assert(r@ =~= spec_repeat(s@, 0));
    }
    let mut i: u64 = 0;
    while i < count
        invariant
            i <= count,
            r@ == spec_repeat(s@, i),
        decreases count - i,
    {
        append_bytes(&mut r, s);
        proof {
            lemma_repeat_snoc(s@, i);
        }
        i = i + 1;
    }
    r
}

/// Addition: two numbers through the oracle, or two strings joined.
fn op_add<F: Fn(NumOp, u64, u64) -> u64>(l: Value, r: Value, arith: &F) -> (res: Result<
    Value,
    EvalError,
>)
    requires
        arith_ok(*arith),
    ensures
        res_matches(res, spec_binop(BinaryOp::Add, l@, r@, arith_model(*arith))),
{
    match (l, r) {
        (Value::Number(a), Value::Number(b)) => Ok(
            Value::Number(apply_arith(arith, NumOp::Add, a, b)),
        ),
        (Value::String(a), Value::String(b)) => {
            let mut buf = clone_bytes(&*a);
            append_bytes(&mut buf, &*b);
            Ok(Value::String(Arc::new(buf)))
        },
        _ => Err(EvalError::BadOperandType),
    }
}

/// Subtraction: two numbers through the oracle.
fn op_sub<F: Fn(NumOp, u64, u64) -> u64>(l: Value, r: Value, arith: &F) -> (res: Result<
    Value,
    EvalError,
>)
    requires
        arith_ok(*arith),
    ensures
        res_matches(res, spec_binop(BinaryOp::Sub, l@, r@, arith_model(*arith))),
{
    match (l, r) {
        (Value::Number(a), Value::Number(b)) => Ok(
            Value::Number(apply_arith(arith, NumOp::Sub, a, b)),
        ),
        _ => Err(EvalError::BadOperandType),
    }
}

/// Multiplication: two numbers through the oracle, or a string repeated
/// a number of times, the count being the number truncated by the oracle.
fn op_mul<F: Fn(NumOp, u64, u64) -> u64>(l: Value, r: Value, arith: &F) -> (res: Result<
    Value,
    EvalError,
>)
    requires
        arith_ok(*arith),
    ensures
        res_matches(res, spec_binop(BinaryOp::Mul, l@, r@, arith_model(*arith))),
{
    match (l, r) {
        (Value::Number(a), Value::Number(b)) => Ok(
            Value::Number(apply_arith(arith, NumOp::Mul, a, b)),
        ),
        (Value::String(a), Value::Number(b)) => {
            let count = apply_arith(arith, NumOp::Trunc, b, 0);
            Ok(Value::String(Arc::new(repeat_bytes(&*a, count))))
        },
        _ => Err(EvalError::BadOperandType),
    }
}

/// Division: two numbers through the oracle; the oracle answers with the
/// machine's own quotient, a zero divisor giving an infinity or NaN bit
/// pattern rather than an error.
fn op_div<F: Fn(NumOp, u64, u64) -> u64>(l: Value, r: Value, arith: &F) -> (res: Result<
    Value,
    EvalError,
>)
    requires
        arith_ok(*arith),
    ensures
        res_matches(res, spec_binop(BinaryOp::Div, l@, r@, arith_model(*arith))),
{
    match (l, r) {
        (Value::Number(a), Value::Number(b)) => Ok(
            Value::Number(apply_arith(arith, NumOp::Div, a, b)),
        ),
        _ => Err(EvalError::BadOperandType),
    }
}

/// The caller's environment with each parameter bound to its argument.
fn bind_params(env: &Environment, params: &Vec<Vec<u8>>, vals: &Vec<Value>) -> (r: Environment)
    requires
        env.wf(),
        params@.len() == vals@.len(),
    ensures
        r.wf(),
        r@ == spec_bind_params(env@, params.deep_view(), value_views(vals@)),
{
    let mut cur = env.clone();
    let mut i: usize = 0;
    proof {
        assert(params.deep_view().skip(0) =~= params.deep_view());
        assert(value_views(vals@).skip(0) =~= value_views(vals@));
    }
    while i < params.len()
        invariant
            i <= params@.len(),
            params@.len() == vals@.len(),
            cur.wf(),
            spec_bind_params(env@, params.deep_view(), value_views(vals@)) == spec_bind_params(
                cur@,
                params.deep_view().skip(i as int),
                value_views(vals@).skip(i as int),
            ),
        decreases params@.len() - i,
    {
        let p = clone_bytes(&params[i]);
        let v = vals[i].clone();
        let next = cur.with_variable(p, v);
        proof {
            let ps = params.deep_view();
            let vs = value_views(vals@);
            assert(params@[i as int].deep_view() =~= params@[i as int]@);
            assert(ps.skip(i as int)[0] == ps[i as int]);
            assert(vs.skip(i as int)[0] == vs[i as int]);
            assert(ps.skip(i as int).subrange(1, ps.skip(i as int).len() as int) =~= ps.skip(
                i as int + 1,
            ));
            assert(vs.skip(i as int).subrange(1, vs.skip(i as int).len() as int) =~= vs.skip(
                i as int + 1,
            ));
        }
        cur = next;
        i = i + 1;
    }
    proof {
        assert(params.deep_view().skip(params@.len() as int) =~= Seq::<Seq<u8>>::empty());
    }
    cur
}

/// Evaluates an expression against an environment, asking the number
/// oracle `arith` for every operation on numbers. `fuel` bounds how deep
/// function calls may nest; everything else is bounded by the tree.
pub fn eval_expr<F: Fn(NumOp, u64, u64) -> u64>(
    env: &Environment,
    expr: &Expr,
    arith: &F,
    fuel: u64,
) -> (r: Result<Value, EvalError>)
    requires
        env.wf(),
        arith_ok(*arith),
    ensures
        res_matches(r, spec_eval_expr(fuel as nat, env@, expr@, arith_model(*arith))),
    decreases fuel, *expr,
{
    match expr {
        Expr::Number(n) => Ok(Value::Number(*n)),
        Expr::String(s) => Ok(Value::String(Arc::new(clone_bytes(s)))),
        Expr::UnaryOp(op, e1) => match eval_expr(env, &**e1, arith, fuel) {
            Ok(v) => match op {
                UnaryOp::Neg => match v {
                    Value::Number(n) => Ok(Value::Number(apply_arith(arith, NumOp::Neg, n, 0))),
                    _ => Err(EvalError::BadOperandType),
                },
            },
            Err(e) => Err(e),
        },
        Expr::BinaryOp(op, l, r2) => match eval_expr(env, &**l, arith, fuel) {
            Ok(lv) => match eval_expr(env, &**r2, arith, fuel) {
                Ok(rv) => match op {
                    BinaryOp::Add => op_add(lv, rv, arith),
                    BinaryOp::Sub => op_sub(lv, rv, arith),
                    BinaryOp::Mul => op_mul(lv, rv, arith),
                    BinaryOp::Div => op_div(lv, rv, arith),
                },
                Err(e) => Err(e),
            },
            Err(e) => Err(e),
        },
        Expr::Variable(name) => match env.lookup(name) {
            Some(v) => Ok(v),
            None => Err(EvalError::UndefinedVariable(clone_bytes(name))),
        },
        Expr::Let(name, e1, e2) => match eval_expr(env, &**e1, arith, fuel) {
            Ok(v) => {
                let new_env = env.with_variable(clone_bytes(name), v);
                eval_expr(&new_env, &**e2, arith, fuel)
            },
            Err(e) => Err(e),
        },
        Expr::Apply(f, args) => {
            let fv = match eval_expr(env, &**f, arith, fuel) {
                Ok(v) => v,
                Err(e) => {
                    return Err(e);
                },
            };
            match fv {
                Value::Function(_fname, params, body) => {
                    proof {
                        lemma_models(args@);
                    }
                    if args.len() != params.len() {
                        return Err(EvalError::WrongNumberOfArguments);
                    }
                    let vals = match eval_args(env, args.as_slice(), arith, fuel) {
                        Ok(v) => v,
                        Err(e) => {
                            return Err(e);
                        },
                    };
                    if fuel == 0 {
                        return Err(EvalError::RecursionLimit);
                    }
                    proof {
                        lemma_eval_args_len(
                            fuel as nat,
                            env@,
                            Expr::models(args@),
                            arith_model(*arith),
                        );
                    }
                    let new_env = bind_params(env, &params, &vals);
                    eval_expr(&new_env, &*body, arith, fuel - 1)
                },
                _ => Err(EvalError::UncallableObject),
            }
        },
    }
}

/// Evaluates each argument in order against the caller's environment.
fn eval_args<F: Fn(NumOp, u64, u64) -> u64>(
    env: &Environment,
    args: &[Expr],
    arith: &F,
    fuel: u64,
) -> (r: Result<Vec<Value>, EvalError>)
    requires
        env.wf(),
        arith_ok(*arith),
    ensures
        match spec_eval_args(fuel as nat, env@, Expr::models(args@), arith_model(*arith)) {
            Ok(vs) => r matches Ok(vals) && value_views(vals@) == vs,
            Err(ev) => r matches Err(e) && e@ == ev,
        },
    decreases fuel, args@,
{
    proof {
        lemma_models(args@);
    }
    if args.len() == 0 {
        let out: Vec<Value> = Vec::new();
        proof {
            assert(value_views(out@) =~= Seq::<ValueView>::empty());
        }
        return Ok(out);
    }
    let first = match eval_expr(env, &args[0], arith, fuel) {
        Ok(v) => v,
        Err(e) => {
            return Err(e);
        },
    };
    let (_, rest) = args.split_at(1);
    proof {
        assert(decreases_to!(args@ => args@.subrange(1, args@.len() as int)));
        lemma_models(rest@);
        assert(Expr::models(rest@) =~= Expr::models(args@).subrange(
            1,
            Expr::models(args@).len() as int,
        ));
    }
    match eval_args(env, rest, arith, fuel) {
        Ok(rest_vals) => {
            let mut out: Vec<Value> = Vec::new();
            out.push(first);
            let mut rv = rest_vals;
            out.append(&mut rv);
            proof {
                assert(value_views(out@) =~= seq![out@[0]@] + value_views(out@.subrange(
                    1,
                    out@.len() as int,
                )));
            }
            Ok(out)
        },
        Err(e) => Err(e),
    }
}

/// Evaluates one statement: a bare expression yields its value and keeps
/// the environment; `def` binds a function value built from the unevaluated
/// body; a top-level `let` binds the evaluated value; both yield unit.
pub fn eval_stmt<F: Fn(NumOp, u64, u64) -> u64>(
    env: &Environment,
    stmt: &Stmt,
    arith: &F,
    fuel: u64,
) -> (r: Result<(Value, Environment), EvalError>)
    requires
        env.wf(),
        arith_ok(*arith),
    ensures
        match spec_eval_stmt(fuel as nat, env@, stmt@, arith_model(*arith)) {
            Ok(ve) => r matches Ok(p) && p.0@ == ve.0 && p.1@ == ve.1 && p.1.wf(),
            Err(ev) => r matches Err(e) && e@ == ev,
        },
{
    match stmt {
        Stmt::Expr(e) => match eval_expr(env, e, arith, fuel) {
            Ok(v) => Ok((v, env.clone())),
            Err(er) => Err(er),
        },
        Stmt::Def(name, params, body) => {
            let func = Value::Function(
                clone_bytes(name),
                crate::bytes::clone_names(params),
                Arc::new(body.clone()),
            );
            let new_env = env.with_variable(clone_bytes(name), func);
            Ok((Value::Unit, new_env))
        },
        Stmt::Let(name, e) => match eval_expr(env, e, arith, fuel) {
            Ok(v) => {
                let new_env = env.with_variable(clone_bytes(name), v);
                Ok((Value::Unit, new_env))
            },
            Err(er) => Err(er),
        },
    }
}

/// Evaluates a program: statements left to right, each statement seeing
/// the bindings of all the prior ones, the last statement's value being
/// the program's value. An empty program yields unit and the starting
/// environment unchanged.
pub fn eval_program<F: Fn(NumOp, u64, u64) -> u64>(
    env: &Environment,
    program: &[Stmt],
    arith: &F,
    fuel: u64,
) -> (r: Result<(Value, Environment), EvalError>)
    requires
        env.wf(),
        arith_ok(*arith),
    ensures
        match spec_eval_program(fuel as nat, env@, stmt_views(program@), arith_model(*arith)) {
            Ok(ve) => r matches Ok(p) && p.0@ == ve.0 && p.1@ == ve.1 && p.1.wf(),
            Err(ev) => r matches Err(e) && e@ == ev,
        },
{
    let mut last_value = Value::Unit;
    let mut cur = env.clone();
    let mut i: usize = 0;
    proof {
        assert(stmt_views(program@).skip(0) =~= stmt_views(program@));
    }
    while i < program.len()
        invariant
            i <= program@.len(),
            cur.wf(),
            arith_ok(*arith),
            spec_run(
                fuel as nat,
                env@,
                stmt_views(program@),
                ValueView::Unit,
                arith_model(*arith),
            ) == spec_run(
                fuel as nat,
                cur@,
                stmt_views(program@).skip(i as int),
                last_value@,
                arith_model(*arith),
            ),
        decreases program@.len() - i,
    {
        proof {
            assert(stmt_views(program@).skip(i as int)[0] == program@[i as int]@);
            let tail = stmt_views(program@).skip(i as int);
            assert(tail.subrange(1, tail.len() as int) =~= stmt_views(program@).skip(i as int + 1));
        }
        match eval_stmt(&cur, &program[i], arith, fuel) {
            Ok(p) => {
                let (v, e2) = p;
                last_value = v;
                cur = e2;
            },
            Err(e) => {
                return Err(e);
            },
        }
        i = i + 1;
    }
    proof {
        assert(stmt_views(program@).skip(program@.len() as int) =~= Seq::<StmtView>::empty());
    }
    Ok((last_value, cur))
}

} // verus!
