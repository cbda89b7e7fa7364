//! The interpreter: evaluation with lexical scoping and closures.
use vstd::prelude::*;

use crate::ast::{expr_model, BinOp, Expr, SpecExpr, Type};
use crate::lexer::chars_of;
use crate::soundness::{law_eval_spec_any_fuel, law_typed_programs_evaluate, overflows};
use crate::types::type_spec;
use std::rc::Rc;

verus! {

/// Values: integers, booleans and closures.
#[derive(Debug, PartialEq)]
pub enum Value {
    Int(i64),
    Bool(bool),
    Closure { param: String, body: Box<Expr>, env: Env },
}

/// An evaluation environment: a chain of bindings with distinct names in
/// increasing order, so that two environments that bind the same names to
/// the same values are built alike. Chains are shared: a closure holds its
/// environment by reference count, and an extended environment shares the
/// bindings after the new one.
#[derive(Debug, PartialEq)]
pub struct Env(Option<Rc<Binding>>);

/// One binding of an environment and the bindings after it.
#[derive(Debug, PartialEq)]
struct Binding {
    name: String,
    value: Value,
    rest: Env,
}

/// The error of the interpreter.
#[derive(Debug, Clone, PartialEq, Eq)]
pub struct EvalError {
    pub message: String,
}

/// The model of a value: a closure holds its parameter, its body and the
/// map of the environment it captured.
pub enum SpecValue {
    Int(i64),
    Bool(bool),
    Closure(Seq<char>, SpecExpr, Map<Seq<char>, SpecValue>),
}

/// The model of a value.
pub open spec fn value_model(v: Value) -> SpecValue
    decreases v,
{
    match v {
        Value::Int(n) => SpecValue::Int(n),
        Value::Bool(b) => SpecValue::Bool(b),
        Value::Closure { param, body, env } => SpecValue::Closure(
            param@,
            expr_model(*body),
            env_model(env),
        ),
    }
}

/// The map of an environment: a binding hides a later one of the same name.
pub closed spec fn env_model(env: Env) -> Map<Seq<char>, SpecValue>
    decreases env,
{
    match env.0 {
        None => Map::empty(),
        Some(b) => env_model(b.rest).insert(b.name@, value_model(b.value)),
    }
}

/// Lexicographic order of names.
pub open spec fn name_lt(a: Seq<char>, b: Seq<char>) -> bool
    decreases a.len(),
{
    if b.len() == 0 {
        false
    } else if a.len() == 0 {
        true
    } else if a[0] != b[0] {
        a[0] < b[0]
    } else {
        name_lt(a.drop_first(), b.drop_first())
    }
}

proof fn lemma_name_lt_irreflexive(a: Seq<char>)
    ensures
        !name_lt(a, a),
    decreases a.len(),
{
    if a.len() > 0 {
        lemma_name_lt_irreflexive(a.drop_first());
    }
}

proof fn lemma_name_lt_total(a: Seq<char>, b: Seq<char>)
    ensures
        a != b ==> name_lt(a, b) || name_lt(b, a),
        !(name_lt(a, b) && name_lt(b, a)),
    decreases a.len(),
{
    if a.len() > 0 && b.len() > 0 && a[0] == b[0] {
        lemma_name_lt_total(a.drop_first(), b.drop_first());
        if a.drop_first() == b.drop_first() {
            assert(a =~= seq![a[0]] + a.drop_first());
            assert(b =~= seq![b[0]] + b.drop_first());
        }
    } else if a.len() == 0 && b.len() == 0 {
        assert(a =~= b);
    }
}

proof fn lemma_name_lt_transitive(a: Seq<char>, b: Seq<char>, c: Seq<char>)
    requires
        name_lt(a, b),
        name_lt(b, c),
    ensures
        name_lt(a, c),
    decreases a.len(),
{
    if a.len() > 0 && a[0] == b[0] && b[0] == c[0] {
        lemma_name_lt_transitive(a.drop_first(), b.drop_first(), c.drop_first());
    }
}

/// Whether one name comes before another.
fn name_less(a: &String, b: &String) -> (r: bool)
    ensures
        r == name_lt(a@, b@),
{
    let ca = chars_of(a.as_str());
    let cb = chars_of(b.as_str());
    let mut i: usize = 0;
    assert(a@.skip(0) =~= a@);
    assert(b@.skip(0) =~= b@);
    while i < ca.len() && i < cb.len()
        invariant
            ca@ == a@,
            cb@ == b@,
            i <= ca@.len(),
            i <= cb@.len(),
            name_lt(a@, b@) == name_lt(a@.skip(i as int), b@.skip(i as int)),
        decreases ca@.len() - i,
    {
        if ca[i] != cb[i] {
            return ca[i] < cb[i];
        }
        assert(a@.skip(i as int).drop_first() =~= a@.skip(i + 1));
        assert(b@.skip(i as int).drop_first() =~= b@.skip(i + 1));
        i = i + 1;
    }
    i < cb.len()
}

/// The name of the first binding.
pub closed spec fn head_name(env: Env) -> Option<Seq<char>> {
    match env.0 {
        None => None,
        Some(b) => Some(b.name@),
    }
}

/// The names of an environment's bindings increase strictly.
pub closed spec fn env_sorted(env: Env) -> bool
    decreases env,
{
    match env.0 {
        None => true,
        Some(b) => env_sorted(b.rest) && match head_name(b.rest) {
            None => true,
            Some(n) => name_lt(b.name@, n),
        },
    }
}

/// Every environment inside a value is sorted.
pub closed spec fn value_canonical(v: Value) -> bool
    decreases v,
{
    match v {
        Value::Closure { env, .. } => env_canonical(env),
        _ => true,
    }
}

/// An environment is sorted, and so is every environment inside its values.
pub closed spec fn env_canonical(env: Env) -> bool
    decreases env,
{
    env_sorted(env) && match env.0 {
        None => true,
        Some(b) => value_canonical(b.value) && env_canonical(b.rest),
    }
}

/// The bindings of an environment in order, by their models.
pub closed spec fn env_entries(env: Env) -> Seq<(Seq<char>, SpecValue)>
    decreases env,
{
    match env.0 {
        None => Seq::empty(),
        Some(b) => seq![(b.name@, value_model(b.value))] + env_entries(b.rest),
    }
}

/// The bindings after the first.
spec fn env_rest(env: Env) -> Env {
    env.0->Some_0.rest
}

/// In a sorted environment every name after the first comes after it.
proof fn lemma_sorted_rest_above(env: Env, k: Seq<char>)
    requires
        env_sorted(env),
        env.0 is Some,
        env_model(env.0->Some_0.rest).contains_key(k),
    ensures
        name_lt(env.0->Some_0.name@, k),
    decreases env,
{
    let b = env.0->Some_0;
    let rest = b.rest;
    let c = rest.0->Some_0;
    if c.name@ != k {
        lemma_sorted_rest_above(rest, k);
        lemma_name_lt_transitive(b.name@, c.name@, k);
    }
}

/// Canonical form: two sorted environments with the same map hold the same
/// bindings in the same order.
pub proof fn law_sorted_envs_are_canonical(e1: Env, e2: Env)
    requires
        env_sorted(e1),
        env_sorted(e2),
        e1@ == e2@,
    ensures
        env_entries(e1) == env_entries(e2),
    decreases e1,
{
    match (e1.0, e2.0) {
        (None, None) => {},
        (Some(b1), None) => {
            assert(e1@.contains_key(b1.name@));
        },
        (None, Some(b2)) => {
            assert(e2@.contains_key(b2.name@));
        },
        (Some(b1), Some(b2)) => {
            let n1 = b1.name@;
            let n2 = b2.name@;
            lemma_name_lt_irreflexive(n1);
            lemma_name_lt_irreflexive(n2);
            if env_model(env_rest(e1)).contains_key(n1) {
                lemma_sorted_rest_above(e1, n1);
            }
            if env_model(env_rest(e2)).contains_key(n2) {
                lemma_sorted_rest_above(e2, n2);
            }
            lemma_name_lt_total(n1, n2);
            if n1 != n2 {
                assert(e2@.contains_key(n1));
                assert(e1@.contains_key(n2));
                lemma_sorted_rest_above(e2, n1);
                lemma_sorted_rest_above(e1, n2);
                assert(false);
            }
            assert(env_model(b1.rest) =~= e1@.remove(n1));
            assert(env_model(b2.rest) =~= e2@.remove(n2));
            assert(e1@[n1] == value_model(b1.value));
            law_sorted_envs_are_canonical(env_rest(e1), env_rest(e2));
        },
    }
}

impl View for Value {
    type V = SpecValue;

    open spec fn view(&self) -> SpecValue {
        value_model(*self)
    }
}

impl View for Env {
    type V = Map<Seq<char>, SpecValue>;

    open spec fn view(&self) -> Map<Seq<char>, SpecValue> {
        env_model(*self)
    }
}

/// What evaluation with a given amount of fuel comes to: a value, an
/// error with its message, an arithmetic overflow (on which the
/// interpreter panics), or the end of the fuel.
pub enum EvalOutcome {
    Done(SpecValue),
    Failed(Seq<char>),
    Overflow,
    OutOfFuel,
}

pub open spec fn in_i64(x: int) -> bool {
    i64::MIN <= x <= i64::MAX
}

pub open spec fn invalid_operands_message() -> Seq<char> {
    "invalid operands"@
}

/// The outcome of a binary operator on two values.
pub open spec fn binop_outcome(op: BinOp, lv: SpecValue, rv: SpecValue) -> EvalOutcome {
    match (op, lv, rv) {
        (BinOp::Add, SpecValue::Int(a), SpecValue::Int(b)) => if in_i64(a + b) {
            EvalOutcome::Done(SpecValue::Int((a + b) as i64))
        } else {
            EvalOutcome::Overflow
        },
        (BinOp::Sub, SpecValue::Int(a), SpecValue::Int(b)) => if in_i64(a - b) {
            EvalOutcome::Done(SpecValue::Int((a - b) as i64))
        } else {
            EvalOutcome::Overflow
        },
        (BinOp::Mul, SpecValue::Int(a), SpecValue::Int(b)) => if in_i64(a * b) {
            EvalOutcome::Done(SpecValue::Int((a * b) as i64))
        } else {
            EvalOutcome::Overflow
        },
        (BinOp::Eq, SpecValue::Int(a), SpecValue::Int(b)) => EvalOutcome::Done(
            SpecValue::Bool(a == b),
        ),
        (BinOp::Eq, SpecValue::Bool(a), SpecValue::Bool(b)) => EvalOutcome::Done(
            SpecValue::Bool(a == b),
        ),
        (BinOp::Eq, SpecValue::Closure(..), SpecValue::Closure(..)) => EvalOutcome::Done(
            SpecValue::Bool(lv == rv),
        ),
        (BinOp::Lt, SpecValue::Int(a), SpecValue::Int(b)) => EvalOutcome::Done(
            SpecValue::Bool(a < b),
        ),
        _ => EvalOutcome::Failed(invalid_operands_message()),
    }
}

/// Big-step evaluation of `e` in `env`, where each step down into a
/// subexpression or a function body costs one unit of fuel.
pub open spec fn eval_in(e: SpecExpr, env: Map<Seq<char>, SpecValue>, fuel: nat) -> EvalOutcome
    decreases fuel,
{
    if fuel == 0 {
        EvalOutcome::OutOfFuel
    } else {
        let f = (fuel - 1) as nat;
        match e {
            SpecExpr::Int(n) => EvalOutcome::Done(SpecValue::Int(n)),
            SpecExpr::Bool(b) => EvalOutcome::Done(SpecValue::Bool(b)),
            SpecExpr::Var(x) => if env.contains_key(x) {
                EvalOutcome::Done(env[x])
            } else {
                EvalOutcome::Failed("unbound variable "@ + x)
            },
            SpecExpr::Let(x, v, b) => match eval_in(*v, env, f) {
                EvalOutcome::Done(val) => eval_in(*b, env.insert(x, val), f),
                other => other,
            },
            SpecExpr::If(c, t, el) => match eval_in(*c, env, f) {
                EvalOutcome::Done(SpecValue::Bool(true)) => eval_in(*t, env, f),
                EvalOutcome::Done(SpecValue::Bool(false)) => eval_in(*el, env, f),
                EvalOutcome::Done(_) => EvalOutcome::Failed("condition must be Bool"@),
                other => other,
            },
            SpecExpr::Lambda(x, _, body) => EvalOutcome::Done(SpecValue::Closure(x, *body, env)),
            SpecExpr::App(fe, ae) => match eval_in(*fe, env, f) {
                EvalOutcome::Done(fv) => match eval_in(*ae, env, f) {
                    EvalOutcome::Done(av) => match fv {
                        SpecValue::Closure(p, body, cenv) => eval_in(body, cenv.insert(p, av), f),
                        _ => EvalOutcome::Failed("attempted to call a non-function"@),
                    },
                    other => other,
                },
                other => other,
            },
            SpecExpr::BinOp(op, l, r) => match eval_in(*l, env, f) {
                EvalOutcome::Done(lv) => match eval_in(*r, env, f) {
                    EvalOutcome::Done(rv) => binop_outcome(op, lv, rv),
                    other => other,
                },
                other => other,
            },
        }
    }
}

/// Evaluation with this fuel ends in a value or an error.
pub open spec fn finishes(e: SpecExpr, env: Map<Seq<char>, SpecValue>, fuel: nat) -> bool {
    eval_in(e, env, fuel) is Done || eval_in(e, env, fuel) is Failed
}

/// Evaluation of a closed expression ends in a value or an error: it
/// neither runs forever nor overflows.
pub open spec fn evaluates(e: SpecExpr) -> bool {
    exists|fuel: nat| finishes(e, Map::empty(), fuel)
}

/// The outcome of evaluating a closed expression.
pub open spec fn eval_spec(e: SpecExpr) -> EvalOutcome {
    if evaluates(e) {
        eval_in(e, Map::empty(), choose|fuel: nat| finishes(e, Map::empty(), fuel))
    } else {
        EvalOutcome::OutOfFuel
    }
}

/// The outcome of the interpreter against its model.
pub open spec fn eval_outcome(r: Result<Value, EvalError>, expected: EvalOutcome) -> bool {
    match r {
        Ok(v) => expected == EvalOutcome::Done(v@),
        Err(e) => expected == EvalOutcome::Failed(e.message@),
    }
}

impl Value {
    /// A copy of the value; a closure shares its environment.
    pub fn copy(&self) -> (r: Value)
        ensures
            r == *self,
    {
        match self {
            Value::Int(n) => Value::Int(*n),
            Value::Bool(b) => Value::Bool(*b),
            Value::Closure { param, body, env } => Value::Closure {
                param: param.clone(),
                body: Box::new(body.copy()),
                env: env.copy(),
            },
        }
    }
}

impl Env {
    /// A copy of the environment, which shares its bindings.
    pub fn copy(&self) -> (r: Env)
        ensures
            r == *self,
    {
        match &self.0 {
            None => Env(None),
            Some(b) => Env(Some(b.clone())),
        }
    }

    fn empty() -> (r: Env)
        ensures
            r@ == Map::<Seq<char>, SpecValue>::empty(),
            env_canonical(r),
    {
        Env(None)
    }

    /// The environment with `name` bound to `value`, in its place in the
    /// order of names, replacing an earlier binding of `name`.
    fn extend(&self, name: String, value: Value) -> (r: Env)
        ensures
            r@ == self@.insert(name@, value@),
            env_sorted(*self) ==> env_sorted(r),
            env_canonical(*self) && value_canonical(value) ==> env_canonical(r),
            head_name(r) == Some(name@) || (self.0 is Some && head_name(r) == head_name(*self)),
        decreases self,
    {
        match &self.0 {
            None => Env(Some(Rc::new(Binding { name, value, rest: Env(None) }))),
            Some(b) => {
                if name_less(&name, &b.name) {
                    Env(Some(Rc::new(Binding { name, value, rest: self.copy() })))
                } else if name == b.name {
                    let r = Env(Some(Rc::new(Binding { name, value, rest: b.rest.copy() })));
                    proof {
                        assert(r@ =~= self@.insert(r.0->Some_0.name@, r.0->Some_0.value@));
                    }
                    r
                } else {
                    let ghost n = name@;
                    let ghost v = value@;
                    proof {
                        lemma_name_lt_total(n, b.name@);
                    }
                    let rest = b.rest.extend(name, value);
                    let r = Env(
                        Some(
                            Rc::new(
                                Binding { name: b.name.clone(), value: b.value.copy(), rest },
                            ),
                        ),
                    );
                    proof {
                        assert(r@ =~= self@.insert(n, v));
                    }
                    r
                }
            },
        }
    }

    fn get(&self, name: &String) -> (r: Option<Value>)
        ensures
            r is Some <==> self@.contains_key(name@),
            r is Some ==> r->Some_0@ == self@[name@],
            env_canonical(*self) && r is Some ==> value_canonical(r->Some_0),
        decreases self,
    {
        match &self.0 {
            None => None,
            Some(b) => {
                if b.name == *name {
                    Some(b.value.copy())
                } else {
                    b.rest.get(name)
                }
            },
        }
    }
}

/// The bindings of an environment determine its map.
proof fn lemma_entries_determine_model(e1: Env, e2: Env)
    requires
        env_entries(e1) == env_entries(e2),
    ensures
        e1@ == e2@,
    decreases e1,
{
    match (e1.0, e2.0) {
        (Some(b1), Some(b2)) => {
            assert(env_entries(b1.rest) == env_entries(e1).drop_first());
            assert(env_entries(b2.rest) == env_entries(e2).drop_first());
            assert(env_entries(e1)[0] == env_entries(e2)[0]);
            lemma_entries_determine_model(env_rest(e1), env_rest(e2));
        },
        (Some(b1), None) => {
            assert(env_entries(e1).len() > 0);
        },
        (None, Some(b2)) => {
            assert(env_entries(e2).len() > 0);
        },
        (None, None) => {},
    }
}

/// Whether two expressions are the same.
fn expr_equal(a: &Expr, b: &Expr) -> (r: bool)
    ensures
        r == (a@ == b@),
    decreases a,
{
    match (a, b) {
        (Expr::Int(x), Expr::Int(y)) => *x == *y,
        (Expr::Bool(x), Expr::Bool(y)) => *x == *y,
        (Expr::Var(x), Expr::Var(y)) => *x == *y,
        (Expr::Let(x1, v1, b1), Expr::Let(x2, v2, b2)) => *x1 == *x2 && expr_equal(v1, v2)
            && expr_equal(b1, b2),
        (Expr::If(c1, t1, f1), Expr::If(c2, t2, f2)) => expr_equal(c1, c2) && expr_equal(t1, t2)
            && expr_equal(f1, f2),
        (
            Expr::Lambda { param: p1, param_type: t1, body: b1 },
            Expr::Lambda { param: p2, param_type: t2, body: b2 },
        ) => *p1 == *p2 && t1.same_as(t2) && expr_equal(b1, b2),
        (Expr::App(f1, x1), Expr::App(f2, x2)) => expr_equal(f1, f2) && expr_equal(x1, x2),
        (Expr::BinOp(o1, l1, r1), Expr::BinOp(o2, l2, r2)) => *o1 == *o2 && expr_equal(l1, l2)
            && expr_equal(r1, r2),
        _ => false,
    }
}

/// Whether two values are the same: closures are the same when their
/// parameters, bodies and environments are.
fn values_equal(a: &Value, b: &Value) -> (r: bool)
    requires
        value_canonical(*a),
        value_canonical(*b),
    ensures
        r == (a@ == b@),
    decreases a,
{
    match (a, b) {
        (Value::Int(x), Value::Int(y)) => *x == *y,
        (Value::Bool(x), Value::Bool(y)) => *x == *y,
        (
            Value::Closure { param: p1, body: b1, env: e1 },
            Value::Closure { param: p2, body: b2, env: e2 },
        ) => *p1 == *p2 && expr_equal(b1, b2) && envs_equal(e1, e2),
        _ => false,
    }
}

/// Whether two environments bind the same names to the same values.
fn envs_equal(a: &Env, b: &Env) -> (r: bool)
    requires
        env_canonical(*a),
        env_canonical(*b),
    ensures
        r == (a@ == b@),
    decreases a,
{
    proof {
        if a@ == b@ {
            law_sorted_envs_are_canonical(*a, *b);
        }
    }
    match (&a.0, &b.0) {
        (None, None) => true,
        (Some(x), None) => {
            assert(a@.contains_key(x.name@));
            false
        },
        (None, Some(y)) => {
            assert(b@.contains_key(y.name@));
            false
        },
        (Some(x), Some(y)) => {
            proof {
                if a@ == b@ {
                    assert(env_entries(x.rest) == env_entries(*a).drop_first());
                    assert(env_entries(y.rest) == env_entries(*b).drop_first());
                    assert(env_entries(*a)[0] == env_entries(*b)[0]);
                    lemma_entries_determine_model(env_rest(*a), env_rest(*b));
                }
            }
            x.name == y.name && values_equal(&x.value, &y.value) && envs_equal(&x.rest, &y.rest)
        },
    }
}

impl Clone for Value {
    fn clone(&self) -> (r: Value)
        ensures
            r == *self,
    {
        self.copy()
    }
}

impl Clone for Env {
    fn clone(&self) -> (r: Env)
        ensures
            r == *self,
    {
        self.copy()
    }
}

/// Evaluates a closed expression. An unbound variable, a condition that is
/// not a boolean, a call of a non-function and operands that do not fit the
/// operator are errors. The expression must not overflow (the arithmetic of
/// `i64` would panic) nor run forever; a well-typed expression never runs
/// forever.
pub fn eval(expr: &Expr) -> (r: Result<Value, EvalError>)
    requires
        evaluates(expr@) || (type_spec(expr@) is Ok && !overflows(expr@)),
    ensures
        evaluates(expr@),
        eval_outcome(r, eval_spec(expr@)),
        r is Ok ==> value_canonical(r->Ok_0),
{
    proof {
        if !evaluates(expr@) {
            law_typed_programs_evaluate(expr@);
        }
    }
    let ghost fuel = choose|fuel: nat| finishes(expr@, Map::empty(), fuel);
    eval_with_env(expr, &Env::empty(), Ghost(fuel))
}

fn eval_with_env(expr: &Expr, env: &Env, Ghost(fuel): Ghost<nat>) -> (r: Result<Value, EvalError>)
    requires
        finishes(expr@, env@, fuel),
        env_canonical(*env),
    ensures
        eval_outcome(r, eval_in(expr@, env@, fuel)),
        r is Ok ==> value_canonical(r->Ok_0),
    decreases fuel,
{
    let ghost f = (fuel - 1) as nat;
    match expr {
        Expr::Int(value) => Ok(Value::Int(*value)),
        Expr::Bool(value) => Ok(Value::Bool(*value)),
        Expr::Var(name) => match env.get(name) {
            Some(v) => Ok(v),
            None => {
                let message = String::from_str("unbound variable ").concat(name.as_str());
                Err(EvalError { message })
            },
        },
        Expr::Let(name, value_expr, body) => {
            let value = match eval_with_env(value_expr, env, Ghost(f)) {
                Ok(v) => v,
                Err(e) => return Err(e),
            };
            let next_env = env.extend(name.clone(), value);
            eval_with_env(body, &next_env, Ghost(f))
        },
        Expr::If(cond, then_branch, else_branch) => {
            let cond_value = match eval_with_env(cond, env, Ghost(f)) {
                Ok(v) => v,
                Err(e) => return Err(e),
            };
            match cond_value {
                Value::Bool(true) => eval_with_env(then_branch, env, Ghost(f)),
                Value::Bool(false) => eval_with_env(else_branch, env, Ghost(f)),
                _ => Err(EvalError { message: String::from_str("condition must be Bool") }),
            }
        },
        Expr::Lambda { param, body, .. } => Ok(
            Value::Closure { param: param.clone(), body: Box::new(body.copy()), env: env.copy() },
        ),
        Expr::App(callee, arg) => {
            let callee_value = match eval_with_env(callee, env, Ghost(f)) {
                Ok(v) => v,
                Err(e) => return Err(e),
            };
            let arg_value = match eval_with_env(arg, env, Ghost(f)) {
                Ok(v) => v,
                Err(e) => return Err(e),
            };
            match callee_value {
                Value::Closure { param, body, env: closure_env } => {
                    let next_env = closure_env.extend(param, arg_value);
                    eval_with_env(&body, &next_env, Ghost(f))
                },
                _ => Err(EvalError { message: String::from_str("attempted to call a non-function") }),
            }
        },
        Expr::BinOp(op, lhs, rhs) => {
            let lhs_value = match eval_with_env(lhs, env, Ghost(f)) {
                Ok(v) => v,
                Err(e) => return Err(e),
            };
            let rhs_value = match eval_with_env(rhs, env, Ghost(f)) {
                Ok(v) => v,
                Err(e) => return Err(e),
            };
            match (op, &lhs_value, &rhs_value) {
                (BinOp::Add, Value::Int(l), Value::Int(r)) => Ok(Value::Int(*l + *r)),
                (BinOp::Sub, Value::Int(l), Value::Int(r)) => Ok(Value::Int(*l - *r)),
                (BinOp::Mul, Value::Int(l), Value::Int(r)) => Ok(Value::Int(*l * *r)),
                (BinOp::Eq, Value::Int(l), Value::Int(r)) => Ok(Value::Bool(*l == *r)),
                (BinOp::Eq, Value::Bool(l), Value::Bool(r)) => Ok(Value::Bool(*l == *r)),
                (BinOp::Eq, Value::Closure { .. }, Value::Closure { .. }) => Ok(
                    Value::Bool(values_equal(&lhs_value, &rhs_value)),
                ),
                (BinOp::Lt, Value::Int(l), Value::Int(r)) => Ok(Value::Bool(*l < *r)),
                _ => Err(EvalError { message: String::from_str("invalid operands") }),
            }
        },
    }
}


/// Equality compares values: where both operands evaluate to integers, to
/// booleans or to closures, `l == r` evaluates to whether the two values are
/// the same; operands of two different kinds are refused.
pub proof fn law_equality_compares_values(
    l: SpecExpr,
    r: SpecExpr,
    env: Map<Seq<char>, SpecValue>,
    fuel: nat,
)
    requires
        eval_in(l, env, fuel) is Done,
        eval_in(r, env, fuel) is Done,
    ensures
        ({
            let lv = eval_in(l, env, fuel)->Done_0;
            let rv = eval_in(r, env, fuel)->Done_0;
            let e = SpecExpr::BinOp(BinOp::Eq, Box::new(l), Box::new(r));
            &&& (lv is Int && rv is Int) || (lv is Bool && rv is Bool) || (lv is Closure
                && rv is Closure) ==> eval_in(e, env, fuel + 1) == EvalOutcome::Done(
                SpecValue::Bool(lv == rv),
            )
            &&& !((lv is Int && rv is Int) || (lv is Bool && rv is Bool) || (lv is Closure
                && rv is Closure)) ==> eval_in(e, env, fuel + 1) == EvalOutcome::Failed(
                "invalid operands"@,
            )
        }),
{
}

/// The operators on two integer literals: `+`, `-` and `*` give the exact
/// sum, difference and product where it fits in `i64` and overflow where it
/// does not; `<` gives whether `a` is below `b`; `==` gives whether `a` and
/// `b` are equal. On two boolean literals `==` gives whether they are
/// equal.
pub proof fn law_operators_on_literals(
    a: i64,
    b: i64,
    p: bool,
    q: bool,
    env: Map<Seq<char>, SpecValue>,
    fuel: nat,
)
    requires
        fuel >= 2,
    ensures
        ({
            let lit = |op: BinOp|
                SpecExpr::BinOp(op, Box::new(SpecExpr::Int(a)), Box::new(SpecExpr::Int(b)));
            &&& eval_in(lit(BinOp::Add), env, fuel) == if i64::MIN <= a + b <= i64::MAX {
                EvalOutcome::Done(SpecValue::Int((a + b) as i64))
            } else {
                EvalOutcome::Overflow
            }
            &&& eval_in(lit(BinOp::Sub), env, fuel) == if i64::MIN <= a - b <= i64::MAX {
                EvalOutcome::Done(SpecValue::Int((a - b) as i64))
            } else {
                EvalOutcome::Overflow
            }
            &&& eval_in(lit(BinOp::Mul), env, fuel) == if i64::MIN <= a * b <= i64::MAX {
                EvalOutcome::Done(SpecValue::Int((a * b) as i64))
            } else {
                EvalOutcome::Overflow
            }
            &&& eval_in(lit(BinOp::Lt), env, fuel) == EvalOutcome::Done(SpecValue::Bool(a < b))
            &&& eval_in(lit(BinOp::Eq), env, fuel) == EvalOutcome::Done(SpecValue::Bool(a == b))
            &&& eval_in(
                SpecExpr::BinOp(BinOp::Eq, Box::new(SpecExpr::Bool(p)), Box::new(SpecExpr::Bool(q))),
                env,
                fuel,
            ) == EvalOutcome::Done(SpecValue::Bool(p == q))
        }),
{
    let f = (fuel - 1) as nat;
    assert(eval_in(SpecExpr::Int(a), env, f) == EvalOutcome::Done(SpecValue::Int(a)));
    assert(eval_in(SpecExpr::Int(b), env, f) == EvalOutcome::Done(SpecValue::Int(b)));
    assert(eval_in(SpecExpr::Bool(p), env, f) == EvalOutcome::Done(SpecValue::Bool(p)));
    assert(eval_in(SpecExpr::Bool(q), env, f) == EvalOutcome::Done(SpecValue::Bool(q)));
}

/// Closed programs: `a == b` on integer literals evaluates to `true` exactly
/// when `a` and `b` are the same integer, and `a < b` exactly when `a` is
/// below `b`.
pub proof fn law_literal_comparisons(a: i64, b: i64)
    ensures
        eval_spec(SpecExpr::BinOp(BinOp::Eq, Box::new(SpecExpr::Int(a)), Box::new(SpecExpr::Int(b))))
            == EvalOutcome::Done(SpecValue::Bool(a == b)),
        eval_spec(SpecExpr::BinOp(BinOp::Lt, Box::new(SpecExpr::Int(a)), Box::new(SpecExpr::Int(b))))
            == EvalOutcome::Done(SpecValue::Bool(a < b)),
{
    let eq = SpecExpr::BinOp(BinOp::Eq, Box::new(SpecExpr::Int(a)), Box::new(SpecExpr::Int(b)));
    let lt = SpecExpr::BinOp(BinOp::Lt, Box::new(SpecExpr::Int(a)), Box::new(SpecExpr::Int(b)));
    law_operators_on_literals(a, b, true, true, Map::empty(), 2);
    law_eval_spec_any_fuel(eq, 2);
    law_eval_spec_any_fuel(lt, 2);
}


/// A variable evaluates to the value its name is bound to; the latest
/// binding of a name hides earlier ones.
pub proof fn law_variable_lookup(
    x: Seq<char>,
    v: SpecValue,
    env: Map<Seq<char>, SpecValue>,
    fuel: nat,
)
    requires
        fuel >= 1,
    ensures
        eval_in(SpecExpr::Var(x), env.insert(x, v), fuel) == EvalOutcome::Done(v),
        !env.contains_key(x) ==> eval_in(SpecExpr::Var(x), env, fuel) == EvalOutcome::Failed(
            "unbound variable "@ + x,
        ),
{
}

/// `if` evaluates the branch that its boolean condition selects.
pub proof fn law_if_evaluates_selected_branch(
    c: SpecExpr,
    t: SpecExpr,
    el: SpecExpr,
    b: bool,
    env: Map<Seq<char>, SpecValue>,
    fuel: nat,
)
    requires
        eval_in(c, env, fuel) == EvalOutcome::Done(SpecValue::Bool(b)),
    ensures
        eval_in(SpecExpr::If(Box::new(c), Box::new(t), Box::new(el)), env, fuel + 1) == if b {
            eval_in(t, env, fuel)
        } else {
            eval_in(el, env, fuel)
        },
{
}

/// Scoping: `let x = v in x` and `(\x: T -> x) v` evaluate as `v` does;
/// `let x = v in b` evaluates `b` with `x` bound to the value of `v`; and a
/// call runs the closure's body in the environment it captured, with its
/// parameter bound to the argument.
pub proof fn law_binding_and_calls(
    x: Seq<char>,
    t: Type,
    v: SpecExpr,
    b: SpecExpr,
    env: Map<Seq<char>, SpecValue>,
    fuel: nat,
)
    requires
        eval_in(v, env, fuel) is Done,
    ensures
        eval_in(SpecExpr::Let(x, Box::new(v), Box::new(SpecExpr::Var(x))), env, fuel + 1)
            == eval_in(v, env, fuel),
        eval_in(
            SpecExpr::App(
                Box::new(SpecExpr::Lambda(x, t, Box::new(SpecExpr::Var(x)))),
                Box::new(v),
            ),
            env,
            fuel + 1,
        ) == eval_in(v, env, fuel),
        eval_in(SpecExpr::Let(x, Box::new(v), Box::new(b)), env, fuel + 1) == eval_in(
            b,
            env.insert(x, eval_in(v, env, fuel)->Done_0),
            fuel,
        ),
        eval_in(SpecExpr::App(Box::new(SpecExpr::Lambda(x, t, Box::new(b))), Box::new(v)), env, fuel + 1)
            == eval_in(b, env.insert(x, eval_in(v, env, fuel)->Done_0), fuel),
{
    let val = eval_in(v, env, fuel)->Done_0;
    assert(fuel >= 1);
    assert(eval_in(SpecExpr::Var(x), env.insert(x, val), fuel) == EvalOutcome::Done(val));
    assert(eval_in(SpecExpr::Lambda(x, t, Box::new(SpecExpr::Var(x))), env, fuel)
        == EvalOutcome::Done(SpecValue::Closure(x, SpecExpr::Var(x), env)));
    assert(eval_in(SpecExpr::Lambda(x, t, Box::new(b)), env, fuel) == EvalOutcome::Done(
        SpecValue::Closure(x, b, env),
    ));
}

} // verus!
