//! Type soundness of the interpreter with respect to the type checker:
//! preservation, progress and normalization, and the facts about evaluation
//! and typing that they rest on.
use vstd::prelude::*;

use crate::ast::{BinOp, SpecExpr, Type};
use crate::eval::{
    binop_outcome, eval_in, eval_spec, evaluates, finishes, EvalOutcome, SpecValue,
};
use crate::types::{lookup_type, mismatch_message, type_in, type_spec};

verus! {

/// A value has a type: integers are `Int`, booleans are `Bool`, and a
/// closure has type `A -> B` when its captured environment fits some typing
/// environment in which its body, with the parameter of type `A`, has type
/// `B`.
pub open spec fn value_has_type(v: SpecValue, t: Type) -> bool
    decreases v,
{
    match v {
        SpecValue::Int(_) => t == Type::Int,
        SpecValue::Bool(_) => t == Type::Bool,
        SpecValue::Closure(p, body, cenv) => match t {
            Type::Func(a, b) => exists|g: Seq<(Seq<char>, Type)>|
                #![trigger type_in(body, g.push((p, *a)))]
                (forall|x: Seq<char>|
                    #![trigger lookup_type(g, x)]
                    lookup_type(g, x) is Some ==> cenv.contains_key(x) && value_has_type(
                        cenv[x],
                        lookup_type(g, x)->Some_0,
                    )) && type_in(body, g.push((p, *a))) == Ok::<Type, Seq<char>>(*b),
            _ => false,
        },
    }
}

/// Every name that the typing environment binds is bound in the value
/// environment to a value of its type.
pub open spec fn env_has_types(venv: Map<Seq<char>, SpecValue>, g: Seq<(Seq<char>, Type)>) -> bool {
    forall|x: Seq<char>|
        #![trigger lookup_type(g, x)]
        lookup_type(g, x) is Some ==> venv.contains_key(x) && value_has_type(
            venv[x],
            lookup_type(g, x)->Some_0,
        )
}

proof fn lemma_lookup_push(g: Seq<(Seq<char>, Type)>, x: Seq<char>, t: Type, y: Seq<char>)
    ensures
        lookup_type(g.push((x, t)), y) == (if y == x {
            Some(t)
        } else {
            lookup_type(g, y)
        }),
{
    assert(g.push((x, t)).drop_last() =~= g);
}

/// Binding a name to a value of a type keeps an environment well typed.
proof fn lemma_env_extend(
    venv: Map<Seq<char>, SpecValue>,
    g: Seq<(Seq<char>, Type)>,
    x: Seq<char>,
    v: SpecValue,
    t: Type,
)
    requires
        env_has_types(venv, g),
        value_has_type(v, t),
    ensures
        env_has_types(venv.insert(x, v), g.push((x, t))),
{
    assert forall|y: Seq<char>|
        #![trigger lookup_type(g.push((x, t)), y)]
        lookup_type(g.push((x, t)), y) is Some implies venv.insert(x, v).contains_key(y)
        && value_has_type(venv.insert(x, v)[y], lookup_type(g.push((x, t)), y)->Some_0) by {
        lemma_lookup_push(g, x, t, y);
        if y != x {
            assert(lookup_type(g, y) is Some);
        }
    }
}

/// Soundness in an environment: evaluating an expression that has a type in
/// a typing environment, under a value environment that fits it, never
/// fails, and a value it gives has that type. Closures capture environments
/// that fit the typing environment of their bodies.
pub proof fn law_sound_in_env(
    e: SpecExpr,
    venv: Map<Seq<char>, SpecValue>,
    g: Seq<(Seq<char>, Type)>,
    fuel: nat,
)
    requires
        type_in(e, g) is Ok,
        env_has_types(venv, g),
    ensures
        !(eval_in(e, venv, fuel) is Failed),
        eval_in(e, venv, fuel) is Done ==> value_has_type(
            eval_in(e, venv, fuel)->Done_0,
            type_in(e, g)->Ok_0,
        ),
    decreases fuel,
{
    if fuel == 0 {
        return ;
    }
    let f = (fuel - 1) as nat;
    match e {
        SpecExpr::Int(_) => {},
        SpecExpr::Bool(_) => {},
        SpecExpr::Var(x) => {
            assert(lookup_type(g, x) is Some);
        },
        SpecExpr::Let(x, v, b) => {
            law_sound_in_env(*v, venv, g, f);
            if let EvalOutcome::Done(val) = eval_in(*v, venv, f) {
                let tv = type_in(*v, g)->Ok_0;
                lemma_env_extend(venv, g, x, val, tv);
                law_sound_in_env(*b, venv.insert(x, val), g.push((x, tv)), f);
            }
        },
        SpecExpr::If(c, t, el) => {
            law_sound_in_env(*c, venv, g, f);
            law_sound_in_env(*t, venv, g, f);
            law_sound_in_env(*el, venv, g, f);
        },
        SpecExpr::Lambda(x, ty, body) => {
            let tb = type_in(*body, g.push((x, ty)))->Ok_0;
            assert(type_in(*body, g.push((x, ty))) == Ok::<Type, Seq<char>>(tb));
        },
        SpecExpr::App(fe, ae) => {
            law_sound_in_env(*fe, venv, g, f);
            law_sound_in_env(*ae, venv, g, f);
            if let EvalOutcome::Done(fv) = eval_in(*fe, venv, f) {
                if let EvalOutcome::Done(av) = eval_in(*ae, venv, f) {
                    let tf = type_in(*fe, g)->Ok_0;
                    if let Type::Func(a, rt) = tf {
                        if let SpecValue::Closure(p, body, cenv) = fv {
                            let g2 = choose|g2: Seq<(Seq<char>, Type)>|
                                #![trigger type_in(body, g2.push((p, *a)))]
                                (forall|x: Seq<char>|
                                    #![trigger lookup_type(g2, x)]
                                    lookup_type(g2, x) is Some ==> cenv.contains_key(x)
                                        && value_has_type(cenv[x], lookup_type(g2, x)->Some_0))
                                    && type_in(body, g2.push((p, *a))) == Ok::<Type, Seq<char>>(
                                    *rt,
                                );
                            assert(env_has_types(cenv, g2));
                            lemma_env_extend(cenv, g2, p, av, *a);
                            law_sound_in_env(body, cenv.insert(p, av), g2.push((p, *a)), f);
                        }
                    }
                }
            }
        },
        SpecExpr::BinOp(op, l, r) => {
            law_sound_in_env(*l, venv, g, f);
            law_sound_in_env(*r, venv, g, f);
        },
    }
}

/// Evaluation is deterministic in its fuel: once some fuel suffices to
/// reach an outcome, any more fuel reaches the same outcome.
pub proof fn law_fuel_monotone(
    e: SpecExpr,
    env: Map<Seq<char>, SpecValue>,
    f1: nat,
    f2: nat,
)
    requires
        f1 <= f2,
        !(eval_in(e, env, f1) is OutOfFuel),
    ensures
        eval_in(e, env, f2) == eval_in(e, env, f1),
    decreases f1,
{
    let a = (f1 - 1) as nat;
    let b = (f2 - 1) as nat;
    match e {
        SpecExpr::Let(x, v, body) => {
            if !(eval_in(*v, env, a) is OutOfFuel) {
                law_fuel_monotone(*v, env, a, b);
                if let EvalOutcome::Done(val) = eval_in(*v, env, a) {
                    law_fuel_monotone(*body, env.insert(x, val), a, b);
                }
            }
        },
        SpecExpr::If(c, t, el) => {
            if !(eval_in(*c, env, a) is OutOfFuel) {
                law_fuel_monotone(*c, env, a, b);
                if eval_in(*c, env, a) == EvalOutcome::Done(SpecValue::Bool(true)) {
                    law_fuel_monotone(*t, env, a, b);
                } else if eval_in(*c, env, a) == EvalOutcome::Done(SpecValue::Bool(false)) {
                    law_fuel_monotone(*el, env, a, b);
                }
            }
        },
        SpecExpr::App(fe, ae) => {
            if !(eval_in(*fe, env, a) is OutOfFuel) {
                law_fuel_monotone(*fe, env, a, b);
                if eval_in(*fe, env, a) is Done && !(eval_in(*ae, env, a) is OutOfFuel) {
                    law_fuel_monotone(*ae, env, a, b);
                    if let EvalOutcome::Done(SpecValue::Closure(p, body, cenv)) = eval_in(*fe, env, a) {
                        if let EvalOutcome::Done(av) = eval_in(*ae, env, a) {
                            law_fuel_monotone(body, cenv.insert(p, av), a, b);
                        }
                    }
                }
            }
        },
        SpecExpr::BinOp(op, l, r) => {
            if !(eval_in(*l, env, a) is OutOfFuel) {
                law_fuel_monotone(*l, env, a, b);
                if eval_in(*l, env, a) is Done && !(eval_in(*r, env, a) is OutOfFuel) {
                    law_fuel_monotone(*r, env, a, b);
                }
            }
        },
        _ => {},
    }
}

/// The outcome of a closed expression is what any fuel that suffices gives.
pub proof fn law_eval_spec_any_fuel(e: SpecExpr, fuel: nat)
    requires
        finishes(e, Map::empty(), fuel),
    ensures
        evaluates(e),
        eval_spec(e) == eval_in(e, Map::empty(), fuel),
{
    let f0 = choose|f: nat| finishes(e, Map::empty(), f);
    assert(finishes(e, Map::empty(), f0));
    if f0 <= fuel {
        law_fuel_monotone(e, Map::empty(), f0, fuel);
    } else {
        law_fuel_monotone(e, Map::empty(), fuel, f0);
    }
}


/// Preservation: when a closed expression of type `T` evaluates to a value
/// (with any fuel), the value has type `T`.
pub proof fn law_preservation(e: SpecExpr, fuel: nat)
    requires
        type_spec(e) is Ok,
        eval_in(e, Map::empty(), fuel) is Done,
    ensures
        value_has_type(eval_in(e, Map::empty(), fuel)->Done_0, type_spec(e)->Ok_0),
{
    law_sound_in_env(e, Map::empty(), Seq::empty(), fuel);
}

/// Progress: a closed expression that type-checks never fails in
/// evaluation, whatever the fuel; it can only give a value, overflow, or
/// need more fuel.
pub proof fn law_progress(e: SpecExpr, fuel: nat)
    requires
        type_spec(e) is Ok,
    ensures
        !(eval_in(e, Map::empty(), fuel) is Failed),
{
    law_sound_in_env(e, Map::empty(), Seq::empty(), fuel);
}

/// Some run of the evaluation of a closed expression overflows.
pub open spec fn overflows(e: SpecExpr) -> bool {
    exists|fuel: nat| eval_in(e, Map::empty(), fuel) is Overflow
}

/// With this fuel, evaluation overflows or gives a value in `r`.
pub open spec fn run_settles(
    e: SpecExpr,
    env: Map<Seq<char>, SpecValue>,
    r: spec_fn(SpecValue) -> bool,
    fuel: nat,
) -> bool {
    eval_in(e, env, fuel) is Overflow || (eval_in(e, env, fuel) is Done && r(
        eval_in(e, env, fuel)->Done_0,
    ))
}

/// With some fuel, evaluation overflows or gives a value in `r`.
pub open spec fn has_settling_run(
    e: SpecExpr,
    env: Map<Seq<char>, SpecValue>,
    r: spec_fn(SpecValue) -> bool,
) -> bool {
    exists|fuel: nat| #[trigger] run_settles(e, env, r, fuel)
}

/// A closure maps every value in `ra` to an evaluation that, with some
/// fuel, overflows or gives a value in `rb`.
pub open spec fn closure_maps(
    p: Seq<char>,
    body: SpecExpr,
    cenv: Map<Seq<char>, SpecValue>,
    ra: spec_fn(SpecValue) -> bool,
    rb: spec_fn(SpecValue) -> bool,
) -> bool {
    forall|w: SpecValue| ra(w) ==> #[trigger] has_settling_run(body, cenv.insert(p, w), rb)
}

/// The values reducible at a type: integers at `Int`, booleans at `Bool`,
/// and at `A -> B` the closures that, applied to any value reducible at `A`,
/// overflow or give a value reducible at `B` with some fuel.
pub open spec fn reducible_values(t: Type) -> spec_fn(SpecValue) -> bool
    decreases t,
{
    match t {
        Type::Int => |v: SpecValue| v is Int,
        Type::Bool => |v: SpecValue| v is Bool,
        Type::Func(a, b) => {
            let ra = reducible_values(*a);
            let rb = reducible_values(*b);
            |v: SpecValue|
                match v {
                    SpecValue::Closure(p, body, cenv) => closure_maps(p, body, cenv, ra, rb),
                    _ => false,
                }
        },
    }
}

/// A value is reducible at a type.
pub open spec fn reducible(t: Type, v: SpecValue) -> bool {
    reducible_values(t)(v)
}

/// With this fuel, evaluation overflows or gives a value reducible at `t`.
pub open spec fn settles(
    e: SpecExpr,
    env: Map<Seq<char>, SpecValue>,
    t: Type,
    fuel: nat,
) -> bool {
    run_settles(e, env, reducible_values(t), fuel)
}

/// Every name that the typing environment binds is bound to a value
/// reducible at its type.
pub open spec fn env_reducible(venv: Map<Seq<char>, SpecValue>, g: Seq<(Seq<char>, Type)>) -> bool {
    forall|x: Seq<char>|
        #![trigger lookup_type(g, x)]
        lookup_type(g, x) is Some ==> venv.contains_key(x) && reducible(
            lookup_type(g, x)->Some_0,
            venv[x],
        )
}

proof fn lemma_env_reducible_extend(
    venv: Map<Seq<char>, SpecValue>,
    g: Seq<(Seq<char>, Type)>,
    x: Seq<char>,
    v: SpecValue,
    t: Type,
)
    requires
        env_reducible(venv, g),
        reducible(t, v),
    ensures
        env_reducible(venv.insert(x, v), g.push((x, t))),
{
    assert forall|y: Seq<char>|
        #![trigger lookup_type(g.push((x, t)), y)]
        lookup_type(g.push((x, t)), y) is Some implies venv.insert(x, v).contains_key(y)
        && reducible(lookup_type(g.push((x, t)), y)->Some_0, venv.insert(x, v)[y]) by {
        lemma_lookup_push(g, x, t, y);
        if y != x {
            assert(lookup_type(g, y) is Some);
        }
    }
}

/// What settles with some fuel settles the same way with more.
proof fn lemma_settles_more_fuel(
    e: SpecExpr,
    env: Map<Seq<char>, SpecValue>,
    t: Type,
    f1: nat,
    f2: nat,
)
    requires
        settles(e, env, t, f1),
        f1 <= f2,
    ensures
        settles(e, env, t, f2),
        eval_in(e, env, f2) == eval_in(e, env, f1),
{
    law_fuel_monotone(e, env, f1, f2);
}

pub open spec fn max_fuel(a: nat, b: nat) -> nat {
    if a <= b {
        b
    } else {
        a
    }
}

/// The fundamental property: an expression that has a type, evaluated under
/// an environment of reducible values, settles at its type with the fuel
/// returned.
proof fn lemma_normalize(
    e: SpecExpr,
    venv: Map<Seq<char>, SpecValue>,
    g: Seq<(Seq<char>, Type)>,
) -> (fuel: nat)
    requires
        type_in(e, g) is Ok,
        env_reducible(venv, g),
    ensures
        settles(e, venv, type_in(e, g)->Ok_0, fuel),
    decreases e,
{
    match e {
        SpecExpr::Int(_) => 1,
        SpecExpr::Bool(_) => 1,
        SpecExpr::Var(x) => {
            assert(lookup_type(g, x) is Some);
            1
        },
        SpecExpr::Let(x, v, b) => {
            let fv = lemma_normalize(*v, venv, g);
            if eval_in(*v, venv, fv) is Overflow {
                return fv + 1;
            }
            let val = eval_in(*v, venv, fv)->Done_0;
            let tv = type_in(*v, g)->Ok_0;
            lemma_env_reducible_extend(venv, g, x, val, tv);
            let fb = lemma_normalize(*b, venv.insert(x, val), g.push((x, tv)));
            let m = max_fuel(fv, fb);
            lemma_settles_more_fuel(*v, venv, tv, fv, m);
            lemma_settles_more_fuel(*b, venv.insert(x, val), type_in(e, g)->Ok_0, fb, m);
            m + 1
        },
        SpecExpr::If(c, t, el) => {
            let fc = lemma_normalize(*c, venv, g);
            if eval_in(*c, venv, fc) is Overflow {
                return fc + 1;
            }
            let ty = type_in(e, g)->Ok_0;
            let cv = eval_in(*c, venv, fc)->Done_0;
            if cv == SpecValue::Bool(true) {
                let ft = lemma_normalize(*t, venv, g);
                let m = max_fuel(fc, ft);
                lemma_settles_more_fuel(*c, venv, Type::Bool, fc, m);
                lemma_settles_more_fuel(*t, venv, ty, ft, m);
                m + 1
            } else {
                let fe = lemma_normalize(*el, venv, g);
                let m = max_fuel(fc, fe);
                lemma_settles_more_fuel(*c, venv, Type::Bool, fc, m);
                lemma_settles_more_fuel(*el, venv, ty, fe, m);
                m + 1
            }
        },
        SpecExpr::Lambda(x, ty, body) => {
            let tb = type_in(*body, g.push((x, ty)))->Ok_0;
            let ra = reducible_values(ty);
            let rb = reducible_values(tb);
            assert forall|w: SpecValue| ra(w) implies #[trigger] has_settling_run(
                *body,
                venv.insert(x, w),
                rb,
            ) by {
                assert(reducible(ty, w));
                lemma_env_reducible_extend(venv, g, x, w, ty);
                let fb = lemma_normalize(*body, venv.insert(x, w), g.push((x, ty)));
                assert(run_settles(*body, venv.insert(x, w), rb, fb));
            }
            assert(closure_maps(x, *body, venv, ra, rb));
            assert(reducible(Type::Func(Box::new(ty), Box::new(tb)), SpecValue::Closure(x, *body, venv)));
            1
        },
        SpecExpr::App(fe, ae) => {
            let tf = type_in(*fe, g)->Ok_0;
            let ty = type_in(e, g)->Ok_0;
            let ff = lemma_normalize(*fe, venv, g);
            if eval_in(*fe, venv, ff) is Overflow {
                return ff + 1;
            }
            let fa = lemma_normalize(*ae, venv, g);
            let ta = type_in(*ae, g)->Ok_0;
            let m1 = max_fuel(ff, fa);
            lemma_settles_more_fuel(*fe, venv, tf, ff, m1);
            if eval_in(*ae, venv, fa) is Overflow {
                lemma_settles_more_fuel(*ae, venv, ta, fa, m1);
                return m1 + 1;
            }
            lemma_settles_more_fuel(*ae, venv, ta, fa, m1);
            let fv = eval_in(*fe, venv, ff)->Done_0;
            let av = eval_in(*ae, venv, fa)->Done_0;
            match tf {
                Type::Func(pa, rb) => {
                    match fv {
                        SpecValue::Closure(p, body, cenv) => {
                            assert(reducible(*pa, av));
                            assert(closure_maps(p, body, cenv, reducible_values(*pa), reducible_values(*rb)));
                            assert(has_settling_run(body, cenv.insert(p, av), reducible_values(*rb)));
                            let fb = choose|fuel: nat| #[trigger] run_settles(
                                body,
                                cenv.insert(p, av),
                                reducible_values(*rb),
                                fuel,
                            );
                            assert(settles(body, cenv.insert(p, av), *rb, fb));
                            let m = max_fuel(m1, fb);
                            lemma_settles_more_fuel(*fe, venv, tf, m1, m);
                            lemma_settles_more_fuel(*ae, venv, ta, m1, m);
                            lemma_settles_more_fuel(body, cenv.insert(p, av), *rb, fb, m);
                            m + 1
                        },
                        _ => 0,
                    }
                },
                _ => 0,
            }
        },
        SpecExpr::BinOp(op, l, r) => {
            let tl = type_in(*l, g)->Ok_0;
            let tr = type_in(*r, g)->Ok_0;
            let fl = lemma_normalize(*l, venv, g);
            if eval_in(*l, venv, fl) is Overflow {
                return fl + 1;
            }
            let fr = lemma_normalize(*r, venv, g);
            let m = max_fuel(fl, fr);
            lemma_settles_more_fuel(*l, venv, tl, fl, m);
            lemma_settles_more_fuel(*r, venv, tr, fr, m);
            m + 1
        },
    }
}

/// A value of a type is reducible at that type.
proof fn lemma_typed_values_reducible(v: SpecValue, t: Type)
    requires
        value_has_type(v, t),
    ensures
        reducible(t, v),
    decreases v,
{
    if let SpecValue::Closure(p, body, cenv) = v {
        if let Type::Func(a, b) = t {
            let g = choose|g: Seq<(Seq<char>, Type)>|
                #![trigger type_in(body, g.push((p, *a)))]
                (forall|x: Seq<char>|
                    #![trigger lookup_type(g, x)]
                    lookup_type(g, x) is Some ==> cenv.contains_key(x) && value_has_type(
                        cenv[x],
                        lookup_type(g, x)->Some_0,
                    )) && type_in(body, g.push((p, *a))) == Ok::<Type, Seq<char>>(*b);
            assert forall|x: Seq<char>|
                #![trigger lookup_type(g, x)]
                lookup_type(g, x) is Some implies cenv.contains_key(x) && reducible(
                    lookup_type(g, x)->Some_0,
                    cenv[x],
                ) by {
                lemma_typed_values_reducible(cenv[x], lookup_type(g, x)->Some_0);
            }
            assert(env_reducible(cenv, g));
            let ra = reducible_values(*a);
            let rb = reducible_values(*b);
            assert forall|w: SpecValue| ra(w) implies #[trigger] has_settling_run(
                body,
                cenv.insert(p, w),
                rb,
            ) by {
                assert(reducible(*a, w));
                lemma_env_reducible_extend(cenv, g, p, w, *a);
                let fb = lemma_normalize(body, cenv.insert(p, w), g.push((p, *a)));
                assert(run_settles(body, cenv.insert(p, w), rb, fb));
            }
            assert(closure_maps(p, body, cenv, ra, rb));
        }
    }
}

/// Normalization in an environment: an expression that has a type in a
/// typing environment, evaluated under a value environment that fits it,
/// ends with some fuel in a value of its type or in an overflow; it never
/// runs forever and never fails.
pub proof fn law_normalization_in_env(
    e: SpecExpr,
    venv: Map<Seq<char>, SpecValue>,
    g: Seq<(Seq<char>, Type)>,
)
    requires
        type_in(e, g) is Ok,
        env_has_types(venv, g),
    ensures
        exists|fuel: nat|
            #![trigger eval_in(e, venv, fuel)]
            eval_in(e, venv, fuel) is Overflow || (eval_in(e, venv, fuel) is Done
                && value_has_type(eval_in(e, venv, fuel)->Done_0, type_in(e, g)->Ok_0)),
{
    assert forall|x: Seq<char>|
        #![trigger lookup_type(g, x)]
        lookup_type(g, x) is Some implies venv.contains_key(x) && reducible(
            lookup_type(g, x)->Some_0,
            venv[x],
        ) by {
        lemma_typed_values_reducible(venv[x], lookup_type(g, x)->Some_0);
    }
    let fuel = lemma_normalize(e, venv, g);
    law_sound_in_env(e, venv, g, fuel);
    assert(eval_in(e, venv, fuel) is Overflow || (eval_in(e, venv, fuel) is Done
        && value_has_type(eval_in(e, venv, fuel)->Done_0, type_in(e, g)->Ok_0)));
}

/// Normalization: the evaluation of a closed expression that type-checks
/// ends, with some fuel, in a value of its type or in an overflow; it never
/// runs forever.
pub proof fn law_normalization(e: SpecExpr)
    requires
        type_spec(e) is Ok,
    ensures
        exists|fuel: nat| #[trigger] settles(e, Map::empty(), type_spec(e)->Ok_0, fuel),
{
    assert(env_reducible(Map::empty(), Seq::empty()));
    let fuel = lemma_normalize(e, Map::empty(), Seq::empty());
    assert(settles(e, Map::empty(), type_spec(e)->Ok_0, fuel));
}

/// Type soundness for the interpreter: a closed expression that type-checks
/// and never overflows meets the precondition of `eval` and evaluates to a
/// value of its type.
pub proof fn law_typed_programs_evaluate(e: SpecExpr)
    requires
        type_spec(e) is Ok,
        !overflows(e),
    ensures
        evaluates(e),
        eval_spec(e) is Done,
        value_has_type(eval_spec(e)->Done_0, type_spec(e)->Ok_0),
{
    law_normalization(e);
    let fuel = choose|fuel: nat| #[trigger] settles(e, Map::empty(), type_spec(e)->Ok_0, fuel);
    assert(settles(e, Map::empty(), type_spec(e)->Ok_0, fuel));
    assert(!(eval_in(e, Map::empty(), fuel) is Overflow));
    assert(finishes(e, Map::empty(), fuel));
    law_eval_spec_any_fuel(e, fuel);
    law_preservation(e, fuel);
}

/// Boolean guards: an `if` has type `T` exactly when its condition has type
/// `Bool` and both branches have type `T`. Where all three have types, a
/// condition that is not `Bool` is refused first, then branches of
/// different types.
pub proof fn law_if_typing(
    c: SpecExpr,
    t: SpecExpr,
    el: SpecExpr,
    g: Seq<(Seq<char>, Type)>,
    ty: Type,
)
    ensures
        type_in(SpecExpr::If(Box::new(c), Box::new(t), Box::new(el)), g) == Ok::<Type, Seq<char>>(
            ty,
        ) <==> (type_in(c, g) == Ok::<Type, Seq<char>>(Type::Bool) && type_in(t, g) == Ok::<
            Type,
            Seq<char>,
        >(ty) && type_in(el, g) == Ok::<Type, Seq<char>>(ty)),
        type_in(c, g) is Ok && type_in(t, g) is Ok && type_in(el, g) is Ok ==> type_in(
            SpecExpr::If(Box::new(c), Box::new(t), Box::new(el)),
            g,
        ) == if type_in(c, g)->Ok_0 != Type::Bool {
            Err::<Type, Seq<char>>("condition must be Bool"@)
        } else if type_in(t, g)->Ok_0 != type_in(el, g)->Ok_0 {
            Err::<Type, Seq<char>>("branches must have the same type"@)
        } else {
            Ok::<Type, Seq<char>>(type_in(t, g)->Ok_0)
        },
{
}

/// Binary operators are type-directed: arithmetic takes two `Int`s and
/// gives `Int`, `<` takes two `Int`s and gives `Bool`, `==` takes two
/// operands of one type, whatever the type, and gives `Bool`; each other
/// case is refused with its message.
pub proof fn law_binop_typing(op: BinOp, l: SpecExpr, r: SpecExpr, g: Seq<(Seq<char>, Type)>)
    requires
        type_in(l, g) is Ok,
        type_in(r, g) is Ok,
    ensures
        ({
            let tl = type_in(l, g)->Ok_0;
            let tr = type_in(r, g)->Ok_0;
            type_in(SpecExpr::BinOp(op, Box::new(l), Box::new(r)), g) == match op {
                BinOp::Add | BinOp::Sub | BinOp::Mul => if tl == Type::Int && tr == Type::Int {
                    Ok::<Type, Seq<char>>(Type::Int)
                } else {
                    Err("arithmetic expects Int"@)
                },
                BinOp::Lt => if tl == Type::Int && tr == Type::Int {
                    Ok::<Type, Seq<char>>(Type::Bool)
                } else {
                    Err("comparison expects Int"@)
                },
                BinOp::Eq => if tl == tr {
                    Ok::<Type, Seq<char>>(Type::Bool)
                } else {
                    Err("equality expects matching types"@)
                },
            }
        }),
{
}

/// Application respects function types: `f x` has type `B` exactly when
/// `f : A -> B` and `x : A` for some `A`. Where both have types, calling a
/// non-function is refused, and so is an argument of another type than the
/// parameter's, with both types in the message.
pub proof fn law_app_typing(f: SpecExpr, x: SpecExpr, g: Seq<(Seq<char>, Type)>, ty: Type)
    ensures
        type_in(SpecExpr::App(Box::new(f), Box::new(x)), g) == Ok::<Type, Seq<char>>(ty) <==> (
        type_in(x, g) is Ok && type_in(f, g) == Ok::<Type, Seq<char>>(
            Type::Func(Box::new(type_in(x, g)->Ok_0), Box::new(ty)),
        )),
        type_in(f, g) is Ok && type_in(x, g) is Ok ==> type_in(
            SpecExpr::App(Box::new(f), Box::new(x)),
            g,
        ) == match type_in(f, g)->Ok_0 {
            Type::Func(p, r) => if *p == type_in(x, g)->Ok_0 {
                Ok::<Type, Seq<char>>(*r)
            } else {
                Err::<Type, Seq<char>>(mismatch_message(*p, type_in(x, g)->Ok_0))
            },
            _ => Err::<Type, Seq<char>>("attempted to call a non-function"@),
        },
{
}

/// Scoping: `let x = v in b` has type `T` exactly when `v` has some type
/// `A` and `b` has type `T` with `x : A` added, shadowing any earlier `x`;
/// a lambda `\x: A -> b` has type `A -> B` exactly when `b` has type `B`
/// with `x : A` added.
pub proof fn law_binding_typing(
    x: Seq<char>,
    v: SpecExpr,
    b: SpecExpr,
    a: Type,
    g: Seq<(Seq<char>, Type)>,
    ty: Type,
)
    ensures
        type_in(SpecExpr::Let(x, Box::new(v), Box::new(b)), g) == Ok::<Type, Seq<char>>(ty) <==> (
        type_in(v, g) is Ok && type_in(b, g.push((x, type_in(v, g)->Ok_0))) == Ok::<
            Type,
            Seq<char>,
        >(ty)),
        type_in(SpecExpr::Lambda(x, a, Box::new(b)), g) == Ok::<Type, Seq<char>>(
            Type::Func(Box::new(a), Box::new(ty)),
        ) <==> type_in(b, g.push((x, a))) == Ok::<Type, Seq<char>>(ty),
{
}


/// Literals and variables: an integer literal has type `Int`, a boolean
/// literal `Bool`; a variable has the type of its latest binding, and with
/// no binding it is refused as unbound.
pub proof fn law_atom_typing(
    n: i64,
    b: bool,
    x: Seq<char>,
    t: Type,
    g: Seq<(Seq<char>, Type)>,
)
    ensures
        type_in(SpecExpr::Int(n), g) == Ok::<Type, Seq<char>>(Type::Int),
        type_in(SpecExpr::Bool(b), g) == Ok::<Type, Seq<char>>(Type::Bool),
        type_in(SpecExpr::Var(x), g.push((x, t))) == Ok::<Type, Seq<char>>(t),
        type_in(SpecExpr::Var(x), Seq::<(Seq<char>, Type)>::empty()) == Err::<Type, Seq<char>>(
            "unbound variable "@ + x,
        ),
{
    lemma_lookup_push(g, x, t, x);
}

} // verus!
