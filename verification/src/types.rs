//! The static type checker.
use vstd::prelude::*;

use crate::ast::{type_text, BinOp, Expr, SpecExpr, Type};

verus! {

/// The error of the type checker.
#[derive(Debug, Clone, PartialEq, Eq)]
pub struct TypeError {
    pub message: String,
}

/// The type of the newest binding of `name` in a typing environment, where
/// later bindings shadow earlier ones.
pub open spec fn lookup_type(env: Seq<(Seq<char>, Type)>, name: Seq<char>) -> Option<Type>
    decreases env.len(),
{
    if env.len() == 0 {
        None
    } else if env.last().0 == name {
        Some(env.last().1)
    } else {
        lookup_type(env.drop_last(), name)
    }
}

pub open spec fn unbound_message(name: Seq<char>) -> Seq<char> {
    "unbound variable "@ + name
}

pub open spec fn mismatch_message(param: Type, arg: Type) -> Seq<char> {
    "function expected "@ + type_text(param) + " but argument was "@ + type_text(arg)
}

/// The type of `e` in the typing environment `env`, or the message of the
/// first error.
pub open spec fn type_in(e: SpecExpr, env: Seq<(Seq<char>, Type)>) -> Result<
    Type,
    Seq<char>,
>
    decreases e,
{
    match e {
        SpecExpr::Int(_) => Ok(Type::Int),
        SpecExpr::Bool(_) => Ok(Type::Bool),
        SpecExpr::Var(x) => match lookup_type(env, x) {
            Some(t) => Ok(t),
            None => Err(unbound_message(x)),
        },
        SpecExpr::Let(x, v, b) => match type_in(*v, env) {
            Err(m) => Err(m),
            Ok(tv) => type_in(*b, env.push((x, tv))),
        },
        SpecExpr::If(c, t, f) => match type_in(*c, env) {
            Err(m) => Err(m),
            Ok(tc) => if tc != Type::Bool {
                Err("condition must be Bool"@)
            } else {
                match type_in(*t, env) {
                    Err(m) => Err(m),
                    Ok(tt) => match type_in(*f, env) {
                        Err(m) => Err(m),
                        Ok(tf) => if tt != tf {
                            Err("branches must have the same type"@)
                        } else {
                            Ok(tt)
                        },
                    },
                }
            },
        },
        SpecExpr::Lambda(x, ty, body) => match type_in(*body, env.push((x, ty))) {
            Err(m) => Err(m),
            Ok(tb) => Ok(Type::Func(Box::new(ty), Box::new(tb))),
        },
        SpecExpr::App(f, a) => match type_in(*f, env) {
            Err(m) => Err(m),
            Ok(tf) => match type_in(*a, env) {
                Err(m) => Err(m),
                Ok(ta) => match tf {
                    Type::Func(p, r) => if *p != ta {
                        Err(mismatch_message(*p, ta))
                    } else {
                        Ok(*r)
                    },
                    _ => Err("attempted to call a non-function"@),
                },
            },
        },
        SpecExpr::BinOp(op, l, r) => match type_in(*l, env) {
            Err(m) => Err(m),
            Ok(tl) => match type_in(*r, env) {
                Err(m) => Err(m),
                Ok(tr) => match op {
                    BinOp::Add | BinOp::Sub | BinOp::Mul => if tl != Type::Int || tr != Type::Int {
                        Err("arithmetic expects Int"@)
                    } else {
                        Ok(Type::Int)
                    },
                    BinOp::Eq => if tl != tr {
                        Err("equality expects matching types"@)
                    } else {
                        Ok(Type::Bool)
                    },
                    BinOp::Lt => if tl != Type::Int || tr != Type::Int {
                        Err("comparison expects Int"@)
                    } else {
                        Ok(Type::Bool)
                    },
                },
            },
        },
    }
}

/// The type of a closed expression, or the message of the first error.
pub open spec fn type_spec(e: SpecExpr) -> Result<Type, Seq<char>> {
    type_in(e, Seq::empty())
}

/// The model of a typing environment.
pub open spec fn type_env_model(env: Seq<(String, Type)>) -> Seq<(Seq<char>, Type)> {
    env.map_values(|b: (String, Type)| (b.0@, b.1))
}

/// Bindings after position `i` that do not bind `name` leave its lookup
/// to the bindings before `i`.
proof fn lemma_lookup_prefix(env: Seq<(Seq<char>, Type)>, i: int, name: Seq<char>)
    requires
        0 <= i <= env.len(),
        forall|k: int| i <= k < env.len() ==> (#[trigger] env[k]).0 != name,
    ensures
        lookup_type(env, name) == lookup_type(env.take(i), name),
    decreases env.len(),
{
    if i < env.len() {
        lemma_lookup_prefix(env.drop_last(), i, name);
        assert(env.drop_last().take(i) =~= env.take(i));
    } else {
        assert(env.take(i) =~= env);
    }
}

/// The newest binding of `name`, copied.
fn lookup_binding(env: &Vec<(String, Type)>, name: &String) -> (r: Option<Type>)
    ensures
        r == lookup_type(type_env_model(env@), name@),
{
    let ghost model = type_env_model(env@);
    let mut i = env.len();
    while i > 0
        invariant
            i <= env@.len(),
            model == type_env_model(env@),
            forall|k: int| i <= k < env@.len() ==> (#[trigger] model[k]).0 != name@,
        decreases i,
    {
        i = i - 1;
        if env[i].0 == *name {
            proof {
                lemma_lookup_prefix(model, i + 1, name@);
                assert(model.take(i + 1).last() == model[i as int]);
            }
            return Some(env[i].1.copy());
        }
    }
    proof {
        lemma_lookup_prefix(model, 0, name@);
    }
    None
}

/// The outcome of the checker against its model.
pub open spec fn type_outcome(r: Result<Type, TypeError>, expected: Result<Type, Seq<char>>) -> bool {
    match r {
        Ok(t) => expected == Ok::<Type, Seq<char>>(t),
        Err(e) => expected == Err::<Type, Seq<char>>(e.message@),
    }
}

/// Computes the type of a closed expression: `Int`, `Bool`, or a function
/// type, or fails with the message of the first type error.
pub fn type_of(expr: &Expr) -> (r: Result<Type, TypeError>)
    ensures
        type_outcome(r, type_spec(expr@)),
{
    let mut env: Vec<(String, Type)> = Vec::new();
    assert(type_env_model(env@) =~= Seq::<(Seq<char>, Type)>::empty());
    type_of_with_env(expr, &mut env)
}

fn type_of_with_env(expr: &Expr, env: &mut Vec<(String, Type)>) -> (r: Result<Type, TypeError>)
    ensures
        final(env)@ == old(env)@,
        type_outcome(r, type_in(expr@, type_env_model(old(env)@))),
    decreases expr,
{
    let ghost tenv = type_env_model(env@);
    match expr {
        Expr::Int(_) => Ok(Type::Int),
        Expr::Bool(_) => Ok(Type::Bool),
        Expr::Var(name) => match lookup_binding(env, name) {
            Some(t) => Ok(t),
            None => {
                let message = String::from_str("unbound variable ").concat(name.as_str());
                Err(TypeError { message })
            },
        },
        Expr::Let(name, value, body) => {
            let value_ty = match type_of_with_env(value, env) {
                Ok(t) => t,
                Err(e) => return Err(e),
            };
            let ghost bound = (name@, value_ty);
            env.push((name.clone(), value_ty));
            assert(type_env_model(env@) =~= tenv.push(bound));
            let result = type_of_with_env(body, env);
            let _ = env.pop();
            assert(env@ =~= old(env)@);
            result
        },
        Expr::If(cond, then_branch, else_branch) => {
            let cond_ty = match type_of_with_env(cond, env) {
                Ok(t) => t,
                Err(e) => return Err(e),
            };
            if !cond_ty.same_as(&Type::Bool) {
                return Err(TypeError { message: String::from_str("condition must be Bool") });
            }
            let then_ty = match type_of_with_env(then_branch, env) {
                Ok(t) => t,
                Err(e) => return Err(e),
            };
            let else_ty = match type_of_with_env(else_branch, env) {
                Ok(t) => t,
                Err(e) => return Err(e),
            };
            if !then_ty.same_as(&else_ty) {
                return Err(
                    TypeError { message: String::from_str("branches must have the same type") },
                );
            }
            Ok(then_ty)
        },
        Expr::Lambda { param, param_type, body } => {
            let ghost bound = (param@, *param_type);
            env.push((param.clone(), param_type.copy()));
            assert(type_env_model(env@) =~= tenv.push(bound));
            let body_ty = type_of_with_env(body, env);
            let _ = env.pop();
            assert(env@ =~= old(env)@);
            match body_ty {
                Ok(t) => Ok(Type::Func(Box::new(param_type.copy()), Box::new(t))),
                Err(e) => Err(e),
            }
        },
        Expr::App(callee, arg) => {
            let callee_ty = match type_of_with_env(callee, env) {
                Ok(t) => t,
                Err(e) => return Err(e),
            };
            let arg_ty = match type_of_with_env(arg, env) {
                Ok(t) => t,
                Err(e) => return Err(e),
            };
            match callee_ty {
                Type::Func(param_ty, ret_ty) => {
                    if !param_ty.same_as(&arg_ty) {
                        let message = String::from_str("function expected ");
                        let message = message.concat(param_ty.to_text().as_str());
                        let message = message.concat(" but argument was ");
                        let message = message.concat(arg_ty.to_text().as_str());
                        return Err(TypeError { message });
                    }
                    Ok(*ret_ty)
                },
                _ => Err(TypeError { message: String::from_str("attempted to call a non-function") }),
            }
        },
        Expr::BinOp(op, lhs, rhs) => {
            let lhs_ty = match type_of_with_env(lhs, env) {
                Ok(t) => t,
                Err(e) => return Err(e),
            };
            let rhs_ty = match type_of_with_env(rhs, env) {
                Ok(t) => t,
                Err(e) => return Err(e),
            };
            match op {
                BinOp::Add | BinOp::Sub | BinOp::Mul => {
                    if !lhs_ty.same_as(&Type::Int) || !rhs_ty.same_as(&Type::Int) {
                        return Err(TypeError { message: String::from_str("arithmetic expects Int") });
                    }
                    Ok(Type::Int)
                },
                BinOp::Eq => {
                    if !lhs_ty.same_as(&rhs_ty) {
                        return Err(
                            TypeError { message: String::from_str("equality expects matching types") },
                        );
                    }
                    Ok(Type::Bool)
                },
                BinOp::Lt => {
                    if !lhs_ty.same_as(&Type::Int) || !rhs_ty.same_as(&Type::Int) {
                        return Err(TypeError { message: String::from_str("comparison expects Int") });
                    }
                    Ok(Type::Bool)
                },
            }
        },
    }
}

/// Whether `x` occurs free in `e`: outside the body of a lambda or `let`
/// that binds `x` (a `let`'s bound value is outside its scope).
pub open spec fn occurs_free(x: Seq<char>, e: SpecExpr) -> bool
    decreases e,
{
    match e {
        SpecExpr::Int(_) => false,
        SpecExpr::Bool(_) => false,
        SpecExpr::Var(y) => y == x,
        SpecExpr::Let(y, v, b) => occurs_free(x, *v) || (y != x && occurs_free(x, *b)),
        SpecExpr::If(c, t, f) => occurs_free(x, *c) || occurs_free(x, *t) || occurs_free(x, *f),
        SpecExpr::Lambda(y, _, b) => y != x && occurs_free(x, *b),
        SpecExpr::App(f, a) => occurs_free(x, *f) || occurs_free(x, *a),
        SpecExpr::BinOp(_, l, r) => occurs_free(x, *l) || occurs_free(x, *r),
    }
}

proof fn lemma_lookup_after_push(g: Seq<(Seq<char>, Type)>, y: Seq<char>, t: Type, z: Seq<char>)
    ensures
        lookup_type(g.push((y, t)), z) == (if z == y {
            Some(t)
        } else {
            lookup_type(g, z)
        }),
{
    assert(g.push((y, t)).drop_last() =~= g);
}

/// Typing depends only on the free variables: two typing environments that
/// give the same type to every variable free in `e` give `e` the same
/// result, type or error.
pub proof fn law_typing_depends_on_free_variables(
    e: SpecExpr,
    g: Seq<(Seq<char>, Type)>,
    h: Seq<(Seq<char>, Type)>,
)
    requires
        forall|z: Seq<char>| #[trigger] occurs_free(z, e) ==> lookup_type(g, z) == lookup_type(h, z),
    ensures
        type_in(e, g) == type_in(e, h),
    decreases e,
{
    match e {
        SpecExpr::Var(x) => {
            assert(occurs_free(x, e));
        },
        SpecExpr::Let(y, v, b) => {
            assert forall|z: Seq<char>| #[trigger] occurs_free(z, *v) implies lookup_type(g, z)
                == lookup_type(h, z) by {
                assert(occurs_free(z, e));
            }
            law_typing_depends_on_free_variables(*v, g, h);
            if let Ok(tv) = type_in(*v, g) {
                assert forall|z: Seq<char>| #[trigger] occurs_free(z, *b) implies lookup_type(
                    g.push((y, tv)),
                    z,
                ) == lookup_type(h.push((y, tv)), z) by {
                    lemma_lookup_after_push(g, y, tv, z);
                    lemma_lookup_after_push(h, y, tv, z);
                    if z != y {
                        assert(occurs_free(z, e));
                    }
                }
                law_typing_depends_on_free_variables(*b, g.push((y, tv)), h.push((y, tv)));
            }
        },
        SpecExpr::If(c, t, f) => {
            assert forall|z: Seq<char>| #[trigger] occurs_free(z, *c) implies lookup_type(g, z)
                == lookup_type(h, z) by {
                assert(occurs_free(z, e));
            }
            law_typing_depends_on_free_variables(*c, g, h);
            assert forall|z: Seq<char>| #[trigger] occurs_free(z, *t) implies lookup_type(g, z)
                == lookup_type(h, z) by {
                assert(occurs_free(z, e));
            }
            law_typing_depends_on_free_variables(*t, g, h);
            assert forall|z: Seq<char>| #[trigger] occurs_free(z, *f) implies lookup_type(g, z)
                == lookup_type(h, z) by {
                assert(occurs_free(z, e));
            }
            law_typing_depends_on_free_variables(*f, g, h);
        },
        SpecExpr::Lambda(y, ty, b) => {
            assert forall|z: Seq<char>| #[trigger] occurs_free(z, *b) implies lookup_type(
                g.push((y, ty)),
                z,
            ) == lookup_type(h.push((y, ty)), z) by {
                lemma_lookup_after_push(g, y, ty, z);
                lemma_lookup_after_push(h, y, ty, z);
                if z != y {
                    assert(occurs_free(z, e));
                }
            }
            law_typing_depends_on_free_variables(*b, g.push((y, ty)), h.push((y, ty)));
        },
        SpecExpr::App(f, a) => {
            assert forall|z: Seq<char>| #[trigger] occurs_free(z, *f) implies lookup_type(g, z)
                == lookup_type(h, z) by {
                assert(occurs_free(z, e));
            }
            law_typing_depends_on_free_variables(*f, g, h);
            assert forall|z: Seq<char>| #[trigger] occurs_free(z, *a) implies lookup_type(g, z)
                == lookup_type(h, z) by {
                assert(occurs_free(z, e));
            }
            law_typing_depends_on_free_variables(*a, g, h);
        },
        SpecExpr::BinOp(_, l, r) => {
            assert forall|z: Seq<char>| #[trigger] occurs_free(z, *l) implies lookup_type(g, z)
                == lookup_type(h, z) by {
                assert(occurs_free(z, e));
            }
            law_typing_depends_on_free_variables(*l, g, h);
            assert forall|z: Seq<char>| #[trigger] occurs_free(z, *r) implies lookup_type(g, z)
                == lookup_type(h, z) by {
                assert(occurs_free(z, e));
            }
            law_typing_depends_on_free_variables(*r, g, h);
        },
        _ => {},
    }
}

/// Binding a name that does not occur free in `e` leaves its typing
/// unchanged, type or error.
pub proof fn law_unused_binding(e: SpecExpr, g: Seq<(Seq<char>, Type)>, x: Seq<char>, a: Type)
    requires
        !occurs_free(x, e),
    ensures
        type_in(e, g.push((x, a))) == type_in(e, g),
{
    assert forall|z: Seq<char>| #[trigger] occurs_free(z, e) implies lookup_type(g.push((x, a)), z)
        == lookup_type(g, z) by {
        lemma_lookup_after_push(g, x, a, z);
    }
    law_typing_depends_on_free_variables(e, g.push((x, a)), g);
}

} // verus!
