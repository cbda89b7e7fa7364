//! Abstract syntax of TinyLanguage: types, operators and expressions,
//! with their mathematical models.
use vstd::prelude::*;

verus! {

/// Binary operators of the language.
#[derive(Clone, Copy, Debug, PartialEq, Eq, Structural)]
pub enum BinOp {
    Add,
    Sub,
    Mul,
    Eq,
    Lt,
}

/// Types: `Int`, `Bool` and function types `A -> B`.
#[derive(Debug, PartialEq, Eq)]
pub enum Type {
    Int,
    Bool,
    Func(Box<Type>, Box<Type>),
}

/// Expressions of the language.
#[derive(Debug, PartialEq, Eq)]
pub enum Expr {
    Int(i64),
    Bool(bool),
    Var(String),
    Let(String, Box<Expr>, Box<Expr>),
    If(Box<Expr>, Box<Expr>, Box<Expr>),
    Lambda { param: String, param_type: Type, body: Box<Expr> },
    App(Box<Expr>, Box<Expr>),
    BinOp(BinOp, Box<Expr>, Box<Expr>),
}

/// The mathematical model of an expression: names are character sequences.
pub enum SpecExpr {
    Int(i64),
    Bool(bool),
    Var(Seq<char>),
    Let(Seq<char>, Box<SpecExpr>, Box<SpecExpr>),
    If(Box<SpecExpr>, Box<SpecExpr>, Box<SpecExpr>),
    Lambda(Seq<char>, Type, Box<SpecExpr>),
    App(Box<SpecExpr>, Box<SpecExpr>),
    BinOp(BinOp, Box<SpecExpr>, Box<SpecExpr>),
}

/// The model of an expression.
pub open spec fn expr_model(e: Expr) -> SpecExpr
    decreases e,
{
    match e {
        Expr::Int(n) => SpecExpr::Int(n),
        Expr::Bool(b) => SpecExpr::Bool(b),
        Expr::Var(x) => SpecExpr::Var(x@),
        Expr::Let(x, v, b) => SpecExpr::Let(
            x@,
            Box::new(expr_model(*v)),
            Box::new(expr_model(*b)),
        ),
        Expr::If(c, t, f) => SpecExpr::If(
            Box::new(expr_model(*c)),
            Box::new(expr_model(*t)),
            Box::new(expr_model(*f)),
        ),
        Expr::Lambda { param, param_type, body } => SpecExpr::Lambda(
            param@,
            param_type,
            Box::new(expr_model(*body)),
        ),
        Expr::App(f, a) => SpecExpr::App(Box::new(expr_model(*f)), Box::new(expr_model(*a))),
        Expr::BinOp(op, l, r) => SpecExpr::BinOp(
            op,
            Box::new(expr_model(*l)),
            Box::new(expr_model(*r)),
        ),
    }
}

impl View for Expr {
    type V = SpecExpr;

    open spec fn view(&self) -> SpecExpr {
        expr_model(*self)
    }
}

/// The text by which a type is written in messages: `Int`, `Bool`, `(A -> B)`.
pub open spec fn type_text(t: Type) -> Seq<char>
    decreases t,
{
    match t {
        Type::Int => "Int"@,
        Type::Bool => "Bool"@,
        Type::Func(a, b) => "("@ + type_text(*a) + " -> "@ + type_text(*b) + ")"@,
    }
}

impl Type {
    /// A copy of the type.
    pub fn copy(&self) -> (r: Type)
        ensures
            r == *self,
        decreases self,
    {
        match self {
            Type::Int => Type::Int,
            Type::Bool => Type::Bool,
            Type::Func(a, b) => Type::Func(Box::new(a.copy()), Box::new(b.copy())),
        }
    }

    /// Whether two types are the same.
    pub fn same_as(&self, other: &Type) -> (r: bool)
        ensures
            r == (*self == *other),
        decreases self,
    {
        match (self, other) {
            (Type::Int, Type::Int) => true,
            (Type::Bool, Type::Bool) => true,
            (Type::Func(a1, b1), Type::Func(a2, b2)) => {
                let same_param = a1.same_as(a2);
                if !same_param {
                    return false;
                }
                b1.same_as(b2)
            },
            _ => false,
        }
    }

    /// The text of the type, as error messages show it.
    pub fn to_text(&self) -> (r: String)
        ensures
            r@ == type_text(*self),
        decreases self,
    {
        match self {
            Type::Int => String::from_str("Int"),
            Type::Bool => String::from_str("Bool"),
            Type::Func(a, b) => {
                let ta = a.to_text();
                let tb = b.to_text();
                let s = String::from_str("(");
                let s = s.concat(ta.as_str());
                let s = s.concat(" -> ");
                let s = s.concat(tb.as_str());
                s.concat(")")
            },
        }
    }
}

impl Expr {
    /// A copy of the expression.
    pub fn copy(&self) -> (r: Expr)
        ensures
            r == *self,
        decreases self,
    {
        match self {
            Expr::Int(n) => Expr::Int(*n),
            Expr::Bool(b) => Expr::Bool(*b),
            Expr::Var(x) => Expr::Var(x.clone()),
            Expr::Let(x, v, b) => Expr::Let(x.clone(), Box::new(v.copy()), Box::new(b.copy())),
            Expr::If(c, t, f) => Expr::If(
                Box::new(c.copy()),
                Box::new(t.copy()),
                Box::new(f.copy()),
            ),
            Expr::Lambda { param, param_type, body } => Expr::Lambda {
                param: param.clone(),
                param_type: param_type.copy(),
                body: Box::new(body.copy()),
            },
            Expr::App(f, a) => Expr::App(Box::new(f.copy()), Box::new(a.copy())),
            Expr::BinOp(op, l, r) => Expr::BinOp(*op, Box::new(l.copy()), Box::new(r.copy())),
        }
    }
}

impl Clone for Type {
    fn clone(&self) -> (r: Type)
        ensures
            r == *self,
    {
        self.copy()
    }
}

impl Clone for Expr {
    fn clone(&self) -> (r: Expr)
        ensures
            r == *self,
    {
        self.copy()
    }
}

} // verus!
