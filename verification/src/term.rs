//! The term representation: the executable tree and its mathematical model.

use vstd::prelude::*;

verus! {

/// The mathematical model of a λ-term: names are character sequences and
/// identifiers are unbounded integers. Contracts throughout the crate speak
/// of this type; [`LambdaExpr`] is its executable counterpart.
pub enum TermV {
    /// The empty term.
    Nothing,
    /// A variable occurrence: name and binder identifier (0 when unbound).
    Variable(Seq<char>, int),
    /// An application of the first term to the second.
    Call(Box<TermV>, Box<TermV>),
    /// An abstraction: parameter name, binder identifier, body.
    Lambda(Seq<char>, int, Box<TermV>),
}

/// A λ-calculus expression.
///
/// Every node exclusively owns its children; rewrite passes consume their
/// input and build a fresh tree.
#[derive(PartialEq, Eq, Debug)]
pub enum LambdaExpr {
    /// An empty λ-calculus expression: an empty program, or an empty
    /// lambda body.
    Nothing,
    /// A variable (bound or unbound).
    ///
    /// The integer field is the internal identifier assigned during
    /// α-renaming; it is 0 for unbound variables.
    Variable(String, i16),
    /// An expression called with another expression.
    Call(Box<LambdaExpr>, Box<LambdaExpr>),
    /// An anonymous function (lambda).
    ///
    /// The integer field is the internal identifier of the parameter,
    /// assigned during α-renaming.
    Lambda(String, i16, Box<LambdaExpr>),
}

/// The model of an executable term: the same tree with names read as
/// character sequences and identifiers widened to `int`.
pub open spec fn term_view(t: LambdaExpr) -> TermV
    decreases t,
{
    match t {
        LambdaExpr::Nothing => TermV::Nothing,
        LambdaExpr::Variable(name, id) => TermV::Variable(name@, id as int),
        LambdaExpr::Call(a, b) => TermV::Call(Box::new(term_view(*a)), Box::new(term_view(*b))),
        LambdaExpr::Lambda(name, id, e) => TermV::Lambda(name@, id as int, Box::new(term_view(*e))),
    }
}

impl View for LambdaExpr {
    type V = TermV;

    open spec fn view(&self) -> TermV {
        term_view(*self)
    }
}

/// The number of nodes of a term.
pub open spec fn term_size(t: TermV) -> nat
    decreases t,
{
    match t {
        TermV::Nothing => 1,
        TermV::Variable(_, _) => 1,
        TermV::Call(a, b) => 1 + term_size(*a) + term_size(*b),
        TermV::Lambda(_, _, e) => 1 + term_size(*e),
    }
}

/// The number of `Lambda` nodes of a term: exactly how many fresh
/// identifiers an α-renaming pass over it consumes.
pub open spec fn lambda_count(t: TermV) -> nat
    decreases t,
{
    match t {
        TermV::Nothing => 0,
        TermV::Variable(_, _) => 0,
        TermV::Call(a, b) => lambda_count(*a) + lambda_count(*b),
        TermV::Lambda(_, _, e) => 1 + lambda_count(*e),
    }
}

impl LambdaExpr {
    /// Structural equality: variant tag, name, identifier and children all
    /// compared recursively.
    pub fn equals(&self, other: &LambdaExpr) -> (r: bool)
        ensures
            r == (self@ == other@),
        decreases self,
    {
        match (self, other) {
            (LambdaExpr::Nothing, LambdaExpr::Nothing) => true,
            (LambdaExpr::Variable(n1, i1), LambdaExpr::Variable(n2, i2)) => {
                *i1 == *i2 && n1.eq(n2)
            },
            (LambdaExpr::Call(a1, b1), LambdaExpr::Call(a2, b2)) => {
                a1.equals(a2) && b1.equals(b2)
            },
            (LambdaExpr::Lambda(n1, i1, e1), LambdaExpr::Lambda(n2, i2, e2)) => {
                *i1 == *i2 && n1.eq(n2) && e1.equals(e2)
            },
            _ => false,
        }
    }
}

impl Clone for LambdaExpr {
    /// An exact copy: the clone models the same term.
    fn clone(&self) -> (r: Self)
        ensures
            r@ == self@,
        decreases self,
    {
        match self {
            LambdaExpr::Nothing => LambdaExpr::Nothing,
            LambdaExpr::Variable(n, i) => LambdaExpr::Variable(n.clone(), *i),
            LambdaExpr::Call(a, b) => {
                LambdaExpr::Call(Box::new((**a).clone()), Box::new((**b).clone()))
            },
            LambdaExpr::Lambda(n, i, e) => {
                LambdaExpr::Lambda(n.clone(), *i, Box::new((**e).clone()))
            },
        }
    }
}

} // verus!

