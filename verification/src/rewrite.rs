//! The reduction engine: α-renaming, β-reduction, η-conversion and the
//! fixed-point driver, together with the laws they obey.

use vstd::prelude::*;

use crate::term::{lambda_count, term_size, LambdaExpr, TermV};

verus! {

// ---------------------------------------------------------------------------
// Specification of the rewrite passes
// ---------------------------------------------------------------------------

/// Replace every variable occurrence called `name`, whatever its identifier,
/// by the same name carrying identifier `n` — everywhere in the term,
/// bodies of nested binders of the same name included.
pub open spec fn mark_term(t: TermV, name: Seq<char>, n: int) -> TermV
    decreases t,
{
    match t {
        TermV::Nothing => TermV::Nothing,
        TermV::Variable(name2, id) => {
            if name2 == name {
                TermV::Variable(name, n)
            } else {
                TermV::Variable(name2, id)
            }
        },
        TermV::Call(a, b) => {
            TermV::Call(Box::new(mark_term(*a, name, n)), Box::new(mark_term(*b, name, n)))
        },
        TermV::Lambda(name2, id, e) => TermV::Lambda(name2, id, Box::new(mark_term(*e, name, n))),
    }
}

/// Replace every occurrence of the variable `(name, id)` — name and
/// identifier both matching — by `arg`.
pub open spec fn subst_term(t: TermV, name: Seq<char>, id: int, arg: TermV) -> TermV
    decreases t,
{
    match t {
        TermV::Nothing => TermV::Nothing,
        TermV::Variable(name2, id2) => {
            if name2 == name && id2 == id {
                arg
            } else {
                TermV::Variable(name2, id2)
            }
        },
        TermV::Call(a, b) => {
            TermV::Call(
                Box::new(subst_term(*a, name, id, arg)),
                Box::new(subst_term(*b, name, id, arg)),
            )
        },
        TermV::Lambda(name2, id2, e) => {
            TermV::Lambda(name2, id2, Box::new(subst_term(*e, name, id, arg)))
        },
    }
}

/// Marking a name neither adds nor removes nodes, and leaves every binder in
/// place: sizes and `Lambda` counts are unchanged.
pub proof fn lemma_mark_preserves(t: TermV, name: Seq<char>, n: int)
    ensures
        term_size(mark_term(t, name, n)) == term_size(t),
        lambda_count(mark_term(t, name, n)) == lambda_count(t),
    decreases t,
{
    match t {
        TermV::Call(a, b) => {
            lemma_mark_preserves(*a, name, n);
            lemma_mark_preserves(*b, name, n);
        },
        TermV::Lambda(_, _, e) => {
            lemma_mark_preserves(*e, name, n);
        },
        _ => {},
    }
}

/// One α-renaming pass with the counter starting at `n`: the renamed term
/// and the counter value after it. At each `Lambda`, every occurrence of its
/// parameter name in the body is first marked with the current counter
/// value, the `Lambda` itself takes that value, and the body is then renamed
/// with the next one; `Call` threads the counter left to right.
pub open spec fn alpha_term(t: TermV, n: int) -> (TermV, int)
    decreases term_size(t),
        via alpha_term_decreases
{
    match t {
        TermV::Lambda(name, _, e) => {
            let marked = mark_term(*e, name, n);
            let r = alpha_term(marked, n + 1);
            (TermV::Lambda(name, n, Box::new(r.0)), r.1)
        },
        TermV::Call(a, b) => {
            let ra = alpha_term(*a, n);
            let rb = alpha_term(*b, ra.1);
            (TermV::Call(Box::new(ra.0), Box::new(rb.0)), rb.1)
        },
        _ => (t, n),
    }
}

#[via_fn]
proof fn alpha_term_decreases(t: TermV, n: int) {
    match t {
        TermV::Lambda(name, _, e) => {
            lemma_mark_preserves(*e, name, n);
        },
        _ => {},
    }
}

/// The α-renaming counter moves past exactly one fresh identifier per
/// `Lambda` node.
pub proof fn lemma_alpha_counter(t: TermV, n: int)
    ensures
        alpha_term(t, n).1 == n + lambda_count(t),
    decreases term_size(t),
{
    match t {
        TermV::Lambda(name, _, e) => {
            lemma_mark_preserves(*e, name, n);
            lemma_alpha_counter(mark_term(*e, name, n), n + 1);
        },
        TermV::Call(a, b) => {
            lemma_alpha_counter(*a, n);
            lemma_alpha_counter(*b, alpha_term(*a, n).1);
        },
        _ => {},
    }
}

/// α-renaming of a whole term: the pass of [`alpha_term`] with the counter
/// starting at 1.
pub open spec fn alpha_renamed(t: TermV) -> TermV {
    alpha_term(t, 1).0
}

/// One β-reduction pass: wherever an `Application` has an `Abstraction` as
/// its function, the abstraction's body is first β-reduced, and then every
/// occurrence of the parameter in it is replaced by the (unreduced)
/// argument; other nodes recurse into their children.
pub open spec fn beta_term(t: TermV) -> TermV
    decreases t,
{
    match t {
        TermV::Call(f, arg) => match *f {
            TermV::Lambda(name, id, e) => subst_term(beta_term(*e), name, id, *arg),
            _ => TermV::Call(Box::new(beta_term(*f)), Box::new(beta_term(*arg))),
        },
        TermV::Lambda(name, id, e) => TermV::Lambda(name, id, Box::new(beta_term(*e))),
        _ => t,
    }
}

/// One η-conversion pass: `Lambda(x, i, Call(f, Variable(x, i)))` rewrites
/// to `f`; a `Lambda` whose body is a `Call` of some term on a
/// non-matching variable is left as it stands; every other node recurses
/// into its children.
pub open spec fn eta_term(t: TermV) -> TermV
    decreases t,
{
    match t {
        TermV::Lambda(name, id, e) => match *e {
            TermV::Call(f, a) => match *a {
                TermV::Variable(name2, id2) => {
                    if name2 == name && id2 == id {
                        *f
                    } else {
                        TermV::Lambda(name, id, e)
                    }
                },
                _ => TermV::Lambda(name, id, Box::new(eta_term(*e))),
            },
            _ => TermV::Lambda(name, id, Box::new(eta_term(*e))),
        },
        TermV::Call(a, b) => TermV::Call(Box::new(eta_term(*a)), Box::new(eta_term(*b))),
        _ => t,
    }
}

/// One step of the reduction driver: a β-reduction pass while it still
/// changes the term; once β is at a fixed point, an η-conversion pass. A
/// term both passes leave unchanged is a fixed point of the driver.
pub open spec fn step_term(t: TermV) -> TermV {
    if beta_term(t) != t {
        beta_term(t)
    } else {
        eta_term(t)
    }
}

/// `k` successive driver steps.
pub open spec fn iter_step(t: TermV, k: nat) -> TermV
    decreases k,
{
    if k == 0 {
        t
    } else {
        step_term(iter_step(t, (k - 1) as nat))
    }
}

/// A term that neither a β-reduction pass nor an η-conversion pass
/// changes: here the driver stops.
pub open spec fn is_normal_form(t: TermV) -> bool {
    beta_term(t) == t && eta_term(t) == t
}

/// The reduction driver reaches a fixed point on this term: after
/// α-renaming, some number of driver steps lands on a term that β and η
/// both leave unchanged. On terms without this property — a fixed-point
/// combinator applied to anything — the reduction loop runs forever, as
/// the calculus demands.
pub open spec fn normalizes(t: TermV) -> bool {
    exists|k: nat| is_normal_form(iter_step(alpha_renamed(t), k))
}

/// What `reduce` returns: the first fixed point of the driver steps after
/// one α-renaming. There is at most one such term
/// ([`lemma_reduce_deterministic`]).
pub open spec fn reduces_to(t: TermV, r: TermV) -> bool {
    &&& is_normal_form(r)
    &&& exists|k: nat| r == iter_step(alpha_renamed(t), k)
}

/// Once a driver step leaves the `k`-th iterate unchanged, every later
/// iterate is that same term.
pub proof fn lemma_fixpoint_stays(a: TermV, k: nat, j: nat)
    requires
        is_normal_form(iter_step(a, k)),
        k <= j,
    ensures
        iter_step(a, j) == iter_step(a, k),
    decreases j,
{
    if j > k {
        lemma_fixpoint_stays(a, k, (j - 1) as nat);
    }
}

/// The reduction relation is a partial function: a term reduces to at most
/// one result.
pub proof fn lemma_reduce_deterministic(t: TermV, r1: TermV, r2: TermV)
    requires
        reduces_to(t, r1),
        reduces_to(t, r2),
    ensures
        r1 == r2,
{
    let a = alpha_renamed(t);
    let k1 = choose|k: nat| r1 == iter_step(a, k);
    let k2 = choose|k: nat| r2 == iter_step(a, k);
    if k1 <= k2 {
        lemma_fixpoint_stays(a, k1, k2);
    } else {
        lemma_fixpoint_stays(a, k2, k1);
    }
}

/// Idempotence of reduction: whatever reducing the result again returns is
/// the result itself, provided the result is left unchanged by a fresh
/// α-renaming pass. (Without that proviso the law can fail: β-reduction may
/// duplicate an argument's binders, and the second renaming pass then gives
/// the copies fresh, different identifiers.)
pub proof fn lemma_reduce_idempotent(t: TermV, r: TermV, r2: TermV)
    requires
        reduces_to(t, r),
        alpha_renamed(r) == r,
        reduces_to(r, r2),
    ensures
        r2 == r,
{
    let k2 = choose|k: nat| r2 == iter_step(alpha_renamed(r), k);
    lemma_fixpoint_stays(r, 0, k2);
}

// ---------------------------------------------------------------------------
// α-renaming uniqueness and binding
// ---------------------------------------------------------------------------

/// The binder identifiers of a term, in traversal order: each `Lambda`'s own
/// identifier first, then its body's; an application lists the function's
/// before the argument's.
pub open spec fn lambda_ids(t: TermV) -> Seq<int>
    decreases t,
{
    match t {
        TermV::Nothing => Seq::empty(),
        TermV::Variable(_, _) => Seq::empty(),
        TermV::Call(a, b) => lambda_ids(*a) + lambda_ids(*b),
        TermV::Lambda(_, id, e) => seq![id] + lambda_ids(*e),
    }
}

/// Marking a name rewrites variables only: binder identifiers are unchanged.
pub proof fn lemma_mark_lambda_ids(t: TermV, name: Seq<char>, n: int)
    ensures
        lambda_ids(mark_term(t, name, n)) == lambda_ids(t),
    decreases t,
{
    match t {
        TermV::Call(a, b) => {
            lemma_mark_lambda_ids(*a, name, n);
            lemma_mark_lambda_ids(*b, name, n);
        },
        TermV::Lambda(_, _, e) => {
            lemma_mark_lambda_ids(*e, name, n);
        },
        _ => {},
    }
}

/// The α-renaming pass with counter `n` assigns identifiers in traversal
/// order: the binder identifiers of its result are exactly the consecutive
/// run n, n+1, …, one per `Lambda` node.
pub proof fn lemma_alpha_ids(t: TermV, n: int)
    ensures
        lambda_ids(alpha_term(t, n).0) == Seq::new(lambda_count(t), |j: int| n + j),
    decreases term_size(t),
{
    match t {
        TermV::Lambda(name, _, e) => {
            lemma_mark_preserves(*e, name, n);
            lemma_mark_lambda_ids(*e, name, n);
            lemma_alpha_ids(mark_term(*e, name, n), n + 1);
            assert(lambda_ids(alpha_term(t, n).0) =~= Seq::new(
                lambda_count(t),
                |j: int| n + j,
            ));
        },
        TermV::Call(a, b) => {
            lemma_alpha_ids(*a, n);
            lemma_alpha_counter(*a, n);
            lemma_alpha_ids(*b, n + lambda_count(*a));
            assert(lambda_ids(alpha_term(t, n).0) =~= Seq::new(
                lambda_count(t),
                |j: int| n + j,
            ));
        },
        _ => {
            assert(lambda_ids(alpha_term(t, n).0) =~= Seq::new(
                lambda_count(t),
                |j: int| n + j,
            ));
        },
    }
}

/// α-renaming uniqueness, first half: after `alpha_rename` the binder
/// identifiers are 1, 2, … in traversal order — all positive and pairwise
/// distinct.
pub proof fn lemma_alpha_ids_distinct(t: TermV)
    ensures
        lambda_ids(alpha_renamed(t)) == Seq::new(lambda_count(t), |j: int| 1 + j),
        forall|p: int, q: int|
            0 <= p < q < lambda_ids(alpha_renamed(t)).len() ==> lambda_ids(alpha_renamed(t))[p]
                != lambda_ids(alpha_renamed(t))[q],
{
    lemma_alpha_ids(t, 1);
}

/// Variable identifiers agree with `env` throughout the term, binders
/// notwithstanding: a variable whose name `env` maps carries the mapped
/// identifier, and every other variable carries 0. With an empty `env` this
/// says that all variable identifiers are 0, as the parser leaves them.
pub open spec fn vars_ok(t: TermV, env: Map<Seq<char>, int>) -> bool
    decreases t,
{
    match t {
        TermV::Nothing => true,
        TermV::Variable(nm, id) => {
            if env.contains_key(nm) {
                id == env[nm]
            } else {
                id == 0
            }
        },
        TermV::Call(a, b) => vars_ok(*a, env) && vars_ok(*b, env),
        TermV::Lambda(_, _, e) => vars_ok(*e, env),
    }
}

/// Every variable refers to its innermost enclosing binder of the same
/// name: each `Lambda` extends the environment for its body with its own
/// identifier, a bound variable carries exactly its binder's identifier,
/// and an unbound one carries 0.
pub open spec fn binders_consistent(t: TermV, env: Map<Seq<char>, int>) -> bool
    decreases t,
{
    match t {
        TermV::Nothing => true,
        TermV::Variable(nm, id) => {
            if env.contains_key(nm) {
                id == env[nm]
            } else {
                id == 0
            }
        },
        TermV::Call(a, b) => binders_consistent(*a, env) && binders_consistent(*b, env),
        TermV::Lambda(nm, id, e) => binders_consistent(*e, env.insert(nm, id)),
    }
}

proof fn lemma_mark_vars_ok(t: TermV, env: Map<Seq<char>, int>, name: Seq<char>, n: int)
    requires
        vars_ok(t, env),
    ensures
        vars_ok(mark_term(t, name, n), env.insert(name, n)),
    decreases t,
{
    match t {
        TermV::Call(a, b) => {
            lemma_mark_vars_ok(*a, env, name, n);
            lemma_mark_vars_ok(*b, env, name, n);
        },
        TermV::Lambda(_, _, e) => {
            lemma_mark_vars_ok(*e, env, name, n);
        },
        _ => {},
    }
}

proof fn lemma_alpha_binders_env(t: TermV, n: int, env: Map<Seq<char>, int>)
    requires
        vars_ok(t, env),
    ensures
        binders_consistent(alpha_term(t, n).0, env),
    decreases term_size(t),
{
    match t {
        TermV::Lambda(name, _, e) => {
            lemma_mark_preserves(*e, name, n);
            lemma_mark_vars_ok(*e, env, name, n);
            lemma_alpha_binders_env(mark_term(*e, name, n), n + 1, env.insert(name, n));
        },
        TermV::Call(a, b) => {
            lemma_alpha_binders_env(*a, n, env);
            lemma_alpha_binders_env(*b, alpha_term(*a, n).1, env);
        },
        _ => {},
    }
}

/// α-renaming uniqueness, second half: on a term whose variables all start
/// at identifier 0, `alpha_rename` leaves every variable carrying exactly
/// the identifier of its innermost enclosing binder of the same name, and
/// 0 where no binder encloses it.
pub proof fn lemma_alpha_rename_binds(t: TermV)
    requires
        vars_ok(t, Map::<Seq<char>, int>::empty()),
    ensures
        binders_consistent(alpha_renamed(t), Map::<Seq<char>, int>::empty()),
{
    lemma_alpha_binders_env(t, 1, Map::<Seq<char>, int>::empty());
}

// ---------------------------------------------------------------------------
// Executable rewrite passes
// ---------------------------------------------------------------------------

impl LambdaExpr {
    /// Mark every occurrence of `name` with identifier `n`, as
    /// [`mark_term`] describes.
    fn mark_vars(self, name: &String, n: i16) -> (r: LambdaExpr)
        ensures
            r@ == mark_term(self@, name@, n as int),
        decreases self,
    {
        match self {
            LambdaExpr::Nothing => LambdaExpr::Nothing,
            LambdaExpr::Variable(name2, id) => {
                if name2.eq(name) {
                    LambdaExpr::Variable(name2, n)
                } else {
                    LambdaExpr::Variable(name2, id)
                }
            },
            LambdaExpr::Call(a, b) => {
                LambdaExpr::Call(
                    Box::new((*a).mark_vars(name, n)),
                    Box::new((*b).mark_vars(name, n)),
                )
            },
            LambdaExpr::Lambda(name2, id, e) => {
                LambdaExpr::Lambda(name2, id, Box::new((*e).mark_vars(name, n)))
            },
        }
    }

    /// Replace every occurrence of the variable `(name, id)` by a copy of
    /// `arg`, as [`subst_term`] describes.
    fn substitute(self, name: &String, id: i16, arg: &LambdaExpr) -> (r: LambdaExpr)
        ensures
            r@ == subst_term(self@, name@, id as int, arg@),
        decreases self,
    {
        match self {
            LambdaExpr::Nothing => LambdaExpr::Nothing,
            LambdaExpr::Variable(name2, id2) => {
                if id2 == id && name2.eq(name) {
                    arg.clone()
                } else {
                    LambdaExpr::Variable(name2, id2)
                }
            },
            LambdaExpr::Call(a, b) => {
                LambdaExpr::Call(
                    Box::new((*a).substitute(name, id, arg)),
                    Box::new((*b).substitute(name, id, arg)),
                )
            },
            LambdaExpr::Lambda(name2, id2, e) => {
                LambdaExpr::Lambda(name2, id2, Box::new((*e).substitute(name, id, arg)))
            },
        }
    }

    /// α-rename a λ-expression, consuming the original.
    ///
    /// α-renaming is the process of renaming variables to prevent name
    /// conflicts. No variable is actually renamed; only the internal
    /// identifiers (the integer fields of `Lambda`s and `Variable`s)
    /// change: each `Lambda` receives a fresh positive identifier, and
    /// every variable it binds carries the same one.
    pub fn alpha_rename(self) -> (r: LambdaExpr)
        requires
            1 + lambda_count(self@) <= i16::MAX as int,
        ensures
            r@ == alpha_renamed(self@),
    {
        self.alpha_rename_n(1).0
    }

    /// The α-renaming pass with an explicit counter, as [`alpha_term`]
    /// describes.
    fn alpha_rename_n(self, n: i16) -> (r: (LambdaExpr, i16))
        requires
            1 <= n,
            n + lambda_count(self@) <= i16::MAX as int,
        ensures
            r.0@ == alpha_term(self@, n as int).0,
            r.1 as int == alpha_term(self@, n as int).1,
        decreases term_size(self@),
    {
        match self {
            LambdaExpr::Lambda(name, _, e) => {
                proof {
                    lemma_mark_preserves(e@, name@, n as int);
                }
                let marked = (*e).mark_vars(&name, n);
                let (e2, n2) = marked.alpha_rename_n(n + 1);
                (LambdaExpr::Lambda(name, n, Box::new(e2)), n2)
            },
            LambdaExpr::Call(a, b) => {
                proof {
                    lemma_alpha_counter(a@, n as int);
                }
                let (a2, na) = (*a).alpha_rename_n(n);
                let (b2, nb) = (*b).alpha_rename_n(na);
                (LambdaExpr::Call(Box::new(a2), Box::new(b2)), nb)
            },
            other => (other, n),
        }
    }

    /// β-reduce a λ-expression, consuming the original.
    ///
    /// β-reduction is the process of converting `(λx.e) a` to `e[x := a]`
    /// (i.e. replacing all occurrences of the variable `x` in `e` with
    /// `a`). This is one full pass over the tree, not reduction to normal
    /// form: repeating it is the business of [`LambdaExpr::reduce`].
    pub fn beta_reduce(self) -> (r: LambdaExpr)
        ensures
            r@ == beta_term(self@),
        decreases self,
    {
        match self {
            LambdaExpr::Call(f, arg) => {
                match *f {
                    LambdaExpr::Lambda(name, id, e) => {
                        proof {
                            assert(self@ matches TermV::Call(fv, av) && *av == arg@ && *fv
                                == f@);
                            assert(f@ == TermV::Lambda(name@, id as int, Box::new(e@)));
                        }
                        let reduced = (*e).beta_reduce();
                        reduced.substitute(&name, id, &*arg)
                    },
                    other => {
                        proof {
                            assert(self@ matches TermV::Call(fv, av) && *av == arg@ && *fv
                                == other@);
                        }
                        LambdaExpr::Call(
                            Box::new(other.beta_reduce()),
                            Box::new((*arg).beta_reduce()),
                        )
                    },
                }
            },
            LambdaExpr::Lambda(name, id, e) => {
                LambdaExpr::Lambda(name, id, Box::new((*e).beta_reduce()))
            },
            other => other,
        }
    }

    /// η-convert a λ-expression, consuming the original.
    ///
    /// η-conversion is the process of converting `(λx.f x)` to `f`.
    ///
    /// Known defect, kept on purpose: the rewrite fires on a
    /// self-application body too, so `λx.(x x)` converts to `x` — the
    /// pattern does not ask that `f` be free of `x`. See [`eta_term`],
    /// which states exactly this behaviour.
    pub fn eta_convert(self) -> (r: LambdaExpr)
        ensures
            r@ == eta_term(self@),
        decreases term_size(self@),
    {
        match self {
            LambdaExpr::Lambda(name, id, e) => {
                proof {
                    assert(self@ matches TermV::Lambda(nv, iv, ev) && nv == name@ && iv == id
                        as int && *ev == e@);
                }
                match *e {
                    LambdaExpr::Call(f, a) => {
                        proof {
                            assert(e@ matches TermV::Call(fv, av) && *fv == f@ && *av == a@);
                        }
                        match *a {
                            LambdaExpr::Variable(name2, id2) => {
                                proof {
                                    assert(a@ == TermV::Variable(name2@, id2 as int));
                                }
                                if id2 == id && name2.eq(&name) {
                                    *f
                                } else {
                                    LambdaExpr::Lambda(
                                        name,
                                        id,
                                        Box::new(LambdaExpr::Call(
                                            f,
                                            Box::new(LambdaExpr::Variable(name2, id2)),
                                        )),
                                    )
                                }
                            },
                            other_a => {
                                proof {
                                    assert(a@ == other_a@);
                                }
                                let body = LambdaExpr::Call(f, Box::new(other_a));
                                LambdaExpr::Lambda(name, id, Box::new(body.eta_convert()))
                            },
                        }
                    },
                    other_e => {
                        proof {
                            assert(e@ == other_e@);
                        }
                        LambdaExpr::Lambda(name, id, Box::new(other_e.eta_convert()))
                    },
                }
            },
            LambdaExpr::Call(a, b) => {
                LambdaExpr::Call(Box::new((*a).eta_convert()), Box::new((*b).eta_convert()))
            },
            other => other,
        }
    }

    /// Reduce a λ-expression as much as possible, consuming the original.
    ///
    /// The input is α-renamed once and then β-reduced repeatedly until one
    /// more pass makes no difference; at that point one η-conversion pass
    /// is tried, and only if that, too, changes nothing does the driver
    /// stop — otherwise the β loop resumes. Of the two historical driver
    /// policies this is the β-then-η one; it is what collapses
    /// `λx.(a x)` to `a` at the end of a reduction. [`step_term`] states
    /// exactly this strategy.
    ///
    /// A term with no normal form under this strategy (a fixed-point
    /// combinator applied to anything) would keep the loop running forever;
    /// the `normalizes` precondition names exactly the terms on which the
    /// loop stops, and on them the result is the first fixed point of the
    /// driver.
    #[verifier::loop_isolation(false)]
    pub fn reduce(self) -> (r: LambdaExpr)
        requires
            1 + lambda_count(self@) <= i16::MAX as int,
            normalizes(self@),
        ensures
            reduces_to(self@, r@),
    {
        let ghost t0 = self@;
        let mut curr = self.alpha_rename();
        let ghost a = curr@;
        let ghost fk: nat = choose|k: nat| is_normal_form(iter_step(a, k));
        let ghost mut i: nat = 0;
        loop
            invariant
                a == alpha_renamed(t0),
                curr@ == iter_step(a, i),
                is_normal_form(iter_step(a, fk)),
                i <= fk,
            decreases fk - i,
        {
            let prev = curr.clone();
            let next = curr.beta_reduce();
            if next.equals(&prev) {
                let converted = next.clone().eta_convert();
                if converted.equals(&next) {
                    proof {
                        assert(is_normal_form(next@));
                        assert(next@ == iter_step(alpha_renamed(t0), i));
                    }
                    return next;
                }
                curr = converted;
                proof {
                    assert(step_term(prev@) == curr@);
                    assert(curr@ == iter_step(a, i + 1));
                    if i >= fk {
                        lemma_fixpoint_stays(a, fk, i);
                        assert(false);
                    }
                    i = i + 1;
                }
            } else {
                curr = next;
                proof {
                    assert(step_term(prev@) == curr@);
                    assert(curr@ == iter_step(a, i + 1));
                    if i >= fk {
                        lemma_fixpoint_stays(a, fk, i);
                        assert(false);
                    }
                    i = i + 1;
                }
            }
        }
    }
}

} // verus!
