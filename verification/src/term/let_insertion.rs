//! Placing the let of a tuple node, read back from a net, in the term: at
//! the innermost position that holds every use of its variables and lies
//! within the scope of every variable its value depends on.
use vstd::prelude::*;
use indexmap::IndexSet;
use crate::collections::{index_set_is_empty, index_set_items, index_set_remove, lemma_items_swap_remove};
use super::free_vars::distinct_items;
use super::fix_names::{size, arms_size, no_let_var, no_let_var_arms, lemma_arms_size_split, lemma_arms_size_elem, lemma_no_let_var_arms_split};
use super::{
    arms_view, lemma_arms_view, opt_name, pat_view, term_view, LetPat, LetPatV, MatchNum,
    MatchNumV, Name, PatV, RulePat, Term, TermV,
};

verus! {

/// The state of a let being placed.
pub enum LetInsertion {
    /// The let has been placed.
    Placed,
    /// The let could not be placed below: it goes where the search started.
    Unplaced(Option<Name>, Option<Name>, Term),
    /// The let, binding the two names to the value, is still to be placed.
    Todo(Option<Name>, Option<Name>, Term),
}

pub enum CtxV {
    Placed,
    Unplaced(Option<Seq<char>>, Option<Seq<char>>, TermV),
    Todo(Option<Seq<char>>, Option<Seq<char>>, TermV),
}

impl View for LetInsertion {
    type V = CtxV;

    open spec fn view(&self) -> CtxV {
        match self {
            LetInsertion::Placed => CtxV::Placed,
            LetInsertion::Unplaced(a, b, v) => CtxV::Unplaced(opt_name(*a), opt_name(*b), v@),
            LetInsertion::Todo(a, b, v) => CtxV::Todo(opt_name(*a), opt_name(*b), v@),
        }
    }
}

/// The names still undefined after removing an optional binder.
pub open spec fn remove_binder(fv: Set<Seq<char>>, o: Option<Seq<char>>) -> Set<Seq<char>> {
    match o {
        Some(n) => fv.remove(n),
        None => fv,
    }
}

/// The let placed over `t`, if none of the variables its value depends on
/// is still undefined; otherwise a failed attempt.
pub open spec fn insert_let_v(
    t: TermV,
    fst: Option<Seq<char>>,
    snd: Option<Seq<char>>,
    val: TermV,
    fv: Set<Seq<char>>,
) -> (TermV, CtxV) {
    if fv == Set::<Seq<char>>::empty() {
        (
            TermV::Let { pat: LetPatV::Tup(fst, snd), val: Box::new(val), nxt: Box::new(t) },
            CtxV::Placed,
        )
    } else {
        (t, CtxV::Unplaced(fst, snd, val))
    }
}

/// Searches `t` and, where it uses the let's variables, places the let
/// around it. Returns the new term, the state, whether the let's variables
/// are used, and the names still undefined.
pub open spec fn search_v(ctx: CtxV, t: TermV, fv: Set<Seq<char>>) -> (
    TermV,
    CtxV,
    bool,
    Set<Seq<char>>,
)
    decreases size(t), 1nat,
{
    let (t1, c1, u, fv1) = resolve_v(t, ctx, fv);
    match c1 {
        CtxV::Todo(f, s, v) => if u {
            let (t2, c2) = insert_let_v(t1, f, s, v, fv1);
            (t2, c2, true, fv1)
        } else {
            (t1, c1, u, fv1)
        },
        _ => (t1, c1, u, fv1),
    }
}

/// Searches two terms in turn; where only one uses the let's variables, the
/// let is placed around that one.
pub open spec fn multi_v(ctx: CtxV, a: TermV, b: TermV, fv: Set<Seq<char>>) -> (
    TermV,
    TermV,
    CtxV,
    bool,
    Set<Seq<char>>,
)
    decreases size(a) + size(b), 2nat,
{
    let (a1, c1, u1, fv1) = resolve_v(a, ctx, fv);
    let (b1, c2, u2, fv2) = resolve_v(b, c1, fv1);
    if u1 != u2 && c2 is Todo {
        let (f, s, v) = (c2->Todo_0, c2->Todo_1, c2->Todo_2);
        if u1 {
            let (a2, c3) = insert_let_v(a1, f, s, v, fv2);
            (a2, b1, c3, true, fv2)
        } else {
            let (b2, c3) = insert_let_v(b1, f, s, v, fv2);
            (a1, b2, c3, true, fv2)
        }
    } else {
        (a1, b1, c2, u1 || u2, fv2)
    }
}

/// Passes through `t`, removing from the undefined names those that its
/// binders define and placing the let where it belongs. Returns the new
/// term, the state, whether the let's variables are used, and the names
/// still undefined.
pub open spec fn resolve_v(t: TermV, ctx: CtxV, fv: Set<Seq<char>>) -> (
    TermV,
    CtxV,
    bool,
    Set<Seq<char>>,
)
    decreases size(t), 0nat,
{
    match t {
        TermV::Lam { tag, nam, bod } => {
            let (b1, c1, u, fv1) = search_v(ctx, *bod, remove_binder(fv, nam));
            (TermV::Lam { tag, nam, bod: Box::new(b1) }, c1, u, fv1)
        },
        TermV::Let { pat, val, nxt } => match pat {
            LetPatV::Tup(f, s) => {
                let (v1, c1, u1, fv1) = resolve_v(*val, ctx, fv);
                let fv2 = remove_binder(remove_binder(fv1, f), s);
                let (n1, c2, u2, fv3) = resolve_v(*nxt, c1, fv2);
                (TermV::Let { pat, val: Box::new(v1), nxt: Box::new(n1) }, c2, u1 || u2, fv3)
            },
            LetPatV::Var(_) => (t, ctx, false, fv),
        },
        TermV::Dup { tag, fst, snd, val, nxt } => {
            let (v1, c1, u1, fv1) = resolve_v(*val, ctx, fv);
            let fv2 = remove_binder(remove_binder(fv1, fst), snd);
            let (n1, c2, u2, fv3) = resolve_v(*nxt, c1, fv2);
            (TermV::Dup { tag, fst, snd, val: Box::new(v1), nxt: Box::new(n1) }, c2, u1 || u2, fv3)
        },
        TermV::Match { scrutinee, arms } => {
            let (s1, c1, u1, fv1) = resolve_v(*scrutinee, ctx, fv);
            let (arms1, c2, u2, fv2) = resolve_arms(arms, c1, fv1, u1);
            (TermV::Match { scrutinee: Box::new(s1), arms: arms1 }, c2, u2, fv2)
        },
        TermV::Var { nam } => match ctx {
            CtxV::Todo(f, s, _) => (t, ctx, f == Some(nam) || s == Some(nam), fv),
            _ => (t, ctx, false, fv),
        },
        TermV::Chn { nam, bod } => {
            let (b1, c1, u, fv1) = search_v(ctx, *bod, fv);
            (TermV::Chn { nam, bod: Box::new(b1) }, c1, u, fv1)
        },
        TermV::App { tag, fun, arg } => {
            let (a1, b1, c1, u, fv1) = multi_v(ctx, *fun, *arg, fv);
            (TermV::App { tag, fun: Box::new(a1), arg: Box::new(b1) }, c1, u, fv1)
        },
        TermV::Tup { fst, snd } => {
            let (a1, b1, c1, u, fv1) = multi_v(ctx, *fst, *snd, fv);
            (TermV::Tup { fst: Box::new(a1), snd: Box::new(b1) }, c1, u, fv1)
        },
        TermV::Sup { tag, fst, snd } => {
            let (a1, b1, c1, u, fv1) = multi_v(ctx, *fst, *snd, fv);
            (TermV::Sup { tag, fst: Box::new(a1), snd: Box::new(b1) }, c1, u, fv1)
        },
        TermV::Opx { op, fst, snd } => {
            let (a1, b1, c1, u, fv1) = multi_v(ctx, *fst, *snd, fv);
            (TermV::Opx { op, fst: Box::new(a1), snd: Box::new(b1) }, c1, u, fv1)
        },
        TermV::Lnk { .. } | TermV::Num { .. } | TermV::Ref { .. } | TermV::Era => (
            t,
            ctx,
            false,
            fv,
        ),
    }
}

/// The variable that an arm pattern binds, if any.
pub open spec fn arm_var(p: PatV) -> Option<Seq<char>> {
    match p {
        PatV::Num(MatchNumV::Succ(Some(n))) => Some(n),
        _ => None,
    }
}

/// Passes through the arms in order; the arms count as using the let's
/// variables only if the scrutinee and every arm do.
pub open spec fn resolve_arms(arms: Seq<(PatV, TermV)>, ctx: CtxV, fv: Set<Seq<char>>, used: bool) -> (
    Seq<(PatV, TermV)>,
    CtxV,
    bool,
    Set<Seq<char>>,
)
    decreases arms_size(arms), 0nat,
{
    if arms.len() == 0 {
        (Seq::empty(), ctx, used, fv)
    } else {
        proof {
            lemma_arms_size_split(arms);
        }
        let fv1 = remove_binder(fv, arm_var(arms[0].0));
        let (t1, c1, u, fv2) = resolve_v(arms[0].1, ctx, fv1);
        let (rest, c2, u2, fv3) = resolve_arms(
            arms.subrange(1, arms.len() as int),
            c1,
            fv2,
            used && u,
        );
        (seq![(arms[0].0, t1)] + rest, c2, u2, fv3)
    }
}

/// The names a set holds.
pub open spec fn fv_set(s: IndexSet<String>) -> Set<Seq<char>> {
    index_set_items(s).to_set()
}

/// A sequence is empty exactly when the set of its items is.
proof fn lemma_empty_items(items: Seq<Seq<char>>)
    ensures
        (items.len() == 0) == (items.to_set() == Set::<Seq<char>>::empty()),
{
    if items.len() == 0 {
        assert(items.to_set() =~= Set::<Seq<char>>::empty());
    } else {
        assert(items.to_set().contains(items[0]));
    }
}

/// Removes the name an optional binder binds from the undefined names.
fn remove_binder_name(fv: &mut IndexSet<String>, o: &Option<Name>)
    requires
        distinct_items(*old(fv)),
    ensures
        distinct_items(*final(fv)),
        fv_set(*final(fv)) == remove_binder(fv_set(*old(fv)), opt_name(*o)),
{
    match o {
        Some(n) => {
            proof {
                lemma_items_swap_remove(index_set_items(*fv), n@);
            }
            index_set_remove(fv, &n.0);
        },
        None => {},
    }
}

/// Whether an optional binder is the name `n`.
fn is_binder(o: &Option<Name>, n: &Name) -> (r: bool)
    ensures
        r == (opt_name(*o) == Some(n@)),
{
    match o {
        Some(m) => m.eq_name(n),
        None => false,
    }
}

impl Term {
    /// Places the let over the term if none of the variables its value
    /// depends on is still undefined (`free_vars` is empty): the term
    /// becomes the body of the let, and the let is placed. Otherwise the
    /// term is kept and the let is handed back unplaced.
    pub fn insert_let(
        &mut self,
        fst: Option<Name>,
        snd: Option<Name>,
        val: Term,
        free_vars: &IndexSet<String>,
    ) -> (r: LetInsertion)
        ensures
            (final(self)@, r@) == insert_let_v(
                old(self)@,
                opt_name(fst),
                opt_name(snd),
                val@,
                fv_set(*free_vars),
            ),
            index_set_items(*free_vars).len() == 0 ==> final(self)@ == (TermV::Let {
                pat: LetPatV::Tup(opt_name(fst), opt_name(snd)),
                val: Box::new(val@),
                nxt: Box::new(old(self)@),
            }) && r@ == CtxV::Placed,
            index_set_items(*free_vars).len() != 0 ==> final(self)@ == old(self)@ && r@
                == CtxV::Unplaced(opt_name(fst), opt_name(snd), val@),
    {
        proof {
            lemma_empty_items(index_set_items(*free_vars));
            law_insert_let(old(self)@, opt_name(fst), opt_name(snd), val@, fv_set(*free_vars));
        }
        if index_set_is_empty(free_vars) {
            let mut nxt = Term::Era;
            std::mem::swap(&mut nxt, self);
            *self = Term::Let { pat: LetPat::Tup(fst, snd), val: Box::new(val), nxt: Box::new(nxt) };
            LetInsertion::Placed
        } else {
            LetInsertion::Unplaced(fst, snd, val)
        }
    }

    /// Passes through the term, removing from `free_vars` the names its
    /// binders define and placing the let where it belongs; returns the
    /// state and whether the let's variables are used.
    #[verifier::rlimit(40)]
    #[verifier::spinoff_prover]
    fn resolve_let_scope(&mut self, ctx: LetInsertion, free_vars: &mut IndexSet<String>) -> (r: (
        LetInsertion,
        bool,
    ))
        requires
            no_let_var(old(self)@),
            distinct_items(*old(free_vars)),
        ensures
            distinct_items(*final(free_vars)),
            (final(self)@, r.0@, r.1, fv_set(*final(free_vars))) == resolve_v(
                old(self)@,
                ctx@,
                fv_set(*old(free_vars)),
            ),
        decreases size(old(self)@), 0nat,
    {
        match self {
            Term::Lam { nam, bod, .. } => {
                remove_binder_name(free_vars, nam);
                ctx.search_and_insert(bod, free_vars)
            },
            Term::Let { pat, val, nxt } => {
                match pat {
                    LetPat::Tup(fst, snd) => {
                        let (ctx, val_use) = val.resolve_let_scope(ctx, free_vars);
                        remove_binder_name(free_vars, fst);
                        remove_binder_name(free_vars, snd);
                        let (ctx, nxt_use) = nxt.resolve_let_scope(ctx, free_vars);
                        (ctx, val_use || nxt_use)
                    },
                    LetPat::Var(_) => (ctx, false),
                }
            },
            Term::Dup { fst, snd, val, nxt, .. } => {
                let (ctx, val_use) = val.resolve_let_scope(ctx, free_vars);
                remove_binder_name(free_vars, fst);
                remove_binder_name(free_vars, snd);
                let (ctx, nxt_use) = nxt.resolve_let_scope(ctx, free_vars);
                (ctx, val_use || nxt_use)
            },
            Term::Match { scrutinee, arms } => {
                let ghost t0 = old(self)@;
                let (ctx1, use1) = scrutinee.resolve_let_scope(ctx, free_vars);
                let ghost old_arms = arms@;
                let ghost av = arms_view(old_arms);
                let ghost total = resolve_arms(av, ctx1@, fv_set(*free_vars), use1);
                proof {
                    lemma_arms_view(old_arms);
                    assert(av.subrange(0, av.len() as int) =~= av);
                    assert(arms_view(arms@.subrange(0, 0)) =~= Seq::<(PatV, TermV)>::empty());
                }
                let mut ctx = ctx1;
                let mut val_use = use1;
                let n = arms.len();
                let mut i: usize = 0;
                while i < n
                    invariant
                        n == old_arms.len(),
                        av == arms_view(old_arms),
                        av.len() == n,
                        arms@.len() == n,
                        i <= n,
                        size(t0) > arms_size(av),
                        t0 == old(self)@,
                        distinct_items(*free_vars),
                        no_let_var_arms(av.subrange(i as int, n as int)),
                        forall|j: int| i <= j < n ==> #[trigger] arms@[j] == old_arms[j],
                        ({
                            let rest = resolve_arms(
                                av.subrange(i as int, n as int),
                                ctx@,
                                fv_set(*free_vars),
                                val_use,
                            );
                            &&& total.0 == arms_view(arms@.subrange(0, i as int)) + rest.0
                            &&& total.1 == rest.1
                            &&& total.2 == rest.2
                            &&& total.3 == rest.3
                        }),
                    decreases n - i,
                {
                    let ghost arms_before = arms@;
                    let ghost fv_i = fv_set(*free_vars);
                    let ghost ctx_i = ctx@;
                    let ghost suffix = av.subrange(i as int, n as int);
                    proof {
                        lemma_arms_view(old_arms);
                        lemma_arms_size_split(suffix);
                        lemma_no_let_var_arms_split(suffix);
                        lemma_arms_size_elem(av, i as int);
                        assert(suffix[0] == av[i as int]);
                        assert(suffix.subrange(1, suffix.len() as int) =~= av.subrange(i + 1, n as int));
                    }
                    let arm = &mut arms[i];
                    proof {
                        assert(*arm == old_arms[i as int]);
                        assert(av[i as int] == (pat_view(arm.0), term_view(arm.1)));
                    }
                    let binder = match &arm.0 {
                        RulePat::Num(MatchNum::Succ(Some(p))) => Some(p.clone_name()),
                        _ => None,
                    };
                    proof {
                        assert(opt_name(binder) == arm_var(pat_view(arm.0)));
                    }
                    remove_binder_name(free_vars, &binder);
                    let (arm_ctx, arm_use) = arm.1.resolve_let_scope(ctx, free_vars);
                    val_use = val_use && arm_use;
                    ctx = arm_ctx;
                    proof {
                        lemma_arms_view(arms@);
                        let done = arms@.subrange(0, i + 1);
                        lemma_arms_view(done);
                        lemma_arms_view(arms@.subrange(0, i as int));
                        assert(arms_view(done) =~= arms_view(arms@.subrange(0, i as int)).push(
                            (pat_view(arms@[i as int].0), term_view(arms@[i as int].1))));
                        assert forall|j: int| i + 1 <= j < n implies #[trigger] arms@[j] == old_arms[j] by {
                        }
                        assert(arms@.subrange(0, i + 1).subrange(0, i as int) =~= arms@.subrange(0, i as int));
                        assert(arms@.subrange(0, i as int) =~= arms_before.subrange(0, i as int));
                    }
                    i = i + 1;
                }
                proof {
                    assert(av.subrange(n as int, n as int) =~= Seq::<(PatV, TermV)>::empty());
                    assert(arms@.subrange(0, n as int) =~= arms@);
                }
                (ctx, val_use)
            },
            Term::Var { nam } => {
                match ctx {
                    LetInsertion::Todo(fst, snd, val) => {
                        let is_fst = is_binder(&fst, nam);
                        let is_snd = is_binder(&snd, nam);
                        (LetInsertion::Todo(fst, snd, val), is_fst || is_snd)
                    },
                    ctx => (ctx, false),
                }
            },
            Term::Chn { bod, .. } => ctx.search_and_insert(bod, free_vars),
            Term::App { fun, arg, .. } => ctx.multi_search_and_insert(fun, arg, free_vars),
            Term::Tup { fst, snd } => ctx.multi_search_and_insert(fst, snd, free_vars),
            Term::Sup { fst, snd, .. } => ctx.multi_search_and_insert(fst, snd, free_vars),
            Term::Opx { fst, snd, .. } => ctx.multi_search_and_insert(fst, snd, free_vars),
            Term::Lnk { .. } | Term::Num { .. } | Term::Ref { .. } | Term::Era => (ctx, false),
        }
    }
}

impl LetInsertion {
    /// Searches the term and inserts the let between where the variables
    /// it depends on are defined and where its own variables are used.
    pub fn search_and_insert(self, term: &mut Term, free_vars: &mut IndexSet<String>) -> (r: (
        LetInsertion,
        bool,
    ))
        requires
            no_let_var(old(term)@),
            distinct_items(*old(free_vars)),
        ensures
            distinct_items(*final(free_vars)),
            (final(term)@, r.0@, r.1, fv_set(*final(free_vars))) == search_v(
                self@,
                old(term)@,
                fv_set(*old(free_vars)),
            ),
        decreases size(old(term)@), 1nat,
    {
        match term.resolve_let_scope(self, free_vars) {
            (LetInsertion::Todo(fst, snd, val), true) => (term.insert_let(fst, snd, val, free_vars), true),
            (ctx, uses) => (ctx, uses),
        }
    }

    /// Searches both terms; if exactly one uses the let's variables, the
    /// let is placed in it. Otherwise returns the state, with whether any
    /// used them.
    pub fn multi_search_and_insert(
        self,
        fst: &mut Term,
        snd: &mut Term,
        free_vars: &mut IndexSet<String>,
    ) -> (r: (LetInsertion, bool))
        requires
            no_let_var(old(fst)@),
            no_let_var(old(snd)@),
            distinct_items(*old(free_vars)),
        ensures
            distinct_items(*final(free_vars)),
            (final(fst)@, final(snd)@, r.0@, r.1, fv_set(*final(free_vars))) == multi_v(
                self@,
                old(fst)@,
                old(snd)@,
                fv_set(*old(free_vars)),
            ),
            ({
                let (a1, c1, u1, fv1) = resolve_v(old(fst)@, self@, fv_set(*old(free_vars)));
                let (b1, c2, u2, fv2) = resolve_v(old(snd)@, c1, fv1);
                &&& !u1 && !u2 ==> (final(fst)@, final(snd)@, r.0@, r.1) == (a1, b1, c2, false)
                &&& (u1 && u2) || (u1 != u2 && !(c2 is Todo)) ==> (final(fst)@, final(snd)@, r.0@, r.1)
                    == (a1, b1, c2, true)
                &&& u1 && !u2 && c2 is Todo ==> (final(fst)@, r.0@) == insert_let_v(
                    a1,
                    c2->Todo_0,
                    c2->Todo_1,
                    c2->Todo_2,
                    fv2,
                ) && final(snd)@ == b1 && r.1
                &&& !u1 && u2 && c2 is Todo ==> (final(snd)@, r.0@) == insert_let_v(
                    b1,
                    c2->Todo_0,
                    c2->Todo_1,
                    c2->Todo_2,
                    fv2,
                ) && final(fst)@ == a1 && r.1
            }),
        decreases size(old(fst)@) + size(old(snd)@), 2nat,
    {
        proof {
            law_multi_search_split(self@, old(fst)@, old(snd)@, fv_set(*old(free_vars)));
        }
        let (ctx, fst_use) = fst.resolve_let_scope(self, free_vars);
        let (ctx, snd_use) = snd.resolve_let_scope(ctx, free_vars);
        if fst_use != snd_use {
            match ctx {
                LetInsertion::Todo(f, s, v) => {
                    if fst_use {
                        (fst.insert_let(f, s, v, free_vars), true)
                    } else {
                        (snd.insert_let(f, s, v, free_vars), true)
                    }
                },
                ctx => (ctx, true),
            }
        } else {
            (ctx, fst_use || snd_use)
        }
    }
}

/// Placing a let over a term: where every variable its value depends on is
/// defined, the term becomes the body of the let and the let is placed;
/// otherwise the term is kept and the let is handed back unplaced.
pub proof fn law_insert_let(
    t: TermV,
    fst: Option<Seq<char>>,
    snd: Option<Seq<char>>,
    val: TermV,
    fv: Set<Seq<char>>,
)
    ensures
        fv.is_empty() ==> insert_let_v(t, fst, snd, val, fv) == (
            TermV::Let { pat: LetPatV::Tup(fst, snd), val: Box::new(val), nxt: Box::new(t) },
            CtxV::Placed,
        ),
        !fv.is_empty() ==> insert_let_v(t, fst, snd, val, fv) == (t, CtxV::Unplaced(fst, snd, val)),
{
    if fv.is_empty() {
        assert(fv =~= Set::<Seq<char>>::empty());
    } else {
        let x = fv.choose();
        assert(fv.contains(x));
        assert(fv != Set::<Seq<char>>::empty());
    }
}

/// Searching two terms splits on how many of them use the let's variables:
/// where exactly one does and the let is still to be placed, it is placed
/// over that one; where none does, nothing is used and the state passes
/// on; otherwise both are kept as searched and the let's variables are
/// used. The undefined names are those the second search leaves.
pub proof fn law_multi_search_split(ctx: CtxV, a: TermV, b: TermV, fv: Set<Seq<char>>)
    ensures
        ({
            let (a1, c1, u1, fv1) = resolve_v(a, ctx, fv);
            let (b1, c2, u2, fv2) = resolve_v(b, c1, fv1);
            let r = multi_v(ctx, a, b, fv);
            &&& r.4 == fv2
            &&& !u1 && !u2 ==> r == (a1, b1, c2, false, fv2)
            &&& u1 && u2 ==> r == (a1, b1, c2, true, fv2)
            &&& u1 != u2 && !(c2 is Todo) ==> r == (a1, b1, c2, true, fv2)
            &&& u1 && !u2 && c2 is Todo ==> {
                let (a2, c3) = insert_let_v(a1, c2->Todo_0, c2->Todo_1, c2->Todo_2, fv2);
                r == (a2, b1, c3, true, fv2)
            }
            &&& !u1 && u2 && c2 is Todo ==> {
                let (b2, c3) = insert_let_v(b1, c2->Todo_0, c2->Todo_1, c2->Todo_2, fv2);
                r == (a1, b2, c3, true, fv2)
            }
        }),
{
}

/// The let a state carries, if any, has no single-variable let in its value.
pub open spec fn ctx_ok(c: CtxV) -> bool {
    match c {
        CtxV::Todo(_, _, v) => no_let_var(v),
        CtxV::Unplaced(_, _, v) => no_let_var(v),
        CtxV::Placed => true,
    }
}

/// Placing a let keeps terms free of single-variable lets.
pub proof fn lemma_search_no_let_var(ctx: CtxV, t: TermV, fv: Set<Seq<char>>)
    requires
        no_let_var(t),
        ctx_ok(ctx),
    ensures
        no_let_var(search_v(ctx, t, fv).0),
        ctx_ok(search_v(ctx, t, fv).1),
    decreases size(t), 1nat,
{
    lemma_resolve_no_let_var(t, ctx, fv);
}

proof fn lemma_multi_no_let_var(ctx: CtxV, a: TermV, b: TermV, fv: Set<Seq<char>>)
    requires
        no_let_var(a),
        no_let_var(b),
        ctx_ok(ctx),
    ensures
        no_let_var(multi_v(ctx, a, b, fv).0),
        no_let_var(multi_v(ctx, a, b, fv).1),
        ctx_ok(multi_v(ctx, a, b, fv).2),
    decreases size(a) + size(b), 2nat,
{
    lemma_resolve_no_let_var(a, ctx, fv);
    let r1 = resolve_v(a, ctx, fv);
    lemma_resolve_no_let_var(b, r1.1, r1.3);
}

proof fn lemma_resolve_no_let_var(t: TermV, ctx: CtxV, fv: Set<Seq<char>>)
    requires
        no_let_var(t),
        ctx_ok(ctx),
    ensures
        no_let_var(resolve_v(t, ctx, fv).0),
        ctx_ok(resolve_v(t, ctx, fv).1),
    decreases size(t), 0nat,
{
    match t {
        TermV::Lam { nam, bod, .. } => lemma_search_no_let_var(ctx, *bod, remove_binder(fv, nam)),
        TermV::Chn { bod, .. } => lemma_search_no_let_var(ctx, *bod, fv),
        TermV::Let { pat, val, nxt } => {
            if let LetPatV::Tup(f, s) = pat {
                lemma_resolve_no_let_var(*val, ctx, fv);
                let r1 = resolve_v(*val, ctx, fv);
                lemma_resolve_no_let_var(*nxt, r1.1, remove_binder(remove_binder(r1.3, f), s));
            }
        },
        TermV::Dup { fst, snd, val, nxt, .. } => {
            lemma_resolve_no_let_var(*val, ctx, fv);
            let r1 = resolve_v(*val, ctx, fv);
            lemma_resolve_no_let_var(*nxt, r1.1, remove_binder(remove_binder(r1.3, fst), snd));
        },
        TermV::Match { scrutinee, arms } => {
            lemma_resolve_no_let_var(*scrutinee, ctx, fv);
            let r1 = resolve_v(*scrutinee, ctx, fv);
            lemma_resolve_arms_no_let_var(arms, r1.1, r1.3, r1.2);
        },
        TermV::App { fun: a, arg: b, .. } | TermV::Tup { fst: a, snd: b } | TermV::Sup {
            fst: a,
            snd: b,
            ..
        } | TermV::Opx { fst: a, snd: b, .. } => lemma_multi_no_let_var(ctx, *a, *b, fv),
        _ => {},
    }
}

proof fn lemma_resolve_arms_no_let_var(
    arms: Seq<(PatV, TermV)>,
    ctx: CtxV,
    fv: Set<Seq<char>>,
    used: bool,
)
    requires
        no_let_var_arms(arms),
        ctx_ok(ctx),
    ensures
        no_let_var_arms(resolve_arms(arms, ctx, fv, used).0),
        ctx_ok(resolve_arms(arms, ctx, fv, used).1),
    decreases arms_size(arms), 0nat,
{
    if arms.len() == 0 {
        return;
    }
    lemma_arms_size_split(arms);
    lemma_no_let_var_arms_split(arms);
    let fv1 = remove_binder(fv, arm_var(arms[0].0));
    lemma_resolve_no_let_var(arms[0].1, ctx, fv1);
    let (t1, c1, u, fv2) = resolve_v(arms[0].1, ctx, fv1);
    let tail = arms.subrange(1, arms.len() as int);
    lemma_resolve_arms_no_let_var(tail, c1, fv2, used && u);
    let rest = resolve_arms(tail, c1, fv2, used && u).0;
    let out = seq![(arms[0].0, t1)] + rest;
    if out.len() > 0 {
        lemma_no_let_var_arms_split(out);
        assert(out.subrange(1, out.len() as int) =~= rest);
    }
}

/// Whether a search, started in `ctx` and ending in `out`, may have changed
/// the term: only by placing the let it had to place.
pub open spec fn may_change(ctx: CtxV, out: CtxV) -> bool {
    ctx is Todo && out is Placed
}

/// A search changes the term only by placing the let: where it places
/// none, the term comes back as it was; and a search that has no let to
/// place ends in the state it started in.
pub proof fn law_search_changes_only_by_placing(ctx: CtxV, t: TermV, fv: Set<Seq<char>>)
    ensures
        !may_change(ctx, search_v(ctx, t, fv).1) ==> search_v(ctx, t, fv).0 == t,
        !(ctx is Todo) ==> search_v(ctx, t, fv).1 == ctx,
    decreases size(t), 1nat,
{
    lemma_resolve_unchanged(t, ctx, fv);
}

proof fn lemma_multi_unchanged(ctx: CtxV, a: TermV, b: TermV, fv: Set<Seq<char>>)
    ensures
        !may_change(ctx, multi_v(ctx, a, b, fv).2) ==> multi_v(ctx, a, b, fv).0 == a && multi_v(
            ctx,
            a,
            b,
            fv,
        ).1 == b,
        !(ctx is Todo) ==> multi_v(ctx, a, b, fv).2 == ctx,
    decreases size(a) + size(b), 2nat,
{
    lemma_resolve_unchanged(a, ctx, fv);
    let r1 = resolve_v(a, ctx, fv);
    lemma_resolve_unchanged(b, r1.1, r1.3);
}

proof fn lemma_resolve_unchanged(t: TermV, ctx: CtxV, fv: Set<Seq<char>>)
    ensures
        !may_change(ctx, resolve_v(t, ctx, fv).1) ==> resolve_v(t, ctx, fv).0 == t,
        !(ctx is Todo) ==> resolve_v(t, ctx, fv).1 == ctx,
    decreases size(t), 0nat,
{
    match t {
        TermV::Lam { nam, bod, .. } => law_search_changes_only_by_placing(ctx, *bod, remove_binder(fv, nam)),
        TermV::Chn { bod, .. } => law_search_changes_only_by_placing(ctx, *bod, fv),
        TermV::Let { pat, val, nxt } => {
            if let LetPatV::Tup(f, s) = pat {
                lemma_resolve_unchanged(*val, ctx, fv);
                let r1 = resolve_v(*val, ctx, fv);
                lemma_resolve_unchanged(*nxt, r1.1, remove_binder(remove_binder(r1.3, f), s));
            }
        },
        TermV::Dup { fst, snd, val, nxt, .. } => {
            lemma_resolve_unchanged(*val, ctx, fv);
            let r1 = resolve_v(*val, ctx, fv);
            lemma_resolve_unchanged(*nxt, r1.1, remove_binder(remove_binder(r1.3, fst), snd));
        },
        TermV::Match { scrutinee, arms } => {
            lemma_resolve_unchanged(*scrutinee, ctx, fv);
            let r1 = resolve_v(*scrutinee, ctx, fv);
            lemma_resolve_arms_unchanged(arms, r1.1, r1.3, r1.2);
        },
        TermV::App { fun: a, arg: b, .. } | TermV::Tup { fst: a, snd: b } | TermV::Sup {
            fst: a,
            snd: b,
            ..
        } | TermV::Opx { fst: a, snd: b, .. } => lemma_multi_unchanged(ctx, *a, *b, fv),
        _ => {},
    }
}

proof fn lemma_resolve_arms_unchanged(arms: Seq<(PatV, TermV)>, ctx: CtxV, fv: Set<Seq<char>>, used: bool)
    ensures
        !may_change(ctx, resolve_arms(arms, ctx, fv, used).1) ==> resolve_arms(arms, ctx, fv, used).0
            == arms,
        !(ctx is Todo) ==> resolve_arms(arms, ctx, fv, used).1 == ctx,
    decreases arms_size(arms), 0nat,
{
    if arms.len() == 0 {
        return;
    }
    lemma_arms_size_split(arms);
    let fv1 = remove_binder(fv, arm_var(arms[0].0));
    lemma_resolve_unchanged(arms[0].1, ctx, fv1);
    let (t1, c1, u, fv2) = resolve_v(arms[0].1, ctx, fv1);
    let tail = arms.subrange(1, arms.len() as int);
    lemma_resolve_arms_unchanged(tail, c1, fv2, used && u);
    let rest = resolve_arms(tail, c1, fv2, used && u).0;
    if t1 == arms[0].1 && rest == tail {
        assert(seq![(arms[0].0, t1)] + rest =~= arms);
    }
}

/// A variable is a use of a pending let exactly when it is either of the
/// let's two names. Where it is, searching it reports the let used and
/// places the let around it once every variable the let's value depends on
/// is defined; where it is not, nothing changes and the let stays pending.
pub proof fn law_var_use_of_let(
    f: Option<Seq<char>>,
    s: Option<Seq<char>>,
    v: TermV,
    n: Seq<char>,
    fv: Set<Seq<char>>,
)
    ensures
        (f == Some(n) || s == Some(n)) && fv.is_empty() ==> search_v(CtxV::Todo(f, s, v), TermV::Var { nam: n }, fv)
            == (
            TermV::Let { pat: LetPatV::Tup(f, s), val: Box::new(v), nxt: Box::new(TermV::Var { nam: n }) },
            CtxV::Placed,
            true,
            fv,
        ),
        (f == Some(n) || s == Some(n)) && !fv.is_empty() ==> search_v(CtxV::Todo(f, s, v), TermV::Var { nam: n }, fv)
            == (TermV::Var { nam: n }, CtxV::Unplaced(f, s, v), true, fv),
        !(f == Some(n) || s == Some(n)) ==> search_v(CtxV::Todo(f, s, v), TermV::Var { nam: n }, fv) == (
            TermV::Var { nam: n },
            CtxV::Todo(f, s, v),
            false,
            fv,
        ),
{
    law_insert_let(TermV::Var { nam: n }, f, s, v, fv);
}

} // verus!
