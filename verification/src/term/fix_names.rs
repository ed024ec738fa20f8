//! Renaming the variables of a read-back term in order, and inlining the
//! definitions that the compiler generated.
use vstd::prelude::*;
use hvmc::run::Val;
use super::subst::{subst_v, subst_arms, lemma_subst_arms, arm_binds, binds};
use super::free_vars::arm_opt;
use super::net_to_term::generated;
use super::{
    arms_view, def_index, lemma_arms_view, pat_view, term_view, var_id_to_name, var_name, Book,
    Definition, LetPat, LetPatV, MatchNum, MatchNumV, Name, PatV, RulePat, Term, TermV,
    clone_opt_name,
};

verus! {

/// The number of constructors in a term.
pub open spec fn size(t: TermV) -> nat
    decreases t,
{
    match t {
        TermV::Lam { bod, .. } | TermV::Chn { bod, .. } => 1 + size(*bod),
        TermV::Let { val: a, nxt: b, .. } | TermV::Dup { val: a, nxt: b, .. } | TermV::App {
            fun: a,
            arg: b,
            ..
        } | TermV::Tup { fst: a, snd: b } | TermV::Sup { fst: a, snd: b, .. } | TermV::Opx {
            fst: a,
            snd: b,
            ..
        } => 1 + size(*a) + size(*b),
        TermV::Match { scrutinee, arms } => 1 + size(*scrutinee) + arms_size(arms),
        _ => 1,
    }
}

pub open spec fn arms_size(arms: Seq<(PatV, TermV)>) -> nat
    decreases arms,
{
    if arms.len() == 0 {
        0
    } else {
        arms_size(arms.subrange(0, arms.len() - 1)) + 1 + size(arms[arms.len() - 1].1)
    }
}

/// Whether a term has no let with a single variable pattern.
pub open spec fn no_let_var(t: TermV) -> bool
    decreases t,
{
    match t {
        TermV::Let { pat, val, nxt } => !(pat is Var) && no_let_var(*val) && no_let_var(*nxt),
        TermV::Lam { bod, .. } | TermV::Chn { bod, .. } => no_let_var(*bod),
        TermV::Dup { val: a, nxt: b, .. } | TermV::App { fun: a, arg: b, .. } | TermV::Tup {
            fst: a,
            snd: b,
        } | TermV::Sup { fst: a, snd: b, .. } | TermV::Opx { fst: a, snd: b, .. } => no_let_var(*a)
            && no_let_var(*b),
        TermV::Match { scrutinee, arms } => no_let_var(*scrutinee) && no_let_var_arms(arms),
        _ => true,
    }
}

pub open spec fn no_let_var_arms(arms: Seq<(PatV, TermV)>) -> bool
    decreases arms,
{
    if arms.len() == 0 {
        true
    } else {
        no_let_var_arms(arms.subrange(0, arms.len() - 1)) && no_let_var(arms[arms.len() - 1].1)
    }
}

pub proof fn lemma_arms_size_split(arms: Seq<(PatV, TermV)>)
    requires
        arms.len() > 0,
    ensures
        arms_size(arms) == 1 + size(arms[0].1) + arms_size(arms.subrange(1, arms.len() as int)),
    decreases arms.len(),
{
    if arms.len() > 1 {
        let p = arms.subrange(0, arms.len() - 1);
        lemma_arms_size_split(p);
        assert(p[0] == arms[0]);
        let q = arms.subrange(1, arms.len() as int);
        assert(q.subrange(0, q.len() - 1) =~= p.subrange(1, p.len() as int));
        assert(q[q.len() - 1] == arms[arms.len() - 1]);
        assert(arms_size(q) == arms_size(q.subrange(0, q.len() - 1)) + 1 + size(q[q.len() - 1].1));
    } else {
        assert(arms.subrange(0, 0) =~= Seq::<(PatV, TermV)>::empty());
        assert(arms.subrange(1, 1) =~= Seq::<(PatV, TermV)>::empty());
    }
}

pub proof fn lemma_no_let_var_arms_split(arms: Seq<(PatV, TermV)>)
    requires
        arms.len() > 0,
    ensures
        no_let_var_arms(arms) == (no_let_var(arms[0].1) && no_let_var_arms(
            arms.subrange(1, arms.len() as int),
        )),
    decreases arms.len(),
{
    if arms.len() > 1 {
        let p = arms.subrange(0, arms.len() - 1);
        lemma_no_let_var_arms_split(p);
        assert(p[0] == arms[0]);
        let q = arms.subrange(1, arms.len() as int);
        assert(q.subrange(0, q.len() - 1) =~= p.subrange(1, p.len() as int));
        assert(q[q.len() - 1] == arms[arms.len() - 1]);
        assert(no_let_var_arms(q) == (no_let_var_arms(q.subrange(0, q.len() - 1)) && no_let_var(q[q.len() - 1].1)));
    } else {
        assert(arms.subrange(0, 0) =~= Seq::<(PatV, TermV)>::empty());
        assert(arms.subrange(1, 1) =~= Seq::<(PatV, TermV)>::empty());
    }
}

/// Substituting a variable by a variable keeps the size of a term and its
/// lack of single-variable lets.
pub proof fn lemma_subst_var(t: TermV, from: Seq<char>, x: Seq<char>)
    ensures
        size(subst_v(t, from, TermV::Var { nam: x })) == size(t),
        no_let_var(subst_v(t, from, TermV::Var { nam: x })) == no_let_var(t),
    decreases t,
{
    let v = TermV::Var { nam: x };
    match t {
        TermV::Lam { bod, .. } | TermV::Chn { bod, .. } => lemma_subst_var(*bod, from, x),
        TermV::Let { val: a, nxt: b, .. } | TermV::Dup { val: a, nxt: b, .. } | TermV::App {
            fun: a,
            arg: b,
            ..
        } | TermV::Tup { fst: a, snd: b } | TermV::Sup { fst: a, snd: b, .. } | TermV::Opx {
            fst: a,
            snd: b,
            ..
        } => {
            lemma_subst_var(*a, from, x);
            lemma_subst_var(*b, from, x);
        },
        TermV::Match { scrutinee, arms } => {
            lemma_subst_var(*scrutinee, from, x);
            lemma_subst_var_arms(arms, from, x);
        },
        _ => {},
    }
}

pub proof fn lemma_subst_var_arms(arms: Seq<(PatV, TermV)>, from: Seq<char>, x: Seq<char>)
    ensures
        arms_size(subst_arms(arms, from, TermV::Var { nam: x })) == arms_size(arms),
        no_let_var_arms(subst_arms(arms, from, TermV::Var { nam: x })) == no_let_var_arms(arms),
    decreases arms,
{
    if arms.len() > 0 {
        let p = arms.subrange(0, arms.len() - 1);
        lemma_subst_var_arms(p, from, x);
        lemma_subst_var(arms[arms.len() - 1].1, from, x);
        let s = subst_arms(arms, from, TermV::Var { nam: x });
        assert(s.subrange(0, s.len() - 1) =~= subst_arms(p, from, TermV::Var { nam: x }));
    }
}

/// Where a binder binds a name: the fresh name `var_name(c)` takes its
/// place, also in the body, and the counter moves on.
pub open spec fn fix_name_v(nam: Option<Seq<char>>, c: nat, bod: TermV) -> (
    Option<Seq<char>>,
    nat,
    TermV,
) {
    match nam {
        Some(n) => (
            Some(var_name(c)),
            c + 1,
            subst_v(bod, n, TermV::Var { nam: var_name(c) }),
        ),
        None => (None, c, bod),
    }
}

/// The body of the generated definition with an id.
pub open spec fn gen_body(defs: Seq<Definition>, id: Val) -> TermV {
    defs[def_index(defs, id)->0].rules@[0].body@
}

/// The term with its binders renamed, in order, to the names of the ids
/// from `c` on, and each generated definition it refers to inlined (and
/// renamed in turn); `fuel` bounds how deeply inlining nests. Returns the
/// term and the next id.
pub open spec fn fix_v(
    t: TermV,
    c: nat,
    names: Map<Val, Seq<char>>,
    defs: Seq<Definition>,
    fuel: nat,
) -> (TermV, nat)
    decreases fuel, size(t),
{
    match t {
        TermV::Lam { tag, nam, bod } => {
            let (nam2, c1, bod1) = fix_name_v(nam, c, *bod);
            proof {
                if nam is Some {
                    lemma_subst_var(*bod, nam->0, var_name(c));
                }
            }
            let (bod2, c2) = fix_v(bod1, c1, names, defs, fuel);
            (TermV::Lam { tag, nam: nam2, bod: Box::new(bod2) }, c2)
        },
        TermV::Ref { def_id } => if generated(names, def_id) && fuel > 0 {
            fix_v(gen_body(defs, def_id), c, names, defs, (fuel - 1) as nat)
        } else {
            (t, c)
        },
        TermV::Dup { tag, fst, snd, val, nxt } => {
            let (val1, c1) = fix_v(*val, c, names, defs, fuel);
            let (fst2, c2, nxt1) = fix_name_v(fst, c1, *nxt);
            let (snd2, c3, nxt2) = fix_name_v(snd, c2, nxt1);
            proof {
                if fst is Some {
                    lemma_subst_var(*nxt, fst->0, var_name(c1));
                }
                if snd is Some {
                    lemma_subst_var(nxt1, snd->0, var_name(c2));
                }
            }
            let (nxt3, c4) = fix_v(nxt2, c3, names, defs, fuel);
            (
                TermV::Dup { tag, fst: fst2, snd: snd2, val: Box::new(val1), nxt: Box::new(nxt3) },
                c4,
            )
        },
        TermV::Let { pat, val, nxt } => match pat {
            LetPatV::Tup(a, b) => {
                let (a2, c1, nxt1) = fix_name_v(a, c, *nxt);
                let (b2, c2, nxt2) = fix_name_v(b, c1, nxt1);
                proof {
                    if a is Some {
                        lemma_subst_var(*nxt, a->0, var_name(c));
                    }
                    if b is Some {
                        lemma_subst_var(nxt1, b->0, var_name(c1));
                    }
                }
                let (val1, c3) = fix_v(*val, c2, names, defs, fuel);
                let (nxt3, c4) = fix_v(nxt2, c3, names, defs, fuel);
                (
                    TermV::Let {
                        pat: LetPatV::Tup(a2, b2),
                        val: Box::new(val1),
                        nxt: Box::new(nxt3),
                    },
                    c4,
                )
            },
            LetPatV::Var(_) => (t, c),
        },
        TermV::Chn { nam, bod } => {
            let (bod1, c1) = fix_v(*bod, c, names, defs, fuel);
            (TermV::Chn { nam, bod: Box::new(bod1) }, c1)
        },
        TermV::App { tag, fun, arg } => {
            let (a, c1) = fix_v(*fun, c, names, defs, fuel);
            let (b, c2) = fix_v(*arg, c1, names, defs, fuel);
            (TermV::App { tag, fun: Box::new(a), arg: Box::new(b) }, c2)
        },
        TermV::Sup { tag, fst, snd } => {
            let (a, c1) = fix_v(*fst, c, names, defs, fuel);
            let (b, c2) = fix_v(*snd, c1, names, defs, fuel);
            (TermV::Sup { tag, fst: Box::new(a), snd: Box::new(b) }, c2)
        },
        TermV::Tup { fst, snd } => {
            let (a, c1) = fix_v(*fst, c, names, defs, fuel);
            let (b, c2) = fix_v(*snd, c1, names, defs, fuel);
            (TermV::Tup { fst: Box::new(a), snd: Box::new(b) }, c2)
        },
        TermV::Opx { op, fst, snd } => {
            let (a, c1) = fix_v(*fst, c, names, defs, fuel);
            let (b, c2) = fix_v(*snd, c1, names, defs, fuel);
            (TermV::Opx { op, fst: Box::new(a), snd: Box::new(b) }, c2)
        },
        TermV::Match { scrutinee, arms } => {
            let (s1, c1) = fix_v(*scrutinee, c, names, defs, fuel);
            let (arms1, c2) = fix_arms(arms, c1, names, defs, fuel);
            (TermV::Match { scrutinee: Box::new(s1), arms: arms1 }, c2)
        },
        TermV::Var { .. } | TermV::Lnk { .. } | TermV::Num { .. } | TermV::Era => (t, c),
    }
}

/// The arms with their names fixed, from the first to the last: a
/// successor pattern's variable is renamed first, then the body is fixed.
pub open spec fn fix_arms(
    arms: Seq<(PatV, TermV)>,
    c: nat,
    names: Map<Val, Seq<char>>,
    defs: Seq<Definition>,
    fuel: nat,
) -> (Seq<(PatV, TermV)>, nat)
    decreases fuel, arms_size(arms),
{
    if arms.len() == 0 {
        (Seq::empty(), c)
    } else {
        proof {
            lemma_arms_size_split(arms);
        }
        let (p1, c1, t1) = match arms[0].0 {
            PatV::Num(MatchNumV::Succ(nam)) => {
                let (nam2, c1, t1) = fix_name_v(nam, c, arms[0].1);
                (PatV::Num(MatchNumV::Succ(nam2)), c1, t1)
            },
            _ => (arms[0].0, c, arms[0].1),
        };
        proof {
            if let PatV::Num(MatchNumV::Succ(Some(n))) = arms[0].0 {
                lemma_subst_var(arms[0].1, n, var_name(c));
            }
        }
        let (t2, c2) = fix_v(t1, c1, names, defs, fuel);
        let (rest, c3) = fix_arms(arms.subrange(1, arms.len() as int), c2, names, defs, fuel);
        (seq![(p1, t2)] + rest, c3)
    }
}

/// Whether every generated definition that renaming `t` (as `fix_v`
/// does) inlines can be inlined: it exists, has one rule, its body has no
/// single-variable let, and the same holds, in turn, of that body.
pub open spec fn fix_ok(
    t: TermV,
    c: nat,
    names: Map<Val, Seq<char>>,
    defs: Seq<Definition>,
    fuel: nat,
) -> bool
    decreases fuel, size(t),
{
    match t {
        TermV::Lam { tag, nam, bod } => {
            let (nam2, c1, bod1) = fix_name_v(nam, c, *bod);
            proof {
                if nam is Some {
                    lemma_subst_var(*bod, nam->0, var_name(c));
                }
            }
            fix_ok(bod1, c1, names, defs, fuel)
        },
        TermV::Ref { def_id } => generated(names, def_id) && fuel > 0 ==> {
            &&& def_index(defs, def_id) is Some
            &&& defs[def_index(defs, def_id)->0].rules@.len() == 1
            &&& no_let_var(gen_body(defs, def_id))
            &&& fix_ok(gen_body(defs, def_id), c, names, defs, (fuel - 1) as nat)
        },
        TermV::Dup { tag, fst, snd, val, nxt } => {
            let (val1, c1) = fix_v(*val, c, names, defs, fuel);
            let (fst2, c2, nxt1) = fix_name_v(fst, c1, *nxt);
            let (snd2, c3, nxt2) = fix_name_v(snd, c2, nxt1);
            proof {
                if fst is Some {
                    lemma_subst_var(*nxt, fst->0, var_name(c1));
                }
                if snd is Some {
                    lemma_subst_var(nxt1, snd->0, var_name(c2));
                }
            }
            fix_ok(*val, c, names, defs, fuel) && fix_ok(nxt2, c3, names, defs, fuel)
        },
        TermV::Let { pat, val, nxt } => match pat {
            LetPatV::Tup(a, b) => {
                let (a2, c1, nxt1) = fix_name_v(a, c, *nxt);
                let (b2, c2, nxt2) = fix_name_v(b, c1, nxt1);
                proof {
                    if a is Some {
                        lemma_subst_var(*nxt, a->0, var_name(c));
                    }
                    if b is Some {
                        lemma_subst_var(nxt1, b->0, var_name(c1));
                    }
                }
                let (val1, c3) = fix_v(*val, c2, names, defs, fuel);
                fix_ok(*val, c2, names, defs, fuel) && fix_ok(nxt2, c3, names, defs, fuel)
            },
            LetPatV::Var(_) => true,
        },
        TermV::Chn { nam, bod } => fix_ok(*bod, c, names, defs, fuel),
        TermV::App { fun: a, arg: b, .. } | TermV::Sup { fst: a, snd: b, .. } | TermV::Tup {
            fst: a,
            snd: b,
        } | TermV::Opx { fst: a, snd: b, .. } => {
            let (x, c1) = fix_v(*a, c, names, defs, fuel);
            fix_ok(*a, c, names, defs, fuel) && fix_ok(*b, c1, names, defs, fuel)
        },
        TermV::Match { scrutinee, arms } => {
            let (s1, c1) = fix_v(*scrutinee, c, names, defs, fuel);
            fix_ok(*scrutinee, c, names, defs, fuel) && fix_arms_ok(arms, c1, names, defs, fuel)
        },
        TermV::Var { .. } | TermV::Lnk { .. } | TermV::Num { .. } | TermV::Era => true,
    }
}

/// Whether renaming the arms, as `fix_arms` does, inlines only generated
/// definitions that can be inlined.
pub open spec fn fix_arms_ok(
    arms: Seq<(PatV, TermV)>,
    c: nat,
    names: Map<Val, Seq<char>>,
    defs: Seq<Definition>,
    fuel: nat,
) -> bool
    decreases fuel, arms_size(arms),
{
    if arms.len() == 0 {
        true
    } else {
        proof {
            lemma_arms_size_split(arms);
        }
        let (p1, c1, t1) = match arms[0].0 {
            PatV::Num(MatchNumV::Succ(nam)) => {
                let (nam2, c1, t1) = fix_name_v(nam, c, arms[0].1);
                (PatV::Num(MatchNumV::Succ(nam2)), c1, t1)
            },
            _ => (arms[0].0, c, arms[0].1),
        };
        proof {
            if let PatV::Num(MatchNumV::Succ(Some(n))) = arms[0].0 {
                lemma_subst_var(arms[0].1, n, var_name(c));
            }
        }
        let (t2, c2) = fix_v(t1, c1, names, defs, fuel);
        fix_ok(t1, c1, names, defs, fuel) && fix_arms_ok(
            arms.subrange(1, arms.len() as int),
            c2,
            names,
            defs,
            fuel,
        )
    }
}

/// Fixing names never moves the counter back.
pub proof fn lemma_fix_mono(
    t: TermV,
    c: nat,
    names: Map<Val, Seq<char>>,
    defs: Seq<Definition>,
    fuel: nat,
)
    ensures
        fix_v(t, c, names, defs, fuel).1 >= c,
    decreases fuel, size(t),
{
    match t {
        TermV::Lam { tag, nam, bod } => {
            let (nam2, c1, bod1) = fix_name_v(nam, c, *bod);
            if nam is Some {
                lemma_subst_var(*bod, nam->0, var_name(c));
            }
            lemma_fix_mono(bod1, c1, names, defs, fuel);
        },
        TermV::Ref { def_id } => {
            if generated(names, def_id) && fuel > 0 {
                lemma_fix_mono(gen_body(defs, def_id), c, names, defs, (fuel - 1) as nat);
            }
        },
        TermV::Dup { tag, fst, snd, val, nxt } => {
            let (val1, c1) = fix_v(*val, c, names, defs, fuel);
            lemma_fix_mono(*val, c, names, defs, fuel);
            let (fst2, c2, nxt1) = fix_name_v(fst, c1, *nxt);
            let (snd2, c3, nxt2) = fix_name_v(snd, c2, nxt1);
            if fst is Some {
                lemma_subst_var(*nxt, fst->0, var_name(c1));
            }
            if snd is Some {
                lemma_subst_var(nxt1, snd->0, var_name(c2));
            }
            lemma_fix_mono(nxt2, c3, names, defs, fuel);
        },
        TermV::Let { pat, val, nxt } => match pat {
            LetPatV::Tup(a, b) => {
                let (a2, c1, nxt1) = fix_name_v(a, c, *nxt);
                let (b2, c2, nxt2) = fix_name_v(b, c1, nxt1);
                if a is Some {
                    lemma_subst_var(*nxt, a->0, var_name(c));
                }
                if b is Some {
                    lemma_subst_var(nxt1, b->0, var_name(c1));
                }
                let (val1, c3) = fix_v(*val, c2, names, defs, fuel);
                lemma_fix_mono(*val, c2, names, defs, fuel);
                lemma_fix_mono(nxt2, c3, names, defs, fuel);
            },
            LetPatV::Var(_) => {},
        },
        TermV::Chn { bod, .. } => lemma_fix_mono(*bod, c, names, defs, fuel),
        TermV::App { fun: a, arg: b, .. } | TermV::Sup { fst: a, snd: b, .. } | TermV::Tup {
            fst: a,
            snd: b,
        } | TermV::Opx { fst: a, snd: b, .. } => {
            let (x, c1) = fix_v(*a, c, names, defs, fuel);
            lemma_fix_mono(*a, c, names, defs, fuel);
            lemma_fix_mono(*b, c1, names, defs, fuel);
        },
        TermV::Match { scrutinee, arms } => {
            let (s1, c1) = fix_v(*scrutinee, c, names, defs, fuel);
            lemma_fix_mono(*scrutinee, c, names, defs, fuel);
            lemma_fix_arms_mono(arms, c1, names, defs, fuel);
        },
        _ => {},
    }
}

pub proof fn lemma_fix_arms_mono(
    arms: Seq<(PatV, TermV)>,
    c: nat,
    names: Map<Val, Seq<char>>,
    defs: Seq<Definition>,
    fuel: nat,
)
    ensures
        fix_arms(arms, c, names, defs, fuel).1 >= c,
    decreases fuel, arms_size(arms),
{
    if arms.len() > 0 {
        lemma_arms_size_split(arms);
        let (p1, c1, t1) = match arms[0].0 {
            PatV::Num(MatchNumV::Succ(nam)) => {
                let (nam2, c1, t1) = fix_name_v(nam, c, arms[0].1);
                (PatV::Num(MatchNumV::Succ(nam2)), c1, t1)
            },
            _ => (arms[0].0, c, arms[0].1),
        };
        if let PatV::Num(MatchNumV::Succ(Some(n))) = arms[0].0 {
            lemma_subst_var(arms[0].1, n, var_name(c));
        }
        let (t2, c2) = fix_v(t1, c1, names, defs, fuel);
        lemma_fix_mono(t1, c1, names, defs, fuel);
        lemma_fix_arms_mono(arms.subrange(1, arms.len() as int), c2, names, defs, fuel);
    }
}

/// Each arm is smaller than the arms together.
pub proof fn lemma_arms_size_elem(arms: Seq<(PatV, TermV)>, i: int)
    requires
        0 <= i < arms.len(),
    ensures
        size(arms[i].1) < arms_size(arms),
    decreases arms.len(),
{
    if i < arms.len() - 1 {
        let p = arms.subrange(0, arms.len() - 1);
        lemma_arms_size_elem(p, i);
        assert(p[i] == arms[i]);
    }
}

/// Where the binder binds a name, renames it to the name of id `counter`,
/// in the binder and in the body, and moves the counter on.
fn fix_name(nam: &mut Option<Name>, id_counter: &mut Val, bod: &mut Term)
    requires
        *old(nam) is Some ==> *old(id_counter) < Val::MAX,
    ensures
        (super::opt_name(*final(nam)), *final(id_counter) as nat, final(bod)@) == fix_name_v(
            super::opt_name(*old(nam)),
            *old(id_counter) as nat,
            old(bod)@,
        ),
{
    match nam {
        Some(n) => {
            let name = var_id_to_name(*id_counter);
            *id_counter = *id_counter + 1;
            let v = Term::Var { nam: name.clone_name() };
            bod.subst(n, &v);
            *n = name;
        },
        None => {},
    }
}

impl Term {
    /// Renames the binders of the term, in order, to the names of the ids
    /// from `id_counter` on, and inlines (and renames in turn) each
    /// generated definition it refers to. Inlining nests at most as deep as
    /// the book has definitions, which is as deep as it goes where no
    /// generated definition refers back to itself.
    pub fn fix_names(&mut self, id_counter: &mut Val, book: &Book)
        requires
            no_let_var(old(self)@),
            super::defs_sorted(book.defs@),
            fix_ok(old(self)@, *old(id_counter) as nat, book.def_names@.ids, book.defs@, book.defs@.len()),
            fix_v(old(self)@, *old(id_counter) as nat, book.def_names@.ids, book.defs@, book.defs@.len())
                .1 <= Val::MAX,
        ensures
            (final(self)@, *final(id_counter) as nat) == fix_v(
                old(self)@,
                *old(id_counter) as nat,
                book.def_names@.ids,
                book.defs@,
                book.defs@.len(),
            ),
    {
        self.fix_names_within(id_counter, book, book.defs.len() as u64);
    }

    /// Renames the binders of the term, in order, to the names of the ids
    /// from `id_counter` on, and inlines (and renames in turn) each
    /// generated definition it refers to, nesting at most `fuel` deep.
    #[verifier::rlimit(60)]
    #[verifier::spinoff_prover]
    pub fn fix_names_within(&mut self, id_counter: &mut Val, book: &Book, fuel: u64)
        requires
            no_let_var(old(self)@),
            super::defs_sorted(book.defs@),
            fix_ok(old(self)@, *old(id_counter) as nat, book.def_names@.ids, book.defs@, fuel as nat),
            fix_v(old(self)@, *old(id_counter) as nat, book.def_names@.ids, book.defs@, fuel as nat).1
                <= Val::MAX,
        ensures
            (final(self)@, *final(id_counter) as nat) == fix_v(
                old(self)@,
                *old(id_counter) as nat,
                book.def_names@.ids,
                book.defs@,
                fuel as nat,
            ),
        decreases fuel, size(old(self)@),
    {
        let ghost names = book.def_names@.ids;
        let ghost defs = book.defs@;
        let ghost c0 = *id_counter as nat;
        let ghost t0 = self@;
        match self {
            Term::Lam { nam, bod, .. } => {
                proof {
                    if *nam is Some {
                        lemma_subst_var(bod@, (*nam)->0@, var_name(c0));
                    }
                    let (n2, c1, b1) = fix_name_v(super::opt_name(*nam), c0, bod@);
                    lemma_fix_mono(b1, c1, names, defs, fuel as nat);
                }
                fix_name(nam, id_counter, bod);
                bod.fix_names_within(id_counter, book, fuel);
            },
            Term::Ref { def_id } => {
                if book.is_generated_def(*def_id) && fuel > 0 {
                    let def = book.get_def(*def_id).unwrap();
                    def.assert_no_pattern_matching_rules();
                    let mut term = def.rules[0].body.clone_term();
                    term.fix_names_within(id_counter, book, fuel - 1);
                    *self = term;
                }
            },
            Term::Dup { fst, snd, val, nxt, .. } => {
                proof {
                    let (val1, c1) = fix_v(val@, c0, names, defs, fuel as nat);
                    lemma_fix_mono(val@, c0, names, defs, fuel as nat);
                    let (fst2, c2, nxt1) = fix_name_v(super::opt_name(*fst), c1, nxt@);
                    let (snd2, c3, nxt2) = fix_name_v(super::opt_name(*snd), c2, nxt1);
                    if *fst is Some {
                        lemma_subst_var(nxt@, (*fst)->0@, var_name(c1));
                    }
                    if *snd is Some {
                        lemma_subst_var(nxt1, (*snd)->0@, var_name(c2));
                    }
                    lemma_fix_mono(nxt2, c3, names, defs, fuel as nat);
                }
                val.fix_names_within(id_counter, book, fuel);
                fix_name(fst, id_counter, nxt);
                fix_name(snd, id_counter, nxt);
                nxt.fix_names_within(id_counter, book, fuel);
            },
            Term::Chn { bod, .. } => bod.fix_names_within(id_counter, book, fuel),
            Term::App { fun: a, arg: b, .. } => {
                proof {
                    let (x, c1) = fix_v(a@, c0, names, defs, fuel as nat);
                    lemma_fix_mono(b@, c1, names, defs, fuel as nat);
                }
                a.fix_names_within(id_counter, book, fuel);
                b.fix_names_within(id_counter, book, fuel);
            },
            Term::Sup { fst: a, snd: b, .. } => {
                proof {
                    let (x, c1) = fix_v(a@, c0, names, defs, fuel as nat);
                    lemma_fix_mono(b@, c1, names, defs, fuel as nat);
                }
                a.fix_names_within(id_counter, book, fuel);
                b.fix_names_within(id_counter, book, fuel);
            },
            Term::Tup { fst: a, snd: b } => {
                proof {
                    let (x, c1) = fix_v(a@, c0, names, defs, fuel as nat);
                    lemma_fix_mono(b@, c1, names, defs, fuel as nat);
                }
                a.fix_names_within(id_counter, book, fuel);
                b.fix_names_within(id_counter, book, fuel);
            },
            Term::Opx { fst: a, snd: b, .. } => {
                proof {
                    let (x, c1) = fix_v(a@, c0, names, defs, fuel as nat);
                    lemma_fix_mono(b@, c1, names, defs, fuel as nat);
                }
                a.fix_names_within(id_counter, book, fuel);
                b.fix_names_within(id_counter, book, fuel);
            },
            Term::Match { scrutinee, arms } => {
                proof {
                    let (s1, c1) = fix_v(scrutinee@, c0, names, defs, fuel as nat);
                    lemma_fix_arms_mono(arms_view(arms@), c1, names, defs, fuel as nat);
                }
                scrutinee.fix_names_within(id_counter, book, fuel);
                let ghost c1 = *id_counter as nat;
                let ghost old_arms = arms@;
                let ghost av = arms_view(old_arms);
                let ghost total = fix_arms(av, c1, names, defs, fuel as nat);
                proof {
                    lemma_arms_view(old_arms);
                    assert(av.subrange(0, av.len() as int) =~= av);
                    assert(arms_view(arms@.subrange(0, 0)) =~= Seq::<(PatV, TermV)>::empty());
                    assert(no_let_var_arms(av));
                }
                let n = arms.len();
                let mut i: usize = 0;
                while i < n
                    invariant
                        n == old_arms.len(),
                        av == arms_view(old_arms),
                        arms@.len() == n,
                        i <= n,
                        av.len() == n,
                        size(t0) > arms_size(av),
                        t0 == old(self)@,
                        super::defs_sorted(book.defs@),
                        fix_arms_ok(av.subrange(i as int, n as int), *id_counter as nat, names, defs, fuel as nat),
                        names == book.def_names@.ids,
                        defs == book.defs@,
                        no_let_var_arms(av.subrange(i as int, n as int)),
                        forall|j: int| i <= j < n ==> #[trigger] arms@[j] == old_arms[j],
                        total.1 <= Val::MAX,
                        ({
                            let rest = fix_arms(av.subrange(i as int, n as int), *id_counter as nat, names, defs, fuel as nat);
                            &&& total.0 == arms_view(arms@.subrange(0, i as int)) + rest.0
                            &&& total.1 == rest.1
                        }),
                    decreases n - i,
                {
                    let ghost ci = *id_counter as nat;
                    let ghost arms_before = arms@;
                    let ghost suffix = av.subrange(i as int, n as int);
                    proof {
                        lemma_arms_view(old_arms);
                        lemma_arms_size_split(suffix);
                        lemma_no_let_var_arms_split(suffix);
                        lemma_arms_size_elem(av, i as int);
                        assert(suffix[0] == av[i as int]);
                        assert(suffix.subrange(1, suffix.len() as int) =~= av.subrange(i + 1, n as int));
                    }
                    let arm = &mut arms[i];
                    proof {
                        assert(*arm == old_arms[i as int]);
                        assert(av[i as int] == (pat_view(arm.0), term_view(arm.1)));
                    }
                    let ghost p0 = pat_view(arm.0);
                    let ghost b0 = term_view(arm.1);
                    let ghost step = match p0 {
                        PatV::Num(MatchNumV::Succ(nam)) => {
                            let (nam2, c1, t1) = fix_name_v(nam, ci, b0);
                            (PatV::Num(MatchNumV::Succ(nam2)), c1, t1)
                        },
                        _ => (p0, ci, b0),
                    };
                    proof {
                        if let PatV::Num(MatchNumV::Succ(Some(nm))) = p0 {
                            lemma_subst_var(b0, nm, var_name(ci));
                        }
                        let (t2, c2) = fix_v(step.2, step.1, names, defs, fuel as nat);
                        lemma_fix_mono(step.2, step.1, names, defs, fuel as nat);
                        lemma_fix_arms_mono(av.subrange(i + 1, n as int), c2, names, defs, fuel as nat);
                    }
                    match &mut arm.0 {
                        RulePat::Num(MatchNum::Succ(nam)) => {
                            fix_name(nam, id_counter, &mut arm.1);
                        },
                        _ => {},
                    }
                    proof {
                        assert(pat_view(arm.0) == step.0);
                        assert(term_view(arm.1) == step.2);
                        assert(*id_counter as nat == step.1);
                    }
                    arm.1.fix_names_within(id_counter, book, fuel);
                    proof {
                        lemma_arms_view(arms@);
                        let done = arms@.subrange(0, i + 1);
                        lemma_arms_view(done);
                        lemma_arms_view(arms@.subrange(0, i as int));
                        assert(arms_view(done) =~= arms_view(arms@.subrange(0, i as int)).push(
                            (pat_view(arms@[i as int].0), term_view(arms@[i as int].1))));
                        assert forall|j: int| i + 1 <= j < n implies #[trigger] arms@[j] == old_arms[j] by {
                        }
                        let (t2, c2) = fix_v(step.2, step.1, names, defs, fuel as nat);
                        let rest_old = fix_arms(suffix, ci, names, defs, fuel as nat);
                        let rest_new = fix_arms(av.subrange(i + 1, n as int), c2, names, defs, fuel as nat);
                        assert(rest_old == (seq![(step.0, t2)] + rest_new.0, rest_new.1));
                        assert(*id_counter as nat == c2);
                        assert(term_view(arms@[i as int].1) == t2);
                        assert(pat_view(arms@[i as int].0) == step.0);
                        assert(arms@.subrange(0, i + 1).subrange(0, i as int) =~= arms@.subrange(0, i as int));
                        assert(arms@.subrange(0, i as int) =~= arms_before.subrange(0, i as int));
                        assert(total.0 == arms_view(arms_before.subrange(0, i as int)) + rest_old.0);
                        assert(total.0 =~= arms_view(arms@.subrange(0, i + 1)) + rest_new.0);
                    }
                    i = i + 1;
                }
                proof {
                    assert(av.subrange(n as int, n as int) =~= Seq::<(PatV, TermV)>::empty());
                    assert(arms@.subrange(0, n as int) =~= arms@);
                }
            },
            Term::Let { pat, val, nxt } => {
                match pat {
                    LetPat::Tup(a, b) => {
                        proof {
                            let (a2, c1, nxt1) = fix_name_v(super::opt_name(*a), c0, nxt@);
                            let (b2, c2, nxt2) = fix_name_v(super::opt_name(*b), c1, nxt1);
                            if *a is Some {
                                lemma_subst_var(nxt@, (*a)->0@, var_name(c0));
                            }
                            if *b is Some {
                                lemma_subst_var(nxt1, (*b)->0@, var_name(c1));
                            }
                            let (val1, c3) = fix_v(val@, c2, names, defs, fuel as nat);
                            lemma_fix_mono(val@, c2, names, defs, fuel as nat);
                            lemma_fix_mono(nxt2, c3, names, defs, fuel as nat);
                        }
                        fix_name(a, id_counter, nxt);
                        fix_name(b, id_counter, nxt);
                        val.fix_names_within(id_counter, book, fuel);
                        nxt.fix_names_within(id_counter, book, fuel);
                    },
                    LetPat::Var(_) => {},
                }
            },
            Term::Var { .. } | Term::Lnk { .. } | Term::Num { .. } | Term::Era => {},
        }
    }

    /// `fix_names_within`, checking as it goes that each generated
    /// definition it inlines can be inlined and that the ids do not run
    /// out; returns whether they all could and did not (where not, the term
    /// and counter are left part way).
    #[verifier::rlimit(80)]
    #[verifier::spinoff_prover]
    fn fix_names_try(&mut self, id_counter: &mut Val, book: &Book, fuel: u64) -> (r: bool)
        requires
            no_let_var(old(self)@),
            super::defs_sorted(book.defs@),
        ensures
            r == (fix_ok(old(self)@, *old(id_counter) as nat, book.def_names@.ids, book.defs@, fuel as nat)
                && fix_v(old(self)@, *old(id_counter) as nat, book.def_names@.ids, book.defs@, fuel as nat).1
                <= Val::MAX),
            r ==> (final(self)@, *final(id_counter) as nat) == fix_v(
                old(self)@,
                *old(id_counter) as nat,
                book.def_names@.ids,
                book.defs@,
                fuel as nat,
            ),
        decreases fuel, size(old(self)@),
    {
        let ghost names = book.def_names@.ids;
        let ghost defs = book.defs@;
        let ghost c0 = *id_counter as nat;
        let ghost t0 = self@;
        match self {
            Term::Lam { nam, bod, .. } => {
                proof {
                    if *nam is Some {
                        lemma_subst_var(bod@, (*nam)->0@, var_name(c0));
                    }
                    let (n2, c1, b1) = fix_name_v(super::opt_name(*nam), c0, bod@);
                    lemma_fix_mono(b1, c1, names, defs, fuel as nat);
                }
                if nam.is_some() && *id_counter == Val::MAX {
                    return false;
                }
                fix_name(nam, id_counter, bod);
                bod.fix_names_try(id_counter, book, fuel)
            },
            Term::Ref { def_id } => {
                if book.is_generated_def(*def_id) && fuel > 0 {
                    let def = match book.get_def(*def_id) {
                        Some(d) => d,
                        None => {
                            return false;
                        },
                    };
                    if def.rules.len() != 1 {
                        return false;
                    }
                    if !has_no_let_var(&def.rules[0].body) {
                        return false;
                    }
                    let mut term = def.rules[0].body.clone_term();
                    if !term.fix_names_try(id_counter, book, fuel - 1) {
                        return false;
                    }
                    *self = term;
                }
                true
            },
            Term::Dup { fst, snd, val, nxt, .. } => {
                proof {
                    let (val1, c1) = fix_v(val@, c0, names, defs, fuel as nat);
                    lemma_fix_mono(val@, c0, names, defs, fuel as nat);
                    let (fst2, c2, nxt1) = fix_name_v(super::opt_name(*fst), c1, nxt@);
                    let (snd2, c3, nxt2) = fix_name_v(super::opt_name(*snd), c2, nxt1);
                    if *fst is Some {
                        lemma_subst_var(nxt@, (*fst)->0@, var_name(c1));
                    }
                    if *snd is Some {
                        lemma_subst_var(nxt1, (*snd)->0@, var_name(c2));
                    }
                    lemma_fix_mono(nxt2, c3, names, defs, fuel as nat);
                }
                if !val.fix_names_try(id_counter, book, fuel) {
                    return false;
                }
                if fst.is_some() && *id_counter == Val::MAX {
                    return false;
                }
                fix_name(fst, id_counter, nxt);
                if snd.is_some() && *id_counter == Val::MAX {
                    return false;
                }
                fix_name(snd, id_counter, nxt);
                nxt.fix_names_try(id_counter, book, fuel)
            },
            Term::Chn { bod, .. } => bod.fix_names_try(id_counter, book, fuel),
            Term::App { fun: a, arg: b, .. } => {
                proof {
                    let (x, c1) = fix_v(a@, c0, names, defs, fuel as nat);
                    lemma_fix_mono(b@, c1, names, defs, fuel as nat);
                }
                if !a.fix_names_try(id_counter, book, fuel) {
                    return false;
                }
                b.fix_names_try(id_counter, book, fuel)
            },
            Term::Sup { fst: a, snd: b, .. } => {
                proof {
                    let (x, c1) = fix_v(a@, c0, names, defs, fuel as nat);
                    lemma_fix_mono(b@, c1, names, defs, fuel as nat);
                }
                if !a.fix_names_try(id_counter, book, fuel) {
                    return false;
                }
                b.fix_names_try(id_counter, book, fuel)
            },
            Term::Tup { fst: a, snd: b } => {
                proof {
                    let (x, c1) = fix_v(a@, c0, names, defs, fuel as nat);
                    lemma_fix_mono(b@, c1, names, defs, fuel as nat);
                }
                if !a.fix_names_try(id_counter, book, fuel) {
                    return false;
                }
                b.fix_names_try(id_counter, book, fuel)
            },
            Term::Opx { fst: a, snd: b, .. } => {
                proof {
                    let (x, c1) = fix_v(a@, c0, names, defs, fuel as nat);
                    lemma_fix_mono(b@, c1, names, defs, fuel as nat);
                }
                if !a.fix_names_try(id_counter, book, fuel) {
                    return false;
                }
                b.fix_names_try(id_counter, book, fuel)
            },
            Term::Match { scrutinee, arms } => {
                proof {
                    let (s1, c1) = fix_v(scrutinee@, c0, names, defs, fuel as nat);
                    lemma_fix_arms_mono(arms_view(arms@), c1, names, defs, fuel as nat);
                }
                if !scrutinee.fix_names_try(id_counter, book, fuel) {
                    return false;
                }
                let ghost c1 = *id_counter as nat;
                let ghost old_arms = arms@;
                let ghost av = arms_view(old_arms);
                let ghost total = fix_arms(av, c1, names, defs, fuel as nat);
                proof {
                    lemma_arms_view(old_arms);
                    assert(av.subrange(0, av.len() as int) =~= av);
                    assert(arms_view(arms@.subrange(0, 0)) =~= Seq::<(PatV, TermV)>::empty());
                    assert(no_let_var_arms(av));
                }
                let n = arms.len();
                let mut i: usize = 0;
                while i < n
                    invariant
                        n == old_arms.len(),
                        av == arms_view(old_arms),
                        arms@.len() == n,
                        i <= n,
                        av.len() == n,
                        size(t0) > arms_size(av),
                        t0 == old(self)@,
                        c0 == *old(id_counter) as nat,
                        super::defs_sorted(book.defs@),
                        fix_ok(t0, c0, names, defs, fuel as nat) == fix_arms_ok(
                            av.subrange(i as int, n as int),
                            *id_counter as nat,
                            names,
                            defs,
                            fuel as nat,
                        ),
                        fix_v(t0, c0, names, defs, fuel as nat).1 == total.1,
                        names == book.def_names@.ids,
                        defs == book.defs@,
                        no_let_var_arms(av.subrange(i as int, n as int)),
                        forall|j: int| i <= j < n ==> #[trigger] arms@[j] == old_arms[j],
                        ({
                            let rest = fix_arms(av.subrange(i as int, n as int), *id_counter as nat, names, defs, fuel as nat);
                            &&& total.0 == arms_view(arms@.subrange(0, i as int)) + rest.0
                            &&& total.1 == rest.1
                        }),
                    decreases n - i,
                {
                    let ghost ci = *id_counter as nat;
                    let ghost arms_before = arms@;
                    let ghost suffix = av.subrange(i as int, n as int);
                    proof {
                        lemma_arms_view(old_arms);
                        lemma_arms_size_split(suffix);
                        lemma_no_let_var_arms_split(suffix);
                        lemma_arms_size_elem(av, i as int);
                        assert(suffix[0] == av[i as int]);
                        assert(suffix.subrange(1, suffix.len() as int) =~= av.subrange(i + 1, n as int));
                    }
                    let arm = &mut arms[i];
                    proof {
                        assert(*arm == old_arms[i as int]);
                        assert(av[i as int] == (pat_view(arm.0), term_view(arm.1)));
                    }
                    let ghost p0 = pat_view(arm.0);
                    let ghost b0 = term_view(arm.1);
                    let ghost step = match p0 {
                        PatV::Num(MatchNumV::Succ(nam)) => {
                            let (nam2, c1, t1) = fix_name_v(nam, ci, b0);
                            (PatV::Num(MatchNumV::Succ(nam2)), c1, t1)
                        },
                        _ => (p0, ci, b0),
                    };
                    proof {
                        if let PatV::Num(MatchNumV::Succ(Some(nm))) = p0 {
                            lemma_subst_var(b0, nm, var_name(ci));
                        }
                        let (t2, c2) = fix_v(step.2, step.1, names, defs, fuel as nat);
                        lemma_fix_mono(step.2, step.1, names, defs, fuel as nat);
                        lemma_fix_arms_mono(av.subrange(i + 1, n as int), c2, names, defs, fuel as nat);
                    }
                    match &mut arm.0 {
                        RulePat::Num(MatchNum::Succ(nam)) => {
                            if nam.is_some() && *id_counter == Val::MAX {
                                proof {
                                    let (t2, c2) = fix_v(step.2, step.1, names, defs, fuel as nat);
                                    let rest_old = fix_arms(suffix, ci, names, defs, fuel as nat);
                                    let rest_new = fix_arms(av.subrange(i + 1, n as int), c2, names, defs, fuel as nat);
                                    assert(rest_old == (seq![(step.0, t2)] + rest_new.0, rest_new.1));
                                    assert(fix_arms_ok(suffix, ci, names, defs, fuel as nat) == (fix_ok(step.2, step.1, names, defs, fuel as nat) && fix_arms_ok(av.subrange(i + 1, n as int), c2, names, defs, fuel as nat)));
                                }
                                return false;
                            }
                            fix_name(nam, id_counter, &mut arm.1);
                        },
                        _ => {},
                    }
                    proof {
                        assert(pat_view(arm.0) == step.0);
                        assert(term_view(arm.1) == step.2);
                        assert(*id_counter as nat == step.1);
                    }
                    if !arm.1.fix_names_try(id_counter, book, fuel) {
                        proof {
                            let (t2, c2) = fix_v(step.2, step.1, names, defs, fuel as nat);
                            let rest_old = fix_arms(suffix, ci, names, defs, fuel as nat);
                            let rest_new = fix_arms(av.subrange(i + 1, n as int), c2, names, defs, fuel as nat);
                            assert(rest_old == (seq![(step.0, t2)] + rest_new.0, rest_new.1));
                            assert(fix_arms_ok(suffix, ci, names, defs, fuel as nat) == (fix_ok(step.2, step.1, names, defs, fuel as nat) && fix_arms_ok(av.subrange(i + 1, n as int), c2, names, defs, fuel as nat)));
                        }
                        return false;
                    }
                    proof {
                        lemma_arms_view(arms@);
                        let done = arms@.subrange(0, i + 1);
                        lemma_arms_view(done);
                        lemma_arms_view(arms@.subrange(0, i as int));
                        assert(arms_view(done) =~= arms_view(arms@.subrange(0, i as int)).push(
                            (pat_view(arms@[i as int].0), term_view(arms@[i as int].1))));
                        assert forall|j: int| i + 1 <= j < n implies #[trigger] arms@[j] == old_arms[j] by {
                        }
                        let (t2, c2) = fix_v(step.2, step.1, names, defs, fuel as nat);
                        let rest_old = fix_arms(suffix, ci, names, defs, fuel as nat);
                        let rest_new = fix_arms(av.subrange(i + 1, n as int), c2, names, defs, fuel as nat);
                        assert(rest_old == (seq![(step.0, t2)] + rest_new.0, rest_new.1));
                        assert(*id_counter as nat == c2);
                        assert(term_view(arms@[i as int].1) == t2);
                        assert(pat_view(arms@[i as int].0) == step.0);
                        assert(arms@.subrange(0, i + 1).subrange(0, i as int) =~= arms@.subrange(0, i as int));
                        assert(arms@.subrange(0, i as int) =~= arms_before.subrange(0, i as int));
                        assert(total.0 == arms_view(arms_before.subrange(0, i as int)) + rest_old.0);
                        assert(total.0 =~= arms_view(arms@.subrange(0, i + 1)) + rest_new.0);
                    }
                    i = i + 1;
                }
                proof {
                    assert(av.subrange(n as int, n as int) =~= Seq::<(PatV, TermV)>::empty());
                    assert(arms@.subrange(0, n as int) =~= arms@);
                }
                true
            },
            Term::Let { pat, val, nxt } => {
                match pat {
                    LetPat::Tup(a, b) => {
                        proof {
                            let (a2, c1, nxt1) = fix_name_v(super::opt_name(*a), c0, nxt@);
                            let (b2, c2, nxt2) = fix_name_v(super::opt_name(*b), c1, nxt1);
                            if *a is Some {
                                lemma_subst_var(nxt@, (*a)->0@, var_name(c0));
                            }
                            if *b is Some {
                                lemma_subst_var(nxt1, (*b)->0@, var_name(c1));
                            }
                            let (val1, c3) = fix_v(val@, c2, names, defs, fuel as nat);
                            lemma_fix_mono(val@, c2, names, defs, fuel as nat);
                            lemma_fix_mono(nxt2, c3, names, defs, fuel as nat);
                        }
                        if a.is_some() && *id_counter == Val::MAX {
                            return false;
                        }
                        fix_name(a, id_counter, nxt);
                        if b.is_some() && *id_counter == Val::MAX {
                            return false;
                        }
                        fix_name(b, id_counter, nxt);
                        if !val.fix_names_try(id_counter, book, fuel) {
                            return false;
                        }
                        nxt.fix_names_try(id_counter, book, fuel)
                    },
                    LetPat::Var(_) => true,
                }
            },
            Term::Var { .. } | Term::Lnk { .. } | Term::Num { .. } | Term::Era => true,
        }
    }

    /// `fix_names` for any term: renames only where the term has no
    /// single-variable let, each generated definition it would inline can
    /// be inlined, and the ids do not run out; returns whether it renamed,
    /// and otherwise leaves the term and the counter as they were.
    pub fn fix_names_checked(&mut self, id_counter: &mut Val, book: &Book) -> (r: bool)
        requires
            super::defs_sorted(book.defs@),
        ensures
            r == (no_let_var(old(self)@) && fix_ok(
                old(self)@,
                *old(id_counter) as nat,
                book.def_names@.ids,
                book.defs@,
                book.defs@.len(),
            ) && fix_v(old(self)@, *old(id_counter) as nat, book.def_names@.ids, book.defs@, book.defs@.len()).1
                <= Val::MAX),
            r ==> (final(self)@, *final(id_counter) as nat) == fix_v(
                old(self)@,
                *old(id_counter) as nat,
                book.def_names@.ids,
                book.defs@,
                book.defs@.len(),
            ),
            !r ==> final(self)@ == old(self)@ && *final(id_counter) == *old(id_counter),
    {
        if !has_no_let_var(self) {
            return false;
        }
        let mut t = self.clone_term();
        let mut c = *id_counter;
        if t.fix_names_try(&mut c, book, book.defs.len() as u64) {
            *self = t;
            *id_counter = c;
            true
        } else {
            false
        }
    }
}

/// Whether a term has no single-variable let, as `no_let_var` says.
pub fn has_no_let_var(t: &Term) -> (r: bool)
    ensures
        r == no_let_var(t@),
    decreases t,
{
    match t {
        Term::Let { pat, val, nxt } => match pat {
            LetPat::Var(_) => false,
            LetPat::Tup(..) => has_no_let_var(val) && has_no_let_var(nxt),
        },
        Term::Lam { bod, .. } | Term::Chn { bod, .. } => has_no_let_var(bod),
        Term::Dup { val: a, nxt: b, .. } | Term::App { fun: a, arg: b, .. } | Term::Tup { fst: a, snd: b }
        | Term::Sup { fst: a, snd: b, .. } | Term::Opx { fst: a, snd: b, .. } => has_no_let_var(a)
            && has_no_let_var(b),
        Term::Match { scrutinee, arms } => {
            if !has_no_let_var(scrutinee) {
                return false;
            }
            proof {
                lemma_arms_view(arms@);
                assert(arms_view(arms@).subrange(0, 0) =~= Seq::<(PatV, TermV)>::empty());
            }
            let n = arms.len();
            let mut i: usize = 0;
            while i < n
                invariant
                    decreases_to!(*t => arms@),
                    n == arms@.len(),
                    i <= n,
                    arms_view(arms@).len() == n,
                    no_let_var_arms(arms_view(arms@).subrange(0, i as int)),
                    no_let_var(scrutinee@),
                    t@ == (TermV::Match { scrutinee: Box::new(term_view(**scrutinee)), arms: arms_view(arms@) }),
                decreases n - i,
            {
                let arm = &arms[i];
                proof {
                    assert(decreases_to!(arms@ => arms@[i as int]));
                    assert(decreases_to!(*t => arm.1));
                    lemma_arms_view(arms@);
                    let av = arms_view(arms@);
                    assert(av.subrange(0, i + 1).drop_last() =~= av.subrange(0, i as int));
                    assert(av[i as int].1 == term_view(arm.1));
                }
                if !has_no_let_var(&arm.1) {
                    proof {
                        lemma_arms_view(arms@);
                        let av = arms_view(arms@);
                        assert(av[i as int].1 == term_view(arm.1));
                        assert(!no_let_var(av[i as int].1));
                        if no_let_var_arms(av) {
                            lemma_no_let_var_arms_front(av);
                            assert(no_let_var(av[i as int].1));
                        }
                        assert(!no_let_var_arms(av));
                    }
                    return false;
                }
                i = i + 1;
            }
            proof {
                assert(arms_view(arms@).subrange(0, n as int) =~= arms_view(arms@));
            }
            true
        },
        _ => true,
    }
}

/// Fixing names keeps a term free of single-variable lets, where the
/// generated definitions it inlines are.
pub proof fn lemma_fix_no_let_var(
    t: TermV,
    c: nat,
    names: Map<Val, Seq<char>>,
    defs: Seq<Definition>,
    fuel: nat,
)
    requires
        no_let_var(t),
        fix_ok(t, c, names, defs, fuel),
    ensures
        no_let_var(fix_v(t, c, names, defs, fuel).0),
    decreases fuel, size(t),
{
    match t {
        TermV::Lam { tag, nam, bod } => {
            let (nam2, c1, bod1) = fix_name_v(nam, c, *bod);
            if nam is Some {
                lemma_subst_var(*bod, nam->0, var_name(c));
            }
            lemma_fix_no_let_var(bod1, c1, names, defs, fuel);
        },
        TermV::Ref { def_id } => {
            if generated(names, def_id) && fuel > 0 {
                lemma_fix_no_let_var(gen_body(defs, def_id), c, names, defs, (fuel - 1) as nat);
            }
        },
        TermV::Dup { tag, fst, snd, val, nxt } => {
            let (val1, c1) = fix_v(*val, c, names, defs, fuel);
            lemma_fix_no_let_var(*val, c, names, defs, fuel);
            let (fst2, c2, nxt1) = fix_name_v(fst, c1, *nxt);
            let (snd2, c3, nxt2) = fix_name_v(snd, c2, nxt1);
            if fst is Some {
                lemma_subst_var(*nxt, fst->0, var_name(c1));
            }
            if snd is Some {
                lemma_subst_var(nxt1, snd->0, var_name(c2));
            }
            lemma_fix_no_let_var(nxt2, c3, names, defs, fuel);
        },
        TermV::Let { pat, val, nxt } => match pat {
            LetPatV::Tup(a, b) => {
                let (a2, c1, nxt1) = fix_name_v(a, c, *nxt);
                let (b2, c2, nxt2) = fix_name_v(b, c1, nxt1);
                if a is Some {
                    lemma_subst_var(*nxt, a->0, var_name(c));
                }
                if b is Some {
                    lemma_subst_var(nxt1, b->0, var_name(c1));
                }
                let (val1, c3) = fix_v(*val, c2, names, defs, fuel);
                lemma_fix_no_let_var(*val, c2, names, defs, fuel);
                lemma_fix_no_let_var(nxt2, c3, names, defs, fuel);
            },
            LetPatV::Var(_) => {},
        },
        TermV::Chn { bod, .. } => lemma_fix_no_let_var(*bod, c, names, defs, fuel),
        TermV::App { fun: a, arg: b, .. } | TermV::Sup { fst: a, snd: b, .. } | TermV::Tup {
            fst: a,
            snd: b,
        } | TermV::Opx { fst: a, snd: b, .. } => {
            let (x, c1) = fix_v(*a, c, names, defs, fuel);
            lemma_fix_no_let_var(*a, c, names, defs, fuel);
            lemma_fix_no_let_var(*b, c1, names, defs, fuel);
        },
        TermV::Match { scrutinee, arms } => {
            let (s1, c1) = fix_v(*scrutinee, c, names, defs, fuel);
            lemma_fix_no_let_var(*scrutinee, c, names, defs, fuel);
            lemma_fix_arms_no_let_var(arms, c1, names, defs, fuel);
        },
        _ => {},
    }
}

pub proof fn lemma_fix_arms_no_let_var(
    arms: Seq<(PatV, TermV)>,
    c: nat,
    names: Map<Val, Seq<char>>,
    defs: Seq<Definition>,
    fuel: nat,
)
    requires
        no_let_var_arms(arms),
        fix_arms_ok(arms, c, names, defs, fuel),
    ensures
        no_let_var_arms(fix_arms(arms, c, names, defs, fuel).0),
    decreases fuel, arms_size(arms),
{
    if arms.len() > 0 {
        lemma_arms_size_split(arms);
        lemma_no_let_var_arms_split(arms);
        let (p1, c1, t1) = match arms[0].0 {
            PatV::Num(MatchNumV::Succ(nam)) => {
                let (nam2, c1, t1) = fix_name_v(nam, c, arms[0].1);
                (PatV::Num(MatchNumV::Succ(nam2)), c1, t1)
            },
            _ => (arms[0].0, c, arms[0].1),
        };
        if let PatV::Num(MatchNumV::Succ(Some(n))) = arms[0].0 {
            lemma_subst_var(arms[0].1, n, var_name(c));
        }
        let (t2, c2) = fix_v(t1, c1, names, defs, fuel);
        lemma_fix_no_let_var(t1, c1, names, defs, fuel);
        let tail = arms.subrange(1, arms.len() as int);
        lemma_fix_arms_no_let_var(tail, c2, names, defs, fuel);
        let rest = fix_arms(tail, c2, names, defs, fuel).0;
        let out = seq![(p1, t2)] + rest;
        lemma_no_let_var_arms_split(out);
        assert(out.subrange(1, out.len() as int) =~= rest);
    }
}

/// The name an optional binder binds, as a sequence of none or one.
pub open spec fn binder_seq(o: Option<Seq<char>>) -> Seq<Seq<char>> {
    match o {
        Some(n) => seq![n],
        None => Seq::empty(),
    }
}

/// The names the binders of a term bind, in the order renaming visits
/// them: a lambda's before its body; a duplication's after its value; a
/// tuple let's before its value; a match's arms in order, each arm's
/// predecessor before its body.
pub open spec fn binder_names(t: TermV) -> Seq<Seq<char>>
    decreases t,
{
    match t {
        TermV::Lam { nam, bod, .. } => binder_seq(nam) + binder_names(*bod),
        TermV::Dup { fst, snd, val, nxt, .. } => binder_names(*val) + binder_seq(fst) + binder_seq(snd)
            + binder_names(*nxt),
        TermV::Let { pat, val, nxt } => match pat {
            LetPatV::Tup(a, b) => binder_seq(a) + binder_seq(b) + binder_names(*val) + binder_names(*nxt),
            LetPatV::Var(n) => seq![n] + binder_names(*val) + binder_names(*nxt),
        },
        TermV::Chn { bod, .. } => binder_names(*bod),
        TermV::App { fun: a, arg: b, .. } | TermV::Tup { fst: a, snd: b } | TermV::Sup {
            fst: a,
            snd: b,
            ..
        } | TermV::Opx { fst: a, snd: b, .. } => binder_names(*a) + binder_names(*b),
        TermV::Match { scrutinee, arms } => binder_names(*scrutinee) + binder_names_arms(arms),
        _ => Seq::empty(),
    }
}

/// The names the binders of match arms bind, arm by arm.
pub open spec fn binder_names_arms(arms: Seq<(PatV, TermV)>) -> Seq<Seq<char>>
    decreases arms,
{
    if arms.len() == 0 {
        Seq::empty()
    } else {
        binder_seq(arm_opt(arms[0].0)) + binder_names(arms[0].1) + binder_names_arms(
            arms.subrange(1, arms.len() as int),
        )
    }
}

/// Whether no reference in a term is to a generated definition.
pub open spec fn no_gen_ref(t: TermV, names: Map<Val, Seq<char>>) -> bool
    decreases t,
{
    match t {
        TermV::Ref { def_id } => !generated(names, def_id),
        TermV::Lam { bod, .. } | TermV::Chn { bod, .. } => no_gen_ref(*bod, names),
        TermV::Let { val: a, nxt: b, .. } | TermV::Dup { val: a, nxt: b, .. } | TermV::App {
            fun: a,
            arg: b,
            ..
        } | TermV::Tup { fst: a, snd: b } | TermV::Sup { fst: a, snd: b, .. } | TermV::Opx {
            fst: a,
            snd: b,
            ..
        } => no_gen_ref(*a, names) && no_gen_ref(*b, names),
        TermV::Match { scrutinee, arms } => no_gen_ref(*scrutinee, names) && no_gen_ref_arms(arms, names),
        _ => true,
    }
}

/// Whether no reference in the arms is to a generated definition.
pub open spec fn no_gen_ref_arms(arms: Seq<(PatV, TermV)>, names: Map<Val, Seq<char>>) -> bool
    decreases arms,
{
    if arms.len() == 0 {
        true
    } else {
        no_gen_ref(arms[0].1, names) && no_gen_ref_arms(arms.subrange(1, arms.len() as int), names)
    }
}

/// The names of the ids from `c` on, `k` of them.
pub open spec fn names_from(c: nat, k: nat) -> Seq<Seq<char>> {
    Seq::new(k, |i: int| var_name((c + i) as nat))
}

/// Substituting a variable by a variable keeps the binders of a term and
/// its references.
pub proof fn lemma_subst_var_binders(t: TermV, from: Seq<char>, x: Seq<char>, names: Map<Val, Seq<char>>)
    ensures
        binder_names(subst_v(t, from, TermV::Var { nam: x })) == binder_names(t),
        no_gen_ref(subst_v(t, from, TermV::Var { nam: x }), names) == no_gen_ref(t, names),
    decreases t,
{
    match t {
        TermV::Lam { bod, .. } | TermV::Chn { bod, .. } => lemma_subst_var_binders(*bod, from, x, names),
        TermV::Let { val: a, nxt: b, .. } | TermV::Dup { val: a, nxt: b, .. } | TermV::App {
            fun: a,
            arg: b,
            ..
        } | TermV::Tup { fst: a, snd: b } | TermV::Sup { fst: a, snd: b, .. } | TermV::Opx {
            fst: a,
            snd: b,
            ..
        } => {
            lemma_subst_var_binders(*a, from, x, names);
            lemma_subst_var_binders(*b, from, x, names);
        },
        TermV::Match { scrutinee, arms } => {
            lemma_subst_var_binders(*scrutinee, from, x, names);
            lemma_subst_var_binders_arms(arms, from, x, names);
        },
        _ => {},
    }
}

pub proof fn lemma_subst_var_binders_arms(
    arms: Seq<(PatV, TermV)>,
    from: Seq<char>,
    x: Seq<char>,
    names: Map<Val, Seq<char>>,
)
    ensures
        binder_names_arms(subst_arms(arms, from, TermV::Var { nam: x })) == binder_names_arms(arms),
        no_gen_ref_arms(subst_arms(arms, from, TermV::Var { nam: x }), names) == no_gen_ref_arms(arms, names),
    decreases arms,
{
    let v = TermV::Var { nam: x };
    lemma_subst_arms(arms, from, v);
    if arms.len() > 0 {
        let tail = arms.subrange(1, arms.len() as int);
        lemma_subst_arms(tail, from, v);
        let s = subst_arms(arms, from, v);
        assert(s.subrange(1, s.len() as int) =~= subst_arms(tail, from, v)) by {
            assert forall|i: int| 0 <= i < tail.len() implies s.subrange(1, s.len() as int)[i]
                == #[trigger] subst_arms(tail, from, v)[i] by {
                assert(s[i + 1] == super::subst::subst_arm(arms[i + 1], from, v));
                assert(tail[i] == arms[i + 1]);
            }
        }
        assert(s[0] == super::subst::subst_arm(arms[0], from, v));
        if !arm_binds(arms[0].0, from) {
            lemma_subst_var_binders(arms[0].1, from, x, names);
        }
        lemma_subst_var_binders_arms(tail, from, x, names);
    }
}

/// Renaming gives the binders of the result, in the order it visits them,
/// the names of the ids from the counter on, one each, so that no two share
/// a name; where the term refers to no generated definition, it moves the
/// counter on by the number of its binders that bind a name. (The term has
/// no single-variable let, and the generated definitions it inlines can be
/// inlined.)
#[verifier::rlimit(80)]
#[verifier::spinoff_prover]
pub proof fn law_fix_names_in_order(
    t: TermV,
    c: nat,
    names: Map<Val, Seq<char>>,
    defs: Seq<Definition>,
    fuel: nat,
)
    requires
        no_let_var(t),
        fix_ok(t, c, names, defs, fuel),
    ensures
        fix_v(t, c, names, defs, fuel).1 >= c,
        binder_names(fix_v(t, c, names, defs, fuel).0) == names_from(
            c,
            (fix_v(t, c, names, defs, fuel).1 - c) as nat,
        ),
        no_gen_ref(t, names) ==> fix_v(t, c, names, defs, fuel).1 == c + binder_names(t).len(),
    decreases fuel, size(t),
{
    let r = fix_v(t, c, names, defs, fuel);
    match t {
        TermV::Lam { tag, nam, bod } => {
            let (nam2, c1, bod1) = fix_name_v(nam, c, *bod);
            if nam is Some {
                lemma_subst_var(*bod, nam->0, var_name(c));
                lemma_subst_var_binders(*bod, nam->0, var_name(c), names);
            }
            law_fix_names_in_order(bod1, c1, names, defs, fuel);
            assert(binder_names(r.0) =~= names_from(c, (r.1 - c) as nat));
        },
        TermV::Dup { tag, fst, snd, val, nxt } => {
            let (val1, c1) = fix_v(*val, c, names, defs, fuel);
            law_fix_names_in_order(*val, c, names, defs, fuel);
            let (fst2, c2, nxt1) = fix_name_v(fst, c1, *nxt);
            let (snd2, c3, nxt2) = fix_name_v(snd, c2, nxt1);
            if fst is Some {
                lemma_subst_var(*nxt, fst->0, var_name(c1));
                lemma_subst_var_binders(*nxt, fst->0, var_name(c1), names);
            }
            if snd is Some {
                lemma_subst_var(nxt1, snd->0, var_name(c2));
                lemma_subst_var_binders(nxt1, snd->0, var_name(c2), names);
            }
            law_fix_names_in_order(nxt2, c3, names, defs, fuel);
            assert(binder_names(r.0) =~= names_from(c, (r.1 - c) as nat));
        },
        TermV::Let { pat, val, nxt } => match pat {
            LetPatV::Tup(a, b) => {
                let (a2, c1, nxt1) = fix_name_v(a, c, *nxt);
                let (b2, c2, nxt2) = fix_name_v(b, c1, nxt1);
                if a is Some {
                    lemma_subst_var(*nxt, a->0, var_name(c));
                    lemma_subst_var_binders(*nxt, a->0, var_name(c), names);
                }
                if b is Some {
                    lemma_subst_var(nxt1, b->0, var_name(c1));
                    lemma_subst_var_binders(nxt1, b->0, var_name(c1), names);
                }
                let (val1, c3) = fix_v(*val, c2, names, defs, fuel);
                law_fix_names_in_order(*val, c2, names, defs, fuel);
                law_fix_names_in_order(nxt2, c3, names, defs, fuel);
                assert(binder_names(r.0) =~= names_from(c, (r.1 - c) as nat));
            },
            LetPatV::Var(_) => {},
        },
        TermV::Chn { bod, .. } => law_fix_names_in_order(*bod, c, names, defs, fuel),
        TermV::App { fun: a, arg: b, .. } | TermV::Sup { fst: a, snd: b, .. } | TermV::Tup {
            fst: a,
            snd: b,
        } | TermV::Opx { fst: a, snd: b, .. } => {
            let (x, c1) = fix_v(*a, c, names, defs, fuel);
            law_fix_names_in_order(*a, c, names, defs, fuel);
            law_fix_names_in_order(*b, c1, names, defs, fuel);
            assert(binder_names(r.0) =~= names_from(c, (r.1 - c) as nat));
        },
        TermV::Match { scrutinee, arms } => {
            let (s1, c1) = fix_v(*scrutinee, c, names, defs, fuel);
            law_fix_names_in_order(*scrutinee, c, names, defs, fuel);
            lemma_no_let_var_arms_front(arms);
            law_fix_arms_in_order(arms, c1, names, defs, fuel);
            assert(binder_names(r.0) =~= names_from(c, (r.1 - c) as nat));
        },
        TermV::Ref { def_id } => {
            if generated(names, def_id) && fuel > 0 {
                law_fix_names_in_order(gen_body(defs, def_id), c, names, defs, (fuel - 1) as nat);
            } else {
                assert(binder_names(r.0) =~= names_from(c, 0));
            }
        },
        _ => {
            assert(binder_names(r.0) =~= names_from(c, 0));
        },
    }
}

/// Whether each arm's body has no single-variable let, arm by arm from the
/// first.
pub open spec fn no_let_var_arms_front(arms: Seq<(PatV, TermV)>) -> bool {
    forall|i: int| 0 <= i < arms.len() ==> no_let_var(#[trigger] arms[i].1)
}

pub proof fn lemma_no_let_var_arms_front(arms: Seq<(PatV, TermV)>)
    requires
        no_let_var_arms(arms),
    ensures
        no_let_var_arms_front(arms),
    decreases arms.len(),
{
    if arms.len() > 0 {
        let p = arms.subrange(0, arms.len() - 1);
        lemma_no_let_var_arms_front(p);
        assert forall|i: int| 0 <= i < arms.len() implies no_let_var(#[trigger] arms[i].1) by {
            if i < arms.len() - 1 {
                assert(p[i] == arms[i]);
            }
        }
    }
}

/// `law_fix_names_in_order`, for the arms of a match.
pub proof fn law_fix_arms_in_order(
    arms: Seq<(PatV, TermV)>,
    c: nat,
    names: Map<Val, Seq<char>>,
    defs: Seq<Definition>,
    fuel: nat,
)
    requires
        no_let_var_arms_front(arms),
        fix_arms_ok(arms, c, names, defs, fuel),
    ensures
        fix_arms(arms, c, names, defs, fuel).1 >= c,
        binder_names_arms(fix_arms(arms, c, names, defs, fuel).0) == names_from(
            c,
            (fix_arms(arms, c, names, defs, fuel).1 - c) as nat,
        ),
        no_gen_ref_arms(arms, names) ==> fix_arms(arms, c, names, defs, fuel).1 == c
            + binder_names_arms(arms).len(),
    decreases fuel, arms_size(arms),
{
    let r = fix_arms(arms, c, names, defs, fuel);
    if arms.len() == 0 {
        assert(binder_names_arms(r.0) =~= names_from(c, 0));
    } else {
        lemma_arms_size_split(arms);
        let (p1, c1, t1) = match arms[0].0 {
            PatV::Num(MatchNumV::Succ(nam)) => {
                let (nam2, c1, t1) = fix_name_v(nam, c, arms[0].1);
                (PatV::Num(MatchNumV::Succ(nam2)), c1, t1)
            },
            _ => (arms[0].0, c, arms[0].1),
        };
        assert(no_let_var(arms[0].1));
        if let PatV::Num(MatchNumV::Succ(Some(n))) = arms[0].0 {
            lemma_subst_var(arms[0].1, n, var_name(c));
            lemma_subst_var_binders(arms[0].1, n, var_name(c), names);
        }
        let (t2, c2) = fix_v(t1, c1, names, defs, fuel);
        law_fix_names_in_order(t1, c1, names, defs, fuel);
        let tail = arms.subrange(1, arms.len() as int);
        assert forall|i: int| 0 <= i < tail.len() implies no_let_var(#[trigger] tail[i].1) by {
            assert(tail[i] == arms[i + 1]);
        }
        law_fix_arms_in_order(tail, c2, names, defs, fuel);
        let rest = fix_arms(tail, c2, names, defs, fuel);
        let out = seq![(p1, t2)] + rest.0;
        assert(r.0 == out);
        assert(out[0] == (p1, t2));
        assert(out.subrange(1, out.len() as int) =~= rest.0);
        assert(arm_opt(p1) == match arm_opt(arms[0].0) {
            Some(_) => Some(var_name(c)),
            None => None::<Seq<char>>,
        });
        assert(binder_names_arms(r.0) =~= names_from(c, (r.1 - c) as nat));
    }
}

/// A term that refers to no generated definition inlines none.
pub proof fn lemma_no_gen_ref_fix_ok(
    t: TermV,
    c: nat,
    names: Map<Val, Seq<char>>,
    defs: Seq<Definition>,
    fuel: nat,
)
    requires
        no_gen_ref(t, names),
    ensures
        fix_ok(t, c, names, defs, fuel),
    decreases fuel, size(t),
{
    match t {
        TermV::Lam { tag, nam, bod } => {
            let (nam2, c1, bod1) = fix_name_v(nam, c, *bod);
            if nam is Some {
                lemma_subst_var(*bod, nam->0, var_name(c));
                lemma_subst_var_binders(*bod, nam->0, var_name(c), names);
            }
            lemma_no_gen_ref_fix_ok(bod1, c1, names, defs, fuel);
        },
        TermV::Dup { tag, fst, snd, val, nxt } => {
            let (val1, c1) = fix_v(*val, c, names, defs, fuel);
            lemma_no_gen_ref_fix_ok(*val, c, names, defs, fuel);
            let (fst2, c2, nxt1) = fix_name_v(fst, c1, *nxt);
            let (snd2, c3, nxt2) = fix_name_v(snd, c2, nxt1);
            if fst is Some {
                lemma_subst_var(*nxt, fst->0, var_name(c1));
                lemma_subst_var_binders(*nxt, fst->0, var_name(c1), names);
            }
            if snd is Some {
                lemma_subst_var(nxt1, snd->0, var_name(c2));
                lemma_subst_var_binders(nxt1, snd->0, var_name(c2), names);
            }
            lemma_no_gen_ref_fix_ok(nxt2, c3, names, defs, fuel);
        },
        TermV::Let { pat, val, nxt } => match pat {
            LetPatV::Tup(a, b) => {
                let (a2, c1, nxt1) = fix_name_v(a, c, *nxt);
                let (b2, c2, nxt2) = fix_name_v(b, c1, nxt1);
                if a is Some {
                    lemma_subst_var(*nxt, a->0, var_name(c));
                    lemma_subst_var_binders(*nxt, a->0, var_name(c), names);
                }
                if b is Some {
                    lemma_subst_var(nxt1, b->0, var_name(c1));
                    lemma_subst_var_binders(nxt1, b->0, var_name(c1), names);
                }
                let (val1, c3) = fix_v(*val, c2, names, defs, fuel);
                lemma_no_gen_ref_fix_ok(*val, c2, names, defs, fuel);
                lemma_no_gen_ref_fix_ok(nxt2, c3, names, defs, fuel);
            },
            LetPatV::Var(_) => {},
        },
        TermV::Chn { bod, .. } => lemma_no_gen_ref_fix_ok(*bod, c, names, defs, fuel),
        TermV::App { fun: a, arg: b, .. } | TermV::Sup { fst: a, snd: b, .. } | TermV::Tup {
            fst: a,
            snd: b,
        } | TermV::Opx { fst: a, snd: b, .. } => {
            let (x, c1) = fix_v(*a, c, names, defs, fuel);
            lemma_no_gen_ref_fix_ok(*a, c, names, defs, fuel);
            lemma_no_gen_ref_fix_ok(*b, c1, names, defs, fuel);
        },
        TermV::Match { scrutinee, arms } => {
            let (s1, c1) = fix_v(*scrutinee, c, names, defs, fuel);
            lemma_no_gen_ref_fix_ok(*scrutinee, c, names, defs, fuel);
            lemma_no_gen_ref_fix_arms_ok(arms, c1, names, defs, fuel);
        },
        _ => {},
    }
}

pub proof fn lemma_no_gen_ref_fix_arms_ok(
    arms: Seq<(PatV, TermV)>,
    c: nat,
    names: Map<Val, Seq<char>>,
    defs: Seq<Definition>,
    fuel: nat,
)
    requires
        no_gen_ref_arms(arms, names),
    ensures
        fix_arms_ok(arms, c, names, defs, fuel),
    decreases fuel, arms_size(arms),
{
    if arms.len() > 0 {
        lemma_arms_size_split(arms);
        let (p1, c1, t1) = match arms[0].0 {
            PatV::Num(MatchNumV::Succ(nam)) => {
                let (nam2, c1, t1) = fix_name_v(nam, c, arms[0].1);
                (PatV::Num(MatchNumV::Succ(nam2)), c1, t1)
            },
            _ => (arms[0].0, c, arms[0].1),
        };
        if let PatV::Num(MatchNumV::Succ(Some(n))) = arms[0].0 {
            lemma_subst_var(arms[0].1, n, var_name(c));
            lemma_subst_var_binders(arms[0].1, n, var_name(c), names);
        }
        let (t2, c2) = fix_v(t1, c1, names, defs, fuel);
        lemma_no_gen_ref_fix_ok(t1, c1, names, defs, fuel);
        lemma_no_gen_ref_fix_arms_ok(arms.subrange(1, arms.len() as int), c2, names, defs, fuel);
    }
}

/// Renaming a term with no single-variable let that refers to no generated
/// definition moves the counter on by the number of its binders that bind
/// a name, and names those binders, in the order it visits them, after the
/// ids from the counter on.
pub proof fn law_fix_names_count(
    t: TermV,
    c: nat,
    names: Map<Val, Seq<char>>,
    defs: Seq<Definition>,
    fuel: nat,
)
    requires
        no_let_var(t),
        no_gen_ref(t, names),
    ensures
        fix_v(t, c, names, defs, fuel).1 == c + binder_names(t).len(),
        binder_names(fix_v(t, c, names, defs, fuel).0) == names_from(c, binder_names(t).len()),
{
    lemma_no_gen_ref_fix_ok(t, c, names, defs, fuel);
    law_fix_names_in_order(t, c, names, defs, fuel);
}

/// Whether renaming `t`, as `fix_v` does, meets every generated
/// definition with inlining depth left: it never stops at a reference to
/// one for want of fuel.
pub open spec fn fix_done(
    t: TermV,
    c: nat,
    names: Map<Val, Seq<char>>,
    defs: Seq<Definition>,
    fuel: nat,
) -> bool
    decreases fuel, size(t),
{
    match t {
        TermV::Lam { tag, nam, bod } => {
            let (nam2, c1, bod1) = fix_name_v(nam, c, *bod);
            proof {
                if nam is Some {
                    lemma_subst_var(*bod, nam->0, var_name(c));
                }
            }
            fix_done(bod1, c1, names, defs, fuel)
        },
        TermV::Ref { def_id } => generated(names, def_id) ==> fuel > 0 && fix_done(
            gen_body(defs, def_id),
            c,
            names,
            defs,
            (fuel - 1) as nat,
        ),
        TermV::Dup { tag, fst, snd, val, nxt } => {
            let (val1, c1) = fix_v(*val, c, names, defs, fuel);
            let (fst2, c2, nxt1) = fix_name_v(fst, c1, *nxt);
            let (snd2, c3, nxt2) = fix_name_v(snd, c2, nxt1);
            proof {
                if fst is Some {
                    lemma_subst_var(*nxt, fst->0, var_name(c1));
                }
                if snd is Some {
                    lemma_subst_var(nxt1, snd->0, var_name(c2));
                }
            }
            fix_done(*val, c, names, defs, fuel) && fix_done(nxt2, c3, names, defs, fuel)
        },
        TermV::Let { pat, val, nxt } => match pat {
            LetPatV::Tup(a, b) => {
                let (a2, c1, nxt1) = fix_name_v(a, c, *nxt);
                let (b2, c2, nxt2) = fix_name_v(b, c1, nxt1);
                proof {
                    if a is Some {
                        lemma_subst_var(*nxt, a->0, var_name(c));
                    }
                    if b is Some {
                        lemma_subst_var(nxt1, b->0, var_name(c1));
                    }
                }
                let (val1, c3) = fix_v(*val, c2, names, defs, fuel);
                fix_done(*val, c2, names, defs, fuel) && fix_done(nxt2, c3, names, defs, fuel)
            },
            LetPatV::Var(_) => true,
        },
        TermV::Chn { nam, bod } => fix_done(*bod, c, names, defs, fuel),
        TermV::App { fun: a, arg: b, .. } | TermV::Sup { fst: a, snd: b, .. } | TermV::Tup {
            fst: a,
            snd: b,
        } | TermV::Opx { fst: a, snd: b, .. } => {
            let (x, c1) = fix_v(*a, c, names, defs, fuel);
            fix_done(*a, c, names, defs, fuel) && fix_done(*b, c1, names, defs, fuel)
        },
        TermV::Match { scrutinee, arms } => {
            let (s1, c1) = fix_v(*scrutinee, c, names, defs, fuel);
            fix_done(*scrutinee, c, names, defs, fuel) && fix_arms_done(arms, c1, names, defs, fuel)
        },
        TermV::Var { .. } | TermV::Lnk { .. } | TermV::Num { .. } | TermV::Era => true,
    }
}

/// `fix_done`, for the arms of a match.
pub open spec fn fix_arms_done(
    arms: Seq<(PatV, TermV)>,
    c: nat,
    names: Map<Val, Seq<char>>,
    defs: Seq<Definition>,
    fuel: nat,
) -> bool
    decreases fuel, arms_size(arms),
{
    if arms.len() == 0 {
        true
    } else {
        proof {
            lemma_arms_size_split(arms);
        }
        let (p1, c1, t1) = match arms[0].0 {
            PatV::Num(MatchNumV::Succ(nam)) => {
                let (nam2, c1, t1) = fix_name_v(nam, c, arms[0].1);
                (PatV::Num(MatchNumV::Succ(nam2)), c1, t1)
            },
            _ => (arms[0].0, c, arms[0].1),
        };
        proof {
            if let PatV::Num(MatchNumV::Succ(Some(n))) = arms[0].0 {
                lemma_subst_var(arms[0].1, n, var_name(c));
            }
        }
        let (t2, c2) = fix_v(t1, c1, names, defs, fuel);
        fix_done(t1, c1, names, defs, fuel) && fix_arms_done(
            arms.subrange(1, arms.len() as int),
            c2,
            names,
            defs,
            fuel,
        )
    }
}

/// Renaming inlines every generated definition: where it never runs out
/// of inlining depth, the result refers to no generated definition.
pub proof fn law_fix_names_inlines_all(
    t: TermV,
    c: nat,
    names: Map<Val, Seq<char>>,
    defs: Seq<Definition>,
    fuel: nat,
)
    requires
        no_let_var(t),
        fix_ok(t, c, names, defs, fuel),
        fix_done(t, c, names, defs, fuel),
    ensures
        no_gen_ref(fix_v(t, c, names, defs, fuel).0, names),
    decreases fuel, size(t),
{
    match t {
        TermV::Lam { tag, nam, bod } => {
            let (nam2, c1, bod1) = fix_name_v(nam, c, *bod);
            if nam is Some {
                lemma_subst_var(*bod, nam->0, var_name(c));
            }
            law_fix_names_inlines_all(bod1, c1, names, defs, fuel);
        },
        TermV::Ref { def_id } => {
            if generated(names, def_id) {
                law_fix_names_inlines_all(gen_body(defs, def_id), c, names, defs, (fuel - 1) as nat);
            }
        },
        TermV::Dup { tag, fst, snd, val, nxt } => {
            let (val1, c1) = fix_v(*val, c, names, defs, fuel);
            law_fix_names_inlines_all(*val, c, names, defs, fuel);
            let (fst2, c2, nxt1) = fix_name_v(fst, c1, *nxt);
            let (snd2, c3, nxt2) = fix_name_v(snd, c2, nxt1);
            if fst is Some {
                lemma_subst_var(*nxt, fst->0, var_name(c1));
            }
            if snd is Some {
                lemma_subst_var(nxt1, snd->0, var_name(c2));
            }
            law_fix_names_inlines_all(nxt2, c3, names, defs, fuel);
        },
        TermV::Let { pat, val, nxt } => match pat {
            LetPatV::Tup(a, b) => {
                let (a2, c1, nxt1) = fix_name_v(a, c, *nxt);
                let (b2, c2, nxt2) = fix_name_v(b, c1, nxt1);
                if a is Some {
                    lemma_subst_var(*nxt, a->0, var_name(c));
                }
                if b is Some {
                    lemma_subst_var(nxt1, b->0, var_name(c1));
                }
                let (val1, c3) = fix_v(*val, c2, names, defs, fuel);
                law_fix_names_inlines_all(*val, c2, names, defs, fuel);
                law_fix_names_inlines_all(nxt2, c3, names, defs, fuel);
            },
            LetPatV::Var(_) => {},
        },
        TermV::Chn { bod, .. } => law_fix_names_inlines_all(*bod, c, names, defs, fuel),
        TermV::App { fun: a, arg: b, .. } | TermV::Sup { fst: a, snd: b, .. } | TermV::Tup {
            fst: a,
            snd: b,
        } | TermV::Opx { fst: a, snd: b, .. } => {
            let (x, c1) = fix_v(*a, c, names, defs, fuel);
            law_fix_names_inlines_all(*a, c, names, defs, fuel);
            law_fix_names_inlines_all(*b, c1, names, defs, fuel);
        },
        TermV::Match { scrutinee, arms } => {
            let (s1, c1) = fix_v(*scrutinee, c, names, defs, fuel);
            law_fix_names_inlines_all(*scrutinee, c, names, defs, fuel);
            lemma_no_let_var_arms_front(arms);
            lemma_fix_arms_inlines_all(arms, c1, names, defs, fuel);
        },
        _ => {},
    }
}

/// `law_fix_names_inlines_all`, for the arms of a match.
pub proof fn lemma_fix_arms_inlines_all(
    arms: Seq<(PatV, TermV)>,
    c: nat,
    names: Map<Val, Seq<char>>,
    defs: Seq<Definition>,
    fuel: nat,
)
    requires
        no_let_var_arms_front(arms),
        fix_arms_ok(arms, c, names, defs, fuel),
        fix_arms_done(arms, c, names, defs, fuel),
    ensures
        no_gen_ref_arms(fix_arms(arms, c, names, defs, fuel).0, names),
    decreases fuel, arms_size(arms),
{
    if arms.len() > 0 {
        lemma_arms_size_split(arms);
        let (p1, c1, t1) = match arms[0].0 {
            PatV::Num(MatchNumV::Succ(nam)) => {
                let (nam2, c1, t1) = fix_name_v(nam, c, arms[0].1);
                (PatV::Num(MatchNumV::Succ(nam2)), c1, t1)
            },
            _ => (arms[0].0, c, arms[0].1),
        };
        assert(no_let_var(arms[0].1));
        if let PatV::Num(MatchNumV::Succ(Some(n))) = arms[0].0 {
            lemma_subst_var(arms[0].1, n, var_name(c));
        }
        let (t2, c2) = fix_v(t1, c1, names, defs, fuel);
        law_fix_names_inlines_all(t1, c1, names, defs, fuel);
        let tail = arms.subrange(1, arms.len() as int);
        assert forall|i: int| 0 <= i < tail.len() implies no_let_var(#[trigger] tail[i].1) by {
            assert(tail[i] == arms[i + 1]);
        }
        lemma_fix_arms_inlines_all(tail, c2, names, defs, fuel);
        let rest = fix_arms(tail, c2, names, defs, fuel).0;
        let out = seq![(p1, t2)] + rest;
        assert(out[0] == (p1, t2));
        assert(out.subrange(1, out.len() as int) =~= rest);
    }
}

} // verus!
