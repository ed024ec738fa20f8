//! Renaming keeps the free variables of a term: the names that renaming
//! gives its binders are fresh, so no free variable is captured.
use vstd::prelude::*;
use hvmc::run::Val;
use super::fix_names::{
    fix_arms, fix_name_v, fix_v, lemma_arms_size_split, lemma_fix_mono, lemma_subst_var,
    lemma_subst_var_binders, no_gen_ref, no_gen_ref_arms, no_let_var, no_let_var_arms,
    no_let_var_arms_front, lemma_no_let_var_arms_front, size, arms_size,
};
use super::free_vars::{arm_binder, arm_opt, binder_set, free_vars_arms, free_vars_v};
use super::subst::{
    arm_binds, avoids, binds, fv_after, law_subst_free_vars, lemma_subst_arms, subst_arm, subst_arms,
    subst_safe, subst_safe_arms, subst_v,
};
use super::{lemma_var_name_injective, var_name, Definition, LetPatV, MatchNumV, PatV, TermV};

verus! {

/// Every name a term writes: its variables and the names its binders bind
/// (channel names aside).
pub open spec fn all_names(t: TermV) -> Set<Seq<char>>
    decreases t,
{
    match t {
        TermV::Lam { nam, bod, .. } => binder_set(nam) + all_names(*bod),
        TermV::Var { nam } => set![nam],
        TermV::Chn { bod, .. } => all_names(*bod),
        TermV::Let { pat, val, nxt } => match pat {
            LetPatV::Var(n) => set![n] + all_names(*val) + all_names(*nxt),
            LetPatV::Tup(a, b) => binder_set(a) + binder_set(b) + all_names(*val) + all_names(*nxt),
        },
        TermV::Dup { fst, snd, val, nxt, .. } => binder_set(fst) + binder_set(snd) + all_names(*val)
            + all_names(*nxt),
        TermV::App { fun: a, arg: b, .. } | TermV::Tup { fst: a, snd: b } | TermV::Sup {
            fst: a,
            snd: b,
            ..
        } | TermV::Opx { fst: a, snd: b, .. } => all_names(*a) + all_names(*b),
        TermV::Match { scrutinee, arms } => all_names(*scrutinee) + all_names_arms(arms),
        _ => Set::empty(),
    }
}

/// Every name the arms of a match write, arm by arm.
pub open spec fn all_names_arms(arms: Seq<(PatV, TermV)>) -> Set<Seq<char>>
    decreases arms,
{
    if arms.len() == 0 {
        Set::empty()
    } else {
        arm_binder(arms[0].0) + all_names(arms[0].1) + all_names_arms(arms.subrange(1, arms.len() as int))
    }
}

/// Whether no name of the ids from `c` on occurs in the term.
pub open spec fn fresh_from(t: TermV, c: nat) -> bool {
    forall|j: nat| j >= c ==> !all_names(t).contains(#[trigger] var_name(j))
}

/// Whether no name of the ids from `c` on occurs in the arms.
pub open spec fn fresh_arms_from(arms: Seq<(PatV, TermV)>, c: nat) -> bool {
    forall|j: nat| j >= c ==> !all_names_arms(arms).contains(#[trigger] var_name(j))
}

/// The names of the arms, the last arm taken apart.
pub proof fn lemma_all_names_arms_last(arms: Seq<(PatV, TermV)>)
    requires
        arms.len() > 0,
    ensures
        all_names_arms(arms) == all_names_arms(arms.drop_last()) + arm_binder(arms.last().0) + all_names(
            arms.last().1,
        ),
    decreases arms.len(),
{
    let p = arms.drop_last();
    if arms.len() == 1 {
        assert(arms.subrange(1, 1) =~= Seq::<(PatV, TermV)>::empty());
        assert(p =~= Seq::<(PatV, TermV)>::empty());
    } else {
        let q = arms.subrange(1, arms.len() as int);
        lemma_all_names_arms_last(q);
        assert(q.drop_last() =~= p.subrange(1, p.len() as int));
        assert(q.last() == arms.last());
        assert(p[0] == arms[0]);
    }
    assert(all_names_arms(arms) =~= all_names_arms(p) + arm_binder(arms.last().0) + all_names(arms.last().1));
}

/// The free variables of the arms, the first arm taken apart.
pub proof fn lemma_free_vars_arms_first(arms: Seq<(PatV, TermV)>)
    requires
        arms.len() > 0,
    ensures
        free_vars_arms(arms) == (free_vars_v(arms[0].1) - arm_binder(arms[0].0)) + free_vars_arms(
            arms.subrange(1, arms.len() as int),
        ),
    decreases arms.len(),
{
    let q = arms.subrange(1, arms.len() as int);
    if arms.len() == 1 {
        assert(arms.subrange(0, 0) =~= Seq::<(PatV, TermV)>::empty());
        assert(q =~= Seq::<(PatV, TermV)>::empty());
    } else {
        let p = arms.subrange(0, arms.len() - 1);
        lemma_free_vars_arms_first(p);
        assert(p[0] == arms[0]);
        assert(q.subrange(0, q.len() - 1) =~= p.subrange(1, p.len() as int));
        assert(q[q.len() - 1] == arms[arms.len() - 1]);
    }
    assert(free_vars_arms(arms) =~= (free_vars_v(arms[0].1) - arm_binder(arms[0].0)) + free_vars_arms(q));
}

/// The free variables of a term are among its names.
pub proof fn lemma_free_vars_in_names(t: TermV)
    ensures
        free_vars_v(t).subset_of(all_names(t)),
    decreases t,
{
    match t {
        TermV::Lam { bod, .. } | TermV::Chn { bod, .. } => lemma_free_vars_in_names(*bod),
        TermV::Let { val: a, nxt: b, .. } | TermV::Dup { val: a, nxt: b, .. } | TermV::App {
            fun: a,
            arg: b,
            ..
        } | TermV::Tup { fst: a, snd: b } | TermV::Sup { fst: a, snd: b, .. } | TermV::Opx {
            fst: a,
            snd: b,
            ..
        } => {
            lemma_free_vars_in_names(*a);
            lemma_free_vars_in_names(*b);
        },
        TermV::Match { scrutinee, arms } => {
            lemma_free_vars_in_names(*scrutinee);
            lemma_free_vars_in_names_arms(arms);
        },
        _ => {},
    }
}

pub proof fn lemma_free_vars_in_names_arms(arms: Seq<(PatV, TermV)>)
    ensures
        free_vars_arms(arms).subset_of(all_names_arms(arms)),
    decreases arms,
{
    if arms.len() > 0 {
        lemma_all_names_arms_last(arms);
        lemma_free_vars_in_names_arms(arms.subrange(0, arms.len() - 1));
        lemma_free_vars_in_names(arms[arms.len() - 1].1);
        assert(arms.subrange(0, arms.len() - 1) == arms.drop_last());
    }
}

/// Substituting a variable by the variable `x` adds at most `x` to the
/// names of a term.
pub proof fn lemma_subst_var_names(t: TermV, from: Seq<char>, x: Seq<char>)
    ensures
        all_names(subst_v(t, from, TermV::Var { nam: x })).subset_of(all_names(t).insert(x)),
    decreases t,
{
    match t {
        TermV::Lam { bod, .. } | TermV::Chn { bod, .. } => lemma_subst_var_names(*bod, from, x),
        TermV::Let { val: a, nxt: b, .. } | TermV::Dup { val: a, nxt: b, .. } | TermV::App {
            fun: a,
            arg: b,
            ..
        } | TermV::Tup { fst: a, snd: b } | TermV::Sup { fst: a, snd: b, .. } | TermV::Opx {
            fst: a,
            snd: b,
            ..
        } => {
            lemma_subst_var_names(*a, from, x);
            lemma_subst_var_names(*b, from, x);
        },
        TermV::Match { scrutinee, arms } => {
            lemma_subst_var_names(*scrutinee, from, x);
            lemma_subst_var_names_arms(arms, from, x);
        },
        _ => {},
    }
}

pub proof fn lemma_subst_var_names_arms(arms: Seq<(PatV, TermV)>, from: Seq<char>, x: Seq<char>)
    ensures
        all_names_arms(subst_arms(arms, from, TermV::Var { nam: x })).subset_of(all_names_arms(arms).insert(x)),
    decreases arms,
{
    let v = TermV::Var { nam: x };
    if arms.len() > 0 {
        let p = arms.subrange(0, arms.len() - 1);
        let s = subst_arms(arms, from, v);
        lemma_subst_arms(arms, from, v);
        lemma_subst_var_names_arms(p, from, x);
        lemma_all_names_arms_last(arms);
        lemma_all_names_arms_last(s);
        assert(s.drop_last() == subst_arms(p, from, v));
        assert(arms.drop_last() == p);
        if !arm_binds(arms.last().0, from) {
            lemma_subst_var_names(arms.last().1, from, x);
        }
    }
}

/// Substituting the variable `x` captures nothing where `x` is no name of
/// the term.
pub proof fn lemma_subst_var_safe(t: TermV, from: Seq<char>, x: Seq<char>)
    requires
        !all_names(t).contains(x),
    ensures
        subst_safe(t, from, TermV::Var { nam: x }),
    decreases t,
{
    let v = TermV::Var { nam: x };
    assert(free_vars_v(v) =~= set![x]);
    match t {
        TermV::Lam { bod, .. } | TermV::Chn { bod, .. } => lemma_subst_var_safe(*bod, from, x),
        TermV::Let { val: a, nxt: b, .. } | TermV::Dup { val: a, nxt: b, .. } | TermV::App {
            fun: a,
            arg: b,
            ..
        } | TermV::Tup { fst: a, snd: b } | TermV::Sup { fst: a, snd: b, .. } | TermV::Opx {
            fst: a,
            snd: b,
            ..
        } => {
            lemma_subst_var_safe(*a, from, x);
            lemma_subst_var_safe(*b, from, x);
        },
        TermV::Match { scrutinee, arms } => {
            lemma_subst_var_safe(*scrutinee, from, x);
            lemma_subst_var_safe_arms(arms, from, x);
        },
        _ => {},
    }
}

pub proof fn lemma_subst_var_safe_arms(arms: Seq<(PatV, TermV)>, from: Seq<char>, x: Seq<char>)
    requires
        !all_names_arms(arms).contains(x),
    ensures
        subst_safe_arms(arms, from, TermV::Var { nam: x }),
    decreases arms,
{
    let v = TermV::Var { nam: x };
    assert(free_vars_v(v) =~= set![x]);
    if arms.len() > 0 {
        let p = arms.subrange(0, arms.len() - 1);
        lemma_all_names_arms_last(arms);
        assert(arms.drop_last() == p);
        lemma_subst_var_safe_arms(p, from, x);
        lemma_subst_var_safe(arms.last().1, from, x);
        assert(arm_binder(arms.last().0).disjoint(free_vars_v(v)));
    }
}

/// Renaming one binder, where the names from the counter on are fresh:
/// the body keeps its size, its lack of single-variable lets and of
/// references to generated definitions, the names from the next counter
/// on stay fresh, and the free variables of the scope are kept.
pub proof fn lemma_fix_name_keeps(
    o: Option<Seq<char>>,
    c: nat,
    bod: TermV,
    names: Map<Val, Seq<char>>,
)
    requires
        fresh_from(bod, c),
        avoids(o, names_from_id(c)),
    ensures
        ({
            let (o2, c1, b1) = fix_name_v(o, c, bod);
            &&& size(b1) == size(bod)
            &&& no_let_var(b1) == no_let_var(bod)
            &&& no_gen_ref(b1, names) == no_gen_ref(bod, names)
            &&& c1 >= c
            &&& fresh_from(b1, c1)
            &&& free_vars_v(b1) - binder_set(o2) == free_vars_v(bod) - binder_set(o)
            &&& forall|j: nat| j >= c1 ==> !binder_set(o2).contains(#[trigger] var_name(j))
        }),
{
    match o {
        Some(n) => {
            let vc = var_name(c);
            lemma_subst_var(bod, n, vc);
            lemma_subst_var_binders(bod, n, vc, names);
            lemma_subst_var_safe(bod, n, vc);
            law_subst_free_vars(bod, n, TermV::Var { nam: vc });
            lemma_subst_var_names(bod, n, vc);
            lemma_free_vars_in_names(bod);
            let b1 = subst_v(bod, n, TermV::Var { nam: vc });
            assert(free_vars_v(TermV::Var { nam: vc }) =~= set![vc]);
            assert forall|j: nat| j >= c + 1 implies !all_names(b1).contains(#[trigger] var_name(j)) by {
                lemma_var_name_injective(j, c);
            }
            assert forall|j: nat| j >= c + 1 implies !binder_set(Some(vc)).contains(#[trigger] var_name(j)) by {
                lemma_var_name_injective(j, c);
            }
            assert(!free_vars_v(bod).contains(vc));
            assert(n != vc) by {
                assert(names_from_id(c).contains(vc));
            }
            assert(free_vars_v(b1) - binder_set(Some(vc)) =~= free_vars_v(bod) - binder_set(o));
        },
        None => {},
    }
}

/// The names of the ids from `c` on.
pub open spec fn names_from_id(c: nat) -> Set<Seq<char>> {
    Set::new(|n: Seq<char>| exists|j: nat| j >= c && n == var_name(j))
}

/// Renaming keeps the free variables of a term that has no
/// single-variable let, refers to no generated definition and holds no name
/// of the ids from the counter on: only binder names change, and each
/// occurrence follows its binder.
#[verifier::rlimit(80)]
#[verifier::spinoff_prover]
pub proof fn law_fix_names_keeps_free_vars(
    t: TermV,
    c: nat,
    names: Map<Val, Seq<char>>,
    defs: Seq<Definition>,
    fuel: nat,
)
    requires
        no_let_var(t),
        no_gen_ref(t, names),
        fresh_from(t, c),
    ensures
        free_vars_v(fix_v(t, c, names, defs, fuel).0) == free_vars_v(t),
    decreases fuel, size(t),
{
    let r = fix_v(t, c, names, defs, fuel);
    match t {
        TermV::Lam { tag, nam, bod } => {
            lemma_fix_name_keeps(nam, c, *bod, names);
            let (nam2, c1, bod1) = fix_name_v(nam, c, *bod);
            law_fix_names_keeps_free_vars(bod1, c1, names, defs, fuel);
            assert(free_vars_v(r.0) =~= free_vars_v(t));
        },
        TermV::Dup { tag, fst, snd, val, nxt } => {
            law_fix_names_keeps_free_vars(*val, c, names, defs, fuel);
            lemma_fix_mono(*val, c, names, defs, fuel);
            let (val1, c1) = fix_v(*val, c, names, defs, fuel);
            assert(fresh_from(*nxt, c1));
            assert(avoids(fst, names_from_id(c1)));
            lemma_fix_name_keeps(fst, c1, *nxt, names);
            let (fst2, c2, nxt1) = fix_name_v(fst, c1, *nxt);
            assert(avoids(snd, names_from_id(c2)));
            lemma_fix_name_keeps(snd, c2, nxt1, names);
            let (snd2, c3, nxt2) = fix_name_v(snd, c2, nxt1);
            law_fix_names_keeps_free_vars(nxt2, c3, names, defs, fuel);
            lemma_two_renames(*nxt, nxt1, nxt2, fst, fst2, snd, snd2);
            assert(free_vars_v(r.0) =~= free_vars_v(t));
        },
        TermV::Let { pat, val, nxt } => match pat {
            LetPatV::Tup(a, b) => {
                lemma_fix_name_keeps(a, c, *nxt, names);
                let (a2, c1, nxt1) = fix_name_v(a, c, *nxt);
                assert(avoids(b, names_from_id(c1)));
                lemma_fix_name_keeps(b, c1, nxt1, names);
                let (b2, c2, nxt2) = fix_name_v(b, c1, nxt1);
                assert(fresh_from(*val, c2));
                law_fix_names_keeps_free_vars(*val, c2, names, defs, fuel);
                lemma_fix_mono(*val, c2, names, defs, fuel);
                let (val1, c3) = fix_v(*val, c2, names, defs, fuel);
                law_fix_names_keeps_free_vars(nxt2, c3, names, defs, fuel);
                lemma_two_renames(*nxt, nxt1, nxt2, a, a2, b, b2);
                assert(free_vars_v(r.0) =~= free_vars_v(t));
            },
            LetPatV::Var(_) => {},
        },
        TermV::Chn { bod, .. } => law_fix_names_keeps_free_vars(*bod, c, names, defs, fuel),
        TermV::App { fun: a, arg: b, .. } | TermV::Sup { fst: a, snd: b, .. } | TermV::Tup {
            fst: a,
            snd: b,
        } | TermV::Opx { fst: a, snd: b, .. } => {
            law_fix_names_keeps_free_vars(*a, c, names, defs, fuel);
            lemma_fix_mono(*a, c, names, defs, fuel);
            let (x, c1) = fix_v(*a, c, names, defs, fuel);
            assert(fresh_from(*b, c1));
            law_fix_names_keeps_free_vars(*b, c1, names, defs, fuel);
            assert(free_vars_v(r.0) =~= free_vars_v(t));
        },
        TermV::Match { scrutinee, arms } => {
            law_fix_names_keeps_free_vars(*scrutinee, c, names, defs, fuel);
            lemma_fix_mono(*scrutinee, c, names, defs, fuel);
            let (s1, c1) = fix_v(*scrutinee, c, names, defs, fuel);
            lemma_no_let_var_arms_front(arms);
            assert(fresh_arms_from(arms, c1));
            lemma_fix_arms_keeps_free_vars(arms, c1, names, defs, fuel);
            assert(free_vars_v(r.0) =~= free_vars_v(t));
        },
        _ => {},
    }
}

/// `law_fix_names_keeps_free_vars`, for the arms of a match.
#[verifier::rlimit(80)]
#[verifier::spinoff_prover]
pub proof fn lemma_fix_arms_keeps_free_vars(
    arms: Seq<(PatV, TermV)>,
    c: nat,
    names: Map<Val, Seq<char>>,
    defs: Seq<Definition>,
    fuel: nat,
)
    requires
        no_let_var_arms_front(arms),
        no_gen_ref_arms(arms, names),
        fresh_arms_from(arms, c),
    ensures
        free_vars_arms(fix_arms(arms, c, names, defs, fuel).0) == free_vars_arms(arms),
    decreases fuel, arms_size(arms),
{
    let r = fix_arms(arms, c, names, defs, fuel);
    if arms.len() == 0 {
    } else {
        lemma_arms_size_split(arms);
        let body = arms[0].1;
        assert(no_let_var(body));
        assert(fresh_from(body, c));
        let (p1, c1, t1) = match arms[0].0 {
            PatV::Num(MatchNumV::Succ(nam)) => {
                let (nam2, c1, t1) = fix_name_v(nam, c, arms[0].1);
                (PatV::Num(MatchNumV::Succ(nam2)), c1, t1)
            },
            _ => (arms[0].0, c, arms[0].1),
        };
        if let PatV::Num(MatchNumV::Succ(nam)) = arms[0].0 {
            assert(avoids(nam, names_from_id(c)));
            lemma_fix_name_keeps(nam, c, body, names);
            assert(arm_binder(arms[0].0) =~= binder_set(nam));
            assert(arm_binder(p1) =~= binder_set(fix_name_v(nam, c, body).0));
        }
        assert(free_vars_v(t1) - arm_binder(p1) == free_vars_v(body) - arm_binder(arms[0].0));
        assert(fresh_from(t1, c1));
        law_fix_names_keeps_free_vars(t1, c1, names, defs, fuel);
        lemma_fix_mono(t1, c1, names, defs, fuel);
        let (t2, c2) = fix_v(t1, c1, names, defs, fuel);
        let tail = arms.subrange(1, arms.len() as int);
        assert forall|i: int| 0 <= i < tail.len() implies no_let_var(#[trigger] tail[i].1) by {
            assert(tail[i] == arms[i + 1]);
        }
        assert(fresh_arms_from(tail, c2));
        lemma_fix_arms_keeps_free_vars(tail, c2, names, defs, fuel);
        let rest = fix_arms(tail, c2, names, defs, fuel).0;
        let out = seq![(p1, t2)] + rest;
        assert(r.0 == out);
        lemma_free_vars_arms_first(arms);
        lemma_free_vars_arms_first(out);
        assert(out[0] == (p1, t2));
        assert(out.subrange(1, out.len() as int) =~= rest);
        assert(free_vars_arms(r.0) =~= free_vars_arms(arms));
    }
}

/// Two renamings of binders in turn keep the free variables of the scope
/// of both.
pub proof fn lemma_two_renames(
    t0: TermV,
    t1: TermV,
    t2: TermV,
    a: Option<Seq<char>>,
    a2: Option<Seq<char>>,
    b: Option<Seq<char>>,
    b2: Option<Seq<char>>,
)
    requires
        free_vars_v(t1) - binder_set(a2) == free_vars_v(t0) - binder_set(a),
        free_vars_v(t2) - binder_set(b2) == free_vars_v(t1) - binder_set(b),
    ensures
        free_vars_v(t2) - binder_set(a2) - binder_set(b2) == free_vars_v(t0) - binder_set(a) - binder_set(b),
{
    let l = free_vars_v(t2) - binder_set(a2) - binder_set(b2);
    let r = free_vars_v(t0) - binder_set(a) - binder_set(b);
    let s1 = free_vars_v(t1) - binder_set(a2);
    let s2 = free_vars_v(t2) - binder_set(b2);
    assert forall|x: Seq<char>| l.contains(x) implies r.contains(x) by {
        assert(s2.contains(x));
        assert((free_vars_v(t1) - binder_set(b)).contains(x));
        assert(s1.contains(x));
        assert((free_vars_v(t0) - binder_set(a)).contains(x));
    }
    assert forall|x: Seq<char>| r.contains(x) implies l.contains(x) by {
        assert((free_vars_v(t0) - binder_set(a)).contains(x));
        assert(s1.contains(x));
        assert((free_vars_v(t1) - binder_set(b)).contains(x));
        assert(s2.contains(x));
    }
    assert(l =~= r);
}

} // verus!
