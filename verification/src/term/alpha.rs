//! Terms that are the same up to the names of their bound variables.
use vstd::prelude::*;
use super::{LetPatV, MatchNumV, PatV, TermV};
use super::renaming::{all_names, all_names_arms, fresh_arms_from, fresh_from, lemma_fix_name_keeps, names_from_id};
use super::fix_names::{
    arms_size, fix_arms, fix_name_v, fix_v, lemma_arms_size_split, lemma_fix_mono,
    lemma_no_let_var_arms_front, no_gen_ref, no_gen_ref_arms, no_let_var, no_let_var_arms_front, size,
};
use super::subst::avoids;
use super::{var_name, Definition};
use hvmc::run::Val;
use super::subst::{arm_binds, lemma_subst_arms, subst_arm, subst_arms, subst_v};

verus! {

/// The position, in a list of binders from the outermost in, of the
/// innermost one that binds `x`; -1 where none does.
pub open spec fn lookup(env: Seq<Option<Seq<char>>>, x: Seq<char>) -> int
    decreases env.len(),
{
    if env.len() == 0 {
        -1
    } else if env.last() == Some(x) {
        env.len() - 1
    } else {
        lookup(env.drop_last(), x)
    }
}

/// Whether two variables, each under its own binders, mean the same: both
/// bound by binders at the same position, or both free and equal.
pub open spec fn var_eq(x: Seq<char>, y: Seq<char>, e1: Seq<Option<Seq<char>>>, e2: Seq<Option<Seq<char>>>) -> bool {
    if lookup(e1, x) < 0 {
        lookup(e2, y) < 0 && x == y
    } else {
        lookup(e1, x) == lookup(e2, y)
    }
}

/// Whether two optional binders are alike: both bind a name or neither.
pub open spec fn same_kind(a: Option<Seq<char>>, b: Option<Seq<char>>) -> bool {
    a is Some == b is Some
}

/// Whether `t1` under the binders `e1` is `t2` under the binders `e2` up to
/// the names of bound variables: the same shape, tags, numbers, channel
/// names and free variables, with each bound variable bound by the binder
/// at the same place.
pub open spec fn alpha(t1: TermV, t2: TermV, e1: Seq<Option<Seq<char>>>, e2: Seq<Option<Seq<char>>>) -> bool
    decreases t1,
{
    match t1 {
        TermV::Lam { tag, nam, bod } => match t2 {
            TermV::Lam { tag: tag2, nam: nam2, bod: bod2 } => tag == tag2 && same_kind(nam, nam2) && alpha(
                *bod,
                *bod2,
                e1.push(nam),
                e2.push(nam2),
            ),
            _ => false,
        },
        TermV::Var { nam } => match t2 {
            TermV::Var { nam: nam2 } => var_eq(nam, nam2, e1, e2),
            _ => false,
        },
        TermV::Chn { nam, bod } => match t2 {
            TermV::Chn { nam: nam2, bod: bod2 } => nam == nam2 && alpha(*bod, *bod2, e1, e2),
            _ => false,
        },
        TermV::Lnk { .. } => t2 == t1,
        TermV::Let { pat, val, nxt } => match t2 {
            TermV::Let { pat: pat2, val: val2, nxt: nxt2 } => alpha(*val, *val2, e1, e2) && match pat {
                LetPatV::Var(n) => match pat2 {
                    LetPatV::Var(n2) => alpha(*nxt, *nxt2, e1.push(Some(n)), e2.push(Some(n2))),
                    _ => false,
                },
                LetPatV::Tup(a, b) => match pat2 {
                    LetPatV::Tup(a2, b2) => same_kind(a, a2) && same_kind(b, b2) && alpha(
                        *nxt,
                        *nxt2,
                        e1.push(a).push(b),
                        e2.push(a2).push(b2),
                    ),
                    _ => false,
                },
            },
            _ => false,
        },
        TermV::Dup { tag, fst, snd, val, nxt } => match t2 {
            TermV::Dup { tag: tag2, fst: fst2, snd: snd2, val: val2, nxt: nxt2 } => tag == tag2 && same_kind(
                fst,
                fst2,
            ) && same_kind(snd, snd2) && alpha(*val, *val2, e1, e2) && alpha(
                *nxt,
                *nxt2,
                e1.push(fst).push(snd),
                e2.push(fst2).push(snd2),
            ),
            _ => false,
        },
        TermV::App { tag, fun, arg } => match t2 {
            TermV::App { tag: tag2, fun: fun2, arg: arg2 } => tag == tag2 && alpha(*fun, *fun2, e1, e2)
                && alpha(*arg, *arg2, e1, e2),
            _ => false,
        },
        TermV::Tup { fst, snd } => match t2 {
            TermV::Tup { fst: fst2, snd: snd2 } => alpha(*fst, *fst2, e1, e2) && alpha(*snd, *snd2, e1, e2),
            _ => false,
        },
        TermV::Sup { tag, fst, snd } => match t2 {
            TermV::Sup { tag: tag2, fst: fst2, snd: snd2 } => tag == tag2 && alpha(*fst, *fst2, e1, e2)
                && alpha(*snd, *snd2, e1, e2),
            _ => false,
        },
        TermV::Opx { op, fst, snd } => match t2 {
            TermV::Opx { op: op2, fst: fst2, snd: snd2 } => op == op2 && alpha(*fst, *fst2, e1, e2) && alpha(
                *snd,
                *snd2,
                e1,
                e2,
            ),
            _ => false,
        },
        TermV::Match { scrutinee, arms } => match t2 {
            TermV::Match { scrutinee: scrutinee2, arms: arms2 } => alpha(*scrutinee, *scrutinee2, e1, e2)
                && alpha_arms(arms, arms2, e1, e2),
            _ => false,
        },
        TermV::Num { .. } | TermV::Ref { .. } | TermV::Era => t2 == t1,
    }
}

/// Whether two lists of match arms are alike arm by arm: the same patterns
/// but for the name a successor pattern binds, and alike bodies.
pub open spec fn alpha_arms(
    a1: Seq<(PatV, TermV)>,
    a2: Seq<(PatV, TermV)>,
    e1: Seq<Option<Seq<char>>>,
    e2: Seq<Option<Seq<char>>>,
) -> bool
    decreases a1,
{
    if a1.len() == 0 {
        a2.len() == 0
    } else {
        &&& a2.len() > 0
        &&& match a1[0].0 {
            PatV::Num(MatchNumV::Succ(o1)) => match a2[0].0 {
                PatV::Num(MatchNumV::Succ(o2)) => same_kind(o1, o2) && alpha(
                    a1[0].1,
                    a2[0].1,
                    e1.push(o1),
                    e2.push(o2),
                ),
                _ => false,
            },
            _ => a2[0].0 == a1[0].0 && alpha(a1[0].1, a2[0].1, e1, e2),
        }
        &&& alpha_arms(a1.subrange(1, a1.len() as int), a2.subrange(1, a2.len() as int), e1, e2)
    }
}

/// Adding a binder: it binds its name at the new last place.
pub proof fn lemma_lookup_push(env: Seq<Option<Seq<char>>>, b: Option<Seq<char>>, x: Seq<char>)
    ensures
        lookup(env.push(b), x) == if b == Some(x) {
            env.len() as int
        } else {
            lookup(env, x)
        },
        -1 <= lookup(env, x) < env.len(),
    decreases env.len(),
{
    assert(env.push(b).drop_last() =~= env);
    if env.len() > 0 {
        lemma_lookup_push(env.drop_last(), b, x);
    }
}

/// Whether two lists of binders, of one length, bind each of the names at
/// the same place.
pub open spec fn agree(e1: Seq<Option<Seq<char>>>, e2: Seq<Option<Seq<char>>>, s: Set<Seq<char>>) -> bool {
    &&& e1.len() == e2.len()
    &&& forall|y: Seq<char>| s.contains(y) ==> #[trigger] lookup(e1, y) == lookup(e2, y)
}

/// Adding the same binder to agreeing lists keeps them agreeing.
pub proof fn lemma_agree_push(e1: Seq<Option<Seq<char>>>, e2: Seq<Option<Seq<char>>>, b: Option<Seq<char>>, s: Set<Seq<char>>)
    requires
        agree(e1, e2, s),
    ensures
        agree(e1.push(b), e2.push(b), s),
{
    assert forall|y: Seq<char>| s.contains(y) implies #[trigger] lookup(e1.push(b), y) == lookup(e2.push(b), y) by {
        lemma_lookup_push(e1, b, y);
        lemma_lookup_push(e2, b, y);
    }
}

/// A term under binders that agree on its names is alike to itself.
pub proof fn lemma_alpha_refl(t: TermV, e1: Seq<Option<Seq<char>>>, e2: Seq<Option<Seq<char>>>)
    requires
        agree(e1, e2, all_names(t)),
    ensures
        alpha(t, t, e1, e2),
    decreases t,
{
    match t {
        TermV::Lam { nam, bod, .. } => {
            assert(agree(e1, e2, all_names(*bod)));
            lemma_agree_push(e1, e2, nam, all_names(*bod));
            lemma_alpha_refl(*bod, e1.push(nam), e2.push(nam));
        },
        TermV::Var { nam } => {
            assert(all_names(t).contains(nam));
        },
        TermV::Chn { bod, .. } => lemma_alpha_refl(*bod, e1, e2),
        TermV::Let { pat, val, nxt } => {
            lemma_alpha_refl(*val, e1, e2);
            assert(agree(e1, e2, all_names(*nxt)));
            match pat {
                LetPatV::Var(n) => {
                    lemma_agree_push(e1, e2, Some(n), all_names(*nxt));
                    lemma_alpha_refl(*nxt, e1.push(Some(n)), e2.push(Some(n)));
                },
                LetPatV::Tup(a, b) => {
                    lemma_agree_push(e1, e2, a, all_names(*nxt));
                    lemma_agree_push(e1.push(a), e2.push(a), b, all_names(*nxt));
                    lemma_alpha_refl(*nxt, e1.push(a).push(b), e2.push(a).push(b));
                },
            }
        },
        TermV::Dup { fst, snd, val, nxt, .. } => {
            lemma_alpha_refl(*val, e1, e2);
            assert(agree(e1, e2, all_names(*nxt)));
            lemma_agree_push(e1, e2, fst, all_names(*nxt));
            lemma_agree_push(e1.push(fst), e2.push(fst), snd, all_names(*nxt));
            lemma_alpha_refl(*nxt, e1.push(fst).push(snd), e2.push(fst).push(snd));
        },
        TermV::App { fun: a, arg: b, .. } | TermV::Tup { fst: a, snd: b } | TermV::Sup {
            fst: a,
            snd: b,
            ..
        } | TermV::Opx { fst: a, snd: b, .. } => {
            lemma_alpha_refl(*a, e1, e2);
            lemma_alpha_refl(*b, e1, e2);
        },
        TermV::Match { scrutinee, arms } => {
            lemma_alpha_refl(*scrutinee, e1, e2);
            lemma_alpha_refl_arms(arms, e1, e2);
        },
        _ => {},
    }
}

pub proof fn lemma_alpha_refl_arms(arms: Seq<(PatV, TermV)>, e1: Seq<Option<Seq<char>>>, e2: Seq<Option<Seq<char>>>)
    requires
        agree(e1, e2, all_names_arms(arms)),
    ensures
        alpha_arms(arms, arms, e1, e2),
    decreases arms,
{
    if arms.len() > 0 {
        let tail = arms.subrange(1, arms.len() as int);
        assert(agree(e1, e2, all_names(arms[0].1)));
        assert(agree(e1, e2, all_names_arms(tail)));
        match arms[0].0 {
            PatV::Num(MatchNumV::Succ(o)) => {
                lemma_agree_push(e1, e2, o, all_names(arms[0].1));
                lemma_alpha_refl(arms[0].1, e1.push(o), e2.push(o));
            },
            _ => lemma_alpha_refl(arms[0].1, e1, e2),
        }
        lemma_alpha_refl_arms(tail, e1, e2);
    }
}

/// Being alike chains: a term alike to a second that is alike to a third
/// is alike to the third.
pub proof fn lemma_alpha_trans(
    a: TermV,
    b: TermV,
    c: TermV,
    e1: Seq<Option<Seq<char>>>,
    e2: Seq<Option<Seq<char>>>,
    e3: Seq<Option<Seq<char>>>,
)
    requires
        alpha(a, b, e1, e2),
        alpha(b, c, e2, e3),
    ensures
        alpha(a, c, e1, e3),
    decreases a,
{
    match a {
        TermV::Lam { nam, bod, .. } => {
            let (nb, bb) = (b->Lam_nam, b->Lam_bod);
            let (nc, bc) = (c->Lam_nam, c->Lam_bod);
            lemma_alpha_trans(*bod, *bb, *bc, e1.push(nam), e2.push(nb), e3.push(nc));
        },
        TermV::Chn { bod, .. } => {
            lemma_alpha_trans(*bod, *b->Chn_bod, *c->Chn_bod, e1, e2, e3);
        },
        TermV::Let { pat, val, nxt } => {
            let (pb, vb, xb) = (b->Let_pat, b->Let_val, b->Let_nxt);
            let (pc, vc, xc) = (c->Let_pat, c->Let_val, c->Let_nxt);
            lemma_alpha_trans(*val, *vb, *vc, e1, e2, e3);
            match pat {
                LetPatV::Var(n) => {
                    lemma_alpha_trans(*nxt, *xb, *xc, e1.push(Some(n)), e2.push(Some(pb->Var_0)), e3.push(Some(pc->Var_0)));
                },
                LetPatV::Tup(x, y) => {
                    lemma_alpha_trans(
                        *nxt,
                        *xb,
                        *xc,
                        e1.push(x).push(y),
                        e2.push(pb->Tup_0).push(pb->Tup_1),
                        e3.push(pc->Tup_0).push(pc->Tup_1),
                    );
                },
            }
        },
        TermV::Dup { fst, snd, val, nxt, .. } => {
            lemma_alpha_trans(*val, *b->Dup_val, *c->Dup_val, e1, e2, e3);
            lemma_alpha_trans(
                *nxt,
                *b->Dup_nxt,
                *c->Dup_nxt,
                e1.push(fst).push(snd),
                e2.push(b->Dup_fst).push(b->Dup_snd),
                e3.push(c->Dup_fst).push(c->Dup_snd),
            );
        },
        TermV::App { fun, arg, .. } => {
            lemma_alpha_trans(*fun, *b->App_fun, *c->App_fun, e1, e2, e3);
            lemma_alpha_trans(*arg, *b->App_arg, *c->App_arg, e1, e2, e3);
        },
        TermV::Tup { fst, snd } => {
            lemma_alpha_trans(*fst, *b->Tup_fst, *c->Tup_fst, e1, e2, e3);
            lemma_alpha_trans(*snd, *b->Tup_snd, *c->Tup_snd, e1, e2, e3);
        },
        TermV::Sup { fst, snd, .. } => {
            lemma_alpha_trans(*fst, *b->Sup_fst, *c->Sup_fst, e1, e2, e3);
            lemma_alpha_trans(*snd, *b->Sup_snd, *c->Sup_snd, e1, e2, e3);
        },
        TermV::Opx { fst, snd, .. } => {
            lemma_alpha_trans(*fst, *b->Opx_fst, *c->Opx_fst, e1, e2, e3);
            lemma_alpha_trans(*snd, *b->Opx_snd, *c->Opx_snd, e1, e2, e3);
        },
        TermV::Match { scrutinee, arms } => {
            lemma_alpha_trans(*scrutinee, *b->Match_scrutinee, *c->Match_scrutinee, e1, e2, e3);
            lemma_alpha_trans_arms(arms, b->Match_arms, c->Match_arms, e1, e2, e3);
        },
        _ => {},
    }
}

pub proof fn lemma_alpha_trans_arms(
    a: Seq<(PatV, TermV)>,
    b: Seq<(PatV, TermV)>,
    c: Seq<(PatV, TermV)>,
    e1: Seq<Option<Seq<char>>>,
    e2: Seq<Option<Seq<char>>>,
    e3: Seq<Option<Seq<char>>>,
)
    requires
        alpha_arms(a, b, e1, e2),
        alpha_arms(b, c, e2, e3),
    ensures
        alpha_arms(a, c, e1, e3),
    decreases a,
{
    if a.len() > 0 {
        match a[0].0 {
            PatV::Num(MatchNumV::Succ(o1)) => {
                let o2 = b[0].0->Num_0->Succ_0;
                let o3 = c[0].0->Num_0->Succ_0;
                lemma_alpha_trans(a[0].1, b[0].1, c[0].1, e1.push(o1), e2.push(o2), e3.push(o3));
            },
            _ => lemma_alpha_trans(a[0].1, b[0].1, c[0].1, e1, e2, e3),
        }
        lemma_alpha_trans_arms(
            a.subrange(1, a.len() as int),
            b.subrange(1, b.len() as int),
            c.subrange(1, c.len() as int),
            e1,
            e2,
            e3,
        );
    }
}

/// Whether `e1` is `e2` with a binder of `v` where `e2` has the innermost
/// binder of `from`, as far as the names in `s` (among which `v` is not)
/// can tell.
pub open spec fn renamed_envs(
    e1: Seq<Option<Seq<char>>>,
    e2: Seq<Option<Seq<char>>>,
    from: Seq<char>,
    v: Seq<char>,
    s: Set<Seq<char>>,
) -> bool {
    &&& e1.len() == e2.len()
    &&& !s.contains(v)
    &&& lookup(e2, from) >= 0
    &&& lookup(e1, v) == lookup(e2, from)
    &&& forall|y: Seq<char>| s.contains(y) && y != from ==> #[trigger] lookup(e1, y) == lookup(e2, y)
}

/// Adding a binder of neither name keeps the renaming.
pub proof fn lemma_renamed_push(
    e1: Seq<Option<Seq<char>>>,
    e2: Seq<Option<Seq<char>>>,
    from: Seq<char>,
    v: Seq<char>,
    s: Set<Seq<char>>,
    b: Option<Seq<char>>,
)
    requires
        renamed_envs(e1, e2, from, v, s),
        b != Some(from),
        b != Some(v),
    ensures
        renamed_envs(e1.push(b), e2.push(b), from, v, s),
{
    lemma_lookup_push(e1, b, v);
    lemma_lookup_push(e2, b, from);
    assert forall|y: Seq<char>| s.contains(y) && y != from implies #[trigger] lookup(e1.push(b), y) == lookup(
        e2.push(b),
        y,
    ) by {
        lemma_lookup_push(e1, b, y);
        lemma_lookup_push(e2, b, y);
    }
}

/// Adding a binder of `from` hides the renaming: the lists then agree.
pub proof fn lemma_renamed_shadow(
    e1: Seq<Option<Seq<char>>>,
    e2: Seq<Option<Seq<char>>>,
    from: Seq<char>,
    v: Seq<char>,
    s: Set<Seq<char>>,
)
    requires
        renamed_envs(e1, e2, from, v, s),
    ensures
        agree(e1.push(Some(from)), e2.push(Some(from)), s),
{
    assert forall|y: Seq<char>| s.contains(y) implies #[trigger] lookup(e1.push(Some(from)), y) == lookup(
        e2.push(Some(from)),
        y,
    ) by {
        lemma_lookup_push(e1, Some(from), y);
        lemma_lookup_push(e2, Some(from), y);
    }
}

/// The scope of two binders `a` then `b`, under lists renamed as
/// `renamed_envs` says: where either binds `from`, the lists agree after
/// both; otherwise they stay renamed.
pub proof fn lemma_renamed_two(
    e1: Seq<Option<Seq<char>>>,
    e2: Seq<Option<Seq<char>>>,
    from: Seq<char>,
    v: Seq<char>,
    s: Set<Seq<char>>,
    a: Option<Seq<char>>,
    b: Option<Seq<char>>,
)
    requires
        renamed_envs(e1, e2, from, v, s),
        a != Some(v),
        b != Some(v),
    ensures
        a == Some(from) || b == Some(from) ==> agree(e1.push(a).push(b), e2.push(a).push(b), s),
        !(a == Some(from) || b == Some(from)) ==> renamed_envs(e1.push(a).push(b), e2.push(a).push(b), from, v, s),
{
    if a == Some(from) {
        lemma_renamed_shadow(e1, e2, from, v, s);
        lemma_agree_push(e1.push(a), e2.push(a), b, s);
    } else {
        lemma_renamed_push(e1, e2, from, v, s, a);
        if b == Some(from) {
            lemma_renamed_shadow(e1.push(a), e2.push(a), from, v, s);
        } else {
            lemma_renamed_push(e1.push(a), e2.push(a), from, v, s, b);
        }
    }
}

/// Substituting a variable `v`, no name of the term, for `from` gives a
/// term alike to the old one, where `v` is bound at the place of `from`.
pub proof fn lemma_subst_var_alpha(
    t: TermV,
    from: Seq<char>,
    v: Seq<char>,
    e1: Seq<Option<Seq<char>>>,
    e2: Seq<Option<Seq<char>>>,
)
    requires
        renamed_envs(e1, e2, from, v, all_names(t)),
    ensures
        alpha(subst_v(t, from, TermV::Var { nam: v }), t, e1, e2),
    decreases t,
{
    let x = TermV::Var { nam: v };
    match t {
        TermV::Lam { nam, bod, .. } => {
            let s = all_names(*bod);
            assert(renamed_envs(e1, e2, from, v, s));
            if nam == Some(from) {
                lemma_renamed_shadow(e1, e2, from, v, s);
                lemma_alpha_refl(*bod, e1.push(nam), e2.push(nam));
            } else {
                lemma_renamed_push(e1, e2, from, v, s, nam);
                lemma_subst_var_alpha(*bod, from, v, e1.push(nam), e2.push(nam));
            }
        },
        TermV::Var { nam } => {
            assert(all_names(t).contains(nam));
        },
        TermV::Chn { bod, .. } => lemma_subst_var_alpha(*bod, from, v, e1, e2),
        TermV::Let { pat, val, nxt } => {
            assert(renamed_envs(e1, e2, from, v, all_names(*val)));
            lemma_subst_var_alpha(*val, from, v, e1, e2);
            let s = all_names(*nxt);
            assert(renamed_envs(e1, e2, from, v, s));
            match pat {
                LetPatV::Var(n) => {
                    if n == from {
                        lemma_renamed_shadow(e1, e2, from, v, s);
                        lemma_alpha_refl(*nxt, e1.push(Some(n)), e2.push(Some(n)));
                    } else {
                        lemma_renamed_push(e1, e2, from, v, s, Some(n));
                        lemma_subst_var_alpha(*nxt, from, v, e1.push(Some(n)), e2.push(Some(n)));
                    }
                },
                LetPatV::Tup(a, b) => {
                    lemma_renamed_two(e1, e2, from, v, s, a, b);
                    if a == Some(from) || b == Some(from) {
                        lemma_alpha_refl(*nxt, e1.push(a).push(b), e2.push(a).push(b));
                    } else {
                        lemma_subst_var_alpha(*nxt, from, v, e1.push(a).push(b), e2.push(a).push(b));
                    }
                },
            }
        },
        TermV::Dup { fst, snd, val, nxt, .. } => {
            assert(renamed_envs(e1, e2, from, v, all_names(*val)));
            lemma_subst_var_alpha(*val, from, v, e1, e2);
            let s = all_names(*nxt);
            assert(renamed_envs(e1, e2, from, v, s));
            lemma_renamed_two(e1, e2, from, v, s, fst, snd);
            if fst == Some(from) || snd == Some(from) {
                lemma_alpha_refl(*nxt, e1.push(fst).push(snd), e2.push(fst).push(snd));
            } else {
                lemma_subst_var_alpha(*nxt, from, v, e1.push(fst).push(snd), e2.push(fst).push(snd));
            }
        },
        TermV::App { fun: a, arg: b, .. } | TermV::Tup { fst: a, snd: b } | TermV::Sup {
            fst: a,
            snd: b,
            ..
        } | TermV::Opx { fst: a, snd: b, .. } => {
            assert(renamed_envs(e1, e2, from, v, all_names(*a)));
            assert(renamed_envs(e1, e2, from, v, all_names(*b)));
            lemma_subst_var_alpha(*a, from, v, e1, e2);
            lemma_subst_var_alpha(*b, from, v, e1, e2);
        },
        TermV::Match { scrutinee, arms } => {
            assert(renamed_envs(e1, e2, from, v, all_names(*scrutinee)));
            assert(renamed_envs(e1, e2, from, v, all_names_arms(arms)));
            lemma_subst_var_alpha(*scrutinee, from, v, e1, e2);
            lemma_subst_var_alpha_arms(arms, from, v, e1, e2);
        },
        _ => {},
    }
}

pub proof fn lemma_subst_var_alpha_arms(
    arms: Seq<(PatV, TermV)>,
    from: Seq<char>,
    v: Seq<char>,
    e1: Seq<Option<Seq<char>>>,
    e2: Seq<Option<Seq<char>>>,
)
    requires
        renamed_envs(e1, e2, from, v, all_names_arms(arms)),
    ensures
        alpha_arms(subst_arms(arms, from, TermV::Var { nam: v }), arms, e1, e2),
    decreases arms,
{
    let x = TermV::Var { nam: v };
    let s = subst_arms(arms, from, x);
    lemma_subst_arms(arms, from, x);
    if arms.len() > 0 {
        let tail = arms.subrange(1, arms.len() as int);
        lemma_subst_arms(tail, from, x);
        assert(s.subrange(1, s.len() as int) =~= subst_arms(tail, from, x)) by {
            assert forall|i: int| 0 <= i < tail.len() implies s.subrange(1, s.len() as int)[i]
                == #[trigger] subst_arms(tail, from, x)[i] by {
                assert(s[i + 1] == subst_arm(arms[i + 1], from, x));
                assert(tail[i] == arms[i + 1]);
            }
        }
        assert(s[0] == subst_arm(arms[0], from, x));
        let body = arms[0].1;
        let sb = all_names(body);
        assert(renamed_envs(e1, e2, from, v, sb));
        assert(renamed_envs(e1, e2, from, v, all_names_arms(tail)));
        match arms[0].0 {
            PatV::Num(MatchNumV::Succ(o)) => {
                if o == Some(from) {
                    assert(arm_binds(arms[0].0, from));
                    lemma_renamed_shadow(e1, e2, from, v, sb);
                    lemma_alpha_refl(body, e1.push(o), e2.push(o));
                } else {
                    assert(!arm_binds(arms[0].0, from));
                    assert(o != Some(v)) by {
                        if o == Some(v) {
                            assert(all_names_arms(arms).contains(v));
                        }
                    }
                    lemma_renamed_push(e1, e2, from, v, sb, o);
                    lemma_subst_var_alpha(body, from, v, e1.push(o), e2.push(o));
                }
            },
            _ => {
                assert(!arm_binds(arms[0].0, from));
                lemma_subst_var_alpha(body, from, v, e1, e2);
            },
        }
        lemma_subst_var_alpha_arms(tail, from, v, e1, e2);
    }
}

/// Whether no duplication or tuple let binds one name twice.
pub open spec fn no_twin(t: TermV) -> bool
    decreases t,
{
    match t {
        TermV::Lam { bod, .. } | TermV::Chn { bod, .. } => no_twin(*bod),
        TermV::Let { pat, val, nxt } => match pat {
            LetPatV::Tup(a, b) => !(a is Some && a == b) && no_twin(*val) && no_twin(*nxt),
            LetPatV::Var(_) => no_twin(*val) && no_twin(*nxt),
        },
        TermV::Dup { fst, snd, val, nxt, .. } => !(fst is Some && fst == snd) && no_twin(*val) && no_twin(*nxt),
        TermV::App { fun: a, arg: b, .. } | TermV::Tup { fst: a, snd: b } | TermV::Sup {
            fst: a,
            snd: b,
            ..
        } | TermV::Opx { fst: a, snd: b, .. } => no_twin(*a) && no_twin(*b),
        TermV::Match { scrutinee, arms } => no_twin(*scrutinee) && no_twin_arms(arms),
        _ => true,
    }
}

/// `no_twin` of each arm's body.
pub open spec fn no_twin_arms(arms: Seq<(PatV, TermV)>) -> bool
    decreases arms,
{
    if arms.len() == 0 {
        true
    } else {
        no_twin(arms[0].1) && no_twin_arms(arms.subrange(1, arms.len() as int))
    }
}

/// Substituting a variable keeps the binders, so keeps `no_twin`.
pub proof fn lemma_subst_var_twin(t: TermV, from: Seq<char>, v: Seq<char>)
    ensures
        no_twin(subst_v(t, from, TermV::Var { nam: v })) == no_twin(t),
    decreases t,
{
    match t {
        TermV::Lam { bod, .. } | TermV::Chn { bod, .. } => lemma_subst_var_twin(*bod, from, v),
        TermV::Let { val: a, nxt: b, .. } | TermV::Dup { val: a, nxt: b, .. } | TermV::App {
            fun: a,
            arg: b,
            ..
        } | TermV::Tup { fst: a, snd: b } | TermV::Sup { fst: a, snd: b, .. } | TermV::Opx {
            fst: a,
            snd: b,
            ..
        } => {
            lemma_subst_var_twin(*a, from, v);
            lemma_subst_var_twin(*b, from, v);
        },
        TermV::Match { scrutinee, arms } => {
            lemma_subst_var_twin(*scrutinee, from, v);
            lemma_subst_var_twin_arms(arms, from, v);
        },
        _ => {},
    }
}

pub proof fn lemma_subst_var_twin_arms(arms: Seq<(PatV, TermV)>, from: Seq<char>, v: Seq<char>)
    ensures
        no_twin_arms(subst_arms(arms, from, TermV::Var { nam: v })) == no_twin_arms(arms),
    decreases arms,
{
    let x = TermV::Var { nam: v };
    let s = subst_arms(arms, from, x);
    lemma_subst_arms(arms, from, x);
    if arms.len() > 0 {
        let tail = arms.subrange(1, arms.len() as int);
        lemma_subst_arms(tail, from, x);
        assert(s.subrange(1, s.len() as int) =~= subst_arms(tail, from, x)) by {
            assert forall|i: int| 0 <= i < tail.len() implies s.subrange(1, s.len() as int)[i]
                == #[trigger] subst_arms(tail, from, x)[i] by {
                assert(s[i + 1] == subst_arm(arms[i + 1], from, x));
                assert(tail[i] == arms[i + 1]);
            }
        }
        assert(s[0] == subst_arm(arms[0], from, x));
        if !arm_binds(arms[0].0, from) {
            lemma_subst_var_twin(arms[0].1, from, v);
        }
        lemma_subst_var_twin_arms(tail, from, v);
    }
}

/// Renaming `from` to a name `v` that the term does not hold, at a new
/// binder, is a renaming as `renamed_envs` says.
pub proof fn lemma_renamed_start(e: Seq<Option<Seq<char>>>, from: Seq<char>, v: Seq<char>, s: Set<Seq<char>>)
    requires
        !s.contains(v),
    ensures
        renamed_envs(e.push(Some(v)), e.push(Some(from)), from, v, s),
{
    lemma_lookup_push(e, Some(v), v);
    lemma_lookup_push(e, Some(from), from);
    assert forall|y: Seq<char>| s.contains(y) && y != from implies #[trigger] lookup(e.push(Some(v)), y)
        == lookup(e.push(Some(from)), y) by {
        lemma_lookup_push(e, Some(v), y);
        lemma_lookup_push(e, Some(from), y);
    }
}

/// Two terms are alike to themselves under the same binders.
pub proof fn lemma_alpha_same(t: TermV, e: Seq<Option<Seq<char>>>)
    ensures
        alpha(t, t, e, e),
{
    lemma_alpha_refl(t, e, e);
}

/// Renaming keeps a term the same up to the names of its bound variables:
/// where the term has no single-variable let, refers to no generated
/// definition, binds no name twice in one duplication or tuple let, and
/// holds no name of the ids from the counter on, the result under any
/// binders is alike to the term under the same binders.
#[verifier::rlimit(80)]
#[verifier::spinoff_prover]
pub proof fn lemma_fix_names_alpha(
    t: TermV,
    c: nat,
    names: Map<Val, Seq<char>>,
    defs: Seq<Definition>,
    fuel: nat,
    e: Seq<Option<Seq<char>>>,
)
    requires
        no_let_var(t),
        no_gen_ref(t, names),
        fresh_from(t, c),
        no_twin(t),
    ensures
        alpha(fix_v(t, c, names, defs, fuel).0, t, e, e),
    decreases fuel, size(t),
{
    let r = fix_v(t, c, names, defs, fuel);
    match t {
        TermV::Lam { tag, nam, bod } => {
            lemma_fix_name_keeps(nam, c, *bod, names);
            let (nam2, c1, bod1) = fix_name_v(nam, c, *bod);
            match nam {
                Some(n) => {
                    let vc = var_name(c);
                    lemma_subst_var_twin(*bod, n, vc);
                    lemma_fix_names_alpha(bod1, c1, names, defs, fuel, e.push(Some(vc)));
                    lemma_renamed_start(e, n, vc, all_names(*bod));
                    lemma_subst_var_alpha(*bod, n, vc, e.push(Some(vc)), e.push(Some(n)));
                    lemma_alpha_trans(
                        fix_v(bod1, c1, names, defs, fuel).0,
                        bod1,
                        *bod,
                        e.push(Some(vc)),
                        e.push(Some(vc)),
                        e.push(Some(n)),
                    );
                },
                None => {
                    lemma_fix_names_alpha(*bod, c, names, defs, fuel, e.push(None));
                },
            }
        },
        TermV::Dup { tag, fst, snd, val, nxt } => {
            lemma_fix_names_alpha(*val, c, names, defs, fuel, e);
            lemma_fix_mono(*val, c, names, defs, fuel);
            let (val1, c1) = fix_v(*val, c, names, defs, fuel);
            assert(fresh_from(*nxt, c1));
            assert(avoids(fst, names_from_id(c1)));
            lemma_fix_name_keeps(fst, c1, *nxt, names);
            let (fst2, c2, nxt1) = fix_name_v(fst, c1, *nxt);
            assert(avoids(snd, names_from_id(c2)));
            lemma_fix_name_keeps(snd, c2, nxt1, names);
            let (snd2, c3, nxt2) = fix_name_v(snd, c2, nxt1);
            lemma_two_steps(*nxt, nxt1, nxt2, fst, snd, c1, c, e);
            if let Some(f) = fst {
                lemma_subst_var_twin(*nxt, f, var_name(c1));
            }
            if let Some(g) = snd {
                lemma_subst_var_twin(nxt1, g, var_name(c2));
            }
            lemma_fix_names_alpha(nxt2, c3, names, defs, fuel, e.push(fst2).push(snd2));
            lemma_alpha_trans(
                fix_v(nxt2, c3, names, defs, fuel).0,
                nxt2,
                *nxt,
                e.push(fst2).push(snd2),
                e.push(fst2).push(snd2),
                e.push(fst).push(snd),
            );
        },
        TermV::Let { pat, val, nxt } => match pat {
            LetPatV::Tup(a, b) => {
                lemma_fix_name_keeps(a, c, *nxt, names);
                let (a2, c1, nxt1) = fix_name_v(a, c, *nxt);
                assert(avoids(b, names_from_id(c1)));
                lemma_fix_name_keeps(b, c1, nxt1, names);
                let (b2, c2, nxt2) = fix_name_v(b, c1, nxt1);
                lemma_two_steps(*nxt, nxt1, nxt2, a, b, c, c, e);
                if let Some(f) = a {
                    lemma_subst_var_twin(*nxt, f, var_name(c));
                }
                if let Some(g) = b {
                    lemma_subst_var_twin(nxt1, g, var_name(c1));
                }
                assert(fresh_from(*val, c2));
                lemma_fix_names_alpha(*val, c2, names, defs, fuel, e);
                lemma_fix_mono(*val, c2, names, defs, fuel);
                let (val1, c3) = fix_v(*val, c2, names, defs, fuel);
                lemma_fix_names_alpha(nxt2, c3, names, defs, fuel, e.push(a2).push(b2));
                lemma_alpha_trans(
                    fix_v(nxt2, c3, names, defs, fuel).0,
                    nxt2,
                    *nxt,
                    e.push(a2).push(b2),
                    e.push(a2).push(b2),
                    e.push(a).push(b),
                );
            },
            LetPatV::Var(_) => {},
        },
        TermV::Chn { bod, .. } => lemma_fix_names_alpha(*bod, c, names, defs, fuel, e),
        TermV::App { fun: a, arg: b, .. } | TermV::Sup { fst: a, snd: b, .. } | TermV::Tup {
            fst: a,
            snd: b,
        } | TermV::Opx { fst: a, snd: b, .. } => {
            lemma_fix_names_alpha(*a, c, names, defs, fuel, e);
            lemma_fix_mono(*a, c, names, defs, fuel);
            let (x, c1) = fix_v(*a, c, names, defs, fuel);
            assert(fresh_from(*b, c1));
            lemma_fix_names_alpha(*b, c1, names, defs, fuel, e);
        },
        TermV::Match { scrutinee, arms } => {
            lemma_fix_names_alpha(*scrutinee, c, names, defs, fuel, e);
            lemma_fix_mono(*scrutinee, c, names, defs, fuel);
            let (s1, c1) = fix_v(*scrutinee, c, names, defs, fuel);
            lemma_no_let_var_arms_front(arms);
            assert(fresh_arms_from(arms, c1));
            lemma_fix_arms_alpha(arms, c1, names, defs, fuel, e);
        },
        TermV::Var { nam } => {
            lemma_alpha_same(t, e);
        },
        _ => {},
    }
}

/// The two renamings of a duplication's or tuple let's binders, `a` at
/// counter `c1` then `b` after it, give a body alike to the old one under
/// the renamed binders (where neither binds a name twice).
pub proof fn lemma_two_steps(
    nxt: TermV,
    nxt1: TermV,
    nxt2: TermV,
    a: Option<Seq<char>>,
    b: Option<Seq<char>>,
    c1: nat,
    c: nat,
    e: Seq<Option<Seq<char>>>,
)
    requires
        c1 >= c,
        fresh_from(nxt, c1),
        !(a is Some && a == b),
        avoids(b, names_from_id(c)),
        (fix_name_v(a, c1, nxt).2) == nxt1,
        (fix_name_v(b, fix_name_v(a, c1, nxt).1, nxt1).2) == nxt2,
        fresh_from(nxt1, fix_name_v(a, c1, nxt).1),
    ensures
        alpha(
            nxt2,
            nxt,
            e.push(fix_name_v(a, c1, nxt).0).push(fix_name_v(b, fix_name_v(a, c1, nxt).1, nxt1).0),
            e.push(a).push(b),
        ),
{
    let (a2, c2, _n1) = fix_name_v(a, c1, nxt);
    let (b2, c3, _n2) = fix_name_v(b, c2, nxt1);
    let big = e.push(a2).push(b2);
    let mid = e.push(a2).push(b);
    let old_e = e.push(a).push(b);
    match b {
        Some(s) => {
            let v2 = var_name(c2);
            lemma_renamed_start(e.push(a2), s, v2, all_names(nxt1));
            lemma_subst_var_alpha(nxt1, s, v2, big, mid);
        },
        None => {
            lemma_alpha_same(nxt1, mid);
        },
    }
    match a {
        Some(f) => {
            let v1 = var_name(c1);
            lemma_renamed_start(e, f, v1, all_names(nxt));
            assert(b != Some(v1)) by {
                if b == Some(v1) {
                    assert(names_from_id(c).contains(v1));
                }
            }
            lemma_renamed_push(e.push(Some(v1)), e.push(Some(f)), f, v1, all_names(nxt), b);
            lemma_subst_var_alpha(nxt, f, v1, mid, old_e);
        },
        None => {
            lemma_alpha_same(nxt, mid);
        },
    }
    lemma_alpha_trans(nxt2, nxt1, nxt, big, mid, old_e);
}

/// `lemma_fix_names_alpha`, for the arms of a match.
#[verifier::rlimit(80)]
#[verifier::spinoff_prover]
pub proof fn lemma_fix_arms_alpha(
    arms: Seq<(PatV, TermV)>,
    c: nat,
    names: Map<Val, Seq<char>>,
    defs: Seq<Definition>,
    fuel: nat,
    e: Seq<Option<Seq<char>>>,
)
    requires
        no_let_var_arms_front(arms),
        no_gen_ref_arms(arms, names),
        fresh_arms_from(arms, c),
        no_twin_arms(arms),
    ensures
        alpha_arms(fix_arms(arms, c, names, defs, fuel).0, arms, e, e),
    decreases fuel, arms_size(arms),
{
    let r = fix_arms(arms, c, names, defs, fuel);
    if arms.len() > 0 {
        lemma_arms_size_split(arms);
        let body = arms[0].1;
        assert(no_let_var(body));
        assert(fresh_from(body, c));
        let (p1, c1, t1) = match arms[0].0 {
            PatV::Num(MatchNumV::Succ(nam)) => {
                let (nam2, c1, t1) = fix_name_v(nam, c, arms[0].1);
                (PatV::Num(MatchNumV::Succ(nam2)), c1, t1)
            },
            _ => (arms[0].0, c, arms[0].1),
        };
        match arms[0].0 {
            PatV::Num(MatchNumV::Succ(nam)) => {
                assert(avoids(nam, names_from_id(c)));
                lemma_fix_name_keeps(nam, c, body, names);
                match nam {
                    Some(n) => {
                        let vc = var_name(c);
                        lemma_subst_var_twin(body, n, vc);
                        lemma_fix_names_alpha(t1, c1, names, defs, fuel, e.push(Some(vc)));
                        lemma_renamed_start(e, n, vc, all_names(body));
                        lemma_subst_var_alpha(body, n, vc, e.push(Some(vc)), e.push(Some(n)));
                        lemma_alpha_trans(
                            fix_v(t1, c1, names, defs, fuel).0,
                            t1,
                            body,
                            e.push(Some(vc)),
                            e.push(Some(vc)),
                            e.push(Some(n)),
                        );
                    },
                    None => {
                        lemma_fix_names_alpha(t1, c1, names, defs, fuel, e.push(None));
                    },
                }
            },
            _ => {
                lemma_fix_names_alpha(t1, c1, names, defs, fuel, e);
            },
        }
        lemma_fix_mono(t1, c1, names, defs, fuel);
        let (t2, c2) = fix_v(t1, c1, names, defs, fuel);
        let tail = arms.subrange(1, arms.len() as int);
        assert forall|i: int| 0 <= i < tail.len() implies no_let_var(#[trigger] tail[i].1) by {
            assert(tail[i] == arms[i + 1]);
        }
        assert(fresh_arms_from(tail, c2));
        lemma_fix_arms_alpha(tail, c2, names, defs, fuel, e);
        let rest = fix_arms(tail, c2, names, defs, fuel).0;
        let out = seq![(p1, t2)] + rest;
        assert(r.0 == out);
        assert(out[0] == (p1, t2));
        assert(out.subrange(1, out.len() as int) =~= rest);
    }
}

/// Renaming keeps a term the same up to the names of its bound variables
/// (see `lemma_fix_names_alpha`): each occurrence of a variable follows its
/// binder, and free variables stay as they are.
pub proof fn law_fix_names_alpha(
    t: TermV,
    c: nat,
    names: Map<Val, Seq<char>>,
    defs: Seq<Definition>,
    fuel: nat,
)
    requires
        no_let_var(t),
        no_gen_ref(t, names),
        fresh_from(t, c),
        no_twin(t),
    ensures
        alpha(fix_v(t, c, names, defs, fuel).0, t, Seq::empty(), Seq::empty()),
{
    lemma_fix_names_alpha(t, c, names, defs, fuel, Seq::empty());
}

} // verus!
