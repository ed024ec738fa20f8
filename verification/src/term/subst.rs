//! Substitution of a variable by a term.
use vstd::prelude::*;
use super::{arms_view, lemma_arms_view, pat_view, term_view, LetPat, MatchNum, MatchNumV, Name, PatV, RulePat, Term, TermV, LetPatV};

use super::free_vars::{arm_binder, free_vars_arms, free_vars_v};

verus! {

/// Whether an arm pattern binds `nam`: only a successor pattern `+nam`
/// binds a variable.
pub open spec fn arm_binds(p: PatV, nam: Seq<char>) -> bool {
    p == PatV::Num(MatchNumV::Succ(Some(nam)))
}

/// Whether an optional binder binds `nam`.
pub open spec fn binds(o: Option<Seq<char>>, nam: Seq<char>) -> bool {
    o == Some(nam)
}

/// `t` with the occurrences of the variable `from` that are in scope
/// (not shadowed by a binder of the same name) replaced by `to`. Channel
/// variables (`$x`) are left as they are.
pub open spec fn subst_v(t: TermV, from: Seq<char>, to: TermV) -> TermV
    decreases t,
{
    match t {
        TermV::Lam { tag, nam, bod } => if binds(nam, from) {
            t
        } else {
            TermV::Lam { tag, nam, bod: Box::new(subst_v(*bod, from, to)) }
        },
        TermV::Var { nam } => if nam == from {
            to
        } else {
            t
        },
        TermV::Chn { nam, bod } => TermV::Chn { nam, bod: Box::new(subst_v(*bod, from, to)) },
        TermV::Lnk { .. } => t,
        TermV::Let { pat, val, nxt } => {
            let shadowed = match pat {
                LetPatV::Var(n) => n == from,
                LetPatV::Tup(a, b) => binds(a, from) || binds(b, from),
            };
            TermV::Let {
                pat,
                val: Box::new(subst_v(*val, from, to)),
                nxt: if shadowed {
                    nxt
                } else {
                    Box::new(subst_v(*nxt, from, to))
                },
            }
        },
        TermV::Dup { tag, fst, snd, val, nxt } => TermV::Dup {
            tag,
            fst,
            snd,
            val: Box::new(subst_v(*val, from, to)),
            nxt: if binds(fst, from) || binds(snd, from) {
                nxt
            } else {
                Box::new(subst_v(*nxt, from, to))
            },
        },
        TermV::Match { scrutinee, arms } => TermV::Match {
            scrutinee: Box::new(subst_v(*scrutinee, from, to)),
            arms: subst_arms(arms, from, to),
        },
        TermV::App { tag, fun, arg } => TermV::App {
            tag,
            fun: Box::new(subst_v(*fun, from, to)),
            arg: Box::new(subst_v(*arg, from, to)),
        },
        TermV::Sup { tag, fst, snd } => TermV::Sup {
            tag,
            fst: Box::new(subst_v(*fst, from, to)),
            snd: Box::new(subst_v(*snd, from, to)),
        },
        TermV::Tup { fst, snd } => TermV::Tup {
            fst: Box::new(subst_v(*fst, from, to)),
            snd: Box::new(subst_v(*snd, from, to)),
        },
        TermV::Opx { op, fst, snd } => TermV::Opx {
            op,
            fst: Box::new(subst_v(*fst, from, to)),
            snd: Box::new(subst_v(*snd, from, to)),
        },
        TermV::Ref { .. } | TermV::Num { .. } | TermV::Era => t,
    }
}

/// One arm after substitution: the body changes unless the pattern binds
/// `from`.
pub open spec fn subst_arm(arm: (PatV, TermV), from: Seq<char>, to: TermV) -> (PatV, TermV)
    decreases arm,
{
    if arm_binds(arm.0, from) {
        arm
    } else {
        (arm.0, subst_v(arm.1, from, to))
    }
}

pub open spec fn subst_arms(arms: Seq<(PatV, TermV)>, from: Seq<char>, to: TermV) -> Seq<
    (PatV, TermV),
>
    decreases arms,
{
    if arms.len() == 0 {
        Seq::empty()
    } else {
        subst_arms(arms.subrange(0, arms.len() - 1), from, to).push(
            if arm_binds(arms[arms.len() - 1].0, from) {
                arms[arms.len() - 1]
            } else {
                (arms[arms.len() - 1].0, subst_v(arms[arms.len() - 1].1, from, to))
            },
        )
    }
}

/// `subst_arms` substitutes in each arm.
pub proof fn lemma_subst_arms(arms: Seq<(PatV, TermV)>, from: Seq<char>, to: TermV)
    ensures
        subst_arms(arms, from, to).len() == arms.len(),
        forall|i: int|
            0 <= i < arms.len() ==> #[trigger] subst_arms(arms, from, to)[i] == subst_arm(
                arms[i],
                from,
                to,
            ),
    decreases arms.len(),
{
    if arms.len() > 0 {
        let p = arms.subrange(0, arms.len() - 1);
        lemma_subst_arms(p, from, to);
        assert forall|i: int| 0 <= i < arms.len() implies #[trigger] subst_arms(arms, from, to)[i]
            == subst_arm(arms[i], from, to) by {
            if i < arms.len() - 1 {
                assert(p[i] == arms[i]);
            }
        }
    }
}

/// Whether an optional binder is `from`.
fn binds_name(o: &Option<Name>, from: &Name) -> (r: bool)
    ensures
        r == binds(super::opt_name(*o), from@),
{
    match o {
        Some(n) => n.eq_name(from),
        None => false,
    }
}

impl Term {
    /// Substitutes the occurrences of a variable in a term with the given
    /// term.
    pub fn subst(&mut self, from: &Name, to: &Term)
        ensures
            final(self)@ == subst_v(old(self)@, from@, to@),
        decreases *old(self),
    {
        match self {
            Term::Lam { nam, bod, .. } => {
                if !binds_name(nam, from) {
                    bod.subst(from, to);
                }
            },
            Term::Var { nam } => {
                if nam.eq_name(from) {
                    *self = to.clone_term();
                }
            },
            Term::Chn { bod, .. } => bod.subst(from, to),
            Term::Lnk { .. } => {},
            Term::Let { pat, val, nxt } => {
                val.subst(from, to);
                let shadowed = match pat {
                    LetPat::Var(n) => n.eq_name(from),
                    LetPat::Tup(a, b) => binds_name(a, from) || binds_name(b, from),
                };
                if !shadowed {
                    nxt.subst(from, to);
                }
            },
            Term::Dup { fst, snd, val, nxt, .. } => {
                val.subst(from, to);
                if !binds_name(fst, from) && !binds_name(snd, from) {
                    nxt.subst(from, to);
                }
            },
            Term::Match { scrutinee, arms } => {
                scrutinee.subst(from, to);
                let ghost old_arms = arms@;
                let n = arms.len();
                let mut i: usize = 0;
                while i < n
                    invariant
                        decreases_to!(*old(self) => old_arms),
                        n == old_arms.len(),
                        arms@.len() == n,
                        i <= n,
                        forall|j: int|
                            0 <= j < i ==> (pat_view(#[trigger] arms@[j].0), term_view(arms@[j].1))
                                == subst_arm(
                                (pat_view(old_arms[j].0), term_view(old_arms[j].1)),
                                from@,
                                to@,
                            ),
                        forall|j: int| i <= j < n ==> #[trigger] arms@[j] == old_arms[j],
                    decreases n - i,
                {
                    if !arm_binds_name(&arms[i].0, from) {
                        let arm = &mut arms[i];
                        proof {
                            assert(*arm == old_arms[i as int]);
                            assert(decreases_to!(old_arms => old_arms[i as int]));
                            assert(decreases_to!(*old(self) => arm.1));
                        }
                        arm.1.subst(from, to);
                    }
                    i = i + 1;
                }
                proof {
                    lemma_arms_view(arms@);
                    lemma_arms_view(old_arms);
                    lemma_subst_arms(arms_view(old_arms), from@, to@);
                    assert(arms_view(arms@) =~= subst_arms(arms_view(old_arms), from@, to@));
                }
            },
            Term::App { fun, arg, .. } => {
                fun.subst(from, to);
                arg.subst(from, to);
            },
            Term::Sup { fst, snd, .. } => {
                fst.subst(from, to);
                snd.subst(from, to);
            },
            Term::Tup { fst, snd } => {
                fst.subst(from, to);
                snd.subst(from, to);
            },
            Term::Opx { fst, snd, .. } => {
                fst.subst(from, to);
                snd.subst(from, to);
            },
            Term::Ref { .. } | Term::Num { .. } | Term::Era => {},
        }
    }
}

/// Whether an arm pattern binds `from`.
fn arm_binds_name(p: &RulePat, from: &Name) -> (r: bool)
    ensures
        r == arm_binds(pat_view(*p), from@),
{
    match p {
        RulePat::Num(MatchNum::Succ(Some(nam))) => nam.eq_name(from),
        _ => false,
    }
}

/// Substituting a variable that does not occur free in a term leaves the
/// term as it is.
pub proof fn law_subst_unused(t: TermV, from: Seq<char>, to: TermV)
    requires
        !free_vars_v(t).contains(from),
    ensures
        subst_v(t, from, to) == t,
    decreases t,
{
    match t {
        TermV::Lam { nam, bod, .. } => {
            if !binds(nam, from) {
                law_subst_unused(*bod, from, to);
            }
        },
        TermV::Chn { bod, .. } => law_subst_unused(*bod, from, to),
        TermV::Let { pat, val, nxt } => {
            law_subst_unused(*val, from, to);
            let shadowed = match pat {
                LetPatV::Var(n) => n == from,
                LetPatV::Tup(a, b) => binds(a, from) || binds(b, from),
            };
            if !shadowed {
                law_subst_unused(*nxt, from, to);
            }
        },
        TermV::Dup { fst, snd, val, nxt, .. } => {
            law_subst_unused(*val, from, to);
            if !(binds(fst, from) || binds(snd, from)) {
                law_subst_unused(*nxt, from, to);
            }
        },
        TermV::Match { scrutinee, arms } => {
            law_subst_unused(*scrutinee, from, to);
            lemma_subst_arms_unused(arms, from, to);
        },
        TermV::App { fun: a, arg: b, .. } | TermV::Sup { fst: a, snd: b, .. } | TermV::Tup {
            fst: a,
            snd: b,
        } | TermV::Opx { fst: a, snd: b, .. } => {
            law_subst_unused(*a, from, to);
            law_subst_unused(*b, from, to);
        },
        _ => {},
    }
}

/// Substituting in arms where the variable does not occur free leaves them
/// as they are.
pub proof fn lemma_subst_arms_unused(arms: Seq<(PatV, TermV)>, from: Seq<char>, to: TermV)
    requires
        !free_vars_arms(arms).contains(from),
    ensures
        subst_arms(arms, from, to) == arms,
    decreases arms,
{
    if arms.len() > 0 {
        let p = arms.subrange(0, arms.len() - 1);
        let last = arms[arms.len() - 1];
        lemma_subst_arms_unused(p, from, to);
        if !arm_binds(last.0, from) {
            assert(!arm_binder(last.0).contains(from)) by {
                if arm_binder(last.0).contains(from) {
                    assert(last.0 == PatV::Num(MatchNumV::Succ(Some(from))));
                }
            }
            law_subst_unused(last.1, from, to);
        }
        assert(subst_arms(arms, from, to) =~= arms);
    }
}

/// Whether an optional binder binds none of the names.
pub open spec fn avoids(o: Option<Seq<char>>, names: Set<Seq<char>>) -> bool {
    match o {
        Some(n) => !names.contains(n),
        None => true,
    }
}

/// Whether substituting `to` for `from` in `t` captures none of the free
/// variables of `to`: no binder of `t` that encloses a free occurrence of
/// `from` binds one of them.
pub open spec fn subst_safe(t: TermV, from: Seq<char>, to: TermV) -> bool
    decreases t,
{
    let fv_to = free_vars_v(to);
    match t {
        TermV::Lam { nam, bod, .. } => binds(nam, from) || (
            (free_vars_v(*bod).contains(from) ==> avoids(nam, fv_to)) && subst_safe(*bod, from, to)),
        TermV::Chn { bod, .. } => subst_safe(*bod, from, to),
        TermV::Let { pat, val, nxt } => subst_safe(*val, from, to) && match pat {
            LetPatV::Var(n) => n == from || ((free_vars_v(*nxt).contains(from) ==> !fv_to.contains(n))
                && subst_safe(*nxt, from, to)),
            LetPatV::Tup(a, b) => binds(a, from) || binds(b, from) || ((free_vars_v(*nxt).contains(from)
                ==> avoids(a, fv_to) && avoids(b, fv_to)) && subst_safe(*nxt, from, to)),
        },
        TermV::Dup { fst, snd, val, nxt, .. } => subst_safe(*val, from, to) && (binds(fst, from) || binds(
            snd,
            from,
        ) || ((free_vars_v(*nxt).contains(from) ==> avoids(fst, fv_to) && avoids(snd, fv_to))
            && subst_safe(*nxt, from, to))),
        TermV::App { fun: a, arg: b, .. } | TermV::Tup { fst: a, snd: b } | TermV::Sup {
            fst: a,
            snd: b,
            ..
        } | TermV::Opx { fst: a, snd: b, .. } => subst_safe(*a, from, to) && subst_safe(*b, from, to),
        TermV::Match { scrutinee, arms } => subst_safe(*scrutinee, from, to) && subst_safe_arms(arms, from, to),
        _ => true,
    }
}

/// `subst_safe` for each arm that does not bind `from`.
pub open spec fn subst_safe_arms(arms: Seq<(PatV, TermV)>, from: Seq<char>, to: TermV) -> bool
    decreases arms,
{
    if arms.len() == 0 {
        true
    } else {
        let last = arms[arms.len() - 1];
        subst_safe_arms(arms.subrange(0, arms.len() - 1), from, to) && (arm_binds(last.0, from) || (
        (free_vars_v(last.1).contains(from) ==> arm_binder(last.0).disjoint(free_vars_v(to)))
            && subst_safe(last.1, from, to)))
    }
}

/// The free variables after a substitution of `to` for `from`, where they
/// were `fv` before.
pub open spec fn fv_after(fv: Set<Seq<char>>, from: Seq<char>, fv_to: Set<Seq<char>>) -> Set<Seq<char>> {
    (fv - set![from]) + if fv.contains(from) {
        fv_to
    } else {
        Set::empty()
    }
}

/// Where it captures nothing, substituting `to` for `from` leaves the free
/// variables of the term but `from`, and adds those of `to` if `from` was
/// free.
pub proof fn law_subst_free_vars(t: TermV, from: Seq<char>, to: TermV)
    requires
        subst_safe(t, from, to),
    ensures
        free_vars_v(subst_v(t, from, to)) == fv_after(free_vars_v(t), from, free_vars_v(to)),
    decreases t,
{
    let ft = free_vars_v(to);
    match t {
        TermV::Lam { nam, bod, .. } => {
            if !binds(nam, from) {
                law_subst_free_vars(*bod, from, to);
            }
        },
        TermV::Chn { bod, .. } => law_subst_free_vars(*bod, from, to),
        TermV::Let { pat, val, nxt } => {
            law_subst_free_vars(*val, from, to);
            let shadowed = match pat {
                LetPatV::Var(n) => n == from,
                LetPatV::Tup(a, b) => binds(a, from) || binds(b, from),
            };
            if !shadowed {
                law_subst_free_vars(*nxt, from, to);
            }
        },
        TermV::Dup { fst, snd, val, nxt, .. } => {
            law_subst_free_vars(*val, from, to);
            if !(binds(fst, from) || binds(snd, from)) {
                law_subst_free_vars(*nxt, from, to);
            }
        },
        TermV::Match { scrutinee, arms } => {
            law_subst_free_vars(*scrutinee, from, to);
            lemma_subst_arms_free_vars(arms, from, to);
        },
        TermV::App { fun: a, arg: b, .. } | TermV::Sup { fst: a, snd: b, .. } | TermV::Tup {
            fst: a,
            snd: b,
        } | TermV::Opx { fst: a, snd: b, .. } => {
            law_subst_free_vars(*a, from, to);
            law_subst_free_vars(*b, from, to);
        },
        _ => {},
    }
    assert(free_vars_v(subst_v(t, from, to)) =~= fv_after(free_vars_v(t), from, ft));
}

/// `law_subst_free_vars`, for the arms of a match.
pub proof fn lemma_subst_arms_free_vars(arms: Seq<(PatV, TermV)>, from: Seq<char>, to: TermV)
    requires
        subst_safe_arms(arms, from, to),
    ensures
        free_vars_arms(subst_arms(arms, from, to)) == fv_after(free_vars_arms(arms), from, free_vars_v(to)),
    decreases arms,
{
    let ft = free_vars_v(to);
    if arms.len() == 0 {
        assert(free_vars_arms(subst_arms(arms, from, to)) =~= fv_after(free_vars_arms(arms), from, ft));
    } else {
        let p = arms.subrange(0, arms.len() - 1);
        let last = arms[arms.len() - 1];
        lemma_subst_arms_free_vars(p, from, to);
        let s = subst_arms(arms, from, to);
        lemma_subst_arms(arms, from, to);
        assert(s.subrange(0, s.len() - 1) == subst_arms(p, from, to));
        if arm_binds(last.0, from) {
            assert(s[s.len() - 1] == last);
            assert(!(free_vars_v(last.1) - arm_binder(last.0)).contains(from));
        } else {
            law_subst_free_vars(last.1, from, to);
            assert(s[s.len() - 1] == (last.0, subst_v(last.1, from, to)));
            assert(!arm_binder(last.0).contains(from)) by {
                if arm_binder(last.0).contains(from) {
                    assert(last.0 == PatV::Num(MatchNumV::Succ(Some(from))));
                }
            }
        }
        assert(free_vars_arms(s) =~= fv_after(free_vars_arms(arms), from, ft));
    }
}

} // verus!
