//! The free variables of a term.
use vstd::prelude::*;
use crate::collections::{
    index_set_extend, index_set_insert, index_set_items, index_set_new, index_set_remove,
    items_extend, items_insert, items_swap_remove, lemma_items_extend, lemma_items_insert,
    lemma_items_swap_remove,
};
use indexmap::IndexSet;
use super::{arms_view, lemma_arms_view, pat_view, term_view, LetPat, LetPatV, MatchNum, MatchNumV, Name, PatV, RulePat, Term, TermV};

verus! {

/// The set holding the name of an optional binder, if any.
pub open spec fn binder_set(o: Option<Seq<char>>) -> Set<Seq<char>> {
    match o {
        Some(n) => set![n],
        None => Set::empty(),
    }
}

/// The free variables of a term: its variables (`Var`, not channel `Lnk`
/// uses) that no enclosing binder of the term binds.
pub open spec fn free_vars_v(t: TermV) -> Set<Seq<char>>
    decreases t,
{
    match t {
        TermV::Lam { nam, bod, .. } => free_vars_v(*bod) - binder_set(nam),
        TermV::Var { nam } => set![nam],
        TermV::Chn { bod, .. } => free_vars_v(*bod),
        TermV::Lnk { .. } => Set::empty(),
        TermV::Let { pat, val, nxt } => match pat {
            LetPatV::Var(n) => free_vars_v(*val) + (free_vars_v(*nxt) - set![n]),
            LetPatV::Tup(a, b) => free_vars_v(*val) + (free_vars_v(*nxt) - binder_set(a)
                - binder_set(b)),
        },
        TermV::Dup { fst, snd, val, nxt, .. } => free_vars_v(*val) + (free_vars_v(*nxt)
            - binder_set(fst) - binder_set(snd)),
        TermV::App { fun, arg, .. } => free_vars_v(*fun) + free_vars_v(*arg),
        TermV::Tup { fst, snd } => free_vars_v(*fst) + free_vars_v(*snd),
        TermV::Sup { fst, snd, .. } => free_vars_v(*fst) + free_vars_v(*snd),
        TermV::Opx { fst, snd, .. } => free_vars_v(*fst) + free_vars_v(*snd),
        TermV::Match { scrutinee, arms } => free_vars_v(*scrutinee) + free_vars_arms(arms),
        TermV::Ref { .. } | TermV::Num { .. } | TermV::Era => Set::empty(),
    }
}

/// The variable that an arm pattern binds, as a set.
pub open spec fn arm_binder(p: PatV) -> Set<Seq<char>> {
    match p {
        PatV::Num(MatchNumV::Succ(Some(n))) => set![n],
        _ => Set::empty(),
    }
}

/// The free variables of the arms of a match: those of each body, but for
/// the variable its pattern binds.
pub open spec fn free_vars_arms(arms: Seq<(PatV, TermV)>) -> Set<Seq<char>>
    decreases arms,
{
    if arms.len() == 0 {
        Set::empty()
    } else {
        free_vars_arms(arms.subrange(0, arms.len() - 1)) + (free_vars_v(arms[arms.len() - 1].1)
            - arm_binder(arms[arms.len() - 1].0))
    }
}

/// The items of a scope after removing the variable an optional binder
/// binds, in the manner of `swap_remove`.
pub open spec fn scope_remove(items: Seq<Seq<char>>, o: Option<Seq<char>>) -> Seq<Seq<char>> {
    match o {
        Some(n) => items_swap_remove(items, n),
        None => items,
    }
}

/// The free variables of a term added, in the order the traversal finds
/// them, to the items `acc`: a variable is added where it is first met; the
/// variables of a scope under binders are gathered apart, the bound ones
/// removed (by `swap_remove`), and the rest added in their order.
pub open spec fn fv_items(t: TermV, acc: Seq<Seq<char>>) -> Seq<Seq<char>>
    decreases t,
{
    match t {
        TermV::Lam { nam, bod, .. } => match nam {
            Some(n) => items_extend(acc, items_swap_remove(fv_items(*bod, Seq::empty()), n)),
            None => fv_items(*bod, acc),
        },
        TermV::Var { nam } => items_insert(acc, nam),
        TermV::Chn { bod, .. } => fv_items(*bod, acc),
        TermV::Lnk { .. } => acc,
        TermV::Let { pat, val, nxt } => match pat {
            LetPatV::Var(n) => items_extend(
                fv_items(*val, acc),
                items_swap_remove(fv_items(*nxt, Seq::empty()), n),
            ),
            LetPatV::Tup(a, b) => items_extend(
                fv_items(*val, acc),
                scope_remove(scope_remove(fv_items(*nxt, Seq::empty()), a), b),
            ),
        },
        TermV::Dup { fst, snd, val, nxt, .. } => items_extend(
            fv_items(*val, acc),
            scope_remove(scope_remove(fv_items(*nxt, Seq::empty()), fst), snd),
        ),
        TermV::App { fun, arg, .. } => fv_items(*arg, fv_items(*fun, acc)),
        TermV::Tup { fst, snd } => fv_items(*snd, fv_items(*fst, acc)),
        TermV::Sup { fst, snd, .. } => fv_items(*snd, fv_items(*fst, acc)),
        TermV::Opx { fst, snd, .. } => fv_items(*snd, fv_items(*fst, acc)),
        TermV::Match { scrutinee, arms } => fv_arms_items(arms, fv_items(*scrutinee, acc)),
        TermV::Ref { .. } | TermV::Num { .. } | TermV::Era => acc,
    }
}

/// The free variables of the arms of a match added, arm by arm, to `acc`:
/// each arm's scope without the variable its pattern binds.
pub open spec fn fv_arms_items(arms: Seq<(PatV, TermV)>, acc: Seq<Seq<char>>) -> Seq<Seq<char>>
    decreases arms,
{
    if arms.len() == 0 {
        acc
    } else {
        items_extend(
            fv_arms_items(arms.subrange(0, arms.len() - 1), acc),
            scope_remove(fv_items(arms[arms.len() - 1].1, Seq::empty()), arm_opt(arms[arms.len() - 1].0)),
        )
    }
}

/// The variable an arm pattern binds, if any.
pub open spec fn arm_opt(p: PatV) -> Option<Seq<char>> {
    match p {
        PatV::Num(MatchNumV::Succ(Some(n))) => Some(n),
        _ => None,
    }
}

/// The items of a set of names hold no name twice.
pub open spec fn distinct_items(s: IndexSet<String>) -> bool {
    index_set_items(s).no_duplicates()
}

/// Removes the variable a binder binds from a scope.
fn remove_binder(scope: &mut IndexSet<String>, o: &Option<Name>)
    requires
        distinct_items(*old(scope)),
    ensures
        distinct_items(*final(scope)),
        index_set_items(*final(scope)).to_set() == index_set_items(*old(scope)).to_set()
            - binder_set(super::opt_name(*o)),
        index_set_items(*final(scope)) == scope_remove(index_set_items(*old(scope)), super::opt_name(*o)),
{
    proof {
        assert(index_set_items(*old(scope)).to_set() =~= index_set_items(*old(scope)).to_set()
            - Set::<Seq<char>>::empty());
    }
    match o {
        Some(n) => {
            proof {
                lemma_items_swap_remove(index_set_items(*scope), n@);
                assert(index_set_items(*old(scope)).to_set().remove(n@) =~= index_set_items(
                    *old(scope),
                ).to_set() - set![n@]);
            }
            index_set_remove(scope, &n.0);
        },
        None => {},
    }
}

/// Adds the free variables of `t`, less the given binders, to `acc`.
fn extend_scoped(
    t: &Term,
    a: &Option<Name>,
    b: &Option<Name>,
    acc: &mut IndexSet<String>,
)
    requires
        distinct_items(*old(acc)),
    ensures
        distinct_items(*final(acc)),
        index_set_items(*final(acc)).to_set() == index_set_items(*old(acc)).to_set() + (
        free_vars_v(t@) - binder_set(super::opt_name(*a)) - binder_set(super::opt_name(*b))),
        index_set_items(*final(acc)).subrange(0, index_set_items(*old(acc)).len() as int)
            == index_set_items(*old(acc)),
        index_set_items(*final(acc)).len() >= index_set_items(*old(acc)).len(),
        index_set_items(*final(acc)) == items_extend(
            index_set_items(*old(acc)),
            scope_remove(
                scope_remove(fv_items(t@, Seq::empty()), super::opt_name(*a)),
                super::opt_name(*b),
            ),
        ),
    decreases t, 1nat,
{
    let mut new_scope = index_set_new();
    proof {
        assert(index_set_items(new_scope).no_duplicates());
    }
    t.free_vars(&mut new_scope);
    proof {
        assert(index_set_items(new_scope).to_set() =~= free_vars_v(t@));
    }
    remove_binder(&mut new_scope, a);
    remove_binder(&mut new_scope, b);
    proof {
        lemma_items_extend(index_set_items(*acc), index_set_items(new_scope));
    }
    index_set_extend(acc, new_scope);
}

impl Term {
    /// Adds the free variables of the term to `free_vars`, which keeps what
    /// it held, in front.
    pub fn free_vars(&self, free_vars: &mut IndexSet<String>)
        requires
            distinct_items(*old(free_vars)),
        ensures
            distinct_items(*final(free_vars)),
            index_set_items(*final(free_vars)).to_set() == index_set_items(*old(free_vars)).to_set()
                + free_vars_v(self@),
            index_set_items(*final(free_vars)).subrange(
                0,
                index_set_items(*old(free_vars)).len() as int,
            ) == index_set_items(*old(free_vars)),
            index_set_items(*final(free_vars)).len() >= index_set_items(*old(free_vars)).len(),
            index_set_items(*final(free_vars)) == fv_items(self@, index_set_items(*old(free_vars))),
        decreases self, 0nat,
    {
        let ghost old_items = index_set_items(*free_vars);
        match self {
            Term::Lam { nam: Some(n), bod, .. } => {
                extend_scoped(bod, &Some(n.clone_name()), &None, free_vars);
                proof {
                    assert(free_vars_v(bod@) - binder_set(Some(n@)) - binder_set(None)
                        =~= free_vars_v(self@));
                }
            },
            Term::Lam { nam: None, bod, .. } => {
                bod.free_vars(free_vars);
                proof {
                    assert(free_vars_v(bod@) - binder_set(None) =~= free_vars_v(bod@));
                }
            },
            Term::Var { nam } => {
                proof {
                    lemma_items_insert(old_items, nam@);
                    assert(old_items.to_set().insert(nam@) =~= old_items.to_set() + set![nam@]);
                }
                index_set_insert(free_vars, nam.0.clone());
            },
            Term::Chn { bod, .. } => {
                bod.free_vars(free_vars);
            },
            Term::Lnk { .. } => {
                proof {
                    assert(old_items.to_set() + Set::empty() =~= old_items.to_set());
                    assert(old_items.subrange(0, old_items.len() as int) =~= old_items);
                }
            },
            Term::Let { pat: LetPat::Var(nam), val, nxt } => {
                val.free_vars(free_vars);
                let ghost mid = index_set_items(*free_vars);
                extend_scoped(nxt, &Some(nam.clone_name()), &None, free_vars);
                proof {
                    assert(index_set_items(*free_vars).subrange(0, old_items.len() as int)
                        =~= mid.subrange(0, old_items.len() as int));
                    assert(free_vars_v(nxt@) - binder_set(Some(nam@)) - binder_set(None)
                        =~= free_vars_v(nxt@) - set![nam@]);
                    assert(old_items.to_set() + free_vars_v(self@) =~= old_items.to_set()
                        + free_vars_v(val@) + (free_vars_v(nxt@) - set![nam@]));
                }
            },
            Term::Let { pat: LetPat::Tup(a, b), val, nxt } => {
                val.free_vars(free_vars);
                let ghost mid = index_set_items(*free_vars);
                extend_scoped(nxt, a, b, free_vars);
                proof {
                    assert(index_set_items(*free_vars).subrange(0, old_items.len() as int)
                        =~= mid.subrange(0, old_items.len() as int));
                    assert(old_items.to_set() + free_vars_v(self@) =~= old_items.to_set()
                        + free_vars_v(val@) + (free_vars_v(nxt@) - binder_set(super::opt_name(*a))
                        - binder_set(super::opt_name(*b))));
                }
            },
            Term::Dup { fst, snd, val, nxt, .. } => {
                val.free_vars(free_vars);
                let ghost mid = index_set_items(*free_vars);
                extend_scoped(nxt, fst, snd, free_vars);
                proof {
                    assert(index_set_items(*free_vars).subrange(0, old_items.len() as int)
                        =~= mid.subrange(0, old_items.len() as int));
                    assert(old_items.to_set() + free_vars_v(self@) =~= old_items.to_set()
                        + free_vars_v(val@) + (free_vars_v(nxt@) - binder_set(super::opt_name(*fst))
                        - binder_set(super::opt_name(*snd))));
                }
            },
            Term::App { fun: fst, arg: snd, .. } | Term::Tup { fst, snd } | Term::Sup { fst, snd, .. }
            | Term::Opx { fst, snd, .. } => {
                fst.free_vars(free_vars);
                let ghost mid = index_set_items(*free_vars);
                snd.free_vars(free_vars);
                proof {
                    assert(index_set_items(*free_vars).subrange(0, old_items.len() as int)
                        =~= mid.subrange(0, old_items.len() as int));
                    assert(old_items.to_set() + free_vars_v(self@) =~= old_items.to_set()
                        + free_vars_v(fst@) + free_vars_v(snd@));
                }
            },
            Term::Match { scrutinee, arms } => {
                scrutinee.free_vars(free_vars);
                let ghost start = index_set_items(*free_vars);
                let n = arms.len();
                let mut i: usize = 0;
                while i < n
                    invariant
                        decreases_to!(*self => arms@),
                        n == arms@.len(),
                        i <= n,
                        distinct_items(*free_vars),
                        index_set_items(*free_vars).to_set() == start.to_set() + free_vars_arms(
                            arms_view(arms@).subrange(0, i as int),
                        ),
                        index_set_items(*free_vars).subrange(0, start.len() as int) == start,
                        index_set_items(*free_vars).len() >= start.len(),
                        index_set_items(*free_vars) == fv_arms_items(
                            arms_view(arms@).subrange(0, i as int),
                            start,
                        ),
                    decreases n - i,
                {
                    let arm = &arms[i];
                    proof {
                        assert(decreases_to!(arms@ => arms@[i as int]));
                        assert(decreases_to!(*self => arm.1));
                    }
                    let binder = match &arm.0 {
                        RulePat::Num(MatchNum::Succ(Some(nam))) => Some(nam.clone_name()),
                        _ => None,
                    };
                    let ghost before = index_set_items(*free_vars);
                    extend_scoped(&arm.1, &binder, &None, free_vars);
                    proof {
                        lemma_arms_view(arms@);
                        let av = arms_view(arms@);
                        assert(av[i as int] == (pat_view(arm.0), term_view(arm.1)));
                        assert(binder_set(super::opt_name(binder)) =~= arm_binder(pat_view(arm.0)));
                        let pre = av.subrange(0, i + 1);
                        assert(pre.subrange(0, i as int) =~= av.subrange(0, i as int));
                        assert(free_vars_arms(pre) =~= free_vars_arms(av.subrange(0, i as int)) + (
                        free_vars_v(av[i as int].1) - arm_binder(av[i as int].0)));
                        assert(index_set_items(*free_vars).to_set() =~= start.to_set()
                            + free_vars_arms(pre));
                        assert(index_set_items(*free_vars).subrange(0, start.len() as int)
                            =~= before.subrange(0, start.len() as int));
                        assert(super::opt_name(binder) == arm_opt(pat_view(arm.0)));
                        assert(pre[pre.len() - 1] == av[i as int]);
                    }
                    i = i + 1;
                }
                proof {
                    lemma_arms_view(arms@);
                    assert(arms_view(arms@).subrange(0, n as int) =~= arms_view(arms@));
                    assert(arms_view(arms@).subrange(0, 0) =~= Seq::<(PatV, TermV)>::empty());
                    assert(old_items.to_set() + free_vars_v(self@) =~= old_items.to_set()
                        + free_vars_v(scrutinee@) + free_vars_arms(arms_view(arms@)));
                    assert(index_set_items(*free_vars).subrange(0, old_items.len() as int)
                        =~= start.subrange(0, old_items.len() as int));
                }
            },
            Term::Ref { .. } | Term::Num { .. } | Term::Era => {
                proof {
                    assert(old_items.to_set() + Set::empty() =~= old_items.to_set());
                    assert(old_items.subrange(0, old_items.len() as int) =~= old_items);
                }
            },
        }
    }
}

} // verus!
