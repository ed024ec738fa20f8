//! Resugaring of datatypes in a read-back term: the lambda encoding of a
//! constructor becomes a call of the constructor, and the application of a
//! value to one lambda per constructor becomes a `match`.
use vstd::prelude::*;
use hvmc::run::Val;
use crate::collections::{index_map_get_index, index_map_items, index_map_len, strings_view};
use indexmap::IndexMap;
use super::fix_names::{fix_ok, fix_v, lemma_fix_no_let_var, lemma_no_let_var_arms_split, no_let_var, no_let_var_arms};
use super::{def_index, defs_sorted, Adt, Book, DefId, Name, PatV, RulePat, Term, TermV};

verus! {

/// A datatype's constructors, in order: each name, with its field names.
pub type CtrsV = Seq<(Seq<char>, Seq<Seq<char>>)>;

/// The position of the first datatype with a name.
pub open spec fn adt_index(adts: Seq<(Name, Adt)>, a: Seq<char>) -> Option<int> {
    if exists|i: int| 0 <= i < adts.len() && (#[trigger] adts[i]).0@ == a {
        Some(
            choose|i: int|
                0 <= i < adts.len() && (#[trigger] adts[i]).0@ == a && forall|j: int|
                    0 <= j < i ==> (#[trigger] adts[j]).0@ != a,
        )
    } else {
        None
    }
}

/// The constructors of the book's datatype with a name, if it has one.
pub open spec fn adt_ctrs(book: Book, a: Seq<char>) -> Option<CtrsV> {
    match adt_index(book.adts@, a) {
        Some(i) => Some(index_map_items(book.adts@[i].1.ctrs)),
        None => None,
    }
}

/// The term a reference stands for: the body of the definition's only rule,
/// its binders renamed from `c` on (generated definitions inlined, nesting at
/// most as deep as the book has definitions). `None` where the definition is
/// missing, has other than one rule, has a single-variable let, or the
/// renaming runs out of ids.
pub open spec fn unfold_ref(book: Book, id: Val, c: nat) -> Option<(TermV, nat)> {
    match def_index(book.defs@, id) {
        None => None,
        Some(i) => {
            let d = book.defs@[i];
            if d.rules@.len() != 1 || !no_let_var(d.rules@[0].body@) || !fix_ok(
                d.rules@[0].body@,
                c,
                book.def_names@.ids,
                book.defs@,
                book.defs@.len(),
            ) {
                None
            } else {
                let r = fix_v(d.rules@[0].body@, c, book.def_names@.ids, book.defs@, book.defs@.len());
                if r.1 > Val::MAX {
                    None
                } else {
                    Some(r)
                }
            }
        },
    }
}

/// Replaces a reference by the term it stands for, as long as the term is a
/// reference, at most `fuel` times.
pub open spec fn expand_v(book: Book, t: TermV, c: nat, fuel: nat) -> Option<(TermV, nat)>
    decreases fuel,
{
    match t {
        TermV::Ref { def_id } => if fuel == 0 {
            Some((t, c))
        } else {
            match unfold_ref(book, def_id, c) {
                None => None,
                Some((b, c1)) => expand_v(book, b, c1, (fuel - 1) as nat),
            }
        },
        _ => Some((t, c)),
    }
}

/// What walking the lambdas of a constructor encoding ends in.
pub enum LamOut {
    /// Not a constructor encoding.
    Fail,
    /// The constructor call it encodes.
    Done(TermV),
}

/// The application at the bottom of an encoding, walked `n` applications
/// down the function side (each reference met replaced by what it stands
/// for): whether it bottoms out in the variable `nam`.
pub open spec fn app_walk_v(book: Book, t: TermV, n: nat, nam: Seq<char>, c: nat, fuel: nat) -> Option<
    (TermV, nat, bool),
>
    decreases n,
{
    if n == 0 {
        Some((t, c, t == TermV::Var { nam }))
    } else {
        match expand_v(book, t, c, fuel) {
            None => None,
            Some((t1, c1)) => match t1 {
                TermV::App { tag, fun, arg } => match app_walk_v(book, *fun, (n - 1) as nat, nam, c1, fuel) {
                    None => None,
                    Some((f2, c2, ok)) => Some((TermV::App { tag, fun: Box::new(f2), arg }, c2, ok)),
                },
                _ => Some((t1, c1, false)),
            },
        }
    }
}

/// The application `n` deep, its innermost function replaced by a reference
/// to the constructor, and the tags of the `n` applications removed.
pub open spec fn rewrite_v(t: TermV, n: nat, id: Val) -> TermV
    decreases n,
{
    if n == 0 {
        TermV::Ref { def_id: id }
    } else {
        match t {
            TermV::App { fun, arg, .. } => TermV::App {
                tag: None,
                fun: Box::new(rewrite_v(*fun, (n - 1) as nat, id)),
                arg,
            },
            _ => t,
        }
    }
}

/// Walks the lambdas of a constructor encoding `λ$a c0 λ$a c1 … (ck f…)`,
/// tagged with the datatype `a`, one per constructor from the `i`-th: exactly
/// one of them must bind a name (`arm`: the name and its constructor), and
/// the body must apply that name to the constructor's fields.
pub open spec fn lam_walk_v(
    book: Book,
    t: TermV,
    a: Seq<char>,
    ctrs: CtrsV,
    i: nat,
    arm: Option<(Seq<char>, int)>,
    c: nat,
    fuel: nat,
) -> Option<(TermV, nat, LamOut)>
    decreases ctrs.len() - i,
{
    if i >= ctrs.len() {
        match arm {
            None => Some((t, c, LamOut::Fail)),
            Some((nam, k)) => {
                let n = ctrs[k].1.len();
                match app_walk_v(book, t, n, nam, c, fuel) {
                    None => None,
                    Some((t2, c2, ok)) => if !ok || !book.def_names@.names.contains_key(ctrs[k].0) {
                        Some((t2, c2, LamOut::Fail))
                    } else {
                        Some((TermV::Era, c2, LamOut::Done(rewrite_v(t2, n, book.def_names@.names[ctrs[k].0]))))
                    },
                }
            },
        }
    } else {
        match expand_v(book, t, c, fuel) {
            None => None,
            Some((t1, c1)) => match t1 {
                TermV::Lam { tag: Some(tag), nam, bod } => if tag != a {
                    Some((t1, c1, LamOut::Fail))
                } else if nam is Some && arm is Some {
                    Some((t1, c1, LamOut::Fail))
                } else {
                    let arm2 = if nam is Some {
                        Some((nam->0, i as int))
                    } else {
                        arm
                    };
                    match lam_walk_v(book, *bod, a, ctrs, i + 1, arm2, c1, fuel) {
                        None => None,
                        Some((b2, c2, out)) => Some(
                            (TermV::Lam { tag: Some(tag), nam, bod: Box::new(b2) }, c2, out),
                        ),
                    }
                },
                _ => Some((t1, c1, LamOut::Fail)),
            },
        }
    }
}

/// The names of `k` consecutive fresh ids from `c` on.
pub open spec fn fresh_names(c: nat, k: nat) -> Seq<Seq<char>> {
    Seq::new(k, |i: int| super::var_name((c + i) as nat))
}

/// The term applied, in order, to variables of the names, each
/// application tagged with the datatype `a`.
pub open spec fn wrap_apps_v(a: Seq<char>, x: TermV, names: Seq<Seq<char>>) -> TermV
    decreases names.len(),
{
    if names.len() == 0 {
        x
    } else {
        TermV::App {
            tag: Some(a),
            fun: Box::new(wrap_apps_v(a, x, names.drop_last())),
            arg: Box::new(TermV::Var { nam: names.last() }),
        }
    }
}

/// Walks the `k` field lambdas of a match arm, tagged with the datatype
/// `a`; from the first part that is no such lambda on, each field gets a
/// fresh name, the lambda binding it wraps the arm, and the arm is applied
/// to it. Returns the names the lambdas bind, the part under the existing
/// lambdas, the fresh names, and the next id.
pub open spec fn fields_v(book: Book, t: TermV, a: Seq<char>, k: nat, c: nat, fuel: nat) -> Option<
    (Seq<Option<Seq<char>>>, TermV, Seq<Seq<char>>, nat),
>
    decreases k,
{
    if k == 0 {
        Some((Seq::empty(), t, Seq::empty(), c))
    } else {
        match expand_v(book, t, c, fuel) {
            None => None,
            Some((t1, c1)) => match t1 {
                TermV::Lam { tag: Some(tag), nam, bod } if tag == a => match fields_v(
                    book,
                    *bod,
                    a,
                    (k - 1) as nat,
                    c1,
                    fuel,
                ) {
                    None => None,
                    Some((names, x, fresh, c2)) => Some((seq![nam] + names, x, fresh, c2)),
                },
                _ => if c1 + k > Val::MAX {
                    None
                } else {
                    let fresh = fresh_names(c1, k);
                    Some((fresh.map_values(|n: Seq<char>| Some(n)), t1, fresh, c1 + k))
                },
            },
        }
    }
}

/// Lambdas tagged with the datatype `a`, binding the names in order, around
/// a body.
pub open spec fn lams_v(a: Seq<char>, names: Seq<Option<Seq<char>>>, body: TermV) -> TermV
    decreases names.len(),
{
    if names.len() == 0 {
        body
    } else {
        TermV::Lam {
            tag: Some(a),
            nam: names[0],
            bod: Box::new(lams_v(a, names.subrange(1, names.len() as int), body)),
        }
    }
}

/// The variable patterns of an arm's fields; an unused field is `*`.
pub open spec fn field_pats(names: Seq<Option<Seq<char>>>) -> Seq<PatV> {
    names.map_values(
        |n: Option<Seq<char>>|
            match n {
                Some(x) => PatV::Var(x),
                None => PatV::Var("*"@),
            },
    )
}

/// What walking the applications of a match encoding ends in.
pub enum MatchOut {
    /// Not a match encoding.
    Fail,
    /// The value matched on, and the arms, in the constructors' order.
    Done(TermV, Seq<(PatV, TermV)>),
}

/// Walks the applications of a match encoding `(… (x arm0) … armk)`, each
/// tagged with the datatype `a`, from the outermost, for the first `j`
/// constructors, the last first. Each arm gets its field lambdas, and the
/// part of it under the fresh ones is resugared.
pub open spec fn match_walk_v(
    book: Book,
    t: TermV,
    a: Seq<char>,
    ctrs: CtrsV,
    j: nat,
    c: nat,
    fuel: nat,
) -> Option<(TermV, nat, MatchOut)>
    decreases fuel, 0nat, j,
{
    if j == 0 {
        Some((TermV::Era, c, MatchOut::Done(t, Seq::empty())))
    } else if fuel == 0 {
        Some((t, c, MatchOut::Fail))
    } else {
        let ctr = ctrs[j - 1];
        match expand_v(book, t, c, fuel) {
            None => None,
            Some((t1, c1)) => match t1 {
                TermV::App { tag: Some(tag), fun, arg } => if tag != a {
                    Some((t1, c1, MatchOut::Fail))
                } else {
                    match fields_v(book, *arg, a, ctr.1.len(), c1, fuel) {
                        None => None,
                        Some((names, x, fresh, c2)) => match resugar_v(book, x, c2, (fuel - 1) as nat) {
                            None => None,
                            Some((x2, c3, _)) => {
                                let body2 = wrap_apps_v(a, x2, fresh);
                                let arm = (PatV::Ctr(ctr.0, field_pats(names)), body2);
                                match match_walk_v(book, *fun, a, ctrs, (j - 1) as nat, c3, fuel) {
                                    None => None,
                                    Some((f2, c4, out)) => match out {
                                        MatchOut::Fail => Some(
                                            (
                                                TermV::App {
                                                    tag: Some(tag),
                                                    fun: Box::new(f2),
                                                    arg: Box::new(lams_v(a, names, body2)),
                                                },
                                                c4,
                                                MatchOut::Fail,
                                            ),
                                        ),
                                        MatchOut::Done(scr, arms) => Some(
                                            (TermV::Era, c4, MatchOut::Done(scr, arms.push(arm))),
                                        ),
                                    },
                                }
                            },
                        },
                    }
                },
                _ => Some((t1, c1, MatchOut::Fail)),
            },
        }
    }
}

/// Resugars two terms in turn; the second only where the first succeeds.
pub open spec fn resugar2_v(book: Book, a: TermV, b: TermV, c: nat, fuel: nat) -> Option<
    (TermV, TermV, nat, bool),
>
    decreases fuel, 2nat, 0nat,
{
    match resugar_v(book, a, c, fuel) {
        None => None,
        Some((a1, c1, ok)) => if !ok {
            Some((a1, b, c1, false))
        } else {
            match resugar_v(book, b, c1, fuel) {
                None => None,
                Some((b1, c2, ok2)) => Some((a1, b1, c2, ok2)),
            }
        },
    }
}

/// Resugars the bodies of match arms in order, stopping at the first that
/// fails.
pub open spec fn resugar_arms_v(book: Book, arms: Seq<(PatV, TermV)>, c: nat, fuel: nat) -> Option<
    (Seq<(PatV, TermV)>, nat, bool),
>
    decreases fuel, 2nat, arms.len(),
{
    if arms.len() == 0 {
        Some((arms, c, true))
    } else {
        match resugar_v(book, arms[0].1, c, fuel) {
            None => None,
            Some((t1, c1, ok)) => {
                let rest = arms.subrange(1, arms.len() as int);
                if !ok {
                    Some((seq![(arms[0].0, t1)] + rest, c1, false))
                } else {
                    match resugar_arms_v(book, rest, c1, fuel) {
                        None => None,
                        Some((r1, c2, ok2)) => Some((seq![(arms[0].0, t1)] + r1, c2, ok2)),
                    }
                }
            },
        }
    }
}

/// The term with its datatype encodings resugared: a lambda tagged with a
/// datatype, encoding a constructor, becomes the constructor's call; an
/// application tagged with a datatype, encoding a match, becomes the match.
/// Returns the term, the next id, and whether every encoding met could be
/// resugared; the term is left as far as it got where one could not.
/// `None` where the resugaring fails (as `unfold_ref`, or running out of
/// ids); resugaring nests at most `fuel` deep.
pub open spec fn resugar_v(book: Book, t: TermV, c: nat, fuel: nat) -> Option<(TermV, nat, bool)>
    decreases fuel, 1nat, 0nat,
{
    if fuel == 0 {
        Some((t, c, false))
    } else {
        let f = (fuel - 1) as nat;
        match t {
            TermV::Lam { tag: Some(a), nam, bod } => match adt_ctrs(book, a) {
                None => match resugar_v(book, *bod, c, f) {
                    None => None,
                    Some((b1, c1, ok)) => Some((TermV::Lam { tag: Some(a), nam, bod: Box::new(b1) }, c1, ok)),
                },
                Some(ctrs) => match lam_walk_v(book, t, a, ctrs, 0, None, c, fuel) {
                    None => None,
                    Some((t1, c1, out)) => match out {
                        LamOut::Fail => Some((t1, c1, false)),
                        LamOut::Done(n) => resugar_v(book, n, c1, f),
                    },
                },
            },
            TermV::App { tag: Some(a), fun, arg } => match adt_ctrs(book, a) {
                None => match resugar2_v(book, *fun, *arg, c, f) {
                    None => None,
                    Some((f1, a1, c1, ok)) => Some(
                        (TermV::App { tag: Some(a), fun: Box::new(f1), arg: Box::new(a1) }, c1, ok),
                    ),
                },
                Some(ctrs) => match match_walk_v(book, t, a, ctrs, ctrs.len(), c, fuel) {
                    None => None,
                    Some((t1, c1, out)) => match out {
                        MatchOut::Fail => Some((t1, c1, false)),
                        MatchOut::Done(scr, arms) => match resugar_v(book, scr, c1, f) {
                            None => None,
                            Some((s1, c2, ok)) => Some(
                                (TermV::Match { scrutinee: Box::new(s1), arms }, c2, ok),
                            ),
                        },
                    },
                },
            },
            TermV::Match { scrutinee, arms } => match resugar_v(book, *scrutinee, c, f) {
                None => None,
                Some((s1, c1, ok)) => if !ok {
                    Some((TermV::Match { scrutinee: Box::new(s1), arms }, c1, false))
                } else {
                    match resugar_arms_v(book, arms, c1, f) {
                        None => None,
                        Some((arms1, c2, ok2)) => Some(
                            (TermV::Match { scrutinee: Box::new(s1), arms: arms1 }, c2, ok2),
                        ),
                    }
                },
            },
            TermV::App { tag: None, fun, arg } => match resugar2_v(book, *fun, *arg, c, f) {
                None => None,
                Some((f1, a1, c1, ok)) => Some(
                    (TermV::App { tag: None, fun: Box::new(f1), arg: Box::new(a1) }, c1, ok),
                ),
            },
            TermV::Dup { tag, fst, snd, val, nxt } => match resugar2_v(book, *val, *nxt, c, f) {
                None => None,
                Some((v1, n1, c1, ok)) => Some(
                    (TermV::Dup { tag, fst, snd, val: Box::new(v1), nxt: Box::new(n1) }, c1, ok),
                ),
            },
            TermV::Let { pat, val, nxt } => match resugar2_v(book, *val, *nxt, c, f) {
                None => None,
                Some((v1, n1, c1, ok)) => Some(
                    (TermV::Let { pat, val: Box::new(v1), nxt: Box::new(n1) }, c1, ok),
                ),
            },
            TermV::Sup { tag, fst, snd } => match resugar2_v(book, *fst, *snd, c, f) {
                None => None,
                Some((a1, b1, c1, ok)) => Some(
                    (TermV::Sup { tag, fst: Box::new(a1), snd: Box::new(b1) }, c1, ok),
                ),
            },
            TermV::Tup { fst, snd } => match resugar2_v(book, *fst, *snd, c, f) {
                None => None,
                Some((a1, b1, c1, ok)) => Some((TermV::Tup { fst: Box::new(a1), snd: Box::new(b1) }, c1, ok)),
            },
            TermV::Opx { op, fst, snd } => match resugar2_v(book, *fst, *snd, c, f) {
                None => None,
                Some((a1, b1, c1, ok)) => Some(
                    (TermV::Opx { op, fst: Box::new(a1), snd: Box::new(b1) }, c1, ok),
                ),
            },
            TermV::Lam { tag: None, nam, bod } => match resugar_v(book, *bod, c, f) {
                None => None,
                Some((b1, c1, ok)) => Some((TermV::Lam { tag: None, nam, bod: Box::new(b1) }, c1, ok)),
            },
            TermV::Chn { nam, bod } => match resugar_v(book, *bod, c, f) {
                None => None,
                Some((b1, c1, ok)) => Some((TermV::Chn { nam, bod: Box::new(b1) }, c1, ok)),
            },
            TermV::Var { .. } | TermV::Num { .. } | TermV::Lnk { .. } | TermV::Ref { .. } | TermV::Era => Some(
                (t, c, true),
            ),
        }
    }
}

/// What the resugaring needs of a book: its invariant.
pub open spec fn book_ok(book: Book) -> bool {
    book.wf()
}

/// The position of the first datatype with a name.
pub(crate) fn find_adt(adts: &Vec<(Name, Adt)>, a: &Name) -> (r: Option<usize>)
    ensures
        match r {
            Some(i) => adt_index(adts@, a@) == Some(i as int) && i < adts@.len() && adts@[i as int].0@ == a@,
            None => adt_index(adts@, a@) is None && forall|j: int| 0 <= j < adts@.len() ==> (#[trigger] adts@[j]).0@ != a@,
        },
{
    let mut i: usize = 0;
    while i < adts.len()
        invariant
            i <= adts@.len(),
            forall|j: int| 0 <= j < i ==> (#[trigger] adts@[j]).0@ != a@,
        decreases adts@.len() - i,
    {
        if adts[i].0.eq_name(a) {
            proof {
                let s = adts@;
                assert(0 <= i < s.len() && s[i as int].0@ == a@ && forall|j: int|
                    0 <= j < i ==> (#[trigger] s[j]).0@ != a@);
                let c = choose|k: int|
                    0 <= k < s.len() && (#[trigger] s[k]).0@ == a@ && forall|j: int|
                        0 <= j < k ==> (#[trigger] s[j]).0@ != a@;
                if c < i {
                    assert(s[c].0@ != a@);
                } else if c > i {
                    assert(s[i as int].0@ != a@);
                }
            }
            return Some(i);
        }
        i = i + 1;
    }
    None
}

/// Replaces a reference by the term it stands for, as long as the term is
/// a reference, at most `fuel` times, as `expand_v` says.
fn expand(t: Term, counter: &mut Val, book: &Book, fuel: u64) -> (r: Term)
    requires
        book_ok(*book),
        expand_v(*book, t@, *old(counter) as nat, fuel as nat) is Some,
    ensures
        (r@, *final(counter) as nat) == expand_v(*book, t@, *old(counter) as nat, fuel as nat).unwrap(),
{
    let ghost target = expand_v(*book, t@, *counter as nat, fuel as nat);
    let mut t = t;
    let mut k = fuel;
    loop
        invariant
            book_ok(*book),
            expand_v(*book, t@, *counter as nat, k as nat) == target,
            target is Some,
        ensures
            (t@, *counter as nat) == target.unwrap(),
        decreases k,
    {
        let id = match &t {
            Term::Ref { def_id } => *def_id,
            _ => {
                break;
            },
        };
        if k == 0 {
            break;
        }
        let def = match book.get_def(id) {
            Some(d) => d,
            None => {
                proof {
                    assert(false);
                }
                break;
            },
        };
        def.assert_no_pattern_matching_rules();
        let mut body = def.rules[0].body.clone_term();
        body.fix_names(counter, book);
        t = body;
        k = k - 1;
    }
    t
}

/// Walks `n` applications down the function side, as `app_walk_v` says.
fn app_walk(t: Term, n: usize, nam: &Name, counter: &mut Val, book: &Book, fuel: u64) -> (r: (Term, bool))
    requires
        book_ok(*book),
        app_walk_v(*book, t@, n as nat, nam@, *old(counter) as nat, fuel as nat) is Some,
    ensures
        (r.0@, *final(counter) as nat, r.1) == app_walk_v(
            *book,
            t@,
            n as nat,
            nam@,
            *old(counter) as nat,
            fuel as nat,
        ).unwrap(),
    decreases n,
{
    if n == 0 {
        let ok = match &t {
            Term::Var { nam: v } => v.eq_name(nam),
            _ => false,
        };
        return (t, ok);
    }
    let t1 = expand(t, counter, book, fuel);
    match t1 {
        Term::App { tag, fun, arg } => {
            let (f2, ok) = app_walk(*fun, n - 1, nam, counter, book, fuel);
            (Term::App { tag, fun: Box::new(f2), arg }, ok)
        },
        other => (other, false),
    }
}

/// The application `n` deep with its innermost function replaced by a
/// reference and its tags removed, as `rewrite_v` says.
fn rewrite(t: Term, n: usize, id: DefId) -> (r: Term)
    ensures
        r@ == rewrite_v(t@, n as nat, id.0),
    decreases n,
{
    if n == 0 {
        Term::Ref { def_id: id }
    } else {
        match t {
            Term::App { fun, arg, .. } => Term::App { tag: None, fun: Box::new(rewrite(*fun, n - 1, id)), arg },
            other => other,
        }
    }
}

/// What walking the lambdas of a constructor encoding ends in.
pub enum LamStep {
    Fail,
    Done(Term),
}

impl View for LamStep {
    type V = LamOut;

    open spec fn view(&self) -> LamOut {
        match self {
            LamStep::Fail => LamOut::Fail,
            LamStep::Done(t) => LamOut::Done(t@),
        }
    }
}

/// The name and constructor position of an arm.
pub open spec fn arm_view(arm: Option<(Name, usize)>) -> Option<(Seq<char>, int)> {
    match arm {
        Some((n, k)) => Some((n@, k as int)),
        None => None,
    }
}

/// Walks the lambdas of a constructor encoding, as `lam_walk_v` says.
#[verifier::rlimit(40)]
fn lam_walk(
    t: Term,
    a: &Name,
    ctrs: &IndexMap<String, Vec<String>>,
    i: usize,
    arm: Option<(Name, usize)>,
    counter: &mut Val,
    book: &Book,
    fuel: u64,
) -> (r: (Term, LamStep))
    requires
        book_ok(*book),
        i <= index_map_items(*ctrs).len(),
        arm matches Some((_, k)) ==> k < index_map_items(*ctrs).len(),
        lam_walk_v(
            *book,
            t@,
            a@,
            index_map_items(*ctrs),
            i as nat,
            arm_view(arm),
            *old(counter) as nat,
            fuel as nat,
        ) is Some,
    ensures
        (r.0@, *final(counter) as nat, r.1@) == lam_walk_v(
            *book,
            t@,
            a@,
            index_map_items(*ctrs),
            i as nat,
            arm_view(arm),
            *old(counter) as nat,
            fuel as nat,
        ).unwrap(),
    decreases index_map_items(*ctrs).len() - i,
{
    let len = index_map_len(ctrs);
    if i >= len {
        match arm {
            None => (t, LamStep::Fail),
            Some((nam, k)) => {
                let (ctr_name, fields) = match index_map_get_index(ctrs, k) {
                    Some(e) => e,
                    None => {
                        proof {
                            assert(false);
                        }
                        return (t, LamStep::Fail);
                    },
                };
                let n = fields.len();
                proof {
                    assert(strings_view(*fields).len() == fields@.len());
                }
                let (t2, ok) = app_walk(t, n, &nam, counter, book, fuel);
                if !ok {
                    return (t2, LamStep::Fail);
                }
                match book.def_names.def_id(&Name(ctr_name.clone())) {
                    None => (t2, LamStep::Fail),
                    Some(id) => (Term::Era, LamStep::Done(rewrite(t2, n, id))),
                }
            },
        }
    } else {
        let t1 = expand(t, counter, book, fuel);
        match t1 {
            Term::Lam { tag: Some(tag), nam, bod } => {
                if !tag.eq_name(a) {
                    return (Term::Lam { tag: Some(tag), nam, bod }, LamStep::Fail);
                }
                if nam.is_some() && arm.is_some() {
                    return (Term::Lam { tag: Some(tag), nam, bod }, LamStep::Fail);
                }
                let arm2 = match &nam {
                    Some(x) => Some((x.clone_name(), i)),
                    None => arm,
                };
                let (b2, out) = lam_walk(*bod, a, ctrs, i + 1, arm2, counter, book, fuel);
                (Term::Lam { tag: Some(tag), nam, bod: Box::new(b2) }, out)
            },
            other => (other, LamStep::Fail),
        }
    }
}

/// The texts of optional names.
pub open spec fn opt_names(v: Seq<Option<Name>>) -> Seq<Option<Seq<char>>> {
    v.map_values(|o: Option<Name>| super::opt_name(o))
}

/// The texts of names.
pub open spec fn names_view(v: Seq<Name>) -> Seq<Seq<char>> {
    v.map_values(|n: Name| n@)
}

/// Walks the field lambdas of a match arm, as `fields_v` says.
fn fields(t: Term, a: &Name, k: usize, counter: &mut Val, book: &Book, fuel: u64) -> (r: (
    Vec<Option<Name>>,
    Term,
    Vec<Name>,
))
    requires
        book_ok(*book),
        fields_v(*book, t@, a@, k as nat, *old(counter) as nat, fuel as nat) is Some,
    ensures
        ({
            let o = fields_v(*book, t@, a@, k as nat, *old(counter) as nat, fuel as nat).unwrap();
            &&& opt_names(r.0@) == o.0
            &&& r.1@ == o.1
            &&& names_view(r.2@) == o.2
            &&& *final(counter) as nat == o.3
        }),
    decreases k,
{
    if k == 0 {
        proof {
            assert(opt_names(Seq::<Option<Name>>::empty()) =~= Seq::<Option<Seq<char>>>::empty());
            assert(names_view(Seq::<Name>::empty()) =~= Seq::<Seq<char>>::empty());
        }
        return (Vec::new(), t, Vec::new());
    }
    let t1 = expand(t, counter, book, fuel);
    let is_lam = match &t1 {
        Term::Lam { tag: Some(tag), .. } => tag.eq_name(a),
        _ => false,
    };
    if is_lam {
        match t1 {
            Term::Lam { nam, bod, .. } => {
                let ghost nam_v = super::opt_name(nam);
                let (mut names, x, fresh) = fields(*bod, a, k - 1, counter, book, fuel);
                let ghost rest = names@;
                names.insert(0, nam);
                proof {
                    assert(opt_names(names@) =~= seq![nam_v] + opt_names(rest));
                }
                (names, x, fresh)
            },
            _ => {
                proof {
                    assert(false);
                }
                (Vec::new(), Term::Era, Vec::new())
            },
        }
    } else {
        let ghost c1 = *counter as nat;
        let mut names: Vec<Option<Name>> = Vec::new();
        let mut fresh: Vec<Name> = Vec::new();
        let mut i: usize = 0;
        while i < k
            invariant
                i <= k,
                c1 + k <= Val::MAX,
                *counter as nat == c1 + i,
                names@.len() == i,
                fresh@.len() == i,
                names_view(fresh@) == fresh_names(c1, i as nat),
                opt_names(names@) == fresh_names(c1, i as nat).map_values(|n: Seq<char>| Some(n)),
            decreases k - i,
        {
            let n = super::var_id_to_name(*counter);
            *counter = *counter + 1;
            let ghost before_f = fresh@;
            let ghost before_n = names@;
            let ghost i0 = i as nat;
            names.push(Some(n.clone_name()));
            fresh.push(n);
            i = i + 1;
            proof {
                let target = fresh_names(c1, i as nat);
                assert forall|j: int| 0 <= j < i implies names_view(fresh@)[j] == target[j] by {
                    if j < i0 {
                        assert(fresh@[j] == before_f[j]);
                        assert(names_view(before_f)[j] == fresh_names(c1, i0)[j]);
                    } else {
                        assert(fresh@[j] == n);
                    }
                }
                assert(names_view(fresh@) =~= target);
                assert forall|j: int| 0 <= j < i implies opt_names(names@)[j] == target.map_values(|n: Seq<char>| Some(n))[j] by {
                    if j < i0 {
                        assert(names@[j] == before_n[j]);
                        assert(opt_names(before_n)[j] == fresh_names(c1, i0).map_values(|n: Seq<char>| Some(n))[j]);
                    } else {
                        assert(names@[j] == Some(n));
                    }
                }
                assert(opt_names(names@) =~= target.map_values(|n: Seq<char>| Some(n)));
            }
        }
        (names, t1, fresh)
    }
}

/// The term applied, in order, to variables of the names, as `wrap_apps_v`
/// says.
fn wrap_apps(a: &Name, x: Term, names: &Vec<Name>) -> (r: Term)
    ensures
        r@ == wrap_apps_v(a@, x@, names_view(names@)),
{
    let ghost x0 = x@;
    let mut cur = x;
    let mut i: usize = 0;
    proof {
        assert(names_view(names@).subrange(0, 0) =~= Seq::<Seq<char>>::empty());
    }
    while i < names.len()
        invariant
            i <= names@.len(),
            cur@ == wrap_apps_v(a@, x0, names_view(names@).subrange(0, i as int)),
        decreases names@.len() - i,
    {
        let ghost prev = names_view(names@).subrange(0, i as int);
        let ghost prev_cur = cur@;
        let tag = a.clone_name();
        let var = names[i].clone_name();
        let ghost var_v = var@;
        proof {
            assert(var@ == names_view(names@)[i as int]);
        }
        let v = Term::Var { nam: var };
        assert(v@ == TermV::Var { nam: var_v });
        cur = Term::App { tag: Some(tag), fun: Box::new(cur), arg: Box::new(v) };
        i = i + 1;
        proof {
            let next = names_view(names@).subrange(0, i as int);
            assert(next.drop_last() =~= prev);
            assert(next.last() == names@[i - 1]@);
            assert(names_view(names@)[i - 1] == names@[i - 1]@);
            assert(cur@ == TermV::App {
                tag: Some(a@),
                fun: Box::new(prev_cur),
                arg: Box::new(TermV::Var { nam: next.last() }),
            });
        }
    }
    proof {
        assert(names_view(names@).subrange(0, names@.len() as int) =~= names_view(names@));
    }
    cur
}

/// Lambdas tagged with the datatype `a`, binding the names in order, around
/// a body, as `lams_v` says.
fn lams(a: &Name, names: Vec<Option<Name>>, body: Term) -> (r: Term)
    ensures
        r@ == lams_v(a@, opt_names(names@), body@),
{
    let ghost b0 = body@;
    let ghost all = opt_names(names@);
    let mut names = names;
    let mut cur = body;
    proof {
        assert(all.subrange(all.len() as int, all.len() as int) =~= Seq::<Option<Seq<char>>>::empty());
    }
    while names.len() > 0
        invariant
            names@.len() <= all.len(),
            opt_names(names@) == all.subrange(0, names@.len() as int),
            cur@ == lams_v(a@, all.subrange(names@.len() as int, all.len() as int), b0),
        decreases names@.len(),
    {
        let ghost n = names@.len();
        let ghost before = names@;
        let ghost prev_cur = cur@;
        let nam = names.pop().unwrap();
        proof {
            assert(opt_names(before)[n - 1] == all[n - 1]);
            assert(super::opt_name(nam) == all[n - 1]);
        }
        cur = Term::Lam { tag: Some(a.clone_name()), nam, bod: Box::new(cur) };
        proof {
            let s = all.subrange(n - 1, all.len() as int);
            assert(s.subrange(1, s.len() as int) =~= all.subrange(n as int, all.len() as int));
            assert(s[0] == all[n - 1]);
            assert(opt_names(names@) =~= all.subrange(0, n - 1));
            assert(lams_v(a@, s, b0) == TermV::Lam {
                tag: Some(a@),
                nam: s[0],
                bod: Box::new(lams_v(a@, s.subrange(1, s.len() as int), b0)),
            });
            assert(cur@ == TermV::Lam { tag: Some(a@), nam: all[n - 1], bod: Box::new(prev_cur) });
        }
    }
    proof {
        assert(all.subrange(0, all.len() as int) =~= all);
    }
    cur
}

/// The variable patterns of an arm's fields, as `field_pats` says.
fn field_pats_exec(names: &Vec<Option<Name>>) -> (r: Vec<RulePat>)
    ensures
        super::pats_view(r@) == field_pats(opt_names(names@)),
{
    let mut out: Vec<RulePat> = Vec::new();
    let mut i: usize = 0;
    while i < names.len()
        invariant
            i <= names@.len(),
            out@.len() == i,
            forall|j: int| 0 <= j < i ==> super::pat_view(#[trigger] out@[j]) == field_pats(opt_names(names@))[j],
        decreases names@.len() - i,
    {
        let p = match &names[i] {
            Some(x) => RulePat::Var(x.clone_name()),
            None => RulePat::Var(Name::new("*")),
        };
        out.push(p);
        i = i + 1;
    }
    proof {
        super::lemma_pats_view(out@);
        assert(super::pats_view(out@) =~= field_pats(opt_names(names@)));
    }
    out
}

/// What walking the applications of a match encoding ends in.
pub enum MatchStep {
    Fail,
    Done(Term, Vec<(RulePat, Term)>),
}

impl View for MatchStep {
    type V = MatchOut;

    open spec fn view(&self) -> MatchOut {
        match self {
            MatchStep::Fail => MatchOut::Fail,
            MatchStep::Done(t, arms) => MatchOut::Done(t@, super::arms_view(arms@)),
        }
    }
}

/// Viewing arms after a push views the new arm last.
proof fn lemma_arms_view_push(s: Seq<(RulePat, Term)>, x: (RulePat, Term))
    ensures
        super::arms_view(s.push(x)) == super::arms_view(s).push((super::pat_view(x.0), super::term_view(x.1))),
{
    assert(s.push(x).subrange(0, s.len() as int) =~= s);
}

/// Walks the applications of a match encoding, as `match_walk_v` says.
#[verifier::rlimit(60)]
#[verifier::spinoff_prover]
fn match_walk(
    t: Term,
    a: &Name,
    ctrs: &IndexMap<String, Vec<String>>,
    j: usize,
    counter: &mut Val,
    book: &Book,
    fuel: u64,
) -> (r: (Term, MatchStep))
    requires
        book_ok(*book),
        j <= index_map_items(*ctrs).len(),
        match_walk_v(*book, t@, a@, index_map_items(*ctrs), j as nat, *old(counter) as nat, fuel as nat) is Some,
    ensures
        (r.0@, *final(counter) as nat, r.1@) == match_walk_v(
            *book,
            t@,
            a@,
            index_map_items(*ctrs),
            j as nat,
            *old(counter) as nat,
            fuel as nat,
        ).unwrap(),
    decreases fuel, 0nat, j,
{
    if j == 0 {
        proof {
            assert(super::arms_view(Seq::<(RulePat, Term)>::empty()) =~= Seq::<(PatV, TermV)>::empty());
        }
        return (Term::Era, MatchStep::Done(t, Vec::new()));
    }
    if fuel == 0 {
        return (t, MatchStep::Fail);
    }
    let (ctr_name, field_list) = match index_map_get_index(ctrs, j - 1) {
        Some(e) => e,
        None => {
            proof {
                assert(false);
            }
            return (t, MatchStep::Fail);
        },
    };
    let nf = field_list.len();
    proof {
        assert(strings_view(*field_list).len() == field_list@.len());
    }
    let t1 = expand(t, counter, book, fuel);
    match t1 {
        Term::App { tag: Some(tag), fun, arg } => {
            if !tag.eq_name(a) {
                return (Term::App { tag: Some(tag), fun, arg }, MatchStep::Fail);
            }
            let (names, x, fresh) = fields(*arg, a, nf, counter, book, fuel);
            let (x2, _) = resugar(x, counter, book, fuel - 1);
            let body2 = wrap_apps(a, x2, &fresh);
            let pats = field_pats_exec(&names);
            let (f2, out) = match_walk(*fun, a, ctrs, j - 1, counter, book, fuel);
            match out {
                MatchStep::Fail => {
                    let arg2 = lams(a, names, body2);
                    (Term::App { tag: Some(tag), fun: Box::new(f2), arg: Box::new(arg2) }, MatchStep::Fail)
                },
                MatchStep::Done(scr, arms) => {
                    let mut arms = arms;
                    let ghost before = arms@;
                    let arm = (RulePat::Ctr(Name(ctr_name.clone()), pats), body2);
                    arms.push(arm);
                    proof {
                        lemma_arms_view_push(before, arm);
                    }
                    (Term::Era, MatchStep::Done(scr, arms))
                },
            }
        },
        other => (other, MatchStep::Fail),
    }
}

/// Resugars two terms in turn, as `resugar2_v` says.
fn resugar2(x: Term, y: Term, counter: &mut Val, book: &Book, fuel: u64) -> (r: (Term, Term, bool))
    requires
        book_ok(*book),
        resugar2_v(*book, x@, y@, *old(counter) as nat, fuel as nat) is Some,
    ensures
        (r.0@, r.1@, *final(counter) as nat, r.2) == resugar2_v(
            *book,
            x@,
            y@,
            *old(counter) as nat,
            fuel as nat,
        ).unwrap(),
    decreases fuel, 2nat, 0nat,
{
    let (x1, ok) = resugar(x, counter, book, fuel);
    if !ok {
        return (x1, y, false);
    }
    let (y1, ok2) = resugar(y, counter, book, fuel);
    (x1, y1, ok2)
}

/// Resugars the bodies of match arms in order, stopping at the first that
/// fails, as `resugar_arms_v` says.
fn resugar_arms(arms: Vec<(RulePat, Term)>, counter: &mut Val, book: &Book, fuel: u64) -> (r: (
    Vec<(RulePat, Term)>,
    bool,
))
    requires
        book_ok(*book),
        resugar_arms_v(*book, super::arms_view(arms@), *old(counter) as nat, fuel as nat) is Some,
    ensures
        (super::arms_view(r.0@), *final(counter) as nat, r.1) == resugar_arms_v(
            *book,
            super::arms_view(arms@),
            *old(counter) as nat,
            fuel as nat,
        ).unwrap(),
    decreases fuel, 2nat, arms@.len(),
{
    let ghost all = arms@;
    proof {
        super::lemma_arms_view(all);
    }
    let mut arms = arms;
    if arms.len() == 0 {
        return (arms, true);
    }
    let (p, t) = arms.remove(0);
    proof {
        super::lemma_arms_view(arms@);
        assert(super::arms_view(arms@) =~= super::arms_view(all).subrange(1, all.len() as int));
    }
    let (t1, ok) = resugar(t, counter, book, fuel);
    if !ok {
        let ghost rest = arms@;
        arms.insert(0, (p, t1));
        proof {
            super::lemma_arms_view(arms@);
            super::lemma_arms_view(rest);
            assert(super::arms_view(arms@) =~= seq![(super::pat_view(p), t1@)] + super::arms_view(rest));
        }
        return (arms, false);
    }
    let (mut rest, ok2) = resugar_arms(arms, counter, book, fuel);
    let ghost r0 = rest@;
    rest.insert(0, (p, t1));
    proof {
        super::lemma_arms_view(rest@);
        super::lemma_arms_view(r0);
        assert(super::arms_view(rest@) =~= seq![(super::pat_view(p), t1@)] + super::arms_view(r0));
    }
    (rest, ok2)
}

/// Resugars a lambda tagged with `a`, as `resugar_v` says.
#[verifier::rlimit(40)]
fn resugar_tagged_lam(a: Name, nam: Option<Name>, bod: Box<Term>, counter: &mut Val, book: &Book, fuel: u64) -> (r: (
    Term,
    bool,
))
    requires
        book_ok(*book),
        fuel > 0,
        resugar_v(
            *book,
            TermV::Lam { tag: Some(a@), nam: super::opt_name(nam), bod: Box::new((*bod)@) },
            *old(counter) as nat,
            fuel as nat,
        ) is Some,
    ensures
        (r.0@, *final(counter) as nat, r.1) == resugar_v(
            *book,
            TermV::Lam { tag: Some(a@), nam: super::opt_name(nam), bod: Box::new((*bod)@) },
            *old(counter) as nat,
            fuel as nat,
        ).unwrap(),
    decreases fuel, 1nat, 0nat,
{
    let f = fuel - 1;
    match find_adt(&book.adts, &a) {
        None => {
            let (b1, ok) = resugar(*bod, counter, book, f);
            (Term::Lam { tag: Some(a), nam, bod: Box::new(b1) }, ok)
        },
        Some(idx) => {
            let ctrs = &book.adts[idx].1.ctrs;
            let a2 = a.clone_name();
            let whole = Term::Lam { tag: Some(a), nam, bod };
            let (t1, out) = lam_walk(whole, &a2, ctrs, 0, None, counter, book, fuel);
            match out {
                LamStep::Fail => (t1, false),
                LamStep::Done(n) => resugar(n, counter, book, f),
            }
        },
    }
}

/// Resugars an application tagged with `a`, as `resugar_v` says.
#[verifier::rlimit(40)]
fn resugar_tagged_app(a: Name, fun: Box<Term>, arg: Box<Term>, counter: &mut Val, book: &Book, fuel: u64) -> (r: (
    Term,
    bool,
))
    requires
        book_ok(*book),
        fuel > 0,
        resugar_v(
            *book,
            TermV::App { tag: Some(a@), fun: Box::new((*fun)@), arg: Box::new((*arg)@) },
            *old(counter) as nat,
            fuel as nat,
        ) is Some,
    ensures
        (r.0@, *final(counter) as nat, r.1) == resugar_v(
            *book,
            TermV::App { tag: Some(a@), fun: Box::new((*fun)@), arg: Box::new((*arg)@) },
            *old(counter) as nat,
            fuel as nat,
        ).unwrap(),
    decreases fuel, 1nat, 0nat,
{
    let f = fuel - 1;
    match find_adt(&book.adts, &a) {
        None => {
            let (f1, a1, ok) = resugar2(*fun, *arg, counter, book, f);
            (Term::App { tag: Some(a), fun: Box::new(f1), arg: Box::new(a1) }, ok)
        },
        Some(idx) => {
            let ctrs = &book.adts[idx].1.ctrs;
            let n = index_map_len(ctrs);
            let a2 = a.clone_name();
            let whole = Term::App { tag: Some(a), fun, arg };
            let (t1, out) = match_walk(whole, &a2, ctrs, n, counter, book, fuel);
            match out {
                MatchStep::Fail => (t1, false),
                MatchStep::Done(scr, arms) => {
                    let (s1, ok) = resugar(scr, counter, book, f);
                    (Term::Match { scrutinee: Box::new(s1), arms }, ok)
                },
            }
        },
    }
}

/// Resugars the datatype encodings of a term, as `resugar_v` says.
#[verifier::rlimit(60)]
#[verifier::spinoff_prover]
pub(crate) fn resugar(t: Term, counter: &mut Val, book: &Book, fuel: u64) -> (r: (Term, bool))
    requires
        book_ok(*book),
        resugar_v(*book, t@, *old(counter) as nat, fuel as nat) is Some,
    ensures
        (r.0@, *final(counter) as nat, r.1) == resugar_v(*book, t@, *old(counter) as nat, fuel as nat).unwrap(),
    decreases fuel, 1nat, 1nat,
{
    if fuel == 0 {
        return (t, false);
    }
    let f = fuel - 1;
    match t {
        Term::Lam { tag: Some(a), nam, bod } => resugar_tagged_lam(a, nam, bod, counter, book, fuel),
        Term::App { tag: Some(a), fun, arg } => resugar_tagged_app(a, fun, arg, counter, book, fuel),
        Term::Match { scrutinee, arms } => {
            let (s1, ok) = resugar(*scrutinee, counter, book, f);
            if !ok {
                return (Term::Match { scrutinee: Box::new(s1), arms }, false);
            }
            let (arms1, ok2) = resugar_arms(arms, counter, book, f);
            (Term::Match { scrutinee: Box::new(s1), arms: arms1 }, ok2)
        },
        Term::App { tag: None, fun, arg } => {
            let (f1, a1, ok) = resugar2(*fun, *arg, counter, book, f);
            (Term::App { tag: None, fun: Box::new(f1), arg: Box::new(a1) }, ok)
        },
        Term::Dup { tag, fst, snd, val, nxt } => {
            let (v1, n1, ok) = resugar2(*val, *nxt, counter, book, f);
            (Term::Dup { tag, fst, snd, val: Box::new(v1), nxt: Box::new(n1) }, ok)
        },
        Term::Let { pat, val, nxt } => {
            let (v1, n1, ok) = resugar2(*val, *nxt, counter, book, f);
            (Term::Let { pat, val: Box::new(v1), nxt: Box::new(n1) }, ok)
        },
        Term::Sup { tag, fst, snd } => {
            let (a1, b1, ok) = resugar2(*fst, *snd, counter, book, f);
            (Term::Sup { tag, fst: Box::new(a1), snd: Box::new(b1) }, ok)
        },
        Term::Tup { fst, snd } => {
            let (a1, b1, ok) = resugar2(*fst, *snd, counter, book, f);
            (Term::Tup { fst: Box::new(a1), snd: Box::new(b1) }, ok)
        },
        Term::Opx { op, fst, snd } => {
            let (a1, b1, ok) = resugar2(*fst, *snd, counter, book, f);
            (Term::Opx { op, fst: Box::new(a1), snd: Box::new(b1) }, ok)
        },
        Term::Lam { tag: None, nam, bod } => {
            let (b1, ok) = resugar(*bod, counter, book, f);
            (Term::Lam { tag: None, nam, bod: Box::new(b1) }, ok)
        },
        Term::Chn { nam, bod } => {
            let (b1, ok) = resugar(*bod, counter, book, f);
            (Term::Chn { nam, bod: Box::new(b1) }, ok)
        },
        other => (other, true),
    }
}
/// Replacing references keeps a term free of single-variable lets.
proof fn lemma_expand_nlv(book: Book, t: TermV, c: nat, fuel: nat)
    requires
        book_ok(book),
        no_let_var(t),
        expand_v(book, t, c, fuel) is Some,
    ensures
        no_let_var(expand_v(book, t, c, fuel).unwrap().0),
    decreases fuel,
{
    if let TermV::Ref { def_id } = t {
        if fuel > 0 {
            let i = def_index(book.defs@, def_id).unwrap();
            let d = book.defs@[i];
            lemma_fix_no_let_var(d.rules@[0].body@, c, book.def_names@.ids, book.defs@, book.defs@.len());
            let (b, c1) = unfold_ref(book, def_id, c).unwrap();
            lemma_expand_nlv(book, b, c1, (fuel - 1) as nat);
        }
    }
}

proof fn lemma_app_walk_nlv(book: Book, t: TermV, n: nat, nam: Seq<char>, c: nat, fuel: nat)
    requires
        book_ok(book),
        no_let_var(t),
        app_walk_v(book, t, n, nam, c, fuel) is Some,
    ensures
        no_let_var(app_walk_v(book, t, n, nam, c, fuel).unwrap().0),
    decreases n,
{
    if n > 0 {
        lemma_expand_nlv(book, t, c, fuel);
        let (t1, c1) = expand_v(book, t, c, fuel).unwrap();
        if let TermV::App { fun, .. } = t1 {
            lemma_app_walk_nlv(book, *fun, (n - 1) as nat, nam, c1, fuel);
        }
    }
}

proof fn lemma_rewrite_nlv(t: TermV, n: nat, id: Val)
    requires
        no_let_var(t),
    ensures
        no_let_var(rewrite_v(t, n, id)),
    decreases n,
{
    if n > 0 {
        if let TermV::App { fun, .. } = t {
            lemma_rewrite_nlv(*fun, (n - 1) as nat, id);
        }
    }
}

proof fn lemma_lam_walk_nlv(
    book: Book,
    t: TermV,
    a: Seq<char>,
    ctrs: CtrsV,
    i: nat,
    arm: Option<(Seq<char>, int)>,
    c: nat,
    fuel: nat,
)
    requires
        book_ok(book),
        no_let_var(t),
        lam_walk_v(book, t, a, ctrs, i, arm, c, fuel) is Some,
    ensures
        no_let_var(lam_walk_v(book, t, a, ctrs, i, arm, c, fuel).unwrap().0),
        lam_walk_v(book, t, a, ctrs, i, arm, c, fuel).unwrap().2 matches LamOut::Done(x) ==> no_let_var(x),
    decreases ctrs.len() - i,
{
    if i >= ctrs.len() {
        if let Some((nam, k)) = arm {
            let n = ctrs[k].1.len();
            lemma_app_walk_nlv(book, t, n, nam, c, fuel);
            let (t2, c2, ok) = app_walk_v(book, t, n, nam, c, fuel).unwrap();
            if ok && book.def_names@.names.contains_key(ctrs[k].0) {
                lemma_rewrite_nlv(t2, n, book.def_names@.names[ctrs[k].0]);
            }
        }
    } else {
        lemma_expand_nlv(book, t, c, fuel);
        let (t1, c1) = expand_v(book, t, c, fuel).unwrap();
        if let TermV::Lam { tag: Some(tag), nam, bod } = t1 {
            if tag == a && !(nam is Some && arm is Some) {
                let arm2 = if nam is Some {
                    Some((nam->0, i as int))
                } else {
                    arm
                };
                lemma_lam_walk_nlv(book, *bod, a, ctrs, i + 1, arm2, c1, fuel);
            }
        }
    }
}

proof fn lemma_fields_nlv(book: Book, t: TermV, a: Seq<char>, k: nat, c: nat, fuel: nat)
    requires
        book_ok(book),
        no_let_var(t),
        fields_v(book, t, a, k, c, fuel) is Some,
    ensures
        no_let_var(fields_v(book, t, a, k, c, fuel).unwrap().1),
    decreases k,
{
    if k > 0 {
        lemma_expand_nlv(book, t, c, fuel);
        let (t1, c1) = expand_v(book, t, c, fuel).unwrap();
        if let TermV::Lam { tag: Some(tag), nam, bod } = t1 {
            if tag == a {
                lemma_fields_nlv(book, *bod, a, (k - 1) as nat, c1, fuel);
            }
        }
    }
}

proof fn lemma_wrap_apps_nlv(a: Seq<char>, x: TermV, names: Seq<Seq<char>>)
    requires
        no_let_var(x),
    ensures
        no_let_var(wrap_apps_v(a, x, names)),
    decreases names.len(),
{
    if names.len() > 0 {
        lemma_wrap_apps_nlv(a, x, names.drop_last());
        assert(no_let_var(TermV::Var { nam: names.last() }));
    }
}

proof fn lemma_lams_nlv(a: Seq<char>, names: Seq<Option<Seq<char>>>, body: TermV)
    requires
        no_let_var(body),
    ensures
        no_let_var(lams_v(a, names, body)),
    decreases names.len(),
{
    if names.len() > 0 {
        lemma_lams_nlv(a, names.subrange(1, names.len() as int), body);
    }
}

proof fn lemma_match_walk_nlv(book: Book, t: TermV, a: Seq<char>, ctrs: CtrsV, j: nat, c: nat, fuel: nat)
    requires
        book_ok(book),
        no_let_var(t),
        match_walk_v(book, t, a, ctrs, j, c, fuel) is Some,
    ensures
        no_let_var(match_walk_v(book, t, a, ctrs, j, c, fuel).unwrap().0),
        match_walk_v(book, t, a, ctrs, j, c, fuel).unwrap().2 matches MatchOut::Done(scr, arms) ==> no_let_var(
            scr,
        ) && no_let_var_arms(arms),
    decreases fuel, 0nat, j,
{
    if j == 0 {
        assert(no_let_var_arms(Seq::<(PatV, TermV)>::empty()));
    } else if fuel > 0 {
        let ctr = ctrs[j - 1];
        lemma_expand_nlv(book, t, c, fuel);
        let (t1, c1) = expand_v(book, t, c, fuel).unwrap();
        if let TermV::App { tag: Some(tag), fun, arg } = t1 {
            if tag == a {
                lemma_fields_nlv(book, *arg, a, ctr.1.len(), c1, fuel);
                let (names, x, fresh, c2) = fields_v(book, *arg, a, ctr.1.len(), c1, fuel).unwrap();
                lemma_resugar_nlv(book, x, c2, (fuel - 1) as nat);
                let (x2, c3, _) = resugar_v(book, x, c2, (fuel - 1) as nat).unwrap();
                lemma_wrap_apps_nlv(a, x2, fresh);
                let body2 = wrap_apps_v(a, x2, fresh);
                lemma_lams_nlv(a, names, body2);
                lemma_match_walk_nlv(book, *fun, a, ctrs, (j - 1) as nat, c3, fuel);
                let (f2, c4, out) = match_walk_v(book, *fun, a, ctrs, (j - 1) as nat, c3, fuel).unwrap();
                if let MatchOut::Done(scr, arms) = out {
                    let arm = (PatV::Ctr(ctr.0, field_pats(names)), body2);
                    assert(arms.push(arm).subrange(0, arms.len() as int) =~= arms);
                }
            }
        }
    }
}

proof fn lemma_resugar2_nlv(book: Book, x: TermV, y: TermV, c: nat, fuel: nat)
    requires
        book_ok(book),
        no_let_var(x),
        no_let_var(y),
        resugar2_v(book, x, y, c, fuel) is Some,
    ensures
        no_let_var(resugar2_v(book, x, y, c, fuel).unwrap().0),
        no_let_var(resugar2_v(book, x, y, c, fuel).unwrap().1),
    decreases fuel, 2nat, 0nat,
{
    lemma_resugar_nlv(book, x, c, fuel);
    let (x1, c1, ok) = resugar_v(book, x, c, fuel).unwrap();
    if ok {
        lemma_resugar_nlv(book, y, c1, fuel);
    }
}

proof fn lemma_resugar_arms_nlv(book: Book, arms: Seq<(PatV, TermV)>, c: nat, fuel: nat)
    requires
        book_ok(book),
        no_let_var_arms(arms),
        resugar_arms_v(book, arms, c, fuel) is Some,
    ensures
        no_let_var_arms(resugar_arms_v(book, arms, c, fuel).unwrap().0),
    decreases fuel, 2nat, arms.len(),
{
    if arms.len() > 0 {
        lemma_no_let_var_arms_split(arms);
        lemma_resugar_nlv(book, arms[0].1, c, fuel);
        let (t1, c1, ok) = resugar_v(book, arms[0].1, c, fuel).unwrap();
        let rest = arms.subrange(1, arms.len() as int);
        let out = if !ok {
            seq![(arms[0].0, t1)] + rest
        } else {
            lemma_resugar_arms_nlv(book, rest, c1, fuel);
            seq![(arms[0].0, t1)] + resugar_arms_v(book, rest, c1, fuel).unwrap().0
        };
        lemma_no_let_var_arms_split(out);
        assert(out.subrange(1, out.len() as int) =~= out.subrange(1, out.len() as int));
        if !ok {
            assert(out.subrange(1, out.len() as int) =~= rest);
        } else {
            assert(out.subrange(1, out.len() as int) =~= resugar_arms_v(book, rest, c1, fuel).unwrap().0);
        }
    }
}

/// Resugaring keeps a term free of single-variable lets.
pub proof fn lemma_resugar_nlv(book: Book, t: TermV, c: nat, fuel: nat)
    requires
        book_ok(book),
        no_let_var(t),
        resugar_v(book, t, c, fuel) is Some,
    ensures
        no_let_var(resugar_v(book, t, c, fuel).unwrap().0),
    decreases fuel, 1nat, 0nat,
{
    if fuel == 0 {
        return;
    }
    let f = (fuel - 1) as nat;
    match t {
        TermV::Lam { tag: Some(a), nam, bod } => match adt_ctrs(book, a) {
            None => lemma_resugar_nlv(book, *bod, c, f),
            Some(ctrs) => {
                lemma_lam_walk_nlv(book, t, a, ctrs, 0, None, c, fuel);
                let (t1, c1, out) = lam_walk_v(book, t, a, ctrs, 0, None, c, fuel).unwrap();
                if let LamOut::Done(n) = out {
                    lemma_resugar_nlv(book, n, c1, f);
                }
            },
        },
        TermV::App { tag: Some(a), fun, arg } => match adt_ctrs(book, a) {
            None => lemma_resugar2_nlv(book, *fun, *arg, c, f),
            Some(ctrs) => {
                lemma_match_walk_nlv(book, t, a, ctrs, ctrs.len(), c, fuel);
                let (t1, c1, out) = match_walk_v(book, t, a, ctrs, ctrs.len(), c, fuel).unwrap();
                if let MatchOut::Done(scr, arms) = out {
                    lemma_resugar_nlv(book, scr, c1, f);
                }
            },
        },
        TermV::Match { scrutinee, arms } => {
            lemma_resugar_nlv(book, *scrutinee, c, f);
            let (s1, c1, ok) = resugar_v(book, *scrutinee, c, f).unwrap();
            if ok {
                lemma_resugar_arms_nlv(book, arms, c1, f);
            }
        },
        TermV::App { tag: None, fun: a, arg: b } => lemma_resugar2_nlv(book, *a, *b, c, f),
        TermV::Dup { val: a, nxt: b, .. } => lemma_resugar2_nlv(book, *a, *b, c, f),
        TermV::Let { val: a, nxt: b, .. } => lemma_resugar2_nlv(book, *a, *b, c, f),
        TermV::Sup { fst: a, snd: b, .. } => lemma_resugar2_nlv(book, *a, *b, c, f),
        TermV::Tup { fst: a, snd: b } => lemma_resugar2_nlv(book, *a, *b, c, f),
        TermV::Opx { fst: a, snd: b, .. } => lemma_resugar2_nlv(book, *a, *b, c, f),
        TermV::Lam { tag: None, bod, .. } => lemma_resugar_nlv(book, *bod, c, f),
        TermV::Chn { bod, .. } => lemma_resugar_nlv(book, *bod, c, f),
        _ => {},
    }
}

/// Lambdas tagged with the datatype `a`, binding the names in order, from
/// the outermost in, around `body`.
pub open spec fn tagged_lams(a: Seq<char>, names: Seq<Option<Seq<char>>>, body: TermV) -> TermV
    decreases names.len(),
{
    if names.len() == 0 {
        body
    } else {
        TermV::Lam {
            tag: Some(a),
            nam: names[0],
            bod: Box::new(tagged_lams(a, names.subrange(1, names.len() as int), body)),
        }
    }
}

/// The fields of a constructor, walked through its field lambdas, come
/// out in the constructor's order: the i-th name is the one the i-th
/// lambda binds, the part under the lambdas is what they wrap, and no
/// fresh name is needed; so the i-th field pattern of the resugared arm is
/// the i-th lambda's name (`*` where it binds none).
pub proof fn law_fields_in_order(
    book: Book,
    a: Seq<char>,
    names: Seq<Option<Seq<char>>>,
    body: TermV,
    c: nat,
    fuel: nat,
)
    ensures
        fields_v(book, tagged_lams(a, names, body), a, names.len(), c, fuel) == Some(
            (names, body, Seq::<Seq<char>>::empty(), c),
        ),
        field_pats(fields_v(book, tagged_lams(a, names, body), a, names.len(), c, fuel).unwrap().0).len()
            == names.len(),
        forall|i: int|
            0 <= i < names.len() ==> #[trigger] field_pats(
                fields_v(book, tagged_lams(a, names, body), a, names.len(), c, fuel).unwrap().0,
            )[i] == match names[i] {
                Some(x) => PatV::Var(x),
                None => PatV::Var("*"@),
            },
    decreases names.len(),
{
    if names.len() > 0 {
        let rest = names.subrange(1, names.len() as int);
        law_fields_in_order(book, a, rest, body, c, fuel);
        assert(seq![names[0]] + rest =~= names);
    }
}

} // verus!
