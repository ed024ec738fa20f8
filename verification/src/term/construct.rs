//! Building terms: calls, native number matches, and the terms of patterns.
use vstd::prelude::*;
use super::free_vars::{free_vars_v, fv_items};
use super::parser::lexer::chars_of;
use crate::collections::{index_set_get_index, index_set_items, index_set_len, index_set_new};
use super::{
    push_char, LetPat, LetPatV, clone_opt_name, lemma_arms_view, lemma_pats_view, pat_view, pats_view, term_view, MatchNum,
    MatchNumV, Name, PatV, RulePat, Term, TermV, arms_view, opt_name,
};

verus! {

/// `called` applied to each of `args` in turn, without tags.
pub open spec fn call_v(called: TermV, args: Seq<TermV>) -> TermV
    decreases args.len(),
{
    if args.len() == 0 {
        called
    } else {
        TermV::App {
            tag: None,
            fun: Box::new(call_v(called, args.subrange(0, args.len() - 1))),
            arg: Box::new(args[args.len() - 1]),
        }
    }
}

/// The views of a sequence of terms.
pub open spec fn terms_view(s: Seq<Term>) -> Seq<TermV> {
    s.map_values(|t: Term| t@)
}

/// Whether a pattern holds no number pattern.
pub open spec fn no_num(p: PatV) -> bool
    decreases p,
{
    match p {
        PatV::Num(_) => false,
        PatV::Var(_) => true,
        PatV::Ctr(_, args) => no_num_all(args),
    }
}

pub open spec fn no_num_all(ps: Seq<PatV>) -> bool
    decreases ps,
{
    if ps.len() == 0 {
        true
    } else {
        no_num_all(ps.subrange(0, ps.len() - 1)) && no_num(ps[ps.len() - 1])
    }
}

/// The term a pattern stands for: a variable, or the constructor applied to
/// the terms of its fields.
pub open spec fn pat_term(p: PatV) -> TermV
    decreases p,
{
    match p {
        PatV::Var(n) => TermV::Var { nam: n },
        PatV::Ctr(n, args) => call_v(TermV::Var { nam: n }, pats_terms(args)),
        PatV::Num(_) => TermV::Era,
    }
}

pub open spec fn pats_terms(ps: Seq<PatV>) -> Seq<TermV>
    decreases ps,
{
    if ps.len() == 0 {
        Seq::empty()
    } else {
        pats_terms(ps.subrange(0, ps.len() - 1)).push(pat_term(ps[ps.len() - 1]))
    }
}

proof fn lemma_no_num_all(ps: Seq<PatV>, i: int)
    requires
        no_num_all(ps),
        0 <= i < ps.len(),
    ensures
        no_num(ps[i]),
    decreases ps.len(),
{
    if i < ps.len() - 1 {
        let p = ps.subrange(0, ps.len() - 1);
        lemma_no_num_all(p, i);
        assert(p[i] == ps[i]);
    }
}

proof fn lemma_pats_terms(ps: Seq<PatV>)
    ensures
        pats_terms(ps).len() == ps.len(),
        forall|i: int| 0 <= i < ps.len() ==> #[trigger] pats_terms(ps)[i] == pat_term(ps[i]),
    decreases ps.len(),
{
    if ps.len() > 0 {
        let p = ps.subrange(0, ps.len() - 1);
        lemma_pats_terms(p);
        assert forall|i: int| 0 <= i < ps.len() implies #[trigger] pats_terms(ps)[i] == pat_term(
            ps[i],
        ) by {
            if i < ps.len() - 1 {
                assert(p[i] == ps[i]);
            }
        }
    }
}

impl Term {
    /// Makes a call term by folding args around a called function term
    /// with applications.
    pub fn call(called: Term, args: Vec<Term>) -> (r: Term)
        ensures
            r@ == call_v(called@, terms_view(args@)),
    {
        let ghost av = terms_view(args@);
        let mut acc = called;
        let mut rest = args;
        let mut taken: Vec<Term> = Vec::new();
        // Move the arguments out from the back, then fold them from the front.
        while rest.len() > 0
            invariant
                terms_view(rest@) + terms_view(taken@).reverse() == av,
            decreases rest@.len(),
        {
            let ghost before_rest = rest@;
            let ghost before_taken = taken@;
            let t = rest.pop().unwrap();
            taken.push(t);
            proof {
                assert(terms_view(rest@) + terms_view(taken@).reverse() =~= terms_view(before_rest)
                    + terms_view(before_taken).reverse());
            }
        }
        assert(terms_view(taken@).reverse() =~= av);
        let n = taken.len();
        let mut i: usize = 0;
        while i < n
            invariant
                n == av.len(),
                taken@.len() == n - i,
                i <= n,
                terms_view(taken@).reverse() == av.subrange(i as int, n as int),
                acc@ == call_v(called@, av.subrange(0, i as int)),
            decreases n - i,
        {
            let ghost before = taken@;
            let arg = taken.pop().unwrap();
            proof {
                assert(arg@ == av[i as int]) by {
                    assert(terms_view(before).reverse()[0] == av.subrange(i as int, n as int)[0]);
                }
                assert(terms_view(taken@).reverse() =~= av.subrange(i + 1, n as int)) by {
                    assert forall|k: int| 0 <= k < n - i - 1 implies terms_view(taken@).reverse()[k]
                        == av.subrange(i + 1, n as int)[k] by {
                        assert(terms_view(before).reverse()[k + 1] == av.subrange(i as int, n as int)[k + 1]);
                    }
                }
                let pre = av.subrange(0, i + 1);
                assert(pre.subrange(0, i as int) =~= av.subrange(0, i as int));
            }
            acc = Term::App { tag: None, fun: Box::new(acc), arg: Box::new(arg) };
            i = i + 1;
        }
        assert(av.subrange(0, n as int) =~= av);
        acc
    }

    /// The term a pattern stands for.
    pub fn from_rule_pat(value: &RulePat) -> (r: Term)
        requires
            no_num(value@),
        ensures
            r@ == pat_term(value@),
        decreases value,
    {
        match value {
            RulePat::Var(nam) => Term::Var { nam: nam.clone_name() },
            RulePat::Ctr(nam, args) => {
                let mut terms: Vec<Term> = Vec::new();
                let n = args.len();
                let mut i: usize = 0;
                while i < n
                    invariant
                        *value == RulePat::Ctr(*nam, *args),
                        no_num(value@),
                        n == args@.len(),
                        i <= n,
                        terms@.len() == i,
                        forall|j: int| 0 <= j < i ==> (#[trigger] terms@[j])@ == pat_term(
                            pat_view(args@[j]),
                        ),
                    decreases n - i,
                {
                    proof {
                        assert(decreases_to!(*args => args[i as int]));
                        assert(decreases_to!(*value => value->Ctr_1));
                        lemma_pats_view(args@);
                        lemma_no_num_all(pats_view(args@), i as int);
                    }
                    let t = Term::from_rule_pat(&args[i]);
                    terms.push(t);
                    i = i + 1;
                }
                proof {
                    lemma_pats_view(args@);
                    lemma_pats_terms(pats_view(args@));
                    assert(terms_view(terms@) =~= pats_terms(pats_view(args@)));
                }
                Term::call(Term::Var { nam: nam.clone_name() }, terms)
            },
            RulePat::Num(..) => Term::Era,
        }
    }

    /// A native number match on `scrutinee`: `0` gives `zero_term`, and
    /// `+succ_label` gives `succ_term`. A scrutinee that is not a variable
    /// is first bound by a `let` to a name free in neither arm, and the
    /// match on that name is the body of the `let`.
    pub fn new_native_match(
        scrutinee: Self,
        zero_term: Self,
        succ_label: Option<Name>,
        succ_term: Self,
    ) -> (r: Self)
        ensures
            r@ == native_match_term(scrutinee@, zero_term@, opt_name(succ_label), succ_term@),
            !(scrutinee@ is Var) ==> !free_vars_v(zero_term@).contains(match_bind_name(zero_term@, succ_term@))
                && !free_vars_v(succ_term@).contains(match_bind_name(zero_term@, succ_term@)),
    {
        if let Term::Var { .. } = scrutinee {
            return Term::num_match(scrutinee, zero_term, succ_label, succ_term);
        }
        let nam = fresh_for_arms(&zero_term, &succ_term);
        let m = Term::num_match(Term::Var { nam: nam.clone_name() }, zero_term, succ_label, succ_term);
        Term::Let { pat: LetPat::Var(nam), val: Box::new(scrutinee), nxt: Box::new(m) }
    }

    /// A match on `scrutinee` with the arms of a native number match.
    pub(crate) fn num_match(
        scrutinee: Self,
        zero_term: Self,
        succ_label: Option<Name>,
        succ_term: Self,
    ) -> (r: Self)
        ensures
            r@ == num_match_v(scrutinee@, zero_term@, opt_name(succ_label), succ_term@),
    {
        let zero = (RulePat::Num(MatchNum::Zero), zero_term);
        let succ = (RulePat::Num(MatchNum::Succ(succ_label)), succ_term);
        let mut arms = Vec::new();
        arms.push(zero);
        arms.push(succ);
        let r = Term::Match { scrutinee: Box::new(scrutinee), arms };
        proof {
            lemma_arms_view(arms@);
            assert(arms_view(arms@) =~= seq![
                (PatV::Num(MatchNumV::Zero), zero_term@),
                (PatV::Num(MatchNumV::Succ(opt_name(succ_label))), succ_term@),
            ]);
        }
        r
    }
}

/// The length of the longest of the names, 0 where there are none.
pub open spec fn longest_len(names: Seq<Seq<char>>) -> nat
    decreases names.len(),
{
    if names.len() == 0 {
        0
    } else {
        let rest = longest_len(names.drop_last());
        if names.last().len() > rest {
            names.last().len()
        } else {
            rest
        }
    }
}

/// A name that is none of the names: `%`, one time more than the longest
/// of them is long.
pub open spec fn fresh_name(names: Seq<Seq<char>>) -> Seq<char> {
    Seq::new(longest_len(names) + 1, |_i: int| '%')
}

/// The name that a native match binds a scrutinee that is not a variable
/// to: a fresh name for the free variables of its two arms.
pub open spec fn match_bind_name(zero: TermV, succ: TermV) -> Seq<char> {
    fresh_name(fv_items(succ, fv_items(zero, Seq::empty())))
}

/// No name is longer than the longest, so the fresh name is none of them.
pub proof fn lemma_fresh_name(names: Seq<Seq<char>>)
    ensures
        forall|i: int| 0 <= i < names.len() ==> (#[trigger] names[i]).len() <= longest_len(names),
        !names.contains(fresh_name(names)),
    decreases names.len(),
{
    if names.len() > 0 {
        lemma_fresh_name(names.drop_last());
        assert forall|i: int| 0 <= i < names.len() implies (#[trigger] names[i]).len() <= longest_len(names) by {
            if i < names.len() - 1 {
                assert(names[i] == names.drop_last()[i]);
            }
        }
    }
    if names.contains(fresh_name(names)) {
        let i = names.index_of(fresh_name(names));
        assert(names[i].len() <= longest_len(names));
    }
}

/// A name free in neither term, as `match_bind_name` gives it.
fn fresh_for_arms(zero: &Term, succ: &Term) -> (r: Name)
    ensures
        r@ == match_bind_name(zero@, succ@),
        !free_vars_v(zero@).contains(r@),
        !free_vars_v(succ@).contains(r@),
{
    let mut fv = index_set_new();
    proof {
        assert(index_set_items(fv).no_duplicates());
    }
    zero.free_vars(&mut fv);
    succ.free_vars(&mut fv);
    let ghost items = index_set_items(fv);
    let n = index_set_len(&fv);
    let mut longest: usize = 0;
    let mut i: usize = 0;
    while i < n
        invariant
            n == items.len(),
            items == index_set_items(fv),
            i <= n,
            longest == longest_len(items.take(i as int)),
        decreases n - i,
    {
        let s = index_set_get_index(&fv, i).unwrap();
        let l = chars_of(s.as_str()).len();
        proof {
            assert(items.take(i + 1).drop_last() =~= items.take(i as int));
        }
        if l > longest {
            longest = l;
        }
        i = i + 1;
    }
    proof {
        assert(items.take(n as int) =~= items);
    }
    let mut name = String::new();
    push_char(&mut name, '%');
    let mut j: usize = 0;
    while j < longest
        invariant
            j <= longest,
            name@ =~= Seq::new((j + 1) as nat, |_i: int| '%'),
        decreases longest - j,
    {
        push_char(&mut name, '%');
        j = j + 1;
    }
    proof {
        assert(name@ =~= fresh_name(items));
        lemma_fresh_name(items);
        assert(!items.to_set().contains(name@));
    }
    Name(name)
}

/// A native number match on `scrutinee`: `0` gives `zero`, and `+nam`
/// gives `succ`; a scrutinee that is not a variable is bound first by a
/// `let` to `match_bind_name(zero, succ)`.
pub open spec fn native_match_term(scrutinee: TermV, zero: TermV, nam: Option<Seq<char>>, succ: TermV) -> TermV {
    if scrutinee is Var {
        num_match_v(scrutinee, zero, nam, succ)
    } else {
        let x = match_bind_name(zero, succ);
        TermV::Let {
            pat: LetPatV::Var(x),
            val: Box::new(scrutinee),
            nxt: Box::new(num_match_v(TermV::Var { nam: x }, zero, nam, succ)),
        }
    }
}

/// A match on `scrutinee` whose arms are `0`, giving `zero`, and `+nam`,
/// giving `succ`.
pub open spec fn num_match_v(scrutinee: TermV, zero: TermV, nam: Option<Seq<char>>, succ: TermV) -> TermV {
    TermV::Match {
        scrutinee: Box::new(scrutinee),
        arms: seq![(PatV::Num(MatchNumV::Zero), zero), (PatV::Num(MatchNumV::Succ(nam)), succ)],
    }
}

/// The lambda representation of native number match arms: the zero arm's
/// body, and the successor arm's body under a lambda binding the
/// predecessor (a second `0` arm's body as it is).
pub open spec fn native_match_lams(arms: Seq<(PatV, TermV)>) -> (TermV, TermV) {
    (
        arms[0].1,
        match arms[1].0 {
            PatV::Num(MatchNumV::Succ(nam)) => TermV::Lam { tag: None, nam, bod: Box::new(arms[1].1) },
            _ => arms[1].1,
        },
    )
}

/// The arms of a native number match on a variable, read back as lambdas,
/// give its zero arm and its successor arm under a lambda binding the
/// predecessor.
pub proof fn law_native_match_round_trip(scrutinee: TermV, zero: TermV, nam: Option<Seq<char>>, succ: TermV)
    requires
        scrutinee is Var,
    ensures
        native_match_arms(native_match_term(scrutinee, zero, nam, succ)->arms),
        native_match_lams(native_match_term(scrutinee, zero, nam, succ)->arms) == (
            zero,
            TermV::Lam { tag: None, nam, bod: Box::new(succ) },
        ),
{
}

/// Applying a call to more arguments is calling with all the arguments.
pub proof fn law_call_compose(f: TermV, a: Seq<TermV>, b: Seq<TermV>)
    ensures
        call_v(call_v(f, a), b) == call_v(f, a + b),
    decreases b.len(),
{
    if b.len() == 0 {
        assert(a + b =~= a);
    } else {
        law_call_compose(f, a, b.subrange(0, b.len() - 1));
        let ab = a + b;
        assert(ab.subrange(0, ab.len() - 1) =~= a + b.subrange(0, b.len() - 1));
        assert(ab[ab.len() - 1] == b[b.len() - 1]);
    }
}

/// Whether the arms are those of a native number match: `0` then `+`, or
/// `0` then `0`.
pub open spec fn native_match_arms(arms: Seq<(PatV, TermV)>) -> bool {
    &&& arms.len() == 2
    &&& arms[0].0 == PatV::Num(MatchNumV::Zero)
    &&& arms[1].0 is Num
}

/// The lambda representation of native number match arms: the zero arm,
/// and the successor arm as a lambda binding its predecessor (a second `0`
/// arm is kept as it is).
pub fn native_match(arms: Vec<(RulePat, Term)>) -> (r: (Term, Term))
    requires
        native_match_arms(arms_view(arms@)),
    ensures
        (r.0@, r.1@) == native_match_lams(arms_view(arms@)),
{
    proof {
        lemma_arms_view(arms@);
    }
    let zero = arms[0].1.clone_term();
    let succ = match &arms[1].0 {
        RulePat::Num(MatchNum::Succ(nam)) => Term::Lam {
            tag: None,
            nam: clone_opt_name(nam),
            bod: Box::new(arms[1].1.clone_term()),
        },
        _ => arms[1].1.clone_term(),
    };
    (zero, succ)
}

} // verus!
