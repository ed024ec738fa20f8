//! The mathematical model of terms: names as character sequences and the
//! arms of a match as a sequence.
use vstd::prelude::*;
use hvmc::run::Val;
use super::{LetPat, MatchNum, Name, Op, RulePat, Term};

verus! {

pub enum MatchNumV {
    Zero,
    Succ(Option<Seq<char>>),
}

pub enum PatV {
    Var(Seq<char>),
    Ctr(Seq<char>, Seq<PatV>),
    Num(MatchNumV),
}

pub enum LetPatV {
    Var(Seq<char>),
    Tup(Option<Seq<char>>, Option<Seq<char>>),
}

#[allow(inconsistent_fields)]
pub enum TermV {
    Lam { tag: Option<Seq<char>>, nam: Option<Seq<char>>, bod: Box<TermV> },
    Var { nam: Seq<char> },
    Chn { nam: Seq<char>, bod: Box<TermV> },
    Lnk { nam: Seq<char> },
    Let { pat: LetPatV, val: Box<TermV>, nxt: Box<TermV> },
    App { tag: Option<Seq<char>>, fun: Box<TermV>, arg: Box<TermV> },
    Tup { fst: Box<TermV>, snd: Box<TermV> },
    Dup {
        tag: Option<Seq<char>>,
        fst: Option<Seq<char>>,
        snd: Option<Seq<char>>,
        val: Box<TermV>,
        nxt: Box<TermV>,
    },
    Sup { tag: Seq<char>, fst: Box<TermV>, snd: Box<TermV> },
    Num { val: u32 },
    Opx { op: Op, fst: Box<TermV>, snd: Box<TermV> },
    Match { scrutinee: Box<TermV>, arms: Seq<(PatV, TermV)> },
    Ref { def_id: Val },
    Era,
}

/// The text of an optional name.
pub open spec fn opt_name(o: Option<Name>) -> Option<Seq<char>> {
    match o {
        Some(n) => Some(n@),
        None => None,
    }
}

impl View for MatchNum {
    type V = MatchNumV;

    open spec fn view(&self) -> MatchNumV {
        match self {
            MatchNum::Zero => MatchNumV::Zero,
            MatchNum::Succ(n) => MatchNumV::Succ(opt_name(*n)),
        }
    }
}

impl View for LetPat {
    type V = LetPatV;

    open spec fn view(&self) -> LetPatV {
        match self {
            LetPat::Var(n) => LetPatV::Var(n@),
            LetPat::Tup(a, b) => LetPatV::Tup(opt_name(*a), opt_name(*b)),
        }
    }
}

pub open spec fn pat_view(p: RulePat) -> PatV
    decreases p,
{
    match p {
        RulePat::Var(n) => PatV::Var(n@),
        RulePat::Ctr(n, args) => PatV::Ctr(n@, pats_view(args@)),
        RulePat::Num(m) => PatV::Num(m@),
    }
}

pub open spec fn pats_view(s: Seq<RulePat>) -> Seq<PatV>
    decreases s,
{
    if s.len() == 0 {
        Seq::empty()
    } else {
        pats_view(s.subrange(0, s.len() - 1)).push(pat_view(s[s.len() - 1]))
    }
}

impl View for RulePat {
    type V = PatV;

    open spec fn view(&self) -> PatV {
        pat_view(*self)
    }
}

pub open spec fn term_view(t: Term) -> TermV
    decreases t,
{
    match t {
        Term::Lam { tag, nam, bod } => TermV::Lam {
            tag: opt_name(tag),
            nam: opt_name(nam),
            bod: Box::new(term_view(*bod)),
        },
        Term::Var { nam } => TermV::Var { nam: nam@ },
        Term::Chn { nam, bod } => TermV::Chn { nam: nam@, bod: Box::new(term_view(*bod)) },
        Term::Lnk { nam } => TermV::Lnk { nam: nam@ },
        Term::Let { pat, val, nxt } => TermV::Let {
            pat: pat@,
            val: Box::new(term_view(*val)),
            nxt: Box::new(term_view(*nxt)),
        },
        Term::App { tag, fun, arg } => TermV::App {
            tag: opt_name(tag),
            fun: Box::new(term_view(*fun)),
            arg: Box::new(term_view(*arg)),
        },
        Term::Tup { fst, snd } => TermV::Tup {
            fst: Box::new(term_view(*fst)),
            snd: Box::new(term_view(*snd)),
        },
        Term::Dup { tag, fst, snd, val, nxt } => TermV::Dup {
            tag: opt_name(tag),
            fst: opt_name(fst),
            snd: opt_name(snd),
            val: Box::new(term_view(*val)),
            nxt: Box::new(term_view(*nxt)),
        },
        Term::Sup { tag, fst, snd } => TermV::Sup {
            tag: tag@,
            fst: Box::new(term_view(*fst)),
            snd: Box::new(term_view(*snd)),
        },
        Term::Num { val } => TermV::Num { val },
        Term::Opx { op, fst, snd } => TermV::Opx {
            op,
            fst: Box::new(term_view(*fst)),
            snd: Box::new(term_view(*snd)),
        },
        Term::Match { scrutinee, arms } => TermV::Match {
            scrutinee: Box::new(term_view(*scrutinee)),
            arms: arms_view(arms@),
        },
        Term::Ref { def_id } => TermV::Ref { def_id: def_id.0 },
        Term::Era => TermV::Era,
    }
}

pub open spec fn arms_view(s: Seq<(RulePat, Term)>) -> Seq<(PatV, TermV)>
    decreases s,
{
    if s.len() == 0 {
        Seq::empty()
    } else {
        arms_view(s.subrange(0, s.len() - 1)).push(
            (pat_view(s[s.len() - 1].0), term_view(s[s.len() - 1].1)),
        )
    }
}

impl View for Term {
    type V = TermV;

    open spec fn view(&self) -> TermV {
        term_view(*self)
    }
}

/// `arms_view` views each arm.
pub proof fn lemma_arms_view(s: Seq<(RulePat, Term)>)
    ensures
        arms_view(s).len() == s.len(),
        forall|i: int|
            0 <= i < s.len() ==> #[trigger] arms_view(s)[i] == (
            pat_view(s[i].0), term_view(s[i].1)),
    decreases s.len(),
{
    if s.len() > 0 {
        let p = s.subrange(0, s.len() - 1);
        lemma_arms_view(p);
        assert forall|i: int| 0 <= i < s.len() implies #[trigger] arms_view(s)[i] == (
        pat_view(s[i].0), term_view(s[i].1)) by {
            if i < s.len() - 1 {
                assert(p[i] == s[i]);
            }
        }
    }
}

/// `pats_view` views each pattern.
pub proof fn lemma_pats_view(s: Seq<RulePat>)
    ensures
        pats_view(s).len() == s.len(),
        forall|i: int| 0 <= i < s.len() ==> #[trigger] pats_view(s)[i] == pat_view(s[i]),
    decreases s.len(),
{
    if s.len() > 0 {
        let p = s.subrange(0, s.len() - 1);
        lemma_pats_view(p);
        assert forall|i: int| 0 <= i < s.len() implies #[trigger] pats_view(s)[i] == pat_view(
            s[i],
        ) by {
            if i < s.len() - 1 {
                assert(p[i] == s[i]);
            }
        }
    }
}

/// A copy of an optional name.
pub fn clone_opt_name(o: &Option<Name>) -> (r: Option<Name>)
    ensures
        opt_name(r) == opt_name(*o),
{
    match o {
        Some(n) => Some(n.clone_name()),
        None => None,
    }
}

impl MatchNum {
    /// A copy of this pattern.
    pub fn clone_match_num(&self) -> (r: MatchNum)
        ensures
            r@ == self@,
    {
        match self {
            MatchNum::Zero => MatchNum::Zero,
            MatchNum::Succ(n) => MatchNum::Succ(clone_opt_name(n)),
        }
    }
}

impl LetPat {
    /// A copy of this pattern.
    pub fn clone_let_pat(&self) -> (r: LetPat)
        ensures
            r@ == self@,
    {
        match self {
            LetPat::Var(n) => LetPat::Var(n.clone_name()),
            LetPat::Tup(a, b) => LetPat::Tup(clone_opt_name(a), clone_opt_name(b)),
        }
    }
}

impl RulePat {
    /// A copy of this pattern.
    pub fn clone_pat(&self) -> (r: RulePat)
        ensures
            r@ == self@,
        decreases self,
    {
        match self {
            RulePat::Var(n) => RulePat::Var(n.clone_name()),
            RulePat::Num(m) => RulePat::Num(m.clone_match_num()),
            RulePat::Ctr(n, args) => {
                let mut out: Vec<RulePat> = Vec::new();
                let mut i: usize = 0;
                while i < args.len()
                    invariant
                        *self == RulePat::Ctr(*n, *args),
                        i <= args@.len(),
                        out@.len() == i,
                        forall|j: int| 0 <= j < i ==> pat_view(#[trigger] out@[j]) == pat_view(
                            args@[j],
                        ),
                    decreases args@.len() - i,
                {
                    proof {
                        assert(decreases_to!(*args => args[i as int]));
                        assert(decreases_to!(*self => self->Ctr_1));
                    }
                    let c = args[i].clone_pat();
                    out.push(c);
                    i = i + 1;
                }
                proof {
                    lemma_pats_view(out@);
                    lemma_pats_view(args@);
                    assert(pats_view(out@) =~= pats_view(args@));
                }
                RulePat::Ctr(n.clone_name(), out)
            },
        }
    }
}

impl Term {
    /// A copy of this term.
    pub fn clone_term(&self) -> (r: Term)
        ensures
            r@ == self@,
        decreases self,
    {
        match self {
            Term::Lam { tag, nam, bod } => Term::Lam {
                tag: clone_opt_name(tag),
                nam: clone_opt_name(nam),
                bod: Box::new(bod.clone_term()),
            },
            Term::Var { nam } => Term::Var { nam: nam.clone_name() },
            Term::Chn { nam, bod } => Term::Chn { nam: nam.clone_name(), bod: Box::new(bod.clone_term()) },
            Term::Lnk { nam } => Term::Lnk { nam: nam.clone_name() },
            Term::Let { pat, val, nxt } => Term::Let {
                pat: pat.clone_let_pat(),
                val: Box::new(val.clone_term()),
                nxt: Box::new(nxt.clone_term()),
            },
            Term::App { tag, fun, arg } => Term::App {
                tag: clone_opt_name(tag),
                fun: Box::new(fun.clone_term()),
                arg: Box::new(arg.clone_term()),
            },
            Term::Tup { fst, snd } => Term::Tup {
                fst: Box::new(fst.clone_term()),
                snd: Box::new(snd.clone_term()),
            },
            Term::Dup { tag, fst, snd, val, nxt } => Term::Dup {
                tag: clone_opt_name(tag),
                fst: clone_opt_name(fst),
                snd: clone_opt_name(snd),
                val: Box::new(val.clone_term()),
                nxt: Box::new(nxt.clone_term()),
            },
            Term::Sup { tag, fst, snd } => Term::Sup {
                tag: tag.clone_name(),
                fst: Box::new(fst.clone_term()),
                snd: Box::new(snd.clone_term()),
            },
            Term::Num { val } => Term::Num { val: *val },
            Term::Opx { op, fst, snd } => Term::Opx {
                op: *op,
                fst: Box::new(fst.clone_term()),
                snd: Box::new(snd.clone_term()),
            },
            Term::Match { scrutinee, arms } => {
                let mut out: Vec<(RulePat, Term)> = Vec::new();
                let mut i: usize = 0;
                while i < arms.len()
                    invariant
                        *self == (Term::Match { scrutinee: *scrutinee, arms: *arms }),
                        i <= arms@.len(),
                        out@.len() == i,
                        forall|j: int|
                            0 <= j < i ==> pat_view((#[trigger] out@[j]).0) == pat_view(arms@[j].0)
                                && term_view(out@[j].1) == term_view(arms@[j].1),
                    decreases arms@.len() - i,
                {
                    proof {
                        assert(decreases_to!(*arms => arms[i as int]));
                        assert(decreases_to!(arms[i as int] => arms[i as int].1));
                        assert(decreases_to!(*self => self->arms));
                    }
                    let p = arms[i].0.clone_pat();
                    let t = arms[i].1.clone_term();
                    out.push((p, t));
                    i = i + 1;
                }
                proof {
                    lemma_arms_view(out@);
                    lemma_arms_view(arms@);
                    assert(arms_view(out@) =~= arms_view(arms@));
                }
                Term::Match { scrutinee: Box::new(scrutinee.clone_term()), arms: out }
            },
            Term::Ref { def_id } => Term::Ref { def_id: *def_id },
            Term::Era => Term::Era,
        }
    }
}

} // verus!
