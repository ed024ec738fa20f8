//! The textual form of terms, patterns, rules, definitions and books.
use vstd::prelude::*;
use hvmc::run::Val;
use super::{
    arms_view, lemma_arms_view, lemma_pats_view, pat_view, pats_view, term_view, Book, DefId,
    Definition, LetPat, LetPatV, MatchNum, MatchNumV, Name, Op, PatV, Rule, RulePat, Term, TermV,
    push_char,
};

verus! {

/// Appends text to a string.
pub(crate) fn append(s: &mut String, t: &str)
    ensures
        final(s)@ == old(s)@ + t@,
{
    s.append(t);
}

/// The decimal digit for a number below 10.
pub open spec fn digit(d: nat) -> char {
    ((d % 10) as u8 + 48u8) as char
}

/// The decimal numeral of a number, without leading zeros.
pub open spec fn decimal(n: nat) -> Seq<char>
    decreases n,
{
    if n < 10 {
        seq![digit(n)]
    } else {
        decimal(n / 10).push(digit(n % 10))
    }
}

/// Appends the decimal numeral of a number.
fn push_decimal(s: &mut String, n: u32)
    ensures
        final(s)@ == old(s)@ + decimal(n as nat),
    decreases n,
{
    if n >= 10 {
        push_decimal(s, n / 10);
    }
    let d = ((n % 10) as u8 + 48u8) as char;
    push_char(s, d);
    proof {
        assert(d == digit(n as nat));
        if n >= 10 {
            assert(decimal(n as nat) == decimal((n / 10) as nat).push(digit(n as nat % 10)));
        }
    }
}

/// The symbol of a numeric operation.
pub open spec fn op_str(op: Op) -> Seq<char> {
    match op {
        Op::ADD => "+"@,
        Op::SUB => "-"@,
        Op::MUL => "*"@,
        Op::DIV => "/"@,
        Op::MOD => "%"@,
        Op::EQ => "=="@,
        Op::NE => "!="@,
        Op::LT => "<"@,
        Op::GT => ">"@,
        Op::AND => "&"@,
        Op::OR => "|"@,
        Op::XOR => "^"@,
        Op::NOT => "~"@,
        Op::LSH => "<<"@,
        Op::RSH => ">>"@,
    }
}

impl Op {
    /// The symbol of the operation.
    pub fn show(&self) -> (r: &'static str)
        ensures
            r@ == op_str(*self),
    {
        match self {
            Op::ADD => "+",
            Op::SUB => "-",
            Op::MUL => "*",
            Op::DIV => "/",
            Op::MOD => "%",
            Op::EQ => "==",
            Op::NE => "!=",
            Op::LT => "<",
            Op::GT => ">",
            Op::AND => "&",
            Op::OR => "|",
            Op::XOR => "^",
            Op::NOT => "~",
            Op::LSH => "<<",
            Op::RSH => ">>",
        }
    }
}

/// An optional name, or `*` for none.
pub open spec fn name_or_star(o: Option<Seq<char>>) -> Seq<char> {
    match o {
        Some(n) => n,
        None => "*"@,
    }
}

/// The `#tag ` prefix of a tagged lambda or application, or nothing.
pub open spec fn tag_prefix(o: Option<Seq<char>>) -> Seq<char> {
    match o {
        Some(x) => "#"@ + x + " "@,
        None => Seq::empty(),
    }
}

/// The textual form of a let pattern.
pub open spec fn let_pat_str(p: LetPatV) -> Seq<char> {
    match p {
        LetPatV::Var(n) => n,
        LetPatV::Tup(a, b) => "("@ + name_or_star(a) + ", "@ + name_or_star(b) + ")"@,
    }
}

/// The textual form of a rule pattern.
pub open spec fn pat_str(p: PatV) -> Seq<char>
    decreases p,
{
    match p {
        PatV::Ctr(name, pats) => "("@ + name + pats_str(pats) + ")"@,
        PatV::Var(n) => n,
        PatV::Num(MatchNumV::Zero) => "0"@,
        PatV::Num(MatchNumV::Succ(_)) => "+"@,
    }
}

/// Each pattern, preceded by a space.
pub open spec fn pats_str(ps: Seq<PatV>) -> Seq<char>
    decreases ps,
{
    if ps.len() == 0 {
        Seq::empty()
    } else {
        pats_str(ps.subrange(0, ps.len() - 1)) + " "@ + pat_str(ps[ps.len() - 1])
    }
}

/// Whether every definition that the term refers to has a name.
pub open spec fn refs_named(t: TermV, names: Map<Val, Seq<char>>) -> bool
    decreases t,
{
    match t {
        TermV::Ref { def_id } => names.contains_key(def_id),
        TermV::Lam { bod, .. } | TermV::Chn { bod, .. } => refs_named(*bod, names),
        TermV::Let { val: a, nxt: b, .. } | TermV::Dup { val: a, nxt: b, .. } | TermV::App {
            fun: a,
            arg: b,
            ..
        } | TermV::Tup { fst: a, snd: b } | TermV::Sup { fst: a, snd: b, .. } | TermV::Opx {
            fst: a,
            snd: b,
            ..
        } => refs_named(*a, names) && refs_named(*b, names),
        TermV::Match { scrutinee, arms } => refs_named(*scrutinee, names) && refs_named_arms(
            arms,
            names,
        ),
        _ => true,
    }
}

pub open spec fn refs_named_arms(arms: Seq<(PatV, TermV)>, names: Map<Val, Seq<char>>) -> bool
    decreases arms,
{
    if arms.len() == 0 {
        true
    } else {
        refs_named_arms(arms.subrange(0, arms.len() - 1), names) && refs_named(
            arms[arms.len() - 1].1,
            names,
        )
    }
}

/// The textual form of a term; definitions are shown by their names in
/// `names`.
pub open spec fn show(t: TermV, names: Map<Val, Seq<char>>) -> Seq<char>
    decreases t, 0nat,
{
    match t {
        TermV::Lam { tag, nam, bod } => "λ"@ + tag_prefix(tag) + name_or_star(nam) + " "@ + show(
            *bod,
            names,
        ),
        TermV::Var { nam } => nam,
        TermV::Chn { nam, bod } => "λ$"@ + nam + " "@ + show(*bod, names),
        TermV::Lnk { nam } => "$"@ + nam,
        TermV::Let { pat, val, nxt } => "let "@ + let_pat_str(pat) + " = "@ + show(*val, names)
            + "; "@ + show(*nxt, names),
        TermV::Ref { def_id } => names[def_id],
        TermV::App { tag, fun, arg } => "("@ + tag_prefix(tag) + show_head(*fun, names) + " "@
            + show(*arg, names) + ")"@,
        TermV::Match { scrutinee, arms } => "match "@ + show(*scrutinee, names) + " { "@
            + show_arms(arms, names) + " }"@,
        TermV::Dup { fst, snd, val, nxt, .. } => "dup "@ + name_or_star(fst) + " "@ + name_or_star(
            snd,
        ) + " = "@ + show(*val, names) + "; "@ + show(*nxt, names),
        TermV::Sup { tag, fst, snd } => "{#"@ + tag + " "@ + show(*fst, names) + " "@ + show(
            *snd,
            names,
        ) + "}"@,
        TermV::Era => "*"@,
        TermV::Num { val } => decimal(val as nat),
        TermV::Opx { op, fst, snd } => "("@ + op_str(op) + " "@ + show(*fst, names) + " "@ + show(
            *snd,
            names,
        ) + ")"@,
        TermV::Tup { fst, snd } => "("@ + show(*fst, names) + ", "@ + show(*snd, names) + ")"@,
    }
}

/// The textual form of a term in head position of an application: an
/// untagged application is shown without parentheses.
pub open spec fn show_head(t: TermV, names: Map<Val, Seq<char>>) -> Seq<char>
    decreases t, 1nat,
{
    match t {
        TermV::App { tag: None, fun, arg } => show_head(*fun, names) + " "@ + show(*arg, names),
        _ => show(t, names),
    }
}

/// The arms of a match, each as `pattern: body`, separated by `; `.
pub open spec fn show_arms(arms: Seq<(PatV, TermV)>, names: Map<Val, Seq<char>>) -> Seq<char>
    decreases arms, 0nat,
{
    if arms.len() == 0 {
        Seq::empty()
    } else if arms.len() == 1 {
        pat_str(arms[0].0) + ": "@ + show(arms[0].1, names)
    } else {
        show_arms(arms.subrange(0, arms.len() - 1), names) + "; "@ + pat_str(
            arms[arms.len() - 1].0,
        ) + ": "@ + show(arms[arms.len() - 1].1, names)
    }
}

/// Appends the `#tag ` prefix of an optional tag.
fn write_tag_prefix(s: &mut String, tag: &Option<Name>)
    ensures
        final(s)@ == old(s)@ + tag_prefix(super::opt_name(*tag)),
{
    match tag {
        Some(x) => {
            append(s, "#");
            append(s, x.0.as_str());
            append(s, " ");
            assert(final(s)@ =~= old(s)@ + tag_prefix(super::opt_name(*tag)));
        },
        None => {
            assert(old(s)@ + tag_prefix(super::opt_name(*tag)) =~= old(s)@);
        },
    }
}

/// Appends an optional name, or `*`.
fn write_name_or_star(s: &mut String, o: &Option<Name>)
    ensures
        final(s)@ == old(s)@ + name_or_star(super::opt_name(*o)),
{
    match o {
        Some(n) => append(s, n.0.as_str()),
        None => append(s, "*"),
    }
}

/// Appends a let pattern.
fn write_let_pat(s: &mut String, p: &LetPat)
    ensures
        final(s)@ == old(s)@ + let_pat_str(p@),
{
    match p {
        LetPat::Var(n) => append(s, n.0.as_str()),
        LetPat::Tup(a, b) => {
            append(s, "(");
            write_name_or_star(s, a);
            append(s, ", ");
            write_name_or_star(s, b);
            append(s, ")");
            assert(final(s)@ =~= old(s)@ + let_pat_str(p@));
        },
    }
}

/// `pats_str` of one more pattern.
proof fn lemma_pats_str_step(ps: Seq<PatV>, i: int)
    requires
        0 <= i < ps.len(),
    ensures
        pats_str(ps.subrange(0, i + 1)) == pats_str(ps.subrange(0, i)) + " "@ + pat_str(ps[i]),
{
    let pre = ps.subrange(0, i + 1);
    assert(pre.subrange(0, i) =~= ps.subrange(0, i));
    assert(pre[i] == ps[i]);
}

/// Appends a rule pattern.
fn write_pat(s: &mut String, p: &RulePat)
    ensures
        final(s)@ == old(s)@ + pat_str(p@),
    decreases p,
{
    match p {
        RulePat::Var(n) => append(s, n.0.as_str()),
        RulePat::Num(MatchNum::Zero) => append(s, "0"),
        RulePat::Num(MatchNum::Succ(_)) => append(s, "+"),
        RulePat::Ctr(name, args) => {
            append(s, "(");
            append(s, name.0.as_str());
            let ghost start = s@;
            let n = args.len();
            let mut i: usize = 0;
            while i < n
                invariant
                    *p == RulePat::Ctr(*name, *args),
                    n == args@.len(),
                    i <= n,
                    s@ == start + pats_str(pats_view(args@).subrange(0, i as int)),
                decreases n - i,
            {
                proof {
                    assert(decreases_to!(*args => args[i as int]));
                    assert(decreases_to!(*p => p->Ctr_1));
                }
                append(s, " ");
                write_pat(s, &args[i]);
                proof {
                    lemma_pats_view(args@);
                    lemma_pats_str_step(pats_view(args@), i as int);
                    assert(s@ =~= start + pats_str(pats_view(args@).subrange(0, i + 1)));
                }
                i = i + 1;
            }
            append(s, ")");
            proof {
                lemma_pats_view(args@);
                assert(pats_view(args@).subrange(0, n as int) =~= pats_view(args@));
                assert(final(s)@ =~= old(s)@ + pat_str(p@));
            }
        },
    }
}

/// Appends each pattern, preceded by a space.
fn write_pats(s: &mut String, pats: &Vec<RulePat>)
    ensures
        final(s)@ == old(s)@ + pats_str(pats_view(pats@)),
{
    let ghost start = s@;
    let n = pats.len();
    let mut i: usize = 0;
    while i < n
        invariant
            n == pats@.len(),
            i <= n,
            s@ == start + pats_str(pats_view(pats@).subrange(0, i as int)),
        decreases n - i,
    {
        append(s, " ");
        write_pat(s, &pats[i]);
        proof {
            lemma_pats_view(pats@);
            lemma_pats_str_step(pats_view(pats@), i as int);
            assert(s@ =~= start + pats_str(pats_view(pats@).subrange(0, i + 1)));
        }
        i = i + 1;
    }
    proof {
        lemma_pats_view(pats@);
        assert(pats_view(pats@).subrange(0, n as int) =~= pats_view(pats@));
        assert(start =~= old(s)@);
    }
}

impl RulePat {
    /// The textual form of the pattern.
    pub fn show(&self) -> (r: String)
        ensures
            r@ == pat_str(self@),
    {
        let mut s = String::new();
        write_pat(&mut s, self);
        assert(s@ =~= pat_str(self@));
        s
    }
}

impl LetPat {
    /// The textual form of the pattern.
    pub fn show(&self) -> (r: String)
        ensures
            r@ == let_pat_str(self@),
    {
        let mut s = String::new();
        write_let_pat(&mut s, self);
        assert(s@ =~= let_pat_str(self@));
        s
    }
}

impl Name {
    /// The text of the name.
    pub fn show(&self) -> (r: String)
        ensures
            r@ == self@,
    {
        self.0.clone()
    }
}

/// Every arm of named arms has its references named.
proof fn lemma_refs_named_arms(arms: Seq<(PatV, TermV)>, names: Map<Val, Seq<char>>, i: int)
    requires
        refs_named_arms(arms, names),
        0 <= i < arms.len(),
    ensures
        refs_named(arms[i].1, names),
    decreases arms.len(),
{
    if i < arms.len() - 1 {
        let p = arms.subrange(0, arms.len() - 1);
        lemma_refs_named_arms(p, names, i);
        assert(p[i] == arms[i]);
    }
}

/// `show_arms` of one more arm.
proof fn lemma_show_arms_step(arms: Seq<(PatV, TermV)>, names: Map<Val, Seq<char>>, i: int)
    requires
        0 <= i < arms.len(),
    ensures
        show_arms(arms.subrange(0, i + 1), names) == if i == 0 {
            pat_str(arms[0].0) + ": "@ + show(arms[0].1, names)
        } else {
            show_arms(arms.subrange(0, i), names) + "; "@ + pat_str(arms[i].0) + ": "@ + show(
                arms[i].1,
                names,
            )
        },
{
    let pre = arms.subrange(0, i + 1);
    assert(pre.subrange(0, i) =~= arms.subrange(0, i));
    assert(pre[i] == arms[i]);
    assert(pre[0] == arms[0]);
}

impl Term {
    /// Appends the textual form of the term.
    #[verifier::spinoff_prover]
    #[verifier::rlimit(40)]
    fn write_term(&self, s: &mut String, book: &Book)
        requires
            refs_named(self@, book.def_names@.ids),
        ensures
            final(s)@ == old(s)@ + show(self@, book.def_names@.ids),
        decreases self, 0nat,
    {
        let ghost names = book.def_names@.ids;
        match self {
            Term::Lam { tag, nam, bod } => {
                append(s, "λ");
                write_tag_prefix(s, tag);
                write_name_or_star(s, nam);
                append(s, " ");
                bod.write_term(s, book);
                assert(final(s)@ =~= old(s)@ + show(self@, book.def_names@.ids));
            },
            Term::Var { nam } => append(s, nam.0.as_str()),
            Term::Chn { nam, bod } => {
                append(s, "λ$");
                append(s, nam.0.as_str());
                append(s, " ");
                bod.write_term(s, book);
                assert(final(s)@ =~= old(s)@ + show(self@, book.def_names@.ids));
            },
            Term::Lnk { nam } => {
                append(s, "$");
                append(s, nam.0.as_str());
                assert(final(s)@ =~= old(s)@ + show(self@, book.def_names@.ids));
            },
            Term::Let { pat, val, nxt } => {
                append(s, "let ");
                write_let_pat(s, pat);
                append(s, " = ");
                val.write_term(s, book);
                append(s, "; ");
                nxt.write_term(s, book);
                assert(final(s)@ =~= old(s)@ + show(self@, book.def_names@.ids));
            },
            Term::Ref { def_id } => {
                match book.def_names.name(def_id) {
                    Some(n) => append(s, n.0.as_str()),
                    None => {},
                }
                assert(final(s)@ =~= old(s)@ + show(self@, book.def_names@.ids));
            },
            Term::App { tag, fun, arg } => {
                append(s, "(");
                write_tag_prefix(s, tag);
                fun.write_head(s, book);
                append(s, " ");
                arg.write_term(s, book);
                append(s, ")");
                assert(final(s)@ =~= old(s)@ + show(self@, book.def_names@.ids));
            },
            Term::Match { scrutinee, arms } => {
                append(s, "match ");
                scrutinee.write_term(s, book);
                append(s, " { ");
                let ghost start = s@;
                let ghost av = arms_view(arms@);
                let n = arms.len();
                let mut i: usize = 0;
                while i < n
                    invariant
                        *self == (Term::Match { scrutinee: *scrutinee, arms: *arms }),
                        refs_named(self@, book.def_names@.ids),
                        av == arms_view(arms@),
                        n == arms@.len(),
                        i <= n,
                        s@ == start + show_arms(av.subrange(0, i as int), book.def_names@.ids),
                    decreases n - i,
                {
                    proof {
                        assert(decreases_to!(*arms => arms[i as int]));
                        assert(decreases_to!(arms[i as int] => arms[i as int].1));
                        assert(decreases_to!(*self => self->arms));
                        lemma_arms_view(arms@);
                        lemma_refs_named_arms(av, book.def_names@.ids, i as int);
                        lemma_show_arms_step(av, book.def_names@.ids, i as int);
                    }
                    let ghost before = s@;
                    if i > 0 {
                        append(s, "; ");
                    }
                    write_pat(s, &arms[i].0);
                    append(s, ": ");
                    arms[i].1.write_term(s, book);
                    proof {
                        if i == 0 {
                            assert(av.subrange(0, 0) =~= Seq::<(PatV, TermV)>::empty());
                        }
                        assert(s@ =~= start + show_arms(av.subrange(0, i + 1), book.def_names@.ids));
                    }
                    i = i + 1;
                }
                append(s, " }");
                proof {
                    lemma_arms_view(arms@);
                    assert(av.subrange(0, n as int) =~= av);
                }
                assert(final(s)@ =~= old(s)@ + show(self@, book.def_names@.ids));
            },
            Term::Dup { fst, snd, val, nxt, .. } => {
                append(s, "dup ");
                write_name_or_star(s, fst);
                append(s, " ");
                write_name_or_star(s, snd);
                append(s, " = ");
                val.write_term(s, book);
                append(s, "; ");
                nxt.write_term(s, book);
                assert(final(s)@ =~= old(s)@ + show(self@, book.def_names@.ids));
            },
            Term::Sup { tag, fst, snd } => {
                append(s, "{#");
                append(s, tag.0.as_str());
                append(s, " ");
                fst.write_term(s, book);
                append(s, " ");
                snd.write_term(s, book);
                append(s, "}");
                assert(final(s)@ =~= old(s)@ + show(self@, book.def_names@.ids));
            },
            Term::Era => append(s, "*"),
            Term::Num { val } => push_decimal(s, *val),
            Term::Opx { op, fst, snd } => {
                append(s, "(");
                append(s, op.show());
                append(s, " ");
                fst.write_term(s, book);
                append(s, " ");
                snd.write_term(s, book);
                append(s, ")");
                assert(final(s)@ =~= old(s)@ + show(self@, book.def_names@.ids));
            },
            Term::Tup { fst, snd } => {
                append(s, "(");
                fst.write_term(s, book);
                append(s, ", ");
                snd.write_term(s, book);
                append(s, ")");
                assert(final(s)@ =~= old(s)@ + show(self@, book.def_names@.ids));
            },
        }
    }

    /// Appends the textual form of the term in head position.
    fn write_head(&self, s: &mut String, book: &Book)
        requires
            refs_named(self@, book.def_names@.ids),
        ensures
            final(s)@ == old(s)@ + show_head(self@, book.def_names@.ids),
        decreases self, 1nat,
    {
        match self {
            Term::App { tag: None, fun, arg } => {
                fun.write_head(s, book);
                append(s, " ");
                arg.write_term(s, book);
                assert(final(s)@ =~= old(s)@ + show_head(self@, book.def_names@.ids));
            },
            _ => self.write_term(s, book),
        }
    }

    /// The textual form of the term.
    pub fn to_string(&self, book: &Book) -> (r: String)
        requires
            refs_named(self@, book.def_names@.ids),
        ensures
            r@ == show(self@, book.def_names@.ids),
    {
        let mut s = String::new();
        self.write_term(&mut s, book);
        assert(s@ =~= show(self@, book.def_names@.ids));
        s
    }
}

/// The textual form of a rule of the definition with id `def_id`:
/// `(name pats) = body`.
pub open spec fn rule_str(r: Rule, def_id: Val, names: Map<Val, Seq<char>>) -> Seq<char> {
    "("@ + names[def_id] + pats_str(pats_view(r.pats@)) + ") = "@ + show(r.body@, names)
}

/// The rules of a definition, one per line.
pub open spec fn rules_str(rules: Seq<Rule>, def_id: Val, names: Map<Val, Seq<char>>) -> Seq<char>
    decreases rules.len(),
{
    if rules.len() == 0 {
        Seq::empty()
    } else if rules.len() == 1 {
        rule_str(rules[0], def_id, names)
    } else {
        rules_str(rules.subrange(0, rules.len() - 1), def_id, names) + "\n"@ + rule_str(
            rules[rules.len() - 1],
            def_id,
            names,
        )
    }
}

/// The definitions, separated by blank lines.
pub open spec fn defs_str(defs: Seq<Definition>, names: Map<Val, Seq<char>>) -> Seq<char>
    decreases defs.len(),
{
    if defs.len() == 0 {
        Seq::empty()
    } else if defs.len() == 1 {
        rules_str(defs[0].rules@, defs[0].def_id.0, names)
    } else {
        defs_str(defs.subrange(0, defs.len() - 1), names) + "\n\n"@ + rules_str(
            defs[defs.len() - 1].rules@,
            defs[defs.len() - 1].def_id.0,
            names,
        )
    }
}

/// Whether a rule of the definition `def_id` can be shown: the definition
/// and every definition its body refers to have names.
pub open spec fn rule_printable(r: Rule, def_id: Val, names: Map<Val, Seq<char>>) -> bool {
    names.contains_key(def_id) && refs_named(r.body@, names)
}

/// Whether every rule of a definition can be shown.
pub open spec fn def_printable(d: Definition, names: Map<Val, Seq<char>>) -> bool {
    forall|i: int| 0 <= i < d.rules@.len() ==> rule_printable(#[trigger] d.rules@[i], d.def_id.0, names)
}

impl Rule {
    /// The textual form of the rule, as a rule of the definition `def_id`.
    pub fn to_string(&self, def_id: &DefId, book: &Book) -> (r: String)
        requires
            rule_printable(*self, def_id.0, book.def_names@.ids),
        ensures
            r@ == rule_str(*self, def_id.0, book.def_names@.ids),
    {
        let mut s = String::new();
        self.write_rule(&mut s, def_id, book);
        assert(s@ =~= rule_str(*self, def_id.0, book.def_names@.ids));
        s
    }

    fn write_rule(&self, s: &mut String, def_id: &DefId, book: &Book)
        requires
            rule_printable(*self, def_id.0, book.def_names@.ids),
        ensures
            final(s)@ == old(s)@ + rule_str(*self, def_id.0, book.def_names@.ids),
    {
        append(s, "(");
        match book.def_names.name(def_id) {
            Some(n) => append(s, n.0.as_str()),
            None => {},
        }
        write_pats(s, &self.pats);
        append(s, ") = ");
        self.body.write_term(s, book);
        assert(final(s)@ =~= old(s)@ + rule_str(*self, def_id.0, book.def_names@.ids));
    }

    /// The number of patterns of the rule.
    pub fn arity(&self) -> (r: usize)
        ensures
            r == self.pats@.len(),
    {
        self.pats.len()
    }
}

impl Definition {
    fn write_def(&self, s: &mut String, book: &Book)
        requires
            def_printable(*self, book.def_names@.ids),
        ensures
            final(s)@ == old(s)@ + rules_str(self.rules@, self.def_id.0, book.def_names@.ids),
    {
        let ghost start = s@;
        let ghost names = book.def_names@.ids;
        let n = self.rules.len();
        let mut i: usize = 0;
        while i < n
            invariant
                def_printable(*self, names),
                names == book.def_names@.ids,
                n == self.rules@.len(),
                i <= n,
                s@ == start + rules_str(self.rules@.subrange(0, i as int), self.def_id.0, names),
            decreases n - i,
        {
            if i > 0 {
                append(s, "\n");
            }
            assert(rule_printable(self.rules@[i as int], self.def_id.0, names));
            self.rules[i].write_rule(s, &self.def_id, book);
            proof {
                let pre = self.rules@.subrange(0, i + 1);
                assert(pre.subrange(0, i as int) =~= self.rules@.subrange(0, i as int));
                assert(pre[i as int] == self.rules@[i as int]);
                if i == 0 {
                    assert(self.rules@.subrange(0, 0).len() == 0);
                }
                assert(s@ =~= start + rules_str(pre, self.def_id.0, names));
            }
            i = i + 1;
        }
        assert(self.rules@.subrange(0, n as int) =~= self.rules@);
    }

    /// The rules of the definition, one per line.
    pub fn to_string(&self, book: &Book) -> (r: String)
        requires
            def_printable(*self, book.def_names@.ids),
        ensures
            r@ == rules_str(self.rules@, self.def_id.0, book.def_names@.ids),
    {
        let mut s = String::new();
        self.write_def(&mut s, book);
        assert(s@ =~= rules_str(self.rules@, self.def_id.0, book.def_names@.ids));
        s
    }

    /// The number of patterns of the first rule.
    pub fn arity(&self) -> (r: usize)
        requires
            self.rules@.len() > 0,
        ensures
            r == self.rules@[0].pats@.len(),
    {
        self.rules[0].arity()
    }

    /// Pattern matching rules have been removed: the definition has one rule.
    pub fn assert_no_pattern_matching_rules(&self)
        requires
            self.rules@.len() == 1,
    {
    }
}

impl Book {
    /// Whether every definition of the book can be shown.
    pub open spec fn printable(&self) -> bool {
        forall|i: int| 0 <= i < self.defs@.len() ==> def_printable(#[trigger] self.defs@[i], self.def_names@.ids)
    }

    /// The textual form of the program: its definitions, in order of id,
    /// separated by blank lines.
    pub fn show(&self) -> (r: String)
        requires
            self.printable(),
        ensures
            r@ == defs_str(self.defs@, self.def_names@.ids),
    {
        let mut s = String::new();
        let ghost names = self.def_names@.ids;
        let n = self.defs.len();
        let mut i: usize = 0;
        while i < n
            invariant
                self.printable(),
                names == self.def_names@.ids,
                n == self.defs@.len(),
                i <= n,
                s@ == defs_str(self.defs@.subrange(0, i as int), names),
            decreases n - i,
        {
            let ghost before = s@;
            if i > 0 {
                append(&mut s, "\n\n");
            }
            assert(def_printable(self.defs@[i as int], names));
            self.defs[i].write_def(&mut s, self);
            proof {
                let pre = self.defs@.subrange(0, i + 1);
                assert(pre.subrange(0, i as int) =~= self.defs@.subrange(0, i as int));
                assert(pre[i as int] == self.defs@[i as int]);
                if i == 0 {
                    assert(before =~= Seq::<char>::empty());
                }
                assert(s@ =~= defs_str(pre, names));
            }
            i = i + 1;
        }
        assert(self.defs@.subrange(0, n as int) =~= self.defs@);
        s
    }
}

/// The digit a character stands for: the one below 10 whose character it
/// is.
pub open spec fn digit_value(c: char) -> nat {
    choose|d: nat| d < 10 && digit(d) == c
}

/// A numeral read left to right in base 10, most significant digit first.
pub open spec fn numeral_value(s: Seq<char>) -> nat
    decreases s.len(),
{
    if s.len() == 0 {
        0
    } else {
        numeral_value(s.drop_last()) * 10 + digit_value(s.last())
    }
}

/// A digit's character stands for that digit.
pub proof fn lemma_digit_value(d: nat)
    ensures
        digit_value(digit(d)) == d % 10,
{
    let e = digit_value(digit(d));
    assert(d % 10 < 10 && digit(d % 10) == digit(d));
    assert(e < 10 && digit(e) == digit(d));
    assert(e % 10 == d % 10);
}

/// The numeral of a number, read left to right in base 10, is the number;
/// it has at least one digit, each a character of a digit, and no leading
/// zero but for 0 itself.
pub proof fn lemma_decimal_value(n: nat)
    ensures
        numeral_value(decimal(n)) == n,
        decimal(n).len() >= 1,
        forall|i: int| 0 <= i < decimal(n).len() ==> exists|d: nat| d < 10 && #[trigger] decimal(n)[i] == digit(d),
        decimal(n).len() > 1 ==> decimal(n)[0] != digit(0),
    decreases n,
{
    lemma_digit_value(n);
    if n < 10 {
        let s = decimal(n);
        assert(s.drop_last() =~= Seq::<char>::empty());
        assert(s[0] == digit(n % 10));
        assert(numeral_value(s) == numeral_value(s.drop_last()) * 10 + digit_value(s.last()));
        assert(numeral_value(Seq::<char>::empty()) == 0);
    } else {
        lemma_decimal_value(n / 10);
        let p = decimal(n / 10);
        let s = decimal(n);
        assert(s.drop_last() =~= p);
        assert(s.last() == digit(n % 10));
        assert(n == (n / 10) * 10 + n % 10);
        assert(numeral_value(s) == numeral_value(s.drop_last()) * 10 + digit_value(s.last()));
        assert forall|i: int| 0 <= i < s.len() implies exists|d: nat| d < 10 && #[trigger] s[i] == digit(d) by {
            if i < p.len() {
                assert(s[i] == p[i]);
            } else {
                assert(s[i] == digit(n % 10));
            }
        }
        assert(s[0] == p[0]);
        if p.len() == 1 {
            assert(n / 10 < 10) by {
                if n / 10 >= 10 {
                    lemma_decimal_value((n / 10) / 10);
                    assert(p.len() == decimal((n / 10) / 10).len() + 1);
                }
            }
            assert(p[0] == digit(n / 10));
            if digit(n / 10) == digit(0) {
                lemma_digit_value(n / 10);
                lemma_digit_value(0);
            }
        }
    }
}

/// The text of a number is its usual decimal numeral: read left to right
/// in base 10, most significant digit first, it gives back the number; it
/// is made of digits and has no leading zero (12 shows as `12`).
pub proof fn law_show_number(val: u32, names: Map<Val, Seq<char>>)
    ensures
        numeral_value(show(TermV::Num { val }, names)) == val,
        show(TermV::Num { val }, names).len() >= 1,
        forall|i: int|
            0 <= i < show(TermV::Num { val }, names).len() ==> exists|d: nat| d < 10 && #[trigger] show(
                TermV::Num { val },
                names,
            )[i] == digit(d),
        show(TermV::Num { val }, names).len() > 1 ==> show(TermV::Num { val }, names)[0] != digit(0),
{
    lemma_decimal_value(val as nat);
}

} // verus!
