//! The grammar of programs and terms, over tokens.
//!
//! ```text
//! <Book>     ::= <TopLevel>*
//! <TopLevel> ::= <Data> | <Rule>
//! <Data>     ::= "data" <Name> "=" <Ctr> (("|" <Ctr>)+ | <Ctr>*)
//! <Ctr>      ::= <Name> | "(" <Name> <Name>* ")"
//! <Rule>     ::= (<Name> <Pattern>* | "(" <Name> <Pattern>* ")") "=" <Term>
//! <Pattern>  ::= "0" | "+" <NameEra> | <NameEra> | "(" <Name> <Pattern>* ")"
//! <Term>     ::= "$" <Name> | <Name> | <Number>
//!              | "{" <Tag>? <Term> <Term> "}"
//!              | "(" <Term> "," <Term> ")"
//!              | "λ" <Tag>? "$" <Name> <Term>
//!              | "λ" <Tag>? <NameEra> <Term>
//!              | "dup" <Tag>? <NameEra> <NameEra> "=" <Term> ";"? <Term>
//!              | "let" <LetPat> "=" <Term> ";"? <Term>
//!              | "match" <Name> "{" "0" ":" <Term> ";"? "+" ":" <Term> ";"? "}"
//!              | "match" <Term> "{" (<Arm> ";"?)* "}"
//!              | "(" <Op> <Term> <Term> ")"
//!              | "(" <Tag>? <Term> <Term>* ")"
//!              | "*" | <Name>-1
//! <Arm>      ::= (<Pattern> | "+") ":" <Term>
//! <LetPat>   ::= <Name> | "(" <NameEra> "," <NameEra> ")"
//! <NameEra>  ::= <Name> | "*"
//! <Tag>      ::= "#" <Name>
//! ```
//!
//! The alternatives are tried in the order written; the first that parses
//! wins, and repetitions take as many items as parse. Constructors written
//! side by side stop before one that `=` follows, which begins a rule, and
//! before `data <Name> =`, which begins a datatype.
use vstd::prelude::*;
use super::lexer::{lex_from, toks_view, TokV, Token};
use crate::term::display::{append, op_str};
use super::lexer::symbol_token;
use hvmc::run::Val;
use crate::collections::{imap_insert, index_map_insert, index_map_items, index_map_new};
use indexmap::IndexMap;
use crate::term::{lemma_def_names_consistent, pat_view, pats_view, lemma_pats_view, Adt, Book, Definition, DefNamesView, Rule, LetPat, MatchNum, MatchNumV, Name, Op, PatV, LetPatV, RulePat, Term, TermV};

verus! {

/// The token at a position, if there is one.
pub open spec fn tok_at(ts: Seq<TokV>, i: int) -> Option<TokV> {
    if 0 <= i < ts.len() {
        Some(ts[i])
    } else {
        None
    }
}

/// The position after a given token at `i`.
pub open spec fn expect(ts: Seq<TokV>, i: int, t: TokV) -> Option<int> {
    if tok_at(ts, i) == Some(t) {
        Some(i + 1)
    } else {
        None
    }
}

/// A name.
pub open spec fn name_p(ts: Seq<TokV>, i: int) -> Option<(Seq<char>, int)> {
    match tok_at(ts, i) {
        Some(TokV::Name(n)) => Some((n, i + 1)),
        _ => None,
    }
}

/// An optional tag `#name`; none where there is no `#` followed by a name.
pub open spec fn tag_p(ts: Seq<TokV>, i: int) -> (Option<Seq<char>>, int) {
    if tok_at(ts, i) == Some(TokV::Hash) {
        match name_p(ts, i + 1) {
            Some((n, j)) => (Some(n), j),
            None => (None, i),
        }
    } else {
        (None, i)
    }
}

/// A name, or `*` for none.
pub open spec fn name_or_era_p(ts: Seq<TokV>, i: int) -> Option<(Option<Seq<char>>, int)> {
    match tok_at(ts, i) {
        Some(TokV::Asterisk) => Some((None, i + 1)),
        Some(TokV::Name(n)) => Some((Some(n), i + 1)),
        _ => None,
    }
}

/// The operation of an operator token.
pub open spec fn op_of_tok(t: TokV) -> Option<Op> {
    match t {
        TokV::Add => Some(Op::ADD),
        TokV::Sub => Some(Op::SUB),
        TokV::Asterisk => Some(Op::MUL),
        TokV::Div => Some(Op::DIV),
        TokV::Mod => Some(Op::MOD),
        TokV::EqualsEquals => Some(Op::EQ),
        TokV::NotEquals => Some(Op::NE),
        TokV::Ltn => Some(Op::LT),
        TokV::Gtn => Some(Op::GT),
        TokV::And => Some(Op::AND),
        TokV::Or => Some(Op::OR),
        TokV::Xor => Some(Op::XOR),
        TokV::Tilde => Some(Op::NOT),
        TokV::Shl => Some(Op::LSH),
        TokV::Shr => Some(Op::RSH),
        _ => None,
    }
}

/// A numeric operator.
pub open spec fn num_oper_p(ts: Seq<TokV>, i: int) -> Option<(Op, int)> {
    match tok_at(ts, i) {
        Some(t) => match op_of_tok(t) {
            Some(op) => Some((op, i + 1)),
            None => None,
        },
        None => None,
    }
}

/// An optional `;`.
pub open spec fn sep_p(ts: Seq<TokV>, i: int) -> int {
    if tok_at(ts, i) == Some(TokV::Semicolon) {
        i + 1
    } else {
        i
    }
}

/// Whether a parse that started at `i` and ended at `j` consumed tokens.
pub open spec fn advanced(ts: Seq<TokV>, i: int, j: int) -> bool {
    i < j <= ts.len()
}

/// The pattern `*`: a variable pattern named `*`.
pub open spec fn var_pat(n: Option<Seq<char>>) -> PatV {
    match n {
        Some(x) => PatV::Var(x),
        None => PatV::Var("*"@),
    }
}

/// A pattern: `0`, `+` and a name (or `*`), a name (or `*`), or a
/// constructor with its argument patterns in parentheses.
pub open spec fn pattern_p(ts: Seq<TokV>, i: int) -> Option<(PatV, int)>
    decreases ts.len() - i, 0nat,
{
    if i < 0 || i >= ts.len() {
        None
    } else if ts[i] == TokV::Num(0) {
        Some((PatV::Num(MatchNumV::Zero), i + 1))
    } else if ts[i] == TokV::Add && name_or_era_p(ts, i + 1) is Some {
        let (n, j) = name_or_era_p(ts, i + 1).unwrap();
        Some((PatV::Num(MatchNumV::Succ(n)), j))
    } else if name_or_era_p(ts, i) is Some {
        let (n, j) = name_or_era_p(ts, i).unwrap();
        Some((var_pat(n), j))
    } else if ts[i] == TokV::LParen && name_p(ts, i + 1) is Some {
        let (nam, j) = name_p(ts, i + 1).unwrap();
        let (pats, k) = patterns_p(ts, j);
        match expect(ts, k, TokV::RParen) {
            Some(l) => Some((PatV::Ctr(nam, pats), l)),
            None => None,
        }
    } else {
        None
    }
}

/// As many patterns as parse.
pub open spec fn patterns_p(ts: Seq<TokV>, i: int) -> (Seq<PatV>, int)
    decreases ts.len() - i, 1nat,
{
    if i < 0 || i >= ts.len() {
        (Seq::empty(), i)
    } else {
        match pattern_p(ts, i) {
            Some((p, j)) => if advanced(ts, i, j) {
                let (rest, k) = patterns_p(ts, j);
                (seq![p] + rest, k)
            } else {
                (Seq::empty(), i)
            },
            None => (Seq::empty(), i),
        }
    }
}

/// The pattern of a `let`: a name, or a pair of names (or `*`).
pub open spec fn let_pat_p(ts: Seq<TokV>, i: int) -> Option<(LetPatV, int)> {
    match name_p(ts, i) {
        Some((n, j)) => Some((LetPatV::Var(n), j)),
        None => match expect(ts, i, TokV::LParen) {
            None => None,
            Some(j) => match name_or_era_p(ts, j) {
                None => None,
                Some((a, k)) => match expect(ts, k, TokV::Comma) {
                    None => None,
                    Some(l) => match name_or_era_p(ts, l) {
                        None => None,
                        Some((b, m)) => match expect(ts, m, TokV::RParen) {
                            None => None,
                            Some(o) => Some((LetPatV::Tup(a, b), o)),
                        },
                    },
                },
            },
        },
    }
}

/// Two terms in turn, the second after the first.
pub open spec fn term2_p(ts: Seq<TokV>, i: int) -> Option<(TermV, TermV, int)>
    decreases ts.len() - i, 5nat,
{
    match term_p(ts, i) {
        None => None,
        Some((a, j)) => if !advanced(ts, i, j) {
            None
        } else {
            match term_p(ts, j) {
                None => None,
                Some((b, k)) => Some((a, b, k)),
            }
        },
    }
}

/// The applications of `acc` to as many terms as parse, each tagged with
/// `tag`.
pub open spec fn apps_p(ts: Seq<TokV>, i: int, tag: Option<Seq<char>>, acc: TermV) -> (TermV, int)
    decreases ts.len() - i, 5nat,
{
    if i < 0 || i >= ts.len() {
        (acc, i)
    } else {
        match term_p(ts, i) {
            Some((arg, j)) => if advanced(ts, i, j) {
                apps_p(ts, j, tag, TermV::App { tag, fun: Box::new(acc), arg: Box::new(arg) })
            } else {
                (acc, i)
            },
            None => (acc, i),
        }
    }
}

/// The arms of a match: as many `pattern: term` (or `+: term`) as parse,
/// each optionally followed by `;`.
pub open spec fn arms_p(ts: Seq<TokV>, i: int) -> (Seq<(PatV, TermV)>, int)
    decreases ts.len() - i, 1nat,
{
    if i < 0 || i >= ts.len() {
        (Seq::empty(), i)
    } else {
        let pat = match pattern_p(ts, i) {
            Some(r) => Some(r),
            None => if ts[i] == TokV::Add {
                Some((PatV::Num(MatchNumV::Succ(None)), i + 1))
            } else {
                None
            },
        };
        match pat {
            None => (Seq::empty(), i),
            Some((p, j)) => match expect(ts, j, TokV::Colon) {
                None => (Seq::empty(), i),
                Some(k) => if !advanced(ts, i, k) {
                    (Seq::empty(), i)
                } else {
                    match term_p(ts, k) {
                        None => (Seq::empty(), i),
                        Some((body, l)) => if !advanced(ts, k, l) {
                            (Seq::empty(), i)
                        } else {
                            let (rest, m) = arms_p(ts, sep_p(ts, l));
                            (seq![(p, body)] + rest, m)
                        },
                    }
                },
            },
        }
    }
}

/// `{#tag fst snd}`: a superposition; its tag is `auto` where none is given.
pub open spec fn sup_p(ts: Seq<TokV>, i: int) -> Option<(TermV, int)>
    decreases ts.len() - i, 3nat,
{
    match expect(ts, i, TokV::LBracket) {
        None => None,
        Some(j) => {
            let (tag, k) = tag_p(ts, j);
            match term2_p(ts, k) {
                None => None,
                Some((a, b, l)) => match expect(ts, l, TokV::RBracket) {
                    None => None,
                    Some(m) => Some(
                        (
                            TermV::Sup {
                                tag: match tag {
                                    Some(t) => t,
                                    None => "auto"@,
                                },
                                fst: Box::new(a),
                                snd: Box::new(b),
                            },
                            m,
                        ),
                    ),
                },
            }
        },
    }
}

/// `(fst, snd)`: a tuple.
pub open spec fn tup_p(ts: Seq<TokV>, i: int) -> Option<(TermV, int)>
    decreases ts.len() - i, 3nat,
{
    match expect(ts, i, TokV::LParen) {
        None => None,
        Some(j) => match term_p(ts, j) {
            None => None,
            Some((a, k)) => match expect(ts, k, TokV::Comma) {
                None => None,
                Some(l) => if !advanced(ts, i, l) {
                    None
                } else {
                    match term_p(ts, l) {
                        None => None,
                        Some((b, m)) => match expect(ts, m, TokV::RParen) {
                            None => None,
                            Some(n) => Some((TermV::Tup { fst: Box::new(a), snd: Box::new(b) }, n)),
                        },
                    }
                },
            },
        },
    }
}

/// `λ#tag $x body`: a lambda binding a channel; its tag is dropped.
pub open spec fn global_lam_p(ts: Seq<TokV>, i: int) -> Option<(TermV, int)>
    decreases ts.len() - i, 3nat,
{
    match expect(ts, i, TokV::Lambda) {
        None => None,
        Some(j) => {
            let (_tag, k) = tag_p(ts, j);
            match expect(ts, k, TokV::Dollar) {
                None => None,
                Some(l) => match name_p(ts, l) {
                    None => None,
                    Some((nam, m)) => if !advanced(ts, i, m) {
                        None
                    } else {
                        match term_p(ts, m) {
                            None => None,
                            Some((bod, n)) => Some((TermV::Chn { nam, bod: Box::new(bod) }, n)),
                        }
                    },
                },
            }
        },
    }
}

/// `λ#tag x body`: a lambda.
pub open spec fn lam_p(ts: Seq<TokV>, i: int) -> Option<(TermV, int)>
    decreases ts.len() - i, 3nat,
{
    match expect(ts, i, TokV::Lambda) {
        None => None,
        Some(j) => {
            let (tag, k) = tag_p(ts, j);
            match name_or_era_p(ts, k) {
                None => None,
                Some((nam, l)) => if !advanced(ts, i, l) {
                    None
                } else {
                    match term_p(ts, l) {
                        None => None,
                        Some((bod, m)) => Some((TermV::Lam { tag, nam, bod: Box::new(bod) }, m)),
                    }
                },
            }
        },
    }
}

/// `dup #tag a b = val; nxt`.
pub open spec fn dup_p(ts: Seq<TokV>, i: int) -> Option<(TermV, int)>
    decreases ts.len() - i, 3nat,
{
    match expect(ts, i, TokV::Dup) {
        None => None,
        Some(j) => {
            let (tag, k) = tag_p(ts, j);
            match name_or_era_p(ts, k) {
                None => None,
                Some((fst, l)) => match name_or_era_p(ts, l) {
                    None => None,
                    Some((snd, m)) => match expect(ts, m, TokV::Equals) {
                        None => None,
                        Some(n) => if !advanced(ts, i, n) {
                            None
                        } else {
                            match term_p(ts, n) {
                                None => None,
                                Some((val, o)) => {
                                    let p = sep_p(ts, o);
                                    if !advanced(ts, i, p) {
                                        None
                                    } else {
                                        match term_p(ts, p) {
                                            None => None,
                                            Some((nxt, q)) => Some(
                                                (
                                                    TermV::Dup {
                                                        tag,
                                                        fst,
                                                        snd,
                                                        val: Box::new(val),
                                                        nxt: Box::new(nxt),
                                                    },
                                                    q,
                                                ),
                                            ),
                                        }
                                    }
                                },
                            }
                        },
                    },
                },
            }
        },
    }
}

/// `let pat = val; nxt`.
pub open spec fn let_p(ts: Seq<TokV>, i: int) -> Option<(TermV, int)>
    decreases ts.len() - i, 3nat,
{
    match expect(ts, i, TokV::Let) {
        None => None,
        Some(j) => match let_pat_p(ts, j) {
            None => None,
            Some((pat, k)) => match expect(ts, k, TokV::Equals) {
                None => None,
                Some(l) => if !advanced(ts, i, l) {
                    None
                } else {
                    match term_p(ts, l) {
                        None => None,
                        Some((val, m)) => {
                            let n = sep_p(ts, m);
                            if !advanced(ts, i, n) {
                                None
                            } else {
                                match term_p(ts, n) {
                                    None => None,
                                    Some((nxt, o)) => Some(
                                        (TermV::Let { pat, val: Box::new(val), nxt: Box::new(nxt) }, o),
                                    ),
                                }
                            }
                        },
                    }
                },
            },
        },
    }
}

/// `match x { 0: zero; +: succ }`: a match on a number variable.
pub open spec fn native_match_p(ts: Seq<TokV>, i: int) -> Option<(TermV, int)>
    decreases ts.len() - i, 3nat,
{
    match expect(ts, i, TokV::Match) {
        None => None,
        Some(j) => match name_p(ts, j) {
            None => None,
            Some((cond, k)) => match expect(ts, k, TokV::LBracket) {
                None => None,
                Some(l) => match expect(ts, l, TokV::Num(0)) {
                    None => None,
                    Some(m) => match expect(ts, m, TokV::Colon) {
                        None => None,
                        Some(n) => if !advanced(ts, i, n) {
                            None
                        } else {
                            match term_p(ts, n) {
                                None => None,
                                Some((zero, o)) => match expect(ts, sep_p(ts, o), TokV::Add) {
                                    None => None,
                                    Some(p) => match expect(ts, p, TokV::Colon) {
                                        None => None,
                                        Some(q) => if !advanced(ts, i, q) {
                                            None
                                        } else {
                                            match term_p(ts, q) {
                                                None => None,
                                                Some((succ, r)) => match expect(
                                                    ts,
                                                    sep_p(ts, r),
                                                    TokV::RBracket,
                                                ) {
                                                    None => None,
                                                    Some(s) => Some(
                                                        (
                                                            TermV::Match {
                                                                scrutinee: Box::new(TermV::Var { nam: cond }),
                                                                arms: seq![
                                                                    (PatV::Num(MatchNumV::Zero), zero),
                                                                    (PatV::Num(MatchNumV::Succ(None)), succ),
                                                                ],
                                                            },
                                                            s,
                                                        ),
                                                    ),
                                                },
                                            }
                                        },
                                    },
                                },
                            }
                        },
                    },
                },
            },
        },
    }
}

/// `match scrutinee { arms }`.
pub open spec fn match_p(ts: Seq<TokV>, i: int) -> Option<(TermV, int)>
    decreases ts.len() - i, 3nat,
{
    match expect(ts, i, TokV::Match) {
        None => None,
        Some(j) => match term_p(ts, j) {
            None => None,
            Some((scrutinee, k)) => match expect(ts, k, TokV::LBracket) {
                None => None,
                Some(l) => if !advanced(ts, i, l) {
                    None
                } else {
                    let (arms, m) = arms_p(ts, l);
                    match expect(ts, m, TokV::RBracket) {
                        None => None,
                        Some(n) => Some((TermV::Match { scrutinee: Box::new(scrutinee), arms }, n)),
                    }
                },
            },
        },
    }
}

/// `(op fst snd)`: a numeric operation.
pub open spec fn num_op_p(ts: Seq<TokV>, i: int) -> Option<(TermV, int)>
    decreases ts.len() - i, 3nat,
{
    match expect(ts, i, TokV::LParen) {
        None => None,
        Some(j) => match num_oper_p(ts, j) {
            None => None,
            Some((op, k)) => match term2_p(ts, k) {
                None => None,
                Some((a, b, l)) => match expect(ts, l, TokV::RParen) {
                    None => None,
                    Some(m) => Some((TermV::Opx { op, fst: Box::new(a), snd: Box::new(b) }, m)),
                },
            },
        },
    }
}

/// `(#tag f a b …)`: applications, each tagged with the tag.
pub open spec fn app_p(ts: Seq<TokV>, i: int) -> Option<(TermV, int)>
    decreases ts.len() - i, 3nat,
{
    match expect(ts, i, TokV::LParen) {
        None => None,
        Some(j) => {
            let (tag, k) = tag_p(ts, j);
            match term_p(ts, k) {
                None => None,
                Some((fun, l)) => if !advanced(ts, i, l) {
                    None
                } else {
                    let (app, m) = apps_p(ts, l, tag, fun);
                    match expect(ts, m, TokV::RParen) {
                        None => None,
                        Some(n) => Some((app, n)),
                    }
                },
            }
        },
    }
}

/// A term: the first of the alternatives of the grammar that parses.
pub open spec fn term_p(ts: Seq<TokV>, i: int) -> Option<(TermV, int)>
    decreases ts.len() - i, 4nat,
{
    if i < 0 || i >= ts.len() {
        None
    } else {
        match ts[i] {
            TokV::Dollar => match name_p(ts, i + 1) {
                Some((nam, j)) => Some((TermV::Lnk { nam }, j)),
                None => None,
            },
            TokV::Name(nam) => Some((TermV::Var { nam }, i + 1)),
            TokV::Num(val) => Some((TermV::Num { val }, i + 1)),
            TokV::LBracket => sup_p(ts, i),
            TokV::LParen => match tup_p(ts, i) {
                Some(r) => Some(r),
                None => match num_op_p(ts, i) {
                    Some(r) => Some(r),
                    None => app_p(ts, i),
                },
            },
            TokV::Lambda => match global_lam_p(ts, i) {
                Some(r) => Some(r),
                None => lam_p(ts, i),
            },
            TokV::Dup => dup_p(ts, i),
            TokV::Let => let_p(ts, i),
            TokV::Match => match native_match_p(ts, i) {
                Some(r) => Some(r),
                None => match_p(ts, i),
            },
            TokV::Asterisk => Some((TermV::Era, i + 1)),
            TokV::Pred(nam) => Some((TermV::Var { nam }, i + 1)),
            _ => None,
        }
    }
}

/// The left-hand side of a rule: the name and the argument patterns, with
/// or without parentheses around them.
pub open spec fn lhs_p(ts: Seq<TokV>, i: int) -> Option<((Seq<char>, Seq<PatV>), int)> {
    match name_p(ts, i) {
        Some((nam, j)) => {
            let (pats, k) = patterns_p(ts, j);
            Some(((nam, pats), k))
        },
        None => match expect(ts, i, TokV::LParen) {
            None => None,
            Some(j) => match name_p(ts, j) {
                None => None,
                Some((nam, k)) => {
                    let (pats, l) = patterns_p(ts, k);
                    match expect(ts, l, TokV::RParen) {
                        None => None,
                        Some(m) => Some(((nam, pats), m)),
                    }
                },
            },
        },
    }
}

/// A rule: its definition's name, its patterns and its body.
pub open spec fn rule_p(ts: Seq<TokV>, i: int) -> Option<((Seq<char>, Seq<PatV>, TermV), int)> {
    match lhs_p(ts, i) {
        None => None,
        Some(((nam, pats), j)) => match expect(ts, j, TokV::Equals) {
            None => None,
            Some(k) => match term_p(ts, k) {
                None => None,
                Some((body, l)) => Some(((nam, pats, body), l)),
            },
        },
    }
}

/// As many names as parse.
pub open spec fn names_p(ts: Seq<TokV>, i: int) -> (Seq<Seq<char>>, int)
    decreases ts.len() - i,
{
    if i < 0 || i >= ts.len() {
        (Seq::empty(), i)
    } else {
        match name_p(ts, i) {
            Some((n, j)) => {
                let (rest, k) = names_p(ts, j);
                (seq![n] + rest, k)
            },
            None => (Seq::empty(), i),
        }
    }
}

/// A constructor of a datatype: a name alone, or a name and its field
/// names in parentheses.
pub open spec fn ctr_p(ts: Seq<TokV>, i: int) -> Option<((Seq<char>, Seq<Seq<char>>), int)> {
    match name_p(ts, i) {
        Some((n, j)) => Some(((n, Seq::empty()), j)),
        None => match expect(ts, i, TokV::LParen) {
            None => None,
            Some(j) => match name_p(ts, j) {
                None => None,
                Some((n, k)) => {
                    let (fields, l) = names_p(ts, k);
                    match expect(ts, l, TokV::RParen) {
                        None => None,
                        Some(m) => Some(((n, fields), m)),
                    }
                },
            },
        },
    }
}

/// The constructors after the first: as many `| ctr` as parse.
pub open spec fn more_ctrs_p(ts: Seq<TokV>, i: int) -> (Seq<(Seq<char>, Seq<Seq<char>>)>, int)
    decreases ts.len() - i,
{
    if i < 0 || i >= ts.len() {
        (Seq::empty(), i)
    } else {
        match expect(ts, i, TokV::Or) {
            None => (Seq::empty(), i),
            Some(j) => match ctr_p(ts, j) {
                None => (Seq::empty(), i),
                Some((c, k)) => if !advanced(ts, i, k) {
                    (Seq::empty(), i)
                } else {
                    let (rest, l) = more_ctrs_p(ts, k);
                    (seq![c] + rest, l)
                },
            },
        }
    }
}

/// Whether a datatype begins at `i`: `data`, a name and `=`.
pub open spec fn data_head(ts: Seq<TokV>, i: int) -> bool {
    match name_p(ts, i) {
        Some((kw, j)) => kw == "data"@ && match name_p(ts, j) {
            Some((_n, k)) => expect(ts, k, TokV::Equals) is Some,
            None => false,
        },
        None => false,
    }
}

/// The constructors after the first, written side by side: as many as
/// parse, up to one that `=` follows or where a datatype begins.
pub open spec fn side_ctrs_p(ts: Seq<TokV>, i: int) -> (Seq<(Seq<char>, Seq<Seq<char>>)>, int)
    decreases ts.len() - i,
{
    if i < 0 || i >= ts.len() {
        (Seq::empty(), i)
    } else {
        match ctr_p(ts, i) {
            None => (Seq::empty(), i),
            Some((c, k)) => if !advanced(ts, i, k) || expect(ts, k, TokV::Equals) is Some || data_head(ts, i) {
                (Seq::empty(), i)
            } else {
                let (rest, l) = side_ctrs_p(ts, k);
                (seq![c] + rest, l)
            },
        }
    }
}

/// The constructors of a datatype: separated by `|` where a `|` follows
/// the first, else side by side; none where no constructor parses.
pub open spec fn ctrs_p(ts: Seq<TokV>, i: int) -> (Seq<(Seq<char>, Seq<Seq<char>>)>, int) {
    match ctr_p(ts, i) {
        None => (Seq::empty(), i),
        Some((c, j)) => {
            let (rest, k) = if expect(ts, j, TokV::Or) is Some {
                more_ctrs_p(ts, j)
            } else {
                side_ctrs_p(ts, j)
            };
            (seq![c] + rest, k)
        },
    }
}

/// The constructor table of a datatype, as `IndexMap` collects it from the
/// constructors in order: a repeated name keeps its first place and takes
/// the last fields.
pub open spec fn ctrs_of_pairs(pairs: Seq<(Seq<char>, Seq<Seq<char>>)>) -> Seq<(Seq<char>, Seq<Seq<char>>)>
    decreases pairs.len(),
{
    if pairs.len() == 0 {
        Seq::empty()
    } else {
        imap_insert(ctrs_of_pairs(pairs.drop_last()), pairs.last().0, pairs.last().1)
    }
}

/// A datatype: `data`, its name, `=` and its constructors.
pub open spec fn datatype_p(ts: Seq<TokV>, i: int) -> Option<((Seq<char>, Seq<(Seq<char>, Seq<Seq<char>>)>), int)> {
    match name_p(ts, i) {
        Some((kw, j)) => if kw != "data"@ {
            None
        } else {
            match name_p(ts, j) {
                None => None,
                Some((nam, k)) => match expect(ts, k, TokV::Equals) {
                    None => None,
                    Some(l) => {
                        let (ctrs, m) = ctrs_p(ts, l);
                        if ctrs.len() == 0 {
                            None
                        } else {
                            Some(((nam, ctrs_of_pairs(ctrs)), m))
                        }
                    },
                },
            }
        },
        None => None,
    }
}

/// A top-level item of a program.
pub enum TopV {
    Rule(Seq<char>, Seq<PatV>, TermV),
    Data(Seq<char>, Seq<(Seq<char>, Seq<Seq<char>>)>),
}

/// A top-level item: a datatype, else a rule.
pub open spec fn top_level_p(ts: Seq<TokV>, i: int) -> Option<(TopV, int)> {
    match datatype_p(ts, i) {
        Some(((nam, ctrs), j)) => Some((TopV::Data(nam, ctrs), j)),
        None => match rule_p(ts, i) {
            Some(((nam, pats, body), j)) => Some((TopV::Rule(nam, pats, body), j)),
            None => None,
        },
    }
}

/// As many top-level items as parse.
pub open spec fn top_levels_p(ts: Seq<TokV>, i: int) -> (Seq<TopV>, int)
    decreases ts.len() - i,
{
    if i < 0 || i >= ts.len() {
        (Seq::empty(), i)
    } else {
        match top_level_p(ts, i) {
            Some((t, j)) => if advanced(ts, i, j) {
                let (rest, k) = top_levels_p(ts, j);
                (seq![t] + rest, k)
            } else {
                (Seq::empty(), i)
            },
            None => (Seq::empty(), i),
        }
    }
}

/// Whether two tokens are the same.
fn tok_eq(a: &Token, b: &Token) -> (r: bool)
    ensures
        r == (a@ == b@),
{
    match (a, b) {
        (Token::Name(x), Token::Name(y)) => *x == *y,
        (Token::Pred(x), Token::Pred(y)) => *x == *y,
        (Token::Num(x), Token::Num(y)) => *x == *y,
        (Token::Lambda, Token::Lambda) => true,
        (Token::Dollar, Token::Dollar) => true,
        (Token::Hash, Token::Hash) => true,
        (Token::Asterisk, Token::Asterisk) => true,
        (Token::Add, Token::Add) => true,
        (Token::Sub, Token::Sub) => true,
        (Token::Div, Token::Div) => true,
        (Token::Mod, Token::Mod) => true,
        (Token::EqualsEquals, Token::EqualsEquals) => true,
        (Token::NotEquals, Token::NotEquals) => true,
        (Token::Ltn, Token::Ltn) => true,
        (Token::Gtn, Token::Gtn) => true,
        (Token::Lte, Token::Lte) => true,
        (Token::Gte, Token::Gte) => true,
        (Token::And, Token::And) => true,
        (Token::Or, Token::Or) => true,
        (Token::Xor, Token::Xor) => true,
        (Token::Tilde, Token::Tilde) => true,
        (Token::Shl, Token::Shl) => true,
        (Token::Shr, Token::Shr) => true,
        (Token::LBracket, Token::LBracket) => true,
        (Token::RBracket, Token::RBracket) => true,
        (Token::LParen, Token::LParen) => true,
        (Token::RParen, Token::RParen) => true,
        (Token::Comma, Token::Comma) => true,
        (Token::Semicolon, Token::Semicolon) => true,
        (Token::Colon, Token::Colon) => true,
        (Token::Equals, Token::Equals) => true,
        (Token::Dup, Token::Dup) => true,
        (Token::Let, Token::Let) => true,
        (Token::Match, Token::Match) => true,
        _ => false,
    }
}

/// The position after a given token at `i`, as `expect` says.
fn expect_exec(ts: &Vec<Token>, i: usize, want: Token) -> (r: Option<usize>)
    ensures
        match r {
            Some(j) => expect(toks_view(ts@), i as int, want@) == Some(j as int),
            None => expect(toks_view(ts@), i as int, want@) is None,
        },
{
    let n = ts.len();
    if i < n && tok_eq(&ts[i], &want) {
        Some(i + 1)
    } else {
        None
    }
}

/// A name, as `name_p` says.
fn name(ts: &Vec<Token>, i: usize) -> (r: Option<(Name, usize)>)
    ensures
        match r {
            Some((n, j)) => name_p(toks_view(ts@), i as int) == Some((n@, j as int)),
            None => name_p(toks_view(ts@), i as int) is None,
        },
{
    let n = ts.len();
    if i < n {
        match &ts[i] {
            Token::Name(s) => Some((Name(s.clone()), i + 1)),
            _ => None,
        }
    } else {
        None
    }
}

/// An optional tag, as `tag_p` says.
fn tag(ts: &Vec<Token>, i: usize) -> (r: (Option<Name>, usize))
    ensures
        (crate::term::opt_name(r.0), r.1 as int) == tag_p(toks_view(ts@), i as int),
{
    match expect_exec(ts, i, Token::Hash) {
        Some(j) => match name(ts, j) {
            Some((n, k)) => (Some(n), k),
            None => (None, i),
        },
        None => (None, i),
    }
}

/// A name or `*`, as `name_or_era_p` says.
fn name_or_era(ts: &Vec<Token>, i: usize) -> (r: Option<(Option<Name>, usize)>)
    ensures
        match r {
            Some((n, j)) => name_or_era_p(toks_view(ts@), i as int) == Some((crate::term::opt_name(n), j as int)),
            None => name_or_era_p(toks_view(ts@), i as int) is None,
        },
{
    let n = ts.len();
    if i < n {
        match &ts[i] {
            Token::Asterisk => Some((None, i + 1)),
            Token::Name(s) => Some((Some(Name(s.clone())), i + 1)),
            _ => None,
        }
    } else {
        None
    }
}

/// A numeric operator, as `num_oper_p` says.
fn num_oper(ts: &Vec<Token>, i: usize) -> (r: Option<(Op, usize)>)
    ensures
        match r {
            Some((op, j)) => num_oper_p(toks_view(ts@), i as int) == Some((op, j as int)),
            None => num_oper_p(toks_view(ts@), i as int) is None,
        },
{
    let n = ts.len();
    if i >= n {
        return None;
    }
    let op = match &ts[i] {
        Token::Add => Op::ADD,
        Token::Sub => Op::SUB,
        Token::Asterisk => Op::MUL,
        Token::Div => Op::DIV,
        Token::Mod => Op::MOD,
        Token::EqualsEquals => Op::EQ,
        Token::NotEquals => Op::NE,
        Token::Ltn => Op::LT,
        Token::Gtn => Op::GT,
        Token::And => Op::AND,
        Token::Or => Op::OR,
        Token::Xor => Op::XOR,
        Token::Tilde => Op::NOT,
        Token::Shl => Op::LSH,
        Token::Shr => Op::RSH,
        _ => {
            return None;
        },
    };
    Some((op, i + 1))
}

/// An optional `;`, as `sep_p` says.
fn sep(ts: &Vec<Token>, i: usize) -> (r: usize)
    ensures
        r as int == sep_p(toks_view(ts@), i as int),
{
    match expect_exec(ts, i, Token::Semicolon) {
        Some(j) => j,
        None => i,
    }
}

/// The models of an optional pattern parse.
pub open spec fn opt_pat(r: Option<(RulePat, usize)>) -> Option<(PatV, int)> {
    match r {
        Some((p, j)) => Some((pat_view(p), j as int)),
        None => None,
    }
}

/// A pattern, as `pattern_p` says.
fn pattern(ts: &Vec<Token>, i: usize) -> (r: Option<(RulePat, usize)>)
    ensures
        opt_pat(r) == pattern_p(toks_view(ts@), i as int),
    decreases ts@.len() - i, 0nat,
{
    let ghost tv = toks_view(ts@);
    let n = ts.len();
    if i >= n {
        return None;
    }
    if tok_eq(&ts[i], &Token::Num(0)) {
        return Some((RulePat::Num(MatchNum::Zero), i + 1));
    }
    if tok_eq(&ts[i], &Token::Add) {
        match name_or_era(ts, i + 1) {
            Some((nam, j)) => {
                return Some((RulePat::Num(MatchNum::Succ(nam)), j));
            },
            None => {},
        }
    }
    match name_or_era(ts, i) {
        Some((nam, j)) => {
            let p = match nam {
                Some(x) => RulePat::Var(x),
                None => RulePat::Var(Name::new("*")),
            };
            return Some((p, j));
        },
        None => {},
    }
    if tok_eq(&ts[i], &Token::LParen) {
        match name(ts, i + 1) {
            Some((nam, j)) => {
                let (pats, k) = patterns(ts, j);
                match expect_exec(ts, k, Token::RParen) {
                    Some(l) => {
                        return Some((RulePat::Ctr(nam, pats), l));
                    },
                    None => {
                        return None;
                    },
                }
            },
            None => {},
        }
    }
    None
}

/// As many patterns as parse, as `patterns_p` says.
fn patterns(ts: &Vec<Token>, i: usize) -> (r: (Vec<RulePat>, usize))
    ensures
        (pats_view(r.0@), r.1 as int) == patterns_p(toks_view(ts@), i as int),
    decreases ts@.len() - i, 1nat,
{
    let n = ts.len();
    if i >= n {
        proof {
            assert(pats_view(Seq::<RulePat>::empty()) =~= Seq::<PatV>::empty());
        }
        return (Vec::new(), i);
    }
    match pattern(ts, i) {
        Some((p, j)) => {
            if i < j && j <= n {
                let (mut rest, k) = patterns(ts, j);
                let ghost before = rest@;
                let ghost pv = pat_view(p);
                rest.insert(0, p);
                proof {
                    lemma_pats_view(rest@);
                    lemma_pats_view(before);
                    assert(pats_view(rest@) =~= seq![pv] + pats_view(before));
                }
                (rest, k)
            } else {
                proof {
                    assert(pats_view(Seq::<RulePat>::empty()) =~= Seq::<PatV>::empty());
                }
                (Vec::new(), i)
            }
        },
        None => {
            proof {
                assert(pats_view(Seq::<RulePat>::empty()) =~= Seq::<PatV>::empty());
            }
            (Vec::new(), i)
        },
    }
}

/// The model of an optional term parse.
pub open spec fn opt_term(r: Option<(Term, usize)>) -> Option<(TermV, int)> {
    match r {
        Some((t, j)) => Some((t@, j as int)),
        None => None,
    }
}

/// The pattern of a `let`, as `let_pat_p` says.
fn let_pat(ts: &Vec<Token>, i: usize) -> (r: Option<(LetPat, usize)>)
    ensures
        match r {
            Some((p, j)) => let_pat_p(toks_view(ts@), i as int) == Some((p@, j as int)),
            None => let_pat_p(toks_view(ts@), i as int) is None,
        },
{
    match name(ts, i) {
        Some((n, j)) => Some((LetPat::Var(n), j)),
        None => {
            let j = expect_exec(ts, i, Token::LParen)?;
            let (a, k) = name_or_era(ts, j)?;
            let l = expect_exec(ts, k, Token::Comma)?;
            let (b, m) = name_or_era(ts, l)?;
            let o = expect_exec(ts, m, Token::RParen)?;
            Some((LetPat::Tup(a, b), o))
        },
    }
}

/// Two terms in turn, as `term2_p` says.
fn term2(ts: &Vec<Token>, i: usize) -> (r: Option<(Term, Term, usize)>)
    ensures
        match r {
            Some((a, b, k)) => term2_p(toks_view(ts@), i as int) == Some((a@, b@, k as int)),
            None => term2_p(toks_view(ts@), i as int) is None,
        },
    decreases ts@.len() - i, 5nat,
{
    let n = ts.len();
    let (a, j) = term(ts, i)?;
    if !(i < j && j <= n) {
        return None;
    }
    let (b, k) = term(ts, j)?;
    Some((a, b, k))
}

/// Applications of `acc` to as many terms as parse, as `apps_p` says.
fn apps(ts: &Vec<Token>, i: usize, tag: &Option<Name>, acc: Term) -> (r: (Term, usize))
    ensures
        (r.0@, r.1 as int) == apps_p(toks_view(ts@), i as int, crate::term::opt_name(*tag), acc@),
    decreases ts@.len() - i, 5nat,
{
    let n = ts.len();
    if i >= n {
        return (acc, i);
    }
    match term(ts, i) {
        Some((arg, j)) => {
            if i < j && j <= n {
                let app = Term::App { tag: crate::term::clone_opt_name(tag), fun: Box::new(acc), arg: Box::new(arg) };
                apps(ts, j, tag, app)
            } else {
                (acc, i)
            }
        },
        None => (acc, i),
    }
}

/// The arms of a match, as `arms_p` says.
#[verifier::rlimit(40)]
fn arms(ts: &Vec<Token>, i: usize) -> (r: (Vec<(RulePat, Term)>, usize))
    ensures
        (crate::term::arms_view(r.0@), r.1 as int) == arms_p(toks_view(ts@), i as int),
    decreases ts@.len() - i, 1nat,
{
    let n = ts.len();
    proof {
        assert(crate::term::arms_view(Seq::<(RulePat, Term)>::empty()) =~= Seq::<(PatV, TermV)>::empty());
    }
    if i >= n {
        return (Vec::new(), i);
    }
    let pat = match pattern(ts, i) {
        Some(r) => Some(r),
        None => if tok_eq(&ts[i], &Token::Add) {
            Some((RulePat::Num(MatchNum::Succ(None)), i + 1))
        } else {
            None
        },
    };
    let (p, j) = match pat {
        Some(x) => x,
        None => {
            return (Vec::new(), i);
        },
    };
    let k = match expect_exec(ts, j, Token::Colon) {
        Some(k) => k,
        None => {
            return (Vec::new(), i);
        },
    };
    if !(i < k && k <= n) {
        return (Vec::new(), i);
    }
    let (body, l) = match term(ts, k) {
        Some(x) => x,
        None => {
            return (Vec::new(), i);
        },
    };
    if !(k < l && l <= n) {
        return (Vec::new(), i);
    }
    let s = sep(ts, l);
    let (mut rest, m) = arms(ts, s);
    let ghost before = rest@;
    let ghost arm_v = (pat_view(p), body@);
    rest.insert(0, (p, body));
    proof {
        crate::term::lemma_arms_view(rest@);
        crate::term::lemma_arms_view(before);
        assert(crate::term::arms_view(rest@) =~= seq![arm_v] + crate::term::arms_view(before));
    }
    (rest, m)
}

/// A superposition, as `sup_p` says.
fn sup(ts: &Vec<Token>, i: usize) -> (r: Option<(Term, usize)>)
    ensures
        opt_term(r) == sup_p(toks_view(ts@), i as int),
    decreases ts@.len() - i, 3nat,
{
    let j = expect_exec(ts, i, Token::LBracket)?;
    let (tag, k) = tag(ts, j);
    let (a, b, l) = term2(ts, k)?;
    let m = expect_exec(ts, l, Token::RBracket)?;
    let tag = match tag {
        Some(t) => t,
        None => Name::new("auto"),
    };
    Some((Term::Sup { tag, fst: Box::new(a), snd: Box::new(b) }, m))
}

/// A tuple, as `tup_p` says.
fn tup(ts: &Vec<Token>, i: usize) -> (r: Option<(Term, usize)>)
    ensures
        opt_term(r) == tup_p(toks_view(ts@), i as int),
    decreases ts@.len() - i, 3nat,
{
    let n = ts.len();
    let j = expect_exec(ts, i, Token::LParen)?;
    let (a, k) = term(ts, j)?;
    let l = expect_exec(ts, k, Token::Comma)?;
    if !(i < l && l <= n) {
        return None;
    }
    let (b, m) = term(ts, l)?;
    let o = expect_exec(ts, m, Token::RParen)?;
    Some((Term::Tup { fst: Box::new(a), snd: Box::new(b) }, o))
}

/// A lambda binding a channel, as `global_lam_p` says.
fn global_lam(ts: &Vec<Token>, i: usize) -> (r: Option<(Term, usize)>)
    ensures
        opt_term(r) == global_lam_p(toks_view(ts@), i as int),
    decreases ts@.len() - i, 3nat,
{
    let n = ts.len();
    let j = expect_exec(ts, i, Token::Lambda)?;
    let (_tag, k) = tag(ts, j);
    let l = expect_exec(ts, k, Token::Dollar)?;
    let (nam, m) = name(ts, l)?;
    if !(i < m && m <= n) {
        return None;
    }
    let (bod, o) = term(ts, m)?;
    Some((Term::Chn { nam, bod: Box::new(bod) }, o))
}

/// A lambda, as `lam_p` says.
fn lam(ts: &Vec<Token>, i: usize) -> (r: Option<(Term, usize)>)
    ensures
        opt_term(r) == lam_p(toks_view(ts@), i as int),
    decreases ts@.len() - i, 3nat,
{
    let n = ts.len();
    let j = expect_exec(ts, i, Token::Lambda)?;
    let (tag, k) = tag(ts, j);
    let (nam, l) = name_or_era(ts, k)?;
    if !(i < l && l <= n) {
        return None;
    }
    let (bod, m) = term(ts, l)?;
    Some((Term::Lam { tag, nam, bod: Box::new(bod) }, m))
}

/// A duplication, as `dup_p` says.
fn dup(ts: &Vec<Token>, i: usize) -> (r: Option<(Term, usize)>)
    ensures
        opt_term(r) == dup_p(toks_view(ts@), i as int),
    decreases ts@.len() - i, 3nat,
{
    let n = ts.len();
    let j = expect_exec(ts, i, Token::Dup)?;
    let (tag, k) = tag(ts, j);
    let (fst, l) = name_or_era(ts, k)?;
    let (snd, m) = name_or_era(ts, l)?;
    let o = expect_exec(ts, m, Token::Equals)?;
    if !(i < o && o <= n) {
        return None;
    }
    let (val, p) = term(ts, o)?;
    let q = sep(ts, p);
    if !(i < q && q <= n) {
        return None;
    }
    let (nxt, t) = term(ts, q)?;
    Some((Term::Dup { tag, fst, snd, val: Box::new(val), nxt: Box::new(nxt) }, t))
}

/// A `let`, as `let_p` says.
fn let_(ts: &Vec<Token>, i: usize) -> (r: Option<(Term, usize)>)
    ensures
        opt_term(r) == let_p(toks_view(ts@), i as int),
    decreases ts@.len() - i, 3nat,
{
    let n = ts.len();
    let j = expect_exec(ts, i, Token::Let)?;
    let (pat, k) = let_pat(ts, j)?;
    let l = expect_exec(ts, k, Token::Equals)?;
    if !(i < l && l <= n) {
        return None;
    }
    let (val, m) = term(ts, l)?;
    let o = sep(ts, m);
    if !(i < o && o <= n) {
        return None;
    }
    let (nxt, p) = term(ts, o)?;
    Some((Term::Let { pat, val: Box::new(val), nxt: Box::new(nxt) }, p))
}

/// A match on a number variable, as `native_match_p` says.
fn native_match(ts: &Vec<Token>, i: usize) -> (r: Option<(Term, usize)>)
    ensures
        opt_term(r) == native_match_p(toks_view(ts@), i as int),
    decreases ts@.len() - i, 3nat,
{
    let n = ts.len();
    let j = expect_exec(ts, i, Token::Match)?;
    let (cond, k) = name(ts, j)?;
    let l = expect_exec(ts, k, Token::LBracket)?;
    let m = expect_exec(ts, l, Token::Num(0))?;
    let o = expect_exec(ts, m, Token::Colon)?;
    if !(i < o && o <= n) {
        return None;
    }
    let (zero, p) = term(ts, o)?;
    let q = expect_exec(ts, sep(ts, p), Token::Add)?;
    let t = expect_exec(ts, q, Token::Colon)?;
    if !(i < t && t <= n) {
        return None;
    }
    let (succ, u) = term(ts, t)?;
    let v = expect_exec(ts, sep(ts, u), Token::RBracket)?;
    let m = Term::new_native_match(Term::Var { nam: cond }, zero, None, succ);
    Some((m, v))
}

/// A match, as `match_p` says.
fn match_(ts: &Vec<Token>, i: usize) -> (r: Option<(Term, usize)>)
    ensures
        opt_term(r) == match_p(toks_view(ts@), i as int),
    decreases ts@.len() - i, 3nat,
{
    let n = ts.len();
    let j = expect_exec(ts, i, Token::Match)?;
    let (scrutinee, k) = term(ts, j)?;
    let l = expect_exec(ts, k, Token::LBracket)?;
    if !(i < l && l <= n) {
        return None;
    }
    let (arms, m) = arms(ts, l);
    let o = expect_exec(ts, m, Token::RBracket)?;
    Some((Term::Match { scrutinee: Box::new(scrutinee), arms }, o))
}

/// A numeric operation, as `num_op_p` says.
fn num_op(ts: &Vec<Token>, i: usize) -> (r: Option<(Term, usize)>)
    ensures
        opt_term(r) == num_op_p(toks_view(ts@), i as int),
    decreases ts@.len() - i, 3nat,
{
    let j = expect_exec(ts, i, Token::LParen)?;
    let (op, k) = num_oper(ts, j)?;
    let (a, b, l) = term2(ts, k)?;
    let m = expect_exec(ts, l, Token::RParen)?;
    Some((Term::Opx { op, fst: Box::new(a), snd: Box::new(b) }, m))
}

/// Applications, as `app_p` says.
fn app(ts: &Vec<Token>, i: usize) -> (r: Option<(Term, usize)>)
    ensures
        opt_term(r) == app_p(toks_view(ts@), i as int),
    decreases ts@.len() - i, 3nat,
{
    let n = ts.len();
    let j = expect_exec(ts, i, Token::LParen)?;
    let (tag, k) = tag(ts, j);
    let (fun, l) = term(ts, k)?;
    if !(i < l && l <= n) {
        return None;
    }
    let (app, m) = apps(ts, l, &tag, fun);
    let o = expect_exec(ts, m, Token::RParen)?;
    Some((app, o))
}

/// A term, as `term_p` says.
#[verifier::rlimit(40)]
fn term(ts: &Vec<Token>, i: usize) -> (r: Option<(Term, usize)>)
    ensures
        opt_term(r) == term_p(toks_view(ts@), i as int),
    decreases ts@.len() - i, 4nat,
{
    let n = ts.len();
    if i >= n {
        return None;
    }
    match &ts[i] {
        Token::Dollar => match name(ts, i + 1) {
            Some((nam, j)) => Some((Term::Lnk { nam }, j)),
            None => None,
        },
        Token::Name(s) => Some((Term::Var { nam: Name(s.clone()) }, i + 1)),
        Token::Num(v) => Some((Term::Num { val: *v }, i + 1)),
        Token::LBracket => sup(ts, i),
        Token::LParen => match tup(ts, i) {
            Some(r) => Some(r),
            None => match num_op(ts, i) {
                Some(r) => Some(r),
                None => app(ts, i),
            },
        },
        Token::Lambda => match global_lam(ts, i) {
            Some(r) => Some(r),
            None => lam(ts, i),
        },
        Token::Dup => dup(ts, i),
        Token::Let => let_(ts, i),
        Token::Match => match native_match(ts, i) {
            Some(r) => Some(r),
            None => match_(ts, i),
        },
        Token::Asterisk => Some((Term::Era, i + 1)),
        Token::Pred(s) => Some((Term::Var { nam: Name(s.clone()) }, i + 1)),
        _ => None,
    }
}

/// What a program holds: its definition names, its definitions (each id
/// with its rules' patterns and bodies), its datatypes (each with its
/// constructor table) and its constructors (each with its datatype).
pub struct BookModel {
    pub names: DefNamesView,
    pub defs: Seq<(Val, Seq<(Seq<PatV>, TermV)>)>,
    pub adts: Seq<(Seq<char>, Seq<(Seq<char>, Seq<Seq<char>>)>)>,
    pub ctrs: Seq<(Seq<char>, Seq<char>)>,
}

/// The rules of a definition, as patterns and bodies.
pub open spec fn rules_model(rs: Seq<Rule>) -> Seq<(Seq<PatV>, TermV)> {
    rs.map_values(|r: Rule| (pats_view(r.pats@), r.body@))
}

/// What a book holds.
pub open spec fn book_model(b: Book) -> BookModel {
    BookModel {
        names: b.def_names@,
        defs: b.defs@.map_values(|d: Definition| (d.def_id.0, rules_model(d.rules@))),
        adts: b.adts@.map_values(|a: (Name, Adt)| (a.0@, index_map_items(a.1.ctrs))),
        ctrs: b.ctrs@.map_values(|c: (Name, Name)| (c.0@, c.1@)),
    }
}

/// An empty program.
pub open spec fn empty_model() -> BookModel {
    BookModel {
        names: DefNamesView { ids: Map::empty(), names: Map::empty(), count: 0 },
        defs: Seq::empty(),
        adts: Seq::empty(),
        ctrs: Seq::empty(),
    }
}

/// The message for a datatype defined twice.
pub open spec fn repeated_datatype_msg(nam: Seq<char>) -> Seq<char> {
    "Repeated datatype '"@ + nam + "'"@
}

/// The message for a constructor defined twice; it names the datatype
/// being added.
pub open spec fn repeated_ctr_msg(nam: Seq<char>) -> Seq<char> {
    "Repeated constructor '"@ + nam + "'"@
}

/// Adds the constructors of the datatype `nam`, in order; an error where one
/// is already a constructor.
pub open spec fn add_ctrs_v(b: BookModel, nam: Seq<char>, items: Seq<(Seq<char>, Seq<Seq<char>>)>) -> Result<
    BookModel,
    Seq<char>,
>
    decreases items.len(),
{
    if items.len() == 0 {
        Ok(b)
    } else if exists|k: int| 0 <= k < b.ctrs.len() && (#[trigger] b.ctrs[k]).0 == items[0].0 {
        Err(repeated_ctr_msg(nam))
    } else {
        add_ctrs_v(
            BookModel { ctrs: b.ctrs.push((items[0].0, nam)), ..b },
            nam,
            items.subrange(1, items.len() as int),
        )
    }
}

/// Adds a top-level item: a rule joins the definition of its name, which
/// is created where there is none; a datatype is added with its
/// constructors, an error where its name or one of its constructors is
/// already taken.
pub open spec fn add_top_v(b: BookModel, top: TopV) -> Result<BookModel, Seq<char>> {
    match top {
        TopV::Rule(nam, pats, body) => if b.names.names.contains_key(nam) {
            let k = b.names.names[nam] as int;
            Ok(BookModel { defs: b.defs.update(k, (b.defs[k].0, b.defs[k].1.push((pats, body)))), ..b })
        } else {
            Ok(
                BookModel {
                    names: b.names.insert_name(nam),
                    defs: b.defs.push((b.names.count, seq![(pats, body)])),
                    ..b
                },
            )
        },
        TopV::Data(nam, items) => if exists|k: int| 0 <= k < b.adts.len() && (#[trigger] b.adts[k]).0 == nam {
            Err(repeated_datatype_msg(nam))
        } else {
            add_ctrs_v(BookModel { adts: b.adts.push((nam, items)), ..b }, nam, items)
        },
    }
}

/// Adds the top-level items in order.
pub open spec fn build_v(b: BookModel, tops: Seq<TopV>) -> Result<BookModel, Seq<char>>
    decreases tops.len(),
{
    if tops.len() == 0 {
        Ok(b)
    } else {
        match add_top_v(b, tops[0]) {
            Err(e) => Err(e),
            Ok(b1) => build_v(b1, tops.subrange(1, tops.len() as int)),
        }
    }
}

/// Whether every top-level item is a rule.
pub open spec fn all_rules(tops: Seq<TopV>) -> bool {
    forall|i: int| 0 <= i < tops.len() ==> #[trigger] tops[i] is Rule
}

/// The name of a top-level item.
pub open spec fn top_name(t: TopV) -> Seq<char> {
    match t {
        TopV::Rule(n, _, _) => n,
        TopV::Data(n, _) => n,
    }
}

/// The names of the items, each once, in the order they first appear.
pub open spec fn rule_names(tops: Seq<TopV>) -> Seq<Seq<char>>
    decreases tops.len(),
{
    if tops.len() == 0 {
        Seq::empty()
    } else {
        let p = rule_names(tops.drop_last());
        let n = top_name(tops.last());
        if p.contains(n) {
            p
        } else {
            p.push(n)
        }
    }
}

/// The rules with a name, in the order they appear, as patterns and body.
pub open spec fn rules_named(tops: Seq<TopV>, n: Seq<char>) -> Seq<(Seq<PatV>, TermV)>
    decreases tops.len(),
{
    if tops.len() == 0 {
        Seq::empty()
    } else {
        let p = rules_named(tops.drop_last(), n);
        match tops.last() {
            TopV::Rule(m, pats, body) => if m == n {
                p.push((pats, body))
            } else {
                p
            },
            TopV::Data(..) => p,
        }
    }
}

/// Adding one more item after others is adding it to what they built.
pub proof fn lemma_build_push(b: BookModel, tops: Seq<TopV>, x: TopV)
    ensures
        build_v(b, tops.push(x)) == match build_v(b, tops) {
            Ok(b1) => add_top_v(b1, x),
            Err(e) => Err(e),
        },
    decreases tops.len(),
{
    let t2 = tops.push(x);
    if tops.len() == 0 {
        assert(t2[0] == x);
        assert(t2.subrange(1, 1) =~= Seq::<TopV>::empty());
        match add_top_v(b, x) {
            Ok(b1) => assert(build_v(b1, Seq::<TopV>::empty()) == Ok::<BookModel, Seq<char>>(b1)),
            Err(_) => {},
        }
    } else {
        assert(t2[0] == tops[0]);
        assert(t2.subrange(1, t2.len() as int) =~= tops.subrange(1, tops.len() as int).push(x));
        match add_top_v(b, tops[0]) {
            Ok(b1) => lemma_build_push(b1, tops.subrange(1, tops.len() as int), x),
            Err(_) => {},
        }
    }
}

/// What a program of rules only builds, as `law_rules_merge_by_name` says.
pub open spec fn merged(b: BookModel, tops: Seq<TopV>) -> bool {
    let rn = rule_names(tops);
    &&& b.defs.len() == rn.len()
    &&& b.names.count == rn.len()
    &&& b.adts.len() == 0
    &&& b.ctrs.len() == 0
    &&& rn.no_duplicates()
    &&& forall|i: int|
        0 <= i < rn.len() ==> b.names.names.contains_key(#[trigger] rn[i]) && b.names.names[rn[i]] == i
            && b.defs[i] == (i as Val, rules_named(tops, rn[i]))
    &&& forall|n: Seq<char>| #[trigger] b.names.names.contains_key(n) <==> rn.contains(n)
    &&& forall|n: Seq<char>| !rn.contains(n) ==> #[trigger] rules_named(tops, n) == Seq::<(Seq<PatV>, TermV)>::empty()
}

/// A program of rules only builds one definition per name, in the order
/// the names first appear, with the ids from 0 on; each definition holds
/// the rules of its name in the order they appear; there is no datatype.
pub proof fn law_rules_merge_by_name(tops: Seq<TopV>)
    requires
        all_rules(tops),
        tops.len() < Val::MAX,
    ensures
        build_v(empty_model(), tops) is Ok,
        merged(build_v(empty_model(), tops)->Ok_0, tops),
    decreases tops.len(),
{
    if tops.len() == 0 {
        assert(merged(empty_model(), tops));
    } else {
        let pre = tops.drop_last();
        let x = tops.last();
        assert(all_rules(pre)) by {
            assert forall|i: int| 0 <= i < pre.len() implies #[trigger] pre[i] is Rule by {
                assert(pre[i] == tops[i]);
            }
        }
        assert(x is Rule) by {
            assert(tops[tops.len() - 1] is Rule);
        }
        law_rules_merge_by_name(pre);
        assert(pre.push(x) =~= tops);
        lemma_build_push(empty_model(), pre, x);
        let b = build_v(empty_model(), pre)->Ok_0;
        let rn = rule_names(pre);
        let (nam, pats, body) = (x->Rule_0, x->Rule_1, x->Rule_2);
        assert(rule_names(tops) == if rn.contains(nam) { rn } else { rn.push(nam) });
        assert(forall|n: Seq<char>| #[trigger] rules_named(tops, n) == if n == nam {
            rules_named(pre, n).push((pats, body))
        } else {
            rules_named(pre, n)
        });
        assert(rn.len() <= pre.len()) by {
            lemma_rule_names_len(pre);
        }
        let b2 = add_top_v(b, x)->Ok_0;
        if rn.contains(nam) {
            let k = rn.index_of(nam);
            assert(b.names.names[rn[k]] == k);
            assert(merged(b2, tops)) by {
                assert forall|i: int| 0 <= i < rn.len() implies b2.names.names.contains_key(#[trigger] rn[i])
                    && b2.names.names[rn[i]] == i && b2.defs[i] == (i as Val, rules_named(tops, rn[i])) by {
                    if i != k {
                        assert(rn[i] != nam);
                    }
                }
            }
        } else {
            let rn2 = rn.push(nam);
            assert(merged(b2, tops)) by {
                assert forall|i: int| 0 <= i < rn2.len() implies b2.names.names.contains_key(#[trigger] rn2[i])
                    && b2.names.names[rn2[i]] == i && b2.defs[i] == (i as Val, rules_named(tops, rn2[i])) by {
                    if i < rn.len() {
                        assert(rn2[i] == rn[i]);
                        assert(rn[i] != nam);
                    } else {
                        assert(rules_named(pre, nam) == Seq::<(Seq<PatV>, TermV)>::empty());
                        assert(rules_named(tops, nam) =~= seq![(pats, body)]);
                    }
                }
                assert forall|n: Seq<char>| #[trigger] b2.names.names.contains_key(n) <==> rn2.contains(n) by {
                    if n == nam {
                        assert(rn2[rn.len() as int] == nam);
                    } else if rn.contains(n) {
                        let j = rn.index_of(n);
                        assert(rn2[j] == n);
                    } else if rn2.contains(n) {
                        let j = rn2.index_of(n);
                        assert(j < rn.len());
                        assert(rn[j] == n);
                    }
                }
                assert forall|n: Seq<char>| !rn2.contains(n) implies #[trigger] rules_named(tops, n)
                    == Seq::<(Seq<PatV>, TermV)>::empty() by {
                    assert(rn2[rn.len() as int] == nam);
                    if rn.contains(n) {
                        let j = rn.index_of(n);
                        assert(rn2[j] == n);
                    }
                }
            }
        }
    }
}

/// There are no more names than items.
pub proof fn lemma_rule_names_len(tops: Seq<TopV>)
    ensures
        rule_names(tops).len() <= tops.len(),
    decreases tops.len(),
{
    if tops.len() > 0 {
        lemma_rule_names_len(tops.drop_last());
    }
}

/// A text that holds rules only parses to the book that merges its rules
/// by name, as `law_rules_merge_by_name` says.
pub proof fn law_parse_merges_rules(code: Seq<char>)
    requires
        lex_from(code, 0) is Some,
        top_levels_p(lex_from(code, 0)->0, 0).1 == lex_from(code, 0)->0.len(),
        all_rules(top_levels_p(lex_from(code, 0)->0, 0).0),
        top_levels_p(lex_from(code, 0)->0, 0).0.len() < Val::MAX,
    ensures
        parse_book_v(code) is Ok,
        merged(parse_book_v(code)->Ok_0, top_levels_p(lex_from(code, 0)->0, 0).0),
{
    law_rules_merge_by_name(top_levels_p(lex_from(code, 0)->0, 0).0);
}

/// Why a text is not a program or a term.
pub enum ParseErrV {
    /// Some part of the text is no token.
    Lex,
    /// The tokens do not follow the grammar.
    Syntax,
    /// The program defines a datatype or constructor twice.
    Invalid(Seq<char>),
}

/// The program a text holds.
pub open spec fn parse_book_v(code: Seq<char>) -> Result<BookModel, ParseErrV> {
    match lex_from(code, 0) {
        None => Err(ParseErrV::Lex),
        Some(ts) => {
            let (tops, j) = top_levels_p(ts, 0);
            if j != ts.len() {
                Err(ParseErrV::Syntax)
            } else {
                match build_v(empty_model(), tops) {
                    Ok(b) => Ok(b),
                    Err(m) => Err(ParseErrV::Invalid(m)),
                }
            }
        },
    }
}

/// The term a text holds.
pub open spec fn parse_term_v(code: Seq<char>) -> Result<TermV, ParseErrV> {
    match lex_from(code, 0) {
        None => Err(ParseErrV::Lex),
        Some(ts) => match term_p(ts, 0) {
            Some((t, j)) => if j == ts.len() {
                Ok(t)
            } else {
                Err(ParseErrV::Syntax)
            },
            None => Err(ParseErrV::Syntax),
        },
    }
}

/// The left-hand side of a rule, as `lhs_p` says.
fn lhs(ts: &Vec<Token>, i: usize) -> (r: Option<((Name, Vec<RulePat>), usize)>)
    ensures
        match r {
            Some(((n, pats), j)) => lhs_p(toks_view(ts@), i as int) == Some(((n@, pats_view(pats@)), j as int)),
            None => lhs_p(toks_view(ts@), i as int) is None,
        },
{
    match name(ts, i) {
        Some((nam, j)) => {
            let (pats, k) = patterns(ts, j);
            Some(((nam, pats), k))
        },
        None => {
            let j = expect_exec(ts, i, Token::LParen)?;
            let (nam, k) = name(ts, j)?;
            let (pats, l) = patterns(ts, k);
            let m = expect_exec(ts, l, Token::RParen)?;
            Some(((nam, pats), m))
        },
    }
}

/// A rule, as `rule_p` says.
fn rule(ts: &Vec<Token>, i: usize) -> (r: Option<((Name, Rule), usize)>)
    ensures
        match r {
            Some(((n, rl), j)) => rule_p(toks_view(ts@), i as int) == Some(
                ((n@, pats_view(rl.pats@), rl.body@), j as int),
            ),
            None => rule_p(toks_view(ts@), i as int) is None,
        },
{
    let ((nam, pats), j) = lhs(ts, i)?;
    let k = expect_exec(ts, j, Token::Equals)?;
    let (body, l) = term(ts, k)?;
    Some(((nam, Rule { pats, body }), l))
}

/// As many names as parse, as `names_p` says.
fn names(ts: &Vec<Token>, i: usize) -> (r: (Vec<String>, usize))
    ensures
        (crate::collections::strings_view(r.0), r.1 as int) == names_p(toks_view(ts@), i as int),
    decreases ts@.len() - i,
{
    let n = ts.len();
    let e: Vec<String> = Vec::new();
    proof {
        assert(crate::collections::strings_view(e) =~= Seq::<Seq<char>>::empty());
    }
    if i >= n {
        return (e, i);
    }
    match name(ts, i) {
        Some((nam, j)) => {
            let (mut rest, k) = names(ts, j);
            let ghost before = rest;
            rest.insert(0, nam.0);
            proof {
                assert(crate::collections::strings_view(rest) =~= seq![nam@] + crate::collections::strings_view(before));
            }
            (rest, k)
        },
        None => (e, i),
    }
}

/// The models of constructors with their fields.
pub open spec fn pairs_view(v: Seq<(String, Vec<String>)>) -> Seq<(Seq<char>, Seq<Seq<char>>)> {
    v.map_values(|p: (String, Vec<String>)| (p.0@, crate::collections::strings_view(p.1)))
}

/// A constructor, as `ctr_p` says.
fn ctr(ts: &Vec<Token>, i: usize) -> (r: Option<((String, Vec<String>), usize)>)
    ensures
        match r {
            Some(((n, fields), j)) => ctr_p(toks_view(ts@), i as int) == Some(
                ((n@, crate::collections::strings_view(fields)), j as int),
            ),
            None => ctr_p(toks_view(ts@), i as int) is None,
        },
{
    match name(ts, i) {
        Some((nam, j)) => {
            let e: Vec<String> = Vec::new();
            proof {
                assert(crate::collections::strings_view(e) =~= Seq::<Seq<char>>::empty());
            }
            Some(((nam.0, e), j))
        },
        None => {
            let j = expect_exec(ts, i, Token::LParen)?;
            let (nam, k) = name(ts, j)?;
            let (fields, l) = names(ts, k);
            let m = expect_exec(ts, l, Token::RParen)?;
            Some(((nam.0, fields), m))
        },
    }
}

/// The constructors after the first, as `more_ctrs_p` says.
fn more_ctrs(ts: &Vec<Token>, i: usize) -> (r: (Vec<(String, Vec<String>)>, usize))
    ensures
        (pairs_view(r.0@), r.1 as int) == more_ctrs_p(toks_view(ts@), i as int),
    decreases ts@.len() - i,
{
    let n = ts.len();
    proof {
        assert(pairs_view(Seq::<(String, Vec<String>)>::empty()) =~= Seq::<(Seq<char>, Seq<Seq<char>>)>::empty());
    }
    if i >= n {
        return (Vec::new(), i);
    }
    let j = match expect_exec(ts, i, Token::Or) {
        Some(j) => j,
        None => {
            return (Vec::new(), i);
        },
    };
    match ctr(ts, j) {
        Some((c, k)) => {
            if i < k && k <= n {
                let (mut rest, l) = more_ctrs(ts, k);
                let ghost before = rest@;
                let ghost cv = (c.0@, crate::collections::strings_view(c.1));
                rest.insert(0, c);
                proof {
                    assert(pairs_view(rest@) =~= seq![cv] + pairs_view(before));
                }
                (rest, l)
            } else {
                (Vec::new(), i)
            }
        },
        None => (Vec::new(), i),
    }
}

/// Whether a datatype begins at `i`, as `data_head` says.
fn data_head_exec(ts: &Vec<Token>, i: usize) -> (r: bool)
    ensures
        r == data_head(toks_view(ts@), i as int),
{
    match name(ts, i) {
        Some((kw, j)) => {
            if !kw.eq_name(&Name::new("data")) {
                return false;
            }
            match name(ts, j) {
                Some((_n, k)) => expect_exec(ts, k, Token::Equals).is_some(),
                None => false,
            }
        },
        None => false,
    }
}

/// The constructors written side by side, as `side_ctrs_p` says.
fn side_ctrs(ts: &Vec<Token>, i: usize) -> (r: (Vec<(String, Vec<String>)>, usize))
    ensures
        (pairs_view(r.0@), r.1 as int) == side_ctrs_p(toks_view(ts@), i as int),
    decreases ts@.len() - i,
{
    let n = ts.len();
    proof {
        assert(pairs_view(Seq::<(String, Vec<String>)>::empty()) =~= Seq::<(Seq<char>, Seq<Seq<char>>)>::empty());
    }
    if i >= n {
        return (Vec::new(), i);
    }
    match ctr(ts, i) {
        Some((c, k)) => {
            if i < k && k <= n && expect_exec(ts, k, Token::Equals).is_none() && !data_head_exec(ts, i) {
                let (mut rest, l) = side_ctrs(ts, k);
                let ghost before = rest@;
                let ghost cv = (c.0@, crate::collections::strings_view(c.1));
                rest.insert(0, c);
                proof {
                    assert(pairs_view(rest@) =~= seq![cv] + pairs_view(before));
                }
                (rest, l)
            } else {
                (Vec::new(), i)
            }
        },
        None => (Vec::new(), i),
    }
}

/// The constructors of a datatype, as `ctrs_p` says.
fn ctrs(ts: &Vec<Token>, i: usize) -> (r: (Vec<(String, Vec<String>)>, usize))
    ensures
        (pairs_view(r.0@), r.1 as int) == ctrs_p(toks_view(ts@), i as int),
{
    match ctr(ts, i) {
        None => {
            proof {
                assert(pairs_view(Seq::<(String, Vec<String>)>::empty()) =~= Seq::<(Seq<char>, Seq<Seq<char>>)>::empty());
            }
            (Vec::new(), i)
        },
        Some((c, j)) => {
            let (mut rest, k) = if expect_exec(ts, j, Token::Or).is_some() {
                more_ctrs(ts, j)
            } else {
                side_ctrs(ts, j)
            };
            let ghost before = rest@;
            let ghost cv = (c.0@, crate::collections::strings_view(c.1));
            rest.insert(0, c);
            proof {
                assert(pairs_view(rest@) =~= seq![cv] + pairs_view(before));
            }
            (rest, k)
        },
    }
}

/// The constructor table collected from constructors in order, as
/// `ctrs_of_pairs` says.
fn collect_ctrs(pairs: Vec<(String, Vec<String>)>) -> (r: IndexMap<String, Vec<String>>)
    ensures
        index_map_items(r) == ctrs_of_pairs(pairs_view(pairs@)),
{
    let ghost all = pairs_view(pairs@);
    let total = pairs.len();
    let mut m = index_map_new();
    let mut rest = pairs;
    let mut done: usize = 0;
    proof {
        assert(all.subrange(0, 0) =~= Seq::<(Seq<char>, Seq<Seq<char>>)>::empty());
    }
    while rest.len() > 0
        invariant
            done + rest@.len() == all.len(),
            total == all.len(),
            pairs_view(rest@) == all.subrange(done as int, all.len() as int),
            index_map_items(m) == ctrs_of_pairs(all.subrange(0, done as int)),
        decreases rest@.len(),
    {
        let ghost before = rest@;
        let (k, v) = rest.remove(0);
        proof {
            assert(pairs_view(before)[0] == (k@, crate::collections::strings_view(v)));
            assert(pairs_view(rest@) =~= pairs_view(before).subrange(1, before.len() as int));
            let pre = all.subrange(0, done + 1);
            assert(pre.drop_last() =~= all.subrange(0, done as int));
            assert(pre.last() == all[done as int]);
        }
        index_map_insert(&mut m, k, v);
        done = done + 1;
        proof {
            assert(pairs_view(rest@) =~= all.subrange(done as int, all.len() as int));
        }
    }
    proof {
        assert(all.subrange(0, all.len() as int) =~= all);
    }
    m
}

/// A datatype, as `datatype_p` says.
fn datatype(ts: &Vec<Token>, i: usize) -> (r: Option<((Name, Adt), usize)>)
    ensures
        match r {
            Some(((n, adt), j)) => datatype_p(toks_view(ts@), i as int) == Some(
                ((n@, index_map_items(adt.ctrs)), j as int),
            ),
            None => datatype_p(toks_view(ts@), i as int) is None,
        },
{
    let (kw, j) = name(ts, i)?;
    if !kw.eq_name(&Name::new("data")) {
        return None;
    }
    let (nam, k) = name(ts, j)?;
    let l = expect_exec(ts, k, Token::Equals)?;
    let (pairs, m) = ctrs(ts, l);
    if pairs.len() == 0 {
        return None;
    }
    let ctrs = collect_ctrs(pairs);
    Some(((nam, Adt { ctrs }), m))
}

/// A top-level item of a program.
pub enum TopLevel {
    Rule((Name, Rule)),
    Adt((Name, Adt)),
}

impl View for TopLevel {
    type V = TopV;

    open spec fn view(&self) -> TopV {
        match self {
            TopLevel::Rule((n, r)) => TopV::Rule(n@, pats_view(r.pats@), r.body@),
            TopLevel::Adt((n, a)) => TopV::Data(n@, index_map_items(a.ctrs)),
        }
    }
}

/// The models of top-level items.
pub open spec fn tops_view(v: Seq<TopLevel>) -> Seq<TopV> {
    v.map_values(|t: TopLevel| t@)
}

/// A top-level item, as `top_level_p` says.
fn top_level(ts: &Vec<Token>, i: usize) -> (r: Option<(TopLevel, usize)>)
    ensures
        match r {
            Some((t, j)) => top_level_p(toks_view(ts@), i as int) == Some((t@, j as int)),
            None => top_level_p(toks_view(ts@), i as int) is None,
        },
{
    match datatype(ts, i) {
        Some((d, j)) => Some((TopLevel::Adt(d), j)),
        None => match rule(ts, i) {
            Some((r, j)) => Some((TopLevel::Rule(r), j)),
            None => None,
        },
    }
}

/// As many top-level items as parse, as `top_levels_p` says.
fn top_levels(ts: &Vec<Token>, i: usize) -> (r: (Vec<TopLevel>, usize))
    ensures
        (tops_view(r.0@), r.1 as int) == top_levels_p(toks_view(ts@), i as int),
    decreases ts@.len() - i,
{
    let n = ts.len();
    proof {
        assert(tops_view(Seq::<TopLevel>::empty()) =~= Seq::<TopV>::empty());
    }
    if i >= n {
        return (Vec::new(), i);
    }
    match top_level(ts, i) {
        Some((t, j)) => {
            if i < j && j <= n {
                let (mut rest, k) = top_levels(ts, j);
                let ghost before = rest@;
                let ghost tv = t@;
                rest.insert(0, t);
                proof {
                    assert(tops_view(rest@) =~= seq![tv] + tops_view(before));
                }
                (rest, k)
            } else {
                (Vec::new(), i)
            }
        },
        None => (Vec::new(), i),
    }
}

/// Why a text is not a program or a term.
#[derive(Debug)]
pub enum ParseError {
    /// Some part of the text is no token.
    Lex,
    /// The tokens do not follow the grammar.
    Syntax,
    /// The program defines a datatype or constructor twice.
    Invalid(String),
}

impl View for ParseError {
    type V = ParseErrV;

    open spec fn view(&self) -> ParseErrV {
        match self {
            ParseError::Lex => ParseErrV::Lex,
            ParseError::Syntax => ParseErrV::Syntax,
            ParseError::Invalid(m) => ParseErrV::Invalid(m@),
        }
    }
}

/// A text holds no more tokens than characters.
proof fn lemma_lex_len(cs: Seq<char>, i: int)
    requires
        0 <= i,
        lex_from(cs, i) is Some,
    ensures
        lex_from(cs, i).unwrap().len() <= cs.len() - i || (i >= cs.len() && lex_from(cs, i).unwrap().len()
            == 0),
    decreases cs.len() - i,
{
    if i < cs.len() {
        let (t, j) = super::lexer::step_v(cs, i).unwrap();
        lemma_lex_len(cs, j);
    }
}

/// Each top-level item takes at least one token.
proof fn lemma_tops_len(ts: Seq<TokV>, i: int)
    requires
        0 <= i,
    ensures
        top_levels_p(ts, i).1 >= i,
        top_levels_p(ts, i).0.len() <= top_levels_p(ts, i).1 - i,
    decreases ts.len() - i,
{
    if i < ts.len() {
        match top_level_p(ts, i) {
            Some((t, j)) => if advanced(ts, i, j) {
                lemma_tops_len(ts, j);
            },
            None => {},
        }
    }
}


/// The message for a datatype defined twice, as `repeated_datatype_msg`
/// says.
fn repeated_datatype(nam: &Name) -> (r: String)
    ensures
        r@ == repeated_datatype_msg(nam@),
{
    let mut s = String::new();
    append(&mut s, "Repeated datatype '");
    append(&mut s, nam.0.as_str());
    append(&mut s, "'");
    s
}

/// The message for a constructor defined twice, as `repeated_ctr_msg`
/// says.
fn repeated_ctr(nam: &Name) -> (r: String)
    ensures
        r@ == repeated_ctr_msg(nam@),
{
    let mut s = String::new();
    append(&mut s, "Repeated constructor '");
    append(&mut s, nam.0.as_str());
    append(&mut s, "'");
    s
}

/// The names of the constructors of a table, in order.
fn ctr_keys(m: &IndexMap<String, Vec<String>>) -> (r: Vec<String>)
    ensures
        r@.len() == index_map_items(*m).len(),
        forall|k: int| 0 <= k < r@.len() ==> (#[trigger] r@[k])@ == index_map_items(*m)[k].0,
{
    let n = crate::collections::index_map_len(m);
    let mut out: Vec<String> = Vec::new();
    let mut k: usize = 0;
    while k < n
        invariant
            k <= n,
            n == index_map_items(*m).len(),
            out@.len() == k,
            forall|j: int| 0 <= j < k ==> (#[trigger] out@[j])@ == index_map_items(*m)[j].0,
        decreases n - k,
    {
        match crate::collections::index_map_get_index(m, k) {
            Some((key, _)) => out.push(key.clone()),
            None => {
                proof {
                    assert(false);
                }
            },
        }
        k = k + 1;
    }
    out
}

/// Whether a constructor is in the list.
fn has_ctr(ctrs: &Vec<(Name, Name)>, c: &String) -> (r: bool)
    ensures
        r == exists|k: int| 0 <= k < ctrs@.len() && (#[trigger] ctrs@[k]).0@ == c@,
{
    let mut k: usize = 0;
    while k < ctrs.len()
        invariant
            k <= ctrs@.len(),
            forall|j: int| 0 <= j < k ==> (#[trigger] ctrs@[j]).0@ != c@,
        decreases ctrs@.len() - k,
    {
        if ctrs[k].0.0 == *c {
            return true;
        }
        k = k + 1;
    }
    false
}

/// The invariant of a book under construction: ids are positions.
pub open spec fn built_ok(b: Book) -> bool {
    &&& b.wf()
    &&& b.defs@.len() == b.def_names@.count
    &&& forall|k: int| 0 <= k < b.defs@.len() ==> (#[trigger] b.defs@[k]).def_id.0 == k
}

/// Adds the constructors of a datatype, as `add_ctrs_v` says from the
/// `start`-th on.
fn add_ctrs(book: &mut Book, nam: &Name, keys: &Vec<String>, Ghost(items): Ghost<Seq<(Seq<char>, Seq<Seq<char>>)>>) -> (r: Result<(), String>)
    requires
        keys@.len() == items.len(),
        forall|k: int| 0 <= k < keys@.len() ==> (#[trigger] keys@[k])@ == items[k].0,
        built_ok(*old(book)),
    ensures
        built_ok(*final(book)),
        final(book).def_names == old(book).def_names,
        final(book).defs == old(book).defs,
        final(book).adts == old(book).adts,
        match r {
            Ok(()) => add_ctrs_v(book_model(*old(book)), nam@, items) == Ok::<BookModel, Seq<char>>(book_model(*final(book))),
            Err(m) => add_ctrs_v(book_model(*old(book)), nam@, items) == Err::<BookModel, Seq<char>>(m@),
        },
{
    let n = keys.len();
    let mut k: usize = 0;
    proof {
        assert(items.subrange(0, items.len() as int) =~= items);
    }
    while k < n
        invariant
            k <= n,
            n == keys@.len(),
            keys@.len() == items.len(),
            forall|j: int| 0 <= j < keys@.len() ==> (#[trigger] keys@[j])@ == items[j].0,
            book.def_names == old(book).def_names,
            book.defs == old(book).defs,
            book.adts == old(book).adts,
            built_ok(*book),
            add_ctrs_v(book_model(*old(book)), nam@, items) == add_ctrs_v(
                book_model(*book),
                nam@,
                items.subrange(k as int, items.len() as int),
            ),
        decreases n - k,
    {
        let ghost rest = items.subrange(k as int, items.len() as int);
        let ghost before = *book;
        proof {
            assert(rest[0] == items[k as int]);
            assert(rest.subrange(1, rest.len() as int) =~= items.subrange(k + 1, items.len() as int));
        }
        if has_ctr(&book.ctrs, &keys[k]) {
            proof {
                let b = book_model(before);
                let c = choose|j: int| 0 <= j < before.ctrs@.len() && (#[trigger] before.ctrs@[j]).0@ == keys@[k as int]@;
                assert(b.ctrs[c].0 == rest[0].0);
            }
            return Err(repeated_ctr(nam));
        }
        book.ctrs.push((Name(keys[k].clone()), nam.clone_name()));
        proof {
            let b = book_model(before);
            assert forall|i: int, j: int| 0 <= i < j < book.ctrs@.len() implies (#[trigger] book.ctrs@[i]).0@
                != (#[trigger] book.ctrs@[j]).0@ by {
                if j == book.ctrs@.len() - 1 {
                    assert(before.ctrs@[i] == book.ctrs@[i]);
                } else {
                    assert(before.ctrs@[i] == book.ctrs@[i] && before.ctrs@[j] == book.ctrs@[j]);
                }
            }
            assert(!(exists|j: int| 0 <= j < b.ctrs.len() && (#[trigger] b.ctrs[j]).0 == rest[0].0)) by {
                if exists|j: int| 0 <= j < b.ctrs.len() && (#[trigger] b.ctrs[j]).0 == rest[0].0 {
                    let j = choose|j: int| 0 <= j < b.ctrs.len() && (#[trigger] b.ctrs[j]).0 == rest[0].0;
                    assert(before.ctrs@[j].0@ == keys@[k as int]@);
                }
            }
            assert(book_model(*book).ctrs =~= b.ctrs.push((rest[0].0, nam@)));
            assert(book_model(*book) == BookModel { ctrs: b.ctrs.push((rest[0].0, nam@)), ..b });
        }
        k = k + 1;
    }
    proof {
        assert(items.subrange(n as int, items.len() as int) =~= Seq::<(Seq<char>, Seq<Seq<char>>)>::empty());
    }
    Ok(())
}

/// Collects the top-level items into a book, as `build_v` says.
#[verifier::rlimit(60)]
#[verifier::spinoff_prover]
fn build(tops: Vec<TopLevel>) -> (r: Result<Book, String>)
    requires
        tops@.len() < Val::MAX,
    ensures
        match r {
            Ok(b) => build_v(empty_model(), tops_view(tops@)) == Ok::<BookModel, Seq<char>>(book_model(b))
                && built_ok(b),
            Err(m) => build_v(empty_model(), tops_view(tops@)) == Err::<BookModel, Seq<char>>(m@),
        },
{
    let ghost all = tops_view(tops@);
    let total = tops.len();
    let mut book = Book::new();
    let mut rest = tops;
    let mut done: usize = 0;
    proof {
        assert(book_model(book).names.ids =~= Map::<Val, Seq<char>>::empty());
        assert(book_model(book).names.names =~= Map::<Seq<char>, Val>::empty());
        assert(book_model(book).defs =~= Seq::<(Val, Seq<(Seq<PatV>, TermV)>)>::empty());
        assert(book_model(book).adts =~= Seq::<(Seq<char>, Seq<(Seq<char>, Seq<Seq<char>>)>)>::empty());
        assert(book_model(book).ctrs =~= Seq::<(Seq<char>, Seq<char>)>::empty());
        assert(book_model(book) == empty_model());
        assert(all.subrange(0, total as int) =~= all);
    }
    while rest.len() > 0
        invariant
            done + rest@.len() == total,
            total == all.len(),
            all == tops_view(tops@),
            total < Val::MAX,
            tops_view(rest@) == all.subrange(done as int, total as int),
            built_ok(book),
            book.def_names@.count <= done,
            build_v(empty_model(), all) == build_v(book_model(book), tops_view(rest@)),
        decreases rest@.len(),
    {
        let ghost before_rest = rest@;
        let ghost bm = book_model(book);
        let t = rest.remove(0);
        proof {
            assert(tops_view(before_rest)[0] == t@);
            assert(tops_view(rest@) =~= tops_view(before_rest).subrange(1, before_rest.len() as int));
            assert(tops_view(rest@) =~= all.subrange(done + 1, total as int));
            lemma_def_names_consistent(book.def_names);
        }
        match t {
            TopLevel::Rule((nam, rule)) => {
                let ghost pv = pats_view(rule.pats@);
                let ghost bv = rule.body@;
                match book.def_names.def_id(&nam) {
                    Some(id) => {
                        proof {
                            assert(book.def_names@.ids.contains_key(id.0));
                        }
                        let i = id.0 as usize;
                        let ghost defs0 = book.defs@;
                        let mut d = book.defs.remove(i);
                        let ghost d0 = d;
                        d.rules.push(rule);
                        book.defs.insert(i, d);
                        proof {
                            assert(book.defs@ =~= defs0.update(i as int, d));
                            assert(d.def_id == d0.def_id);
                            assert(forall|k: int| 0 <= k < book.defs@.len() ==> (#[trigger] book.defs@[k]).def_id
                                == defs0[k].def_id);
                            assert(rules_model(d.rules@) =~= rules_model(d0.rules@).push((pv, bv)));
                            let k = bm.names.names[nam@] as int;
                            assert(k == i);
                            assert(book_model(book).defs =~= bm.defs.update(k, (bm.defs[k].0, bm.defs[k].1.push((pv, bv)))));
                        }
                    },
                    None => {
                        let ghost defs0 = book.defs@;
                        let mut rules: Vec<Rule> = Vec::new();
                        rules.push(rule);
                        let ghost rs = rules@;
                        book.insert_def(nam, rules);
                        proof {
                            assert(rules_model(rs) =~= seq![(pv, bv)]);
                            assert(book_model(book).defs =~= bm.defs.push((bm.names.count, seq![(pv, bv)])));
                        }
                    },
                }
            },
            TopLevel::Adt((nam, adt)) => {
                match super::super::resugar::find_adt(&book.adts, &nam) {
                    Some(i) => {
                        proof {
                            assert(book.adts@[i as int].0@ == nam@);
                            assert(bm.adts[i as int].0 == nam@);
                            assert(add_top_v(bm, t@) == Err::<BookModel, Seq<char>>(repeated_datatype_msg(nam@)));
                            assert(build_v(bm, tops_view(before_rest)) == Err::<BookModel, Seq<char>>(
                                repeated_datatype_msg(nam@),
                            ));
                        }
                        return Err(repeated_datatype(&nam));
                    },
                    None => {},
                }
                let keys = ctr_keys(&adt.ctrs);
                let ghost items = index_map_items(adt.ctrs);
                let ghost adts0 = book.adts@;
                book.adts.push((nam.clone_name(), adt));
                proof {
                    assert forall|i: int, j: int| 0 <= i < j < book.adts@.len() implies (#[trigger] book.adts@[i]).0@
                        != (#[trigger] book.adts@[j]).0@ by {
                        if j == book.adts@.len() - 1 {
                            assert(adts0[i] == book.adts@[i]);
                        } else {
                            assert(adts0[i] == book.adts@[i] && adts0[j] == book.adts@[j]);
                        }
                    }
                    assert(!(exists|k: int| 0 <= k < bm.adts.len() && (#[trigger] bm.adts[k]).0 == nam@)) by {
                        if exists|k: int| 0 <= k < bm.adts.len() && (#[trigger] bm.adts[k]).0 == nam@ {
                            let k = choose|k: int| 0 <= k < bm.adts.len() && (#[trigger] bm.adts[k]).0 == nam@;
                            assert(book.adts@[k].0@ == nam@);
                        }
                    }
                    assert(book_model(book).adts =~= bm.adts.push((nam@, items)));
                    assert(book_model(book) == BookModel { adts: bm.adts.push((nam@, items)), ..bm });
                }
                let ghost pushed = book_model(book);
                match add_ctrs(&mut book, &nam, &keys, Ghost(items)) {
                    Ok(()) => {},
                    Err(m) => {
                        proof {
                            assert(add_top_v(bm, t@) == add_ctrs_v(pushed, nam@, items));
                            assert(build_v(bm, tops_view(before_rest)) == Err::<BookModel, Seq<char>>(m@));
                        }
                        return Err(m);
                    },
                }
            },
        }
        done = done + 1;
    }
    Ok(book)
}

/// Parses a program: as `parse_book_v` says of the text.
pub fn parse_definition_book(code: &str) -> (r: Result<Book, ParseError>)
    requires
        code@.len() < Val::MAX,
    ensures
        match r {
            Ok(b) => parse_book_v(code@) == Ok::<BookModel, ParseErrV>(book_model(b)) && b.wf(),
            Err(e) => parse_book_v(code@) == Err::<BookModel, ParseErrV>(e@),
        },
{
    let ts = match super::lexer::token_stream(code) {
        Some(ts) => ts,
        None => {
            return Err(ParseError::Lex);
        },
    };
    let (tops, j) = top_levels(&ts, 0);
    if j != ts.len() {
        return Err(ParseError::Syntax);
    }
    proof {
        lemma_lex_len(code@, 0);
        lemma_tops_len(toks_view(ts@), 0);
    }
    match build(tops) {
        Ok(b) => Ok(b),
        Err(m) => Err(ParseError::Invalid(m)),
    }
}

/// Parses a term: as `parse_term_v` says of the text.
pub fn parse_term(code: &str) -> (r: Result<Term, ParseError>)
    ensures
        match r {
            Ok(t) => parse_term_v(code@) == Ok::<TermV, ParseErrV>(t@),
            Err(e) => parse_term_v(code@) == Err::<TermV, ParseErrV>(e@),
        },
{
    let ts = match super::lexer::token_stream(code) {
        Some(ts) => ts,
        None => {
            return Err(ParseError::Lex);
        },
    };
    match term(&ts, 0) {
        Some((t, j)) => if j == ts.len() {
            Ok(t)
        } else {
            Err(ParseError::Syntax)
        },
        None => Err(ParseError::Syntax),
    }
}

/// An operator token stands for the operation whose symbol is the token's
/// text: wherever the text holds an operator token, the operation it
/// parses to is shown as that very text, so printing a parsed `(op a b)`
/// gives back the same symbol.
pub proof fn law_op_token_text(cs: Seq<char>, i: int)
    requires
        0 <= i < cs.len(),
        symbol_token(cs, i) is Some,
        op_of_tok(symbol_token(cs, i).unwrap().0) is Some,
    ensures
        op_str(op_of_tok(symbol_token(cs, i).unwrap().0)->0) =~= cs.subrange(i, i + symbol_token(cs, i).unwrap().1),
{
    reveal_strlit("+");
    reveal_strlit("-");
    reveal_strlit("*");
    reveal_strlit("/");
    reveal_strlit("%");
    reveal_strlit("==");
    reveal_strlit("!=");
    reveal_strlit("<");
    reveal_strlit(">");
    reveal_strlit("&");
    reveal_strlit("|");
    reveal_strlit("^");
    reveal_strlit("~");
    reveal_strlit("<<");
    reveal_strlit(">>");
}

/// The operation of `(op a b)` is the operation of the operator token
/// written there (whose symbol is the token's text, as
/// `law_op_token_text` says), and parsing it takes that one token.
pub proof fn law_num_oper_is_token_op(ts: Seq<TokV>, i: int)
    requires
        num_oper_p(ts, i) is Some,
    ensures
        0 <= i < ts.len(),
        op_of_tok(ts[i]) == Some(num_oper_p(ts, i).unwrap().0),
        num_oper_p(ts, i).unwrap().1 == i + 1,
{
}

} // verus!
