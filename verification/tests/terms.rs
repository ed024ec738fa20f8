use hvm_lang_term::term::construct::native_match;
use hvm_lang_term::term::{Book, DefId, LetPat, MatchNum, Name, Op, Rule, RulePat, Term};
use indexmap::IndexSet;

fn var(n: &str) -> Term {
    Term::Var { nam: Name::new(n) }
}

fn lam(n: &str, bod: Term) -> Term {
    Term::Lam { tag: None, nam: Some(Name::new(n)), bod: Box::new(bod) }
}

fn app(f: Term, a: Term) -> Term {
    Term::App { tag: None, fun: Box::new(f), arg: Box::new(a) }
}

fn show(t: &Term) -> String {
    t.to_string(&Book::new())
}

#[test]
fn shows_lambdas_and_variables() {
    assert_eq!(show(&lam("a", var("a"))), "λa a");
    let erased = Term::Lam { tag: None, nam: None, bod: Box::new(Term::Era) };
    assert_eq!(show(&erased), "λ* *");
    let tagged = Term::Lam { tag: Some(Name::new("T")), nam: Some(Name::new("x")), bod: Box::new(var("x")) };
    assert_eq!(show(&tagged), "λ#T x x");
    let chn = Term::Chn { nam: Name::new("k"), bod: Box::new(Term::Lnk { nam: Name::new("k") }) };
    assert_eq!(show(&chn), "λ$k $k");
}

#[test]
fn shows_applications() {
    let t = Term::call(var("f"), vec![var("x"), var("y")]);
    assert_eq!(show(&t), "(f x y)");
    let tagged = Term::App { tag: Some(Name::new("T")), fun: Box::new(app(var("f"), var("x"))), arg: Box::new(var("y")) };
    assert_eq!(show(&tagged), "(#T f x y)");
    let nested = app(var("f"), app(var("g"), var("x")));
    assert_eq!(show(&nested), "(f (g x))");
}

#[test]
fn shows_the_other_forms() {
    let dup = Term::Dup {
        tag: None,
        fst: Some(Name::new("a")),
        snd: None,
        val: Box::new(var("x")),
        nxt: Box::new(var("a")),
    };
    assert_eq!(show(&dup), "dup a * = x; a");
    let sup = Term::Sup { tag: Name::new("auto"), fst: Box::new(Term::Num { val: 1 }), snd: Box::new(Term::Num { val: 2 }) };
    assert_eq!(show(&sup), "{#auto 1 2}");
    let let_ = Term::Let {
        pat: LetPat::Tup(Some(Name::new("a")), None),
        val: Box::new(Term::Tup { fst: Box::new(Term::Num { val: 1 }), snd: Box::new(Term::Era) }),
        nxt: Box::new(var("a")),
    };
    assert_eq!(show(&let_), "let (a, *) = (1, *); a");
    let opx = Term::Opx { op: Op::ADD, fst: Box::new(Term::Num { val: 1 }), snd: Box::new(Term::Num { val: 2 }) };
    assert_eq!(show(&opx), "(+ 1 2)");
    let m = Term::new_native_match(var("n"), Term::Num { val: 0 }, Some(Name::new("p")), var("p"));
    assert_eq!(show(&m), "match n { 0: 0; +: p }");
}

#[test]
fn shows_operations() {
    let ops = [
        (Op::ADD, "+"), (Op::SUB, "-"), (Op::MUL, "*"), (Op::DIV, "/"), (Op::MOD, "%"),
        (Op::EQ, "=="), (Op::NE, "!="), (Op::LT, "<"), (Op::GT, ">"), (Op::AND, "&"),
        (Op::OR, "|"), (Op::XOR, "^"), (Op::NOT, "~"), (Op::LSH, "<<"), (Op::RSH, ">>"),
    ];
    for (op, s) in ops {
        assert_eq!(op.show(), s);
    }
}

#[test]
fn shows_patterns() {
    let p = RulePat::Ctr(Name::new("Cons"), vec![RulePat::Var(Name::new("h")), RulePat::Num(MatchNum::Zero)]);
    assert_eq!(p.show(), "(Cons h 0)");
    assert_eq!(RulePat::Num(MatchNum::Succ(Some(Name::new("p")))).show(), "+");
    assert_eq!(LetPat::Var(Name::new("x")).show(), "x");
    assert_eq!(LetPat::Tup(None, Some(Name::new("y"))).show(), "(*, y)");
}

#[test]
fn shows_rules_definitions_and_books() {
    let mut book = Book::new();
    let id = book.insert_def(
        Name::new("id"),
        vec![Rule { pats: vec![RulePat::Var(Name::new("x"))], body: var("x") }],
    );
    let main = book.insert_def(Name::new("main"), vec![Rule { pats: vec![], body: app(Term::Ref { def_id: id }, Term::Num { val: 3 }) }]);
    let d = book.get_def(main).unwrap();
    assert_eq!(d.to_string(&book), "(main) = (id 3)");
    assert_eq!(d.arity(), 0);
    let r = &book.get_def(id).unwrap().rules[0];
    assert_eq!(r.to_string(&id, &book), "(id x) = x");
    assert_eq!(r.arity(), 1);
    assert_eq!(book.show(), "(id x) = x\n\n(main) = (id 3)");
}

#[test]
fn definitions_with_several_rules_show_one_per_line() {
    let mut book = Book::new();
    let rules = vec![
        Rule { pats: vec![RulePat::Num(MatchNum::Zero)], body: Term::Num { val: 1 } },
        Rule { pats: vec![RulePat::Num(MatchNum::Succ(None))], body: Term::Num { val: 2 } },
    ];
    let f = book.insert_def(Name::new("f"), rules);
    assert_eq!(book.get_def(f).unwrap().to_string(&book), "(f 0) = 1\n(f +) = 2");
}

#[test]
fn substitution_replaces_free_occurrences_only() {
    // (x λx x) with x := 5 is (5 λx x)
    let mut t = app(var("x"), lam("x", var("x")));
    t.subst(&Name::new("x"), &Term::Num { val: 5 });
    assert_eq!(show(&t), "(5 λx x)");
    // a let binding shadows
    let mut l = Term::Let { pat: LetPat::Var(Name::new("x")), val: Box::new(var("x")), nxt: Box::new(var("x")) };
    l.subst(&Name::new("x"), &var("y"));
    match &l {
        Term::Let { val, nxt, .. } => {
            assert!(matches!(&**val, Term::Var { nam } if nam.0 == "y"));
            assert!(matches!(&**nxt, Term::Var { nam } if nam.0 == "x"));
        }
        _ => panic!("not a let"),
    }
    // channel uses are left alone
    let mut c = Term::Lnk { nam: Name::new("x") };
    c.subst(&Name::new("x"), &Term::Era);
    assert_eq!(show(&c), "$x");
}

#[test]
fn substituting_an_unused_variable_changes_nothing() {
    let mut t = lam("a", app(var("a"), var("b")));
    t.subst(&Name::new("z"), &Term::Era);
    assert_eq!(show(&t), "λa (a b)");
}

#[test]
fn free_variables_in_order_of_occurrence() {
    let t = app(app(var("f"), lam("x", app(var("x"), var("y")))), var("f"));
    let mut fv: IndexSet<String> = IndexSet::new();
    fv.insert("z".to_string());
    t.free_vars(&mut fv);
    let got: Vec<String> = fv.into_iter().collect();
    assert_eq!(got, vec!["z".to_string(), "f".to_string(), "y".to_string()]);
}

#[test]
fn free_variables_of_matches_and_lets() {
    let m = Term::Match {
        scrutinee: Box::new(var("n")),
        arms: vec![
            (RulePat::Num(MatchNum::Zero), var("z")),
            (RulePat::Num(MatchNum::Succ(Some(Name::new("p")))), app(var("p"), var("q"))),
        ],
    };
    let t = Term::Let {
        pat: LetPat::Tup(Some(Name::new("a")), Some(Name::new("b"))),
        val: Box::new(var("v")),
        nxt: Box::new(app(var("a"), m)),
    };
    let mut fv: IndexSet<String> = IndexSet::new();
    t.free_vars(&mut fv);
    let mut got: Vec<String> = fv.into_iter().collect();
    got.sort();
    assert_eq!(got, vec!["n".to_string(), "q".to_string(), "v".to_string(), "z".to_string()]);
}

#[test]
fn call_folds_arguments_from_the_left() {
    let t = Term::call(var("f"), vec![]);
    assert_eq!(show(&t), "f");
    let t = Term::call(var("f"), vec![Term::Num { val: 1 }, Term::Num { val: 2 }, Term::Num { val: 3 }]);
    assert_eq!(show(&t), "(f 1 2 3)");
}

#[test]
fn rule_patterns_become_terms() {
    let p = RulePat::Ctr(Name::new("Pair"), vec![RulePat::Var(Name::new("a")), RulePat::Ctr(Name::new("Nil"), vec![])]);
    assert_eq!(show(&Term::from_rule_pat(&p)), "(Pair a Nil)");
}

#[test]
fn native_match_arms_as_lambdas() {
    let arms = vec![
        (RulePat::Num(MatchNum::Zero), Term::Num { val: 0 }),
        (RulePat::Num(MatchNum::Succ(Some(Name::new("p")))), var("p")),
    ];
    let (zero, succ) = native_match(arms);
    assert_eq!(show(&zero), "0");
    assert_eq!(show(&succ), "λp p");
    let arms = vec![(RulePat::Num(MatchNum::Zero), Term::Num { val: 1 }), (RulePat::Num(MatchNum::Zero), Term::Num { val: 2 })];
    let (a, b) = native_match(arms);
    assert_eq!(show(&a), "1");
    assert_eq!(show(&b), "2");
}

#[test]
fn copies_are_equal_in_form() {
    let t = Term::new_native_match(var("n"), lam("x", var("x")), None, Term::Era);
    assert_eq!(show(&t.clone_term()), show(&t));
}

#[test]
fn book_definitions_by_id() {
    let mut book = Book::new();
    let a = book.insert_def(Name::new("a"), vec![Rule { pats: vec![], body: Term::Era }]);
    let b = book.insert_def(Name::new("b"), vec![Rule { pats: vec![], body: Term::Num { val: 1 } }]);
    assert_eq!(book.get_def(b).unwrap().def_id.0, b.0);
    let (n, d) = book.remove_def(a).unwrap();
    assert_eq!(n.0, "a");
    assert_eq!(d.def_id.0, a.0);
    assert!(book.get_def(a).is_none());
    assert!(book.remove_def(a).is_none());
    assert!(book.remove_def(DefId(9)).is_none());
    assert!(book.get_def(b).is_some());
}

#[test]
fn a_match_on_a_term_binds_it_first() {
    let m = Term::new_native_match(Term::Num { val: 3 }, var("a"), None, var("bb"));
    assert_eq!(show(&m), "let %%% = 3; match %%% { 0: a; +: bb }");
    let m = Term::new_native_match(app(var("f"), var("x")), Term::Num { val: 0 }, Some(Name::new("p")), var("p"));
    assert_eq!(show(&m), "let %% = (f x); match %% { 0: 0; +: p }");
}

#[test]
fn substitution_trades_the_variable_for_the_free_variables_of_the_term() {
    let mut t = app(var("x"), lam("y", app(var("x"), var("z"))));
    t.subst(&Name::new("x"), &app(var("u"), var("v")));
    let mut fv: IndexSet<String> = IndexSet::new();
    t.free_vars(&mut fv);
    let mut got: Vec<String> = fv.into_iter().collect();
    got.sort();
    assert_eq!(got, vec!["u".to_string(), "v".to_string(), "z".to_string()]);
}
