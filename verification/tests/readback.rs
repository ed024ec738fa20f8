use hvm_lang_term::net::{INet, Node, NodeKind, Port};
use hvm_lang_term::term::let_insertion::LetInsertion;
use hvm_lang_term::term::net_to_term::net_to_term_non_linear;
use hvm_lang_term::term::{Adt, Book, Name, Op, Rule, Term};
use indexmap::{IndexMap, IndexSet};
use std::collections::HashMap;

fn node(kind: NodeKind, main: (usize, u64), aux1: (usize, u64), aux2: (usize, u64)) -> Node {
    Node { main: Port(main.0, main.1), aux1: Port(aux1.0, aux1.1), aux2: Port(aux2.0, aux2.1), kind }
}

fn root(to: (usize, u64)) -> Node {
    node(NodeKind::Rot, (0, 0), to, (0, 2))
}

fn read(net: &INet, book: &Book, labels: &HashMap<u32, Name>) -> (String, bool) {
    let (t, valid) = net_to_term_non_linear(net, book, labels);
    (t.to_string(book), valid)
}

#[test]
fn reads_the_identity() {
    let net = INet {
        nodes: vec![root((1, 0)), node(NodeKind::Con { lab: 0 }, (0, 1), (1, 2), (1, 1))],
    };
    assert_eq!(read(&net, &Book::new(), &HashMap::new()), ("λa a".to_string(), true));
}

#[test]
fn reads_an_unused_binder_as_erased() {
    let net = INet {
        nodes: vec![
            root((1, 0)),
            node(NodeKind::Con { lab: 0 }, (0, 1), (2, 0), (3, 0)),
            node(NodeKind::Era, (1, 1), (2, 1), (2, 2)),
            node(NodeKind::Num { val: 7 }, (1, 2), (3, 1), (3, 2)),
        ],
    };
    assert_eq!(read(&net, &Book::new(), &HashMap::new()), ("λ* 7".to_string(), true));
}

#[test]
fn reads_an_application() {
    let net = INet {
        nodes: vec![
            root((1, 0)),
            node(NodeKind::Con { lab: 0 }, (0, 1), (3, 0), (2, 0)),
            node(NodeKind::Con { lab: 0 }, (1, 2), (3, 1), (3, 2)),
            node(NodeKind::Con { lab: 0 }, (1, 1), (2, 1), (2, 2)),
        ],
    };
    assert_eq!(read(&net, &Book::new(), &HashMap::new()), ("λa λb (a b)".to_string(), true));
}

#[test]
fn reads_a_superposition_with_and_without_a_label_name() {
    let net = INet {
        nodes: vec![
            root((1, 0)),
            node(NodeKind::Dup { lab: 1 }, (0, 1), (2, 0), (3, 0)),
            node(NodeKind::Num { val: 1 }, (1, 1), (2, 1), (2, 2)),
            node(NodeKind::Num { val: 2 }, (1, 2), (3, 1), (3, 2)),
        ],
    };
    assert_eq!(read(&net, &Book::new(), &HashMap::new()), ("{#auto 1 2}".to_string(), true));
    let mut labels = HashMap::new();
    labels.insert(1u32, Name::new("L"));
    assert_eq!(read(&net, &Book::new(), &labels), ("{#L 1 2}".to_string(), true));
}

#[test]
fn reads_a_tuple_and_an_operation() {
    let tup = INet {
        nodes: vec![
            root((1, 0)),
            node(NodeKind::Tup, (0, 1), (2, 0), (3, 0)),
            node(NodeKind::Num { val: 1 }, (1, 1), (2, 1), (2, 2)),
            node(NodeKind::Num { val: 2 }, (1, 2), (3, 1), (3, 2)),
        ],
    };
    assert_eq!(read(&tup, &Book::new(), &HashMap::new()), ("(1, 2)".to_string(), true));
    let op = INet {
        nodes: vec![
            root((1, 2)),
            node(NodeKind::Op2 { opr: 0 }, (2, 0), (3, 0), (0, 1)),
            node(NodeKind::Num { val: 1 }, (1, 0), (2, 1), (2, 2)),
            node(NodeKind::Num { val: 2 }, (1, 1), (3, 1), (3, 2)),
        ],
    };
    assert_eq!(read(&op, &Book::new(), &HashMap::new()), ("(+ 1 2)".to_string(), true));
}

#[test]
fn reads_a_tuple_projection_as_a_let() {
    let net = INet {
        nodes: vec![
            root((1, 1)),
            node(NodeKind::Tup, (2, 0), (0, 1), (5, 0)),
            node(NodeKind::Tup, (1, 0), (3, 0), (4, 0)),
            node(NodeKind::Num { val: 7 }, (2, 1), (3, 1), (3, 2)),
            node(NodeKind::Num { val: 8 }, (2, 2), (4, 1), (4, 2)),
            node(NodeKind::Era, (1, 2), (5, 1), (5, 2)),
        ],
    };
    assert_eq!(read(&net, &Book::new(), &HashMap::new()), ("let (a, *) = (7, 8); a".to_string(), true));
}

#[test]
fn reads_a_native_number_match() {
    let net = INet {
        nodes: vec![
            root((1, 2)),
            node(NodeKind::Mat, (2, 0), (3, 0), (0, 1)),
            node(NodeKind::Num { val: 3 }, (1, 0), (2, 1), (2, 2)),
            node(NodeKind::Con { lab: 0 }, (1, 1), (4, 0), (5, 0)),
            node(NodeKind::Num { val: 0 }, (3, 1), (4, 1), (4, 2)),
            node(NodeKind::Con { lab: 0 }, (3, 2), (5, 2), (5, 1)),
        ],
    };
    assert_eq!(read(&net, &Book::new(), &HashMap::new()), ("match 3 { 0: 0; +: a }".to_string(), true));
}

#[test]
fn a_root_node_in_the_term_is_an_invalid_readback() {
    let net = INet { nodes: vec![node(NodeKind::Rot, (0, 0), (0, 1), (0, 2))] };
    assert_eq!(read(&net, &Book::new(), &HashMap::new()), ("*".to_string(), false));
}

fn bool_book() -> Book {
    let mut book = Book::new();
    book.insert_def(Name::new("True"), vec![Rule { pats: vec![], body: Term::Era }]);
    book.insert_def(Name::new("False"), vec![Rule { pats: vec![], body: Term::Era }]);
    let mut ctrs: IndexMap<String, Vec<String>> = IndexMap::new();
    ctrs.insert("True".to_string(), vec![]);
    ctrs.insert("False".to_string(), vec![]);
    book.adts.push((Name::new("Bool"), Adt { ctrs }));
    book
}

#[test]
fn resugars_a_constructor_encoding() {
    let net = INet {
        nodes: vec![
            root((1, 0)),
            node(NodeKind::Con { lab: 1 }, (0, 1), (2, 2), (2, 0)),
            node(NodeKind::Con { lab: 1 }, (1, 2), (3, 0), (1, 1)),
            node(NodeKind::Era, (2, 1), (3, 1), (3, 2)),
        ],
    };
    let mut labels = HashMap::new();
    labels.insert(1u32, Name::new("Bool"));
    let book = bool_book();
    assert_eq!(read(&net, &book, &labels), ("True".to_string(), true));
}

#[test]
fn resugars_a_match_encoding() {
    let net = INet {
        nodes: vec![
            root((1, 0)),
            node(NodeKind::Con { lab: 0 }, (0, 1), (4, 0), (2, 0)),
            node(NodeKind::Con { lab: 0 }, (1, 2), (4, 1), (3, 0)),
            node(NodeKind::Con { lab: 0 }, (2, 2), (5, 1), (5, 2)),
            node(NodeKind::Con { lab: 1 }, (1, 1), (2, 1), (5, 0)),
            node(NodeKind::Con { lab: 1 }, (4, 2), (3, 1), (3, 2)),
        ],
    };
    let mut labels = HashMap::new();
    labels.insert(1u32, Name::new("Bool"));
    let book = bool_book();
    assert_eq!(
        read(&net, &book, &labels),
        ("λa λb λc match a { (True): b; (False): c }".to_string(), true)
    );
}

#[test]
fn operation_labels() {
    let ops = [
        Op::ADD, Op::SUB, Op::MUL, Op::DIV, Op::MOD, Op::EQ, Op::NE, Op::LT, Op::GT, Op::AND,
        Op::OR, Op::XOR, Op::NOT, Op::LSH, Op::RSH,
    ];
    for (i, op) in ops.iter().enumerate() {
        assert!(Op::from_hvmc_label(i as u32) == Some(*op));
    }
    assert!(Op::from_hvmc_label(15).is_none());
    assert!(Op::from_hvmc_label(u32::MAX).is_none());
}

#[test]
fn generated_definitions_are_inlined_when_names_are_fixed() {
    let mut book = Book::new();
    let gen = book.insert_def(
        Name::new("foo$1"),
        vec![Rule {
            pats: vec![],
            body: Term::Lam { tag: None, nam: Some(Name::new("x")), bod: Box::new(Term::Var { nam: Name::new("x") }) },
        }],
    );
    let plain = book.insert_def(Name::new("bar"), vec![Rule { pats: vec![], body: Term::Era }]);
    assert!(book.is_generated_def(gen));
    assert!(!book.is_generated_def(plain));
    let mut t = Term::App {
        tag: None,
        fun: Box::new(Term::Ref { def_id: gen }),
        arg: Box::new(Term::Lam { tag: None, nam: Some(Name::new("q")), bod: Box::new(Term::Ref { def_id: plain }) }),
    };
    let mut counter = 0u32;
    t.fix_names(&mut counter, &book);
    assert_eq!(t.to_string(&book), "(λa a λb bar)");
    assert_eq!(counter, 2);
}

#[test]
fn places_a_let_where_its_variables_are_used() {
    // λx (x a), with `let (a, *) = x` to place: it goes around `a`, inside λx.
    let mut term = Term::Lam {
        tag: None,
        nam: Some(Name::new("x")),
        bod: Box::new(Term::App {
            tag: None,
            fun: Box::new(Term::Var { nam: Name::new("x") }),
            arg: Box::new(Term::Var { nam: Name::new("a") }),
        }),
    };
    let mut fv: IndexSet<String> = IndexSet::new();
    fv.insert("x".to_string());
    let ctx = LetInsertion::Todo(Some(Name::new("a")), None, Term::Var { nam: Name::new("x") });
    let (out, used) = ctx.search_and_insert(&mut term, &mut fv);
    assert!(used);
    assert!(matches!(out, LetInsertion::Placed));
    assert_eq!(term.to_string(&Book::new()), "λx (x let (a, *) = x; a)");
}

#[test]
fn a_let_whose_value_depends_on_nothing_bound_below_is_not_placed() {
    // let (a, *) = y, where y is defined nowhere in λx a: it stays unplaced.
    let mut term = Term::Lam { tag: None, nam: Some(Name::new("x")), bod: Box::new(Term::Var { nam: Name::new("a") }) };
    let mut fv: IndexSet<String> = IndexSet::new();
    fv.insert("y".to_string());
    let ctx = LetInsertion::Todo(Some(Name::new("a")), None, Term::Var { nam: Name::new("y") });
    let (out, used) = ctx.search_and_insert(&mut term, &mut fv);
    assert!(used);
    assert!(matches!(out, LetInsertion::Unplaced(..)));
    assert_eq!(term.to_string(&Book::new()), "λx a");
}

#[test]
fn leaves_read_back_with_any_book() {
    let mut book = Book::new();
    let two = vec![Rule { pats: vec![], body: Term::Era }, Rule { pats: vec![], body: Term::Era }];
    book.insert_def(Name::new("gen$1"), two);
    let num = INet { nodes: vec![root((1, 0)), node(NodeKind::Num { val: 5 }, (0, 1), (1, 1), (1, 2))] };
    assert_eq!(read(&num, &book, &HashMap::new()), ("5".to_string(), true));
    let era = INet { nodes: vec![root((1, 0)), node(NodeKind::Era, (0, 1), (1, 1), (1, 2))] };
    assert_eq!(read(&era, &book, &HashMap::new()), ("*".to_string(), true));
    let era_aux = INet { nodes: vec![root((1, 1)), node(NodeKind::Era, (1, 0), (0, 1), (1, 2))] };
    assert_eq!(read(&era_aux, &book, &HashMap::new()), ("*".to_string(), false));
}

#[test]
fn binders_are_named_in_order_from_the_first_name() {
    let mut t = Term::Lam {
        tag: None,
        nam: Some(Name::new("x")),
        bod: Box::new(Term::Lam {
            tag: None,
            nam: None,
            bod: Box::new(Term::Lam { tag: None, nam: Some(Name::new("y")), bod: Box::new(Term::Var { nam: Name::new("x") }) }),
        }),
    };
    let mut counter = 3u32;
    t.fix_names(&mut counter, &Book::new());
    assert_eq!(t.to_string(&Book::new()), "λd λ* λe d");
    assert_eq!(counter, 5);
}

#[test]
fn checked_renaming_refuses_what_it_cannot_inline() {
    let mut book = Book::new();
    let two = vec![Rule { pats: vec![], body: Term::Era }, Rule { pats: vec![], body: Term::Era }];
    let gen = book.insert_def(Name::new("gen$1"), two);
    let mut t = Term::Lam { tag: None, nam: Some(Name::new("x")), bod: Box::new(Term::Ref { def_id: gen }) };
    let mut counter = 0u32;
    assert!(!t.fix_names_checked(&mut counter, &book));
    assert_eq!(counter, 0);
    assert_eq!(t.to_string(&book), "λx gen$1");
    let mut u = Term::Lam { tag: None, nam: Some(Name::new("x")), bod: Box::new(Term::Var { nam: Name::new("x") }) };
    assert!(u.fix_names_checked(&mut counter, &book));
    assert_eq!(u.to_string(&book), "λa a");
    assert_eq!(counter, 1);
    let mut full = Term::Lam { tag: None, nam: Some(Name::new("x")), bod: Box::new(Term::Era) };
    let mut last = u32::MAX;
    assert!(!full.fix_names_checked(&mut last, &book));
    assert_eq!(last, u32::MAX);
}
