use hvm_lang_term::term::parser::lexer::{token_stream, Token};
use hvm_lang_term::term::parser::parser::{parse_definition_book, parse_term, ParseError};
use hvm_lang_term::term::{Book, Term};

fn term_text(code: &str) -> String {
    match parse_term(code) {
        Ok(t) => t.to_string(&Book::new()),
        Err(e) => panic!("{:?} does not parse: {:?}", code, e),
    }
}

fn parse_error(code: &str) -> ParseError {
    match parse_term(code) {
        Ok(_) => panic!("{:?} parses", code),
        Err(e) => e,
    }
}

#[test]
fn parses_lambdas_and_channels() {
    assert_eq!(term_text("λx x"), "λx x");
    assert_eq!(term_text("@x x"), "λx x");
    assert_eq!(term_text("λ* 1"), "λ* 1");
    assert_eq!(term_text("λ#T x x"), "λ#T x x");
    assert_eq!(term_text("λ$k $k"), "λ$k $k");
}

#[test]
fn parses_applications_and_operations() {
    assert_eq!(term_text("(f x y)"), "(f x y)");
    assert_eq!(term_text("(f)"), "f");
    assert_eq!(term_text("(#T f x)"), "(#T f x)");
    assert_eq!(term_text("(+ 1 2)"), "(+ 1 2)");
    assert_eq!(term_text("(<< a (% b 3))"), "(<< a (% b 3))");
    assert_eq!(term_text("(* 2 3)"), "(* 2 3)");
    assert_eq!(term_text("(f *)"), "(f *)");
}

#[test]
fn parses_tuples_and_superpositions() {
    assert_eq!(term_text("(1, 2)"), "(1, 2)");
    assert_eq!(term_text("{#t 1 2}"), "{#t 1 2}");
    assert_eq!(term_text("{1 2}"), "{#auto 1 2}");
}

#[test]
fn parses_dups_and_lets() {
    assert_eq!(term_text("dup a b = x; (a b)"), "dup a b = x; (a b)");
    assert_eq!(term_text("dup #L a * = x (a a)"), "dup a * = x; (a a)");
    assert_eq!(term_text("let (a, *) = x; a"), "let (a, *) = x; a");
    assert_eq!(term_text("let x = 1\nx"), "let x = 1; x");
}

#[test]
fn parses_matches() {
    assert_eq!(term_text("match n { 0: 1; +: n-1 }"), "match n { 0: 1; +: n-1 }");
    assert_eq!(
        term_text("match (f x) { (Cons h t): h; Nil: 0 }"),
        "match (f x) { (Cons h t): h; Nil: 0 }"
    );
    assert_eq!(term_text("match x { 0: a +p: p; }"), "match x { 0: a; +: p }");
    match parse_term("match n { 0: 1; +: 2 }").unwrap() {
        Term::Match { scrutinee, arms } => {
            assert!(matches!(*scrutinee, Term::Var { .. }));
            assert_eq!(arms.len(), 2);
        }
        _ => panic!("not a match"),
    }
}

#[test]
fn skips_space_and_comments() {
    assert_eq!(term_text("  // a comment\n λx\t(x  x) // more\n"), "λx (x x)");
}

#[test]
fn long_names_are_one_token() {
    assert_eq!(term_text("(fooBarBaz x)"), "(fooBarBaz x)");
    assert_eq!(term_text("λabcdefghij abcdefghij"), "λabcdefghij abcdefghij");
}

#[test]
fn keywords_are_whole_words() {
    assert_eq!(term_text("(letter dupe matches)"), "(letter dupe matches)");
}

#[test]
fn bad_terms_are_refused() {
    assert!(matches!(parse_error(""), ParseError::Syntax));
    assert!(matches!(parse_error("λ"), ParseError::Syntax));
    assert!(matches!(parse_error("x y"), ParseError::Syntax));
    assert!(matches!(parse_error("(f x"), ParseError::Syntax));
    assert!(matches!(parse_error("(<= 1 2)"), ParseError::Syntax));
    assert!(matches!(parse_error("!"), ParseError::Lex));
    assert!(matches!(parse_error("99999999999"), ParseError::Lex));
    assert!(matches!(parse_error("x ? y"), ParseError::Lex));
}

#[test]
fn tokens_take_the_longest_match() {
    let ts = token_stream("== = <= << < >= >> > != x-1 4294967295").unwrap();
    assert!(matches!(ts[0], Token::EqualsEquals));
    assert!(matches!(ts[1], Token::Equals));
    assert!(matches!(ts[2], Token::Lte));
    assert!(matches!(ts[3], Token::Shl));
    assert!(matches!(ts[4], Token::Ltn));
    assert!(matches!(ts[5], Token::Gte));
    assert!(matches!(ts[6], Token::Shr));
    assert!(matches!(ts[7], Token::Gtn));
    assert!(matches!(ts[8], Token::NotEquals));
    assert!(matches!(&ts[9], Token::Pred(s) if s == "x-1"));
    assert!(matches!(ts[10], Token::Num(4294967295)));
    assert_eq!(ts.len(), 11);
    assert!(token_stream("4294967296").is_none());
}

#[test]
fn parses_a_program() {
    let book = parse_definition_book("main = (f 1)\nf x = x\n(g a b) = (a b)").unwrap();
    assert_eq!(book.show(), "(main) = (f 1)\n\n(f x) = x\n\n(g a b) = (a b)");
    assert_eq!(book.check_has_main().unwrap().0, 0);
}

#[test]
fn rules_of_one_name_join_one_definition() {
    let book = parse_definition_book("f 0 = 1\ng = 2\nf +p = p").unwrap();
    assert_eq!(book.defs.len(), 2);
    assert_eq!(book.show(), "(f 0) = 1\n(f +) = p\n\n(g) = 2");
}

#[test]
fn parses_datatypes() {
    let book = parse_definition_book("data Bool = True | False\ndata List = Nil | (Cons h t)").unwrap();
    assert_eq!(book.adts.len(), 2);
    assert_eq!(book.adts[0].0 .0, "Bool");
    let ctrs: Vec<(String, Vec<String>)> =
        book.adts[1].1.ctrs.iter().map(|(k, v)| (k.clone(), v.clone())).collect();
    assert_eq!(ctrs, vec![("Nil".to_string(), vec![]), ("Cons".to_string(), vec!["h".to_string(), "t".to_string()])]);
    let owners: Vec<(String, String)> = book.ctrs.iter().map(|(c, d)| (c.0.clone(), d.0.clone())).collect();
    assert_eq!(
        owners,
        vec![
            ("True".to_string(), "Bool".to_string()),
            ("False".to_string(), "Bool".to_string()),
            ("Nil".to_string(), "List".to_string()),
            ("Cons".to_string(), "List".to_string()),
        ]
    );
}

#[test]
fn repeated_datatypes_and_constructors_are_refused() {
    match parse_definition_book("data A = X\ndata A = Y") {
        Err(ParseError::Invalid(m)) => assert_eq!(m, "Repeated datatype 'A'"),
        _ => panic!("accepted"),
    }
    match parse_definition_book("data A = X\ndata B = X") {
        Err(ParseError::Invalid(m)) => assert_eq!(m, "Repeated constructor 'B'"),
        _ => panic!("accepted"),
    }
}

#[test]
fn a_constructor_named_twice_in_one_datatype_is_kept_once() {
    let book = parse_definition_book("data T = A | (A x)").unwrap();
    let ctrs: Vec<(String, Vec<String>)> =
        book.adts[0].1.ctrs.iter().map(|(k, v)| (k.clone(), v.clone())).collect();
    assert_eq!(ctrs, vec![("A".to_string(), vec!["x".to_string()])]);
}

#[test]
fn bad_programs_are_refused() {
    assert!(matches!(parse_definition_book("main ="), Err(ParseError::Syntax)));
    assert!(matches!(parse_definition_book("main = 1 )"), Err(ParseError::Syntax)));
    assert!(matches!(parse_definition_book("main = ?"), Err(ParseError::Lex)));
    assert!(parse_definition_book("").unwrap().defs.is_empty());
}

#[test]
fn constructors_may_stand_side_by_side() {
    let book = parse_definition_book("data Bool = True False").unwrap();
    let ctrs: Vec<(String, Vec<String>)> =
        book.adts[0].1.ctrs.iter().map(|(k, v)| (k.clone(), v.clone())).collect();
    assert_eq!(ctrs, vec![("True".to_string(), vec![]), ("False".to_string(), vec![])]);
    let owners: Vec<(String, String)> = book.ctrs.iter().map(|(c, d)| (c.0.clone(), d.0.clone())).collect();
    assert_eq!(owners, vec![("True".to_string(), "Bool".to_string()), ("False".to_string(), "Bool".to_string())]);
}

#[test]
fn side_by_side_constructors_stop_at_the_next_item() {
    let book = parse_definition_book("data L = Nil (Cons h t)\ndata U = V\nmain = 1").unwrap();
    assert_eq!(book.adts.len(), 2);
    let ctrs: Vec<(String, Vec<String>)> =
        book.adts[0].1.ctrs.iter().map(|(k, v)| (k.clone(), v.clone())).collect();
    assert_eq!(ctrs, vec![("Nil".to_string(), vec![]), ("Cons".to_string(), vec!["h".to_string(), "t".to_string()])]);
    assert_eq!(book.adts[1].1.ctrs.len(), 1);
    assert_eq!(book.show(), "(main) = 1");
}

#[test]
fn a_datatype_needs_a_constructor() {
    assert!(parse_definition_book("data E =").is_err());
}
