use hvm_lang_term::term::check::DefinitionBook;
use hvm_lang_term::term::{Name, Rule, Term};

#[test]
fn a_book_without_main_is_refused() {
    let mut book = DefinitionBook::new();
    book.insert_def(Name::new("foo"), vec![Rule { pats: vec![], body: Term::Era }]);
    let err = book.check_has_main().unwrap_err();
    assert_eq!(err, "File has no 'main' definition");
}

#[test]
fn the_entry_point_is_found() {
    let mut book = DefinitionBook::new();
    book.insert_def(Name::new("foo"), vec![Rule { pats: vec![], body: Term::Era }]);
    let main = book.insert_def(Name::new("main"), vec![Rule { pats: vec![], body: Term::Num { val: 1 } }]);
    assert_eq!(book.check_has_main().unwrap().0, main.0);
}

#[test]
fn a_definition_that_only_refers_to_another_is_refused() {
    let mut book = DefinitionBook::new();
    let foo = book.insert_def(Name::new("foo"), vec![Rule { pats: vec![], body: Term::Num { val: 1 } }]);
    book.insert_def(Name::new("bar"), vec![Rule { pats: vec![], body: Term::Ref { def_id: foo } }]);
    book.insert_def(Name::new("baz"), vec![Rule { pats: vec![], body: Term::Ref { def_id: foo } }]);
    let err = book.check_ref_to_ref().unwrap_err();
    assert_eq!(err, "Definition bar is just a reference to another definition");
}

#[test]
fn definitions_with_real_bodies_pass() {
    let mut book = DefinitionBook::new();
    let foo = book.insert_def(Name::new("foo"), vec![Rule { pats: vec![], body: Term::Num { val: 1 } }]);
    book.insert_def(
        Name::new("main"),
        vec![Rule {
            pats: vec![],
            body: Term::App { tag: None, fun: Box::new(Term::Ref { def_id: foo }), arg: Box::new(Term::Era) },
        }],
    );
    assert!(book.check_ref_to_ref().is_ok());
}

#[test]
fn a_definition_without_rules_is_no_reference() {
    let mut book = DefinitionBook::new();
    let foo = book.insert_def(Name::new("foo"), vec![]);
    assert!(book.check_ref_to_ref().is_ok());
    book.insert_def(Name::new("bar"), vec![Rule { pats: vec![], body: Term::Ref { def_id: foo } }]);
    assert_eq!(book.check_ref_to_ref().unwrap_err(), "Definition bar is just a reference to another definition");
}
