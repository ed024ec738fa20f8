use hvm_lang_term::term::net_to_term::{NameGen, Scope};
use hvm_lang_term::term::{var_id_to_name, DefId, DefNames, Name};
use hvm_lang_term::net::Port;

#[test]
fn var_names_are_base_26_little_endian() {
    assert_eq!(var_id_to_name(0).0, "a");
    assert_eq!(var_id_to_name(1).0, "b");
    assert_eq!(var_id_to_name(25).0, "z");
    assert_eq!(var_id_to_name(26).0, "ab");
    assert_eq!(var_id_to_name(27).0, "bb");
    assert_eq!(var_id_to_name(26 * 26).0, "aab");
    assert_eq!(var_id_to_name(u32::MAX).0, "vxlrmxn");
}

#[test]
fn different_ids_give_different_names() {
    let mut seen = std::collections::HashSet::new();
    for id in 0..2000u32 {
        assert!(seen.insert(var_id_to_name(id).0));
    }
}

#[test]
fn name_equality_and_copy() {
    let a = Name::new("foo");
    let b = a.clone_name();
    assert!(a.eq_name(&b));
    assert!(!a.eq_name(&Name::new("bar")));
    assert_eq!(a.show(), "foo");
}

#[test]
fn def_id_internal_form_is_shifted_by_one() {
    let id = DefId(41);
    assert_eq!(id.to_internal(), 42);
    assert_eq!(DefId::from_internal(42).0, 41);
    assert_eq!(DefId::from_internal(id.to_internal()).0, 41);
}

#[test]
fn def_names_insert_then_lookup() {
    let mut names = DefNames::new();
    let a = names.insert(Name::new("main"));
    let b = names.insert(Name::new("foo"));
    assert_eq!(a.0, 0);
    assert_eq!(b.0, 1);
    assert_eq!(names.name(&a).unwrap().0, "main");
    assert_eq!(names.name(&b).unwrap().0, "foo");
    assert_eq!(names.def_id(&Name::new("foo")).unwrap().0, 1);
    assert!(names.contains_name(&Name::new("main")));
    assert!(!names.contains_name(&Name::new("bar")));
    assert!(names.contains_def_id(&DefId(1)));
    assert!(!names.contains_def_id(&DefId(2)));
}

#[test]
fn def_names_remove() {
    let mut names = DefNames::new();
    let a = names.insert(Name::new("main"));
    let b = names.insert(Name::new("foo"));
    let removed = names.remove(a).unwrap();
    assert_eq!(removed.0, "main");
    assert!(names.remove(a).is_none());
    assert!(names.name(&a).is_none());
    assert!(names.def_id(&Name::new("main")).is_none());
    assert_eq!(names.name(&b).unwrap().0, "foo");
    let c = names.insert(Name::new("main"));
    assert_eq!(c.0, 2);
}

#[test]
fn def_names_listing() {
    let mut names = DefNames::new();
    names.insert(Name::new("x"));
    names.insert(Name::new("y"));
    names.insert(Name::new("z"));
    names.remove(DefId(1));
    let mut listed: Vec<String> = names.names().into_iter().map(|n| n.0).collect();
    listed.sort();
    assert_eq!(listed, vec!["x".to_string(), "z".to_string()]);
    let ids: Vec<u32> = names.def_ids().into_iter().map(|d| d.0).collect();
    assert_eq!(ids, vec![0, 2]);
}

#[test]
fn name_gen_gives_each_port_one_name() {
    let mut g = NameGen::new();
    let a = g.var_name(Port(3, 1));
    let b = g.var_name(Port(3, 2));
    let a2 = g.var_name(Port(3, 1));
    assert_eq!(a.0, "a");
    assert_eq!(b.0, "b");
    assert_eq!(a2.0, "a");
    assert_eq!(g.get_counter(), 2);
    let u = g.new_unique();
    assert_eq!(u.0, "c");
    assert_eq!(g.get_counter(), 3);
}

#[test]
fn scope_keeps_each_node_once_in_order() {
    let mut s = Scope::new();
    s.insert(4);
    s.insert(7);
    s.insert(4);
    assert_eq!(s.pop(), Some(7));
    s.insert(7);
    assert_eq!(s.pop(), Some(4));
    assert_eq!(s.pop(), None);
}
