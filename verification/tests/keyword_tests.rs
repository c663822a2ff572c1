use std::cell::RefCell;
use std::collections::BTreeSet;

use tx_observer::keyword::{
    attribute_filter_for_names, resolved_entid, store_entid_for_attribute, BoundaryError,
    NamespacedKeyword,
};

fn schema(keyword: &NamespacedKeyword) -> Option<i64> {
    match (keyword.namespace.as_str(), keyword.name.as_str()) {
        ("foo", "bar") => Some(65536),
        ("foo", "baz") => Some(65537),
        ("db.part", "user") => Some(2),
        _ => None,
    }
}

fn names(texts: &[&str]) -> Vec<String> {
    texts.iter().map(|t| t.to_string()).collect()
}

#[test]
fn two_segments_parse() {
    let keyword = NamespacedKeyword::parse("foo/bar").unwrap();
    assert_eq!(keyword.namespace, "foo");
    assert_eq!(keyword.name, "bar");
    let keyword = NamespacedKeyword::parse("db.part/user").unwrap();
    assert_eq!(keyword.namespace, "db.part");
    assert_eq!(keyword.name, "user");
    let keyword = NamespacedKeyword::parse("a/b").unwrap();
    assert_eq!(keyword, NamespacedKeyword { namespace: "a".to_string(), name: "b".to_string() });
}

#[test]
fn segments_may_hold_any_characters_but_the_slash() {
    let keyword = NamespacedKeyword::parse("größe/ÿ z").unwrap();
    assert_eq!(keyword.namespace, "größe");
    assert_eq!(keyword.name, "ÿ z");
}

#[test]
fn other_forms_are_malformed() {
    for text in ["", "/", "foo", "foo/", "/bar", "foo/bar/baz", "foo//bar", "//", "a/b/"] {
        assert_eq!(NamespacedKeyword::parse(text), Err(BoundaryError::MalformedAttribute), "{:?}", text);
    }
}

#[test]
fn lookup_result_becomes_identifier_or_refusal() {
    assert_eq!(resolved_entid(Some(42)), Ok(42));
    assert_eq!(resolved_entid(Some(-1)), Ok(-1));
    assert_eq!(resolved_entid(None), Err(BoundaryError::UnresolvedAttribute));
}

#[test]
fn known_attribute_resolves() {
    assert_eq!(store_entid_for_attribute(&schema, "foo/bar"), Ok(65536));
    assert_eq!(store_entid_for_attribute(&schema, "db.part/user"), Ok(2));
}

#[test]
fn unknown_attribute_is_refused() {
    assert_eq!(store_entid_for_attribute(&schema, "foo/qux"), Err(BoundaryError::UnresolvedAttribute));
}

#[test]
fn malformed_attribute_is_refused_without_asking_the_schema() {
    let asked = RefCell::new(0);
    let counting = |keyword: &NamespacedKeyword| {
        *asked.borrow_mut() += 1;
        schema(keyword)
    };
    assert_eq!(store_entid_for_attribute(&counting, "foo"), Err(BoundaryError::MalformedAttribute));
    assert_eq!(store_entid_for_attribute(&counting, "foo/bar/baz"), Err(BoundaryError::MalformedAttribute));
    assert_eq!(*asked.borrow(), 0);
    assert_eq!(store_entid_for_attribute(&counting, "foo/bar"), Ok(65536));
    assert_eq!(*asked.borrow(), 1);
}

#[test]
fn names_resolve_to_a_filter() {
    let expected: BTreeSet<i64> = [65536, 65537].into_iter().collect();
    assert_eq!(attribute_filter_for_names(&schema, &names(&["foo/baz", "foo/bar", "foo/baz"])), Ok(expected));
    assert_eq!(attribute_filter_for_names(&schema, &names(&[])), Ok(BTreeSet::new()));
}

#[test]
fn one_bad_name_refuses_the_whole_filter() {
    assert_eq!(
        attribute_filter_for_names(&schema, &names(&["foo/bar", "foo/qux", "foo/baz"])),
        Err(BoundaryError::UnresolvedAttribute)
    );
    assert_eq!(
        attribute_filter_for_names(&schema, &names(&["foo/bar", "foobaz"])),
        Err(BoundaryError::MalformedAttribute)
    );
}

#[test]
fn the_first_bad_name_decides() {
    let asked = RefCell::new(Vec::new());
    let logging = |keyword: &NamespacedKeyword| {
        asked.borrow_mut().push(keyword.name.clone());
        schema(keyword)
    };
    assert_eq!(
        attribute_filter_for_names(&logging, &names(&["foo/bar", "nope", "foo/qux"])),
        Err(BoundaryError::MalformedAttribute)
    );
    assert_eq!(*asked.borrow(), vec!["bar".to_string()]);
    asked.borrow_mut().clear();
    assert_eq!(
        attribute_filter_for_names(&logging, &names(&["foo/qux", "nope", "foo/bar"])),
        Err(BoundaryError::UnresolvedAttribute)
    );
    assert_eq!(*asked.borrow(), vec!["qux".to_string()]);
}
