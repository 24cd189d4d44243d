use voikko::analysis::{Analysis, ATTR_BASEFORM, ATTR_CLASS, ATTR_STRUCTURE};

#[test]
fn new_analysis_is_empty() {
    let a = Analysis::new();
    assert!(a.is_empty());
    assert_eq!(a.len(), 0);
}

#[test]
fn set_and_get() {
    let mut a = Analysis::new();
    a.set(ATTR_BASEFORM, "koira");
    assert_eq!(a.get(ATTR_BASEFORM), Some("koira"));
    assert_eq!(a.get(ATTR_CLASS), None);
}

#[test]
fn set_replaces_existing() {
    let mut a = Analysis::new();
    a.set(ATTR_BASEFORM, "koira");
    a.set(ATTR_BASEFORM, "kissa");
    assert_eq!(a.get(ATTR_BASEFORM), Some("kissa"));
    assert_eq!(a.len(), 1);
}

#[test]
fn remove_attribute() {
    let mut a = Analysis::new();
    a.set(ATTR_CLASS, "nimisana");
    assert!(a.contains_key(ATTR_CLASS));
    a.remove(ATTR_CLASS);
    assert!(!a.contains_key(ATTR_CLASS));
    assert!(a.is_empty());
}

#[test]
fn remove_nonexistent_is_noop() {
    let mut a = Analysis::new();
    a.remove(ATTR_BASEFORM); // should not panic
    assert!(a.is_empty());
}

#[test]
fn keys_returns_all_keys() {
    let mut a = Analysis::new();
    a.set(ATTR_BASEFORM, "koira");
    a.set(ATTR_CLASS, "nimisana");
    a.set(ATTR_STRUCTURE, "=pp");
    let mut keys = a.keys();
    keys.sort();
    assert_eq!(keys, vec!["BASEFORM", "CLASS", "STRUCTURE"]);
}

#[test]
fn default_is_empty() {
    let a = Analysis::default();
    assert!(a.is_empty());
}

#[test]
fn analysis_clone_is_independent() {
    let mut a = Analysis::new();
    a.set(ATTR_BASEFORM, "koira");
    let mut b = a.clone();
    b.set(ATTR_BASEFORM, "kissa");
    assert_eq!(a.get(ATTR_BASEFORM), Some("koira"));
    assert_eq!(b.get(ATTR_BASEFORM), Some("kissa"));
}

#[test]
fn analyses_with_the_same_attributes_are_equal() {
    let mut a = Analysis::new();
    a.set("CLASS", "nimisana");
    a.set("BASEFORM", "koira");
    let mut b = Analysis::new();
    b.set("BASEFORM", "koira");
    b.set("CLASS", "nimisana");
    assert_eq!(a, b);
    let c = a.clone();
    assert_eq!(a, c);
    b.set("CLASS", "teonsana");
    assert_ne!(a, b);
    b.remove("CLASS");
    assert_ne!(a, b);
    assert_eq!(Analysis::new(), Analysis::new());
}
