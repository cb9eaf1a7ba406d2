use scope_info::{ScopeInfoDB, ScopeInfoId};

fn chain_of_three() -> (ScopeInfoDB, ScopeInfoId, ScopeInfoId, ScopeInfoId) {
    let mut db = ScopeInfoDB::new();
    let r = db.create();
    let a = db.create_child(&r);
    let b = db.create_child(&a);
    (db, r, a, b)
}

#[test]
fn bind_unbind_rebind_through_three_levels() {
    let (mut db, r, a, b) = chain_of_three();
    db.set(r, "x".to_string());
    assert_eq!(db.get(&b, "x"), Some(r));
    db.delete(a, "x");
    assert_eq!(db.get(&b, "x"), None);
    db.set(b, "x".to_string());
    assert_eq!(db.get(&b, "x"), Some(b));
}

#[test]
fn root_lookup_then_bind() {
    let mut db = ScopeInfoDB::new();
    let r = db.create();
    assert_eq!(db.get(&r, "y"), None);
    db.set(r, "y".to_string());
    assert_eq!(db.get(&r, "y"), Some(r));
}

#[test]
fn lookup_right_after_bind_finds_the_scope() {
    let (mut db, r, a, b) = chain_of_three();
    db.set(r, "v".to_string());
    db.delete(b, "v");
    db.set(b, "v".to_string());
    assert_eq!(db.get(&b, "v"), Some(b));
    db.set(a, "w".to_string());
    assert_eq!(db.get(&a, "w"), Some(a));
}

#[test]
fn child_resolves_to_nearest_owner() {
    let (mut db, r, a, b) = chain_of_three();
    db.set(r, "n".to_string());
    db.set(a, "n".to_string());
    assert_eq!(db.get(&b, "n"), Some(a));
    db.set(r, "m".to_string());
    assert_eq!(db.get(&b, "m"), Some(r));
    assert_eq!(db.get(&a, "m"), Some(r));
}

#[test]
fn unbind_below_root_shadows_new_child() {
    let mut db = ScopeInfoDB::new();
    let r = db.create();
    let s1 = db.create_child(&r);
    db.set(r, "x".to_string());
    db.delete(s1, "x");
    let s2 = db.create_child(&s1);
    assert_eq!(db.get(&s2, "x"), None);
    assert_eq!(db.get(&s1, "x"), None);
    assert_eq!(db.get(&r, "x"), Some(r));
}

#[test]
fn unbind_at_root_removes_and_bind_restores() {
    let (mut db, r, _a, b) = chain_of_three();
    db.set(r, "x".to_string());
    db.delete(r, "x");
    assert_eq!(db.get(&r, "x"), None);
    db.set(r, "x".to_string());
    assert_eq!(db.get(&r, "x"), Some(r));
    assert_eq!(db.get(&b, "x"), Some(r));
}

#[test]
fn negative_lookup_is_repeatable_and_cached() {
    let (mut db, r, a, b) = chain_of_three();
    assert_eq!(db.get(&b, "g"), None);
    assert_eq!(db.get(&b, "g"), None);
    // The cache at b is local: binding at the root afterwards is not seen
    // from b, while a, which holds no cached entry, sees it.
    db.set(r, "g".to_string());
    assert_eq!(db.get(&b, "g"), None);
    assert_eq!(db.get(&a, "g"), Some(r));
}

#[test]
fn bind_after_negative_lookup_overwrites_cache() {
    let (mut db, _r, _a, b) = chain_of_three();
    assert_eq!(db.get(&b, "h"), None);
    db.set(b, "h".to_string());
    assert_eq!(db.get(&b, "h"), Some(b));
}

#[test]
fn tombstone_in_ancestor_stops_the_walk() {
    let (mut db, r, a, b) = chain_of_three();
    assert_eq!(db.get(&a, "w"), None);
    db.set(r, "w".to_string());
    assert_eq!(db.get(&b, "w"), None);
    assert_eq!(db.get(&r, "w"), Some(r));
}

#[test]
fn unknown_name_in_fresh_table() {
    let (mut db, r, a, b) = chain_of_three();
    assert_eq!(db.get(&r, ""), None);
    assert_eq!(db.get(&a, "undefined"), None);
    assert_eq!(db.get(&b, "x"), None);
}

#[test]
fn names_are_kept_apart() {
    let (mut db, r, a, b) = chain_of_three();
    db.set(r, "x".to_string());
    db.set(a, "xy".to_string());
    assert_eq!(db.get(&b, "x"), Some(r));
    assert_eq!(db.get(&b, "xy"), Some(a));
    assert_eq!(db.get(&b, "y"), None);
}

#[test]
fn identities_are_fresh_and_start_after_the_sentinels() {
    let mut db = ScopeInfoDB::new();
    let r1 = db.create();
    let r2 = db.create();
    let c = db.create_child(&r1);
    assert_eq!(r1, ScopeInfoId::init());
    assert_ne!(r1, r2);
    assert_ne!(r2, c);
    assert_ne!(r1, c);
}

#[test]
fn strictness_is_inherited() {
    let mut db = ScopeInfoDB::new();
    let r = db.create();
    assert!(!db.is_strict(&r));
    db.expect_get_mut(&r).is_strict = true;
    let c = db.create_child(&r);
    assert!(db.is_strict(&c));
    assert!(db.expect_get(&c).is_strict);
    let r2 = db.create();
    assert!(!db.is_strict(&r2));
}

#[test]
fn separate_roots_do_not_share_bindings() {
    let mut db = ScopeInfoDB::new();
    let r1 = db.create();
    let r2 = db.create();
    let c2 = db.create_child(&r2);
    db.set(r1, "x".to_string());
    assert_eq!(db.get(&c2, "x"), None);
    assert_eq!(db.get(&r1, "x"), Some(r1));
}
