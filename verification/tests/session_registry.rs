use gstzenoh::session::{registry_contains, Acquired, SessionRegistry};

/// A session stand-in: its identifier plays the part of the session id.
#[derive(Debug, Clone, Copy, PartialEq, Eq)]
struct FakeSession {
    zid: u32,
}

/// Get or create the session of a group, as an element does.
fn get_or_create_session(
    registry: &mut SessionRegistry<FakeSession>,
    group: &str,
    config: Option<&str>,
    next_zid: &mut u32,
) -> FakeSession {
    match registry.acquire(group, config) {
        Acquired::Missing => {
            let fresh = FakeSession { zid: *next_zid };
            *next_zid += 1;
            let _ = registry.insert_or_join(group.to_string(), config.map(String::from), fresh);
            *registry.session(group).unwrap()
        }
        _ => *registry.session(group).unwrap(),
    }
}

#[test]
fn test_session_group_reuse() {
    let mut registry = SessionRegistry::new();
    let mut zid = 1;
    let session1 = get_or_create_session(&mut registry, "test-reuse-group", None, &mut zid);
    let session2 = get_or_create_session(&mut registry, "test-reuse-group", None, &mut zid);

    // Should be the same session (same zid)
    assert_eq!(session1.zid, session2.zid);

    // Balance the two references.
    registry.release("test-reuse-group");
    registry.release("test-reuse-group");
}

#[test]
fn test_different_groups_different_sessions() {
    let mut registry = SessionRegistry::new();
    let mut zid = 1;
    let session1 = get_or_create_session(&mut registry, "test-group-x", None, &mut zid);
    let session2 = get_or_create_session(&mut registry, "test-group-y", None, &mut zid);

    // Should be different sessions
    assert_ne!(session1.zid, session2.zid);

    registry.release("test-group-x");
    registry.release("test-group-y");
}

#[test]
fn test_session_refcount_release_closes_on_last() {
    let mut registry = SessionRegistry::new();
    let mut zid = 1;
    let group = "test-refcount-lifecycle";
    assert!(!registry_contains(&registry, group));

    // Two references to the same group.
    let s1 = get_or_create_session(&mut registry, group, None, &mut zid);
    let s2 = get_or_create_session(&mut registry, group, None, &mut zid);
    assert_eq!(s1.zid, s2.zid);
    assert!(
        registry_contains(&registry, group),
        "entry should exist while referenced"
    );

    // First release keeps it alive (refcount 2 -> 1).
    assert_eq!(registry.release(group), None);
    assert!(
        registry_contains(&registry, group),
        "entry must survive while a reference remains"
    );

    // Last release removes it (refcount -> 0) — no leak.
    assert_eq!(registry.release(group), Some(s1));
    assert!(
        !registry_contains(&registry, group),
        "entry must be removed once the last reference is released"
    );
}

#[test]
fn acquire_reports_config_mismatch() {
    let mut registry = SessionRegistry::new();
    assert_eq!(registry.acquire("g", Some("a.json5")), Acquired::Missing);
    assert_eq!(
        registry.insert_or_join("g".to_string(), Some("a.json5".to_string()), FakeSession { zid: 3 }),
        None
    );
    assert_eq!(registry.acquire("g", Some("a.json5")), Acquired::Joined);
    assert_eq!(registry.acquire("g", Some("b.json5")), Acquired::JoinedOtherConfig);
    assert_eq!(registry.acquire("g", None), Acquired::JoinedOtherConfig);
    assert_eq!(registry.refcount("g"), 4);
}

#[test]
fn racing_insert_joins_existing_and_returns_fresh() {
    let mut registry = SessionRegistry::new();
    assert_eq!(registry.insert_or_join("g".to_string(), None, FakeSession { zid: 1 }), None);
    // Another element opened its own session meanwhile: it joins, and gets its own back.
    assert_eq!(
        registry.insert_or_join("g".to_string(), None, FakeSession { zid: 2 }),
        Some(FakeSession { zid: 2 })
    );
    assert_eq!(registry.session("g"), Some(&FakeSession { zid: 1 }));
    assert_eq!(registry.refcount("g"), 2);
}

#[test]
fn release_of_unknown_group_does_nothing() {
    let mut registry: SessionRegistry<FakeSession> = SessionRegistry::new();
    assert_eq!(registry.release("nope"), None);
    assert_eq!(registry.refcount("nope"), 0);
}
