use dbsc::session::{now_unix, unix_time_of};
use dbsc::{MemoryStore, Session, SessionState, SessionStore};
use std::time::{Duration, UNIX_EPOCH};

#[test]
fn expiry() {
    let mut s = Session::new("user");
    assert!(!s.is_expired(now_unix()));
    s.expires_at = Some(100);
    assert!(s.is_expired(100));
    assert!(!s.is_expired(99));
}

#[test]
fn expiry_boundary() {
    // expires_at == now counts as expired; None never expires.
    let mut s = Session::new("user");
    assert!(!s.is_expired(i64::MAX));
    let now = now_unix();
    s.expires_at = Some(now);
    assert!(s.is_expired(now));
    s.expires_at = Some(now - 1);
    assert!(s.is_expired(now));
    s.expires_at = Some(now + 1);
    assert!(!s.is_expired(now));
}

#[test]
fn crud_and_user_queries() {
    let mut store = MemoryStore::new();
    let mut s1 = Session::new("alice");
    s1.id = "s1".into();
    let mut s2 = Session::new("alice");
    s2.id = "s2".into();
    let mut s3 = Session::new("bob");
    s3.id = "s3".into();

    store.create(&s1).unwrap();
    store.create(&s2).unwrap();
    store.create(&s3).unwrap();

    assert_eq!(store.get("s1").unwrap().unwrap().user_id, "alice");
    assert_eq!(store.get("missing").unwrap(), None);
    assert_eq!(store.get_by_user_id("alice").unwrap().len(), 2);

    s1.user_id = "carol".into();
    store.update(&s1).unwrap();
    assert_eq!(store.get_by_user_id("alice").unwrap().len(), 1);

    store.delete("s3").unwrap();
    store.delete("s3").unwrap(); // idempotent
    assert_eq!(store.get("s3").unwrap(), None);

    store.delete_by_user_id("alice").unwrap();
    assert_eq!(store.get_by_user_id("alice").unwrap().len(), 0);
}

#[test]
fn expired_sessions_hidden() {
    let mut store = MemoryStore::new();
    let mut s = Session::new("alice");
    s.id = "exp".into();
    s.expires_at = Some(1); // long past
    store.create(&s).unwrap();
    assert_eq!(store.get("exp").unwrap(), None);
}

#[test]
fn new_session_is_active_and_bare() {
    let s = Session::new("u1");
    assert_eq!(s.user_id, "u1");
    assert_eq!(s.state, SessionState::Active);
    assert_eq!(s.public_key, None);
    assert_eq!(s.algorithm, None);
    assert_eq!(s.challenge, None);
    assert_eq!(s.expires_at, None);
    assert!((now_unix() - s.created_at).abs() <= 2);
    assert_eq!(s, Session::starting(s.id.clone(), "u1", s.created_at));
}

#[test]
fn session_ids_are_random_version_four_uuids() {
    let a = Session::new("u").id;
    let b = Session::new("u").id;
    assert_ne!(a, b);
    for id in [a, b] {
        let c: Vec<char> = id.chars().collect();
        assert_eq!(c.len(), 36);
        for (i, x) in c.iter().enumerate() {
            if [8, 13, 18, 23].contains(&i) {
                assert_eq!(*x, '-');
            } else {
                assert!(x.is_ascii_digit() || ('a'..='f').contains(x));
            }
        }
        assert_eq!(c[14], '4');
        assert!(['8', '9', 'a', 'b'].contains(&c[19]));
    }
}

#[test]
fn unix_time_of_clock_readings() {
    assert_eq!(unix_time_of(&UNIX_EPOCH), 0);
    assert_eq!(unix_time_of(&(UNIX_EPOCH + Duration::from_millis(12_999))), 12);
    assert_eq!(unix_time_of(&(UNIX_EPOCH - Duration::from_secs(5))), 0);
    assert!(now_unix() > 1_600_000_000);
}

#[test]
fn write_is_read_back_until_it_expires() {
    let mut store = MemoryStore::default();
    let mut s = Session::new("alice");
    s.id = "a".into();
    s.expires_at = Some(50);
    store.create(&s).unwrap();
    assert_eq!(store.get_at("a", 49), Some(s.clone()));
    assert_eq!(store.get_at("a", 50), None);
    assert_eq!(store.get_by_user_id_at("alice", 49), vec![s.clone()]);
    assert_eq!(store.get_by_user_id_at("alice", 50), vec![]);
    // The stored copy is independent of the caller's value.
    s.user_id = "mallory".into();
    assert_eq!(store.get_at("a", 0).unwrap().user_id, "alice");
}

#[test]
fn operations_leave_other_sessions_alone() {
    let mut store = MemoryStore::new();
    for (id, user) in [("1", "alice"), ("2", "bob"), ("3", "alice"), ("4", "bob")] {
        let mut s = Session::new(user);
        s.id = id.into();
        store.create(&s).unwrap();
    }
    store.delete("2").unwrap();
    assert!(store.get("1").unwrap().is_some());
    assert!(store.get("2").unwrap().is_none());
    assert!(store.get("4").unwrap().is_some());
    store.delete_by_user_id("alice").unwrap();
    assert!(store.get("1").unwrap().is_none());
    assert!(store.get("3").unwrap().is_none());
    let left = store.get_by_user_id("bob").unwrap();
    assert_eq!(left.len(), 1);
    assert_eq!(left[0].id, "4");
}
