use dbsc::header::{self, parse_quoted};
use dbsc::jwt::{self, base64url_encode};
use dbsc::manager::{known_session, Decision};
use dbsc::session::now_unix;
use dbsc::{
    generate_challenge, Error, Manager, ManagerConfig, ManagerResponse, MemoryStore, Result, Session,
    SessionState, SessionStore,
};
use p256::ecdsa::{signature::Signer, Signature, SigningKey};
use p256::elliptic_curve::Generate;
use serde_json::Value;

/// Generate an ES256 signing key and its public JWK.
fn make_es256_key() -> (SigningKey, Value) {
    let key = SigningKey::generate();
    let point = key.verifying_key().to_sec1_point(false);
    let jwk = object(&[
        ("kty", "EC"),
        ("crv", "P-256"),
        ("x", &base64url_encode(point.x().unwrap())),
        ("y", &base64url_encode(point.y().unwrap())),
    ]);
    (key, jwk)
}

/// A JSON object of strings.
fn object(members: &[(&str, &str)]) -> Value {
    let mut map = serde_json::Map::new();
    for (name, value) in members {
        map.insert(name.to_string(), Value::String(value.to_string()));
    }
    Value::Object(map)
}

/// Build and sign an ES256 JWT.
fn sign_es256(
    key: &SigningKey,
    jwk: Option<&Value>,
    typ: &str,
    jti: &str,
    authorization: Option<&str>,
) -> String {
    let mut header = object(&[("alg", "ES256"), ("typ", typ)]);
    if let Some(jwk) = jwk {
        header["jwk"] = jwk.clone();
    }
    let mut payload = object(&[("jti", jti)]);
    if let Some(a) = authorization {
        payload["authorization"] = serde_json::Value::String(a.to_string());
    }
    let input = format!(
        "{}.{}",
        base64url_encode(header.to_string().as_bytes()),
        base64url_encode(payload.to_string().as_bytes())
    );
    let sig: Signature = key.sign(input.as_bytes());
    format!("{}.{}", input, base64url_encode(&sig.to_bytes()))
}

fn setup() -> Manager<MemoryStore> {
    Manager::new(
        MemoryStore::new(),
        ManagerConfig {
            authorization: Some("auth-code".into()),
            session_ttl_seconds: Some(600),
            ..Default::default()
        },
    )
}

#[test]
fn full_flow() {
    let mut mgr = setup();

    // initiate
    let (session, resp) = mgr.initiate("alice").unwrap();
    assert_eq!(resp.status_code, 200);
    let cookie = resp.set_cookie.unwrap();
    assert!(cookie.starts_with("session_id="));
    assert!(cookie.contains("HttpOnly"));
    let reg = resp.registration_header.unwrap();
    assert!(reg.starts_with("(ES256 RS256)"));
    assert!(reg.contains("path=\"/dbsc/register\""));
    assert!(reg.contains("authorization=\"auth-code\""));

    // register without proof -> 403 + challenge with id
    let r = mgr.register(&session.id, None).unwrap();
    assert_eq!(r.status_code, 403);
    assert!(r.challenge_header.unwrap().contains(";id=\""));

    // register with invalid proof (wrong challenge) -> 403
    let (key, jwk) = make_es256_key();
    let bad = sign_es256(&key, Some(&jwk), "dbsc+jwt", "wrong", Some("auth-code"));
    let hdr = header::session_response_header(&bad);
    let r = mgr.register(&session.id, Some(&hdr)).unwrap();
    assert_eq!(r.status_code, 403);

    // register with valid proof -> 200, session bound
    let current = mgr.get_session(&session.id).unwrap().unwrap();
    let challenge = current.challenge.clone().unwrap();
    let good = sign_es256(&key, Some(&jwk), "dbsc+jwt", &challenge, Some("auth-code"));
    let hdr = header::session_response_header(&good);
    let r = mgr.register(&session.id, Some(&hdr)).unwrap();
    assert_eq!(r.status_code, 200);
    assert!(r.challenge_header.is_some());
    let body = r.body.unwrap();
    assert!(body.contains("\"session_identifier\""));

    let bound = mgr.get_session(&session.id).unwrap().unwrap();
    assert_eq!(bound.state, SessionState::Bound);
    assert_eq!(bound.public_key, Some(jwk.to_string()));
    assert_eq!(bound.algorithm.as_deref(), Some("ES256"));
    assert_ne!(bound.challenge.as_deref(), Some(challenge.as_str()));
    assert_eq!(bound.expires_at, Some(bound.created_at + 600));

    // refresh without proof -> 403 + challenge
    let r = mgr.refresh(&session.id, None).unwrap();
    assert_eq!(r.status_code, 403);
    assert!(r.challenge_header.unwrap().contains(&format!("id=\"{}\"", session.id)));

    // refresh with valid proof -> 200
    let current = mgr.get_session(&session.id).unwrap().unwrap();
    let proof = sign_es256(
        &key,
        None,
        "dbsc+jwt",
        current.challenge.as_deref().unwrap(),
        None,
    );
    let hdr = header::session_response_header(&proof);
    let r = mgr.refresh(&session.id, Some(&hdr)).unwrap();
    assert_eq!(r.status_code, 200);
    assert!(r.body.unwrap().contains("\"continue\":true"));

    // refresh again with the old (rotated-out) challenge -> 403
    let hdr = header::session_response_header(&proof);
    let r = mgr.refresh(&session.id, Some(&hdr)).unwrap();
    assert_eq!(r.status_code, 403);

    // refresh on active session -> 400
    let (s2, _) = mgr.initiate("bob").unwrap();
    assert_eq!(mgr.refresh(&s2.id, None).unwrap().status_code, 400);

    // unknown session ids
    assert_eq!(mgr.register("nope", None).unwrap().status_code, 401);
    assert_eq!(mgr.refresh("nope", None).unwrap().status_code, 401);

    // close -> 200, {"continue":false}, expired cookie, session gone
    let r = mgr.close(&session.id).unwrap();
    assert_eq!(r.status_code, 200);
    assert_eq!(r.body.as_deref(), Some("{\"continue\":false}"));
    assert!(r.set_cookie.unwrap().contains("Max-Age=0"));
    assert!(mgr.get_session(&session.id).unwrap().is_none());
}

#[test]
fn register_wrong_authorization_rejected() {
    let mut mgr = setup();
    let (session, _) = mgr.initiate("alice").unwrap();
    let (key, jwk) = make_es256_key();
    let challenge = mgr
        .get_session(&session.id)
        .unwrap()
        .unwrap()
        .challenge
        .unwrap();
    let token =
        sign_es256(&key, Some(&jwk), "dbsc+jwt", &challenge, Some("other"));
    let hdr = header::session_response_header(&token);
    assert_eq!(mgr.register(&session.id, Some(&hdr)).unwrap().status_code, 403);
}

#[test]
fn challenge_is_64_hex_chars() {
    let c = generate_challenge();
    assert_eq!(c.len(), 64);
    assert!(c.chars().all(|c| c.is_ascii_hexdigit()));
}

#[test]
fn expired_session_is_gone() {
    let mut mgr = Manager::new(
        MemoryStore::new(),
        ManagerConfig {
            session_ttl_seconds: Some(60),
            ..Default::default()
        },
    );
    let (session, _) = mgr.initiate("alice").unwrap();
    assert!(mgr.get_session(&session.id).unwrap().is_some());

    // Force the stored session into the past.
    let mut expired = mgr.store.get(&session.id).unwrap().unwrap();
    expired.expires_at = Some(now_unix() - 1);
    mgr.store.update(&expired).unwrap();

    assert!(mgr.get_session(&session.id).unwrap().is_none());
    // Protocol endpoints treat it as unknown.
    assert_eq!(mgr.register(&session.id, None).unwrap().status_code, 401);
    assert_eq!(mgr.refresh(&session.id, None).unwrap().status_code, 401);
}

#[test]
fn cookie_domain_included_when_configured() {
    let mut mgr = Manager::new(
        MemoryStore::new(),
        ManagerConfig {
            cookie_domain: Some("example.com".into()),
            same_site: "Strict".into(),
            ..Default::default()
        },
    );
    let (_, resp) = mgr.initiate("alice").unwrap();
    let cookie = resp.set_cookie.unwrap();
    assert!(cookie.contains("; Domain=example.com"));
    assert!(cookie.contains("; SameSite=Strict"));
    assert!(cookie.contains("; Secure"));

    // Without a domain, no Domain attribute is emitted.
    let mut mgr2 = Manager::new(MemoryStore::new(), ManagerConfig::default());
    let (_, resp2) = mgr2.initiate("alice").unwrap();
    assert!(!resp2.set_cookie.unwrap().contains("Domain="));
}

fn plain() -> Manager<MemoryStore> {
    Manager::new(MemoryStore::new(), ManagerConfig::default())
}

/// A session of `mgr` that is bound to a fresh key.
fn bound(mgr: &mut Manager<MemoryStore>) -> (String, SigningKey) {
    let (session, _) = mgr.initiate("alice").unwrap();
    let (key, jwk) = make_es256_key();
    let token = sign_es256(&key, Some(&jwk), "dbsc+jwt", &session.challenge.unwrap(), None);
    let hdr = header::session_response_header(&token);
    assert_eq!(mgr.register(&session.id, Some(&hdr)).unwrap().status_code, 200);
    (session.id, key)
}

#[test]
fn default_configuration() {
    let c = ManagerConfig::default();
    assert_eq!(c.cookie_name, "session_id");
    assert_eq!(c.cookie_path, "/");
    assert_eq!(c.cookie_domain, None);
    assert_eq!(c.same_site, "Lax");
    assert!(c.secure);
    assert_eq!(c.cookie_ttl_seconds, 3600);
    assert_eq!(c.session_ttl_seconds, None);
    assert_eq!(c.authorization, None);
    assert_eq!(c.register_path, "/dbsc/register");
    assert_eq!(c.refresh_path, "/dbsc/refresh");
}

#[test]
fn bare_responses() {
    let r = ManagerResponse::with_status(418);
    assert_eq!(r.status_code, 418);
    assert!(r.set_cookie.is_none() && r.registration_header.is_none());
    assert!(r.challenge_header.is_none() && r.body.is_none());
    assert_eq!(ManagerResponse::default().status_code, 0);
    let mut s = Session::starting("i".into(), "u", 0);
    assert_eq!(ManagerResponse::challenge_failure(&s).challenge_header.unwrap(), "\"\";id=\"i\"");
    s.challenge = Some("c".into());
    let r = ManagerResponse::challenge_failure(&s);
    assert_eq!(r.status_code, 403);
    assert_eq!(r.challenge_header.unwrap(), "\"c\";id=\"i\"");
}

#[test]
fn cookie_in_full() {
    let mut mgr = plain();
    assert_eq!(
        mgr.build_cookie("abc", 3600),
        "session_id=abc; Path=/; Max-Age=3600; HttpOnly; Secure; SameSite=Lax"
    );
    mgr.config.secure = false;
    mgr.config.cookie_domain = Some("example.com".into());
    assert_eq!(
        mgr.build_cookie("", u64::MAX),
        "session_id=; Path=/; Max-Age=18446744073709551615; HttpOnly; SameSite=Lax; Domain=example.com"
    );
}

#[test]
fn initiation_from_given_values() {
    let mgr = setup();
    let s = mgr.start_session("id-1".into(), "alice", 7, "ch".into(), 1000);
    assert_eq!(s.id, "id-1");
    assert_eq!(s.user_id, "alice");
    assert_eq!(s.state, SessionState::Active);
    assert_eq!(s.created_at, 7);
    assert_eq!(s.challenge.as_deref(), Some("ch"));
    assert_eq!(s.expires_at, Some(1600));
    let r = mgr.initiation_response(&s);
    assert_eq!(r.status_code, 200);
    assert_eq!(
        r.registration_header.unwrap(),
        "(ES256 RS256);path=\"/dbsc/register\";challenge=\"ch\";authorization=\"auth-code\""
    );
    assert!(r.set_cookie.unwrap().starts_with("session_id=id-1; "));
    assert!(r.challenge_header.is_none() && r.body.is_none());
}

#[test]
fn ttl_wraps_beyond_the_clock_range() {
    let mut mgr = plain();
    let mut s = Session::starting("i".into(), "u", 0);
    mgr.apply_ttl_at(&mut s, 5);
    assert_eq!(s.expires_at, None);
    mgr.config.session_ttl_seconds = Some(10);
    mgr.apply_ttl_at(&mut s, 5);
    assert_eq!(s.expires_at, Some(15));
    mgr.apply_ttl_at(&mut s, i64::MAX);
    assert_eq!(s.expires_at, Some(i64::MIN + 9));
    mgr.config.session_ttl_seconds = Some(u64::MAX);
    mgr.apply_ttl_at(&mut s, 5);
    assert_eq!(s.expires_at, Some(4));
}

#[test]
fn binding_and_renewal_from_given_values() {
    let mgr = setup();
    let s = mgr.start_session("id-1".into(), "alice", 7, "ch".into(), 1000);
    let (key, jwk) = make_es256_key();
    let token = sign_es256(&key, Some(&jwk), "dbsc+jwt", "ch", Some("auth-code"));
    let proof = jwt::verify_registration(&token).unwrap();
    let b = mgr.bind(&s, &proof, "next".into(), 2000);
    assert_eq!(b.state, SessionState::Bound);
    assert_eq!(b.public_key, Some(jwk.to_string()));
    assert_eq!(b.algorithm.as_deref(), Some("ES256"));
    assert_eq!(b.challenge.as_deref(), Some("next"));
    assert_eq!(b.expires_at, Some(2600));
    assert_eq!((b.id.as_str(), b.user_id.as_str(), b.created_at), ("id-1", "alice", 7));
    let body = "{\"continue\":true,\"session_identifier\":\"id-1\",\"refresh_url\":\"/dbsc/refresh\",\"scope\":{\"include_site\":false},\"credentials\":[{\"type\":\"cookie\",\"name\":\"session_id\"}]}";
    let r = mgr.binding_response(&b).unwrap();
    assert_eq!(r.status_code, 200);
    assert_eq!(r.challenge_header.as_deref(), Some("\"next\";id=\"id-1\""));
    assert!(r.set_cookie.unwrap().starts_with("session_id=id-1; "));
    assert_eq!(r.body.as_deref(), Some(body));
    let n = mgr.renew(&b, "third".into(), 3000);
    assert_eq!(n.challenge.as_deref(), Some("third"));
    assert_eq!(n.expires_at, Some(3600));
    assert_eq!(n.public_key, b.public_key);
    let r = mgr.refresh_response(&n).unwrap();
    assert_eq!(r.challenge_header.as_deref(), Some("\"third\";id=\"id-1\""));
    assert!(r.set_cookie.is_none());
    assert_eq!(r.body.as_deref(), Some(body));
}

#[test]
fn bound_session_is_not_registered_again() {
    let mut mgr = plain();
    let (id, key) = bound(&mut mgr);
    let before = mgr.get_session(&id).unwrap().unwrap();
    let (_, other) = make_es256_key();
    let token = sign_es256(&key, Some(&other), "dbsc+jwt", "x", None);
    let hdr = header::session_response_header(&token);
    assert_eq!(mgr.register(&id, Some(&hdr)).unwrap().status_code, 400);
    assert_eq!(mgr.register(&id, None).unwrap().status_code, 400);
    assert_eq!(mgr.get_session(&id).unwrap().unwrap(), before);
}

#[test]
fn refused_proof_gets_the_current_challenge() {
    let mut mgr = plain();
    let (id, key) = bound(&mut mgr);
    let s = mgr.get_session(&id).unwrap().unwrap();
    let challenge = s.challenge.clone().unwrap();
    let stale = sign_es256(&key, None, "dbsc+jwt", "stale", None);
    for hdr in [None, Some("unquoted".to_string()), Some(header::session_response_header(&stale))] {
        let r = mgr.refresh(&id, hdr.as_deref()).unwrap();
        assert_eq!(r.status_code, 403);
        let h = r.challenge_header.unwrap();
        assert_eq!(h, format!("\"{}\";id=\"{}\"", challenge, id));
        assert_eq!(parse_quoted(h.split(';').next().unwrap()), Some(challenge.clone()));
        assert!(r.body.is_none() && r.set_cookie.is_none());
    }
    assert_eq!(mgr.get_session(&id).unwrap().unwrap(), s);
}

#[test]
fn proof_is_good_for_one_refresh() {
    let mut mgr = plain();
    let (id, key) = bound(&mut mgr);
    let c = mgr.get_session(&id).unwrap().unwrap().challenge.unwrap();
    let hdr = header::session_response_header(&sign_es256(&key, None, "dbsc+jwt", &c, None));
    assert_eq!(mgr.refresh(&id, Some(&hdr)).unwrap().status_code, 200);
    assert_eq!(mgr.refresh(&id, Some(&hdr)).unwrap().status_code, 403);
}

#[test]
fn another_key_does_not_refresh() {
    let mut mgr = plain();
    let (id, _) = bound(&mut mgr);
    let c = mgr.get_session(&id).unwrap().unwrap().challenge.unwrap();
    let (other, _) = make_es256_key();
    let hdr = header::session_response_header(&sign_es256(&other, None, "dbsc+jwt", &c, None));
    assert_eq!(mgr.refresh(&id, Some(&hdr)).unwrap().status_code, 403);
}

#[test]
fn proof_without_key_binds_nothing() {
    let mut mgr = plain();
    let (session, _) = mgr.initiate("alice").unwrap();
    let challenge = session.challenge.clone().unwrap();
    let token = format!(
        "{}.{}.",
        base64url_encode(b"{\"alg\":\"none\",\"typ\":\"dbsc+jwt\"}"),
        base64url_encode(object(&[("jti", &challenge)]).to_string().as_bytes()),
    );
    assert_eq!(jwt::verify_registration(&token).unwrap().challenge, challenge);
    let hdr = header::session_response_header(&token);
    let r = mgr.register(&session.id, Some(&hdr)).unwrap();
    assert_eq!(r.status_code, 403);
    assert_eq!(r.challenge_header, Some(header::challenge_header(&challenge, &session.id)));
    assert_eq!(mgr.get_session(&session.id).unwrap(), Some(session));
}

#[test]
fn stored_session_bound_without_key_fails_to_refresh() {
    let mut mgr = plain();
    let mut s = Session::new("alice");
    s.state = SessionState::Bound;
    s.challenge = Some("c".into());
    mgr.store.create(&s).unwrap();
    assert_eq!(mgr.refresh(&s.id, None).unwrap().status_code, 403);
    match mgr.refresh(&s.id, Some("\"token\"")) {
        Err(Error::Store(m)) => assert_eq!(m, "bound session without public key"),
        _ => panic!("no failure"),
    }
}

#[test]
fn answers_to_what_the_store_gave() {
    let s = Session::new("alice");
    assert_eq!(known_session(Ok(Some(s.clone()))).unwrap(), s);
    assert_eq!(known_session(Ok(None)).unwrap_err().unwrap().status_code, 401);
    let e = known_session(Err(Error::Store("down".into()))).unwrap_err().unwrap_err();
    assert_eq!(e.message(), "store error: down");
}

#[test]
fn sessions_with_a_ttl_are_found_until_they_expire() {
    let mut mgr = setup();
    let (s, _) = mgr.initiate("alice").unwrap();
    assert!(s.expires_at.is_some());
    assert_eq!(mgr.get_session(&s.id).unwrap(), Some(s.clone()));
    assert_eq!(mgr.register(&s.id, None).unwrap().status_code, 403);
    assert_eq!(mgr.refresh(&s.id, None).unwrap().status_code, 400);
}

/// A store whose writes to known sessions fail.
struct ReadOnlyStore(MemoryStore);

impl SessionStore for ReadOnlyStore {
    fn create(&mut self, session: &Session) -> Result<()> {
        self.0.create(session)
    }
    fn get(&self, id: &str) -> Result<Option<Session>> {
        self.0.get(id)
    }
    fn update(&mut self, _: &Session) -> Result<()> {
        Err(Error::Store("read only".into()))
    }
    fn delete(&mut self, _: &str) -> Result<()> {
        Err(Error::Store("no delete".into()))
    }
    fn get_by_user_id(&self, user_id: &str) -> Result<Vec<Session>> {
        self.0.get_by_user_id(user_id)
    }
    fn delete_by_user_id(&mut self, user_id: &str) -> Result<()> {
        self.0.delete_by_user_id(user_id)
    }
}

#[test]
fn failing_writes_are_passed_on() {
    let mut mgr = Manager::new(ReadOnlyStore(MemoryStore::new()), ManagerConfig::default());
    let (s, _) = mgr.initiate("alice").unwrap();
    let (key, jwk) = make_es256_key();
    let token = sign_es256(&key, Some(&jwk), "dbsc+jwt", s.challenge.as_deref().unwrap(), None);
    let hdr = header::session_response_header(&token);
    let e = mgr.register(&s.id, Some(&hdr)).unwrap_err();
    assert_eq!(e.message(), "store error: read only");
    assert_eq!(mgr.close(&s.id).unwrap_err().message(), "store error: no delete");
    assert_eq!(mgr.get_session(&s.id).unwrap(), Some(s));
}

#[test]
fn decisions_on_given_sessions() {
    let mgr = setup();
    let mut s = mgr.start_session("id-1".into(), "alice", 0, "ch".into(), 0);
    let (key, jwk) = make_es256_key();
    let good = sign_es256(&key, Some(&jwk), "dbsc+jwt", "ch", Some("auth-code"));
    let good = header::session_response_header(&good);
    let bare = sign_es256(&key, Some(&jwk), "dbsc+jwt", "ch", None);
    let bare = header::session_response_header(&bare);
    assert!(matches!(mgr.decide_registration(&s, Some(&good)), Decision::Accept(_)));
    assert!(matches!(mgr.decide_registration(&s, Some(&bare)), Decision::Refuse(_)));
    assert!(matches!(mgr.decide_registration(&s, None), Decision::Refuse(_)));
    s.challenge = None;
    assert!(matches!(mgr.decide_registration(&s, Some(&good)), Decision::Refuse(_)));
    s.state = SessionState::Bound;
    match mgr.decide_registration(&s, Some(&good)) {
        Decision::Refuse(r) => assert_eq!(r.status_code, 400),
        _ => panic!("decided otherwise"),
    }
    s.challenge = Some("ch".into());
    s.public_key = Some(jwk.to_string());
    let token = sign_es256(&key, None, "dbsc+jwt", "ch", None);
    let token = header::session_response_header(&token);
    match mgr.decide_refresh(&s, Some(&token)) {
        Decision::Accept(proof) => assert_eq!(proof.challenge, "ch"),
        _ => panic!("decided otherwise"),
    }
    s.public_key = Some("{}".into());
    assert!(matches!(mgr.decide_refresh(&s, Some(&token)), Decision::Refuse(_)));
    s.public_key = None;
    assert!(matches!(mgr.decide_refresh(&s, Some(&token)), Decision::Fail(_)));
}

#[test]
fn closing_twice_and_closing_others() {
    let mut mgr = plain();
    let (a, _) = mgr.initiate("alice").unwrap();
    let (b, _) = mgr.initiate("alice").unwrap();
    let r = mgr.close(&a.id).unwrap();
    assert_eq!(
        r.set_cookie.as_deref(),
        Some("session_id=; Path=/; Max-Age=0; HttpOnly; Secure; SameSite=Lax")
    );
    assert_eq!(mgr.close(&a.id).unwrap().status_code, 200);
    assert_eq!(mgr.register(&a.id, None).unwrap().status_code, 401);
    assert_eq!(mgr.register(&b.id, None).unwrap().status_code, 403);
}

#[test]
fn challenges_differ() {
    assert_ne!(generate_challenge(), generate_challenge());
}

/// A store that holds nothing and fails.
struct BrokenStore;

fn broken<T>() -> Result<T> {
    Err(Error::Store("down".into()))
}

impl SessionStore for BrokenStore {
    fn create(&mut self, _: &Session) -> Result<()> {
        broken()
    }
    fn get(&self, _: &str) -> Result<Option<Session>> {
        broken()
    }
    fn update(&mut self, _: &Session) -> Result<()> {
        broken()
    }
    fn delete(&mut self, _: &str) -> Result<()> {
        broken()
    }
    fn get_by_user_id(&self, _: &str) -> Result<Vec<Session>> {
        broken()
    }
    fn delete_by_user_id(&mut self, _: &str) -> Result<()> {
        broken()
    }
}

#[test]
fn store_failures_are_passed_on() {
    let mut mgr = Manager::new(BrokenStore, ManagerConfig::default());
    assert_eq!(mgr.initiate("u").unwrap_err().message(), "store error: down");
    assert_eq!(mgr.register("i", None).unwrap_err().message(), "store error: down");
    assert_eq!(mgr.refresh("i", None).unwrap_err().message(), "store error: down");
    assert_eq!(mgr.close("i").unwrap_err().message(), "store error: down");
    assert_eq!(mgr.get_session("i").unwrap_err().message(), "store error: down");
}
