//! DBSC protocol orchestration (registration, refresh, close).

use rand::Rng;
use vstd::prelude::*;
use crate::error::{Error, ErrorView, Result};
use crate::header;
use crate::instruction;
use crate::instruction::{InstructionView, SessionCredential, SessionInstruction, SessionScope};
use crate::json;
use crate::jwt;
use crate::jwt::{ProofJwt, ProofView};
use crate::session;
use crate::session::{now_unix, Session, SessionState, SessionView};
use crate::store;
use crate::store::{Contents, SessionStore};
use crate::text;
use crate::text::{as_str_opt, decimal_of, hex_of, str_eq};

verus! {

/// Manager configuration.
#[derive(Debug, Clone)]
pub struct ManagerConfig {
    /// Cookie name. Defaults to `"session_id"`.
    pub cookie_name: String,
    /// Cookie path. Defaults to `"/"`.
    pub cookie_path: String,
    /// Optional cookie domain.
    pub cookie_domain: Option<String>,
    /// `SameSite` attribute. Defaults to `"Lax"`.
    pub same_site: String,
    /// Whether the cookie carries the `Secure` attribute.
    pub secure: bool,
    /// Browser cookie TTL in seconds. Defaults to 3600.
    pub cookie_ttl_seconds: u64,
    /// Backend session TTL in seconds (`None` = infinite).
    pub session_ttl_seconds: Option<u64>,
    /// Optional authorization value echoed in the registration header and
    /// verified against the proof JWT's `authorization` claim.
    pub authorization: Option<String>,
    /// Registration endpoint path. Defaults to `"/dbsc/register"`.
    pub register_path: String,
    /// Refresh endpoint path. Defaults to `"/dbsc/refresh"`.
    pub refresh_path: String,
}

/// What a [`ManagerConfig`] says.
pub struct ConfigView {
    pub cookie_name: Seq<char>,
    pub cookie_path: Seq<char>,
    pub cookie_domain: Option<Seq<char>>,
    pub same_site: Seq<char>,
    pub secure: bool,
    pub cookie_ttl_seconds: u64,
    pub session_ttl_seconds: Option<u64>,
    pub authorization: Option<Seq<char>>,
    pub register_path: Seq<char>,
    pub refresh_path: Seq<char>,
}

impl View for ManagerConfig {
    type V = ConfigView;

    open spec fn view(&self) -> ConfigView {
        ConfigView {
            cookie_name: self.cookie_name@,
            cookie_path: self.cookie_path@,
            cookie_domain: text::opt_view(self.cookie_domain),
            same_site: self.same_site@,
            secure: self.secure,
            cookie_ttl_seconds: self.cookie_ttl_seconds,
            session_ttl_seconds: self.session_ttl_seconds,
            authorization: text::opt_view(self.authorization),
            register_path: self.register_path@,
            refresh_path: self.refresh_path@,
        }
    }
}

/// The configuration that nothing was said about.
pub open spec fn default_config() -> ConfigView {
    ConfigView {
        cookie_name: "session_id"@,
        cookie_path: "/"@,
        cookie_domain: None,
        same_site: "Lax"@,
        secure: true,
        cookie_ttl_seconds: 3600,
        session_ttl_seconds: None,
        authorization: None,
        register_path: "/dbsc/register"@,
        refresh_path: "/dbsc/refresh"@,
    }
}

impl Default for ManagerConfig {
    fn default() -> (r: Self)
        ensures
            r@ == default_config(),
    {
        ManagerConfig {
            cookie_name: "session_id".to_owned(),
            cookie_path: "/".to_owned(),
            cookie_domain: None,
            same_site: "Lax".to_owned(),
            secure: true,
            cookie_ttl_seconds: 3600,
            session_ttl_seconds: None,
            authorization: None,
            register_path: "/dbsc/register".to_owned(),
            refresh_path: "/dbsc/refresh".to_owned(),
        }
    }
}

/// Response produced by the manager; a wrapper layer translates it into
/// HTTP status, headers, and body.
#[derive(Debug, Clone)]
pub struct ManagerResponse {
    /// HTTP status code.
    pub status_code: u16,
    /// Full `Set-Cookie` header value.
    pub set_cookie: Option<String>,
    /// `Secure-Session-Registration` header value.
    pub registration_header: Option<String>,
    /// `Secure-Session-Challenge` header value.
    pub challenge_header: Option<String>,
    /// JSON response body.
    pub body: Option<String>,
}

/// What a [`ManagerResponse`] says.
pub struct ResponseView {
    pub status_code: u16,
    pub set_cookie: Option<Seq<char>>,
    pub registration_header: Option<Seq<char>>,
    pub challenge_header: Option<Seq<char>>,
    pub body: Option<Seq<char>>,
}

impl View for ManagerResponse {
    type V = ResponseView;

    open spec fn view(&self) -> ResponseView {
        ResponseView {
            status_code: self.status_code,
            set_cookie: text::opt_view(self.set_cookie),
            registration_header: text::opt_view(self.registration_header),
            challenge_header: text::opt_view(self.challenge_header),
            body: text::opt_view(self.body),
        }
    }
}

/// A response with nothing but a status.
pub open spec fn bare_status(status_code: u16) -> ResponseView {
    ResponseView {
        status_code,
        set_cookie: None,
        registration_header: None,
        challenge_header: None,
        body: None,
    }
}

/// The text of a value that may be missing: then it is empty.
pub open spec fn or_empty(s: Option<Seq<char>>) -> Seq<char> {
    match s {
        Some(t) => t,
        None => Seq::empty(),
    }
}

/// The `Secure-Session-Challenge` header that hands out the current challenge of
/// a session.
pub open spec fn current_challenge(s: SessionView) -> Seq<char> {
    header::challenge_text(or_empty(s.challenge), s.id)
}

/// The refusal of a proof: status 403 and the current challenge of the session.
pub open spec fn refusal(s: SessionView) -> ResponseView {
    ResponseView { challenge_header: Some(current_challenge(s)), ..bare_status(403) }
}

impl Default for ManagerResponse {
    fn default() -> (r: Self)
        ensures
            r@ == bare_status(0),
    {
        ManagerResponse::with_status(0)
    }
}

fn or_empty_str(s: &Option<String>) -> (r: &str)
    ensures
        r@ == or_empty(text::opt_view(*s)),
{
    match s {
        Some(t) => t.as_str(),
        None => {
            proof {
                reveal_strlit("");
                assert(""@ =~= Seq::<char>::empty());
            }
            ""
        },
    }
}

impl ManagerResponse {
    /// A response with nothing but a status.
    pub fn with_status(status_code: u16) -> (r: Self)
        ensures
            r@ == bare_status(status_code),
    {
        ManagerResponse {
            status_code,
            set_cookie: None,
            registration_header: None,
            challenge_header: None,
            body: None,
        }
    }

    /// 403 response carrying the current challenge of `session`
    /// (`Secure-Session-Challenge` with the mandatory `id` parameter).
    pub fn challenge_failure(session: &Session) -> (r: Self)
        ensures
            r@ == refusal(session@),
    {
        let mut r = ManagerResponse::with_status(403);
        r.challenge_header = Some(
            header::challenge_header(or_empty_str(&session.challenge), session.id.as_str()),
        );
        r
    }
}

/// The `Set-Cookie` value for a session id and a lifetime in seconds.
pub open spec fn cookie_text(c: ConfigView, session_id: Seq<char>, max_age: u64) -> Seq<char> {
    c.cookie_name + "="@ + session_id + "; Path="@ + c.cookie_path + "; Max-Age="@ + text::decimal(
        max_age as nat,
    ) + "; HttpOnly"@ + (if c.secure {
        "; Secure"@
    } else {
        Seq::empty()
    }) + "; SameSite="@ + c.same_site + (match c.cookie_domain {
        Some(domain) => "; Domain="@ + domain,
        None => Seq::empty(),
    })
}

/// The unix time `ttl` seconds after `now`, in 64-bit arithmetic that wraps.
pub open spec fn expiry_after(now: i64, ttl: u64) -> i64 {
    now.wrapping_add(ttl as i64)
}

/// A session with its expiry set anew from the configured TTL, where there is one.
pub open spec fn with_ttl(c: ConfigView, s: SessionView, now: i64) -> SessionView {
    match c.session_ttl_seconds {
        Some(ttl) => SessionView { expires_at: Some(expiry_after(now, ttl)), ..s },
        None => s,
    }
}

/// The instruction for a session that goes on: refresh at the refresh endpoint,
/// one cookie as credential, the scope left at its defaults.
pub open spec fn session_instruction(c: ConfigView, session_id: Seq<char>) -> InstructionView {
    InstructionView {
        session_identifier: session_id,
        refresh_url: Some(c.refresh_path),
        continue_session: true,
        scope: instruction::default_scope(),
        credentials: seq![
            instruction::CredentialView {
                cred_type: "cookie"@,
                name: c.cookie_name,
                attributes: None,
            },
        ],
        allowed_refresh_initiators: Seq::empty(),
    }
}

/// Whether `bytes` were drawn at random.
pub closed spec fn is_drawn(bytes: Seq<u8>) -> bool {
    exists|drawn: [u8; 32]| #[trigger] call_ensures(random_bytes, (), drawn) && drawn@ == bytes
}

/// Whether `s` is a challenge: 32 bytes drawn at random, in lower-case
/// hexadecimal.
pub open spec fn is_challenge(s: Seq<char>) -> bool {
    exists|bytes: Seq<u8>|
        is_drawn(bytes) && bytes.len() == 32 && s == #[trigger] text::hex(bytes)
}

/// The session that a login starts.
pub open spec fn initiated(
    c: ConfigView,
    id: Seq<char>,
    user_id: Seq<char>,
    created_at: i64,
    challenge: Seq<char>,
    now: i64,
) -> SessionView {
    with_ttl(
        c,
        SessionView {
            challenge: Some(challenge),
            ..session::starting_session(id, user_id, created_at)
        },
        now,
    )
}

/// The answer to a login: the session cookie and the registration header.
pub open spec fn initiation_response(c: ConfigView, s: SessionView) -> ResponseView {
    ResponseView {
        set_cookie: Some(cookie_text(c, s.id, c.cookie_ttl_seconds)),
        registration_header: Some(
            header::registration_text(
                seq!["ES256"@, "RS256"@],
                Some(c.register_path),
                s.challenge,
                c.authorization,
                None,
                None,
                None,
            ),
        ),
        ..bare_status(200)
    }
}

/// What becomes of a request for a session that is known.
pub enum Ruling {
    /// It is answered without any effect.
    Refuse(ResponseView),
    /// It fails.
    Fail(ErrorView),
    /// Its proof is accepted.
    Accept(ProofView),
}

/// A [`Ruling`] at run time.
#[derive(Debug)]
pub enum Decision {
    /// Answer with this response and do nothing else.
    Refuse(ManagerResponse),
    /// Fail with this error.
    Fail(Error),
    /// Go on with this proof.
    Accept(ProofJwt),
}

impl View for Decision {
    type V = Ruling;

    open spec fn view(&self) -> Ruling {
        match self {
            Decision::Refuse(response) => Ruling::Refuse(response@),
            Decision::Fail(e) => Ruling::Fail(e@),
            Decision::Accept(proof) => Ruling::Accept(proof@),
        }
    }
}

/// The token in a `Secure-Session-Response` header, where there is one.
pub open spec fn given_token(response_header: Option<Seq<char>>) -> Option<Seq<char>> {
    match response_header {
        Some(h) => header::unquoted(h),
        None => None,
    }
}

/// The ruling on a registration: the session must be active, the token a valid
/// registration proof with a key for its challenge, and the authorization the
/// configured one, where one is configured.
pub open spec fn registration_ruling(
    c: ConfigView,
    s: SessionView,
    response_header: Option<Seq<char>>,
) -> Ruling {
    if s.state != SessionState::Active {
        Ruling::Refuse(bare_status(400))
    } else {
        match given_token(response_header) {
            None => Ruling::Refuse(refusal(s)),
            Some(token) => match jwt::registration_proof(token) {
                Err(_) => Ruling::Refuse(refusal(s)),
                Ok(proof) => if s.challenge != Some(proof.challenge) {
                    Ruling::Refuse(refusal(s))
                } else if c.authorization is Some && proof.authorization != c.authorization {
                    Ruling::Refuse(refusal(s))
                } else if proof.jwk is None {
                    Ruling::Refuse(refusal(s))
                } else {
                    Ruling::Accept(proof)
                },
            },
        }
    }
}

/// The ruling on a registration when `got` is what the store gave for the
/// session: a failure of the store is handed on, a session that it does not have
/// is answered with status 401.
pub open spec fn registration_verdict(
    c: ConfigView,
    got: Result<Option<Session>>,
    response_header: Option<Seq<char>>,
) -> Ruling {
    match got {
        Err(e) => Ruling::Fail(e@),
        Ok(None) => Ruling::Refuse(bare_status(401)),
        Ok(Some(s)) => registration_ruling(c, s@, response_header),
    }
}

/// The session bound to the key of a proof, with a new challenge.
pub open spec fn bound(
    c: ConfigView,
    s: SessionView,
    proof: ProofView,
    challenge: Seq<char>,
    now: i64,
) -> SessionView {
    with_ttl(
        c,
        SessionView {
            state: SessionState::Bound,
            public_key: match proof.jwk {
                Some(jwk) => Some(jwk.json),
                None => None,
            },
            algorithm: Some(proof.algorithm),
            challenge: Some(challenge),
            ..s
        },
        now,
    )
}

/// Whether `next` is the session bound to the key of a proof with a challenge that
/// was drawn at random, as of a time that the clock showed.
pub open spec fn binds(
    c: ConfigView,
    s: SessionView,
    proof: ProofView,
    next: SessionView,
) -> bool {
    exists|challenge: Seq<char>, now: i64|
        is_challenge(challenge) && session::is_reading(now) && next == #[trigger] bound(
            c,
            s,
            proof,
            challenge,
            now,
        )
}

/// The answer to a registration that bound the session.
pub open spec fn binding_response(c: ConfigView, s: SessionView) -> ResponseView {
    ResponseView {
        set_cookie: Some(cookie_text(c, s.id, c.cookie_ttl_seconds)),
        ..refresh_response(c, s)
    }
}

/// The ruling on a refresh: the session must be bound, and the token a valid
/// refresh proof for its challenge under the registered key.
pub open spec fn refresh_ruling(s: SessionView, response_header: Option<Seq<char>>) -> Ruling {
    if s.state != SessionState::Bound {
        Ruling::Refuse(bare_status(400))
    } else {
        match given_token(response_header) {
            None => Ruling::Refuse(refusal(s)),
            Some(token) => match s.public_key {
                None => Ruling::Fail(ErrorView::Store("bound session without public key"@)),
                Some(key) => match jwt::refresh_proof(token, key) {
                    Err(_) => Ruling::Refuse(refusal(s)),
                    Ok(proof) => if s.challenge != Some(proof.challenge) {
                        Ruling::Refuse(refusal(s))
                    } else {
                        Ruling::Accept(proof)
                    },
                },
            },
        }
    }
}

/// The ruling on a refresh when `got` is what the store gave for the session: a
/// failure of the store is handed on, a session that it does not have is answered
/// with status 401.
pub open spec fn refresh_verdict(
    got: Result<Option<Session>>,
    response_header: Option<Seq<char>>,
) -> Ruling {
    match got {
        Err(e) => Ruling::Fail(e@),
        Ok(None) => Ruling::Refuse(bare_status(401)),
        Ok(Some(s)) => refresh_ruling(s@, response_header),
    }
}

/// Whether `next` is the session with a challenge that was drawn at random, as of
/// a time that the clock showed.
pub open spec fn renews(c: ConfigView, s: SessionView, next: SessionView) -> bool {
    exists|challenge: Seq<char>, now: i64|
        is_challenge(challenge) && session::is_reading(now) && next == #[trigger] refreshed(
            c,
            s,
            challenge,
            now,
        )
}

/// The session after a refresh: with a new challenge.
pub open spec fn refreshed(
    c: ConfigView,
    s: SessionView,
    challenge: Seq<char>,
    now: i64,
) -> SessionView {
    with_ttl(c, SessionView { challenge: Some(challenge), ..s }, now)
}

/// The answer to a refresh that succeeded.
pub open spec fn refresh_response(c: ConfigView, s: SessionView) -> ResponseView {
    ResponseView {
        challenge_header: Some(current_challenge(s)),
        body: Some(instruction::instruction_json(session_instruction(c, s.id))),
        ..bare_status(200)
    }
}

/// The answer to closing a session: the instruction to end it and an expired
/// cookie.
pub open spec fn closing_response(c: ConfigView) -> ResponseView {
    ResponseView {
        set_cookie: Some(cookie_text(c, Seq::empty(), 0)),
        body: Some(instruction::instruction_json(instruction::termination())),
        ..bare_status(200)
    }
}

/// `rand::rng` and its `fill_bytes`: 32 bytes, each of them a matter of chance.
/// The first use panics where the system has no random bytes to give.
#[verifier::external_body]
fn random_bytes() -> (r: [u8; 32]) {
    let mut bytes = [0u8; 32];
    rand::rng().fill_bytes(&mut bytes);
    bytes
}

/// Generate a random 32-byte hex challenge.
pub fn generate_challenge() -> (r: String)
    ensures
        is_challenge(r@),
        r@.len() == 64,
        forall|i: int| 0 <= i < 64 ==> text::is_hex_digit(#[trigger] r@[i]),
{
    let bytes = random_bytes();
    let r = hex_of(bytes.as_slice());
    proof {
        assert(is_drawn(bytes@));
        text::lemma_hex_digits(bytes@);
    }
    r
}

/// The session that the store gave, or the answer where it gave none: its failure
/// is handed on, and a session that it does not have is answered with status 401.
pub fn known_session(got: Result<Option<Session>>) -> (r: std::result::Result<
    Session,
    Result<ManagerResponse>,
>)
    ensures
        match got {
            Ok(Some(s)) => r == Ok::<Session, Result<ManagerResponse>>(s),
            Ok(None) => r matches Err(answer) && outcome(answer) == Ok::<ResponseView, ErrorView>(
                bare_status(401),
            ),
            Err(e) => r matches Err(answer) && outcome(answer) == Err::<ResponseView, ErrorView>(
                e@,
            ),
        },
{
    match got {
        Ok(Some(s)) => Ok(s),
        Ok(None) => Err(Ok(ManagerResponse::with_status(401))),
        Err(e) => Err(Err(e)),
    }
}

/// High-level DBSC manager implementing the protocol flows.
pub struct Manager<S: SessionStore> {
    /// Where the sessions are kept.
    pub store: S,
    /// How the manager was set up.
    pub config: ManagerConfig,
}

/// What a result says.
pub open spec fn outcome(r: Result<ManagerResponse>) -> std::result::Result<
    ResponseView,
    ErrorView,
> {
    match r {
        Ok(response) => Ok(response@),
        Err(e) => Err(e@),
    }
}

/// What an answer is after the store was written to: a failure of the store is
/// handed on.
pub open spec fn concluded(done: Result<()>, response: ResponseView) -> std::result::Result<
    ResponseView,
    ErrorView,
> {
    match done {
        Ok(_) => Ok(response),
        Err(e) => Err(e@),
    }
}

/// Whether `s` is the session that a login starts, with an id and a challenge that
/// were drawn at random, as of times that the clock showed.
pub open spec fn starts(c: ConfigView, user_id: Seq<char>, s: SessionView) -> bool {
    &&& session::is_uuid_v4(s.id)
    &&& session::is_drawn_id(s.id)
    &&& session::is_reading(s.created_at)
    &&& exists|challenge: Seq<char>, now: i64|
        is_challenge(challenge) && session::is_reading(now) && s == #[trigger] initiated(
            c,
            s.id,
            user_id,
            s.created_at,
            challenge,
            now,
        )
}

/// What a login does: the session is stored and announced.
pub open spec fn initiation_effect(
    c: ConfigView,
    before: Contents,
    after: Contents,
    user_id: Seq<char>,
    s: SessionView,
    response: ResponseView,
    challenge: Seq<char>,
    now: i64,
) -> bool {
    &&& session::is_uuid_v4(s.id)
    &&& session::is_drawn_id(s.id)
    &&& session::is_reading(s.created_at)
    &&& is_challenge(challenge)
    &&& session::is_reading(now)
    &&& s == initiated(c, s.id, user_id, s.created_at, challenge, now)
    &&& after == before.insert(s.id, s)
    &&& response == initiation_response(c, s)
}

/// What a registration does when the store reads the session at `read_at`, the
/// next challenge is `challenge` and the session is bound at `now`.
pub open spec fn registration_effect(
    c: ConfigView,
    before: Contents,
    after: Contents,
    id: Seq<char>,
    response_header: Option<Seq<char>>,
    result: std::result::Result<ResponseView, ErrorView>,
    read_at: i64,
    challenge: Seq<char>,
    now: i64,
) -> bool {
    session::is_reading(read_at) && match store::lookup(before, id, read_at) {
        None => after == before && result == Ok::<ResponseView, ErrorView>(bare_status(401)),
        Some(s) => match registration_ruling(c, s, response_header) {
            Ruling::Refuse(response) => after == before && result == Ok::<ResponseView, ErrorView>(
                response,
            ),
            Ruling::Fail(e) => after == before && result == Err::<ResponseView, ErrorView>(e),
            Ruling::Accept(proof) => {
                let next = bound(c, s, proof, challenge, now);
                &&& is_challenge(challenge)
                &&& session::is_reading(now)
                &&& after == before.insert(id, next)
                &&& result == Ok::<ResponseView, ErrorView>(binding_response(c, next))
                &&& proof.jwk matches Some(jwk) ==> json::rereads(jwk)
            },
        },
    }
}

/// What a refresh does when the store reads the session at `read_at`, the next
/// challenge is `challenge` and the session is refreshed at `now`.
pub open spec fn refresh_effect(
    c: ConfigView,
    before: Contents,
    after: Contents,
    id: Seq<char>,
    response_header: Option<Seq<char>>,
    result: std::result::Result<ResponseView, ErrorView>,
    read_at: i64,
    challenge: Seq<char>,
    now: i64,
) -> bool {
    session::is_reading(read_at) && match store::lookup(before, id, read_at) {
        None => after == before && result == Ok::<ResponseView, ErrorView>(bare_status(401)),
        Some(s) => match refresh_ruling(s, response_header) {
            Ruling::Refuse(response) => after == before && result == Ok::<ResponseView, ErrorView>(
                response,
            ),
            Ruling::Fail(e) => after == before && result == Err::<ResponseView, ErrorView>(e),
            Ruling::Accept(_) => {
                let next = refreshed(c, s, challenge, now);
                &&& is_challenge(challenge)
                &&& session::is_reading(now)
                &&& after == before.insert(id, next)
                &&& result == Ok::<ResponseView, ErrorView>(refresh_response(c, next))
            },
        },
    }
}

fn same_text(a: &Option<String>, b: &str) -> (r: bool)
    ensures
        r == (text::opt_view(*a) == Some(b@)),
{
    match a {
        Some(s) => str_eq(s.as_str(), b),
        None => false,
    }
}

fn token_of(response_header: Option<&str>) -> (r: Option<String>)
    ensures
        text::opt_view(r) == given_token(text::opt_str(response_header)),
{
    match response_header {
        Some(h) => header::parse_session_response(h),
        None => None,
    }
}

impl<S: SessionStore> Manager<S> {
    /// Create a manager backed by `store`.
    pub fn new(store: S, config: ManagerConfig) -> (r: Self)
        ensures
            r.store == store,
            r.config == config,
    {
        Manager { store, config }
    }

    /// Build a `Set-Cookie` value for `session_id` with `max_age` seconds.
    pub fn build_cookie(&self, session_id: &str, max_age: u64) -> (r: String)
        ensures
            r@ == cookie_text(self.config@, session_id@, max_age),
    {
        let mut c = self.config.cookie_name.clone();
        c.append("=");
        c.append(session_id);
        c.append("; Path=");
        c.append(self.config.cookie_path.as_str());
        c.append("; Max-Age=");
        c.append(decimal_of(max_age).as_str());
        c.append("; HttpOnly");
        if self.config.secure {
            c.append("; Secure");
        }
        c.append("; SameSite=");
        c.append(self.config.same_site.as_str());
        if let Some(domain) = &self.config.cookie_domain {
            c.append("; Domain=");
            c.append(domain.as_str());
        }
        assert(c@ =~= cookie_text(self.config@, session_id@, max_age));
        c
    }

    /// Set the session expiry from the configured TTL, as of unix time `now`.
    pub fn apply_ttl_at(&self, session: &mut Session, now: i64)
        ensures
            final(session)@ == with_ttl(self.config@, old(session)@, now),
    {
        if let Some(ttl) = self.config.session_ttl_seconds {
            session.expires_at = Some(now.wrapping_add(ttl as i64));
        }
    }

    /// Build the instruction body for a session.
    pub fn instruction_body(&self, session: &Session) -> (r: Result<String>)
        ensures
            match r {
                Ok(t) => t@ == instruction::instruction_json(
                    session_instruction(self.config@, session@.id),
                ),
                Err(_) => false,
            },
    {
        let mut credentials: Vec<SessionCredential> = Vec::new();
        credentials.push(SessionCredential::cookie(self.config.cookie_name.as_str(), None));
        let instruction = SessionInstruction {
            session_identifier: session.id.clone(),
            refresh_url: Some(self.config.refresh_path.clone()),
            continue_session: true,
            scope: SessionScope::default(),
            credentials,
            allowed_refresh_initiators: Vec::new(),
        };
        proof {
            let model = session_instruction(self.config@, session@.id);
            assert(instruction@.credentials =~= model.credentials);
            assert(instruction@.allowed_refresh_initiators =~= model.allowed_refresh_initiators);
            assert(instruction@ == model);
        }
        instruction.to_json_string()
    }

    /// The session that a login of `user_id` starts, from the values that chance
    /// and the clock gave.
    pub fn start_session(
        &self,
        id: String,
        user_id: &str,
        created_at: i64,
        challenge: String,
        now: i64,
    ) -> (r: Session)
        ensures
            r@ == initiated(self.config@, id@, user_id@, created_at, challenge@, now),
    {
        let mut session = Session::starting(id, user_id, created_at);
        session.challenge = Some(challenge);
        self.apply_ttl_at(&mut session, now);
        session
    }

    /// The response that announces a new session.
    pub fn initiation_response(&self, session: &Session) -> (r: ManagerResponse)
        ensures
            r@ == initiation_response(self.config@, session@),
    {
        let algs: [&str; 2] = ["ES256", "RS256"];
        let registration = header::registration_header(
            algs.as_slice(),
            Some(self.config.register_path.as_str()),
            as_str_opt(&session.challenge),
            as_str_opt(&self.config.authorization),
            None,
            None,
            None,
        );
        assert(text::str_views(algs@) =~= seq!["ES256"@, "RS256"@]);
        ManagerResponse {
            status_code: 200,
            set_cookie: Some(
                self.build_cookie(session.id.as_str(), self.config.cookie_ttl_seconds),
            ),
            registration_header: Some(registration),
            challenge_header: None,
            body: None,
        }
    }

    /// Initiate a new DBSC session after a successful user login.
    ///
    /// Creates an `Active` session with a fresh challenge, persists it, and
    /// returns the session plus a response carrying the session cookie and
    /// the `Secure-Session-Registration` header.
    pub fn initiate(&mut self, user_id: &str) -> (r: Result<(Session, ManagerResponse)>)
        ensures
            final(self).config == old(self).config,
            match r {
                Ok((s, response)) => exists|challenge: Seq<char>, now: i64| #[trigger]
                    initiation_effect(
                        old(self).config@,
                        old(self).store.contents(),
                        final(self).store.contents(),
                        user_id@,
                        s@,
                        response@,
                        challenge,
                        now,
                    ),
                Err(_) => true,
            },
            exists|m: &mut S, s: Session, done: Result<()>|
                *m == old(self).store && *final(m) == final(self).store && #[trigger] call_ensures(
                    S::create,
                    (m, &s),
                    done,
                ) && starts(old(self).config@, user_id@, s@) && match done {
                    Ok(_) => r matches Ok((kept, response)) && kept == s && response@
                        == initiation_response(old(self).config@, s@),
                    Err(e) => r matches Err(f) && f@ == e@,
                },
            old(self).store.reliable() ==> r is Ok && final(self).store.reliable(),
    {
        let fresh = Session::new(user_id);
        let challenge = generate_challenge();
        let now = now_unix();
        let ghost challenge_view = challenge@;
        let session = self.start_session(fresh.id, user_id, fresh.created_at, challenge, now);
        assert(starts(self.config@, user_id@, session@)) by {
            assert(session@ == initiated(
                self.config@,
                session@.id,
                user_id@,
                session@.created_at,
                challenge_view,
                now,
            ));
        }
        let ghost before = self.store.contents();
        self.store.create(&session)?;
        let response = self.initiation_response(&session);
        assert(initiation_effect(
            self.config@,
            before,
            self.store.contents(),
            user_id@,
            session@,
            response@,
            challenge_view,
            now,
        ));
        Ok((session, response))
    }

    /// Decide on a registration request for `session`.
    pub fn decide_registration(
        &self,
        session: &Session,
        session_response_header: Option<&str>,
    ) -> (r: Decision)
        ensures
            r@ == registration_ruling(
                self.config@,
                session@,
                text::opt_str(session_response_header),
            ),
            r matches Decision::Accept(proof) ==> json::claim_rereads(proof.jwk),
    {
        if session.state != SessionState::Active {
            return Decision::Refuse(ManagerResponse::with_status(400));
        }
        let token = match token_of(session_response_header) {
            Some(t) => t,
            None => return Decision::Refuse(ManagerResponse::challenge_failure(session)),
        };
        let proof = match jwt::verify_registration(token.as_str()) {
            Ok(p) => p,
            Err(_) => return Decision::Refuse(ManagerResponse::challenge_failure(session)),
        };
        if !same_text(&session.challenge, proof.challenge.as_str()) {
            return Decision::Refuse(ManagerResponse::challenge_failure(session));
        }
        if let Some(expected) = &self.config.authorization {
            if !same_text(&proof.authorization, expected.as_str()) {
                return Decision::Refuse(ManagerResponse::challenge_failure(session));
            }
        }
        if proof.jwk.is_none() {
            return Decision::Refuse(ManagerResponse::challenge_failure(session));
        }
        Decision::Accept(proof)
    }

    /// Bind the session to the device key of `proof` and rotate the challenge.
    pub fn bind(&self, session: &Session, proof: &ProofJwt, challenge: String, now: i64) -> (r:
        Session)
        ensures
            r@ == bound(self.config@, session@, proof@, challenge@, now),
    {
        let mut next = session.clone();
        next.state = SessionState::Bound;
        next.public_key = match &proof.jwk {
            Some(jwk) => Some(jwk.json.clone()),
            None => None,
        };
        next.algorithm = Some(proof.algorithm.clone());
        next.challenge = Some(challenge);
        self.apply_ttl_at(&mut next, now);
        next
    }

    /// The response to a registration that bound `session`.
    pub fn binding_response(&self, session: &Session) -> (r: Result<ManagerResponse>)
        ensures
            match r {
                Ok(response) => response@ == binding_response(self.config@, session@),
                Err(_) => false,
            },
    {
        let mut response = self.refresh_response(session)?;
        response.set_cookie = Some(
            self.build_cookie(session.id.as_str(), self.config.cookie_ttl_seconds),
        );
        Ok(response)
    }

    /// Handle a DBSC registration request.
    ///
    /// `cookie_session_id` comes from the session cookie,
    /// `session_response_header` from the `Secure-Session-Response` header.
    pub fn register(
        &mut self,
        cookie_session_id: &str,
        session_response_header: Option<&str>,
    ) -> (r: Result<ManagerResponse>)
        ensures
            final(self).config == old(self).config,
            exists|got: Result<Option<Session>>| #[trigger]
                call_ensures(S::get, (&old(self).store, cookie_session_id), got) && match registration_verdict(
                    old(self).config@,
                    got,
                    text::opt_str(session_response_header),
                ) {
                    Ruling::Refuse(response) => outcome(r) == Ok::<ResponseView, ErrorView>(
                        response,
                    ) && final(self).store == old(self).store,
                    Ruling::Fail(e) => outcome(r) == Err::<ResponseView, ErrorView>(e)
                        && final(self).store == old(self).store,
                    Ruling::Accept(proof) => exists|
                        m: &mut S,
                        next: Session,
                        done: Result<()>,
                    |
                        *m == old(self).store && *final(m) == final(self).store
                            && #[trigger] call_ensures(S::update, (m, &next), done) && binds(
                            old(self).config@,
                            got->Ok_0->Some_0@,
                            proof,
                            next@,
                        ) && outcome(r) == concluded(
                            done,
                            binding_response(old(self).config@, next@),
                        ),
                },
            old(self).store.reliable() || r is Ok ==> exists|
                read_at: i64,
                challenge: Seq<char>,
                now: i64,
            | #[trigger]
                registration_effect(
                    old(self).config@,
                    old(self).store.contents(),
                    final(self).store.contents(),
                    cookie_session_id@,
                    text::opt_str(session_response_header),
                    outcome(r),
                    read_at,
                    challenge,
                    now,
                ),
            old(self).store.reliable() ==> r is Ok && final(self).store.reliable(),
    {
        let got = self.store.get(cookie_session_id);
        let ghost given = got;
        let ghost before = self.store.contents();
        let ghost head = text::opt_str(session_response_header);
        let ghost id = cookie_session_id@;
        let ghost read_at = choose|t: i64|
            session::is_reading(t) && store::found(given->Ok_0) == #[trigger] store::lookup(
                before,
                id,
                t,
            );
        let session = match known_session(got) {
            Ok(s) => s,
            Err(r) => {
                assert(given is Ok ==> registration_effect(
                    self.config@,
                    before,
                    before,
                    id,
                    head,
                    outcome(r),
                    read_at,
                    Seq::empty(),
                    0,
                ));
                return r;
            },
        };
        let proof = match self.decide_registration(&session, session_response_header) {
            Decision::Accept(proof) => proof,
            Decision::Fail(e) => return Err(e),
            Decision::Refuse(response) => {
                let r: Result<ManagerResponse> = Ok(response);
                assert(registration_effect(
                    self.config@,
                    before,
                    before,
                    id,
                    head,
                    outcome(r),
                    read_at,
                    Seq::empty(),
                    0,
                ));
                return r;
            },
        };
        let challenge = generate_challenge();
        let now = now_unix();
        let ghost c = challenge@;
        let next = self.bind(&session, &proof, challenge, now);
        assert(binds(self.config@, session@, proof@, next@)) by {
            assert(next@ == bound(self.config@, session@, proof@, c, now));
        }
        self.store.update(&next)?;
        let response = self.binding_response(&next)?;
        let r: Result<ManagerResponse> = Ok(response);
        assert(registration_effect(
            self.config@,
            before,
            self.store.contents(),
            id,
            head,
            outcome(r),
            read_at,
            c,
            now,
        ));
        r
    }

    /// Decide on a refresh request for `session`.
    pub fn decide_refresh(
        &self,
        session: &Session,
        session_response_header: Option<&str>,
    ) -> (r: Decision)
        ensures
            r@ == refresh_ruling(session@, text::opt_str(session_response_header)),
    {
        if session.state != SessionState::Bound {
            return Decision::Refuse(ManagerResponse::with_status(400));
        }
        let token = match token_of(session_response_header) {
            Some(t) => t,
            None => return Decision::Refuse(ManagerResponse::challenge_failure(session)),
        };
        let registered_jwk = match &session.public_key {
            Some(key) => key,
            None => return Decision::Fail(
                Error::Store("bound session without public key".to_owned()),
            ),
        };
        let proof = match jwt::verify_refresh(token.as_str(), registered_jwk.as_str()) {
            Ok(p) => p,
            Err(_) => return Decision::Refuse(ManagerResponse::challenge_failure(session)),
        };
        if !same_text(&session.challenge, proof.challenge.as_str()) {
            return Decision::Refuse(ManagerResponse::challenge_failure(session));
        }
        Decision::Accept(proof)
    }

    /// Rotate the challenge and refresh the TTL.
    pub fn renew(&self, session: &Session, challenge: String, now: i64) -> (r: Session)
        ensures
            r@ == refreshed(self.config@, session@, challenge@, now),
    {
        let mut next = session.clone();
        next.challenge = Some(challenge);
        self.apply_ttl_at(&mut next, now);
        next
    }

    /// The response to a refresh of `session`.
    pub fn refresh_response(&self, session: &Session) -> (r: Result<ManagerResponse>)
        ensures
            match r {
                Ok(response) => response@ == refresh_response(self.config@, session@),
                Err(_) => false,
            },
    {
        Ok(
            ManagerResponse {
                status_code: 200,
                set_cookie: None,
                registration_header: None,
                challenge_header: Some(
                    header::challenge_header(
                        or_empty_str(&session.challenge),
                        session.id.as_str(),
                    ),
                ),
                body: Some(self.instruction_body(session)?),
            },
        )
    }

    /// Handle a DBSC refresh request.
    ///
    /// `session_id` comes from the `Sec-Secure-Session-Id` header or cookie;
    /// `session_response_header` from the `Secure-Session-Response` header
    /// (`None` for the optimistic first request).
    pub fn refresh(
        &mut self,
        session_id: &str,
        session_response_header: Option<&str>,
    ) -> (r: Result<ManagerResponse>)
        ensures
            final(self).config == old(self).config,
            exists|got: Result<Option<Session>>| #[trigger]
                call_ensures(S::get, (&old(self).store, session_id), got) && match refresh_verdict(
                    got,
                    text::opt_str(session_response_header),
                ) {
                    Ruling::Refuse(response) => outcome(r) == Ok::<ResponseView, ErrorView>(
                        response,
                    ) && final(self).store == old(self).store,
                    Ruling::Fail(e) => outcome(r) == Err::<ResponseView, ErrorView>(e)
                        && final(self).store == old(self).store,
                    Ruling::Accept(_) => exists|
                        m: &mut S,
                        next: Session,
                        done: Result<()>,
                    |
                        *m == old(self).store && *final(m) == final(self).store
                            && #[trigger] call_ensures(S::update, (m, &next), done) && renews(
                            old(self).config@,
                            got->Ok_0->Some_0@,
                            next@,
                        ) && outcome(r) == concluded(
                            done,
                            refresh_response(old(self).config@, next@),
                        ),
                },
            old(self).store.reliable() || r is Ok ==> exists|
                read_at: i64,
                challenge: Seq<char>,
                now: i64,
            | #[trigger]
                refresh_effect(
                    old(self).config@,
                    old(self).store.contents(),
                    final(self).store.contents(),
                    session_id@,
                    text::opt_str(session_response_header),
                    outcome(r),
                    read_at,
                    challenge,
                    now,
                ),
            old(self).store.reliable() ==> final(self).store.reliable(),
    {
        let got = self.store.get(session_id);
        let ghost given = got;
        let ghost before = self.store.contents();
        let ghost head = text::opt_str(session_response_header);
        let ghost id = session_id@;
        let ghost read_at = choose|t: i64|
            session::is_reading(t) && store::found(given->Ok_0) == #[trigger] store::lookup(
                before,
                id,
                t,
            );
        let session = match known_session(got) {
            Ok(s) => s,
            Err(r) => {
                assert(given is Ok ==> refresh_effect(
                    self.config@,
                    before,
                    before,
                    id,
                    head,
                    outcome(r),
                    read_at,
                    Seq::empty(),
                    0,
                ));
                return r;
            },
        };
        match self.decide_refresh(&session, session_response_header) {
            Decision::Accept(_) => {},
            Decision::Fail(e) => {
                let r: Result<ManagerResponse> = Err(e);
                assert(refresh_effect(
                    self.config@,
                    before,
                    before,
                    id,
                    head,
                    outcome(r),
                    read_at,
                    Seq::empty(),
                    0,
                ));
                return r;
            },
            Decision::Refuse(response) => {
                let r: Result<ManagerResponse> = Ok(response);
                assert(refresh_effect(
                    self.config@,
                    before,
                    before,
                    id,
                    head,
                    outcome(r),
                    read_at,
                    Seq::empty(),
                    0,
                ));
                return r;
            },
        }
        let challenge = generate_challenge();
        let now = now_unix();
        let ghost c = challenge@;
        let next = self.renew(&session, challenge, now);
        assert(renews(self.config@, session@, next@)) by {
            assert(next@ == refreshed(self.config@, session@, c, now));
        }
        self.store.update(&next)?;
        let response = self.refresh_response(&next)?;
        let r: Result<ManagerResponse> = Ok(response);
        assert(refresh_effect(
            self.config@,
            before,
            self.store.contents(),
            id,
            head,
            outcome(r),
            read_at,
            c,
            now,
        ));
        r
    }

    /// Close a session: remove it from the store, respond with a
    /// `{"continue": false}` instruction and an expired session cookie.
    pub fn close(&mut self, session_id: &str) -> (r: Result<ManagerResponse>)
        ensures
            final(self).config == old(self).config,
            match r {
                Ok(response) => response@ == closing_response(old(self).config@)
                    && final(self).store.contents() == old(self).store.contents().remove(
                    session_id@,
                ),
                Err(_) => true,
            },
            exists|m: &mut S, done: Result<()>|
                *m == old(self).store && *final(m) == final(self).store && #[trigger] call_ensures(
                    S::delete,
                    (m, session_id),
                    done,
                ) && outcome(r) == concluded(done, closing_response(old(self).config@)),
            old(self).store.reliable() ==> r is Ok && final(self).store.reliable(),
    {
        self.store.delete(session_id)?;
        let body = SessionInstruction::terminate().to_json_string()?;
        proof {
            reveal_strlit("");
            assert(""@ =~= Seq::<char>::empty());
        }
        Ok(
            ManagerResponse {
                status_code: 200,
                set_cookie: Some(self.build_cookie("", 0)),
                registration_header: None,
                challenge_header: None,
                body: Some(body),
            },
        )
    }

    /// Fetch a session by cookie value (expired sessions return `None`).
    pub fn get_session(&self, cookie_session_id: &str) -> (r: Result<Option<Session>>)
        ensures
            call_ensures(S::get, (&self.store, cookie_session_id), r),
            match r {
                Ok(s) => exists|now: i64|
                    session::is_reading(now) && store::found(s) == #[trigger] store::lookup(
                        self.store.contents(),
                        cookie_session_id@,
                        now,
                    ),
                Err(_) => true,
            },
            self.store.reliable() ==> r is Ok,
    {
        self.store.get(cookie_session_id)
    }
}

/// What an accepted registration shows: the session was active and the token is
/// a valid registration proof for the session's challenge, with the configured
/// authorization where one is configured.
pub proof fn law_accepted_registration(
    c: ConfigView,
    s: SessionView,
    response_header: Option<Seq<char>>,
    proof: ProofView,
)
    requires
        registration_ruling(c, s, response_header) == Ruling::Accept(proof),
    ensures
        s.state == SessionState::Active,
        given_token(response_header) matches Some(token) && jwt::registration_proof(token) == Ok::<
            ProofView,
            ErrorView,
        >(proof),
        s.challenge == Some(proof.challenge),
        c.authorization is Some ==> proof.authorization == c.authorization,
{
}

/// What an accepted refresh shows: the session was bound and the token is a valid
/// refresh proof for the session's challenge under its key.
pub proof fn law_accepted_refresh(
    s: SessionView,
    response_header: Option<Seq<char>>,
    proof: ProofView,
)
    requires
        refresh_ruling(s, response_header) == Ruling::Accept(proof),
    ensures
        s.state == SessionState::Bound,
        s.public_key is Some,
        given_token(response_header) matches Some(token) && jwt::refresh_proof(
            token,
            s.public_key->Some_0,
        ) == Ok::<ProofView, ErrorView>(proof),
        s.challenge == Some(proof.challenge),
{
}

/// A proof is good for one refresh: once the challenge has changed, the same
/// header is refused with the new challenge.
pub proof fn law_refresh_proof_used_once(
    c: ConfigView,
    s: SessionView,
    response_header: Option<Seq<char>>,
    proof: ProofView,
    challenge: Seq<char>,
    now: i64,
)
    requires
        refresh_ruling(s, response_header) == Ruling::Accept(proof),
        challenge != proof.challenge,
    ensures
        ({
            let next = refreshed(c, s, challenge, now);
            refresh_ruling(next, response_header) == Ruling::Refuse(refusal(next))
        }),
{
}

/// A session is bound once: every later registration is refused with status 400,
/// and the token that bound it is no refresh proof.
pub proof fn law_bound_once(
    c: ConfigView,
    s: SessionView,
    response_header: Option<Seq<char>>,
    proof: ProofView,
    challenge: Seq<char>,
    now: i64,
    later: Option<Seq<char>>,
)
    requires
        registration_ruling(c, s, response_header) == Ruling::Accept(proof),
    ensures
        ({
            let next = bound(c, s, proof, challenge, now);
            &&& registration_ruling(c, next, later) == Ruling::Refuse(bare_status(400))
            &&& refresh_ruling(next, response_header) !is Accept
        }),
{
    let token = given_token(response_header)->Some_0;
    let next = bound(c, s, proof, challenge, now);
    if next.public_key is Some {
        jwt::law_registration_token_no_refresh(token, next.public_key->Some_0);
    }
}

/// An active session cannot be refreshed: that is refused with status 400.
pub proof fn law_active_session_not_refreshed(s: SessionView, response_header: Option<Seq<char>>)
    requires
        s.state == SessionState::Active,
    ensures
        refresh_ruling(s, response_header) == Ruling::Refuse(bare_status(400)),
{
}

/// A request without a readable proof is answered with the current challenge, and
/// so is one with a proof that does not hold.
pub proof fn law_refused_proof_gets_challenge(
    c: ConfigView,
    s: SessionView,
    response_header: Option<Seq<char>>,
)
    ensures
        s.state == SessionState::Active ==> (registration_ruling(c, s, response_header) is Accept
            || registration_ruling(c, s, response_header) == Ruling::Refuse(refusal(s))),
        s.state == SessionState::Bound && s.public_key is Some ==> (refresh_ruling(
            s,
            response_header,
        ) is Accept || refresh_ruling(s, response_header) == Ruling::Refuse(refusal(s))),
        given_token(response_header) is None && s.state == SessionState::Active
            ==> registration_ruling(c, s, response_header) == Ruling::Refuse(refusal(s)),
        given_token(response_header) is None && s.state == SessionState::Bound ==> refresh_ruling(
            s,
            response_header,
        ) == Ruling::Refuse(refusal(s)),
{
}

/// Refresh after registration is decided by the key of the registration: a proof
/// that is accepted is signed under it, and a proof for the current challenge
/// signed under it is accepted. Left out of the second half are keys with a number
/// that has a fraction or an exponent, which may not be read back.
pub proof fn law_refresh_under_registered_key(
    c: ConfigView,
    s: SessionView,
    proof: ProofView,
    challenge: Seq<char>,
    now: i64,
    response_header: Option<Seq<char>>,
    token: Seq<char>,
    later: ProofView,
)
    requires
        proof.jwk matches Some(jwk) && json::rereads(jwk),
        given_token(response_header) == Some(token),
        jwt::decoded(token) == Ok::<ProofView, ErrorView>(later),
    ensures
        ({
            let jwk = proof.jwk->Some_0;
            let ruling = refresh_ruling(bound(c, s, proof, challenge, now), response_header);
            let fault = jwt::signature_fault(
                later.algorithm,
                jwk,
                later.signing_input,
                later.signature,
            );
            &&& ruling is Accept ==> ruling == Ruling::Accept(later) && fault is None
                && later.challenge == challenge
            &&& json::is_exact(jwk) && later.jwk is None && later.algorithm != "none"@
                && fault is None && later.challenge == challenge ==> ruling == Ruling::Accept(later)
        }),
{
    if later.jwk is None && later.algorithm != "none"@ {
        jwt::law_registered_key_pinned(proof.jwk->Some_0, later);
    }
}

/// Whether, of two states of a store, the second keeps the sessions of the first:
/// who they belong to, when they were made, and the key of those that are bound.
pub open spec fn keeps_sessions(before: Contents, after: Contents) -> bool {
    forall|x: Seq<char>| #[trigger]
        before.dom().contains(x) ==> {
            &&& after.dom().contains(x)
            &&& after[x].id == before[x].id
            &&& after[x].user_id == before[x].user_id
            &&& after[x].created_at == before[x].created_at
            &&& before[x].state == SessionState::Bound ==> after[x].state == SessionState::Bound
                && after[x].public_key == before[x].public_key && after[x].algorithm
                == before[x].algorithm
        }
}

/// Registration and refresh keep every session, and touch none but their own.
pub proof fn law_requests_keep_sessions(
    c: ConfigView,
    before: Contents,
    after: Contents,
    id: Seq<char>,
    response_header: Option<Seq<char>>,
    result: std::result::Result<ResponseView, ErrorView>,
    read_at: i64,
    challenge: Seq<char>,
    now: i64,
)
    requires
        registration_effect(c, before, after, id, response_header, result, read_at, challenge, now)
            || refresh_effect(
            c,
            before,
            after,
            id,
            response_header,
            result,
            read_at,
            challenge,
            now,
        ),
    ensures
        keeps_sessions(before, after),
        after.remove(id) == before.remove(id),
        after.dom() == before.dom(),
{
    assert(after.dom() =~= before.dom());
    assert(after.remove(id) =~= before.remove(id));
}

/// A session that is not found when it is read, because it was closed, is expired
/// or never was, is answered with status 401, and nothing changes.
pub proof fn law_unknown_session(
    c: ConfigView,
    before: Contents,
    after: Contents,
    id: Seq<char>,
    response_header: Option<Seq<char>>,
    result: std::result::Result<ResponseView, ErrorView>,
    read_at: i64,
    challenge: Seq<char>,
    now: i64,
)
    requires
        registration_effect(c, before, after, id, response_header, result, read_at, challenge, now)
            || refresh_effect(
            c,
            before,
            after,
            id,
            response_header,
            result,
            read_at,
            challenge,
            now,
        ),
        !before.dom().contains(id) || session::expired(before[id], read_at),
    ensures
        result == Ok::<ResponseView, ErrorView>(bare_status(401)),
        after == before,
{
}

/// Only a request whose proof is accepted changes what is stored.
pub proof fn law_refusal_changes_nothing(
    c: ConfigView,
    before: Contents,
    after: Contents,
    id: Seq<char>,
    response_header: Option<Seq<char>>,
    result: std::result::Result<ResponseView, ErrorView>,
    read_at: i64,
    challenge: Seq<char>,
    now: i64,
)
    requires
        registration_effect(c, before, after, id, response_header, result, read_at, challenge, now)
            || refresh_effect(
            c,
            before,
            after,
            id,
            response_header,
            result,
            read_at,
            challenge,
            now,
        ),
        result matches Ok(response) ==> response.status_code != 200,
    ensures
        after == before,
{
}

/// Whether a session is one that the manager can have made: it has a challenge;
/// while active it has no key; once bound it has a key, for ES256 or RS256.
pub open spec fn sound(s: SessionView) -> bool {
    &&& s.challenge matches Some(challenge) && is_challenge(challenge)
    &&& match s.state {
        SessionState::Active => s.public_key is None && s.algorithm is None,
        SessionState::Bound => {
            &&& s.algorithm == Some("ES256"@) || s.algorithm == Some("RS256"@)
            &&& s.public_key is Some
        },
    }
}

/// Whether every stored session is sound and stored under its own id.
pub open spec fn sound_contents(m: Contents) -> bool {
    store::keyed(m) && forall|id: Seq<char>| #[trigger] m.dom().contains(id) ==> sound(m[id])
}

/// An empty store is sound, and every operation of the manager keeps it so.
pub proof fn law_soundness_kept(
    c: ConfigView,
    before: Contents,
    after: Contents,
    user_id: Seq<char>,
    s: SessionView,
    response: ResponseView,
    id: Seq<char>,
    response_header: Option<Seq<char>>,
    result: std::result::Result<ResponseView, ErrorView>,
    read_at: i64,
    challenge: Seq<char>,
    now: i64,
)
    requires
        sound_contents(before),
        initiation_effect(c, before, after, user_id, s, response, challenge, now)
            || registration_effect(
            c,
            before,
            after,
            id,
            response_header,
            result,
            read_at,
            challenge,
            now,
        ) || refresh_effect(
            c,
            before,
            after,
            id,
            response_header,
            result,
            read_at,
            challenge,
            now,
        ) || after == before.remove(id),
    ensures
        sound_contents(after),
        sound_contents(Map::empty()),
{
    jwt::lemma_algorithms_distinct();
    if store::lookup(before, id, read_at) is Some {
        let known = store::lookup(before, id, read_at)->Some_0;
        if registration_ruling(c, known, response_header) is Accept {
            jwt::law_registration_rules(given_token(response_header)->Some_0);
        }
    }
}

/// A refresh of a sound session never fails: it is refused or accepted.
pub proof fn law_sound_session_never_fails(s: SessionView, response_header: Option<Seq<char>>)
    requires
        sound(s),
    ensures
        refresh_ruling(s, response_header) !is Fail,
{
}

/// A registration that is accepted leaves the session bound to the key of its
/// proof, which is a key for ES256 or RS256.
pub proof fn law_bound_has_key(
    c: ConfigView,
    s: SessionView,
    response_header: Option<Seq<char>>,
    proof: ProofView,
    next: SessionView,
)
    requires
        registration_ruling(c, s, response_header) == Ruling::Accept(proof),
        binds(c, s, proof, next),
    ensures
        next.state == SessionState::Bound,
        proof.jwk matches Some(jwk) && next.public_key == Some(jwk.json),
        next.algorithm == Some(proof.algorithm),
        proof.algorithm == "ES256"@ || proof.algorithm == "RS256"@,
{
    jwt::law_registration_rules(given_token(response_header)->Some_0);
}

/// A registration that is answered with status 200 leaves the session in the
/// store bound to a device key, for ES256 or RS256.
pub proof fn law_registered_session_has_key(
    c: ConfigView,
    before: Contents,
    after: Contents,
    id: Seq<char>,
    response_header: Option<Seq<char>>,
    response: ResponseView,
    read_at: i64,
    challenge: Seq<char>,
    now: i64,
)
    requires
        registration_effect(
            c,
            before,
            after,
            id,
            response_header,
            Ok(response),
            read_at,
            challenge,
            now,
        ),
        response.status_code == 200,
    ensures
        after.dom().contains(id),
        after[id].state == SessionState::Bound,
        after[id].public_key is Some,
        after[id].algorithm == Some("ES256"@) || after[id].algorithm == Some("RS256"@),
        after[id].challenge == Some(challenge),
        is_challenge(challenge),
{
    jwt::lemma_algorithms_distinct();
}

/// Where the sum does not leave the 64-bit range, a session with a TTL lives for
/// exactly that many seconds: it is expired from then on and not before.
pub proof fn law_ttl(c: ConfigView, s: SessionView, ttl: u64, now: i64, at: i64)
    requires
        c.session_ttl_seconds == Some(ttl),
        now + ttl <= i64::MAX,
    ensures
        with_ttl(c, s, now).expires_at == Some((now + ttl) as i64),
        session::expired(with_ttl(c, s, now), at) <==> at >= now + ttl,
{
    if ttl > i64::MAX {
        assert(ttl as i64 == ttl - 0x1_0000_0000_0000_0000) by (bit_vector)
            requires
                ttl >= 0x8000_0000_0000_0000,
        ;
    }
}

proof fn lemma_plain(s: Seq<char>)
    requires
        !s.contains('"'),
        !s.contains('\\'),
    ensures
        header::escaped(s) == s,
    decreases s.len(),
{
    if s.len() > 0 {
        let rest = s.drop_first();
        assert forall|i: int| 0 <= i < rest.len() implies rest[i] == s[i + 1] by {}
        assert(s.contains(s[0]));
        assert forall|c: char| rest.contains(c) implies s.contains(c) by {
            let i = choose|i: int| 0 <= i < rest.len() && rest[i] == c;
            assert(s[i + 1] == c);
        }
        lemma_plain(rest);
        assert(header::escaped(s) =~= s);
    }
}

/// The challenge header of a session that the manager made needs no escapes: it
/// shows the challenge and the identifier as they are, and both read back.
pub proof fn law_challenge_header_plain(challenge: Seq<char>, id: Seq<char>)
    requires
        is_challenge(challenge),
        session::is_uuid_v4(id),
    ensures
        header::challenge_text(challenge, id) == seq!['"'] + challenge + seq!['"'] + ";id="@
            + seq!['"'] + id + seq!['"'],
        header::unquoted(header::parted(header::challenge_text(challenge, id), ';')[0]) == Some(
            challenge,
        ),
{
    let bytes = choose|bytes: Seq<u8>|
        is_drawn(bytes) && bytes.len() == 32 && challenge == #[trigger] text::hex(bytes);
    text::lemma_hex_digits(bytes);
    assert(!challenge.contains('"') && !challenge.contains('\\')) by {
        assert forall|i: int| 0 <= i < challenge.len() implies text::is_hex_digit(
            #[trigger] challenge[i],
        ) by {}
    }
    lemma_plain(challenge);
    lemma_plain(id);
    header::law_challenge_reads_back(challenge, id);
    assert(header::challenge_text(challenge, id) =~= seq!['"'] + challenge + seq!['"'] + ";id="@
        + seq!['"'] + id + seq!['"']);
}

} // verus!
