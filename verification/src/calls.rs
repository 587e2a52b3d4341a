//! What calls of the public functions give, and how one call relates to another.

use vstd::prelude::*;
use crate::error::{Error, ErrorView, Result};
use crate::header;
use crate::header::{SkipReason, SkippedEntry};
use crate::instruction;
use crate::instruction::{ScopeRule, SessionCredential, SessionInstruction, SessionScope};
use crate::json;
use crate::json::JsonValue;
use crate::jwt;
use crate::jwt::{ProofJwt, ProofView};
use crate::manager;
use crate::manager::{Decision, Manager, ManagerConfig, ManagerResponse};
use crate::protocol;
use crate::session;
use crate::session::{Session, SessionState};
use crate::store;
use crate::store::{MemoryStore, SessionStore};
use crate::text;

verus! {

/// A `Secure-Session-Response` header that was written for a token gives the token
/// when it is parsed, also with whitespace around it.
pub proof fn law_session_response_call(
    token: &str,
    written: String,
    before: Seq<char>,
    after: Seq<char>,
    value: &str,
    r: Option<String>,
)
    requires
        call_ensures(header::session_response_header, (token,), written),
        value@ == before + written@ + after,
        forall|i: int| 0 <= i < before.len() ==> text::is_white_space(#[trigger] before[i]),
        forall|i: int| 0 <= i < after.len() ==> text::is_white_space(#[trigger] after[i]),
        call_ensures(header::parse_session_response, (value,), r),
    ensures
        text::opt_view(r) == Some(token@),
{
    header::law_surrounding_whitespace_ignored(before, written@, after);
    header::law_quoted_reads_back(token@, seq![]);
}

/// A `Sec-Secure-Session-Id` header that was written for an id gives the id when it is
/// parsed, also with whitespace around it.
pub proof fn law_session_id_call(
    id: &str,
    written: String,
    before: Seq<char>,
    after: Seq<char>,
    value: &str,
    r: Option<String>,
)
    requires
        call_ensures(header::session_id_header, (id,), written),
        value@ == before + written@ + after,
        forall|i: int| 0 <= i < before.len() ==> text::is_white_space(#[trigger] before[i]),
        forall|i: int| 0 <= i < after.len() ==> text::is_white_space(#[trigger] after[i]),
        call_ensures(header::parse_session_id, (value,), r),
    ensures
        text::opt_view(r) == Some(id@),
{
    header::law_surrounding_whitespace_ignored(before, written@, after);
    header::law_quoted_reads_back(id@, seq![]);
}

/// Parsing a quoted string gives the text whose escapes, between two quotes, it is,
/// and nothing where it is no such string.
pub proof fn law_parse_quoted_call(
    value: &str,
    r: Option<String>,
    content: &str,
    escaped: String,
)
    requires
        call_ensures(header::parse_quoted, (value,), r),
        call_ensures(header::sf_escape, (content,), escaped),
    ensures
        text::opt_view(r) == Some(content@) <==> text::trimmed(value@) == seq!['"'] + escaped@
            + seq!['"'],
{
    header::law_only_quoted_strings_read(value@, content@);
}

/// A `Secure-Session-Skipped` header that was written for entries gives these entries
/// when it is parsed.
pub proof fn law_skipped_call(
    entries: &[SkippedEntry],
    written: String,
    value: &str,
    r: Vec<SkippedEntry>,
)
    requires
        call_ensures(header::session_skipped_header, (entries,), written),
        value@ == written@,
        call_ensures(header::parse_session_skipped, (value,), r),
    ensures
        header::entry_views(r@) == header::entry_views(entries@),
{
    header::law_skipped_reads_back(header::entry_views(entries@));
}

/// The token of a reason names this reason, and each reason has its own.
pub proof fn law_token_call(reason: &SkipReason, token: &str, r: Option<SkipReason>)
    requires
        call_ensures(SkipReason::as_token, (reason,), token),
        call_ensures(SkipReason::from_token, (token,), r),
    ensures
        r == Some(*reason),
        token@ == match *reason {
            SkipReason::Unreachable => "unreachable"@,
            SkipReason::ServerError => "server_error"@,
            SkipReason::QuotaExceeded => "quota_exceeded"@,
        },
{
    header::law_tokens_name_reasons(*reason, token@);
}

/// A `Secure-Session-Challenge` header has the challenge in front and the id behind.
pub proof fn law_challenge_header_call(value: &str, id: &str, r: String)
    requires
        call_ensures(header::challenge_header, (value, id), r),
    ensures
        protocol::hands_out(Some(r@), value@, id@),
{
    header::law_challenge_reads_back(value@, id@);
}

/// A `Secure-Session-Registration` header has the algorithms in front and behind them
/// one part for each value that is given and not empty, under its name.
pub proof fn law_registration_header_call(
    algs: &[&str],
    path: Option<&str>,
    challenge: Option<&str>,
    authorization: Option<&str>,
    provider_key: Option<&str>,
    provider_session_id: Option<&str>,
    provider_url: Option<&str>,
    r: String,
)
    requires
        call_ensures(
            header::registration_header,
            (
                algs,
                path,
                challenge,
                authorization,
                provider_key,
                provider_session_id,
                provider_url,
            ),
            r,
        ),
        algs@.len() > 0,
        forall|i: int|
            0 <= i < algs@.len() ==> !(#[trigger] algs@[i])@.contains('"') && !algs@[i]@.contains(
                ';',
            ) && !algs@[i]@.contains(' '),
    ensures
        ({
            let parts = header::parted(r@, ';');
            let list = parts[0];
            &&& parts == seq![list] + header::given("path"@, text::opt_str(path)) + header::given(
                "challenge"@,
                text::opt_str(challenge),
            ) + header::given("authorization"@, text::opt_str(authorization)) + header::given(
                "provider_key"@,
                text::opt_str(provider_key),
            ) + header::given("provider_session_id"@, text::opt_str(provider_session_id))
                + header::given("provider_url"@, text::opt_str(provider_url))
            &&& list.len() >= 2 && list[0] == '(' && list.last() == ')'
            &&& text::split(list.subrange(1, list.len() - 1), ' ') == text::str_views(algs@)
        }),
{
    let names = text::str_views(algs@);
    assert forall|i: int| 0 <= i < names.len() implies !(#[trigger] names[i]).contains('"')
        && !names[i].contains(';') && !names[i].contains(' ') by {
        assert(names[i] == algs@[i]@);
    }
    header::law_registration_reads_back(
        names,
        text::opt_str(path),
        text::opt_str(challenge),
        text::opt_str(authorization),
        text::opt_str(provider_key),
        text::opt_str(provider_session_id),
        text::opt_str(provider_url),
    );
}

/// What was encoded decodes to the same bytes, with and without padding.
pub proof fn law_base64url_call(
    bytes: &[u8],
    encoded: String,
    padding: Seq<char>,
    input: &str,
    r: Result<Vec<u8>>,
)
    requires
        call_ensures(jwt::base64url_encode, (bytes,), encoded),
        forall|i: int| 0 <= i < padding.len() ==> #[trigger] padding[i] == '=',
        input@ == encoded@ + padding,
        call_ensures(jwt::base64url_decode, (input,), r),
    ensures
        r is Ok,
        r->Ok_0@ == bytes@,
{
    let n = encoded@.len();
    assert(n > 0 ==> jwt::is_base64url_char(encoded@[n - 1]));
    assert(jwt::without_padding(encoded@) == encoded@);
    jwt::law_base64url_reads_back(encoded@, bytes@, padding);
}

/// A signature is accepted or refused as [`jwt::law_signature_accepted`] says.
pub proof fn law_verify_signature_call(
    alg: &str,
    jwk: &JsonValue,
    message: &[u8],
    signature: &[u8],
    r: Result<()>,
)
    requires
        call_ensures(jwt::verify_signature, (alg, jwk, message, signature), r),
    ensures
        r is Ok <==> alg@ == "none"@ || jwt::is_signed(alg@, jwk@, message@, signature@),
        r matches Err(e) ==> Some(e@) == jwt::signature_fault(
            alg@,
            jwk@,
            message@,
            signature@,
        ),
{
    jwt::law_signature_accepted(alg@, jwk@, message@, signature@);
}

/// A token decodes if and only if it says something, and then to what it says.
pub proof fn law_decode_call(token: &str, r: Result<ProofJwt>, proof: ProofView, e: ErrorView)
    requires
        call_ensures(jwt::decode, (token,), r),
    ensures
        r is Ok && r->Ok_0@ == proof <==> jwt::decoded(token@) == Ok::<ProofView, ErrorView>(proof),
        r is Err && r->Err_0@ == e <==> jwt::decoded(token@) == Err::<ProofView, ErrorView>(e),
{
}

/// A registration token is verified if and only if it decodes and is signed under the
/// key that it carries, or has the algorithm `none` and neither key nor signature;
/// checking the decoded proof comes to the same.
pub proof fn law_verify_registration_call(
    token: &str,
    decoded: Result<ProofJwt>,
    checked: Result<()>,
    r: Result<ProofJwt>,
)
    requires
        call_ensures(jwt::decode, (token,), decoded),
        decoded is Ok ==> call_ensures(jwt::check_registration, (&decoded->Ok_0,), checked),
        call_ensures(jwt::verify_registration, (token,), r),
    ensures
        r is Ok <==> decoded is Ok && {
            let proof = decoded->Ok_0@;
            ||| proof.jwk is Some && jwt::is_signed(
                proof.algorithm,
                proof.jwk->Some_0,
                proof.signing_input,
                proof.signature,
            )
            ||| proof.algorithm == "none"@ && proof.jwk is None && proof.signature.len() == 0
        },
        r is Ok ==> r->Ok_0@ == decoded->Ok_0@,
        decoded is Ok ==> (r is Ok <==> checked is Ok),
        decoded is Ok && r is Err ==> r->Err_0@ == checked->Err_0@,
        decoded is Err ==> r is Err && r->Err_0@ == decoded->Err_0@,
{
    if decoded is Ok {
        jwt::law_registration_accepts(token@, decoded->Ok_0@);
    }
}

/// A refresh token is verified if and only if it decodes, carries no key and is signed
/// under the registered key; checking the decoded proof comes to the same.
pub proof fn law_verify_refresh_call(
    token: &str,
    registered: &str,
    decoded: Result<ProofJwt>,
    checked: Result<()>,
    r: Result<ProofJwt>,
)
    requires
        call_ensures(jwt::decode, (token,), decoded),
        decoded is Ok ==> call_ensures(
            jwt::check_refresh,
            (&decoded->Ok_0, registered),
            checked,
        ),
        call_ensures(jwt::verify_refresh, (token, registered), r),
    ensures
        r is Ok <==> decoded is Ok && {
            let proof = decoded->Ok_0@;
            let key = json::json_value(vstd::utf8::encode_utf8(registered@));
            &&& proof.jwk is None
            &&& key is Ok
            &&& jwt::is_signed(
                proof.algorithm,
                key->Ok_0,
                proof.signing_input,
                proof.signature,
            )
        },
        r is Ok ==> r->Ok_0@ == decoded->Ok_0@,
        decoded is Ok ==> (r is Ok <==> checked is Ok),
        decoded is Ok && r is Err ==> r->Err_0@ == checked->Err_0@,
        decoded is Err ==> r is Err && r->Err_0@ == decoded->Err_0@,
{
    if decoded is Ok {
        jwt::law_refresh_accepts(token@, registered@, decoded->Ok_0@);
    }
}

/// An instruction is always written, to the text of what it says.
pub proof fn law_to_json_string_call(i: &SessionInstruction, r: Result<String>)
    requires
        call_ensures(SessionInstruction::to_json_string, (i,), r),
    ensures
        r is Ok,
        r->Ok_0@ == instruction::instruction_json(i@),
        !i@.continue_session ==> r->Ok_0@ == "{\"continue\":false}"@,
{
    if !i@.continue_session {
        instruction::law_termination_text(i@);
    }
}

/// The text shown for an error is its kind and its detail.
pub proof fn law_message_call(e: &Error, r: String)
    requires
        call_ensures(Error::message, (e,), r),
    ensures
        r@ == crate::error::error_text(e@),
{
}

/// A cookie starts with the name, the id, the path and the lifetime; with another id
/// and lifetime it differs in these alone.
pub proof fn law_build_cookie_call<S: SessionStore>(
    m: &Manager<S>,
    id: &str,
    max_age: u64,
    r: String,
    head: Seq<char>,
    middle: Seq<char>,
    tail: Seq<char>,
)
    requires
        call_ensures(Manager::<S>::build_cookie, (m, id, max_age), r),
        protocol::cookie_frame(m.config@, head, middle, tail),
    ensures
        r@ == head + id@ + middle + text::decimal(max_age as nat) + tail,
        (m.config@.cookie_name + "="@ + id@ + "; Path="@ + m.config@.cookie_path + "; Max-Age="@
            + text::decimal(max_age as nat) + "; HttpOnly"@).is_prefix_of(r@),
        m.config@.cookie_domain matches Some(domain) ==> ("; SameSite="@ + m.config@.same_site
            + "; Domain="@ + domain).is_suffix_of(r@),
        m.config@.cookie_domain is None ==> ("; SameSite="@ + m.config@.same_site).is_suffix_of(r@),
{
    protocol::law_cookie_attributes(m.config@, id@, max_age);
}

/// A renewed session has the challenge that was given and lives for the configured
/// time from then on, whatever its expiry was; nothing else of it changes.
pub proof fn law_renew_call<S: SessionStore>(
    m: &Manager<S>,
    s: &Session,
    challenge: String,
    now: i64,
    r: Session,
)
    requires
        call_ensures(Manager::<S>::renew, (m, s, challenge, now), r),
    ensures
        protocol::lives_on(m.config@, s@.expires_at, r@, now),
        r@.challenge == Some(challenge@),
        r@.id == s@.id,
        r@.user_id == s@.user_id,
        r@.state == s@.state,
        r@.public_key == s@.public_key,
        r@.algorithm == s@.algorithm,
        r@.created_at == s@.created_at,
{
    protocol::law_refreshed_session(m.config@, s@, challenge@, now);
}

/// A bound session has the key and the algorithm of the proof and the challenge that
/// was given, and lives for the configured time from then on; nothing else of it
/// changes.
pub proof fn law_bind_call<S: SessionStore>(
    m: &Manager<S>,
    s: &Session,
    proof: &ProofJwt,
    challenge: String,
    now: i64,
    r: Session,
)
    requires
        call_ensures(Manager::<S>::bind, (m, s, proof, challenge, now), r),
    ensures
        protocol::lives_on(m.config@, s@.expires_at, r@, now),
        r@.state == SessionState::Bound,
        proof@.jwk matches Some(jwk) ==> r@.public_key == Some(jwk.json),
        proof@.jwk is None ==> r@.public_key is None,
        r@.algorithm == Some(proof@.algorithm),
        r@.challenge == Some(challenge@),
        r@.id == s@.id,
        r@.user_id == s@.user_id,
        r@.created_at == s@.created_at,
{
    protocol::law_bound_session(m.config@, s@, proof@, challenge@, now);
}

/// A started session is active, has the id, the user, the creation time and the
/// challenge that were given, and lives for the configured time.
pub proof fn law_start_session_call<S: SessionStore>(
    m: &Manager<S>,
    id: String,
    user_id: &str,
    created_at: i64,
    challenge: String,
    now: i64,
    r: Session,
)
    requires
        call_ensures(
            Manager::<S>::start_session,
            (m, id, user_id, created_at, challenge, now),
            r,
        ),
    ensures
        protocol::lives_on(m.config@, None, r@, now),
        r@.state == SessionState::Active,
        r@.public_key is None,
        r@.algorithm is None,
        r@.challenge == Some(challenge@),
        r@.id == id@,
        r@.user_id == user_id@,
        r@.created_at == created_at,
{
    protocol::law_initiated_session(m.config@, id@, user_id@, created_at, challenge@, now);
}

/// A registration is accepted with a proof if and only if the proof is one to accept,
/// and refused otherwise; it never fails.
pub proof fn law_decide_registration_call<S: SessionStore>(
    m: &Manager<S>,
    s: &Session,
    response_header: Option<&str>,
    r: Decision,
    proof: ProofView,
)
    requires
        call_ensures(Manager::<S>::decide_registration, (m, s, response_header), r),
    ensures
        (r matches Decision::Accept(p) && p@ == proof) <==> {
            let token = manager::given_token(text::opt_str(response_header));
            &&& s@.state == SessionState::Active
            &&& token is Some
            &&& jwt::registration_proof(token->Some_0) == Ok::<ProofView, ErrorView>(proof)
            &&& s@.challenge == Some(proof.challenge)
            &&& proof.jwk is Some
            &&& m.config@.authorization is None || proof.authorization == m.config@.authorization
        },
        r !is Fail,
        r matches Decision::Refuse(response) ==> if s@.state == SessionState::Active {
            protocol::is_challenged(response@, s@)
        } else {
            response@ == manager::bare_status(400)
        },
{
    let head = text::opt_str(response_header);
    protocol::law_registration_accepted(m.config@, s@, head, proof);
    protocol::law_refusals(m.config@, s@, head);
}

/// A refresh is accepted with a proof if and only if the proof is one to accept, and
/// refused otherwise; it fails only where a bound session has no key.
pub proof fn law_decide_refresh_call<S: SessionStore>(
    m: &Manager<S>,
    s: &Session,
    response_header: Option<&str>,
    r: Decision,
    proof: ProofView,
)
    requires
        call_ensures(Manager::<S>::decide_refresh, (m, s, response_header), r),
    ensures
        (r matches Decision::Accept(p) && p@ == proof) <==> {
            let token = manager::given_token(text::opt_str(response_header));
            &&& s@.state == SessionState::Bound
            &&& s@.public_key is Some
            &&& token is Some
            &&& jwt::refresh_proof(token->Some_0, s@.public_key->Some_0) == Ok::<
                ProofView,
                ErrorView,
            >(proof)
            &&& s@.challenge == Some(proof.challenge)
        },
        r is Fail ==> s@.state == SessionState::Bound && s@.public_key is None,
        r matches Decision::Refuse(response) ==> if s@.state == SessionState::Bound {
            protocol::is_challenged(response@, s@)
        } else {
            response@ == manager::bare_status(400)
        },
{
    let head = text::opt_str(response_header);
    protocol::law_refresh_accepted(s@, head, proof);
    protocol::law_refusals(m.config@, s@, head);
}

/// The answers to a registration and to a refresh that succeeded hand out the challenge
/// of the session for its id, and only the first sets the cookie, as the answer to a
/// login does.
pub proof fn law_response_calls<S: SessionStore>(
    m: &Manager<S>,
    s: &Session,
    started: ManagerResponse,
    bound: Result<ManagerResponse>,
    refreshed: Result<ManagerResponse>,
)
    requires
        call_ensures(Manager::<S>::initiation_response, (m, s), started),
        call_ensures(Manager::<S>::binding_response, (m, s), bound),
        call_ensures(Manager::<S>::refresh_response, (m, s), refreshed),
        s@.challenge is Some,
    ensures
        started@.status_code == 200,
        bound is Ok && refreshed is Ok,
        bound->Ok_0@.status_code == 200,
        refreshed->Ok_0@.status_code == 200,
        started@.set_cookie is Some,
        bound->Ok_0@.set_cookie == started@.set_cookie,
        refreshed->Ok_0@.set_cookie is None,
        protocol::hands_out(bound->Ok_0@.challenge_header, s@.challenge->Some_0, s@.id),
        bound->Ok_0@.challenge_header == refreshed->Ok_0@.challenge_header,
        bound->Ok_0@.body == refreshed->Ok_0@.body,
        bound->Ok_0@.body is Some,
        started@.registration_header is Some,
        started@.challenge_header is None,
        started@.body is None,
{
    header::law_challenge_reads_back(s@.challenge->Some_0, s@.id);
}

/// Reading a session by its cookie gives what the store holds for the id at a time
/// that the clock showed: the session itself, unless it is not there or its expiry
/// has come.
pub proof fn law_get_session_call<S: SessionStore>(
    m: &Manager<S>,
    id: &str,
    r: Result<Option<Session>>,
)
    requires
        call_ensures(Manager::<S>::get_session, (m, id), r),
    ensures
        m.store.reliable() ==> r is Ok,
        r is Ok && r->Ok_0 is Some ==> m.store.contents().dom().contains(id@)
            && m.store.contents()[id@] == r->Ok_0->Some_0@,
        r is Ok && r->Ok_0 is None ==> !m.store.contents().dom().contains(id@)
            || m.store.contents()[id@].expires_at is Some,
{
    if r is Ok {
        let now = choose|now: i64|
            session::is_reading(now) && store::found(r->Ok_0) == #[trigger] store::lookup(
                m.store.contents(),
                id@,
                now,
            );
        store::law_found_as_stored(m.store.contents(), id@, now);
    }
}

/// What the operations of a store do when they succeed: `create` and `update` both put
/// the session under its id, whether or not one was there; `delete` takes out the
/// session with the id, and succeeds also where there is none; `delete_by_user_id`
/// takes out those of the user. No other session changes.
pub proof fn law_store_calls<S: SessionStore>()
    ensures
        forall|m: &mut S, s: &Session, r: Result<()>| #[trigger]
            call_ensures(S::create, (m, s), r) && r is Ok ==> final(m).contents()
                == m.contents().insert(s@.id, s@),
        forall|m: &mut S, s: &Session, r: Result<()>| #[trigger]
            call_ensures(S::update, (m, s), r) && r is Ok ==> final(m).contents()
                == m.contents().insert(s@.id, s@),
        forall|m: &mut S, id: &str, r: Result<()>| #[trigger]
            call_ensures(S::delete, (m, id), r) && r is Ok ==> final(m).contents()
                == m.contents().remove(id@),
        forall|m: &mut S, user_id: &str, r: Result<()>| #[trigger]
            call_ensures(S::delete_by_user_id, (m, user_id), r) && r is Ok ==> forall|
                id: Seq<char>,
            |
                #![trigger final(m).contents().dom().contains(id)]
                {
                    &&& final(m).contents().dom().contains(id) <==> m.contents().dom().contains(id)
                        && m.contents()[id].user_id != user_id@
                    &&& final(m).contents().dom().contains(id) ==> final(m).contents()[id]
                        == m.contents()[id]
                },
{
}

/// The in-memory store does not fail, and what it gives at a time is what it holds:
/// by id the session, while it has no expiry or one that is still to come; by user all
/// of the user's such sessions.
pub proof fn law_memory_store_calls(
    m: &MemoryStore,
    id: &str,
    now: i64,
    r: Option<Session>,
    user_id: &str,
    list: Vec<Session>,
)
    requires
        call_ensures(MemoryStore::get_at, (m, id, now), r),
        call_ensures(MemoryStore::get_by_user_id_at, (m, user_id, now), list),
    ensures
        m.reliable(),
        r is Some <==> m@.dom().contains(id@) && (m@[id@].expires_at is None || now
            < m@[id@].expires_at->Some_0),
        r matches Some(s) ==> s@ == m@[id@] && s@.id == id@,
        r matches Some(s) ==> (s@.user_id == user_id@ <==> store::session_views(list@).contains(
            s@,
        )),
        forall|i: int|
            0 <= i < list@.len() ==> {
                let s = (#[trigger] list@[i])@;
                &&& m@.dom().contains(s.id) && m@[s.id] == s
                &&& s.user_id == user_id@
                &&& s.expires_at is None || now < s.expires_at->Some_0
            },
{
    let views = store::session_views(list@);
    store::law_found_as_stored(m@, id@, now);
    store::law_user_list_complete(views, m@, user_id@, now, id@);
    assert forall|i: int| 0 <= i < list@.len() implies {
        let s = (#[trigger] list@[i])@;
        &&& m@.dom().contains(s.id) && m@[s.id] == s
        &&& s.user_id == user_id@
        &&& s.expires_at is None || now < s.expires_at->Some_0
    } by {
        assert(views[i] == list@[i]@);
    }
    if r is Some && views.contains(r->Some_0@) {
        let i = choose|i: int| 0 <= i < views.len() && views[i] == r->Some_0@;
        assert(views[i].user_id == user_id@);
    }
}

/// A new session is active and belongs to its user, under an id that was drawn, as of a
/// time that the clock showed, and is not expired at any time.
pub proof fn law_session_calls(user_id: &str, s: &Session, made: Session, now: i64, r: bool)
    requires
        call_ensures(Session::new, (user_id,), made),
        call_ensures(Session::is_expired, (s, now), r),
    ensures
        made@.user_id == user_id@,
        made@.state == SessionState::Active,
        made@.expires_at is None,
        made@.challenge is None,
        session::is_uuid_v4(made@.id),
        session::is_drawn_id(made@.id),
        session::is_reading(made@.created_at),
        r <==> s@.expires_at is Some && now >= s@.expires_at->Some_0,
{
}

/// Parsing a `Secure-Session-Skipped` header gives the entries of its items, which
/// stand between the commas outside of quoted strings.
pub proof fn law_parse_skipped_call(value: &str, r: Vec<SkippedEntry>)
    requires
        call_ensures(header::parse_session_skipped, (value,), r),
    ensures
        header::entry_views(r@) == header::skipped_entries(header::parted(value@, ',')),
{
}

/// The rules, credentials and scopes that are made hold what they were given.
pub proof fn law_constructor_calls(
    domain: Option<String>,
    path: Option<String>,
    kept: ScopeRule,
    left_out: ScopeRule,
    name: &str,
    attributes: Option<String>,
    credential: SessionCredential,
    scope: SessionScope,
)
    requires
        call_ensures(ScopeRule::include_rule, (domain, path), kept),
        call_ensures(ScopeRule::exclude, (domain, path), left_out),
        call_ensures(SessionCredential::cookie, (name, attributes), credential),
        call_ensures(SessionScope::default, (), scope),
    ensures
        kept@.domain == text::opt_view(domain),
        left_out@.domain == text::opt_view(domain),
        kept@.path == text::opt_view(path),
        left_out@.path == text::opt_view(path),
        kept@.rule_type != left_out@.rule_type,
        left_out@.rule_type == "exclude"@,
        credential@.cred_type == "cookie"@,
        credential@.name == name@,
        credential@.attributes == text::opt_view(attributes),
        scope@.origin is None,
        !scope@.include_site,
        scope@.scope_specification.len() == 0,
{
    reveal_strlit("exclude");
    reveal_strlit("include");
    assert("exclude"@[0] == 'e' && "include"@[0] == 'i');
}

/// A manager has the store and the configuration that it was made with.
pub proof fn law_new_call<S: SessionStore>(store: S, config: ManagerConfig, r: Manager<S>)
    requires
        call_ensures(Manager::<S>::new, (store, config), r),
    ensures
        r.store == store,
        r.config == config,
{
}

} // verus!
