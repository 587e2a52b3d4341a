//! What the protocol flows promise, from one request to the next.

use vstd::prelude::*;
use crate::error::{ErrorView, Result};
use crate::header;
use crate::instruction;
use crate::instruction::InstructionView;
use crate::json;
use crate::jwt;
use crate::jwt::ProofView;
use crate::manager;
use crate::manager::{ConfigView, Manager, ManagerResponse, ResponseView, Ruling};
use crate::session;
use crate::session::{Session, SessionState, SessionView};
use crate::store;
use crate::store::{Contents, SessionStore};
use crate::text;

verus! {

/// Whether every `Set-Cookie` value of a configuration is the session id and the
/// lifetime, with the same text around them.
pub open spec fn cookie_frame(
    c: ConfigView,
    head: Seq<char>,
    middle: Seq<char>,
    tail: Seq<char>,
) -> bool {
    forall|id: Seq<char>, max_age: u64| #[trigger]
        manager::cookie_text(c, id, max_age) == head + id + middle + text::decimal(max_age as nat)
            + tail
}

/// The `Set-Cookie` values of one configuration differ in the session id and in the
/// lifetime, and in nothing else: the name before the id, the path between the two
/// and the attributes behind are the same for every id and every lifetime.
pub proof fn law_cookie_uniform(c: ConfigView)
    ensures
        exists|head: Seq<char>, middle: Seq<char>, tail: Seq<char>|
            cookie_frame(c, head, middle, tail),
{
    let head = c.cookie_name + "="@;
    let middle = "; Path="@ + c.cookie_path + "; Max-Age="@;
    let tail = "; HttpOnly"@ + (if c.secure {
        "; Secure"@
    } else {
        seq![]
    }) + "; SameSite="@ + c.same_site + (match c.cookie_domain {
        Some(domain) => "; Domain="@ + domain,
        None => seq![],
    });
    assert forall|id: Seq<char>, max_age: u64| #[trigger]
        manager::cookie_text(c, id, max_age) == head + id + middle + text::decimal(max_age as nat)
            + tail by {
        assert(manager::cookie_text(c, id, max_age) =~= head + id + middle + text::decimal(
            max_age as nat,
        ) + tail);
    }
    assert(cookie_frame(c, head, middle, tail));
}

/// A `Set-Cookie` value starts with the name, the id, the path and the lifetime, and
/// ends with the `Domain` attribute if and only if a domain is configured, whatever
/// the lifetime is. `HttpOnly` and `SameSite` are always there, `Secure` if and only
/// if it is configured.
pub proof fn law_cookie_attributes(c: ConfigView, id: Seq<char>, max_age: u64)
    ensures
        (c.cookie_name + "="@ + id + "; Path="@ + c.cookie_path + "; Max-Age="@ + text::decimal(
            max_age as nat,
        ) + "; HttpOnly"@).is_prefix_of(manager::cookie_text(c, id, max_age)),
        c.cookie_domain matches Some(domain) ==> ("; SameSite="@ + c.same_site + "; Domain="@
            + domain).is_suffix_of(manager::cookie_text(c, id, max_age)),
        c.cookie_domain is None ==> ("; SameSite="@ + c.same_site).is_suffix_of(
            manager::cookie_text(c, id, max_age),
        ),
        manager::cookie_text(c, id, max_age).len() == (c.cookie_name + "="@ + id + "; Path="@
            + c.cookie_path + "; Max-Age="@ + text::decimal(max_age as nat) + "; HttpOnly"@).len() + (
        if c.secure {
            "; Secure"@.len()
        } else {
            0
        }) + ("; SameSite="@ + c.same_site).len() + (match c.cookie_domain {
            Some(domain) => ("; Domain="@ + domain).len(),
            None => 0,
        }),
        c.secure ==> {
            let front = c.cookie_name + "="@ + id + "; Path="@ + c.cookie_path + "; Max-Age="@
                + text::decimal(max_age as nat) + "; HttpOnly"@;
            (front + "; Secure"@).is_prefix_of(manager::cookie_text(c, id, max_age))
        },
{
    let front = c.cookie_name + "="@ + id + "; Path="@ + c.cookie_path + "; Max-Age="@
        + text::decimal(max_age as nat) + "; HttpOnly"@;
    let secure: Seq<char> = if c.secure {
        "; Secure"@
    } else {
        seq![]
    };
    let site = "; SameSite="@ + c.same_site;
    let domain: Seq<char> = match c.cookie_domain {
        Some(domain) => "; Domain="@ + domain,
        None => seq![],
    };
    let cookie = manager::cookie_text(c, id, max_age);
    assert(cookie =~= front + secure + site + domain);
    assert(cookie.take(front.len() as int) =~= front);
    assert(c.secure ==> cookie.take((front + secure).len() as int) =~= front + secure);
    assert(cookie.skip((front + secure).len() as int) =~= site + domain);
    if let Some(d) = c.cookie_domain {
        assert(site + domain =~= "; SameSite="@ + c.same_site + "; Domain="@ + d);
    } else {
        assert(site + domain =~= site);
    }
}

/// A login stores the session under its id and announces it by a cookie that has
/// this id as its value and the configured lifetime; where that is not zero the
/// cookie is not an expired one.
pub proof fn law_initiation_cookie(
    c: ConfigView,
    before: Contents,
    after: Contents,
    user_id: Seq<char>,
    s: SessionView,
    response: ResponseView,
    challenge: Seq<char>,
    now: i64,
)
    requires
        manager::initiation_effect(c, before, after, user_id, s, response, challenge, now),
    ensures
        response.status_code == 200,
        after.dom().contains(s.id),
        after[s.id] == s,
        response.set_cookie matches Some(cookie) && (c.cookie_name + "="@ + s.id + "; Path="@
            + c.cookie_path + "; Max-Age="@ + text::decimal(c.cookie_ttl_seconds as nat)
            + "; HttpOnly"@).is_prefix_of(cookie),
        text::number(text::decimal(c.cookie_ttl_seconds as nat)) == c.cookie_ttl_seconds,
        response.challenge_header is None,
        response.body is None,
{
    law_cookie_attributes(c, s.id, c.cookie_ttl_seconds);
    text::law_decimal_reads_back(c.cookie_ttl_seconds as nat);
}

/// The cookie of a login and the cookie of a close have the same name, path and
/// attributes under one configuration, so that the second replaces the first; it is
/// empty and expired. The attributes end with the domain if and only if one is
/// configured.
pub proof fn law_closing_cookie_replaces(c: ConfigView, s: SessionView)
    ensures
        manager::initiation_response(c, s).set_cookie is Some,
        manager::closing_response(c).set_cookie is Some,
        exists|tail: Seq<char>|
            {
                &&& manager::initiation_response(c, s).set_cookie->Some_0 == c.cookie_name + "="@
                    + s.id + "; Path="@ + c.cookie_path + "; Max-Age="@ + text::decimal(
                    c.cookie_ttl_seconds as nat,
                ) + tail
                &&& manager::closing_response(c).set_cookie->Some_0 == #[trigger] (c.cookie_name
                    + "=; Path="@ + c.cookie_path + "; Max-Age=0"@ + tail)
                &&& c.cookie_domain matches Some(domain) ==> ("; Domain="@ + domain).is_suffix_of(
                    tail,
                )
                &&& c.cookie_domain is None ==> ("; SameSite="@ + c.same_site).is_suffix_of(tail)
            },
{
    let tail = "; HttpOnly"@ + (if c.secure {
        "; Secure"@
    } else {
        seq![]
    }) + "; SameSite="@ + c.same_site + (match c.cookie_domain {
        Some(domain) => "; Domain="@ + domain,
        None => seq![],
    });
    let first = manager::initiation_response(c, s).set_cookie->Some_0;
    let last = manager::closing_response(c).set_cookie->Some_0;
    assert(first =~= c.cookie_name + "="@ + s.id + "; Path="@ + c.cookie_path + "; Max-Age="@
        + text::decimal(c.cookie_ttl_seconds as nat) + tail);
    assert(last =~= c.cookie_name + "=; Path="@ + c.cookie_path + "; Max-Age=0"@ + tail) by {
        reveal_strlit("=");
        reveal_strlit("; Path=");
        reveal_strlit("=; Path=");
        reveal_strlit("; Max-Age=");
        reveal_strlit("; Max-Age=0");
        assert(text::decimal(0) =~= seq!['0']);
        assert("=; Path="@ =~= "="@ + "; Path="@);
        assert("; Max-Age=0"@ =~= "; Max-Age="@ + seq!['0']);
    }
    if let Some(domain) = c.cookie_domain {
        let d = "; Domain="@ + domain;
        assert(tail.skip(tail.len() - d.len()) =~= d);
    } else {
        let d = "; SameSite="@ + c.same_site;
        assert(tail.skip(tail.len() - d.len()) =~= d);
    }
}

/// A cookie whose values hold no `;` falls into its parts at `;`.
pub proof fn law_cookie_falls_apart(c: ConfigView, id: Seq<char>, max_age: u64)
    requires
        !c.cookie_name.contains(';'),
        !id.contains(';'),
        !c.cookie_path.contains(';'),
        !c.same_site.contains(';'),
        c.cookie_domain matches Some(domain) ==> !domain.contains(';'),
    ensures
        ({
            let parts = text::split(manager::cookie_text(c, id, max_age), ';');
            let n = parts.len();
            &&& parts[0] == c.cookie_name + "="@ + id
            &&& parts[1] == " Path="@ + c.cookie_path
            &&& parts[2] == " Max-Age="@ + text::decimal(max_age as nat)
            &&& parts[3] == " HttpOnly"@
            &&& c.secure <==> parts[4] == " Secure"@
            &&& n == 5 + (if c.secure {
                1int
            } else {
                0int
            }) + (if c.cookie_domain is Some {
                1int
            } else {
                0int
            })
            &&& c.cookie_domain matches Some(domain) ==> parts[n - 2] == " SameSite="@
                + c.same_site && parts[n - 1] == " Domain="@ + domain
            &&& c.cookie_domain is None ==> parts[n - 1] == " SameSite="@ + c.same_site
        }),
{
    lemma_cookie_separators();
    let age = text::decimal(max_age as nat);
    text::law_decimal_reads_back(max_age as nat);
    assert(!age.contains(';')) by {
        assert forall|i: int| 0 <= i < age.len() implies age[i] != ';' by {}
    }
    let p0 = c.cookie_name + "="@ + id;
    let p1 = " Path="@ + c.cookie_path;
    let p2 = " Max-Age="@ + age;
    let p3 = " HttpOnly"@;
    let p4 = " Secure"@;
    let p5 = " SameSite="@ + c.same_site;
    let front = seq![p0, p1, p2, p3];
    lemma_lacks_together(c.cookie_name, "="@);
    lemma_lacks_together(c.cookie_name + "="@, id);
    lemma_lacks_together(" Path="@, c.cookie_path);
    lemma_lacks_together(" Max-Age="@, age);
    lemma_lacks_together(" SameSite="@, c.same_site);
    lemma_joined_cookie(front, p0, p1, p2, p3);
    let text4 = p0.push(';') + p1.push(';') + p2.push(';') + p3;
    let semi = seq![';'];
    let front_text = c.cookie_name + "="@ + id + "; Path="@ + c.cookie_path + "; Max-Age="@ + age
        + "; HttpOnly"@;
    assert(front_text =~= text4) by {
        assert(p0.push(';') =~= p0 + semi);
        assert("; Path="@ + c.cookie_path =~= semi + p1);
        assert("; Max-Age="@ + age =~= semi + p2);
    }
    let secure_text = if c.secure {
        text4.push(';') + p4
    } else {
        text4
    };
    let with_secure = if c.secure {
        lemma_join_push(front, p4);
        front.push(p4)
    } else {
        front
    };
    let site_text = secure_text.push(';') + p5;
    let middle = with_secure.push(p5);
    lemma_join_push(with_secure, p5);
    assert(front_text + (if c.secure {
        "; Secure"@
    } else {
        Seq::empty()
    }) + "; SameSite="@ + c.same_site =~= site_text) by {
        assert("; SameSite="@ + c.same_site =~= semi + p5);
    }
    let all = match c.cookie_domain {
        Some(domain) => middle.push(" Domain="@ + domain),
        None => middle,
    };
    let cookie = manager::cookie_text(c, id, max_age);
    if let Some(domain) = c.cookie_domain {
        lemma_lacks_together(" Domain="@, domain);
        lemma_join_push(middle, " Domain="@ + domain);
        assert(cookie =~= site_text + ("; Domain="@ + domain));
        assert(cookie =~= site_text.push(';') + (" Domain="@ + domain));
    } else {
        assert(cookie =~= site_text);
    }
    assert(cookie == text::join(all, semi));
    assert forall|i: int| 0 <= i < all.len() implies !(#[trigger] all[i]).contains(';') by {}
    text::law_join_splits(all, ';');
    assert(p5 != p4) by {
        assert(p5[2] == " SameSite="@[2]);
    }
}

proof fn lemma_cookie_separators()
    ensures
        "; Path="@ == seq![';'] + " Path="@,
        "; Max-Age="@ == seq![';'] + " Max-Age="@,
        "; HttpOnly"@ == seq![';'] + " HttpOnly"@,
        "; Secure"@ == seq![';'] + " Secure"@,
        "; SameSite="@ == seq![';'] + " SameSite="@,
        "; Domain="@ == seq![';'] + " Domain="@,
        !"="@.contains(';'),
        !" Path="@.contains(';'),
        !" Max-Age="@.contains(';'),
        !" HttpOnly"@.contains(';'),
        !" Secure"@.contains(';'),
        !" SameSite="@.contains(';'),
        !" Domain="@.contains(';'),
        " SameSite="@.len() > 2,
        " SameSite="@[2] != " Secure"@[2],
{
    reveal_strlit("=");
    reveal_strlit("; Path=");
    reveal_strlit(" Path=");
    reveal_strlit("; Max-Age=");
    reveal_strlit(" Max-Age=");
    reveal_strlit("; HttpOnly");
    reveal_strlit(" HttpOnly");
    reveal_strlit("; Secure");
    reveal_strlit(" Secure");
    reveal_strlit("; SameSite=");
    reveal_strlit(" SameSite=");
    reveal_strlit("; Domain=");
    reveal_strlit(" Domain=");
}

proof fn lemma_lacks_together(a: Seq<char>, b: Seq<char>)
    requires
        !a.contains(';'),
        !b.contains(';'),
    ensures
        !(a + b).contains(';'),
{
    let whole = a + b;
    assert forall|i: int| 0 <= i < whole.len() implies whole[i] != ';' by {
        if i < a.len() {
            assert(a.contains(a[i]));
        } else {
            assert(b.contains(b[i - a.len()]));
        }
    }
}

proof fn lemma_join_push(pieces: Seq<Seq<char>>, piece: Seq<char>)
    requires
        pieces.len() > 0,
    ensures
        text::join(pieces.push(piece), seq![';']) == text::join(pieces, seq![';']).push(';')
            + piece,
{
    assert(pieces.push(piece).drop_last() =~= pieces);
    assert(text::join(pieces.push(piece), seq![';']) =~= text::join(pieces, seq![';']).push(';')
        + piece);
}

proof fn lemma_joined_cookie(
    front: Seq<Seq<char>>,
    p0: Seq<char>,
    p1: Seq<char>,
    p2: Seq<char>,
    p3: Seq<char>,
)
    requires
        front == seq![p0, p1, p2, p3],
    ensures
        text::join(front, seq![';']) == p0.push(';') + p1.push(';') + p2.push(';') + p3,
{
    assert(seq![p0].push(p1) =~= seq![p0, p1]);
    assert(seq![p0, p1].push(p2) =~= seq![p0, p1, p2]);
    assert(seq![p0, p1, p2].push(p3) =~= front);
    lemma_join_push(seq![p0], p1);
    lemma_join_push(seq![p0, p1], p2);
    lemma_join_push(seq![p0, p1, p2], p3);
    assert(text::join(seq![p0], seq![';']) == p0);
    assert(text::join(front, seq![';']) =~= p0.push(';') + p1.push(';') + p2.push(';') + p3);
}

/// Whether a `Secure-Session-Challenge` header hands out this challenge for this
/// session: in front the challenge as a quoted string, behind it the id.
pub open spec fn hands_out(value: Option<Seq<char>>, challenge: Seq<char>, id: Seq<char>) -> bool {
    &&& value is Some
    &&& ({
        let parts = header::parted(value->Some_0, ';');
        &&& parts.len() == 2
        &&& header::unquoted(parts[0]) == Some(challenge)
        &&& parts[1] == "id="@ + header::quoted(id)
    })
}

/// A token is given by a header that is a quoted string, whitespace around it
/// aside, and by no other.
pub proof fn law_given_token(response_header: Option<Seq<char>>, token: Seq<char>)
    ensures
        manager::given_token(response_header) == Some(token) <==> response_header is Some
            && text::trimmed(response_header->Some_0) == header::quoted(token),
{
    if response_header is Some {
        header::law_only_quoted_strings_read(response_header->Some_0, token);
    }
}

/// A registration is accepted if and only if the session is active, the header gives
/// a token that is a valid registration proof, the proof is for the challenge of the
/// session and carries a key, and it repeats the configured authorization where one
/// is configured. Nothing else is asked: every algorithm that a valid proof can have
/// with a key is good.
pub proof fn law_registration_accepted(
    c: ConfigView,
    s: SessionView,
    response_header: Option<Seq<char>>,
    proof: ProofView,
)
    ensures
        manager::registration_ruling(c, s, response_header) == Ruling::Accept(proof) <==> {
            &&& s.state == SessionState::Active
            &&& manager::given_token(response_header) matches Some(token)
                && jwt::registration_proof(token) == Ok::<ProofView, ErrorView>(proof)
            &&& s.challenge == Some(proof.challenge)
            &&& proof.jwk is Some
            &&& c.authorization matches Some(expected) ==> proof.authorization == Some(expected)
        },
{
}

/// A token that decodes, is signed under the key that it carries and is for the
/// challenge of an active session registers that key, where no authorization is
/// configured or the token repeats it.
pub proof fn law_signed_proof_registers(
    c: ConfigView,
    s: SessionView,
    response_header: Option<Seq<char>>,
    token: Seq<char>,
    proof: ProofView,
    jwk: json::JsonView,
)
    requires
        s.state == SessionState::Active,
        manager::given_token(response_header) == Some(token),
        jwt::decoded(token) == Ok::<ProofView, ErrorView>(proof),
        proof.jwk == Some(jwk),
        jwt::is_signed(proof.algorithm, jwk, proof.signing_input, proof.signature),
        s.challenge == Some(proof.challenge),
        c.authorization is None || proof.authorization == c.authorization,
    ensures
        manager::registration_ruling(c, s, response_header) == Ruling::Accept(proof),
{
    jwt::law_registration_accepts(token, proof);
}

/// A refresh is accepted if and only if the session is bound to a key, the header
/// gives a token that is a valid refresh proof under this key, and the proof is for
/// the challenge of the session. The configuration has no say in it.
pub proof fn law_refresh_accepted(
    s: SessionView,
    response_header: Option<Seq<char>>,
    proof: ProofView,
)
    ensures
        manager::refresh_ruling(s, response_header) == Ruling::Accept(proof) <==> {
            &&& s.state == SessionState::Bound
            &&& s.public_key is Some
            &&& manager::given_token(response_header) matches Some(token) && jwt::refresh_proof(
                token,
                s.public_key->Some_0,
            ) == Ok::<ProofView, ErrorView>(proof)
            &&& s.challenge == Some(proof.challenge)
        },
{
}

/// A token that decodes, carries no key, is signed under the key that the session is
/// bound to and is for its challenge refreshes the session.
pub proof fn law_signed_proof_refreshes(
    s: SessionView,
    response_header: Option<Seq<char>>,
    token: Seq<char>,
    proof: ProofView,
    registered: Seq<char>,
    jwk: json::JsonView,
)
    requires
        s.state == SessionState::Bound,
        s.public_key == Some(registered),
        manager::given_token(response_header) == Some(token),
        jwt::decoded(token) == Ok::<ProofView, ErrorView>(proof),
        proof.jwk is None,
        json::json_value(vstd::utf8::encode_utf8(registered)) matches Ok(v) && v == jwk,
        jwt::is_signed(proof.algorithm, jwk, proof.signing_input, proof.signature),
        s.challenge == Some(proof.challenge),
    ensures
        manager::refresh_ruling(s, response_header) == Ruling::Accept(proof),
{
    jwt::law_refresh_accepts(token, registered, proof);
}

/// How a request for a known session is answered when its proof is not accepted: one
/// that the state of the session rules out with status 400 and nothing else; any
/// other with status 403 and the current challenge of the session, or an empty one
/// where it has none. It fails only where a bound session has no key.
pub proof fn law_refusals(c: ConfigView, s: SessionView, response_header: Option<Seq<char>>)
    ensures
        s.state == SessionState::Bound ==> manager::registration_ruling(c, s, response_header)
            == Ruling::Refuse(manager::bare_status(400)),
        s.state == SessionState::Active ==> manager::refresh_ruling(s, response_header)
            == Ruling::Refuse(manager::bare_status(400)),
        s.state == SessionState::Active && manager::registration_ruling(
            c,
            s,
            response_header,
        ) !is Accept ==> manager::registration_ruling(c, s, response_header) is Refuse
            && is_challenged(manager::registration_ruling(c, s, response_header)->Refuse_0, s),
        s.state == SessionState::Bound && manager::refresh_ruling(s, response_header) is Refuse
            ==> is_challenged(manager::refresh_ruling(s, response_header)->Refuse_0, s),
        manager::registration_ruling(c, s, response_header) !is Fail,
        manager::refresh_ruling(s, response_header) is Fail ==> s.state == SessionState::Bound
            && s.public_key is None,
        s.state == SessionState::Bound && s.public_key is None && manager::given_token(
            response_header,
        ) is Some ==> manager::refresh_ruling(s, response_header) is Fail,
{
    let challenge: Seq<char> = if s.challenge is Some {
        s.challenge->Some_0
    } else {
        seq![]
    };
    header::law_challenge_reads_back(challenge, s.id);
}

/// Whether a response is status 403 and the current challenge of the session, and
/// nothing else.
pub open spec fn is_challenged(response: ResponseView, s: SessionView) -> bool {
    &&& response.status_code == 403
    &&& s.challenge matches Some(challenge) ==> hands_out(
        response.challenge_header,
        challenge,
        s.id,
    )
    &&& s.challenge is None ==> hands_out(response.challenge_header, seq![], s.id)
    &&& response.set_cookie is None
    &&& response.registration_header is None
    &&& response.body is None
}

/// A bare status is a status without headers and body.
pub proof fn law_bare_status(status_code: u16)
    ensures
        ({
            let response = manager::bare_status(status_code);
            &&& response.status_code == status_code
            &&& response.set_cookie is None
            &&& response.registration_header is None
            &&& response.challenge_header is None
            &&& response.body is None
        }),
{
}

/// What the store says comes first: its failure is the answer, a session that it
/// does not have is answered with status 401, and a session that it has is judged by
/// itself.
pub proof fn law_verdicts(
    c: ConfigView,
    got: Result<Option<Session>>,
    response_header: Option<Seq<char>>,
)
    ensures
        got matches Err(e) ==> manager::registration_verdict(c, got, response_header)
            == Ruling::Fail(e@) && manager::refresh_verdict(got, response_header) == Ruling::Fail(
            e@,
        ),
        got matches Ok(None) ==> manager::registration_verdict(c, got, response_header)
            == Ruling::Refuse(manager::bare_status(401)) && manager::refresh_verdict(
            got,
            response_header,
        ) == Ruling::Refuse(manager::bare_status(401)),
        got matches Ok(Some(s)) ==> manager::registration_verdict(c, got, response_header)
            == manager::registration_ruling(c, s@, response_header) && manager::refresh_verdict(
            got,
            response_header,
        ) == manager::refresh_ruling(s@, response_header),
{
}

/// Whether a session that is stored as of `now` lives as the configuration says: for
/// exactly the configured time from then on, where one is configured, and else as
/// long as `before` says. In 64-bit arithmetic that wraps, a sum that leaves the
/// range is 2^64 less.
pub open spec fn lives_on(c: ConfigView, before: Option<i64>, s: SessionView, now: i64) -> bool {
    match c.session_ttl_seconds {
        Some(ttl) => {
            &&& now + ttl <= i64::MAX ==> s.expires_at == Some((now + ttl) as i64)
            &&& now + ttl > i64::MAX ==> s.expires_at == Some(
                (now + ttl - 0x1_0000_0000_0000_0000) as i64,
            )
        },
        None => s.expires_at == before,
    }
}

proof fn lemma_expiry_after(now: i64, ttl: u64)
    ensures
        now + ttl <= i64::MAX ==> manager::expiry_after(now, ttl) == now + ttl,
        now + ttl > i64::MAX ==> manager::expiry_after(now, ttl) == now + ttl
            - 0x1_0000_0000_0000_0000,
{
    if ttl > i64::MAX {
        assert(ttl as i64 == ttl - 0x1_0000_0000_0000_0000) by (bit_vector)
            requires
                ttl >= 0x8000_0000_0000_0000,
        ;
    }
}

proof fn lemma_with_ttl(c: ConfigView, s: SessionView, now: i64)
    ensures
        lives_on(c, s.expires_at, manager::with_ttl(c, s, now), now),
        manager::with_ttl(c, s, now).id == s.id,
        manager::with_ttl(c, s, now).user_id == s.user_id,
        manager::with_ttl(c, s, now).state == s.state,
        manager::with_ttl(c, s, now).public_key == s.public_key,
        manager::with_ttl(c, s, now).algorithm == s.algorithm,
        manager::with_ttl(c, s, now).challenge == s.challenge,
        manager::with_ttl(c, s, now).created_at == s.created_at,
{
    if let Some(ttl) = c.session_ttl_seconds {
        lemma_expiry_after(now, ttl);
    }
}

/// A refresh prolongs: the session after it has the new challenge and lives for the
/// configured time from then on, whatever its expiry was; without a configured time
/// its expiry stays. Nothing else of it changes.
pub proof fn law_refreshed_session(c: ConfigView, s: SessionView, challenge: Seq<char>, now: i64)
    ensures
        ({
            let next = manager::refreshed(c, s, challenge, now);
            &&& lives_on(c, s.expires_at, next, now)
            &&& next.challenge == Some(challenge)
            &&& next.id == s.id
            &&& next.user_id == s.user_id
            &&& next.state == s.state
            &&& next.public_key == s.public_key
            &&& next.algorithm == s.algorithm
            &&& next.created_at == s.created_at
        }),
{
    lemma_with_ttl(c, SessionView { challenge: Some(challenge), ..s }, now);
}

/// A registration binds: the session after it is bound to the key and the algorithm
/// of the proof, has the new challenge and lives for the configured time from then
/// on. Nothing else of it changes.
pub proof fn law_bound_session(
    c: ConfigView,
    s: SessionView,
    proof: ProofView,
    challenge: Seq<char>,
    now: i64,
)
    ensures
        ({
            let next = manager::bound(c, s, proof, challenge, now);
            &&& lives_on(c, s.expires_at, next, now)
            &&& next.state == SessionState::Bound
            &&& proof.jwk matches Some(jwk) ==> next.public_key == Some(jwk.json)
            &&& proof.jwk is None ==> next.public_key is None
            &&& next.algorithm == Some(proof.algorithm)
            &&& next.challenge == Some(challenge)
            &&& next.id == s.id
            &&& next.user_id == s.user_id
            &&& next.created_at == s.created_at
        }),
{
    lemma_with_ttl(
        c,
        SessionView {
            state: SessionState::Bound,
            public_key: match proof.jwk {
                Some(jwk) => Some(jwk.json),
                None => None,
            },
            algorithm: Some(proof.algorithm),
            challenge: Some(challenge),
            ..s
        },
        now,
    );
}

/// A login starts a session of its user that is active, has the challenge and no
/// key, and lives for the configured time or without end.
pub proof fn law_initiated_session(
    c: ConfigView,
    id: Seq<char>,
    user_id: Seq<char>,
    created_at: i64,
    challenge: Seq<char>,
    now: i64,
)
    ensures
        ({
            let s = manager::initiated(c, id, user_id, created_at, challenge, now);
            &&& lives_on(c, None, s, now)
            &&& s.state == SessionState::Active
            &&& s.public_key is None
            &&& s.algorithm is None
            &&& s.challenge == Some(challenge)
            &&& s.id == id
            &&& s.user_id == user_id
            &&& s.created_at == created_at
        }),
{
    lemma_with_ttl(
        c,
        SessionView {
            challenge: Some(challenge),
            ..session::starting_session(id, user_id, created_at)
        },
        now,
    );
}

/// Setting the expiry sets nothing but the expiry.
pub proof fn law_ttl_applied(c: ConfigView, s: SessionView, now: i64)
    ensures
        lives_on(c, s.expires_at, manager::with_ttl(c, s, now), now),
        manager::with_ttl(c, s, now) == (SessionView {
            expires_at: manager::with_ttl(c, s, now).expires_at,
            ..s
        }),
{
    lemma_with_ttl(c, s, now);
}

/// A login, a registration or a refresh that succeeds leaves a session that is found
/// at every time before its configured time is over, and at no time after, whatever
/// its expiry was before; where no time is configured, a login leaves one that is
/// always found.
pub proof fn law_stored_session_found(
    c: ConfigView,
    before: Contents,
    after: Contents,
    user_id: Seq<char>,
    s: SessionView,
    started: ResponseView,
    id: Seq<char>,
    response_header: Option<Seq<char>>,
    response: ResponseView,
    read_at: i64,
    challenge: Seq<char>,
    now: i64,
    at: i64,
)
    requires
        ({
            ||| manager::initiation_effect(
                c,
                before,
                after,
                user_id,
                s,
                started,
                challenge,
                now,
            ) && s.id == id
            ||| response.status_code == 200 && manager::registration_effect(
                c,
                before,
                after,
                id,
                response_header,
                Ok(response),
                read_at,
                challenge,
                now,
            )
            ||| response.status_code == 200 && manager::refresh_effect(
                c,
                before,
                after,
                id,
                response_header,
                Ok(response),
                read_at,
                challenge,
                now,
            )
        }),
    ensures
        c.session_ttl_seconds matches Some(ttl) ==> now + ttl <= i64::MAX ==> {
            &&& after.dom().contains(id)
            &&& after[id].expires_at == Some((now + ttl) as i64)
            &&& store::lookup(after, id, at) == Some(after[id]) <==> at < now + ttl
            &&& store::lookup(after, id, at) is None <==> at >= now + ttl
        },
        after[id].challenge == Some(challenge),
        c.session_ttl_seconds is None ==> (after[id].expires_at is None || before.dom().contains(id)
            && after[id].expires_at == before[id].expires_at),
{
    if manager::initiation_effect(c, before, after, user_id, s, started, challenge, now) && s.id
        == id {
        law_initiated_session(c, s.id, user_id, s.created_at, challenge, now);
    } else {
        let known = store::lookup(before, id, read_at);
        if known is Some {
            let found = known->Some_0;
            law_refreshed_session(c, found, challenge, now);
            law_refusals(c, found, response_header);
            if let Ruling::Accept(proof) = manager::registration_ruling(c, found, response_header) {
                law_bound_session(c, found, proof, challenge, now);
            }
        }
    }
}

/// The answer to a login: status 200, the cookie, and a registration header that
/// offers both algorithms and hands out the path, the challenge of the session and
/// the configured authorization.
pub proof fn law_initiation_response(c: ConfigView, s: SessionView)
    ensures
        ({
            let response = manager::initiation_response(c, s);
            let parts = header::parted(response.registration_header->Some_0, ';');
            &&& response.status_code == 200
            &&& response.registration_header is Some
            &&& parts[0] == "(ES256 RS256)"@
            &&& parts.skip(1) == header::given("path"@, Some(c.register_path)) + header::given(
                "challenge"@,
                s.challenge,
            ) + header::given("authorization"@, c.authorization)
            &&& response.challenge_header is None
            &&& response.body is None
        }),
{
    let algs = seq!["ES256"@, "RS256"@];
    let path = header::given("path"@, Some(c.register_path));
    let challenge = header::given("challenge"@, s.challenge);
    let authorization = header::given("authorization"@, c.authorization);
    let parts = header::parted(manager::initiation_response(c, s).registration_header->Some_0, ';');
    lemma_algorithms_offered();
    header::law_registration_reads_back(
        algs,
        Some(c.register_path),
        s.challenge,
        c.authorization,
        None,
        None,
        None,
    );
    header::lemma_list_alone(algs, parts[0]);
    lemma_first_of_parts(parts, seq![parts[0]], path, challenge, authorization);
}

proof fn lemma_first_of_parts(
    parts: Seq<Seq<char>>,
    first: Seq<Seq<char>>,
    a: Seq<Seq<char>>,
    b: Seq<Seq<char>>,
    c: Seq<Seq<char>>,
)
    requires
        first.len() == 1,
        parts == first + a + b + c + seq![] + seq![] + seq![],
    ensures
        parts.skip(1) == a + b + c,
{
    assert(parts =~= first + (a + b + c));
    assert(parts.skip(1) =~= a + b + c);
}

proof fn lemma_algorithms_offered()
    ensures
        ({
            let algs = seq!["ES256"@, "RS256"@];
            &&& seq!['('] + text::join(algs, " "@) + seq![')'] == "(ES256 RS256)"@
            &&& forall|i: int|
                0 <= i < algs.len() ==> !(#[trigger] algs[i]).contains('"') && !algs[i].contains(
                    ';',
                ) && !algs[i].contains(' ')
        }),
{
    let algs = seq!["ES256"@, "RS256"@];
    reveal_strlit("ES256");
    reveal_strlit("RS256");
    reveal_strlit(" ");
    reveal_strlit("(ES256 RS256)");
    assert(algs.drop_last() =~= seq!["ES256"@]);
    assert(text::join(seq!["ES256"@], " "@) == "ES256"@);
    assert(text::join(algs, " "@) =~= "ES256"@ + " "@ + "RS256"@);
    assert(seq!['('] + text::join(algs, " "@) + seq![')'] =~= "(ES256 RS256)"@);
}

/// Whether an instruction keeps the session going: by its id, at the refresh
/// endpoint, with the session cookie as its one credential and nothing else said.
pub open spec fn goes_on(c: ConfigView, id: Seq<char>, i: InstructionView) -> bool {
    &&& i.session_identifier == id
    &&& i.refresh_url == Some(c.refresh_path)
    &&& i.continue_session
    &&& i.scope == instruction::default_scope()
    &&& i.credentials.len() == 1
    &&& i.credentials[0].cred_type == "cookie"@
    &&& i.credentials[0].name == c.cookie_name
    &&& i.credentials[0].attributes is None
    &&& i.allowed_refresh_initiators.len() == 0
}

/// The answer to a registration that bound the session and to a refresh: status 200,
/// the challenge for the next proof, and the instruction to go on with the session.
/// The first sets the cookie anew, with the value and the lifetime that a login gives
/// it; the second sets none.
pub proof fn law_success_responses(c: ConfigView, s: SessionView, challenge: Seq<char>)
    requires
        s.challenge == Some(challenge),
    ensures
        manager::binding_response(c, s).set_cookie == manager::initiation_response(
            c,
            s,
        ).set_cookie,
        manager::refresh_response(c, s).set_cookie is None,
        forall|response: ResponseView|
            #![trigger response.status_code]
            response == manager::binding_response(c, s) || response == manager::refresh_response(
                c,
                s,
            ) ==> {
                &&& response.status_code == 200
                &&& hands_out(response.challenge_header, challenge, s.id)
                &&& response.registration_header is None
                &&& exists|i: InstructionView|
                    goes_on(c, s.id, i) && response.body == Some(
                        #[trigger] instruction::instruction_json(i),
                    )
            },
{
    header::law_challenge_reads_back(challenge, s.id);
    let i = manager::session_instruction(c, s.id);
    assert(goes_on(c, s.id, i));
    assert(manager::refresh_response(c, s).body == Some(instruction::instruction_json(i)));
}

/// The answer to a close: status 200, the text `{"continue":false}`, and a cookie
/// without value and lifetime.
pub proof fn law_closing_response(c: ConfigView)
    ensures
        ({
            let response = manager::closing_response(c);
            &&& response.status_code == 200
            &&& response.registration_header is None
            &&& response.challenge_header is None
            &&& response.body == Some("{\"continue\":false}"@)
            &&& response.set_cookie matches Some(cookie) && (c.cookie_name + "=; Path="@
                + c.cookie_path + "; Max-Age=0"@).is_prefix_of(cookie)
        }),
{
    instruction::law_termination_text(instruction::termination());
    let any = session::starting_session(seq![], seq![], 0);
    law_closing_cookie_replaces(c, any);
    let cookie = manager::closing_response(c).set_cookie->Some_0;
    let front = c.cookie_name + "=; Path="@ + c.cookie_path + "; Max-Age=0"@;
    assert(cookie.take(front.len() as int) =~= front);
}

/// A registration that meets every condition binds the session in the store to the
/// key of the proof and is answered with status 200; and one that is answered with
/// status 200 met them.
pub proof fn law_registration_flow(
    c: ConfigView,
    before: Contents,
    after: Contents,
    id: Seq<char>,
    response_header: Option<Seq<char>>,
    result: std::result::Result<ResponseView, ErrorView>,
    read_at: i64,
    challenge: Seq<char>,
    now: i64,
    s: SessionView,
    token: Seq<char>,
    proof: ProofView,
    jwk: json::JsonView,
)
    requires
        manager::registration_effect(
            c,
            before,
            after,
            id,
            response_header,
            result,
            read_at,
            challenge,
            now,
        ),
        store::lookup(before, id, read_at) == Some(s),
        s.state == SessionState::Active,
        manager::given_token(response_header) == Some(token),
        jwt::registration_proof(token) == Ok::<ProofView, ErrorView>(proof),
        proof.jwk == Some(jwk),
    ensures
        result is Ok,
        result->Ok_0.status_code == 200 <==> s.challenge == Some(proof.challenge) && (
        c.authorization is None || proof.authorization == c.authorization),
        result->Ok_0.status_code == 200 ==> after.dom().contains(id) && after[id].state
            == SessionState::Bound && after[id].public_key == Some(jwk.json) && after[id].algorithm
            == Some(proof.algorithm) && after[id].challenge == Some(challenge),
        result->Ok_0.status_code != 200 ==> after == before && is_challenged(result->Ok_0, s),
{
    law_registration_accepted(c, s, response_header, proof);
    law_refusals(c, s, response_header);
    law_bound_session(c, s, proof, challenge, now);
}

/// A refresh that meets every condition stores a new challenge and is answered with
/// status 200; and one that is answered with status 200 met them.
pub proof fn law_refresh_flow(
    c: ConfigView,
    before: Contents,
    after: Contents,
    id: Seq<char>,
    response_header: Option<Seq<char>>,
    result: std::result::Result<ResponseView, ErrorView>,
    read_at: i64,
    challenge: Seq<char>,
    now: i64,
    s: SessionView,
    registered: Seq<char>,
    token: Seq<char>,
    proof: ProofView,
)
    requires
        manager::refresh_effect(
            c,
            before,
            after,
            id,
            response_header,
            result,
            read_at,
            challenge,
            now,
        ),
        store::lookup(before, id, read_at) == Some(s),
        s.state == SessionState::Bound,
        s.public_key == Some(registered),
        manager::given_token(response_header) == Some(token),
        jwt::refresh_proof(token, registered) == Ok::<ProofView, ErrorView>(proof),
    ensures
        result is Ok,
        result->Ok_0.status_code == 200 <==> s.challenge == Some(proof.challenge),
        result->Ok_0.status_code == 200 ==> after.dom().contains(id) && after[id].challenge == Some(
            challenge,
        ) && after[id].state == SessionState::Bound && after[id].public_key == Some(registered),
        result->Ok_0.status_code != 200 ==> after == before && is_challenged(result->Ok_0, s),
{
    law_refresh_accepted(s, response_header, proof);
    law_refusals(c, s, response_header);
    law_refreshed_session(c, s, challenge, now);
}

/// What an unconfigured manager does: a cookie `session_id` for the whole site and
/// for an hour, `Lax` and `Secure`; sessions without end; no authorization; its own
/// two endpoints.
pub proof fn law_default_config()
    ensures
        ({
            let c = manager::default_config();
            &&& c.cookie_name == "session_id"@
            &&& c.cookie_path == "/"@
            &&& c.cookie_domain is None
            &&& c.same_site == "Lax"@
            &&& c.secure
            &&& c.cookie_ttl_seconds == 60 * 60
            &&& c.session_ttl_seconds is None
            &&& c.authorization is None
            &&& c.register_path == "/dbsc/register"@
            &&& c.refresh_path == "/dbsc/refresh"@
        }),
{
}

/// A challenge stands for the 32 bytes that were drawn: two characters for each.
pub proof fn law_challenge_stands_for_bytes(challenge: Seq<char>)
    requires
        manager::is_challenge(challenge),
    ensures
        challenge.len() == 64,
        exists|bytes: Seq<u8>|
            {
                &&& #[trigger] manager::is_drawn(bytes)
                &&& bytes.len() == 32
                &&& forall|i: int|
                    0 <= i < 32 ==> #[trigger] bytes[i] == 16 * text::hex_value(challenge[2 * i])
                        + text::hex_value(challenge[2 * i + 1])
            },
{
    let bytes = choose|bytes: Seq<u8>|
        manager::is_drawn(bytes) && bytes.len() == 32 && challenge == #[trigger] text::hex(bytes);
    text::law_hex_reads_back(bytes);
}

/// A login starts a new session for its user, under an id that was drawn, with a
/// challenge that was drawn, and leaves every session with another id as it was.
pub proof fn law_initiation_flow(
    c: ConfigView,
    before: Contents,
    after: Contents,
    user_id: Seq<char>,
    s: SessionView,
    response: ResponseView,
    challenge: Seq<char>,
    now: i64,
    other: Seq<char>,
    at: i64,
)
    requires
        manager::initiation_effect(c, before, after, user_id, s, response, challenge, now),
    ensures
        s.user_id == user_id,
        s.state == SessionState::Active,
        s.public_key is None,
        s.algorithm is None,
        s.challenge == Some(challenge),
        manager::is_challenge(challenge),
        session::is_uuid_v4(s.id),
        session::is_drawn_id(s.id),
        session::is_reading(s.created_at),
        lives_on(c, None, s, now),
        after.dom().contains(s.id) && after[s.id] == s,
        other != s.id ==> store::lookup(after, other, at) == store::lookup(before, other, at),
        other != s.id ==> (after.dom().contains(other) <==> before.dom().contains(other)),
{
    law_initiated_session(c, s.id, user_id, s.created_at, challenge, now);
}

/// A request succeeds when the store was written to, and else fails as the store did.
pub proof fn law_concluded(done: Result<()>, response: ResponseView)
    ensures
        done is Ok ==> manager::concluded(done, response) == Ok::<ResponseView, ErrorView>(
            response,
        ),
        done matches Err(e) ==> manager::concluded(done, response) == Err::<
            ResponseView,
            ErrorView,
        >(e@),
{
}

/// A close that succeeds leaves no session under the id, and the others as they were;
/// it is answered as [`law_closing_response`] says.
pub proof fn law_close<S: SessionStore>()
    ensures
        forall|m: &mut Manager<S>, id: &str, r: Result<ManagerResponse>| #[trigger]
            call_ensures(Manager::<S>::close, (m, id), r) && r is Ok ==> {
                &&& final(m).store.contents() == m.store.contents().remove(id@)
                &&& final(m).config == m.config
                &&& r->Ok_0@ == manager::closing_response(m.config@)
            },
{
}

/// A login on a store that does not fail succeeds: the store has the new session of
/// the user, the answer has status 200 and a cookie with its id and the configured
/// lifetime, and every session with another id is as it was.
pub proof fn law_initiate<S: SessionStore>()
    ensures
        forall|m: &mut Manager<S>, user_id: &str, r: Result<(Session, ManagerResponse)>| #[trigger]
            call_ensures(Manager::<S>::initiate, (m, user_id), r) ==> {
                &&& final(m).config == m.config
                &&& m.store.reliable() ==> r is Ok && final(m).store.reliable()
                &&& r matches Ok((s, response)) ==> {
                    let c = m.config@;
                    &&& s@.user_id == user_id@
                    &&& s@.state == SessionState::Active
                    &&& s@.challenge is Some && manager::is_challenge(s@.challenge->Some_0)
                    &&& session::is_drawn_id(s@.id)
                    &&& final(m).store.contents() == m.store.contents().insert(s@.id, s@)
                    &&& c.session_ttl_seconds is None ==> s@.expires_at is None
                    &&& response@.status_code == 200
                    &&& response@.set_cookie is Some
                    &&& (c.cookie_name + "="@ + s@.id + "; Path="@ + c.cookie_path
                        + "; Max-Age="@ + text::decimal(c.cookie_ttl_seconds as nat)
                        + "; HttpOnly"@).is_prefix_of(response@.set_cookie->Some_0)
                }
            },
{
    assert forall|
        m: &mut Manager<S>,
        user_id: &str,
        r: Result<(Session, ManagerResponse)>,
    | #[trigger]
        call_ensures(Manager::<S>::initiate, (m, user_id), r) implies {
        &&& final(m).config == m.config
        &&& m.store.reliable() ==> r is Ok && final(m).store.reliable()
        &&& r matches Ok((s, response)) ==> {
            let c = m.config@;
            &&& s@.user_id == user_id@
            &&& s@.state == SessionState::Active
            &&& s@.challenge is Some && manager::is_challenge(s@.challenge->Some_0)
            &&& session::is_drawn_id(s@.id)
            &&& final(m).store.contents() == m.store.contents().insert(s@.id, s@)
            &&& c.session_ttl_seconds is None ==> s@.expires_at is None
            &&& response@.status_code == 200
            &&& response@.set_cookie is Some
            &&& (c.cookie_name + "="@ + s@.id + "; Path="@ + c.cookie_path + "; Max-Age="@
                + text::decimal(c.cookie_ttl_seconds as nat) + "; HttpOnly"@).is_prefix_of(
                response@.set_cookie->Some_0,
            )
        }
    } by {
        if let Ok((s, response)) = r {
            let c = m.config@;
            let before = m.store.contents();
            let after = final(m).store.contents();
            let (challenge, now) = choose|challenge: Seq<char>, now: i64| #[trigger]
                manager::initiation_effect(
                    c,
                    before,
                    after,
                    user_id@,
                    s@,
                    response@,
                    challenge,
                    now,
                );
            law_initiation_cookie(c, before, after, user_id@, s@, response@, challenge, now);
            law_initiated_session(c, s@.id, user_id@, s@.created_at, challenge, now);
        }
    }
}

/// Whether a registration for the session is one to accept: the session is active
/// and does not expire, the header gives a token that is a valid registration proof
/// with a key, for its challenge and with the configured authorization.
pub open spec fn may_register(
    c: ConfigView,
    s: SessionView,
    response_header: Option<Seq<char>>,
    proof: ProofView,
) -> bool {
    &&& s.expires_at is None
    &&& s.state == SessionState::Active
    &&& manager::given_token(response_header) is Some
    &&& jwt::registration_proof(manager::given_token(response_header)->Some_0) == Ok::<
        ProofView,
        ErrorView,
    >(proof)
    &&& proof.jwk is Some
    &&& s.challenge == Some(proof.challenge)
    &&& c.authorization is None || proof.authorization == c.authorization
}

/// Registering with a good proof, on a store that does not fail, answers with status
/// 200 and leaves the session bound to the key of the proof.
pub proof fn law_register<S: SessionStore>(
    m: &Manager<S>,
    after: &Manager<S>,
    id: &str,
    response_header: Option<&str>,
    proof: ProofView,
    r: Result<ManagerResponse>,
)
    requires
        m.store.reliable(),
        m.store.contents().dom().contains(id@),
        may_register(
            m.config@,
            m.store.contents()[id@],
            text::opt_str(response_header),
            proof,
        ),
        exists|x: &mut Manager<S>|
            *x == *m && *final(x) == *after && #[trigger] call_ensures(
                Manager::<S>::register,
                (x, id, response_header),
                r,
            ),
    ensures
        r is Ok,
        r->Ok_0@.status_code == 200,
        after.config == m.config,
        after.store.contents().dom().contains(id@),
        after.store.contents()[id@].state == SessionState::Bound,
        after.store.contents()[id@].public_key == Some(proof.jwk->Some_0.json),
        after.store.contents()[id@].algorithm == Some(proof.algorithm),
        after.store.contents().remove(id@) == m.store.contents().remove(id@),
{
    let c = m.config@;
    let before = m.store.contents();
    let next = after.store.contents();
    let head = text::opt_str(response_header);
    let result = manager::outcome(r);
    let s = before[id@];
    let (read_at, challenge, now) = choose|read_at: i64, challenge: Seq<char>, now: i64| #[trigger]
        manager::registration_effect(
            c,
            before,
            next,
            id@,
            head,
            result,
            read_at,
            challenge,
            now,
        );
    law_registration_accepted(c, s, head, proof);
    store::law_found_as_stored(before, id@, read_at);
    law_bound_session(c, s, proof, challenge, now);
    law_success_responses(c, manager::bound(c, s, proof, challenge, now), challenge);
    assert(manager::binding_response(
        c,
        manager::bound(c, s, proof, challenge, now),
    ).status_code == 200);
    assert(next.remove(id@) =~= before.remove(id@));
}

/// Refreshing with a good proof, on a store that does not fail, answers with status
/// 200 and leaves the session bound as it was, with another challenge that was drawn,
/// and with its expiry set anew from a time that the clock showed.
pub proof fn law_refresh<S: SessionStore>(
    m: &Manager<S>,
    after: &Manager<S>,
    id: &str,
    response_header: Option<&str>,
    proof: ProofView,
    r: Result<ManagerResponse>,
)
    requires
        m.store.reliable(),
        m.store.contents().dom().contains(id@),
        ({
            let s = m.store.contents()[id@];
            let token = manager::given_token(text::opt_str(response_header));
            &&& s.expires_at is None
            &&& s.state == SessionState::Bound
            &&& s.public_key is Some
            &&& token is Some
            &&& jwt::refresh_proof(token->Some_0, s.public_key->Some_0) == Ok::<
                ProofView,
                ErrorView,
            >(proof)
            &&& s.challenge == Some(proof.challenge)
        }),
        exists|x: &mut Manager<S>|
            *x == *m && *final(x) == *after && #[trigger] call_ensures(
                Manager::<S>::refresh,
                (x, id, response_header),
                r,
            ),
    ensures
        r is Ok,
        r->Ok_0@.status_code == 200,
        after.config == m.config,
        after.store.contents().dom().contains(id@),
        ({
            let s = m.store.contents()[id@];
            let next = after.store.contents()[id@];
            &&& next.state == SessionState::Bound
            &&& next.public_key == s.public_key
            &&& next.algorithm == s.algorithm
            &&& next.challenge is Some && manager::is_challenge(next.challenge->Some_0)
            &&& exists|now: i64| #[trigger]
                session::is_reading(now) && lives_on(m.config@, s.expires_at, next, now)
        }),
        after.store.contents().remove(id@) == m.store.contents().remove(id@),
{
    let c = m.config@;
    let before = m.store.contents();
    let next = after.store.contents();
    let head = text::opt_str(response_header);
    let result = manager::outcome(r);
    let s = before[id@];
    let (read_at, challenge, now) = choose|read_at: i64, challenge: Seq<char>, now: i64| #[trigger]
        manager::refresh_effect(c, before, next, id@, head, result, read_at, challenge, now);
    law_refresh_accepted(s, head, proof);
    store::law_found_as_stored(before, id@, read_at);
    law_refreshed_session(c, s, challenge, now);
    law_success_responses(c, manager::refreshed(c, s, challenge, now), challenge);
    assert(manager::refresh_response(c, manager::refreshed(c, s, challenge, now)).status_code
        == 200);
    assert(next.remove(id@) =~= before.remove(id@));
    assert(session::is_reading(now));
}

/// Whether the session has a challenge that was drawn, and lives as the configuration
/// says from a time that the clock showed.
pub open spec fn is_fresh(c: ConfigView, before: Option<i64>, s: SessionView) -> bool {
    &&& s.challenge is Some && manager::is_challenge(s.challenge->Some_0)
    &&& exists|now: i64| #[trigger] session::is_reading(now) && lives_on(c, before, s, now)
}

/// What is handed to the store, whether or not it takes it: at a login an active
/// session of the user without a key, under an id that was drawn; at a registration
/// the session bound to the key of the proof; at a refresh the session as it was. Each
/// has a challenge that was drawn, and its expiry set anew.
pub proof fn law_handed_to_store(
    c: ConfigView,
    user_id: Seq<char>,
    started: SessionView,
    s: SessionView,
    proof: ProofView,
    bound: SessionView,
    refreshed: SessionView,
)
    requires
        manager::starts(c, user_id, started),
        manager::binds(c, s, proof, bound),
        manager::renews(c, s, refreshed),
    ensures
        is_fresh(c, None, started),
        started.user_id == user_id,
        started.state == SessionState::Active,
        started.public_key is None,
        session::is_drawn_id(started.id),
        is_fresh(c, s.expires_at, bound),
        bound.id == s.id,
        bound.user_id == s.user_id,
        bound.state == SessionState::Bound,
        proof.jwk matches Some(jwk) ==> bound.public_key == Some(jwk.json),
        bound.algorithm == Some(proof.algorithm),
        is_fresh(c, s.expires_at, refreshed),
        refreshed.id == s.id,
        refreshed.user_id == s.user_id,
        refreshed.state == s.state,
        refreshed.public_key == s.public_key,
        refreshed.algorithm == s.algorithm,
{
    let (d0, t0) = choose|challenge: Seq<char>, now: i64|
        manager::is_challenge(challenge) && session::is_reading(now) && started
            == #[trigger] manager::initiated(
            c,
            started.id,
            user_id,
            started.created_at,
            challenge,
            now,
        );
    law_initiated_session(c, started.id, user_id, started.created_at, d0, t0);
    assert(session::is_reading(t0));
    let (d1, t1) = choose|challenge: Seq<char>, now: i64|
        manager::is_challenge(challenge) && session::is_reading(now) && bound
            == #[trigger] manager::bound(c, s, proof, challenge, now);
    law_bound_session(c, s, proof, d1, t1);
    assert(session::is_reading(t1));
    let (d2, t2) = choose|challenge: Seq<char>, now: i64|
        manager::is_challenge(challenge) && session::is_reading(now) && refreshed
            == #[trigger] manager::refreshed(c, s, challenge, now);
    law_refreshed_session(c, s, d2, t2);
    assert(session::is_reading(t2));
}

} // verus!
