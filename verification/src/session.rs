//! DBSC session model.

use vstd::prelude::*;
use std::time::{Duration, SystemTime};
use crate::text;

verus! {

/// A reading of the system clock.
#[verifier::external_type_specification]
#[verifier::external_body]
pub struct ExSystemTime(SystemTime);

/// Lifecycle state of a session.
#[derive(Debug, Clone, Copy, PartialEq, Eq, Structural)]
pub enum SessionState {
    /// Created by the server, not yet bound to a device key.
    Active,
    /// Bound to a device public key after successful registration.
    Bound,
}

/// A DBSC session.
#[derive(Debug, PartialEq, Eq)]
pub struct Session {
    /// Unique session identifier (UUID v4).
    pub id: String,
    /// Owning user identifier.
    pub user_id: String,
    /// Lifecycle state.
    pub state: SessionState,
    /// Registered device public key as a JWK JSON string (set when bound).
    pub public_key: Option<String>,
    /// Algorithm of the registered key ("ES256" or "RS256").
    pub algorithm: Option<String>,
    /// Current challenge the client must sign in its next proof JWT.
    pub challenge: Option<String>,
    /// Expiry as a unix timestamp in seconds (`None` = never expires).
    pub expires_at: Option<i64>,
    /// Creation time as a unix timestamp in seconds.
    pub created_at: i64,
}

/// What a [`Session`] holds.
pub struct SessionView {
    pub id: Seq<char>,
    pub user_id: Seq<char>,
    pub state: SessionState,
    pub public_key: Option<Seq<char>>,
    pub algorithm: Option<Seq<char>>,
    pub challenge: Option<Seq<char>>,
    pub expires_at: Option<i64>,
    pub created_at: i64,
}

impl View for Session {
    type V = SessionView;

    open spec fn view(&self) -> SessionView {
        SessionView {
            id: self.id@,
            user_id: self.user_id@,
            state: self.state,
            public_key: text::opt_view(self.public_key),
            algorithm: text::opt_view(self.algorithm),
            challenge: text::opt_view(self.challenge),
            expires_at: self.expires_at,
            created_at: self.created_at,
        }
    }
}

impl Clone for Session {
    fn clone(&self) -> (r: Self)
        ensures
            r@ == self@,
    {
        Session {
            id: self.id.clone(),
            user_id: self.user_id.clone(),
            state: self.state,
            public_key: self.public_key.clone(),
            algorithm: self.algorithm.clone(),
            challenge: self.challenge.clone(),
            expires_at: self.expires_at,
            created_at: self.created_at,
        }
    }
}

/// A fresh session: active, without key, challenge or expiry.
pub open spec fn starting_session(id: Seq<char>, user_id: Seq<char>, created_at: i64) -> SessionView {
    SessionView {
        id,
        user_id,
        state: SessionState::Active,
        public_key: None,
        algorithm: None,
        challenge: None,
        expires_at: None,
        created_at,
    }
}

/// Whether a session is expired at unix time `now`: its expiry has come.
pub open spec fn expired(s: SessionView, now: i64) -> bool {
    match s.expires_at {
        Some(at) => now >= at,
        None => false,
    }
}

/// Whether `s` is a random UUID in its usual form: five groups of lower-case
/// hexadecimal digits with hyphens between them, version 4, variant 1.
pub open spec fn is_uuid_v4(s: Seq<char>) -> bool {
    &&& s.len() == 36
    &&& forall|i: int|
        0 <= i < 36 ==> if i == 8 || i == 13 || i == 18 || i == 23 {
            #[trigger] s[i] == '-'
        } else {
            text::is_hex_digit(s[i])
        }
    &&& s[14] == '4'
    &&& s[19] == '8' || s[19] == '9' || s[19] == 'a' || s[19] == 'b'
}

/// `uuid::Uuid::new_v4`, shown by its `to_string`: 36 characters in the form
/// of a version 4 UUID. Which one is a matter of chance; the call panics where
/// the system has no random bytes to give.
#[verifier::external_body]
fn random_id() -> (r: String)
    ensures
        is_uuid_v4(r@),
{
    uuid::Uuid::new_v4().to_string()
}

/// Whether `s` is an id that was drawn at random.
pub closed spec fn is_drawn_id(s: Seq<char>) -> bool {
    exists|id: String| #[trigger] call_ensures(random_id, (), id) && id@ == s
}

impl Session {
    /// Create a new active session for `user_id`.
    pub fn new(user_id: &str) -> (r: Self)
        ensures
            r@ == starting_session(r@.id, user_id@, r@.created_at),
            is_uuid_v4(r@.id),
            is_drawn_id(r@.id),
            is_reading(r@.created_at),
    {
        Session::starting(random_id(), user_id, now_unix())
    }

    /// The active session for `user_id` with the given id and creation time.
    pub fn starting(id: String, user_id: &str, created_at: i64) -> (r: Self)
        ensures
            r@ == starting_session(id@, user_id@, created_at),
    {
        Session {
            id,
            user_id: user_id.to_owned(),
            state: SessionState::Active,
            public_key: None,
            algorithm: None,
            challenge: None,
            expires_at: None,
            created_at,
        }
    }

    /// Whether the session is expired at unix time `now`.
    pub fn is_expired(&self, now: i64) -> (r: bool)
        ensures
            r == expired(self@, now),
    {
        match self.expires_at {
            Some(exp) => now >= exp,
            None => false,
        }
    }
}

/// The time between the unix epoch and `t`, when `t` is not before it.
pub uninterp spec fn since_epoch(t: SystemTime) -> Option<Duration>;

/// The whole seconds of a duration.
pub uninterp spec fn whole_seconds(d: Duration) -> u64;

/// `SystemTime::now`: a reading of the clock, of which nothing is claimed.
pub assume_specification[ std::time::SystemTime::now ]() -> (r: SystemTime);

/// `SystemTime::duration_since` with the unix epoch: the time since then, and
/// nothing for a time before it.
#[verifier::external_body]
fn duration_since_epoch(t: &SystemTime) -> (r: Option<Duration>)
    ensures
        r == since_epoch(*t),
{
    t.duration_since(std::time::UNIX_EPOCH).ok()
}

/// `Duration::as_secs`: the whole seconds of a duration.
pub assume_specification[ std::time::Duration::as_secs ](d: &Duration) -> (r: u64)
    ensures
        r == whole_seconds(*d),
;

/// The unix time in seconds of a reading of the clock; 0 before the epoch.
pub open spec fn unix_time(t: SystemTime) -> i64 {
    match since_epoch(t) {
        Some(d) => whole_seconds(d) as i64,
        None => 0,
    }
}

/// Whether `now` is the unix time of something that the clock showed.
pub open spec fn is_reading(now: i64) -> bool {
    exists|t: SystemTime|
        call_ensures(SystemTime::now, (), t) && now == #[trigger] unix_time(t)
}

/// Unix time of a clock reading, in seconds.
pub fn unix_time_of(t: &SystemTime) -> (r: i64)
    ensures
        r == unix_time(*t),
{
    match duration_since_epoch(t) {
        Some(d) => d.as_secs() as i64,
        None => 0,
    }
}

/// Current unix time in seconds.
pub fn now_unix() -> (r: i64)
    ensures
        is_reading(r),
{
    let t = SystemTime::now();
    unix_time_of(&t)
}

/// A session that is expired stays so; one without an expiry never is.
pub proof fn law_expiry_is_final(s: SessionView, now: i64, later: i64)
    requires
        now <= later,
    ensures
        expired(s, now) ==> expired(s, later),
        s.expires_at is None ==> !expired(s, now),
{
}

/// The moment of expiry itself counts as expired, the second before it not.
pub proof fn law_expiry_boundary(s: SessionView, at: i64)
    requires
        s.expires_at == Some(at),
    ensures
        expired(s, at),
        forall|now: i64| now < at ==> !expired(s, now),
{
}

/// A fresh session has the id, the user and the creation time that it was given, is
/// active, and has nothing else yet; it is not expired at any time.
pub proof fn law_starting_session(
    id: Seq<char>,
    user_id: Seq<char>,
    created_at: i64,
    now: i64,
)
    ensures
        ({
            let s = starting_session(id, user_id, created_at);
            &&& s.id == id
            &&& s.user_id == user_id
            &&& s.created_at == created_at
            &&& s.state == SessionState::Active
            &&& s.public_key is None
            &&& s.algorithm is None
            &&& s.challenge is None
            &&& s.expires_at is None
            &&& !expired(s, now)
        }),
{
}

/// The unix time of a clock reading is its distance from the epoch in whole seconds,
/// and 0 before the epoch.
pub proof fn law_unix_time(t: SystemTime)
    ensures
        since_epoch(t) is None ==> unix_time(t) == 0,
        since_epoch(t) matches Some(d) ==> (whole_seconds(d) <= i64::MAX ==> unix_time(t)
            == whole_seconds(d)),
{
}

/// A time that the clock showed is the whole seconds from the epoch to a reading of the
/// clock, or 0 for a reading before it.
pub proof fn law_reading(now: i64)
    requires
        is_reading(now),
    ensures
        exists|t: SystemTime| #[trigger]
            call_ensures(SystemTime::now, (), t) && match since_epoch(t) {
                Some(d) => now == whole_seconds(d) as i64,
                None => now == 0,
            },
{
    let t = choose|t: SystemTime|
        call_ensures(SystemTime::now, (), t) && now == #[trigger] unix_time(t);
    assert(call_ensures(SystemTime::now, (), t));
}

} // verus!
