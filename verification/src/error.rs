//! Error type of the crate.

use vstd::prelude::*;
use serde_json::Error as JsonFault;

verus! {

/// The error of the `base64` crate's decoding.
#[verifier::external_type_specification]
#[verifier::external_body]
pub struct ExDecodeError(base64::DecodeError);

/// The error of the `serde_json` crate.
#[verifier::external_type_specification]
#[verifier::external_body]
pub struct ExJsonError(JsonFault);

/// Errors produced by the crate.
#[derive(Debug)]
pub enum Error {
    /// A JWT was malformed (bad structure, base64, or JSON).
    MalformedJwt(String),
    /// The JWT `typ` header was not exactly `dbsc+jwt`.
    InvalidTyp,
    /// The JWT `alg` is not supported.
    UnsupportedAlgorithm(String),
    /// The JWT carried (or was missing) a `jwk` header claim contrary to the
    /// rules of the flow being verified.
    InvalidJwkClaim(String),
    /// The JWK could not be parsed into a usable public key.
    InvalidKey(String),
    /// The signature did not verify.
    InvalidSignature,
    /// Base64 decoding failed.
    Base64(String),
    /// JSON (de)serialization failed.
    Json(String),
    /// The session store backend failed.
    Store(String),
}

/// Convenience result alias.
pub type Result<T> = std::result::Result<T, Error>;

/// What an [`Error`] says.
pub enum ErrorView {
    MalformedJwt(Seq<char>),
    InvalidTyp,
    UnsupportedAlgorithm(Seq<char>),
    InvalidJwkClaim(Seq<char>),
    InvalidKey(Seq<char>),
    InvalidSignature,
    Base64(Seq<char>),
    Json(Seq<char>),
    Store(Seq<char>),
}

impl View for Error {
    type V = ErrorView;

    open spec fn view(&self) -> ErrorView {
        match self {
            Error::MalformedJwt(m) => ErrorView::MalformedJwt(m@),
            Error::InvalidTyp => ErrorView::InvalidTyp,
            Error::UnsupportedAlgorithm(a) => ErrorView::UnsupportedAlgorithm(a@),
            Error::InvalidJwkClaim(m) => ErrorView::InvalidJwkClaim(m@),
            Error::InvalidKey(m) => ErrorView::InvalidKey(m@),
            Error::InvalidSignature => ErrorView::InvalidSignature,
            Error::Base64(m) => ErrorView::Base64(m@),
            Error::Json(m) => ErrorView::Json(m@),
            Error::Store(m) => ErrorView::Store(m@),
        }
    }
}

/// The text of an error.
pub open spec fn error_text(e: ErrorView) -> Seq<char> {
    match e {
        ErrorView::MalformedJwt(m) => "malformed JWT: "@ + m,
        ErrorView::InvalidTyp => "invalid typ header, expected \"dbsc+jwt\""@,
        ErrorView::UnsupportedAlgorithm(a) => "unsupported algorithm: "@ + a,
        ErrorView::InvalidJwkClaim(m) => "invalid jwk claim: "@ + m,
        ErrorView::InvalidKey(m) => "invalid key: "@ + m,
        ErrorView::InvalidSignature => "signature verification failed"@,
        ErrorView::Base64(m) => "base64 error: "@ + m,
        ErrorView::Json(m) => "JSON error: "@ + m,
        ErrorView::Store(m) => "store error: "@ + m,
    }
}

/// The text of a decoding error of the `base64` crate.
pub uninterp spec fn decode_error_text(e: base64::DecodeError) -> Seq<char>;

/// The text of an error of the `serde_json` crate.
pub uninterp spec fn json_error_text(e: serde_json::Error) -> Seq<char>;

/// `base64::DecodeError`'s `to_string`: the text of the error.
#[verifier::external_body]
fn decode_error_string(e: &base64::DecodeError) -> (r: String)
    ensures
        r@ == decode_error_text(*e),
{
    e.to_string()
}

/// `serde_json::Error`'s `to_string`: the text of the error.
#[verifier::external_body]
fn json_error_string(e: &serde_json::Error) -> (r: String)
    ensures
        r@ == json_error_text(*e),
{
    e.to_string()
}

impl Error {
    /// The text shown to a reader.
    pub fn message(&self) -> (r: String)
        ensures
            r@ == error_text(self@),
    {
        match self {
            Error::MalformedJwt(m) => "malformed JWT: ".to_owned().concat(m.as_str()),
            Error::InvalidTyp => "invalid typ header, expected \"dbsc+jwt\"".to_owned(),
            Error::UnsupportedAlgorithm(a) => "unsupported algorithm: ".to_owned().concat(
                a.as_str(),
            ),
            Error::InvalidJwkClaim(m) => "invalid jwk claim: ".to_owned().concat(m.as_str()),
            Error::InvalidKey(m) => "invalid key: ".to_owned().concat(m.as_str()),
            Error::InvalidSignature => "signature verification failed".to_owned(),
            Error::Base64(m) => "base64 error: ".to_owned().concat(m.as_str()),
            Error::Json(m) => "JSON error: ".to_owned().concat(m.as_str()),
            Error::Store(m) => "store error: ".to_owned().concat(m.as_str()),
        }
    }
}

impl From<serde_json::Error> for Error {
    fn from(e: serde_json::Error) -> (r: Self)
        ensures
            r@ == ErrorView::Json(json_error_text(e)),
    {
        Error::Json(json_error_string(&e))
    }
}

impl vstd::std_specs::convert::FromSpecImpl<serde_json::Error> for Error {
    open spec fn obeys_from_spec() -> bool {
        false
    }

    open spec fn from_spec(e: serde_json::Error) -> Self {
        arbitrary()
    }
}

impl From<base64::DecodeError> for Error {
    fn from(e: base64::DecodeError) -> (r: Self)
        ensures
            r@ == ErrorView::Base64(decode_error_text(e)),
    {
        Error::Base64(decode_error_string(&e))
    }
}

impl vstd::std_specs::convert::FromSpecImpl<base64::DecodeError> for Error {
    open spec fn obeys_from_spec() -> bool {
        false
    }

    open spec fn from_spec(e: base64::DecodeError) -> Self {
        arbitrary()
    }
}

/// The text of an error names its kind and ends with its detail, whatever that is.
pub proof fn law_error_text(detail: Seq<char>)
    ensures
        error_text(ErrorView::MalformedJwt(detail)) == "malformed JWT: "@ + detail,
        error_text(ErrorView::UnsupportedAlgorithm(detail)) == "unsupported algorithm: "@ + detail,
        error_text(ErrorView::InvalidJwkClaim(detail)) == "invalid jwk claim: "@ + detail,
        error_text(ErrorView::InvalidKey(detail)) == "invalid key: "@ + detail,
        error_text(ErrorView::Base64(detail)) == "base64 error: "@ + detail,
        error_text(ErrorView::Json(detail)) == "JSON error: "@ + detail,
        error_text(ErrorView::Store(detail)) == "store error: "@ + detail,
        error_text(ErrorView::InvalidTyp) == "invalid typ header, expected \"dbsc+jwt\""@,
        error_text(ErrorView::InvalidSignature) == "signature verification failed"@,
{
}

/// Two errors with the same text are the same error.
pub proof fn law_error_text_tells_apart(a: ErrorView, b: ErrorView)
    requires
        error_text(a) == error_text(b),
    ensures
        a == b,
{
    reveal_strlit("malformed JWT: ");
    reveal_strlit("invalid typ header, expected \"dbsc+jwt\"");
    reveal_strlit("unsupported algorithm: ");
    reveal_strlit("invalid jwk claim: ");
    reveal_strlit("invalid key: ");
    reveal_strlit("signature verification failed");
    reveal_strlit("base64 error: ");
    reveal_strlit("JSON error: ");
    reveal_strlit("store error: ");
    let s = error_text(a);
    assert(s[0] == error_text(b)[0] && s[1] == error_text(b)[1] && s[8] == error_text(b)[8] && s[9]
        == error_text(b)[9]);
    lemma_detail(a);
    lemma_detail(b);
}

spec fn detail_of(e: ErrorView) -> Seq<char> {
    match e {
        ErrorView::MalformedJwt(m) => m,
        ErrorView::InvalidTyp => seq![],
        ErrorView::UnsupportedAlgorithm(a) => a,
        ErrorView::InvalidJwkClaim(m) => m,
        ErrorView::InvalidKey(m) => m,
        ErrorView::InvalidSignature => seq![],
        ErrorView::Base64(m) => m,
        ErrorView::Json(m) => m,
        ErrorView::Store(m) => m,
    }
}

proof fn lemma_detail(e: ErrorView)
    ensures
        !(e is InvalidTyp) && !(e is InvalidSignature) ==> detail_of(e) == error_text(e).skip(
            error_text(e).len() - detail_of(e).len(),
        ),
{
    if !(e is InvalidTyp) && !(e is InvalidSignature) {
        assert(detail_of(e) =~= error_text(e).skip(error_text(e).len() - detail_of(e).len()));
    }
}

} // verus!
