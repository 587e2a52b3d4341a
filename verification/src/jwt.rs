//! Proof JWT decoding and signature verification.

use vstd::prelude::*;
use base64::engine::general_purpose::URL_SAFE_NO_PAD;
use base64::Engine;
use p256::ecdsa::signature::Verifier;
use sha2::Digest;
use crate::error::{Error, ErrorView, Result};
use crate::json;
use crate::json::{read_claims, read_value, Field, FieldKind};
use crate::json::{JsonKind, JsonKindView, JsonValue, JsonView};
use crate::text;
use crate::text::{chars_of, split_chars, str_eq, string_of};

verus! {

/// JWT `typ` header value required for proofs.
pub const DBSC_TYP: &'static str = "dbsc+jwt";

/// A decoded proof JWT.
#[derive(Debug, Clone)]
pub struct ProofJwt {
    /// Signing algorithm ("ES256", "RS256", "none").
    pub algorithm: String,
    /// Public key as a JWK JSON value (`None` for `alg = none`).
    pub jwk: Option<JsonValue>,
    /// Challenge value from the `jti` claim.
    pub challenge: String,
    /// Optional authorization value echoed during registration.
    pub authorization: Option<String>,
    /// Raw signature bytes (empty for `alg = none`, or the proof does not verify).
    pub signature: Vec<u8>,
    /// The signed content (`header.payload`), raw bytes.
    pub signing_input: Vec<u8>,
}

/// What a [`ProofJwt`] says.
pub struct ProofView {
    pub algorithm: Seq<char>,
    pub jwk: Option<JsonView>,
    pub challenge: Seq<char>,
    pub authorization: Option<Seq<char>>,
    pub signature: Seq<u8>,
    pub signing_input: Seq<u8>,
}

impl View for ProofJwt {
    type V = ProofView;

    open spec fn view(&self) -> ProofView {
        ProofView {
            algorithm: self.algorithm@,
            jwk: json::value_view(self.jwk),
            challenge: self.challenge@,
            authorization: text::opt_view(self.authorization),
            signature: self.signature@,
            signing_input: self.signing_input@,
        }
    }
}

/// The text that unpadded base64url writes for `bytes`.
pub uninterp spec fn base64url_text(bytes: Seq<u8>) -> Seq<char>;

/// The bytes that unpadded base64url reads from `s`, or the text of the error.
pub uninterp spec fn base64url_bytes(s: Seq<char>) -> std::result::Result<Seq<u8>, Seq<char>>;

/// Whether `c` belongs to the base64url alphabet.
pub open spec fn is_base64url_char(c: char) -> bool {
    'A' <= c <= 'Z' || 'a' <= c <= 'z' || '0' <= c <= '9' || c == '-' || c == '_'
}

/// Whether `s` consists of characters of the base64url alphabet.
pub open spec fn is_base64url(s: Seq<char>) -> bool {
    forall|i: int| 0 <= i < s.len() ==> is_base64url_char(#[trigger] s[i])
}

/// Whether unpadded base64url reads `bytes` from `s`.
pub open spec fn reads_as(s: Seq<char>, bytes: Seq<u8>) -> bool {
    base64url_bytes(s) == Ok::<Seq<u8>, Seq<char>>(bytes)
}

/// `URL_SAFE_NO_PAD.encode` of the `base64` crate: the text for `bytes`, in the
/// base64url alphabet and without padding, from which the same bytes are read.
#[verifier::external_body]
fn encode_unpadded(bytes: &[u8]) -> (r: String)
    ensures
        r@ == base64url_text(bytes@),
        is_base64url(r@),
        reads_as(r@, bytes@),
{
    URL_SAFE_NO_PAD.encode(bytes)
}

/// `URL_SAFE_NO_PAD.decode` of the `base64` crate: the bytes that the text
/// stands for, which is then in the base64url alphabet, without padding, and the
/// one text that is written for them.
#[verifier::external_body]
fn decode_unpadded(s: &str) -> (r: std::result::Result<Vec<u8>, base64::DecodeError>)
    ensures
        match r {
            Ok(bytes) => base64url_bytes(s@) == Ok::<Seq<u8>, Seq<char>>(bytes@)
                && base64url_text(bytes@) == s@ && is_base64url(s@),
            Err(e) => base64url_bytes(s@) == Err::<Seq<u8>, Seq<char>>(
                crate::error::decode_error_text(e),
            ),
        },
{
    URL_SAFE_NO_PAD.decode(s)
}

/// `s` without the padding characters at its end.
pub open spec fn without_padding(s: Seq<char>) -> Seq<char>
    decreases s.len(),
{
    if s.len() > 0 && s.last() == '=' {
        without_padding(s.drop_last())
    } else {
        s
    }
}

/// What base64url text stands for, padding aside.
pub open spec fn base64url_decoded(s: Seq<char>) -> std::result::Result<Seq<u8>, ErrorView> {
    match base64url_bytes(without_padding(s)) {
        Ok(bytes) => Ok(bytes),
        Err(e) => Err(ErrorView::Base64(e)),
    }
}

/// Base64url-decode (padding optional). What is decoded is, padding aside, the
/// text that is written for the same bytes.
pub fn base64url_decode(input: &str) -> (r: Result<Vec<u8>>)
    ensures
        match r {
            Ok(bytes) => base64url_decoded(input@) == Ok::<Seq<u8>, ErrorView>(bytes@)
                && base64url_text(bytes@) == without_padding(input@) && is_base64url(
                without_padding(input@),
            ),
            Err(e) => base64url_decoded(input@) == Err::<Seq<u8>, ErrorView>(e@),
        },
{
    let chars = chars_of(input);
    let mut n: usize = chars.len();
    assert(chars@.take(n as int) == chars@);
    while n > 0 && chars[n - 1] == '='
        invariant
            n <= chars@.len(),
            chars@ == input@,
            without_padding(input@) == without_padding(chars@.take(n as int)),
        decreases n,
    {
        assert(chars@.take(n as int).drop_last() == chars@.take(n - 1));
        n = n - 1;
    }
    let body = string_of(vstd::slice::slice_subrange(chars.as_slice(), 0, n));
    assert(body@ == chars@.take(n as int));
    match decode_unpadded(body.as_str()) {
        Ok(bytes) => Ok(bytes),
        Err(e) => Err(Error::from(e)),
    }
}

/// Base64url-encode without padding.
pub fn base64url_encode(bytes: &[u8]) -> (r: String)
    ensures
        r@ == base64url_text(bytes@),
        is_base64url(r@),
        base64url_decoded(r@) == Ok::<Seq<u8>, ErrorView>(bytes@),
{
    let out = encode_unpadded(bytes);
    assert(out@.len() > 0 ==> is_base64url_char(out@[out@.len() - 1]));
    out
}

/// The string under `key` among the members, the first where there are several.
pub open spec fn member_text(
    members: Seq<(Seq<char>, Option<Seq<char>>)>,
    key: Seq<char>,
) -> Option<Seq<char>>
    decreases members.len(),
{
    if members.len() == 0 {
        None
    } else if members[0].0 == key {
        members[0].1
    } else {
        member_text(members.drop_first(), key)
    }
}

/// The string member `key` of a JWK, or the error that it has none.
pub open spec fn jwk_text(jwk: JsonView, key: Seq<char>) -> std::result::Result<
    Seq<char>,
    ErrorView,
> {
    let found = match jwk.kind {
        JsonKindView::Object(members) => member_text(members, key),
        _ => None,
    };
    match found {
        Some(s) => Ok(s),
        None => Err(ErrorView::InvalidKey("missing JWK field `"@ + key + "`"@)),
    }
}

fn jwk_field<'a>(jwk: &'a JsonValue, key: &str) -> (r: Result<&'a str>)
    ensures
        match r {
            Ok(s) => jwk_text(jwk@, key@) == Ok::<Seq<char>, ErrorView>(s@),
            Err(e) => jwk_text(jwk@, key@) == Err::<Seq<char>, ErrorView>(e@),
        },
{
    if let JsonKind::Object(members) = &jwk.kind {
        let ghost all = json::member_views(members@);
        let mut i: usize = 0;
        assert(all.skip(0) == all);
        while i < members.len()
            invariant
                i <= members@.len(),
                all == json::member_views(members@),
                jwk@.kind == JsonKindView::Object(all),
                member_text(all, key@) == member_text(all.skip(i as int), key@),
            decreases members@.len() - i,
        {
            let member = &members[i];
            assert(all.skip(i as int)[0] == (member.0@, text::opt_view(member.1)));
            if str_eq(member.0.as_str(), key) {
                if let Some(s) = &member.1 {
                    return Ok(s.as_str());
                }
                return Err(
                    Error::InvalidKey("missing JWK field `".to_owned().concat(key).concat("`")),
                );
            }
            assert(all.skip(i as int).drop_first() == all.skip(i + 1));
            i = i + 1;
        }
        assert(all.skip(i as int).len() == 0);
    }
    Err(Error::InvalidKey("missing JWK field `".to_owned().concat(key).concat("`")))
}

/// Whether a SEC1 byte string is a point that can be an ES256 public key.
pub uninterp spec fn es256_key_valid(sec1: Seq<u8>) -> bool;

/// Whether `signature` is an ES256 signature of `message` under the key that
/// `sec1` spells.
pub uninterp spec fn es256_verifies(sec1: Seq<u8>, message: Seq<u8>, signature: Seq<u8>) -> bool;

/// The SHA-256 digest of `data`.
pub uninterp spec fn sha256(data: Seq<u8>) -> Seq<u8>;

/// Whether `signature` is an RSASSA-PKCS1-v1_5 signature of a SHA-256 `digest`
/// under the key with the big-endian modulus `n` and exponent `e`.
pub uninterp spec fn rs256_verifies(
    n: Seq<u8>,
    e: Seq<u8>,
    digest: Seq<u8>,
    signature: Seq<u8>,
) -> bool;

/// The number that `bytes` spells, most significant byte first.
pub open spec fn big_endian(bytes: Seq<u8>) -> nat
    decreases bytes.len(),
{
    if bytes.len() == 0 {
        0
    } else {
        big_endian(bytes.drop_last()) * 256 + bytes.last() as nat
    }
}

/// Why `n` and `e` are no RSA public key, if they are none: the modulus is odd,
/// has at most 4096 bits and is greater than the exponent, which is odd, at least
/// 2 and below 2^33.
pub open spec fn rsa_key_fault(n: nat, e: nat) -> Option<Seq<char>> {
    if n >= vstd::arithmetic::power2::pow2(4096) {
        Some("modulus too large"@)
    } else if e >= 0x1_0000_0000_0000_0000 {
        Some("public exponent too large"@)
    } else if e >= n || n % 2 == 0 {
        Some("invalid modulus"@)
    } else if e % 2 == 0 {
        Some("invalid exponent"@)
    } else if e < 2 {
        Some("public exponent too small"@)
    } else if e >= 0x2_0000_0000 {
        Some("public exponent too large"@)
    } else {
        None
    }
}

/// `p256::ecdsa::VerifyingKey::from_sec1_bytes` accepts the encodings of points
/// of the curve; its error has the text "signature error".
#[verifier::external_body]
fn es256_key_error(sec1: &[u8]) -> (r: Option<String>)
    ensures
        match r {
            Some(e) => !es256_key_valid(sec1@) && e@ == "signature error"@,
            None => es256_key_valid(sec1@),
        },
{
    match p256::ecdsa::VerifyingKey::from_sec1_bytes(sec1) {
        Ok(_) => None,
        Err(e) => Some(e.to_string()),
    }
}

/// `p256::ecdsa::VerifyingKey`'s `verify` of a signature of the form `R||S`, 64
/// bytes (`Signature::from_slice`); a byte string that is no key
/// (`VerifyingKey::from_sec1_bytes`) or no signature verifies nothing.
#[verifier::external_body]
fn es256_verify(sec1: &[u8], message: &[u8], signature: &[u8]) -> (r: bool)
    ensures
        r == es256_verifies(sec1@, message@, signature@),
        r ==> signature@.len() == 64,
        r ==> es256_key_valid(sec1@),
{
    let key = p256::ecdsa::VerifyingKey::from_sec1_bytes(sec1);
    let sig = p256::ecdsa::Signature::from_slice(signature);
    match (key, sig) {
        (Ok(k), Ok(s)) => k.verify(message, &s).is_ok(),
        (Err(_), _) => false,
        (_, Err(_)) => false,
    }
}

/// `sha2::Sha256::digest`: the 32 bytes of the digest.
#[verifier::external_body]
fn sha256_digest(data: &[u8]) -> (r: Vec<u8>)
    ensures
        r@ == sha256(data@),
        r@.len() == 32,
{
    sha2::Sha256::digest(data).to_vec()
}

/// `rsa::RsaPublicKey::new` of the numbers that two big-endian byte strings
/// spell accepts those that [`rsa_key_fault`] finds nothing wrong with, and
/// names the same faults.
#[verifier::external_body]
fn rsa_key_error(n: &[u8], e: &[u8]) -> (r: Option<String>)
    ensures
        text::opt_view(r) == rsa_key_fault(big_endian(n@), big_endian(e@)),
{
    let modulus = rsa::BigUint::from_bytes_be(n);
    let exponent = rsa::BigUint::from_bytes_be(e);
    match rsa::RsaPublicKey::new(modulus, exponent) {
        Ok(_) => None,
        Err(e) => Some(e.to_string()),
    }
}

/// `rsa::RsaPublicKey`'s `verify` with `Pkcs1v15Sign::new::<Sha256>()`; numbers
/// that are no key verify nothing.
#[verifier::external_body]
fn rs256_verify(n: &[u8], e: &[u8], digest: &[u8], signature: &[u8]) -> (r: bool)
    ensures
        r == rs256_verifies(n@, e@, digest@, signature@),
{
    let modulus = rsa::BigUint::from_bytes_be(n);
    let exponent = rsa::BigUint::from_bytes_be(e);
    let scheme = rsa::pkcs1v15::Pkcs1v15Sign::new::<sha2::Sha256>();
    match rsa::RsaPublicKey::new(modulus, exponent) {
        Ok(key) => key.verify(scheme, digest, signature).is_ok(),
        Err(_) => false,
    }
}

/// The uncompressed SEC1 encoding of a point.
pub open spec fn sec1_point(x: Seq<u8>, y: Seq<u8>) -> Seq<u8> {
    seq![4u8] + x + y
}

/// The bytes that a base64url member of a JWK stands for.
pub open spec fn jwk_bytes(jwk: JsonView, key: Seq<char>) -> std::result::Result<
    Seq<u8>,
    ErrorView,
> {
    match jwk_text(jwk, key) {
        Ok(s) => base64url_decoded(s),
        Err(e) => Err(e),
    }
}

/// The SEC1 encoding of the P-256 key in a JWK.
pub open spec fn es256_key(jwk: JsonView) -> std::result::Result<Seq<u8>, ErrorView> {
    match jwk_text(jwk, "kty"@) {
        Err(e) => Err(e),
        Ok(kty) => if kty != "EC"@ {
            Err(ErrorView::InvalidKey("expected EC/P-256 JWK"@))
        } else {
            match jwk_text(jwk, "crv"@) {
                Err(e) => Err(e),
                Ok(crv) => if crv != "P-256"@ {
                    Err(ErrorView::InvalidKey("expected EC/P-256 JWK"@))
                } else {
                    match jwk_bytes(jwk, "x"@) {
                        Err(e) => Err(e),
                        Ok(x) => match jwk_bytes(jwk, "y"@) {
                            Err(e) => Err(e),
                            Ok(y) => if x.len() != 32 || y.len() != 32 {
                                Err(ErrorView::InvalidKey("P-256 coordinates must be 32 bytes"@))
                            } else if !es256_key_valid(sec1_point(x, y)) {
                                Err(ErrorView::InvalidKey("signature error"@))
                            } else {
                                Ok(sec1_point(x, y))
                            },
                        },
                    }
                },
            }
        },
    }
}

/// The modulus and the exponent of the RSA key in a JWK.
pub open spec fn rs256_key(jwk: JsonView) -> std::result::Result<(Seq<u8>, Seq<u8>), ErrorView> {
    match jwk_text(jwk, "kty"@) {
        Err(e) => Err(e),
        Ok(kty) => if kty != "RSA"@ {
            Err(ErrorView::InvalidKey("expected RSA JWK"@))
        } else {
            match jwk_bytes(jwk, "n"@) {
                Err(e) => Err(e),
                Ok(n) => match jwk_bytes(jwk, "e"@) {
                    Err(e) => Err(e),
                    Ok(e) => match rsa_key_fault(big_endian(n), big_endian(e)) {
                        Some(fault) => Err(ErrorView::InvalidKey(fault)),
                        None => Ok((n, e)),
                    },
                },
            }
        },
    }
}

/// Why the signature is not accepted, if it is not. An ES256 signature is `R||S`,
/// 32 bytes each.
pub open spec fn signature_fault(
    alg: Seq<char>,
    jwk: JsonView,
    signing_input: Seq<u8>,
    signature: Seq<u8>,
) -> Option<ErrorView> {
    if alg == "ES256"@ {
        match es256_key(jwk) {
            Err(e) => Some(e),
            Ok(key) => if signature.len() == 64 && es256_verifies(key, signing_input, signature) {
                None
            } else {
                Some(ErrorView::InvalidSignature)
            },
        }
    } else if alg == "RS256"@ {
        match rs256_key(jwk) {
            Err(e) => Some(e),
            Ok((n, e)) => if rs256_verifies(n, e, sha256(signing_input), signature) {
                None
            } else {
                Some(ErrorView::InvalidSignature)
            },
        }
    } else if alg == "none"@ {
        None
    } else {
        Some(ErrorView::UnsupportedAlgorithm(alg))
    }
}

/// Whether an outcome is what the model says: nothing wrong, or this error.
pub open spec fn fault_agrees(r: Result<()>, fault: Option<ErrorView>) -> bool {
    match r {
        Ok(()) => fault is None,
        Err(e) => fault == Some(e@),
    }
}

/// Verify an ES256 signature (raw R||S, RFC 7518) against a P-256 JWK.
fn verify_es256(jwk: &JsonValue, signing_input: &[u8], signature: &[u8]) -> (r: Result<()>)
    ensures
        fault_agrees(r, signature_fault("ES256"@, jwk@, signing_input@, signature@)),
        r is Ok ==> signature@.len() == 64,
{
    if !str_eq(jwk_field(jwk, "kty")?, "EC") || !str_eq(jwk_field(jwk, "crv")?, "P-256") {
        return Err(Error::InvalidKey("expected EC/P-256 JWK".to_owned()));
    }
    let x = base64url_decode(jwk_field(jwk, "x")?)?;
    let y = base64url_decode(jwk_field(jwk, "y")?)?;
    if x.len() != 32 || y.len() != 32 {
        return Err(Error::InvalidKey("P-256 coordinates must be 32 bytes".to_owned()));
    }
    // Uncompressed SEC1 point: 0x04 || X || Y.
    let mut sec1: Vec<u8> = Vec::with_capacity(65);
    sec1.push(4);
    sec1.extend_from_slice(x.as_slice());
    sec1.extend_from_slice(y.as_slice());
    assert(sec1@ =~= sec1_point(x@, y@));
    if let Some(e) = es256_key_error(sec1.as_slice()) {
        return Err(Error::InvalidKey(e));
    }
    if es256_verify(sec1.as_slice(), signing_input, signature) {
        Ok(())
    } else {
        Err(Error::InvalidSignature)
    }
}

/// Verify an RS256 signature against an RSA JWK.
fn verify_rs256(jwk: &JsonValue, signing_input: &[u8], signature: &[u8]) -> (r: Result<()>)
    ensures
        fault_agrees(r, signature_fault("RS256"@, jwk@, signing_input@, signature@)),
{
    proof {
        lemma_algorithms_distinct();
    }
    if !str_eq(jwk_field(jwk, "kty")?, "RSA") {
        return Err(Error::InvalidKey("expected RSA JWK".to_owned()));
    }
    let n = base64url_decode(jwk_field(jwk, "n")?)?;
    let e = base64url_decode(jwk_field(jwk, "e")?)?;
    if let Some(fault) = rsa_key_error(n.as_slice(), e.as_slice()) {
        return Err(Error::InvalidKey(fault));
    }
    let digest = sha256_digest(signing_input);
    if rs256_verify(n.as_slice(), e.as_slice(), digest.as_slice(), signature) {
        Ok(())
    } else {
        Err(Error::InvalidSignature)
    }
}

/// Verify a signature according to `alg`. `alg = none` always succeeds.
pub fn verify_signature(
    alg: &str,
    jwk: &JsonValue,
    signing_input: &[u8],
    signature: &[u8],
) -> (r: Result<()>)
    ensures
        fault_agrees(r, signature_fault(alg@, jwk@, signing_input@, signature@)),
        alg@ == "ES256"@ && r is Ok ==> signature@.len() == 64,
{
    if str_eq(alg, "ES256") {
        verify_es256(jwk, signing_input, signature)
    } else if str_eq(alg, "RS256") {
        verify_rs256(jwk, signing_input, signature)
    } else if str_eq(alg, "none") {
        Ok(())
    } else {
        Err(Error::UnsupportedAlgorithm(alg.to_owned()))
    }
}

/// The names of the algorithms differ.
pub proof fn lemma_algorithms_distinct()
    ensures
        "ES256"@ != "RS256"@,
        "ES256"@ != "none"@,
        "RS256"@ != "none"@,
{
    reveal_strlit("ES256");
    reveal_strlit("RS256");
    reveal_strlit("none");
    assert("ES256"@[0] == 'E' && "RS256"@[0] == 'R' && "none"@[0] == 'n');
}

/// The claims read from a JWT header: `alg`, `typ`, `jwk`.
pub open spec fn header_fields() -> Seq<Field> {
    seq![
        Field { name: "alg", kind: FieldKind::Required },
        Field { name: "typ", kind: FieldKind::Optional },
        Field { name: "jwk", kind: FieldKind::Any },
    ]
}

/// The claims read from a JWT payload: `jti`, `authorization`.
pub open spec fn payload_fields() -> Seq<Field> {
    seq![
        Field { name: "jti", kind: FieldKind::Optional },
        Field { name: "authorization", kind: FieldKind::Optional },
    ]
}

/// The claims that a base64url segment holds.
pub open spec fn segment_claims(segment: Seq<char>, fields: Seq<Field>) -> std::result::Result<
    json::ClaimsView,
    ErrorView,
> {
    match base64url_decoded(segment) {
        Err(e) => Err(e),
        Ok(bytes) => match json::claims_of(bytes, fields) {
            Err(e) => Err(ErrorView::Json(e)),
            Ok(claims) => Ok(claims),
        },
    }
}

/// What a token of the form `header.payload.signature` says, or what is wrong
/// with it.
pub open spec fn decoded(token: Seq<char>) -> std::result::Result<ProofView, ErrorView> {
    let parts = text::split(token, '.');
    if parts.len() < 2 {
        Err(ErrorView::MalformedJwt("missing payload"@))
    } else if parts.len() < 3 {
        Err(ErrorView::MalformedJwt("missing signature"@))
    } else if parts.len() > 3 {
        Err(ErrorView::MalformedJwt("too many segments"@))
    } else {
        match segment_claims(parts[0], header_fields()) {
            Err(e) => Err(e),
            Ok(header) => if json::claim_text(header[1]) != Some(DBSC_TYP@) {
                Err(ErrorView::InvalidTyp)
            } else {
                match segment_claims(parts[1], payload_fields()) {
                    Err(e) => Err(e),
                    Ok(payload) => match base64url_decoded(parts[2]) {
                        Err(e) => Err(e),
                        Ok(signature) => match json::claim_text(payload[0]) {
                            None => Err(ErrorView::MalformedJwt("missing jti claim"@)),
                            Some(challenge) => Ok(
                                ProofView {
                                    algorithm: json::claim_text(header[0])->Some_0,
                                    jwk: json::claim_value(header[2]),
                                    challenge,
                                    authorization: json::claim_text(payload[1]),
                                    signature,
                                    signing_input: signed_part(parts[0], parts[1]),
                                },
                            ),
                        },
                    },
                }
            },
        }
    }
}

/// The bytes that a token's signature is over: `header.payload`.
pub open spec fn signed_part(header: Seq<char>, payload: Seq<char>) -> Seq<u8> {
    vstd::utf8::encode_utf8(header.push('.') + payload)
}

/// Whether an outcome is what the model says: the same proof, or the same error.
pub open spec fn proof_agrees(
    r: Result<ProofJwt>,
    model: std::result::Result<ProofView, ErrorView>,
) -> bool {
    match r {
        Ok(p) => model == Ok::<ProofView, ErrorView>(p@),
        Err(e) => model == Err::<ProofView, ErrorView>(e@),
    }
}

fn read_segment(segment: &[char], fields: &[Field]) -> (r: Result<Vec<Option<JsonValue>>>)
    ensures
        match r {
            Ok(claims) => segment_claims(segment@, fields@) == Ok::<json::ClaimsView, ErrorView>(
                json::claim_views(claims@),
            ) && claims@.len() == fields@.len() && json::all_reread(claims@),
            Err(e) => segment_claims(segment@, fields@) == Err::<json::ClaimsView, ErrorView>(e@),
        },
{
    let bytes = base64url_decode(string_of(segment).as_str())?;
    read_claims(bytes.as_slice(), fields)
}

/// Take the string content of a claim.
fn take_text(claim: Option<JsonValue>) -> (r: Option<String>)
    ensures
        text::opt_view(r) == json::claim_text(json::value_view(claim)),
{
    match claim {
        Some(v) => match v.kind {
            JsonKind::Text(s) => Some(s),
            _ => None,
        },
        None => None,
    }
}

/// Take the value of a claim of any kind.
fn take_value(claim: Option<JsonValue>) -> (r: Option<JsonValue>)
    ensures
        json::value_view(r) == json::claim_value(json::value_view(claim)),
        json::claim_rereads(claim) ==> json::claim_rereads(r),
{
    match claim {
        Some(v) => match &v.kind {
            JsonKind::Null => None,
            _ => Some(v),
        },
        None => None,
    }
}

/// Decode a proof JWT without verifying its signature.
pub fn decode(token: &str) -> (r: Result<ProofJwt>)
    ensures
        proof_agrees(r, decoded(token@)),
        r matches Ok(p) ==> json::claim_rereads(p.jwk),
{
    let parts = split_chars(chars_of(token).as_slice(), '.');
    let ghost segments = text::split(token@, '.');
    assert(parts@.len() == text::views(parts@).len());
    if parts.len() < 2 {
        return Err(Error::MalformedJwt("missing payload".to_owned()));
    }
    if parts.len() < 3 {
        return Err(Error::MalformedJwt("missing signature".to_owned()));
    }
    if parts.len() > 3 {
        return Err(Error::MalformedJwt("too many segments".to_owned()));
    }
    assert(segments[0] == parts@[0]@ && segments[1] == parts@[1]@ && segments[2] == parts@[2]@);

    let in_header = [
        Field { name: "alg", kind: FieldKind::Required },
        Field { name: "typ", kind: FieldKind::Optional },
        Field { name: "jwk", kind: FieldKind::Any },
    ];
    assert(in_header@ =~= header_fields());
    let mut header = read_segment(parts[0].as_slice(), in_header.as_slice())?;
    let ghost h = json::claim_views(header@);
    assert(h[0] == json::value_view(header@[0]) && h[1] == json::value_view(header@[1]) && h[2]
        == json::value_view(header@[2]));
    let jwk = header.pop().unwrap();
    let typ = take_text(header.pop().unwrap());
    let alg = take_text(header.pop().unwrap());
    match typ {
        Some(t) => if !str_eq(t.as_str(), DBSC_TYP) {
            return Err(Error::InvalidTyp);
        },
        None => {
            return Err(Error::InvalidTyp);
        },
    }

    let in_payload = [
        Field { name: "jti", kind: FieldKind::Optional },
        Field { name: "authorization", kind: FieldKind::Optional },
    ];
    assert(in_payload@ =~= payload_fields());
    let mut payload = read_segment(parts[1].as_slice(), in_payload.as_slice())?;
    let ghost p = json::claim_views(payload@);
    assert(p[0] == json::value_view(payload@[0]) && p[1] == json::value_view(payload@[1]));
    let authorization = take_text(payload.pop().unwrap());
    let jti = take_text(payload.pop().unwrap());

    let mut signed = string_of(parts[0].as_slice());
    signed.push('.');
    signed.append(string_of(parts[1].as_slice()).as_str());
    let signing_input = vstd::slice::slice_to_vec(signed.as_str().as_bytes());
    let signature = base64url_decode(string_of(parts[2].as_slice()).as_str())?;

    proof {
        json::lemma_required_claim(
            base64url_decoded(segments[0])->Ok_0,
            header_fields(),
            0,
        );
    }
    match jti {
        Some(challenge) => Ok(
            ProofJwt {
                algorithm: alg.unwrap(),
                jwk: take_value(jwk),
                challenge,
                authorization,
                signature,
                signing_input,
            },
        ),
        None => Err(Error::MalformedJwt("missing jti claim".to_owned())),
    }
}

/// Why a decoded proof is not accepted for registration, if it is not.
pub open spec fn registration_fault(proof: ProofView) -> Option<ErrorView> {
    if proof.algorithm == "none"@ {
        match proof.jwk {
            Some(_) => Some(ErrorView::InvalidJwkClaim("jwk claim forbidden for alg=none"@)),
            None => if proof.signature.len() > 0 {
                Some(ErrorView::InvalidSignature)
            } else {
                None
            },
        }
    } else if proof.algorithm == "ES256"@ || proof.algorithm == "RS256"@ {
        match proof.jwk {
            Some(jwk) => signature_fault(
                proof.algorithm,
                jwk,
                proof.signing_input,
                proof.signature,
            ),
            None => Some(ErrorView::InvalidJwkClaim("jwk claim required for registration"@)),
        }
    } else {
        Some(ErrorView::UnsupportedAlgorithm(proof.algorithm))
    }
}

/// The proof in a registration token, or why it is not accepted.
pub open spec fn registration_proof(token: Seq<char>) -> std::result::Result<
    ProofView,
    ErrorView,
> {
    match decoded(token) {
        Err(e) => Err(e),
        Ok(proof) => match registration_fault(proof) {
            Some(e) => Err(e),
            None => Ok(proof),
        },
    }
}

/// Why a decoded proof is not accepted for refresh under the registered JWK, if
/// it is not.
pub open spec fn refresh_fault(proof: ProofView, registered: Seq<char>) -> Option<ErrorView> {
    if proof.jwk is Some {
        Some(ErrorView::InvalidJwkClaim("jwk claim forbidden during refresh"@))
    } else if proof.algorithm == "none"@ {
        Some(ErrorView::UnsupportedAlgorithm("alg=none not allowed during refresh"@))
    } else {
        match json::json_value(vstd::utf8::encode_utf8(registered)) {
            Err(e) => Some(ErrorView::Json(e)),
            Ok(jwk) => signature_fault(
                proof.algorithm,
                jwk,
                proof.signing_input,
                proof.signature,
            ),
        }
    }
}

/// The proof in a refresh token, or why it is not accepted under the registered
/// JWK.
pub open spec fn refresh_proof(token: Seq<char>, registered: Seq<char>) -> std::result::Result<
    ProofView,
    ErrorView,
> {
    match decoded(token) {
        Err(e) => Err(e),
        Ok(proof) => match refresh_fault(proof, registered) {
            Some(e) => Err(e),
            None => Ok(proof),
        },
    }
}

/// Hold a decoded proof against the rules for registration.
pub fn check_registration(proof: &ProofJwt) -> (r: Result<()>)
    ensures
        fault_agrees(r, registration_fault(proof@)),
        proof@.algorithm == "ES256"@ && r is Ok ==> proof@.signature.len() == 64,
{
    let alg = proof.algorithm.as_str();
    proof {
        lemma_algorithms_distinct();
    }
    if str_eq(alg, "none") {
        match &proof.jwk {
            Some(_) => Err(
                Error::InvalidJwkClaim("jwk claim forbidden for alg=none".to_owned()),
            ),
            None => if proof.signature.len() > 0 {
                Err(Error::InvalidSignature)
            } else {
                Ok(())
            },
        }
    } else if str_eq(alg, "ES256") || str_eq(alg, "RS256") {
        match &proof.jwk {
            Some(jwk) => verify_signature(
                alg,
                jwk,
                proof.signing_input.as_slice(),
                proof.signature.as_slice(),
            ),
            None => Err(
                Error::InvalidJwkClaim("jwk claim required for registration".to_owned()),
            ),
        }
    } else {
        Err(Error::UnsupportedAlgorithm(alg.to_owned()))
    }
}

/// Decode and verify a registration proof JWT.
///
/// For `ES256`/`RS256` the header must carry a `jwk` claim whose key verifies the
/// signature; for `none` a `jwk` claim and a signature are forbidden.
pub fn verify_registration(token: &str) -> (r: Result<ProofJwt>)
    ensures
        proof_agrees(r, registration_proof(token@)),
        r matches Ok(p) ==> json::claim_rereads(p.jwk),
        r matches Ok(p) ==> (p@.algorithm == "none"@ ==> p@.jwk is None && p@.signature.len() == 0),
        r matches Ok(p) ==> (p@.algorithm == "ES256"@ ==> p@.signature.len() == 64),
{
    let proof = decode(token)?;
    check_registration(&proof)?;
    Ok(proof)
}

/// Hold a decoded proof against the rules for refresh under a registered JWK.
pub fn check_refresh(proof: &ProofJwt, registered_jwk_json: &str) -> (r: Result<()>)
    ensures
        fault_agrees(r, refresh_fault(proof@, registered_jwk_json@)),
        proof@.algorithm == "ES256"@ && r is Ok ==> proof@.signature.len() == 64,
{
    if proof.jwk.is_some() {
        return Err(Error::InvalidJwkClaim("jwk claim forbidden during refresh".to_owned()));
    }
    if str_eq(proof.algorithm.as_str(), "none") {
        return Err(
            Error::UnsupportedAlgorithm("alg=none not allowed during refresh".to_owned()),
        );
    }
    match read_value(registered_jwk_json.as_bytes()) {
        Ok(jwk) => verify_signature(
            proof.algorithm.as_str(),
            &jwk,
            proof.signing_input.as_slice(),
            proof.signature.as_slice(),
        ),
        Err(e) => Err(Error::from(e)),
    }
}

/// Verify a refresh proof JWT against the registered JWK (JSON string).
///
/// The token must not carry a `jwk` header claim (the key is pinned to the
/// registered value) and `alg = none` is rejected.
pub fn verify_refresh(token: &str, registered_jwk_json: &str) -> (r: Result<ProofJwt>)
    ensures
        proof_agrees(r, refresh_proof(token@, registered_jwk_json@)),
        r matches Ok(p) ==> (p@.algorithm == "ES256"@ ==> p@.signature.len() == 64),
{
    let proof = decode(token)?;
    check_refresh(&proof, registered_jwk_json)?;
    Ok(proof)
}

/// Base64url text reads back as the bytes it was written for, with or without
/// padding behind it.
pub proof fn law_base64url_reads_back(encoded: Seq<char>, bytes: Seq<u8>, padding: Seq<char>)
    requires
        is_base64url(encoded),
        reads_as(encoded, bytes),
        forall|i: int| 0 <= i < padding.len() ==> #[trigger] padding[i] == '=',
    ensures
        base64url_decoded(encoded) == Ok::<Seq<u8>, ErrorView>(bytes),
        base64url_decoded(encoded + padding) == Ok::<Seq<u8>, ErrorView>(bytes),
    decreases padding.len(),
{
    if padding.len() == 0 {
        assert(encoded + padding == encoded);
        assert(encoded.len() > 0 ==> is_base64url_char(encoded[encoded.len() - 1]));
    } else {
        let fewer = padding.drop_last();
        assert forall|i: int| 0 <= i < fewer.len() implies #[trigger] fewer[i] == '=' by {
            assert(fewer[i] == padding[i]);
        }
        law_base64url_reads_back(encoded, bytes, fewer);
        assert((encoded + padding).drop_last() == encoded + fewer);
        assert((encoded + padding).last() == padding.last());
    }
}

/// A token has exactly three segments, or it does not decode.
pub proof fn law_three_segments(token: Seq<char>)
    ensures
        text::split(token, '.').len() != 3 ==> decoded(token) is Err && decoded(token)->Err_0
            is MalformedJwt,
        decoded(token) is Ok ==> text::split(token, '.').len() == 3,
{
}

proof fn lemma_padded_lacks_dot(t: Seq<char>)
    requires
        is_base64url(without_padding(t)),
    ensures
        !t.contains('.'),
    decreases t.len(),
{
    if t.len() > 0 && t.last() == '=' {
        lemma_padded_lacks_dot(t.drop_last());
        assert forall|i: int| 0 <= i < t.len() implies t[i] != '.' by {
            if i < t.len() - 1 {
                assert(t.drop_last()[i] == t[i]);
                assert(t.drop_last().contains(t[i]));
            }
        }
    }
}

/// A token with the given segments.
pub open spec fn token_of(header: Seq<char>, payload: Seq<char>, signature: Seq<char>) -> Seq<
    char,
> {
    header.push('.') + (payload.push('.') + signature)
}

proof fn lemma_segments(token: Seq<char>)
    requires
        text::split(token, '.').len() == 3,
    ensures
        ({
            let parts = text::split(token, '.');
            &&& token == token_of(parts[0], parts[1], parts[2])
            &&& !parts[0].contains('.')
            &&& !parts[1].contains('.')
            &&& !parts[2].contains('.')
        }),
{
    let parts = text::split(token, '.');
    text::lemma_split_join(token, '.');
    let two = parts.drop_last();
    assert(text::join(two.drop_last(), seq!['.']) =~= parts[0]);
    assert(text::join(two, seq!['.']) == text::join(two.drop_last(), seq!['.']) + seq!['.']
        + parts[1]);
    assert(token =~= token_of(parts[0], parts[1], parts[2]));
}

proof fn lemma_token_split(header: Seq<char>, payload: Seq<char>, signature: Seq<char>)
    requires
        !header.contains('.'),
        !payload.contains('.'),
        !signature.contains('.'),
    ensures
        text::split(token_of(header, payload, signature), '.') == seq![header, payload, signature],
{
    text::lemma_split_concat(header, '.', payload.push('.') + signature);
    text::lemma_split_concat(payload, '.', signature);
    text::lemma_split_single(header, '.');
    text::lemma_split_single(payload, '.');
    text::lemma_split_single(signature, '.');
    assert(text::split(token_of(header, payload, signature), '.') =~= seq![
        header,
        payload,
        signature,
    ]);
}

/// A token that decodes is its signed part, a dot, and the base64url text of its
/// signature; with another signature in its place it decodes to the same proof
/// with that signature.
pub proof fn law_signature_segment(
    token: Seq<char>,
    proof: ProofView,
    other: Seq<char>,
    signature: Seq<u8>,
)
    requires
        decoded(token) == Ok::<ProofView, ErrorView>(proof),
        base64url_decoded(other) == Ok::<Seq<u8>, ErrorView>(signature),
        is_base64url(without_padding(other)),
    ensures
        ({
            let parts = text::split(token, '.');
            &&& token == token_of(parts[0], parts[1], parts[2])
            &&& !parts[2].contains('.')
            &&& base64url_decoded(parts[2]) == Ok::<Seq<u8>, ErrorView>(proof.signature)
            &&& proof.signing_input == signed_part(parts[0], parts[1])
            &&& decoded(token_of(parts[0], parts[1], other)) == Ok::<ProofView, ErrorView>(
                ProofView { signature, ..proof },
            )
        }),
{
    let parts = text::split(token, '.');
    lemma_segments(token);
    lemma_padded_lacks_dot(other);
    lemma_token_split(parts[0], parts[1], other);
}

/// The signature covers the payload: a registration token with another payload is
/// refused unless the signature verifies for that payload too.
pub proof fn law_tampered_payload_refused(
    token: Seq<char>,
    proof: ProofView,
    payload: Seq<char>,
    claims: json::ClaimsView,
)
    requires
        registration_proof(token) == Ok::<ProofView, ErrorView>(proof),
        proof.algorithm != "none"@,
        !payload.contains('.'),
        segment_claims(payload, payload_fields()) == Ok::<json::ClaimsView, ErrorView>(claims),
        json::claim_text(claims[0]) is Some,
        ({
            let message = signed_part(text::split(token, '.')[0], payload);
            let jwk = proof.jwk->Some_0;
            if proof.algorithm == "ES256"@ {
                !es256_verifies(es256_key(jwk)->Ok_0, message, proof.signature)
            } else {
                !rs256_verifies(
                    rs256_key(jwk)->Ok_0.0,
                    rs256_key(jwk)->Ok_0.1,
                    sha256(message),
                    proof.signature,
                )
            }
        }),
    ensures
        ({
            let parts = text::split(token, '.');
            registration_proof(token_of(parts[0], payload, parts[2])) == Err::<
                ProofView,
                ErrorView,
            >(ErrorView::InvalidSignature)
        }),
{
    let parts = text::split(token, '.');
    lemma_algorithms_distinct();
    lemma_segments(token);
    lemma_token_split(parts[0], payload, parts[2]);
}

/// A token whose header claims another `typ` than `dbsc+jwt`, or none, is
/// refused, at registration and at refresh.
pub proof fn law_typ_enforced(
    token: Seq<char>,
    header: json::ClaimsView,
    registered: Seq<char>,
)
    requires
        text::split(token, '.').len() == 3,
        segment_claims(text::split(token, '.')[0], header_fields()) == Ok::<
            json::ClaimsView,
            ErrorView,
        >(header),
        json::claim_text(header[1]) != Some("dbsc+jwt"@),
    ensures
        decoded(token) == Err::<ProofView, ErrorView>(ErrorView::InvalidTyp),
        registration_proof(token) is Err,
        refresh_proof(token, registered) is Err,
{
}

/// What registration accepts: with `none` no `jwk` claim and no signature;
/// otherwise ES256 or RS256, a `jwk` claim, and a signature over `header.payload`
/// that verifies under the key in that claim.
pub proof fn law_registration_rules(token: Seq<char>)
    requires
        registration_proof(token) is Ok,
    ensures
        ({
            let proof = registration_proof(token)->Ok_0;
            let parts = text::split(token, '.');
            &&& decoded(token) == Ok::<ProofView, ErrorView>(proof)
            &&& proof.signing_input == signed_part(parts[0], parts[1])
            &&& proof.algorithm == "none"@ || proof.algorithm == "ES256"@ || proof.algorithm
                == "RS256"@
            &&& proof.algorithm == "none"@ <==> proof.jwk is None
            &&& proof.algorithm == "none"@ ==> proof.signature.len() == 0
            &&& proof.algorithm == "ES256"@ ==> proof.signature.len() == 64
            &&& proof.algorithm == "ES256"@ ==> es256_key(proof.jwk->Some_0) is Ok
                && es256_verifies(
                es256_key(proof.jwk->Some_0)->Ok_0,
                proof.signing_input,
                proof.signature,
            )
            &&& proof.algorithm == "RS256"@ ==> rs256_key(proof.jwk->Some_0) is Ok
                && rs256_verifies(
                rs256_key(proof.jwk->Some_0)->Ok_0.0,
                rs256_key(proof.jwk->Some_0)->Ok_0.1,
                sha256(proof.signing_input),
                proof.signature,
            )
        }),
{
    lemma_algorithms_distinct();
}

/// What refresh accepts: ES256 or RS256, no `jwk` claim, and a signature over
/// `header.payload` that verifies under the registered key.
pub proof fn law_refresh_rules(token: Seq<char>, registered: Seq<char>)
    requires
        refresh_proof(token, registered) is Ok,
    ensures
        ({
            let proof = refresh_proof(token, registered)->Ok_0;
            let parts = text::split(token, '.');
            let jwk = json::json_value(vstd::utf8::encode_utf8(registered));
            &&& decoded(token) == Ok::<ProofView, ErrorView>(proof)
            &&& proof.signing_input == signed_part(parts[0], parts[1])
            &&& proof.jwk is None
            &&& proof.algorithm == "ES256"@ || proof.algorithm == "RS256"@
            &&& jwk is Ok
            &&& proof.algorithm == "ES256"@ ==> proof.signature.len() == 64
            &&& proof.algorithm == "ES256"@ ==> es256_key(jwk->Ok_0) is Ok && es256_verifies(
                es256_key(jwk->Ok_0)->Ok_0,
                proof.signing_input,
                proof.signature,
            )
            &&& proof.algorithm == "RS256"@ ==> rs256_key(jwk->Ok_0) is Ok && rs256_verifies(
                rs256_key(jwk->Ok_0)->Ok_0.0,
                rs256_key(jwk->Ok_0)->Ok_0.1,
                sha256(proof.signing_input),
                proof.signature,
            )
        }),
{
    lemma_algorithms_distinct();
}

/// No token is accepted both at registration under a signing algorithm and at
/// refresh: the one must carry its key and the other must not.
pub proof fn law_registration_token_no_refresh(token: Seq<char>, registered: Seq<char>)
    requires
        registration_proof(token) is Ok,
    ensures
        refresh_proof(token, registered) is Err,
{
    lemma_algorithms_distinct();
}

/// The registered key is the key of the registration: a proof without `jwk` claim
/// is accepted at refresh if and only if its signature verifies under that key.
/// For a key with a number that has a fraction or an exponent there is one more
/// outcome: its text is not read back, and nothing is accepted.
pub proof fn law_registered_key_pinned(jwk: JsonView, proof: ProofView)
    requires
        json::rereads(jwk),
        proof.jwk is None,
        proof.algorithm != "none"@,
    ensures
        ({
            let fault = signature_fault(
                proof.algorithm,
                jwk,
                proof.signing_input,
                proof.signature,
            );
            let refused = refresh_fault(proof, jwk.json);
            refused == fault || !json::is_exact(jwk) && refused matches Some(
                ErrorView::Json(_),
            )
        }),
{
}

/// Whether the bytes are an object with these members.
pub open spec fn is_object(bytes: Seq<u8>, ms: Seq<json::MemberText>) -> bool {
    &&& json::json_fault(bytes) is None
    &&& exists|before: Seq<u8>, last: Seq<u8>, after: Seq<u8>|
        {
            &&& bytes == #[trigger] json::object_text(before, ms, last, after)
            &&& json::all_blank(before)
            &&& json::all_blank(last)
            &&& json::all_blank(after)
            &&& json::well_spelled(ms, last + (seq![125u8] + after))
        }
}

/// The claims of a JSON text, where it holds any.
proof fn lemma_object_values(
    bytes: Seq<u8>,
    ms: Seq<json::MemberText>,
    fields: Seq<Field>,
    values: json::ClaimsView,
)
    requires
        is_object(bytes, ms),
        json::distinct_fields(fields),
        values.len() == fields.len(),
        forall|k: int|
            0 <= k < fields.len() ==> json::sole_value(ms, (#[trigger] fields[k]).name@, values[k])
                && json::suits(fields[k], values[k]),
    ensures
        json::claims_of(bytes, fields) == Ok::<json::ClaimsView, Seq<char>>(values),
{
    let (before, last, after) = choose|before: Seq<u8>, last: Seq<u8>, after: Seq<u8>|
        {
            &&& bytes == #[trigger] json::object_text(before, ms, last, after)
            &&& json::all_blank(before)
            &&& json::all_blank(last)
            &&& json::all_blank(after)
            &&& json::well_spelled(ms, last + (seq![125u8] + after))
        };
    json::law_claims_are_named_values(before, ms, last, after, fields, values);
}

/// A token of three base64url segments, the first two of them objects, decodes to
/// what their members say by name: `alg`, `jwk`, `jti` and `authorization`,
/// wherever they stand and whatever else is claimed. `null` counts as missing
/// where a claim may be missing.
pub proof fn law_decoded_by_name(
    header: Seq<char>,
    header_members: Seq<json::MemberText>,
    payload: Seq<char>,
    payload_members: Seq<json::MemberText>,
    signature: Seq<char>,
    alg: JsonView,
    typ: JsonView,
    jwk: Option<JsonView>,
    jti: JsonView,
    authorization: Option<JsonView>,
)
    requires
        !header.contains('.'),
        !payload.contains('.'),
        !signature.contains('.'),
        base64url_decoded(header) matches Ok(bytes) && is_object(bytes, header_members),
        base64url_decoded(payload) matches Ok(bytes) && is_object(bytes, payload_members),
        base64url_decoded(signature) is Ok,
        json::sole_value(header_members, "alg"@, Some(alg)),
        json::sole_value(header_members, "typ"@, Some(typ)),
        json::sole_value(header_members, "jwk"@, jwk),
        json::sole_value(payload_members, "jti"@, Some(jti)),
        json::sole_value(payload_members, "authorization"@, authorization),
        alg.kind is Text,
        typ.kind == JsonKindView::Text("dbsc+jwt"@),
        jti.kind is Text,
        authorization matches Some(a) ==> a.kind is Text || a.kind is Null,
    ensures
        decoded(token_of(header, payload, signature)) matches Ok(proof) && {
            &&& alg.kind == JsonKindView::Text(proof.algorithm)
            &&& proof.jwk == (if jwk is Some && !(jwk->Some_0.kind is Null) {
                jwk
            } else {
                None
            })
            &&& jti.kind == JsonKindView::Text(proof.challenge)
            &&& match proof.authorization {
                Some(text) => authorization matches Some(a) && a.kind == JsonKindView::Text(text),
                None => authorization is None || authorization->Some_0.kind is Null,
            }
            &&& base64url_decoded(signature) == Ok::<Seq<u8>, ErrorView>(proof.signature)
            &&& proof.signing_input == vstd::utf8::encode_utf8(header + "."@ + payload)
        },
{
    reveal_strlit("alg");
    reveal_strlit("typ");
    reveal_strlit("jwk");
    reveal_strlit("jti");
    reveal_strlit("authorization");
    reveal_strlit(".");
    assert("alg"@[0] == 'a' && "typ"@[0] == 't' && "jwk"@[0] == 'j');
    assert("jti"@[0] == 'j' && "authorization"@[0] == 'a');
    assert(header.push('.') + payload =~= header + "."@ + payload);
    lemma_token_split(header, payload, signature);
    let in_header = header_fields();
    let in_payload = payload_fields();
    assert(in_header[0].name@ == "alg"@ && in_header[1].name@ == "typ"@ && in_header[2].name@
        == "jwk"@);
    assert(in_payload[0].name@ == "jti"@ && in_payload[1].name@ == "authorization"@);
    lemma_object_values(
        base64url_decoded(header)->Ok_0,
        header_members,
        in_header,
        seq![Some(alg), Some(typ), jwk],
    );
    lemma_object_values(
        base64url_decoded(payload)->Ok_0,
        payload_members,
        in_payload,
        seq![Some(jti), authorization],
    );
}

/// A header that claims no `typ`, `null` or anything but `dbsc+jwt` is refused as
/// that, whatever the payload and the signature are.
pub proof fn law_other_typ_refused(
    header: Seq<char>,
    header_members: Seq<json::MemberText>,
    payload: Seq<char>,
    signature: Seq<char>,
    alg: JsonView,
    typ: Option<JsonView>,
    jwk: Option<JsonView>,
)
    requires
        !header.contains('.'),
        !payload.contains('.'),
        !signature.contains('.'),
        base64url_decoded(header) matches Ok(bytes) && is_object(bytes, header_members),
        json::sole_value(header_members, "alg"@, Some(alg)),
        json::sole_value(header_members, "typ"@, typ),
        json::sole_value(header_members, "jwk"@, jwk),
        alg.kind is Text,
        typ matches Some(t) ==> t.kind is Null || (t.kind is Text && t.kind != JsonKindView::Text(
            "dbsc+jwt"@,
        )),
    ensures
        decoded(token_of(header, payload, signature)) == Err::<ProofView, ErrorView>(
            ErrorView::InvalidTyp,
        ),
{
    reveal_strlit("alg");
    reveal_strlit("typ");
    reveal_strlit("jwk");
    assert("alg"@[0] == 'a' && "typ"@[0] == 't' && "jwk"@[0] == 'j');
    lemma_token_split(header, payload, signature);
    let in_header = header_fields();
    assert(in_header[0].name@ == "alg"@ && in_header[1].name@ == "typ"@ && in_header[2].name@
        == "jwk"@);
    lemma_object_values(
        base64url_decoded(header)->Ok_0,
        header_members,
        in_header,
        seq![Some(alg), typ, jwk],
    );
}

/// A payload that claims no `jti`, or `null`, is malformed.
pub proof fn law_missing_jti_refused(
    header: Seq<char>,
    header_members: Seq<json::MemberText>,
    payload: Seq<char>,
    payload_members: Seq<json::MemberText>,
    signature: Seq<char>,
    alg: JsonView,
    typ: JsonView,
    jwk: Option<JsonView>,
    jti: Option<JsonView>,
    authorization: Option<JsonView>,
)
    requires
        !header.contains('.'),
        !payload.contains('.'),
        !signature.contains('.'),
        base64url_decoded(header) matches Ok(bytes) && is_object(bytes, header_members),
        base64url_decoded(payload) matches Ok(bytes) && is_object(bytes, payload_members),
        base64url_decoded(signature) is Ok,
        json::sole_value(header_members, "alg"@, Some(alg)),
        json::sole_value(header_members, "typ"@, Some(typ)),
        json::sole_value(header_members, "jwk"@, jwk),
        json::sole_value(payload_members, "jti"@, jti),
        json::sole_value(payload_members, "authorization"@, authorization),
        alg.kind is Text,
        typ.kind == JsonKindView::Text("dbsc+jwt"@),
        jti matches Some(j) ==> j.kind is Null,
        authorization matches Some(a) ==> a.kind is Text || a.kind is Null,
    ensures
        decoded(token_of(header, payload, signature)) == Err::<ProofView, ErrorView>(
            ErrorView::MalformedJwt("missing jti claim"@),
        ),
{
    reveal_strlit("alg");
    reveal_strlit("typ");
    reveal_strlit("jwk");
    reveal_strlit("jti");
    reveal_strlit("authorization");
    assert("alg"@[0] == 'a' && "typ"@[0] == 't' && "jwk"@[0] == 'j');
    assert("jti"@[0] == 'j' && "authorization"@[0] == 'a');
    lemma_token_split(header, payload, signature);
    let in_header = header_fields();
    let in_payload = payload_fields();
    assert(in_header[0].name@ == "alg"@ && in_header[1].name@ == "typ"@ && in_header[2].name@
        == "jwk"@);
    assert(in_payload[0].name@ == "jti"@ && in_payload[1].name@ == "authorization"@);
    lemma_object_values(
        base64url_decoded(header)->Ok_0,
        header_members,
        in_header,
        seq![Some(alg), Some(typ), jwk],
    );
    lemma_object_values(
        base64url_decoded(payload)->Ok_0,
        payload_members,
        in_payload,
        seq![jti, authorization],
    );
}

/// Whether the value is an object whose first member named `key` is the string
/// `s`.
pub open spec fn has_text(v: JsonView, key: Seq<char>, s: Seq<char>) -> bool {
    v.kind matches JsonKindView::Object(members) && exists|i: int|
        {
            &&& 0 <= i < members.len()
            &&& #[trigger] members[i] == (key, Some(s))
            &&& forall|j: int| 0 <= j < i ==> (#[trigger] members[j]).0 != key
        }
}

proof fn lemma_member_text(
    members: Seq<(Seq<char>, Option<Seq<char>>)>,
    key: Seq<char>,
    s: Seq<char>,
)
    ensures
        member_text(members, key) == Some(s) <==> exists|i: int|
            {
                &&& 0 <= i < members.len()
                &&& #[trigger] members[i] == (key, Some(s))
                &&& forall|j: int| 0 <= j < i ==> (#[trigger] members[j]).0 != key
            },
    decreases members.len(),
{
    if members.len() > 0 {
        let rest = members.drop_first();
        lemma_member_text(rest, key, s);
        assert forall|j: int| 0 <= j < rest.len() implies rest[j] == members[j + 1] by {}
        if members[0].0 == key {
            if member_text(members, key) == Some(s) {
                assert(members[0] == (key, Some(s)));
            }
            if exists|i: int|
                {
                    &&& 0 <= i < members.len()
                    &&& #[trigger] members[i] == (key, Some(s))
                    &&& forall|j: int| 0 <= j < i ==> (#[trigger] members[j]).0 != key
                } {
                let i = choose|i: int|
                    {
                        &&& 0 <= i < members.len()
                        &&& #[trigger] members[i] == (key, Some(s))
                        &&& forall|j: int| 0 <= j < i ==> (#[trigger] members[j]).0 != key
                    };
                assert(i == 0);
            }
        } else {
            if member_text(rest, key) == Some(s) {
                let i = choose|i: int|
                    {
                        &&& 0 <= i < rest.len()
                        &&& #[trigger] rest[i] == (key, Some(s))
                        &&& forall|j: int| 0 <= j < i ==> (#[trigger] rest[j]).0 != key
                    };
                assert(members[i + 1] == (key, Some(s)));
                assert forall|j: int| 0 <= j < i + 1 implies (#[trigger] members[j]).0 != key by {
                    if j > 0 {
                        assert(rest[j - 1].0 != key);
                    }
                }
            }
            if exists|i: int|
                {
                    &&& 0 <= i < members.len()
                    &&& #[trigger] members[i] == (key, Some(s))
                    &&& forall|j: int| 0 <= j < i ==> (#[trigger] members[j]).0 != key
                } {
                let i = choose|i: int|
                    {
                        &&& 0 <= i < members.len()
                        &&& #[trigger] members[i] == (key, Some(s))
                        &&& forall|j: int| 0 <= j < i ==> (#[trigger] members[j]).0 != key
                    };
                assert(i > 0);
                assert(rest[i - 1] == (key, Some(s)));
                assert forall|j: int| 0 <= j < i - 1 implies (#[trigger] rest[j]).0 != key by {
                    assert(members[j + 1].0 != key);
                }
            }
        }
    }
}

/// The string under a name is found wherever the member stands.
pub proof fn law_jwk_text_by_name(jwk: JsonView, key: Seq<char>, s: Seq<char>)
    ensures
        jwk_text(jwk, key) == Ok::<Seq<char>, ErrorView>(s) <==> has_text(jwk, key, s),
        jwk_text(jwk, key) matches Err(e) ==> e == ErrorView::InvalidKey(
            "missing JWK field `"@ + key + "`"@,
        ),
{
    if jwk.kind is Object {
        lemma_member_text(jwk.kind->Object_0, key, s);
    }
}

/// Whether the string under `key` is base64url text for the bytes.
pub open spec fn has_bytes(jwk: JsonView, key: Seq<char>, bytes: Seq<u8>) -> bool {
    exists|s: Seq<char>| #[trigger]
        has_text(jwk, key, s) && base64url_decoded(s) == Ok::<Seq<u8>, ErrorView>(bytes)
}

proof fn lemma_jwk_bytes(jwk: JsonView, key: Seq<char>, bytes: Seq<u8>)
    ensures
        jwk_bytes(jwk, key) == Ok::<Seq<u8>, ErrorView>(bytes) <==> has_bytes(jwk, key, bytes),
{
    if let Ok(s) = jwk_text(jwk, key) {
        law_jwk_text_by_name(jwk, key, s);
    }
    if has_bytes(jwk, key, bytes) {
        let s = choose|s: Seq<char>| #[trigger]
            has_text(jwk, key, s) && base64url_decoded(s) == Ok::<Seq<u8>, ErrorView>(bytes);
        law_jwk_text_by_name(jwk, key, s);
    }
}

/// Whether the JWK is the P-256 key with the coordinates `x` and `y`.
pub open spec fn is_p256_jwk(jwk: JsonView, x: Seq<u8>, y: Seq<u8>) -> bool {
    &&& has_text(jwk, "kty"@, "EC"@)
    &&& has_text(jwk, "crv"@, "P-256"@)
    &&& has_bytes(jwk, "x"@, x)
    &&& has_bytes(jwk, "y"@, y)
    &&& x.len() == 32
    &&& y.len() == 32
    &&& es256_key_valid(seq![4u8] + x + y)
}

/// Whether the JWK is the RSA key with the modulus `n` and the exponent `e`: both
/// odd, the exponent from 2 up and below 2^33 and the modulus, the modulus of at
/// most 4096 bits.
pub open spec fn is_rsa_jwk(jwk: JsonView, n: Seq<u8>, e: Seq<u8>) -> bool {
    &&& has_text(jwk, "kty"@, "RSA"@)
    &&& has_bytes(jwk, "n"@, n)
    &&& has_bytes(jwk, "e"@, e)
    &&& big_endian(n) % 2 == 1
    &&& big_endian(n) < vstd::arithmetic::power2::pow2(4096)
    &&& big_endian(e) % 2 == 1
    &&& 2 <= big_endian(e) < big_endian(n)
    &&& big_endian(e) < 0x2_0000_0000
}

/// Whether the signature is one of the message under the key in the JWK, by the
/// algorithm.
pub open spec fn is_signed(
    alg: Seq<char>,
    jwk: JsonView,
    message: Seq<u8>,
    signature: Seq<u8>,
) -> bool {
    ||| alg == "ES256"@ && signature.len() == 64 && exists|x: Seq<u8>, y: Seq<u8>| #[trigger]
        is_p256_jwk(jwk, x, y) && es256_verifies(seq![4u8] + x + y, message, signature)
    ||| alg == "RS256"@ && exists|n: Seq<u8>, e: Seq<u8>| #[trigger]
        is_rsa_jwk(jwk, n, e) && rs256_verifies(n, e, sha256(message), signature)
}

proof fn lemma_es256_key(jwk: JsonView, key: Seq<u8>)
    ensures
        es256_key(jwk) == Ok::<Seq<u8>, ErrorView>(key) <==> exists|x: Seq<u8>, y: Seq<u8>|
            #[trigger] is_p256_jwk(jwk, x, y) && key == seq![4u8] + x + y,
{
    law_jwk_text_by_name(jwk, "kty"@, "EC"@);
    law_jwk_text_by_name(jwk, "crv"@, "P-256"@);
    if es256_key(jwk) == Ok::<Seq<u8>, ErrorView>(key) {
        let x = jwk_bytes(jwk, "x"@)->Ok_0;
        let y = jwk_bytes(jwk, "y"@)->Ok_0;
        lemma_jwk_bytes(jwk, "x"@, x);
        lemma_jwk_bytes(jwk, "y"@, y);
        assert(is_p256_jwk(jwk, x, y));
    }
    if exists|x: Seq<u8>, y: Seq<u8>| #[trigger]
        is_p256_jwk(jwk, x, y) && key == seq![4u8] + x + y {
        let (x, y) = choose|x: Seq<u8>, y: Seq<u8>| #[trigger]
            is_p256_jwk(jwk, x, y) && key == seq![4u8] + x + y;
        lemma_jwk_bytes(jwk, "x"@, x);
        lemma_jwk_bytes(jwk, "y"@, y);
    }
}

proof fn lemma_rs256_key(jwk: JsonView, n: Seq<u8>, e: Seq<u8>)
    ensures
        rs256_key(jwk) == Ok::<(Seq<u8>, Seq<u8>), ErrorView>((n, e)) <==> is_rsa_jwk(jwk, n, e),
{
    law_jwk_text_by_name(jwk, "kty"@, "RSA"@);
    lemma_jwk_bytes(jwk, "n"@, n);
    lemma_jwk_bytes(jwk, "e"@, e);
}

/// A signature is accepted if and only if it is one under the key in the JWK, by
/// ES256 or RS256; `none` accepts everything.
pub proof fn law_signature_accepted(
    alg: Seq<char>,
    jwk: JsonView,
    message: Seq<u8>,
    signature: Seq<u8>,
)
    ensures
        signature_fault(alg, jwk, message, signature) is None <==> alg == "none"@ || is_signed(
            alg,
            jwk,
            message,
            signature,
        ),
        !(alg == "ES256"@ || alg == "RS256"@ || alg == "none"@) ==> signature_fault(
            alg,
            jwk,
            message,
            signature,
        ) == Some(ErrorView::UnsupportedAlgorithm(alg)),
        alg == "ES256"@ && (exists|x: Seq<u8>, y: Seq<u8>| is_p256_jwk(jwk, x, y)) && !is_signed(
            alg,
            jwk,
            message,
            signature,
        ) ==> signature_fault(alg, jwk, message, signature) == Some(ErrorView::InvalidSignature),
        alg == "RS256"@ && (exists|n: Seq<u8>, e: Seq<u8>| is_rsa_jwk(jwk, n, e)) && !is_signed(
            alg,
            jwk,
            message,
            signature,
        ) ==> signature_fault(alg, jwk, message, signature) == Some(ErrorView::InvalidSignature),
{
    lemma_algorithms_distinct();
    if alg == "ES256"@ {
        if let Ok(key) = es256_key(jwk) {
            lemma_es256_key(jwk, key);
        }
        if exists|x: Seq<u8>, y: Seq<u8>| is_p256_jwk(jwk, x, y) {
            let (x, y) = choose|x: Seq<u8>, y: Seq<u8>| is_p256_jwk(jwk, x, y);
            lemma_es256_key(jwk, seq![4u8] + x + y);
        }
        if is_signed(alg, jwk, message, signature) {
            let (x, y) = choose|x: Seq<u8>, y: Seq<u8>| #[trigger]
                is_p256_jwk(jwk, x, y) && es256_verifies(seq![4u8] + x + y, message, signature);
            lemma_es256_key(jwk, seq![4u8] + x + y);
        }
    } else if alg == "RS256"@ {
        if let Ok(key) = rs256_key(jwk) {
            lemma_rs256_key(jwk, key.0, key.1);
        }
        if exists|n: Seq<u8>, e: Seq<u8>| is_rsa_jwk(jwk, n, e) {
            let (n, e) = choose|n: Seq<u8>, e: Seq<u8>| is_rsa_jwk(jwk, n, e);
            lemma_rs256_key(jwk, n, e);
        }
        if is_signed(alg, jwk, message, signature) {
            let (n, e) = choose|n: Seq<u8>, e: Seq<u8>| #[trigger]
                is_rsa_jwk(jwk, n, e) && rs256_verifies(n, e, sha256(message), signature);
            lemma_rs256_key(jwk, n, e);
        }
    }
}

/// Registration accepts a token if and only if it decodes and is signed under the
/// key that it carries, by ES256 or RS256, or has the algorithm `none` and neither
/// key nor signature. What does not decode is refused as decoding refuses it.
pub proof fn law_registration_accepts(token: Seq<char>, proof: ProofView)
    ensures
        registration_proof(token) == Ok::<ProofView, ErrorView>(proof) <==> decoded(token) == Ok::<
            ProofView,
            ErrorView,
        >(proof) && {
            ||| proof.jwk matches Some(jwk) && is_signed(
                proof.algorithm,
                jwk,
                proof.signing_input,
                proof.signature,
            )
            ||| proof.algorithm == "none"@ && proof.jwk is None && proof.signature.len() == 0
        },
        decoded(token) matches Err(e) ==> registration_proof(token) == Err::<ProofView, ErrorView>(
            e,
        ),
{
    lemma_algorithms_distinct();
    if let Ok(p) = decoded(token) {
        if let Some(jwk) = p.jwk {
            law_signature_accepted(p.algorithm, jwk, p.signing_input, p.signature);
        }
    }
}

/// How registration refuses a token that decodes: `none` with a key, and a signing
/// algorithm without one, for the `jwk` claim; `none` with a signature for the
/// signature; any other algorithm as unsupported.
pub proof fn law_registration_refusals(token: Seq<char>, proof: ProofView)
    requires
        decoded(token) == Ok::<ProofView, ErrorView>(proof),
    ensures
        proof.algorithm == "none"@ && proof.jwk is Some ==> registration_proof(token) == Err::<
            ProofView,
            ErrorView,
        >(ErrorView::InvalidJwkClaim("jwk claim forbidden for alg=none"@)),
        proof.algorithm == "none"@ && proof.jwk is None && proof.signature.len() > 0
            ==> registration_proof(token) == Err::<ProofView, ErrorView>(
            ErrorView::InvalidSignature,
        ),
        (proof.algorithm == "ES256"@ || proof.algorithm == "RS256"@) && proof.jwk is None
            ==> registration_proof(token) == Err::<ProofView, ErrorView>(
            ErrorView::InvalidJwkClaim("jwk claim required for registration"@),
        ),
        !(proof.algorithm == "ES256"@ || proof.algorithm == "RS256"@ || proof.algorithm
            == "none"@) ==> registration_proof(token) == Err::<ProofView, ErrorView>(
            ErrorView::UnsupportedAlgorithm(proof.algorithm),
        ),
{
    lemma_algorithms_distinct();
}

/// Refresh accepts a token if and only if it decodes, carries no key and is signed
/// under the registered key, by ES256 or RS256. What does not decode is refused as
/// decoding refuses it.
pub proof fn law_refresh_accepts(token: Seq<char>, registered: Seq<char>, proof: ProofView)
    ensures
        refresh_proof(token, registered) == Ok::<ProofView, ErrorView>(proof) <==> {
            &&& decoded(token) == Ok::<ProofView, ErrorView>(proof)
            &&& proof.jwk is None
            &&& json::json_value(vstd::utf8::encode_utf8(registered)) matches Ok(jwk) && is_signed(
                proof.algorithm,
                jwk,
                proof.signing_input,
                proof.signature,
            )
        },
        decoded(token) matches Err(e) ==> refresh_proof(token, registered) == Err::<
            ProofView,
            ErrorView,
        >(e),
{
    lemma_algorithms_distinct();
    if let Ok(p) = decoded(token) {
        if let Ok(jwk) = json::json_value(vstd::utf8::encode_utf8(registered)) {
            law_signature_accepted(p.algorithm, jwk, p.signing_input, p.signature);
        }
    }
}

/// How refresh refuses a token that decodes: one with a key for the `jwk` claim,
/// one with `none` as unsupported.
pub proof fn law_refresh_refusals(token: Seq<char>, registered: Seq<char>, proof: ProofView)
    requires
        decoded(token) == Ok::<ProofView, ErrorView>(proof),
    ensures
        proof.jwk is Some ==> refresh_proof(token, registered) == Err::<ProofView, ErrorView>(
            ErrorView::InvalidJwkClaim("jwk claim forbidden during refresh"@),
        ),
        proof.jwk is None && proof.algorithm == "none"@ ==> refresh_proof(token, registered)
            == Err::<ProofView, ErrorView>(
            ErrorView::UnsupportedAlgorithm("alg=none not allowed during refresh"@),
        ),
        proof.jwk is None && proof.algorithm != "none"@ ==> (json::json_value(
            vstd::utf8::encode_utf8(registered),
        ) matches Err(e) ==> refresh_proof(token, registered) == Err::<ProofView, ErrorView>(
            ErrorView::Json(e),
        )),
{
}

/// Padding is the only thing that decoding ignores: what it reads is the text up to
/// the padding characters at its end.
pub proof fn law_padding_is_trailing(s: Seq<char>)
    ensures
        ({
            let kept = without_padding(s);
            &&& kept.len() <= s.len()
            &&& kept == s.take(kept.len() as int)
            &&& kept.len() > 0 ==> kept.last() != '='
            &&& forall|i: int| kept.len() <= i < s.len() ==> #[trigger] s[i] == '='
        }),
        base64url_decoded(s) matches Ok(bytes) ==> reads_as(without_padding(s), bytes),
        base64url_bytes(without_padding(s)) matches Err(e) ==> base64url_decoded(s) == Err::<
            Seq<u8>,
            ErrorView,
        >(ErrorView::Base64(e)),
        base64url_bytes(without_padding(s)) is Ok ==> base64url_decoded(s) is Ok,
    decreases s.len(),
{
    if s.len() > 0 && s.last() == '=' {
        let front = s.drop_last();
        law_padding_is_trailing(front);
        let n = without_padding(s).len() as int;
        assert(front.take(n) =~= s.take(n));
        assert forall|i: int| n <= i < s.len() implies #[trigger] s[i] == '=' by {
            if i < front.len() {
                assert(front[i] == s[i]);
            }
        }
    } else {
        assert(s.take(s.len() as int) =~= s);
    }
}

/// What is wrong with a token is told in this order: the number of its segments, the
/// header, the `typ` in it, the payload, the signature, and last a missing `jti`. A
/// fault of a segment is told as it is found there: one of base64url text before one
/// of the JSON text in it.
pub proof fn law_first_fault_told(header: Seq<char>, payload: Seq<char>, signature: Seq<char>)
    requires
        !header.contains('.'),
        !payload.contains('.'),
        !signature.contains('.'),
    ensures
        ({
            let got = decoded(token_of(header, payload, signature));
            let in_header = segment_claims(header, header_fields());
            let in_payload = segment_claims(payload, payload_fields());
            &&& base64url_decoded(header) matches Err(e) ==> got == Err::<ProofView, ErrorView>(e)
            &&& base64url_decoded(header) matches Ok(bytes) ==> (json::claims_of(
                bytes,
                header_fields(),
            ) matches Err(e) ==> got == Err::<ProofView, ErrorView>(ErrorView::Json(e)))
            &&& got is Ok || got->Err_0 != ErrorView::InvalidTyp ==> in_header is Err
                || json::claim_text(in_header->Ok_0[1]) == Some("dbsc+jwt"@)
            &&& in_header is Ok && json::claim_text(in_header->Ok_0[1]) == Some("dbsc+jwt"@) ==> {
                &&& base64url_decoded(payload) matches Err(e) ==> got == Err::<
                    ProofView,
                    ErrorView,
                >(e)
                &&& base64url_decoded(payload) matches Ok(bytes) ==> (json::claims_of(
                    bytes,
                    payload_fields(),
                ) matches Err(e) ==> got == Err::<ProofView, ErrorView>(ErrorView::Json(e)))
                &&& in_payload is Ok ==> (base64url_decoded(signature) matches Err(e) ==> got
                    == Err::<ProofView, ErrorView>(e))
                &&& in_payload is Ok && base64url_decoded(signature) is Ok ==> (got is Ok
                    <==> json::claim_text(in_payload->Ok_0[0]) is Some)
            }
        }),
{
    lemma_token_split(header, payload, signature);
}

/// Fewer or more than three segments: the first that is missing is told, or that
/// there are too many.
pub proof fn law_segment_count(token: Seq<char>)
    ensures
        !token.contains('.') ==> decoded(token) == Err::<ProofView, ErrorView>(
            ErrorView::MalformedJwt("missing payload"@),
        ),
        text::split(token, '.').len() == 2 ==> decoded(token) == Err::<ProofView, ErrorView>(
            ErrorView::MalformedJwt("missing signature"@),
        ),
        text::split(token, '.').len() > 3 ==> decoded(token) == Err::<ProofView, ErrorView>(
            ErrorView::MalformedJwt("too many segments"@),
        ),
{
    text::lemma_split_nonempty(token, '.');
    if !token.contains('.') {
        text::lemma_split_single(token, '.');
    }
}

/// Whether the members name a claim twice, or with a value that it cannot have.
pub open spec fn misnames(ms: Seq<json::MemberText>, field: Field) -> bool {
    ||| exists|i: int, j: int|
        0 <= i < j < ms.len() && (#[trigger] ms[i]).name == field.name@ && (#[trigger] ms[j]).name
            == field.name@
    ||| exists|i: int|
        0 <= i < ms.len() && (#[trigger] ms[i]).name == field.name@ && !json::taken(
            field,
            ms[i].value,
        )
}

/// A header that names `alg`, `typ` or `jwk` twice is refused, one without `alg`, and
/// one whose `alg` is no string or whose `typ` is neither a string nor `null`; a
/// payload that names `jti` or `authorization` twice, or with anything but a string
/// or `null`. The fault is one of the JSON text.
pub proof fn law_unreadable_claims_refused(
    header: Seq<char>,
    payload: Seq<char>,
    signature: Seq<char>,
    ms: Seq<json::MemberText>,
)
    requires
        !header.contains('.'),
        !payload.contains('.'),
        !signature.contains('.'),
    ensures
        ({
            let got = decoded(token_of(header, payload, signature));
            let bad_header = base64url_decoded(header) is Ok && is_object(
                base64url_decoded(header)->Ok_0,
                ms,
            ) && {
                ||| !json::has_member(ms, "alg"@)
                ||| misnames(ms, Field { name: "alg", kind: FieldKind::Required })
                ||| misnames(ms, Field { name: "typ", kind: FieldKind::Optional })
                ||| misnames(ms, Field { name: "jwk", kind: FieldKind::Any })
            };
            let bad_payload = base64url_decoded(payload) is Ok && is_object(
                base64url_decoded(payload)->Ok_0,
                ms,
            ) && {
                ||| misnames(ms, Field { name: "jti", kind: FieldKind::Optional })
                ||| misnames(ms, Field { name: "authorization", kind: FieldKind::Optional })
            };
            &&& bad_header ==> got is Err && got->Err_0 is Json
            &&& bad_payload ==> got is Err
        }),
{
    reveal_strlit("alg");
    reveal_strlit("typ");
    reveal_strlit("jwk");
    reveal_strlit("jti");
    reveal_strlit("authorization");
    assert("alg"@[0] == 'a' && "typ"@[0] == 't' && "jwk"@[0] == 'j');
    assert("jti"@[0] == 'j' && "authorization"@[0] == 'a');
    lemma_token_split(header, payload, signature);
    let in_header = header_fields();
    let in_payload = payload_fields();
    assert(in_header[0].name@ == "alg"@ && in_header[1].name@ == "typ"@ && in_header[2].name@
        == "jwk"@);
    assert(in_payload[0].name@ == "jti"@ && in_payload[1].name@ == "authorization"@);
    if base64url_decoded(header) is Ok && is_object(base64url_decoded(header)->Ok_0, ms) {
        let bytes = base64url_decoded(header)->Ok_0;
        lemma_misnamed(bytes, ms, in_header, 0);
        lemma_misnamed(bytes, ms, in_header, 1);
        lemma_misnamed(bytes, ms, in_header, 2);
    }
    if base64url_decoded(payload) is Ok && is_object(base64url_decoded(payload)->Ok_0, ms) {
        let bytes = base64url_decoded(payload)->Ok_0;
        lemma_misnamed(bytes, ms, in_payload, 0);
        lemma_misnamed(bytes, ms, in_payload, 1);
    }
}

proof fn lemma_misnamed(
    bytes: Seq<u8>,
    ms: Seq<json::MemberText>,
    fields: Seq<Field>,
    k: int,
)
    requires
        is_object(bytes, ms),
        json::distinct_fields(fields),
        0 <= k < fields.len(),
    ensures
        misnames(ms, fields[k]) ==> json::claims_of(bytes, fields) is Err,
        fields[k].kind is Required && !json::has_member(ms, fields[k].name@) ==> json::claims_of(
            bytes,
            fields,
        ) is Err,
{
    let (before, last, after) = choose|before: Seq<u8>, last: Seq<u8>, after: Seq<u8>|
        {
            &&& bytes == #[trigger] json::object_text(before, ms, last, after)
            &&& json::all_blank(before)
            &&& json::all_blank(last)
            &&& json::all_blank(after)
            &&& json::well_spelled(ms, last + (seq![125u8] + after))
        };
    json::law_claims_by_name(before, ms, last, after, fields);
    if json::claims_of(bytes, fields) is Ok {
        assert(fields[k].name@ == fields[k].name@);
        if exists|i: int|
            0 <= i < ms.len() && (#[trigger] ms[i]).name == fields[k].name@ && !json::taken(
                fields[k],
                ms[i].value,
            ) {
            let i = choose|i: int|
                0 <= i < ms.len() && (#[trigger] ms[i]).name == fields[k].name@ && !json::taken(
                    fields[k],
                    ms[i].value,
                );
            assert(ms[i].name == fields[k].name@);
        }
    }
}

/// A JWK that is no P-256 key, or no RSA key, is refused for ES256, or RS256, as an
/// invalid key or as bad base64url text, before the signature is looked at.
pub proof fn law_unusable_key_refused(jwk: JsonView, message: Seq<u8>, signature: Seq<u8>)
    ensures
        !(exists|x: Seq<u8>, y: Seq<u8>| is_p256_jwk(jwk, x, y)) ==> {
            let fault = signature_fault("ES256"@, jwk, message, signature);
            fault is Some && (fault->Some_0 is InvalidKey || fault->Some_0 is Base64)
        },
        !(exists|n: Seq<u8>, e: Seq<u8>| is_rsa_jwk(jwk, n, e)) ==> {
            let fault = signature_fault("RS256"@, jwk, message, signature);
            fault is Some && (fault->Some_0 is InvalidKey || fault->Some_0 is Base64)
        },
{
    lemma_algorithms_distinct();
    if let Ok(key) = es256_key(jwk) {
        lemma_es256_key(jwk, key);
    }
    if let Ok(key) = rs256_key(jwk) {
        lemma_rs256_key(jwk, key.0, key.1);
    }
}

/// Whether the bytes are an array with these elements.
pub open spec fn is_array(bytes: Seq<u8>, es: Seq<json::ElementText>) -> bool {
    &&& json::json_fault(bytes) is None
    &&& exists|before: Seq<u8>, last: Seq<u8>, after: Seq<u8>|
        {
            &&& bytes == #[trigger] json::array_text(before, es, last, after)
            &&& json::all_blank(before)
            &&& json::all_blank(last)
            &&& json::all_blank(after)
            &&& json::well_placed(es, last + (seq![93u8] + after))
        }
}

/// Whether the element reads as the value.
pub open spec fn element_reads(e: json::ElementText, v: JsonView) -> bool {
    &&& json::json_value(e.value) == Ok::<JsonView, Seq<char>>(v)
    &&& json::json_value(seq![91u8] + e.value + seq![93u8]) is Ok
}

/// A header that is an array has `alg`, `typ` and `jwk` as its elements, in this
/// order, and a payload that is an array `jti` and `authorization`; an array of
/// another length holds no claims.
pub proof fn law_claims_by_place(
    segment: Seq<char>,
    bytes: Seq<u8>,
    es: Seq<json::ElementText>,
    first: JsonView,
    second: JsonView,
    third: JsonView,
)
    requires
        base64url_decoded(segment) == Ok::<Seq<u8>, ErrorView>(bytes),
        is_array(bytes, es),
        es.len() > 0,
    ensures
        es.len() == 3 && element_reads(es[0], first) && element_reads(es[1], second)
            && element_reads(es[2], third) && first.kind is Text && (second.kind is Text
            || second.kind is Null) ==> segment_claims(segment, header_fields()) == Ok::<
            json::ClaimsView,
            ErrorView,
        >(seq![Some(first), Some(second), Some(third)]),
        es.len() == 2 && element_reads(es[0], first) && element_reads(es[1], second) && (
        first.kind is Text || first.kind is Null) && (second.kind is Text || second.kind is Null)
            ==> segment_claims(segment, payload_fields()) == Ok::<json::ClaimsView, ErrorView>(
            seq![Some(first), Some(second)],
        ),
        es.len() != 3 ==> segment_claims(segment, header_fields()) is Err,
        es.len() != 2 ==> segment_claims(segment, payload_fields()) is Err,
{
    let (before, last, after) = choose|before: Seq<u8>, last: Seq<u8>, after: Seq<u8>|
        {
            &&& bytes == #[trigger] json::array_text(before, es, last, after)
            &&& json::all_blank(before)
            &&& json::all_blank(last)
            &&& json::all_blank(after)
            &&& json::well_placed(es, last + (seq![93u8] + after))
        };
    let h = header_fields();
    let p = payload_fields();
    json::law_claims_in_order(before, es, last, after, h);
    json::law_claims_in_order(before, es, last, after, p);
    if es.len() == 3 && element_reads(es[0], first) && element_reads(es[1], second)
        && element_reads(es[2], third) && first.kind is Text && (second.kind is Text || second.kind
        is Null) {
        assert(json::takes(h[0], es[0].value, first));
        assert(json::takes(h[1], es[1].value, second));
        assert(json::takes(h[2], es[2].value, third));
        assert forall|k: int| 0 <= k < h.len() implies #[trigger] json::taken(
            h[k],
            es[k].value,
        ) by {}
        let got = json::claims_of(bytes, h)->Ok_0;
        assert(json::placed(h[0], es[0], got[0]));
        assert(json::placed(h[1], es[1], got[1]));
        assert(json::placed(h[2], es[2], got[2]));
        assert(got =~= seq![Some(first), Some(second), Some(third)]);
    }
    if es.len() == 2 && element_reads(es[0], first) && element_reads(es[1], second) && (first.kind
        is Text || first.kind is Null) && (second.kind is Text || second.kind is Null) {
        assert(json::takes(p[0], es[0].value, first));
        assert(json::takes(p[1], es[1].value, second));
        assert forall|k: int| 0 <= k < p.len() implies #[trigger] json::taken(
            p[k],
            es[k].value,
        ) by {}
        let got = json::claims_of(bytes, p)->Ok_0;
        assert(json::placed(p[0], es[0], got[0]));
        assert(json::placed(p[1], es[1], got[1]));
        assert(got =~= seq![Some(first), Some(second)]);
    }
}

/// What a token says once its segments are read: the first claim of the header is the
/// algorithm and the third the key, the first of the payload the challenge and the
/// second the authorization; `null` stands for no claim.
pub proof fn law_decoded_from_claims(
    header: Seq<char>,
    payload: Seq<char>,
    signature: Seq<char>,
    in_header: json::ClaimsView,
    in_payload: json::ClaimsView,
    jti: JsonView,
    challenge: Seq<char>,
    proof: ProofView,
)
    requires
        !header.contains('.'),
        !payload.contains('.'),
        !signature.contains('.'),
        segment_claims(header, header_fields()) == Ok::<json::ClaimsView, ErrorView>(in_header),
        segment_claims(payload, payload_fields()) == Ok::<json::ClaimsView, ErrorView>(in_payload),
        base64url_decoded(signature) is Ok,
        in_header[1] is Some && in_header[1]->Some_0.kind == JsonKindView::Text("dbsc+jwt"@),
        in_payload[0] == Some(jti),
        jti.kind == JsonKindView::Text(challenge),
        decoded(token_of(header, payload, signature)) == Ok::<ProofView, ErrorView>(proof),
    ensures
        proof.challenge == challenge,
        in_header[0] is Some && in_header[0]->Some_0.kind == JsonKindView::Text(proof.algorithm),
        in_header[2] is None || in_header[2]->Some_0.kind is Null ==> proof.jwk is None,
        in_header[2] matches Some(jwk) ==> (!(jwk.kind is Null) ==> proof.jwk == Some(jwk)),
        in_payload[1] matches Some(a) ==> (a.kind matches JsonKindView::Text(text)
            ==> proof.authorization == Some(text)),
        in_payload[1] is None || in_payload[1]->Some_0.kind is Null ==> proof.authorization is None,
        base64url_decoded(signature) == Ok::<Seq<u8>, ErrorView>(proof.signature),
        proof.signing_input == vstd::utf8::encode_utf8(header + "."@ + payload),
{
    reveal_strlit(".");
    lemma_token_split(header, payload, signature);
    assert(header.push('.') + payload =~= header + "."@ + payload);
    json::lemma_required_claim(base64url_decoded(header)->Ok_0, header_fields(), 0);
}

/// What is wrong with a JWK is told by what it says: another type or curve than ES256
/// or RS256 needs, a member that is missing, or coordinates of another length.
pub proof fn law_key_faults(
    jwk: JsonView,
    kty: Seq<char>,
    crv: Seq<char>,
    x: Seq<u8>,
    y: Seq<u8>,
    message: Seq<u8>,
    signature: Seq<u8>,
)
    requires
        has_text(jwk, "kty"@, kty),
    ensures
        kty != "EC"@ ==> signature_fault("ES256"@, jwk, message, signature) == Some(
            ErrorView::InvalidKey("expected EC/P-256 JWK"@),
        ),
        has_text(jwk, "crv"@, crv) && crv != "P-256"@ ==> signature_fault(
            "ES256"@,
            jwk,
            message,
            signature,
        ) == Some(ErrorView::InvalidKey("expected EC/P-256 JWK"@)),
        kty == "EC"@ && has_text(jwk, "crv"@, "P-256"@) && has_bytes(jwk, "x"@, x) && has_bytes(
            jwk,
            "y"@,
            y,
        ) && (x.len() != 32 || y.len() != 32) ==> signature_fault(
            "ES256"@,
            jwk,
            message,
            signature,
        ) == Some(ErrorView::InvalidKey("P-256 coordinates must be 32 bytes"@)),
        kty != "RSA"@ ==> signature_fault("RS256"@, jwk, message, signature) == Some(
            ErrorView::InvalidKey("expected RSA JWK"@),
        ),
{
    lemma_algorithms_distinct();
    law_jwk_text_by_name(jwk, "kty"@, kty);
    law_jwk_text_by_name(jwk, "crv"@, crv);
    law_jwk_text_by_name(jwk, "crv"@, "P-256"@);
    lemma_jwk_bytes(jwk, "x"@, x);
    lemma_jwk_bytes(jwk, "y"@, y);
}

} // verus!
