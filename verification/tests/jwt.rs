use dbsc::jwt::{
    base64url_decode, base64url_encode, check_refresh, check_registration, decode,
    verify_refresh, verify_registration, verify_signature,
};
use dbsc::Error;
use p256::ecdsa::{signature::Signer, Signature, SigningKey};
use p256::elliptic_curve::Generate;
use rsa::pkcs1v15::Pkcs1v15Sign;
use rsa::traits::PublicKeyParts;
use rsa::BigUint;
use serde_json::Value;
use sha2::{Digest, Sha256};

/// Generate an ES256 signing key and its public JWK.
fn make_es256_key() -> (SigningKey, Value) {
    let key = SigningKey::generate();
    let point = key.verifying_key().to_sec1_point(false);
    let jwk = object(&[
        ("kty", "EC"),
        ("crv", "P-256"),
        ("x", &base64url_encode(point.x().unwrap())),
        ("y", &base64url_encode(point.y().unwrap())),
    ]);
    (key, jwk)
}

/// A JSON object of strings.
fn object(members: &[(&str, &str)]) -> Value {
    let mut map = serde_json::Map::new();
    for (name, value) in members {
        map.insert(name.to_string(), Value::String(value.to_string()));
    }
    Value::Object(map)
}

/// Build and sign an ES256 JWT.
fn sign_es256(
    key: &SigningKey,
    jwk: Option<&Value>,
    typ: &str,
    jti: &str,
    authorization: Option<&str>,
) -> String {
    let mut header = object(&[("alg", "ES256"), ("typ", typ)]);
    if let Some(jwk) = jwk {
        header["jwk"] = jwk.clone();
    }
    let mut payload = object(&[("jti", jti)]);
    if let Some(a) = authorization {
        payload["authorization"] = serde_json::Value::String(a.to_string());
    }
    let input = format!(
        "{}.{}",
        base64url_encode(header.to_string().as_bytes()),
        base64url_encode(payload.to_string().as_bytes())
    );
    let sig: Signature = key.sign(input.as_bytes());
    format!("{}.{}", input, base64url_encode(&sig.to_bytes()))
}

/// The primes of two 2048-bit RSA keys, in hexadecimal.
const PRIMES: [[&str; 2]; 2] = [
    [
        "dc1455121decd360a58d6094707437ee049410b1c4d659f465c1195f47fe9602\
         bc0c3165e690ca1a05927975db8d6ba04320488fcf8657fa330352252a02c451\
         76a1cb231dc41543583eab9069d1baa7adfe790641c36b0f7579b8e3fc1da7a6\
         117daf7c3fbb03ffeaeb9900221259188a69bf3e1e073c922c720ac45ce54299",
        "dc9bebdaca5611a91138d425c1d275c0ae31d14aa44b91bdc86ca8aed97756f2\
         b4d5e814ba6cb7ad3fe244371ec8a5981ad5852bccf54c476cc3eff9636a52ed\
         e9723dc06a8c88ba7b4031c6e3dd7889e784d1b38dd3ca66cfba415b7333287a\
         4618428f35ab78560f98fe4946bfc9db7f1e347209bcef92097ca6a5c97e4905",
    ],
    [
        "ff6dee2836abd7db2a4a13d06de2a4e7795f0d187584369046c925a2812d8f6e\
         4c7ed57b36cc3ab26c16b7b396d64e20ddf8180f8348b86f839770465530246b\
         adc71e924f36c7efa6362e456ce68bf2f20504fc6c1f8939a67c047e23952872\
         ea090f1f9f1d67376d3d837b6d2e91a1620a4bc7f10c15c17b005e68cc04d1cb",
        "f6a7e6ea8dfe865af6d4696b11a41f7934735fee58c51fa3a6c339c718212e97\
         05a8774e56e86f4bec7d428a1b5ce037cc50495a6e022fa095aeafab0838f820\
         548a13c71265c95844bdfba42041cc5c58f91c03fddcfc00e722466a6942de9f\
         b90e1619d1df1da449f0b784b1649b58e180d659c458aa46f4327e3b000ea995",
    ],
];

/// One of two 2048-bit RSA signing keys and its public JWK.
fn make_rs256_key(which: usize) -> (rsa::RsaPrivateKey, Value) {
    let p = BigUint::parse_bytes(PRIMES[which][0].as_bytes(), 16).unwrap();
    let q = BigUint::parse_bytes(PRIMES[which][1].as_bytes(), 16).unwrap();
    let key = rsa::RsaPrivateKey::from_p_q(p, q, BigUint::from(65537u32)).unwrap();
    let jwk = object(&[
        ("kty", "RSA"),
        ("n", &base64url_encode(&key.n().to_bytes_be())),
        ("e", &base64url_encode(&key.e().to_bytes_be())),
    ]);
    (key, jwk)
}

/// Build and sign an RS256 JWT.
fn sign_rs256(key: &rsa::RsaPrivateKey, jwk: Option<&Value>, typ: &str, jti: &str) -> String {
    let mut header = object(&[("alg", "RS256"), ("typ", typ)]);
    if let Some(jwk) = jwk {
        header["jwk"] = jwk.clone();
    }
    let payload = object(&[("jti", jti)]);
    let input = format!(
        "{}.{}",
        base64url_encode(header.to_string().as_bytes()),
        base64url_encode(payload.to_string().as_bytes())
    );
    let digest = Sha256::digest(input.as_bytes());
    let sig = key.sign(Pkcs1v15Sign::new::<Sha256>(), &digest).unwrap();
    format!("{}.{}", input, base64url_encode(&sig))
}

#[test]
fn decode_typ_enforced() {
    let (key, jwk) = make_es256_key();
    let good = sign_es256(&key, Some(&jwk), "dbsc+jwt", "c1", None);
    assert!(decode(&good).is_ok());
    let bad = sign_es256(&key, Some(&jwk), "JWT", "c1", None);
    assert!(matches!(decode(&bad), Err(Error::InvalidTyp)));
}

#[test]
fn registration_verify_ok() {
    let (key, jwk) = make_es256_key();
    let token = sign_es256(&key, Some(&jwk), "dbsc+jwt", "challenge-1", Some("auth"));
    let proof = verify_registration(&token).unwrap();
    assert_eq!(proof.algorithm, "ES256");
    assert_eq!(proof.challenge, "challenge-1");
    assert_eq!(proof.authorization.as_deref(), Some("auth"));
    assert_eq!(proof.jwk.unwrap().json, jwk.to_string());
}

#[test]
fn registration_wrong_jti_fails() {
    let (key, jwk) = make_es256_key();
    // Token signed over a different jti than expected by the caller is
    // caught by comparing proof.challenge; here verify tampering instead.
    let token = sign_es256(&key, Some(&jwk), "dbsc+jwt", "c1", None);
    let mut parts: Vec<String> = token.split('.').map(String::from).collect();
    // Tamper with payload jti (invalidates signature).
    parts[1] = base64url_encode(br#"{"jti":"c2"}"#);
    let tampered = parts.join(".");
    assert!(matches!(
        verify_registration(&tampered),
        Err(Error::InvalidSignature)
    ));
}

#[test]
fn registration_none_alg_rules() {
    let header = base64url_encode(br#"{"alg":"none","typ":"dbsc+jwt"}"#);
    let payload = base64url_encode(br#"{"jti":"c1"}"#);
    let ok = format!("{header}.{payload}.");
    assert_eq!(verify_registration(&ok).unwrap().algorithm, "none");
    let header_with_jwk = base64url_encode(
        br#"{"alg":"none","typ":"dbsc+jwt","jwk":{"kty":"EC","crv":"P-256","x":"a","y":"b"}}"#,
    );
    let bad = format!("{header_with_jwk}.{payload}.");
    assert!(matches!(
        verify_registration(&bad),
        Err(Error::InvalidJwkClaim(_))
    ));
}

#[test]
fn refresh_rejects_embedded_jwk() {
    let (key, jwk) = make_es256_key();
    let token = sign_es256(&key, Some(&jwk), "dbsc+jwt", "c1", None);
    assert!(matches!(
        verify_refresh(&token, &jwk.to_string()),
        Err(Error::InvalidJwkClaim(_))
    ));
}

#[test]
fn refresh_ok_and_wrong_key() {
    let (key, jwk) = make_es256_key();
    let token = sign_es256(&key, None, "dbsc+jwt", "c1", None);
    let proof = verify_refresh(&token, &jwk.to_string()).unwrap();
    assert_eq!(proof.challenge, "c1");

    let (_, other_jwk) = make_es256_key();
    assert!(matches!(
        verify_refresh(&token, &other_jwk.to_string()),
        Err(Error::InvalidSignature)
    ));
}

#[test]
fn refresh_rejects_none_alg() {
    let header = base64url_encode(br#"{"alg":"none","typ":"dbsc+jwt"}"#);
    let payload = base64url_encode(br#"{"jti":"c1"}"#);
    let token = format!("{header}.{payload}.");
    let (_, jwk) = make_es256_key();
    assert!(matches!(
        verify_refresh(&token, &jwk.to_string()),
        Err(Error::UnsupportedAlgorithm(_))
    ));
}

#[test]
fn base64url_roundtrip() {
    let data = b"hello, dbsc!";
    assert_eq!(base64url_decode(&base64url_encode(data)).unwrap(), data);
}

#[test]
fn rs256_registration_and_refresh_ok() {
    let (key, jwk) = make_rs256_key(0);
    let token = sign_rs256(&key, Some(&jwk), "dbsc+jwt", "rsa-challenge");
    let proof = verify_registration(&token).unwrap();
    assert_eq!(proof.algorithm, "RS256");
    assert_eq!(proof.challenge, "rsa-challenge");

    // Refresh: no embedded jwk, verify against the registered JWK.
    let refresh = sign_rs256(&key, None, "dbsc+jwt", "rsa-challenge-2");
    let proof = verify_refresh(&refresh, &jwk.to_string()).unwrap();
    assert_eq!(proof.challenge, "rsa-challenge-2");
}

#[test]
fn rs256_wrong_key_and_missing_jwk_fail() {
    let (key, jwk) = make_rs256_key(0);

    // Registration requires the jwk header claim for RS256.
    let no_jwk = sign_rs256(&key, None, "dbsc+jwt", "c1");
    assert!(matches!(
        verify_registration(&no_jwk),
        Err(Error::InvalidJwkClaim(_))
    ));

    // Refresh against a different RSA key must fail.
    let (_, other_jwk) = make_rs256_key(1);
    let token = sign_rs256(&key, None, "dbsc+jwt", "c1");
    assert!(matches!(
        verify_refresh(&token, &other_jwk.to_string()),
        Err(Error::InvalidSignature)
    ));

    // Refresh with embedded jwk is rejected even for RS256.
    let embedded = sign_rs256(&key, Some(&jwk), "dbsc+jwt", "c1");
    assert!(matches!(
        verify_refresh(&embedded, &jwk.to_string()),
        Err(Error::InvalidJwkClaim(_))
    ));
}

/// An unsigned token from the two JSON texts.
fn unsigned(header: &str, payload: &str) -> String {
    format!("{}.{}.", base64url_encode(header.as_bytes()), base64url_encode(payload.as_bytes()))
}

fn message(token: &str) -> String {
    decode(token).unwrap_err().message()
}

#[test]
fn unsigned_proof_has_no_signature() {
    let token = unsigned("{\"alg\":\"none\",\"typ\":\"dbsc+jwt\"}", "{\"jti\":\"c\"}");
    assert!(verify_registration(&token).unwrap().signature.is_empty());
    let signed = format!("{}AAAA", token);
    assert_eq!(decode(&signed).unwrap().signature, vec![0, 0, 0]);
    assert!(matches!(verify_registration(&signed), Err(Error::InvalidSignature)));
}

#[test]
fn signature_segment_changes_nothing_else() {
    let (key, jwk) = make_es256_key();
    let token = sign_es256(&key, Some(&jwk), "dbsc+jwt", "c", Some("a"));
    let proof = decode(&token).unwrap();
    let signed = String::from_utf8(proof.signing_input.clone()).unwrap();
    assert_eq!(token, format!("{}.{}", signed, base64url_encode(&proof.signature)));
    let other = decode(&format!("{}.AQI=", signed)).unwrap();
    assert_eq!(other.signature, vec![1, 2]);
    assert_eq!(other.algorithm, proof.algorithm);
    assert_eq!(other.jwk, proof.jwk);
    assert_eq!(other.challenge, proof.challenge);
    assert_eq!(other.authorization, proof.authorization);
    assert_eq!(other.signing_input, proof.signing_input);
}

#[test]
fn decoded_text_is_the_written_one() {
    for text in ["", "AA", "AAA=", "-_8", "aGVsbG8="] {
        let bytes = base64url_decode(text).unwrap();
        assert_eq!(base64url_encode(&bytes), text.trim_end_matches('='));
    }
    assert!(base64url_decode("AB").is_err());
    assert!(base64url_decode("A.A").is_err());
}

#[test]
fn base64url_text() {
    assert_eq!(base64url_encode(b""), "");
    assert_eq!(base64url_encode(&[0xfb, 0xff]), "-_8");
    assert_eq!(base64url_decode("-_8").unwrap(), vec![0xfb, 0xff]);
    assert_eq!(base64url_decode("-_8===").unwrap(), vec![0xfb, 0xff]);
    assert!(matches!(base64url_decode("+/8"), Err(Error::Base64(_))));
    assert!(matches!(base64url_decode("-_9"), Err(Error::Base64(_))));
    assert!(matches!(base64url_decode("a"), Err(Error::Base64(_))));
}

#[test]
fn token_needs_three_segments() {
    for token in ["", "a", "a.b", "a.b.c.d"] {
        assert!(matches!(decode(token), Err(Error::MalformedJwt(_))), "{}", token);
    }
}

#[test]
fn decoded_parts() {
    let header = "{\"alg\":\"none\",\"typ\":\"dbsc+jwt\"}";
    let token = unsigned(header, "{\"jti\":\"c\",\"authorization\":null,\"extra\":[1,2.5]}");
    let proof = decode(&token).unwrap();
    assert_eq!(proof.algorithm, "none");
    assert!(proof.jwk.is_none());
    assert_eq!(proof.challenge, "c");
    assert_eq!(proof.authorization, None);
    assert!(proof.signature.is_empty());
    assert_eq!(proof.signing_input, token[..token.len() - 1].as_bytes());
}

#[test]
fn segments_that_are_no_claims() {
    let header = "{\"alg\":\"none\",\"typ\":\"dbsc+jwt\"}";
    let payload = "{\"jti\":\"c\"}";
    // Not base64url, not JSON, and JSON of the wrong shape.
    assert!(matches!(decode("*.e30."), Err(Error::Base64(_))));
    assert!(matches!(decode(&unsigned("{", payload)), Err(Error::Json(_))));
    assert!(matches!(decode(&unsigned("7", payload)), Err(Error::Json(_))));
    assert!(matches!(decode(&unsigned(header, "{\"jti\":1}")), Err(Error::Json(_))));
    assert!(matches!(
        decode(&unsigned(header, "{\"jti\":\"a\",\"jti\":\"b\"}")),
        Err(Error::Json(_))
    ));
    assert!(matches!(decode(&unsigned("{\"typ\":\"dbsc+jwt\"}", payload)), Err(Error::Json(_))));
    // A trailing comma is refused by the parser, blanks around the text are not.
    assert!(matches!(decode(&unsigned(header, "{\"jti\":\"a\",}")), Err(Error::Json(_))));
    assert!(decode(&unsigned(header, " \n{ \"jti\" : \"a\" }\t")).is_ok());
    // The signature segment is read as base64url too.
    let bad = format!("{}*", unsigned(header, payload));
    assert!(matches!(decode(&bad), Err(Error::Base64(_))));
}

#[test]
fn missing_jti_is_malformed() {
    let header = "{\"alg\":\"none\",\"typ\":\"dbsc+jwt\"}";
    for payload in ["{}", "{\"jti\":null}", "[null,null]"] {
        assert_eq!(message(&unsigned(header, payload)), "malformed JWT: missing jti claim");
    }
}

#[test]
fn escaped_member_names_and_values() {
    let header = "{\"\\u0061lg\":\"n\\u006fne\",\"typ\":\"dbsc\\u002bjwt\"}";
    let proof = decode(&unsigned(header, "{\"jti\":\"\\ud83d\\ude00\"}")).unwrap();
    assert_eq!(proof.algorithm, "none");
    assert_eq!(proof.challenge, "\u{1f600}");
}

#[test]
fn nesting_counts_from_the_header() {
    let header = |depth: usize| {
        format!(
            "{{\"alg\":\"none\",\"typ\":\"dbsc+jwt\",\"jwk\":{}{}}}",
            "[".repeat(depth),
            "]".repeat(depth)
        )
    };
    assert!(decode(&unsigned(&header(126), "{\"jti\":\"c\"}")).is_ok());
    assert!(matches!(
        decode(&unsigned(&header(127), "{\"jti\":\"c\"}")),
        Err(Error::Json(_))
    ));
}

#[test]
fn claims_in_an_array() {
    let proof = decode(&unsigned("[\"none\",\"dbsc+jwt\",null]", "[\"c\",\"a\"]")).unwrap();
    assert_eq!(proof.algorithm, "none");
    assert_eq!(proof.challenge, "c");
    assert_eq!(proof.authorization.as_deref(), Some("a"));
}

#[test]
fn missing_typ_is_an_invalid_typ() {
    let token = unsigned("{\"alg\":\"none\"}", "{\"jti\":\"c\"}");
    assert!(matches!(decode(&token), Err(Error::InvalidTyp)));
    assert_eq!(message(&token), "invalid typ header, expected \"dbsc+jwt\"");
}

#[test]
fn unknown_algorithm() {
    let token = unsigned("{\"alg\":\"HS256\",\"typ\":\"dbsc+jwt\"}", "{\"jti\":\"c\"}");
    match verify_registration(&token) {
        Err(Error::UnsupportedAlgorithm(a)) => assert_eq!(a, "HS256"),
        _ => panic!("accepted"),
    }
    let (_, jwk) = make_es256_key();
    assert!(matches!(
        verify_refresh(&token, &jwk.to_string()),
        Err(Error::UnsupportedAlgorithm(_))
    ));
}

#[test]
fn keys_that_are_none() {
    let (key, jwk) = make_es256_key();
    let token = sign_es256(&key, None, "dbsc+jwt", "c", None);
    assert!(matches!(verify_refresh(&token, "not json"), Err(Error::Json(_))));
    assert!(matches!(verify_refresh(&token, "[1]"), Err(Error::InvalidKey(_))));
    for missing in ["x", "y"] {
        let mut cut = jwk.clone();
        cut.as_object_mut().unwrap().remove(missing);
        match verify_refresh(&token, &cut.to_string()) {
            Err(Error::InvalidKey(m)) => assert_eq!(m, format!("missing JWK field `{}`", missing)),
            _ => panic!("accepted"),
        }
    }
    let mut off_curve = jwk.clone();
    off_curve["y"] = off_curve["x"].clone();
    match verify_refresh(&token, &off_curve.to_string()) {
        Err(Error::InvalidKey(m)) => assert_eq!(m, "signature error"),
        _ => panic!("accepted"),
    }
    let mut short = jwk.clone();
    short["x"] = Value::String(base64url_encode(&[1; 31]));
    match verify_refresh(&token, &short.to_string()) {
        Err(Error::InvalidKey(m)) => assert_eq!(m, "P-256 coordinates must be 32 bytes"),
        _ => panic!("accepted"),
    }
    let mut other = jwk.clone();
    other["crv"] = Value::String("P-384".into());
    match verify_refresh(&token, &other.to_string()) {
        Err(Error::InvalidKey(m)) => assert_eq!(m, "expected EC/P-256 JWK"),
        _ => panic!("accepted"),
    }
}

#[test]
fn signature_of_a_wrong_length() {
    let (key, jwk) = make_es256_key();
    let token = sign_es256(&key, None, "dbsc+jwt", "c", None);
    assert_eq!(verify_refresh(&token, &jwk.to_string()).unwrap().signature.len(), 64);
    let cut = &token[..token.len() - 2];
    assert!(matches!(verify_refresh(cut, &jwk.to_string()), Err(Error::InvalidSignature)));
}

#[test]
fn rsa_keys_out_of_range() {
    let (key, jwk) = make_rs256_key(0);
    let token = sign_rs256(&key, None, "dbsc+jwt", "c");
    let fault = |n: Option<&[u8]>, e: Option<&[u8]>| {
        let mut changed = jwk.clone();
        if let Some(n) = n {
            changed["n"] = Value::String(base64url_encode(n));
        }
        if let Some(e) = e {
            changed["e"] = Value::String(base64url_encode(e));
        }
        match verify_refresh(&token, &changed.to_string()) {
            Err(Error::InvalidKey(m)) => m,
            _ => panic!("accepted"),
        }
    };
    assert_eq!(fault(Some(&[1; 513]), None), "modulus too large");
    assert_eq!(fault(None, Some(&[1; 9])), "public exponent too large");
    assert_eq!(fault(None, Some(&[2, 0, 0, 0, 1])), "public exponent too large");
    assert_eq!(fault(Some(&[0x10; 256]), None), "invalid modulus");
    assert_eq!(fault(Some(&[1, 1]), None), "invalid modulus");
    assert_eq!(fault(None, Some(&[4])), "invalid exponent");
    assert_eq!(fault(None, Some(&[1])), "public exponent too small");
}

#[test]
fn decoded_proofs_are_checked_on_their_own() {
    let (key, jwk) = make_es256_key();
    let proof = decode(&sign_es256(&key, Some(&jwk), "dbsc+jwt", "c", None)).unwrap();
    assert!(check_registration(&proof).is_ok());
    assert!(matches!(
        check_refresh(&proof, &jwk.to_string()),
        Err(Error::InvalidJwkClaim(_))
    ));
    let mut stripped = proof.clone();
    stripped.jwk = None;
    assert!(check_refresh(&stripped, &jwk.to_string()).is_ok());
    assert!(matches!(check_registration(&stripped), Err(Error::InvalidJwkClaim(_))));
    let jwk = proof.jwk.unwrap();
    assert!(verify_signature("ES256", &jwk, &proof.signing_input, &proof.signature).is_ok());
    assert!(matches!(
        verify_signature("ES256", &jwk, b"else", &proof.signature),
        Err(Error::InvalidSignature)
    ));
    assert!(matches!(
        verify_signature("RS256", &jwk, &proof.signing_input, &proof.signature),
        Err(Error::InvalidKey(_))
    ));
}

#[test]
fn registered_key_with_other_members_still_verifies() {
    let (key, mut jwk) = make_es256_key();
    jwk["ext"] = Value::Bool(true);
    jwk["iat"] = Value::from(1_700_000_000u64);
    jwk["x5c"] = Value::Array(vec![Value::Null, Value::from(-7)]);
    jwk["key_ops"] = Value::Array(vec![Value::String("verify".into())]);
    let registration = sign_es256(&key, Some(&jwk), "dbsc+jwt", "c", None);
    let registered = verify_registration(&registration).unwrap().jwk.unwrap().json;
    assert_eq!(registered, jwk.to_string());
    let refresh = sign_es256(&key, None, "dbsc+jwt", "d", None);
    assert_eq!(verify_refresh(&refresh, &registered).unwrap().challenge, "d");
}

#[test]
fn error_messages() {
    assert_eq!(Error::MalformedJwt("m".into()).message(), "malformed JWT: m");
    assert_eq!(Error::UnsupportedAlgorithm("a".into()).message(), "unsupported algorithm: a");
    assert_eq!(Error::InvalidJwkClaim("m".into()).message(), "invalid jwk claim: m");
    assert_eq!(Error::InvalidKey("m".into()).message(), "invalid key: m");
    assert_eq!(Error::InvalidSignature.message(), "signature verification failed");
    assert_eq!(Error::Store("m".into()).message(), "store error: m");
    assert_eq!(
        base64url_decode("*").unwrap_err().message(),
        "base64 error: Invalid symbol 42, offset 0."
    );
    assert_eq!(
        verify_refresh("e30.e30.", "{").unwrap_err().message(),
        "JSON error: missing field `alg`"
    );
    let broken = serde_json::from_str::<Value>("{").unwrap_err();
    assert_eq!(
        Error::from(broken).message(),
        "JSON error: EOF while parsing an object at line 1 column 1"
    );
}
