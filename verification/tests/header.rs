use dbsc::header::{
    challenge_header, parse_quoted, parse_session_id, parse_session_response, parse_session_skipped,
    registration_header, session_id_header, session_response_header, session_skipped_header,
    SkipReason, SkippedEntry,
};


#[test]
fn registration_header_full() {
    let h = registration_header(
        &["ES256", "RS256"],
        Some("/dbsc/register"),
        Some("cv"),
        Some("ac"),
        Some("pk"),
        Some("psid"),
        Some("https://idp.example"),
    );
    assert_eq!(
        h,
        "(ES256 RS256);path=\"/dbsc/register\";challenge=\"cv\";authorization=\"ac\";provider_key=\"pk\";provider_session_id=\"psid\";provider_url=\"https://idp.example\""
    );
}

#[test]
fn registration_header_minimal() {
    let h = registration_header(&["ES256"], None, Some("cv"), None, None, None, None);
    assert_eq!(h, "(ES256);challenge=\"cv\"");
}

#[test]
fn challenge_and_simple_headers() {
    assert_eq!(challenge_header("cv", "sid"), "\"cv\";id=\"sid\"");
    assert_eq!(session_response_header("jwt.token.here"), "\"jwt.token.here\"");
    assert_eq!(session_id_header("id"), "\"id\"");
}

#[test]
fn parse_response_roundtrip() {
    let h = session_response_header("abc.def.ghi");
    assert_eq!(parse_session_response(&h).as_deref(), Some("abc.def.ghi"));
}

#[test]
fn parse_id_roundtrip() {
    let h = session_id_header("sid-123");
    assert_eq!(parse_session_id(&h).as_deref(), Some("sid-123"));
}

#[test]
fn parse_rejects_unquoted() {
    assert_eq!(parse_session_response("not-quoted"), None);
    assert_eq!(parse_session_response("\"ok\" extra"), None);
}

#[test]
fn parse_escaped() {
    let h = session_response_header("a\\\"b");
    assert_eq!(parse_session_response(&h).as_deref(), Some("a\\\"b"));
}

#[test]
fn parse_quoted_escaped_quotes_and_backslash() {
    // Raw header text: "a\"b\\c" (quoted, escaped quote, escaped backslash).
    assert_eq!(parse_quoted(r#""a\"b\\c""#).as_deref(), Some("a\"b\\c"));
    // Unterminated escape or string fails.
    assert_eq!(parse_quoted("\"abc\\"), None);
    assert_eq!(parse_quoted("\"abc"), None);
}

#[test]
fn registration_header_escapes_special_chars() {
    let h = registration_header(
        &["ES256"],
        Some("/reg"),
        Some("cha\"lle\\nge"),
        None,
        None,
        None,
        None,
    );
    assert_eq!(h, "(ES256);path=\"/reg\";challenge=\"cha\\\"lle\\\\nge\"");
}

#[test]
fn challenge_header_escapes_and_roundtrips() {
    let h = challenge_header("va\"l", "s\\id");
    assert_eq!(h, "\"va\\\"l\";id=\"s\\\\id\"");
    // The value part parses back to the original.
    let value_part = h.split(';').next().unwrap();
    assert_eq!(parse_quoted(value_part).as_deref(), Some("va\"l"));
}

#[test]
fn skipped_roundtrip() {
    let entries = vec![
        SkippedEntry {
            reason: SkipReason::Unreachable,
            session_id: "123".into(),
        },
        SkippedEntry {
            reason: SkipReason::QuotaExceeded,
            session_id: "456".into(),
        },
    ];
    let h = session_skipped_header(&entries);
    assert_eq!(
        h,
        "unreachable;session_identifier=\"123\", quota_exceeded;session_identifier=\"456\""
    );
    assert_eq!(parse_session_skipped(&h), entries);
}

#[test]
fn skipped_mixed_valid_invalid() {
    let h = "unreachable;session_identifier=\"a\", bogus_token;session_identifier=\"b\", \
             server_error, quota_exceeded;session_identifier=\"d\"";
    let got = parse_session_skipped(h);
    assert_eq!(
        got,
        vec![
            SkippedEntry {
                reason: SkipReason::Unreachable,
                session_id: "a".into()
            },
            SkippedEntry {
                reason: SkipReason::QuotaExceeded,
                session_id: "d".into()
            },
        ]
    );
}

#[test]
fn empty_parameters_are_left_out() {
    let h = registration_header(&[], Some(""), None, Some(""), None, None, Some("u"));
    assert_eq!(h, "();provider_url=\"u\"");
}

#[test]
fn quoted_text_ignores_surrounding_whitespace() {
    assert_eq!(parse_quoted(" \t\"a b\"\u{3000} ").as_deref(), Some("a b"));
    assert_eq!(parse_quoted("\"\"").as_deref(), Some(""));
    assert_eq!(parse_quoted(""), None);
    assert_eq!(parse_quoted("\""), None);
    assert_eq!(parse_session_id(" \"x\" ").as_deref(), Some("x"));
    assert_eq!(parse_session_id("x"), None);
}

#[test]
fn backslash_stands_before_quotes_and_backslashes_only() {
    assert_eq!(parse_quoted(r#""a\\n\"""#).as_deref(), Some("a\\n\""));
    assert_eq!(parse_quoted(r#""a\n""#), None);
    assert_eq!(parse_session_response(r#""a\ b""#), None);
    assert_eq!(parse_session_id(r#""\""#), None);
    assert_eq!(parse_quoted("\"\u{e9}\\\u{1f600}\""), None);
    assert_eq!(parse_quoted("\"\u{e9}\u{1f600}\"").as_deref(), Some("\u{e9}\u{1f600}"));
}

#[test]
fn skip_reason_tokens() {
    let reasons = [SkipReason::Unreachable, SkipReason::ServerError, SkipReason::QuotaExceeded];
    let tokens = ["unreachable", "server_error", "quota_exceeded"];
    for (reason, token) in reasons.iter().zip(tokens) {
        assert_eq!(reason.as_token(), token);
        assert_eq!(SkipReason::from_token(token), Some(*reason));
    }
    assert_eq!(SkipReason::from_token("Unreachable"), None);
    assert_eq!(SkipReason::from_token(""), None);
}

#[test]
fn skipped_parameters_in_any_order() {
    let got = parse_session_skipped("server_error;x=1; session_identifier = \"q\";y");
    assert_eq!(
        got,
        vec![SkippedEntry { reason: SkipReason::ServerError, session_id: "q".into() }]
    );
    assert_eq!(parse_session_skipped(""), vec![]);
    assert_eq!(parse_session_skipped("unreachable;session_identifier=q"), vec![]);
    assert_eq!(session_skipped_header(&[]), "");
}

#[test]
fn separators_inside_quoted_strings_are_text() {
    let ids = ["a,b", "a;b", ",", ";session_identifier=\"x\"", "\\\",;\\", "q\", unreachable", "plain"];
    for id in ids {
        let entries = vec![
            SkippedEntry { reason: SkipReason::Unreachable, session_id: id.into() },
            SkippedEntry { reason: SkipReason::ServerError, session_id: "next".into() },
        ];
        assert_eq!(parse_session_skipped(&session_skipped_header(&entries)), entries);
    }
    assert_eq!(
        parse_session_skipped("unreachable;session_identifier=\"a,b\""),
        vec![SkippedEntry { reason: SkipReason::Unreachable, session_id: "a,b".into() }]
    );
    // A string that is not closed takes the rest of the header with it.
    assert_eq!(
        parse_session_skipped(
            "server_error;session_identifier=\"a\", unreachable;session_identifier=\"b, \
             quota_exceeded;session_identifier=c"
        ),
        vec![SkippedEntry { reason: SkipReason::ServerError, session_id: "a".into() }]
    );
}

#[test]
fn last_session_identifier_counts() {
    let h = "unreachable;session_identifier=\"a\";session_identifier=\"b\"";
    assert_eq!(
        parse_session_skipped(h),
        vec![SkippedEntry { reason: SkipReason::Unreachable, session_id: "b".into() }]
    );
    assert_eq!(parse_session_skipped("unreachable;session_identifier=\"a\";session_identifier=b"), vec![]);
}
