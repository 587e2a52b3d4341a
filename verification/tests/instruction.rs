use dbsc::instruction::SessionInstructionRepr;
use dbsc::{ScopeRule, SessionCredential, SessionInstruction, SessionScope};
use serde_json::Value;

fn text(v: &Value, key: &str) -> Option<String> {
    v.get(key).map(|x| x.as_str().unwrap().to_string())
}

fn rule_of(v: &Value) -> ScopeRule {
    ScopeRule {
        rule_type: text(v, "type").unwrap(),
        domain: text(v, "domain"),
        path: text(v, "path"),
    }
}

fn credential_of(v: &Value) -> SessionCredential {
    SessionCredential {
        cred_type: text(v, "type").unwrap(),
        name: text(v, "name").unwrap(),
        attributes: text(v, "attributes"),
    }
}

/// Read an instruction from its JSON text.
fn parse(json: &str) -> SessionInstruction {
    let v: Value = serde_json::from_str(json).unwrap();
    SessionInstruction::from(SessionInstructionRepr {
        continue_session: v["continue"].as_bool().unwrap(),
        session_identifier: text(&v, "session_identifier"),
        refresh_url: text(&v, "refresh_url"),
        scope: v.get("scope").map(|s| SessionScope {
            origin: text(s, "origin"),
            include_site: s["include_site"].as_bool().unwrap(),
            scope_specification: match s.get("scope_specification") {
                Some(rules) => rules.as_array().unwrap().iter().map(rule_of).collect(),
                None => vec![],
            },
        }),
        credentials: v
            .get("credentials")
            .map(|c| c.as_array().unwrap().iter().map(credential_of).collect()),
        allowed_refresh_initiators: match v.get("allowed_refresh_initiators") {
            Some(list) => {
                list.as_array().unwrap().iter().map(|x| x.as_str().unwrap().to_string()).collect()
            }
            None => vec![],
        },
    })
}

#[test]
fn terminate_serializes_minimally() {
    let json = SessionInstruction::terminate().to_json_string().unwrap();
    assert_eq!(json, "{\"continue\":false}");
}

#[test]
fn full_instruction_keys() {
    let instr = SessionInstruction {
        session_identifier: "sid".into(),
        refresh_url: Some("/dbsc/refresh".into()),
        continue_session: true,
        scope: SessionScope {
            origin: Some("https://example.com".into()),
            include_site: false,
            scope_specification: vec![
                ScopeRule::include_rule(None, Some("/app".into())),
                ScopeRule::exclude(None, Some("/app/static".into())),
            ],
        },
        credentials: vec![SessionCredential::cookie("auth_cookie", None)],
        allowed_refresh_initiators: vec![],
    };
    let json = instr.to_json_string().unwrap();
    let v: serde_json::Value = serde_json::from_str(&json).unwrap();
    assert_eq!(v["session_identifier"], "sid");
    assert_eq!(v["refresh_url"], "/dbsc/refresh");
    assert_eq!(v["continue"], true);
    assert_eq!(v["scope"]["origin"], "https://example.com");
    assert_eq!(v["scope"]["include_site"], false);
    assert_eq!(v["scope"]["scope_specification"][0]["type"], "include");
    assert_eq!(v["scope"]["scope_specification"][1]["type"], "exclude");
    assert_eq!(v["credentials"][0]["type"], "cookie");
    assert_eq!(v["credentials"][0]["name"], "auth_cookie");
    // empty allowed_refresh_initiators omitted
    assert!(v.get("allowed_refresh_initiators").is_none());
}

#[test]
fn refresh_url_omitted_when_none() {
    let instr = SessionInstruction {
        session_identifier: "sid".into(),
        refresh_url: None,
        continue_session: true,
        scope: SessionScope::default(),
        credentials: vec![],
        allowed_refresh_initiators: vec![],
    };
    let v: serde_json::Value = serde_json::from_str(&instr.to_json_string().unwrap()).unwrap();
    assert!(v.get("refresh_url").is_none());
}

#[test]
fn terminate_roundtrip() {
    let instr: SessionInstruction = parse("{\"continue\":false}");
    assert!(!instr.continue_session);
}

#[test]
fn full_instruction_snapshot() {
    let instr = SessionInstruction {
        session_identifier: "sess-42".into(),
        refresh_url: Some("https://example.com/dbsc/refresh".into()),
        continue_session: true,
        scope: SessionScope {
            origin: Some("https://example.com".into()),
            include_site: true,
            scope_specification: vec![
                ScopeRule::include_rule(Some("example.com".into()), Some("/app".into())),
                ScopeRule::exclude(None, Some("/app/static".into())),
            ],
        },
        credentials: vec![
            SessionCredential::cookie("auth", Some("SameSite=Lax".into())),
            SessionCredential::cookie("csrf", None),
        ],
        allowed_refresh_initiators: vec!["https://example.com".into()],
    };
    let json = instr.to_json_string().unwrap();
    let expected = r#"{"continue":true,"session_identifier":"sess-42","refresh_url":"https://example.com/dbsc/refresh","scope":{"origin":"https://example.com","include_site":true,"scope_specification":[{"type":"include","domain":"example.com","path":"/app"},{"type":"exclude","path":"/app/static"}]},"credentials":[{"type":"cookie","name":"auth","attributes":"SameSite=Lax"},{"type":"cookie","name":"csrf"}],"allowed_refresh_initiators":["https://example.com"]}"#;
    assert_eq!(json, expected);
    // And it parses back to the same value.
    let parsed: SessionInstruction = parse(&json);
    assert_eq!(parsed, instr);
}

#[test]
fn text_is_escaped_as_json() {
    let mut instr = SessionInstruction::terminate();
    instr.continue_session = true;
    instr.session_identifier = "q\"b\\s/\u{8}\t\n\u{c}\r\u{0}\u{1f}\u{7f}\u{e9}\u{1f600}".into();
    let json = instr.to_json_string().unwrap();
    assert_eq!(
        json,
        "{\"continue\":true,\"session_identifier\":\"q\\\"b\\\\s/\\b\\t\\n\\f\\r\\u0000\\u001f\u{7f}\u{e9}\u{1f600}\",\"scope\":{\"include_site\":false},\"credentials\":[]}"
    );
    assert_eq!(parse(&json), instr);
}

#[test]
fn ended_session_leaves_nothing_else_in_the_text() {
    let mut instr = SessionInstruction::terminate();
    instr.session_identifier = "sid".into();
    instr.refresh_url = Some("/r".into());
    instr.allowed_refresh_initiators = vec!["https://a".into()];
    assert_eq!(instr.to_json_string().unwrap(), "{\"continue\":false}");
    let repr = SessionInstructionRepr::from(instr);
    assert_eq!(SessionInstruction::from(repr), SessionInstruction::terminate());
}

#[test]
fn representation_keeps_a_continuing_instruction() {
    let mut instr = SessionInstruction::terminate();
    instr.continue_session = true;
    instr.session_identifier = "sid".into();
    instr.credentials = vec![SessionCredential::cookie("c", Some("Secure".into()))];
    let repr = SessionInstructionRepr::from(instr.clone());
    assert_eq!(repr.session_identifier.as_deref(), Some("sid"));
    assert_eq!(SessionInstruction::from(repr), instr);
}

#[test]
fn different_instructions_have_different_texts() {
    let names = ["", "\n", "\\n", "\u{1}", "\\u0001", "\"", "\\\"", "a\",\"b", "a"];
    let mut texts = vec![];
    for name in names {
        let mut instr = SessionInstruction::terminate();
        instr.continue_session = true;
        instr.session_identifier = name.into();
        texts.push(instr.to_json_string().unwrap());
        instr.session_identifier = "a".into();
        instr.refresh_url = Some(name.into());
        texts.push(instr.to_json_string().unwrap());
        instr.refresh_url = None;
        instr.allowed_refresh_initiators = vec![name.into()];
        texts.push(instr.to_json_string().unwrap());
        instr.allowed_refresh_initiators = vec![];
        instr.scope.origin = Some(name.into());
        texts.push(instr.to_json_string().unwrap());
    }
    for i in 0..texts.len() {
        for j in 0..i {
            assert_ne!(texts[i], texts[j]);
        }
    }
}
