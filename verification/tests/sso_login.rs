use base64::engine::general_purpose::URL_SAFE_NO_PAD;
use base64::Engine;
use set_desto::auth::{
    access_token_payload, authenticated_character, authorize_query, build_authorize_url,
    callback_from_pairs, callback_page, character_id_from_subject, character_name_from_subject,
    claims_from_json, http_response_text, parse_scope_claim, pkce_challenge, random_url_token,
    read_callback, redirect_uri, request_target, AccessTokenClaims, AuthError, JsonValue,
    SsoConfig, SsoMetadata, TokenResponse, DEFAULT_REDIRECT_URI,
};

fn to_json_value(value: &serde_json::Value) -> JsonValue {
    match value {
        serde_json::Value::Null => JsonValue::Null,
        serde_json::Value::Bool(b) => JsonValue::Bool(*b),
        serde_json::Value::Number(_) => JsonValue::Number,
        serde_json::Value::String(s) => JsonValue::Str(s.clone()),
        serde_json::Value::Array(items) => JsonValue::Array(items.iter().map(to_json_value).collect()),
        serde_json::Value::Object(members) => JsonValue::Object(
            members
                .iter()
                .map(|(k, v)| (k.clone(), to_json_value(v)))
                .collect(),
        ),
    }
}

fn unsigned_test_token(payload_json: &str) -> String {
    let header = URL_SAFE_NO_PAD.encode(br#"{"alg":"none"}"#);
    let payload = URL_SAFE_NO_PAD.encode(payload_json);
    format!("{header}.{payload}.")
}

fn parse_access_token_claims(token: &str) -> Result<AccessTokenClaims, String> {
    let bytes = access_token_payload(token).map_err(|e| e.message())?;
    let value: serde_json::Value = serde_json::from_slice(&bytes).map_err(|e| e.to_string())?;
    claims_from_json(&to_json_value(&value)).map_err(|e| e.message())
}

#[test]
fn parses_access_token_with_scope_array() {
    let token = unsigned_test_token(
        r#"{"sub":"CHARACTER:EVE:2112625428","name":"Test Pilot","scp":["esi-ui.write_waypoint.v1"]}"#,
    );

    let claims = parse_access_token_claims(&token).expect("claims should parse");

    assert_eq!(claims.sub, "CHARACTER:EVE:2112625428");
    assert_eq!(claims.name, "Test Pilot");
    assert_eq!(claims.scp, vec!["esi-ui.write_waypoint.v1"]);
}

#[test]
fn parses_access_token_with_scope_string() {
    let token = unsigned_test_token(
        r#"{"sub":"CHARACTER:EVE:2112625428","name":"Test Pilot","scp":"esi-ui.write_waypoint.v1 esi-search.search_structures.v1"}"#,
    );

    let claims = parse_access_token_claims(&token).expect("claims should parse");

    assert_eq!(
        claims.scp,
        vec!["esi-ui.write_waypoint.v1", "esi-search.search_structures.v1"]
    );
}

#[test]
fn falls_back_to_character_id_when_name_is_missing() {
    let token = unsigned_test_token(r#"{"sub":"CHARACTER:EVE:2112625428","scp":[]}"#);

    let claims = parse_access_token_claims(&token).expect("claims should parse");

    assert_eq!(claims.name, "Character 2112625428");
}

#[test]
fn tokens_without_a_payload_part_are_not_jwts() {
    assert!(matches!(access_token_payload("abc"), Err(AuthError::NotJwt)));
    assert!(matches!(access_token_payload("abc.%%%.x"), Err(AuthError::PayloadNotBase64)));
}

#[test]
fn payload_is_base64_decoded() {
    let token = unsigned_test_token("{}");
    assert_eq!(access_token_payload(&token).ok(), Some(b"{}".to_vec()));
}

#[test]
fn claims_need_a_string_subject() {
    let payload = JsonValue::Object(vec![("sub".to_string(), JsonValue::Number)]);
    assert!(matches!(claims_from_json(&payload), Err(AuthError::MissingSubject)));
    assert!(matches!(claims_from_json(&JsonValue::Null), Err(AuthError::MissingSubject)));
}

#[test]
fn scope_claims_must_be_strings() {
    let mixed = JsonValue::Array(vec![JsonValue::Str("a".to_string()), JsonValue::Number]);
    assert!(matches!(parse_scope_claim(Some(&mixed)), Err(AuthError::NonStringScope)));
    assert!(matches!(
        parse_scope_claim(Some(&JsonValue::Bool(true))),
        Err(AuthError::UnexpectedScopeType)
    ));
    assert_eq!(parse_scope_claim(None).ok(), Some(Vec::new()));
    assert_eq!(
        parse_scope_claim(Some(&JsonValue::Str("  a   b ".to_string()))).ok(),
        Some(vec!["a".to_string(), "b".to_string()])
    );
}

#[test]
fn subjects_name_the_character() {
    assert_eq!(character_id_from_subject("CHARACTER:EVE:2112625428").ok(), Some(2112625428));
    assert!(matches!(
        character_id_from_subject("CORPORATION:EVE:1"),
        Err(AuthError::SubjectNotCharacter)
    ));
    assert!(matches!(
        character_id_from_subject("CHARACTER:EVE:abc"),
        Err(AuthError::InvalidCharacterId)
    ));
    assert_eq!(character_name_from_subject("CHARACTER:EVE:7"), "Character 7");
    assert_eq!(character_name_from_subject("someone"), "Unknown Character");
}

#[test]
fn login_keeps_the_token_and_claims() {
    let character = authenticated_character(
        TokenResponse {
            access_token: "access".to_string(),
            refresh_token: "refresh".to_string(),
            expires_in: 1199,
        },
        AccessTokenClaims {
            sub: "CHARACTER:EVE:42".to_string(),
            name: "Test Pilot".to_string(),
            scp: vec!["esi-ui.write_waypoint.v1".to_string()],
        },
    )
    .ok()
    .expect("character should authenticate");
    assert_eq!(character.character_id, 42);
    assert_eq!(character.character_name, "Test Pilot");
    assert_eq!(character.refresh_token, "refresh");
    assert_eq!(character.expires_in, 1199);
}

#[test]
fn sso_settings_need_a_client_id() {
    assert!(matches!(SsoConfig::from_env_values(None, None), Err(AuthError::MissingClientId)));
    let config = SsoConfig::from_env_values(Some("abc".to_string()), None)
        .ok()
        .expect("config");
    assert_eq!(config.redirect_uri, DEFAULT_REDIRECT_URI);
    let err = SsoConfig::from_client_id("   ").err().expect("error");
    assert_eq!(err.message(), "EVE application Client ID required");
    let config = SsoConfig::from_client_id(" abc ").ok().expect("config");
    assert_eq!(config.client_id, "abc");
    assert_eq!(redirect_uri(), "http://127.0.0.1:18421/callback");
}

#[test]
fn authorize_url_carries_the_query_in_order() {
    let config = SsoConfig {
        client_id: "abc".to_string(),
        redirect_uri: DEFAULT_REDIRECT_URI.to_string(),
    };
    let metadata = SsoMetadata {
        authorization_endpoint: "https://login.eveonline.com/v2/oauth/authorize".to_string(),
        token_endpoint: "https://login.eveonline.com/v2/oauth/token".to_string(),
    };
    let pairs = authorize_query(&config, "xyz", "ch");
    assert_eq!(pairs.len(), 7);
    assert_eq!(
        pairs[3],
        (
            "scope".to_string(),
            "esi-ui.write_waypoint.v1 esi-location.read_location.v1 esi-search.search_structures.v1 esi-universe.read_structures.v1".to_string()
        )
    );
    let url = build_authorize_url(&metadata, &config, "xyz", "ch").ok().expect("url");
    assert_eq!(
        url,
        "https://login.eveonline.com/v2/oauth/authorize?response_type=code&client_id=abc&redirect_uri=http%3A%2F%2F127.0.0.1%3A18421%2Fcallback&scope=esi-ui.write_waypoint.v1+esi-location.read_location.v1+esi-search.search_structures.v1+esi-universe.read_structures.v1&state=xyz&code_challenge=ch&code_challenge_method=S256"
    );
    let bad = SsoMetadata {
        authorization_endpoint: "not a url".to_string(),
        token_endpoint: String::new(),
    };
    assert!(matches!(
        build_authorize_url(&bad, &config, "xyz", "ch"),
        Err(AuthError::InvalidAuthorizationEndpoint)
    ));
}

#[test]
fn callback_reads_code_when_state_matches() {
    let request = "GET /callback?code=a%2Bb&state=xyz HTTP/1.1\r\nHost: 127.0.0.1\r\n\r\n";
    let callback = read_callback(request, "xyz").ok().expect("callback");
    assert_eq!(callback.code, "a+b");
    assert!(matches!(read_callback(request, "other"), Err(AuthError::StateMismatch)));
    assert!(matches!(
        read_callback("GET /callback?state=xyz HTTP/1.1\r\n", "xyz"),
        Err(AuthError::CallbackWithoutCode)
    ));
    assert!(matches!(
        read_callback("GET /callback?code=1 HTTP/1.1\r\n", "xyz"),
        Err(AuthError::CallbackWithoutState)
    ));
    match read_callback("GET /callback?error=access_denied&state=xyz HTTP/1.1\r\n", "xyz") {
        Err(AuthError::SsoReturnedError(e)) => assert_eq!(e, "access_denied"),
        _ => panic!("expected an SSO error"),
    }
}

#[test]
fn callback_request_needs_a_target() {
    assert!(matches!(read_callback("", "x"), Err(AuthError::CallbackEmpty)));
    assert!(matches!(read_callback("GET\r\n", "x"), Err(AuthError::CallbackWithoutUrl)));
    assert_eq!(
        request_target("GET /cb?x=1 HTTP/1.1").ok(),
        Some("/cb?x=1".chars().collect())
    );
}

#[test]
fn callback_pairs_use_the_last_value() {
    let pairs = vec![
        ("code".to_string(), "first".to_string()),
        ("state".to_string(), "s".to_string()),
        ("code".to_string(), "second".to_string()),
    ];
    assert_eq!(callback_from_pairs(&pairs, "s").ok().map(|c| c.code), Some("second".to_string()));
}

#[test]
fn callback_page_and_response() {
    assert_eq!(
        callback_page(&Err(AuthError::StateMismatch)),
        "Set Desto login failed. You can close this tab."
    );
    assert_eq!(
        http_response_text("hé"),
        "HTTP/1.1 200 OK\r\nContent-Type: text/plain; charset=utf-8\r\nContent-Length: 3\r\nConnection: close\r\n\r\nhé"
    );
}

#[test]
fn pkce_challenge_is_the_sha256_in_url_safe_base64() {
    assert_eq!(
        pkce_challenge("dBjftJeZ4CVP-mB92K27uhbUJU1p1r_wW1gFWFOEjXk"),
        "E9Melhoa2OwvFrEMTJguCHaoeK1t8URWbuGJSstw-cM"
    );
}

#[test]
fn random_tokens_have_the_encoded_length() {
    let a = random_url_token(32).expect("random bytes");
    let b = random_url_token(32).expect("random bytes");
    assert_eq!(a.len(), 43);
    assert_ne!(a, b);
    assert!(a.chars().all(|c| c.is_ascii_alphanumeric() || c == '-' || c == '_'));
}
