//! EVE SSO with PKCE: the settings of a login, the authorisation request,
//! the browser's callback, the claims inside an access token and the
//! character they name.
//!
//! The application does the network and socket work and parses JSON; this
//! module decides what the pieces mean.

use vstd::prelude::*;
use vstd::string::StringSliceAdditionalSpecFns;
use base64::Engine;
use rand::RngCore;
use sha2::Digest;
use crate::text::{
    chars_of, decimal, lines, lines_of, parse_u64, parse_u64_spec, push_all, push_decimal, push_str,
    split_chars, split_on, split_whitespace_chars, string_of, views, words,
};

verus! {

/// Where EVE SSO sends the browser back to when nothing else is set.
pub const DEFAULT_REDIRECT_URI: &'static str = "http://127.0.0.1:18421/callback";

/// Where EVE SSO publishes its endpoints.
pub const METADATA_URL: &'static str = "https://login.eveonline.com/.well-known/oauth-authorization-server";

/// How long a login waits for the browser.
pub const LOGIN_TIMEOUT_SECONDS: u64 = 300;

/// The scope that lets the app set autopilot waypoints.
pub const SCOPE_WRITE_WAYPOINT: &'static str = "esi-ui.write_waypoint.v1";

/// The scopes a login asks for, separated by spaces: setting waypoints,
/// reading the character's location, searching player structures and
/// reading their details.
pub const REQUESTED_SCOPES: &'static str =
    "esi-ui.write_waypoint.v1 esi-location.read_location.v1 esi-search.search_structures.v1 esi-universe.read_structures.v1";

/// The prefix of the subject of a character's access token.
pub const CHARACTER_SUBJECT_PREFIX: &'static str = "CHARACTER:EVE:";

/// The client and redirect address of a login.
#[derive(Clone, Debug)]
pub struct SsoConfig {
    pub client_id: String,
    pub redirect_uri: String,
}

/// A character after a successful login.
#[derive(Debug)]
pub struct AuthenticatedCharacter {
    pub character_id: u64,
    pub character_name: String,
    pub scopes: Vec<String>,
    pub access_token: String,
    pub refresh_token: String,
    pub expires_in: u64,
}

/// The endpoints EVE SSO publishes.
#[derive(Clone, Debug)]
pub struct SsoMetadata {
    pub authorization_endpoint: String,
    pub token_endpoint: String,
}

/// What the token endpoint answers.
#[derive(Clone, Debug)]
pub struct TokenResponse {
    pub access_token: String,
    pub refresh_token: String,
    pub expires_in: u64,
}

/// The authorisation code the browser brought back.
#[derive(Clone, Debug)]
pub struct AuthCallback {
    pub code: String,
}

/// The claims of an access token that a login reads.
#[derive(Clone, Debug)]
pub struct AccessTokenClaims {
    pub sub: String,
    pub name: String,
    pub scp: Vec<String>,
}

/// A JSON value; numbers are kept only as the fact that one was there.
pub enum JsonValue {
    Null,
    Bool(bool),
    Number,
    Str(String),
    Array(Vec<JsonValue>),
    Object(Vec<(String, JsonValue)>),
}

/// Why a login step failed.
#[derive(Clone, Debug)]
pub enum AuthError {
    MissingClientId,
    ClientIdRequired,
    CallbackEmpty,
    CallbackWithoutUrl,
    CallbackUrlInvalid,
    SsoReturnedError(String),
    CallbackWithoutState,
    StateMismatch,
    CallbackWithoutCode,
    NotJwt,
    PayloadNotBase64,
    PayloadNotJson,
    MissingSubject,
    NonStringScope,
    UnexpectedScopeType,
    SubjectNotCharacter,
    InvalidCharacterId,
    InvalidAuthorizationEndpoint,
}

pub open spec fn auth_error_text(e: AuthError) -> Seq<char> {
    match e {
        AuthError::MissingClientId => "Set SET_DESTO_EVE_CLIENT_ID to your EVE developer app client ID"@,
        AuthError::ClientIdRequired => "EVE application Client ID required"@,
        AuthError::CallbackEmpty => "Callback request was empty"@,
        AuthError::CallbackWithoutUrl => "Callback request did not include a URL"@,
        AuthError::CallbackUrlInvalid => "Failed to parse EVE SSO callback URL"@,
        AuthError::SsoReturnedError(e) => "EVE SSO returned an error: "@ + e@,
        AuthError::CallbackWithoutState => "EVE SSO callback did not include state"@,
        AuthError::StateMismatch => "EVE SSO callback state did not match"@,
        AuthError::CallbackWithoutCode => "EVE SSO callback did not include code"@,
        AuthError::NotJwt => "EVE SSO access token was not a JWT"@,
        AuthError::PayloadNotBase64 => "Failed to decode EVE SSO access token payload"@,
        AuthError::PayloadNotJson => "Failed to parse EVE SSO access token JSON"@,
        AuthError::MissingSubject => "EVE SSO access token did not include a string sub claim"@,
        AuthError::NonStringScope => "EVE SSO scope array contained a non-string value"@,
        AuthError::UnexpectedScopeType => "EVE SSO access token scp claim had an unexpected type"@,
        AuthError::SubjectNotCharacter => "EVE SSO token subject was not a character"@,
        AuthError::InvalidCharacterId => "Failed to parse EVE character ID from SSO token"@,
        AuthError::InvalidAuthorizationEndpoint => "Invalid EVE SSO authorization endpoint"@,
    }
}

impl AuthError {
    /// The message the error shows.
    pub fn message(&self) -> (r: String)
        ensures
            r@ == auth_error_text(*self),
    {
        match self {
            AuthError::MissingClientId => "Set SET_DESTO_EVE_CLIENT_ID to your EVE developer app client ID".to_string(),
            AuthError::ClientIdRequired => "EVE application Client ID required".to_string(),
            AuthError::CallbackEmpty => "Callback request was empty".to_string(),
            AuthError::CallbackWithoutUrl => "Callback request did not include a URL".to_string(),
            AuthError::CallbackUrlInvalid => "Failed to parse EVE SSO callback URL".to_string(),
            AuthError::SsoReturnedError(e) => {
                let mut out: Vec<char> = Vec::new();
                push_str(&mut out, "EVE SSO returned an error: ");
                push_all(&mut out, &chars_of(e.as_str()));
                string_of(&out)
            },
            AuthError::CallbackWithoutState => "EVE SSO callback did not include state".to_string(),
            AuthError::StateMismatch => "EVE SSO callback state did not match".to_string(),
            AuthError::CallbackWithoutCode => "EVE SSO callback did not include code".to_string(),
            AuthError::NotJwt => "EVE SSO access token was not a JWT".to_string(),
            AuthError::PayloadNotBase64 => "Failed to decode EVE SSO access token payload".to_string(),
            AuthError::PayloadNotJson => "Failed to parse EVE SSO access token JSON".to_string(),
            AuthError::MissingSubject => "EVE SSO access token did not include a string sub claim".to_string(),
            AuthError::NonStringScope => "EVE SSO scope array contained a non-string value".to_string(),
            AuthError::UnexpectedScopeType => "EVE SSO access token scp claim had an unexpected type".to_string(),
            AuthError::SubjectNotCharacter => "EVE SSO token subject was not a character".to_string(),
            AuthError::InvalidCharacterId => "Failed to parse EVE character ID from SSO token".to_string(),
            AuthError::InvalidAuthorizationEndpoint => "Invalid EVE SSO authorization endpoint".to_string(),
        }
    }
}

impl SsoConfig {
    /// The settings from the values of `SET_DESTO_EVE_CLIENT_ID` and
    /// `SET_DESTO_EVE_REDIRECT_URI`: the client ID is required, the
    /// redirect address falls back to the default.
    pub fn from_env_values(client_id: Option<String>, redirect_uri: Option<String>) -> (r: Result<
        SsoConfig,
        AuthError,
    >)
        ensures
            client_id is None ==> r matches Err(AuthError::MissingClientId),
            client_id matches Some(c) ==> r matches Ok(config) && config.client_id@ == c@ && config.redirect_uri@
                == (match redirect_uri {
                Some(u) => u@,
                None => DEFAULT_REDIRECT_URI@,
            }),
    {
        let client_id = match client_id {
            Some(c) => c,
            None => {
                return Err(AuthError::MissingClientId);
            },
        };
        let redirect_uri = match redirect_uri {
            Some(u) => u,
            None => DEFAULT_REDIRECT_URI.to_string(),
        };
        Ok(SsoConfig { client_id, redirect_uri })
    }
}

impl SsoConfig {
    /// The settings for the client ID typed on the ESI tab: trimmed, and
    /// required; the redirect address is the default one.
    pub fn from_client_id(client_id: &str) -> (r: Result<SsoConfig, AuthError>)
        ensures
            crate::text::trim(client_id@).len() == 0 ==> r matches Err(AuthError::ClientIdRequired),
            crate::text::trim(client_id@).len() > 0 ==> (r matches Ok(c) && c.client_id@ == crate::text::trim(
                client_id@,
            ) && c.redirect_uri@ == DEFAULT_REDIRECT_URI@),
    {
        let trimmed = crate::text::trim_chars(&chars_of(client_id));
        if trimmed.len() == 0 {
            return Err(AuthError::ClientIdRequired);
        }
        Ok(SsoConfig { client_id: string_of(&trimmed), redirect_uri: DEFAULT_REDIRECT_URI.to_string() })
    }
}

/// The redirect address a login uses.
pub fn redirect_uri() -> (r: String)
    ensures
        r@ == DEFAULT_REDIRECT_URI@,
{
    DEFAULT_REDIRECT_URI.to_string()
}

// ---------------------------------------------------------------------
// The authorisation request
// ---------------------------------------------------------------------

pub open spec fn pair_views(pairs: Seq<(String, String)>) -> Seq<(Seq<char>, Seq<char>)> {
    pairs.map_values(|p: (String, String)| (p.0@, p.1@))
}

/// The query of the authorisation request, in order.
pub open spec fn authorize_query_spec(
    client_id: Seq<char>,
    redirect_uri: Seq<char>,
    state: Seq<char>,
    code_challenge: Seq<char>,
) -> Seq<(Seq<char>, Seq<char>)> {
    seq![
        ("response_type"@, "code"@),
        ("client_id"@, client_id),
        ("redirect_uri"@, redirect_uri),
        ("scope"@, REQUESTED_SCOPES@),
        ("state"@, state),
        ("code_challenge"@, code_challenge),
        ("code_challenge_method"@, "S256"@),
    ]
}

/// The query pairs of the authorisation request.
pub fn authorize_query(config: &SsoConfig, state: &str, code_challenge: &str) -> (r: Vec<(String, String)>)
    ensures
        pair_views(r@) == authorize_query_spec(config.client_id@, config.redirect_uri@, state@, code_challenge@),
{
    let mut r: Vec<(String, String)> = Vec::new();
    r.push(("response_type".to_string(), "code".to_string()));
    r.push(("client_id".to_string(), config.client_id.clone()));
    r.push(("redirect_uri".to_string(), config.redirect_uri.clone()));
    r.push(("scope".to_string(), REQUESTED_SCOPES.to_string()));
    r.push(("state".to_string(), state.to_string()));
    r.push(("code_challenge".to_string(), code_challenge.to_string()));
    r.push(("code_challenge_method".to_string(), "S256".to_string()));
    assert(pair_views(r@) =~= authorize_query_spec(
        config.client_id@,
        config.redirect_uri@,
        state@,
        code_challenge@,
    ));
    r
}

/// What `url::Url::parse(base)` followed by `append_pair` for each pair
/// of its query gives as text; `None` when `base` is no URL.
pub uninterp spec fn url_with_query_spec(base: Seq<char>, pairs: Seq<(Seq<char>, Seq<char>)>) -> Option<Seq<char>>;

/// Calls `url::Url::parse` on `base` and appends each pair with
/// `query_pairs_mut().append_pair`; the contract claims only that the
/// result is the named function of the arguments.
#[verifier::external_body]
fn url_with_query(base: &str, pairs: &Vec<(String, String)>) -> (r: Option<String>)
    ensures
        match url_with_query_spec(base@, pair_views(pairs@)) {
            Some(u) => r matches Some(s) && s@ == u,
            None => r is None,
        },
{
    let mut url = match url::Url::parse(base) {
        Ok(url) => url,
        Err(_) => return None,
    };
    for (key, value) in pairs.iter() {
        url.query_pairs_mut().append_pair(key, value);
    }
    Some(url.to_string())
}

/// The address the browser opens to log in.
pub fn build_authorize_url(metadata: &SsoMetadata, config: &SsoConfig, state: &str, code_challenge: &str) -> (r:
    Result<String, AuthError>)
    ensures
        match url_with_query_spec(
            metadata.authorization_endpoint@,
            authorize_query_spec(config.client_id@, config.redirect_uri@, state@, code_challenge@),
        ) {
            Some(u) => r matches Ok(s) && s@ == u,
            None => r matches Err(AuthError::InvalidAuthorizationEndpoint),
        },
{
    let pairs = authorize_query(config, state, code_challenge);
    match url_with_query(metadata.authorization_endpoint.as_str(), &pairs) {
        Some(u) => Ok(u),
        None => Err(AuthError::InvalidAuthorizationEndpoint),
    }
}

// ---------------------------------------------------------------------
// The browser's callback
// ---------------------------------------------------------------------

/// The decoded query pairs of a URL, as `url::Url::parse` and
/// `query_pairs` give them; `None` when the text is no URL.
pub uninterp spec fn url_query_pairs_spec(url: Seq<char>) -> Option<Seq<(Seq<char>, Seq<char>)>>;

/// Calls `url::Url::parse` and collects `query_pairs`; the contract claims
/// only that the result is the named function of the text.
#[verifier::external_body]
fn url_query_pairs(url: &str) -> (r: Option<Vec<(String, String)>>)
    ensures
        match url_query_pairs_spec(url@) {
            Some(p) => r matches Some(v) && pair_views(v@) == p,
            None => r is None,
        },
{
    let parsed = match url::Url::parse(url) {
        Ok(parsed) => parsed,
        Err(_) => return None,
    };
    let mut pairs = Vec::new();
    for (key, value) in parsed.query_pairs() {
        pairs.push((key.into_owned(), value.into_owned()));
    }
    Some(pairs)
}

/// The value of the last pair called `key`.
pub open spec fn last_value(pairs: Seq<(Seq<char>, Seq<char>)>, key: Seq<char>) -> Option<Seq<char>>
    decreases pairs.len(),
{
    if pairs.len() == 0 {
        None
    } else if pairs.last().0 == key {
        Some(pairs.last().1)
    } else {
        last_value(pairs.drop_last(), key)
    }
}

/// The code of a callback without an error: present, and with the state
/// the login sent.
pub open spec fn callback_code_spec(pairs: Seq<(Seq<char>, Seq<char>)>, expected_state: Seq<char>) -> Result<
    Seq<char>,
    AuthError,
> {
    match last_value(pairs, "state"@) {
        None => Err(AuthError::CallbackWithoutState),
        Some(s) => if s != expected_state {
            Err(AuthError::StateMismatch)
        } else {
            match last_value(pairs, "code"@) {
                None => Err(AuthError::CallbackWithoutCode),
                Some(c) => Ok(c),
            }
        },
    }
}

/// `r` is what the callback's pairs say.
pub open spec fn callback_result_matches(
    pairs: Seq<(Seq<char>, Seq<char>)>,
    expected_state: Seq<char>,
    r: Result<AuthCallback, AuthError>,
) -> bool {
    match last_value(pairs, "error"@) {
        Some(e) => r matches Err(AuthError::SsoReturnedError(x)) && x@ == e,
        None => match callback_code_spec(pairs, expected_state) {
            Ok(c) => r matches Ok(cb) && cb.code@ == c,
            Err(err) => r matches Err(x) && x == err,
        },
    }
}

fn find_last(pairs: &Vec<(String, String)>, key: &str) -> (r: Option<String>)
    ensures
        match last_value(pair_views(pairs@), key@) {
            Some(v) => r matches Some(s) && s@ == v,
            None => r is None,
        },
{
    let ghost all = pair_views(pairs@);
    let k = chars_of(key);
    let mut i = pairs.len();
    assert(all.take(i as int) =~= all);
    while i > 0
        invariant
            i <= pairs.len(),
            all == pair_views(pairs@),
            k@ == key@,
            last_value(all, key@) == last_value(all.take(i as int), key@),
        decreases i,
    {
        assert(all.take(i as int).drop_last() =~= all.take(i - 1));
        assert(all.take(i as int).last() == (pairs@[i - 1].0@, pairs@[i - 1].1@));
        if crate::text::chars_eq(&chars_of(pairs[i - 1].0.as_str()), &k) {
            return Some(pairs[i - 1].1.clone());
        }
        i = i - 1;
    }
    None
}

/// Decides a callback from its decoded query pairs.
pub fn callback_from_pairs(pairs: &Vec<(String, String)>, expected_state: &str) -> (r: Result<AuthCallback, AuthError>)
    ensures
        callback_result_matches(pair_views(pairs@), expected_state@, r),
{
    let code = find_last(pairs, "code");
    let state = find_last(pairs, "state");
    let error = find_last(pairs, "error");
    if let Some(e) = error {
        return Err(AuthError::SsoReturnedError(e));
    }
    let state = match state {
        Some(s) => s,
        None => {
            return Err(AuthError::CallbackWithoutState);
        },
    };
    if !crate::text::chars_eq(&chars_of(state.as_str()), &chars_of(expected_state)) {
        return Err(AuthError::StateMismatch);
    }
    match code {
        Some(c) => Ok(AuthCallback { code: c }),
        None => Err(AuthError::CallbackWithoutCode),
    }
}

/// The target of an HTTP request: the second word of its first line.
pub open spec fn request_target_spec(request: Seq<char>) -> Result<Seq<char>, AuthError> {
    let ls = lines(request);
    if ls.len() == 0 {
        Err(AuthError::CallbackEmpty)
    } else if words(ls[0]).len() < 2 {
        Err(AuthError::CallbackWithoutUrl)
    } else {
        Ok(words(ls[0])[1])
    }
}

/// The target of the callback request.
pub fn request_target(request: &str) -> (r: Result<Vec<char>, AuthError>)
    ensures
        match request_target_spec(request@) {
            Ok(t) => r matches Ok(v) && v@ == t,
            Err(e) => r matches Err(x) && x == e,
        },
{
    let text = chars_of(request);
    let ls = lines_of(&text);
    if ls.len() == 0 {
        return Err(AuthError::CallbackEmpty);
    }
    let ws = split_whitespace_chars(&ls[0]);
    assert(ls@[0]@ == lines(request@)[0]);
    if ws.len() < 2 {
        return Err(AuthError::CallbackWithoutUrl);
    }
    let target = crate::text::slice_of(&ws[1], 0, ws[1].len());
    assert(ws@[1]@.subrange(0, ws@[1]@.len() as int) =~= ws@[1]@);
    Ok(target)
}

/// The callback URL of a request target.
pub open spec fn callback_url(target: Seq<char>) -> Seq<char> {
    "http://localhost"@ + target
}

/// Reads the browser's callback request: the authorisation code when the
/// state matches, or why not.
pub fn read_callback(request: &str, expected_state: &str) -> (r: Result<AuthCallback, AuthError>)
    ensures
        match request_target_spec(request@) {
            Err(e) => r matches Err(x) && x == e,
            Ok(t) => match url_query_pairs_spec(callback_url(t)) {
                None => r matches Err(AuthError::CallbackUrlInvalid),
                Some(pairs) => callback_result_matches(pairs, expected_state@, r),
            },
        },
{
    let target = request_target(request)?;
    let mut url: Vec<char> = Vec::new();
    push_str(&mut url, "http://localhost");
    push_all(&mut url, &target);
    let url_text = string_of(&url);
    match url_query_pairs(url_text.as_str()) {
        None => Err(AuthError::CallbackUrlInvalid),
        Some(pairs) => callback_from_pairs(&pairs, expected_state),
    }
}

/// The plain-text page the browser shows after the callback.
pub fn callback_page(callback: &Result<AuthCallback, AuthError>) -> (r: &'static str)
    ensures
        callback is Ok ==> r@ == "Set Desto login complete. You can close this tab."@,
        callback is Err ==> r@ == "Set Desto login failed. You can close this tab."@,
{
    match callback {
        Ok(_) => "Set Desto login complete. You can close this tab.",
        Err(_) => "Set Desto login failed. You can close this tab.",
    }
}

/// The HTTP response around a plain-text `body`; its length is counted in
/// bytes.
pub open spec fn http_response_spec(body: &str) -> Seq<char> {
    "HTTP/1.1 200 OK\r\nContent-Type: text/plain; charset=utf-8\r\nContent-Length: "@ + decimal(
        body.len() as nat,
    ) + "\r\nConnection: close\r\n\r\n"@ + body@
}

/// The response written back to the browser.
pub fn http_response_text(body: &str) -> (r: String)
    ensures
        r@ == http_response_spec(body),
{
    let mut out: Vec<char> = Vec::new();
    push_str(&mut out, "HTTP/1.1 200 OK\r\nContent-Type: text/plain; charset=utf-8\r\nContent-Length: ");
    let n = body.len();
    push_decimal(&mut out, n as u64);
    push_str(&mut out, "\r\nConnection: close\r\n\r\n");
    push_str(&mut out, body);
    string_of(&out)
}

// ---------------------------------------------------------------------
// Access tokens
// ---------------------------------------------------------------------

/// The payload part of a JWT: the text between its first and second dot.
pub open spec fn token_payload_spec(token: Seq<char>) -> Option<Seq<char>> {
    let parts = split_on(token, '.');
    if parts.len() >= 2 {
        Some(parts[1])
    } else {
        None
    }
}

/// What `base64`'s `URL_SAFE_NO_PAD.decode` makes of a text; `None` when
/// it is not valid unpadded URL-safe base64.
pub uninterp spec fn base64_url_decoded(text: Seq<char>) -> Option<Seq<u8>>;

/// What `base64`'s `URL_SAFE_NO_PAD.encode` makes of bytes.
pub uninterp spec fn base64_url_encoded(bytes: Seq<u8>) -> Seq<char>;

/// Calls `URL_SAFE_NO_PAD.decode` of the `base64` crate; the contract
/// claims only that the result is the named function of the text.
#[verifier::external_body]
fn base64_url_decode(text: &str) -> (r: Option<Vec<u8>>)
    ensures
        match base64_url_decoded(text@) {
            Some(b) => r matches Some(v) && v@ == b,
            None => r is None,
        },
{
    base64::engine::general_purpose::URL_SAFE_NO_PAD.decode(text).ok()
}

/// Calls `URL_SAFE_NO_PAD.encode` of the `base64` crate; the contract
/// claims only that the result is the named function of the bytes.
#[verifier::external_body]
fn base64_url_encode(bytes: &[u8]) -> (r: String)
    ensures
        r@ == base64_url_encoded(bytes@),
{
    base64::engine::general_purpose::URL_SAFE_NO_PAD.encode(bytes)
}

/// The decoded payload of an access token.
pub fn access_token_payload(access_token: &str) -> (r: Result<Vec<u8>, AuthError>)
    ensures
        match token_payload_spec(access_token@) {
            None => r matches Err(AuthError::NotJwt),
            Some(p) => match base64_url_decoded(p) {
                None => r matches Err(AuthError::PayloadNotBase64),
                Some(b) => r matches Ok(v) && v@ == b,
            },
        },
{
    let parts = split_chars(&chars_of(access_token), '.');
    if parts.len() < 2 {
        return Err(AuthError::NotJwt);
    }
    let payload = string_of(&parts[1]);
    match base64_url_decode(payload.as_str()) {
        Some(bytes) => Ok(bytes),
        None => Err(AuthError::PayloadNotBase64),
    }
}

/// The value of the first member called `key` of a JSON object.
pub open spec fn json_member(v: JsonValue, key: Seq<char>) -> Option<JsonValue> {
    match v {
        JsonValue::Object(members) => first_member(members@, key),
        _ => None,
    }
}

pub open spec fn first_member(members: Seq<(String, JsonValue)>, key: Seq<char>) -> Option<JsonValue>
    decreases members.len(),
{
    if members.len() == 0 {
        None
    } else if members[0].0@ == key {
        Some(members[0].1)
    } else {
        first_member(members.drop_first(), key)
    }
}

/// The text of a JSON string.
pub open spec fn json_text(v: Option<JsonValue>) -> Option<Seq<char>> {
    match v {
        Some(JsonValue::Str(s)) => Some(s@),
        _ => None,
    }
}

#[verifier::loop_isolation(false)]
fn member<'a>(v: &'a JsonValue, key: &str) -> (r: Option<&'a JsonValue>)
    ensures
        match json_member(*v, key@) {
            Some(m) => r matches Some(x) && *x == m,
            None => r is None,
        },
{
    match v {
        JsonValue::Object(members) => {
            let k = chars_of(key);
            let ghost all = members@;
            let mut i: usize = 0;
            assert(all.skip(0) =~= all);
            while i < members.len()
                invariant
                    i <= members.len(),
                    all == members@,
                    k@ == key@,
                    first_member(all, key@) == first_member(all.skip(i as int), key@),
                decreases members.len() - i,
            {
                assert(all.skip(i as int).drop_first() =~= all.skip(i + 1));
                assert(all.skip(i as int)[0] == members@[i as int]);
                let name = chars_of(members[i].0.as_str());
                assert(name@ == all.skip(i as int)[0].0@);
                if crate::text::chars_eq(&name, &k) {
                    assert(all.skip(i as int)[0].0@ == key@);
                    assert(first_member(all.skip(i as int), key@) == Some(all.skip(i as int)[0].1));
                    assert(first_member(all.skip(i as int), key@) == Some(members@[i as int].1));
                    return Some(&members[i].1);
                }
                i = i + 1;
            }
            None
        },
        _ => None,
    }
}

fn text_of(v: Option<&JsonValue>) -> (r: Option<String>)
    ensures
        match json_text(match v { Some(x) => Some(*x), None => None }) {
            Some(t) => r matches Some(s) && s@ == t,
            None => r is None,
        },
{
    match v {
        Some(JsonValue::Str(s)) => Some(s.clone()),
        _ => None,
    }
}

pub open spec fn strings_view(v: Seq<String>) -> Seq<Seq<char>> {
    v.map_values(|s: String| s@)
}

/// What the `scp` claim grants: an array of strings, or one string of
/// scopes separated by white space; no claim grants nothing.
pub open spec fn scope_claim_spec(v: Option<JsonValue>) -> Result<Seq<Seq<char>>, AuthError> {
    match v {
        None => Ok(Seq::empty()),
        Some(JsonValue::Str(s)) => Ok(words(s@)),
        Some(JsonValue::Array(items)) => if forall|i: int| 0 <= i < items.len() ==> (#[trigger] items[i]) is Str {
            Ok(items@.map_values(|x: JsonValue| json_text(Some(x))->Some_0))
        } else {
            Err(AuthError::NonStringScope)
        },
        Some(_) => Err(AuthError::UnexpectedScopeType),
    }
}

/// Reads the `scp` claim of an access token.
#[verifier::loop_isolation(false)]
pub fn parse_scope_claim(value: Option<&JsonValue>) -> (r: Result<Vec<String>, AuthError>)
    ensures
        match scope_claim_spec(match value { Some(x) => Some(*x), None => None }) {
            Ok(s) => r matches Ok(v) && strings_view(v@) == s,
            Err(e) => r matches Err(x) && x == e,
        },
{
    match value {
        None => {
            let v: Vec<String> = Vec::new();
            assert(strings_view(v@) =~= Seq::<Seq<char>>::empty());
            Ok(v)
        },
        Some(JsonValue::Str(s)) => {
            let ws = split_whitespace_chars(&chars_of(s.as_str()));
            let mut out: Vec<String> = Vec::new();
            let mut i: usize = 0;
            while i < ws.len()
                invariant
                    i <= ws.len(),
                    strings_view(out@) == views(ws@).take(i as int),
                decreases ws.len() - i,
            {
                let ghost before = out@;
                out.push(string_of(&ws[i]));
                assert(strings_view(out@) =~= strings_view(before).push(ws@[i as int]@));
                assert(views(ws@).take(i + 1) =~= views(ws@).take(i as int).push(ws@[i as int]@));
                i = i + 1;
            }
            assert(views(ws@).take(ws.len() as int) =~= views(ws@));
            Ok(out)
        },
        Some(JsonValue::Array(items)) => {
            let mut out: Vec<String> = Vec::new();
            let mut i: usize = 0;
            while i < items.len()
                invariant
                    i <= items.len(),
                    forall|j: int| 0 <= j < i ==> (#[trigger] items@[j]) is Str,
                    strings_view(out@) == items@.take(i as int).map_values(|x: JsonValue| json_text(Some(x))->Some_0),
                decreases items.len() - i,
            {
                match &items[i] {
                    JsonValue::Str(s) => {
                        let ghost before = out@;
                        out.push(s.clone());
                        assert(strings_view(out@) =~= strings_view(before).push(s@));
                        assert(items@.take(i + 1).map_values(|x: JsonValue| json_text(Some(x))->Some_0)
                            =~= items@.take(i as int).map_values(|x: JsonValue| json_text(Some(x))->Some_0).push(s@));
                    },
                    _ => {
                        assert(!(items[i as int] is Str));
                        return Err(AuthError::NonStringScope);
                    },
                }
                i = i + 1;
            }
            assert(items@.take(items.len() as int) =~= items@);
            Ok(out)
        },
        Some(_) => Err(AuthError::UnexpectedScopeType),
    }
}

/// `subject` with the character prefix taken off, when it has it.
pub open spec fn subject_rest(subject: Seq<char>) -> Option<Seq<char>> {
    let p = CHARACTER_SUBJECT_PREFIX@;
    if p.len() <= subject.len() && subject.take(p.len() as int) == p {
        Some(subject.skip(p.len() as int))
    } else {
        None
    }
}

fn strip_subject_prefix(subject: &str) -> (r: Option<Vec<char>>)
    ensures
        match subject_rest(subject@) {
            Some(rest) => r matches Some(v) && v@ == rest,
            None => r is None,
        },
{
    let s = chars_of(subject);
    let p = chars_of(CHARACTER_SUBJECT_PREFIX);
    if p.len() > s.len() {
        return None;
    }
    let head = crate::text::slice_of(&s, 0, p.len());
    assert(s@.subrange(0, p@.len() as int) =~= s@.take(p@.len() as int));
    if !crate::text::chars_eq(&head, &p) {
        return None;
    }
    let rest = crate::text::slice_of(&s, p.len(), s.len());
    assert(s@.subrange(p@.len() as int, s@.len() as int) =~= s@.skip(p@.len() as int));
    Some(rest)
}

/// The name shown for a character whose token carries no name.
pub open spec fn name_from_subject_spec(subject: Seq<char>) -> Seq<char> {
    match subject_rest(subject) {
        Some(id) => "Character "@ + id,
        None => "Unknown Character"@,
    }
}

pub fn character_name_from_subject(subject: &str) -> (r: String)
    ensures
        r@ == name_from_subject_spec(subject@),
{
    match strip_subject_prefix(subject) {
        Some(id) => {
            let mut out: Vec<char> = Vec::new();
            push_str(&mut out, "Character ");
            push_all(&mut out, &id);
            string_of(&out)
        },
        None => "Unknown Character".to_string(),
    }
}

/// The character ID in the subject of an access token.
pub fn character_id_from_subject(subject: &str) -> (r: Result<u64, AuthError>)
    ensures
        match subject_rest(subject@) {
            None => r matches Err(AuthError::SubjectNotCharacter),
            Some(rest) => match parse_u64_spec(rest) {
                Some(id) => r matches Ok(x) && x == id,
                None => r matches Err(AuthError::InvalidCharacterId),
            },
        },
{
    match strip_subject_prefix(subject) {
        None => Err(AuthError::SubjectNotCharacter),
        Some(rest) => match parse_u64(&rest) {
            Some(id) => Ok(id),
            None => Err(AuthError::InvalidCharacterId),
        },
    }
}

/// The claims an access token's JSON payload holds.
pub open spec fn claims_ok(payload: JsonValue, c: AccessTokenClaims) -> bool {
    &&& json_text(json_member(payload, "sub"@)) == Some(c.sub@)
    &&& c.name@ == (match json_text(json_member(payload, "name"@)) {
        Some(n) => n,
        None => name_from_subject_spec(c.sub@),
    })
    &&& scope_claim_spec(json_member(payload, "scp"@)) == Ok::<Seq<Seq<char>>, AuthError>(strings_view(c.scp@))
}

/// Reads the claims of an access token from its JSON payload: the subject
/// must be a string, the name falls back to one made from the subject.
pub fn claims_from_json(payload: &JsonValue) -> (r: Result<AccessTokenClaims, AuthError>)
    ensures
        json_text(json_member(*payload, "sub"@)) is None ==> r matches Err(AuthError::MissingSubject),
        json_text(json_member(*payload, "sub"@)) is Some ==> match scope_claim_spec(
            json_member(*payload, "scp"@),
        ) {
            Err(e) => r matches Err(x) && x == e,
            Ok(_) => r matches Ok(c) && claims_ok(*payload, c),
        },
{
    let sub = match text_of(member(payload, "sub")) {
        Some(s) => s,
        None => {
            return Err(AuthError::MissingSubject);
        },
    };
    let name = match text_of(member(payload, "name")) {
        Some(n) => n,
        None => character_name_from_subject(sub.as_str()),
    };
    let scp = parse_scope_claim(member(payload, "scp"))?;
    Ok(AccessTokenClaims { sub, name, scp })
}

/// The character a token exchange logged in.
pub fn authenticated_character(token: TokenResponse, claims: AccessTokenClaims) -> (r: Result<
    AuthenticatedCharacter,
    AuthError,
>)
    ensures
        match subject_rest(claims.sub@) {
            None => r matches Err(AuthError::SubjectNotCharacter),
            Some(rest) => match parse_u64_spec(rest) {
                None => r matches Err(AuthError::InvalidCharacterId),
                Some(id) => r matches Ok(c) && c.character_id == id && c.character_name == claims.name
                    && c.scopes == claims.scp && c.access_token == token.access_token && c.refresh_token
                    == token.refresh_token && c.expires_in == token.expires_in,
            },
        },
{
    let character_id = character_id_from_subject(claims.sub.as_str())?;
    Ok(AuthenticatedCharacter {
        character_id,
        character_name: claims.name,
        scopes: claims.scp,
        access_token: token.access_token,
        refresh_token: token.refresh_token,
        expires_in: token.expires_in,
    })
}

// ---------------------------------------------------------------------
// PKCE
// ---------------------------------------------------------------------

/// The SHA-256 digest of bytes.
pub uninterp spec fn sha256(bytes: Seq<u8>) -> Seq<u8>;

/// Calls `Sha256::digest` of the `sha2` crate: the 32-byte digest, the
/// named function of the bytes.
#[verifier::external_body]
fn sha256_digest(bytes: &[u8]) -> (r: Vec<u8>)
    ensures
        r@ == sha256(bytes@),
        r@.len() == 32,
{
    sha2::Sha256::digest(bytes).to_vec()
}

/// Fills `count` bytes from the operating system's random source with
/// `rand::rngs::OsRng::try_fill_bytes`, which hands back the operating
/// system's error in place of the bytes when it cannot supply them.
/// Nothing is claimed of the bytes but their number.
#[verifier::external_body]
fn os_random_bytes(count: usize) -> (r: Option<Vec<u8>>)
    ensures
        r matches Some(v) ==> v@.len() == count,
{
    let mut bytes = vec![0u8; count];
    match rand::rngs::OsRng.try_fill_bytes(&mut bytes) {
        Ok(()) => Some(bytes),
        Err(_) => None,
    }
}

/// The PKCE challenge of a verifier: the SHA-256 digest of its bytes in
/// unpadded URL-safe base64.
pub fn pkce_challenge(code_verifier: &str) -> (r: String)
    ensures
        r@ == base64_url_encoded(sha256(code_verifier.spec_bytes())),
{
    let digest = sha256_digest(code_verifier.as_bytes());
    base64_url_encode(digest.as_slice())
}

/// A random token of `byte_count` bytes in unpadded URL-safe base64, or
/// `None` when the operating system could not supply the bytes.
pub fn random_url_token(byte_count: usize) -> (r: Option<String>)
    ensures
        r matches Some(t) ==> exists|b: Seq<u8>| b.len() == byte_count && t@ == base64_url_encoded(b),
{
    match os_random_bytes(byte_count) {
        Some(bytes) => Some(base64_url_encode(bytes.as_slice())),
        None => None,
    }
}

} // verus!
