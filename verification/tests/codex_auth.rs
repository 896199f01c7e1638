use base64::Engine;
use e_agent::codex_auth::{
    auth_path, authorize_url, callback_request, callback_response, callback_result, code_exchange,
    code_refused, due_at, fresh_temporary_name, jwt_metadata, login_data, needs_refresh,
    permanent_refresh_error, read_callback, read_renewal, receive, redirect_uri, refresh_body,
    required_token, temporary_name, usable_account, AuthFile, CodexAuth, LoginPage, Moment, Pkce,
    Received, RefreshAction, Refusal, TokenAnswer, TokenResponse, Tokens, ACCOUNT_CLAIM,
    ACCOUNT_CLAIM_FIELD, ACCOUNT_CLAIM_NAMESPACE, CALENDAR_END, CALENDAR_START, CALLBACK_LIMIT,
    CLIENT_ID,
};
use e_agent::json::json_text;
use sha2::Digest;

fn jwt(claims: &str) -> String {
    format!(
        "x.{}.x",
        base64::engine::general_purpose::URL_SAFE_NO_PAD.encode(claims)
    )
}

fn tokens(id: &str, access: &str, refresh: &str, account: Option<&str>) -> Tokens {
    Tokens {
        id_token: id.into(),
        access_token: access.into(),
        refresh_token: refresh.into(),
        account_id: account.map(|text| text.to_string()),
    }
}

const NOW: Moment = Moment {
    secs: 1_800_000_000,
    nanos: 5,
};

fn days_ago(days: i64) -> Moment {
    Moment {
        secs: NOW.secs - days * 86_400,
        nanos: NOW.nanos,
    }
}

fn login(name: &str, last_refresh: Moment) -> AuthFile {
    AuthFile {
        tokens: tokens(
            &format!("{name}-id"),
            &format!("{name}-access"),
            &format!("{name}-refresh"),
            Some(&format!("{name}-account")),
        ),
        last_refresh,
    }
}

fn expired(name: &str) -> AuthFile {
    let mut data = login(name, NOW);
    data.tokens.access_token = jwt(r#"{"exp":0}"#);
    data
}

fn exchange(name: &str) -> RefreshAction {
    RefreshAction::Exchange {
        refresh_token: format!("{name}-refresh"),
    }
}

fn returned(access: &str, refresh: &str) -> TokenResponse {
    TokenResponse {
        id_token: None,
        access_token: Some(access.into()),
        refresh_token: Some(refresh.into()),
    }
}

fn check_authorize_url_and_callback() {
    let pkce = Pkce::new();
    assert_eq!(pkce.verifier.len(), 86);
    assert_eq!(pkce.state.len(), 43);
    let url = authorize_url("http://localhost:1455/auth/callback", &pkce).unwrap();
    let url = url::Url::parse(&url).unwrap();
    assert_eq!(url.scheme(), "https");
    assert_eq!(url.host_str(), Some("auth.openai.com"));
    assert_eq!(url.path(), "/oauth/authorize");
    let query: std::collections::HashMap<_, _> = url.query_pairs().into_owned().collect();
    assert_eq!(
        query["scope"],
        "openid profile email offline_access api.connectors.read api.connectors.invoke"
    );
    assert_eq!(query["originator"], "codex_cli_rs");
    let error =
        callback_result("/auth/callback?code=secret-code&state=wrong", "right").unwrap_err();
    assert!(!error.contains("secret-code"));
}

#[test]
fn codex_auth_authorize_url_and_callback_keep_secrets_out_of_errors() {
    check_authorize_url_and_callback();
}

#[test]
fn tests_authorize_url_and_callback_keep_secrets_out_of_errors() {
    check_authorize_url_and_callback();
}

fn check_account_id_is_required() {
    let no_account = tokens("not-a-jwt", "access", "refresh", None);
    assert!(usable_account(&no_account).is_err());
    let jwt_account = jwt(&format!(r#"{{"{ACCOUNT_CLAIM}":"from-jwt"}}"#));
    let stored = tokens(&jwt_account, "access", "refresh", Some("stored"));
    assert_eq!(usable_account(&stored).unwrap(), "stored");
}

#[test]
fn codex_auth_account_id_is_required_and_stored_id_wins() {
    check_account_id_is_required();
}

#[test]
fn tests_account_id_is_required_and_stored_id_wins() {
    check_account_id_is_required();
}

#[test]
fn usable_account_falls_back_to_access_token_claim() {
    let tokens = tokens(
        &jwt(r#"{"exp":2000000000}"#),
        &jwt(&format!(r#"{{"{ACCOUNT_CLAIM}":"access-account"}}"#)),
        "refresh",
        None,
    );
    assert_eq!(usable_account(&tokens).unwrap(), "access-account");
}

#[test]
fn jwt_metadata_reads_nested_namespace_claim() {
    let token = jwt(&format!(
        r#"{{"exp":2000000000,"{ACCOUNT_CLAIM_NAMESPACE}":{{"{ACCOUNT_CLAIM_FIELD}":"nested-account"}}}}"#
    ));
    assert_eq!(
        jwt_metadata(&token).unwrap().account_id.as_deref(),
        Some("nested-account")
    );
}

#[test]
fn tokens_are_read_as_far_as_they_can_be() {
    let token = jwt(&format!(
        r#"{{"exp":2000000000,"{ACCOUNT_CLAIM}":"account"}}"#
    ));
    let metadata = jwt_metadata(&token).unwrap();
    assert_eq!(metadata.account_id.as_deref(), Some("account"));
    assert_eq!(metadata.exp, Some(2_000_000_000));
    // Out of the calendar, or no integer: no expiry.
    assert_eq!(
        jwt_metadata(&jwt(r#"{"exp":9223372036854775807}"#))
            .unwrap()
            .exp,
        None
    );
    assert_eq!(jwt_metadata(&jwt(r#"{"exp":1.5}"#)).unwrap().exp, None);
    for secs in [CALENDAR_START, 0, CALENDAR_END] {
        let claims = format!(r#"{{"exp":{secs}}}"#);
        assert_eq!(jwt_metadata(&jwt(&claims)).unwrap().exp, Some(secs));
    }
    for secs in [CALENDAR_START - 1, CALENDAR_END + 1] {
        let claims = format!(r#"{{"exp":{secs}}}"#);
        assert_eq!(jwt_metadata(&jwt(&claims)).unwrap().exp, None);
    }
    // An empty account is none.
    assert_eq!(
        jwt_metadata(&jwt(&format!(r#"{{"{ACCOUNT_CLAIM}":""}}"#)))
            .unwrap()
            .account_id,
        None
    );
    for token in ["no-dots", "x.!!!.x", "x.bm90LWpzb24.x", "x._w.x"] {
        assert_eq!(jwt_metadata(token), None, "{token}");
    }
}

#[test]
fn logins_are_renewed_five_minutes_before_they_expire() {
    let at = |secs: i64| Some(NOW.secs + secs);
    assert!(due_at(at(300), NOW, NOW));
    assert!(!due_at(at(301), NOW, NOW));
    // Without a known expiry, eight days after the last renewal.
    assert!(due_at(None, days_ago(8), NOW));
    let just_under = Moment {
        secs: days_ago(8).secs,
        nanos: NOW.nanos + 1,
    };
    assert!(!due_at(None, just_under, NOW));
    assert!(needs_refresh(&expired("a"), NOW));
    assert!(!needs_refresh(&login("a", NOW), NOW));
    assert!(needs_refresh(&login("a", days_ago(9)), NOW));
}

#[test]
fn refused_renewals_tell_the_kind_and_no_secret() {
    let answer = |status: u16, text: &str, body: &str| {
        read_renewal(Some(TokenAnswer {
            status,
            status_text: text.into(),
            body: body.into(),
            returned: None,
        }))
        .unwrap_err()
    };
    for (needle, hint, kind) in [
        ("refresh_token_expired", "login has expired", Refusal::Expired),
        (
            "refresh_token_reused",
            "reused by another process",
            Refusal::Reused,
        ),
        (
            "refresh_token_invalidated",
            "login was revoked",
            Refusal::Revoked,
        ),
    ] {
        let body = format!(r#"{{"error":"{needle}","refresh_token":"do-not-leak"}}"#);
        let error = answer(400, "400 Bad Request", &body);
        assert!(error.contains("run `e-agent login`"), "{error}");
        assert!(error.contains(hint), "{error}");
        assert!(!error.contains("do-not-leak"), "{error}");
        assert_eq!(permanent_refresh_error(&body), Some(kind));
    }
    assert_eq!(permanent_refresh_error("other"), None);
    assert_eq!(
        answer(401, "401 Unauthorized", "x"),
        "ChatGPT login has expired or was revoked; run `e-agent login`"
    );
    assert_eq!(
        answer(503, "503 Service Unavailable", "x"),
        "ChatGPT token refresh failed with HTTP 503 Service Unavailable"
    );
    assert_eq!(
        answer(200, "200 OK", "x"),
        "cannot decode ChatGPT token refresh response"
    );
    assert_eq!(
        read_renewal(None).unwrap_err(),
        "ChatGPT token refresh request failed"
    );
}

#[test]
fn renewals_keep_partial_fields_and_rotate_the_token() {
    let mut auth = CodexAuth::from_file(login("old", days_ago(9)));
    let disk = || Some(login("old", days_ago(9)));
    assert_eq!(
        auth.refresh_if_needed(false, None, disk(), NOW),
        exchange("old")
    );
    assert_eq!(
        auth.finish_exchange(1, Ok(returned("new-access", "new-refresh")), disk(), NOW),
        RefreshAction::Save
    );
    assert_eq!(auth.memory.tokens.id_token, "old-id");
    assert_eq!(auth.memory.tokens.access_token, "new-access");
    assert_eq!(auth.memory.tokens.refresh_token, "new-refresh");
    assert_eq!(auth.memory.last_refresh, NOW);
    assert_eq!(auth.finish_save(Ok(())), RefreshAction::Done);
    assert_eq!(auth.observed, auth.memory);
    assert_eq!(
        auth.current_access_token_and_account().unwrap(),
        ("new-access".to_string(), "old-account".to_string())
    );
}

#[test]
fn an_empty_token_is_not_taken_over() {
    let mut auth = CodexAuth::from_file(login("old", days_ago(9)));
    auth.finish_exchange(1, Ok(returned("", "new-refresh")), None, NOW);
    assert_eq!(auth.memory.tokens.access_token, "old-access");
    assert_eq!(auth.memory.tokens.refresh_token, "new-refresh");
}

#[test]
fn a_rotated_token_is_not_renewed_again() {
    let mut auth = CodexAuth::from_file(login("old", NOW));
    assert_eq!(
        auth.refresh_after_unauthorized("old-access", None, NOW),
        exchange("old")
    );
    auth.finish_exchange(1, Ok(returned("new-access", "new-refresh")), None, NOW);
    auth.finish_save(Ok(()));
    assert_eq!(
        auth.refresh_after_unauthorized("old-access", None, NOW),
        RefreshAction::Done
    );
}

#[test]
fn a_replaced_auth_file_is_adopted_without_submitting_the_old_token() {
    let mut auth = CodexAuth::from_file(login("old", days_ago(9)));
    assert_eq!(
        auth.refresh_if_needed(false, None, Some(login("new", NOW)), NOW),
        RefreshAction::Done
    );
    assert_eq!(
        auth.current_access_token_and_account().unwrap().0,
        "new-access"
    );
    // Another process rotated: its token is submitted, though it is due, too.
    let mut auth = CodexAuth::from_file(login("old", days_ago(9)));
    assert_eq!(
        auth.refresh_if_needed(false, None, Some(login("disk", days_ago(9))), NOW),
        exchange("disk")
    );
    // A rejected token that was replaced is not renewed...
    let mut auth = CodexAuth::from_file(login("old", NOW));
    assert_eq!(
        auth.refresh_after_unauthorized("old-access", Some(login("new", NOW)), NOW),
        RefreshAction::Done
    );
    // ...unless the login that replaced it has expired.
    let mut auth = CodexAuth::from_file(login("old", NOW));
    assert_eq!(
        auth.refresh_after_unauthorized("old-access", Some(expired("new")), NOW),
        exchange("new")
    );
}

#[test]
fn unusable_auth_files_are_passed_over() {
    let mut empty_access = login("disk", NOW);
    empty_access.tokens.access_token = String::new();
    let mut empty_refresh = login("disk", NOW);
    empty_refresh.tokens.refresh_token = String::new();
    for disk in [None, Some(empty_access), Some(empty_refresh)] {
        let mut auth = CodexAuth::from_file(login("memory", NOW));
        assert_eq!(
            auth.refresh_if_needed(false, None, disk, NOW),
            RefreshAction::Done
        );
        assert_eq!(
            auth.current_access_token_and_account().unwrap(),
            ("memory-access".to_string(), "memory-account".to_string())
        );
    }
    let mut auth = CodexAuth::from_file(login("memory", days_ago(9)));
    assert_eq!(
        auth.refresh_if_needed(false, None, None, NOW),
        exchange("memory")
    );
}

#[test]
fn a_login_during_an_exchange_wins() {
    let mut auth = CodexAuth::from_file(login("old", days_ago(9)));
    auth.refresh_if_needed(false, None, Some(login("old", days_ago(9))), NOW);
    assert_eq!(
        auth.finish_exchange(
            1,
            Ok(returned("stale-access", "stale-refresh")),
            Some(login("login", NOW)),
            NOW
        ),
        RefreshAction::Done
    );
    assert_eq!(
        auth.current_access_token_and_account().unwrap(),
        ("login-access".to_string(), "login-account".to_string())
    );
}

#[test]
fn a_reused_token_recovers_from_the_auth_file() {
    let mut auth = CodexAuth::from_file(login("old", days_ago(9)));
    auth.refresh_if_needed(false, None, Some(login("old", days_ago(9))), NOW);
    assert_eq!(
        auth.finish_exchange(
            1,
            Err("reused".into()),
            Some(login("rotated", days_ago(9))),
            NOW
        ),
        exchange("rotated")
    );
    assert_eq!(
        auth.finish_exchange(
            2,
            Ok(returned("final-access", "final-refresh")),
            Some(login("rotated", days_ago(9))),
            NOW
        ),
        RefreshAction::Save
    );
    assert_eq!(auth.memory.tokens.refresh_token, "final-refresh");
}

#[test]
fn there_is_no_third_exchange() {
    let mut auth = CodexAuth::from_file(expired("a"));
    assert_eq!(
        auth.refresh_if_needed(false, None, Some(expired("a")), NOW),
        exchange("a")
    );
    assert_eq!(
        auth.finish_exchange(
            1,
            Ok(returned("stale", "stale")),
            Some(expired("b")),
            NOW
        ),
        exchange("b")
    );
    // A fresh login wins over the failure.
    assert_eq!(
        auth.finish_exchange(2, Err("reused".into()), Some(login("c", NOW)), NOW),
        RefreshAction::Done
    );
    assert_eq!(
        auth.current_access_token_and_account().unwrap(),
        ("c-access".to_string(), "c-account".to_string())
    );
    // An expired one does not, and is not exchanged.
    assert_eq!(
        auth.finish_exchange(2, Err("reused".into()), Some(expired("d")), NOW),
        RefreshAction::Fail {
            error: "reused".into()
        }
    );
    assert_eq!(
        auth.finish_exchange(2, Ok(returned("x", "y")), Some(expired("e")), NOW),
        RefreshAction::Done
    );
}

#[test]
fn failures_leave_the_login_as_it_is() {
    let mut auth = CodexAuth::from_file(login("old", days_ago(9)));
    assert_eq!(
        auth.finish_exchange(
            1,
            Err("no network".into()),
            Some(login("old", days_ago(9))),
            NOW
        ),
        RefreshAction::Fail {
            error: "no network".into()
        }
    );
    assert_eq!(auth, CodexAuth::from_file(login("old", days_ago(9))));
    // A login that could not be written stays, and the old file does not win.
    auth.finish_exchange(
        1,
        Ok(returned("rotated-access", "rotated-refresh")),
        Some(login("old", days_ago(9))),
        NOW,
    );
    assert_eq!(
        auth.finish_save(Err("read-only".into())),
        RefreshAction::Fail {
            error: "read-only".into()
        }
    );
    assert_eq!(
        auth.refresh_if_needed(false, None, Some(login("old", days_ago(9))), NOW),
        RefreshAction::Done
    );
    assert_eq!(
        auth.current_access_token_and_account().unwrap().0,
        "rotated-access"
    );
}

#[test]
fn challenges_are_digests_of_their_verifier() {
    let pkce = Pkce::from_bytes(&[7; 64], &[9; 32]);
    let encode = |bytes: &[u8]| base64::engine::general_purpose::URL_SAFE_NO_PAD.encode(bytes);
    assert_eq!(pkce.verifier, encode(&[7; 64]));
    assert_eq!(pkce.state, encode(&[9; 32]));
    assert_eq!(
        pkce.challenge,
        encode(&sha2::Sha256::digest(pkce.verifier.as_bytes()))
    );
    assert_ne!(Pkce::default().verifier, Pkce::default().verifier);
}

#[test]
fn the_login_page_gets_every_parameter() {
    let pkce = Pkce::from_bytes(&[1; 64], &[2; 32]);
    let url = authorize_url("http://localhost:1455/a b&c=ü", &pkce).unwrap();
    assert!(url.starts_with("https://auth.openai.com/oauth/authorize?response_type=code&"));
    let url = url::Url::parse(&url).unwrap();
    let pairs: Vec<(String, String)> = url.query_pairs().into_owned().collect();
    assert_eq!(pairs.len(), 10);
    assert_eq!(pairs[1], ("client_id".to_string(), CLIENT_ID.to_string()));
    assert_eq!(
        pairs[2],
        (
            "redirect_uri".to_string(),
            "http://localhost:1455/a b&c=ü".to_string()
        )
    );
    assert_eq!(pairs[4], ("code_challenge".to_string(), pkce.challenge));
    assert_eq!(pairs[8], ("state".to_string(), pkce.state));
    assert_eq!(redirect_uri(1455), "http://localhost:1455/auth/callback");
}

#[test]
fn callbacks_are_taken_only_with_the_expected_state() {
    assert_eq!(
        callback_result("/auth/callback?code=a%20b&state=right", "right").unwrap(),
        "a b"
    );
    for (target, error) in [
        ("/wrong?code=c&state=right", "unexpected OAuth callback path"),
        (
            "/auth/callback?code=c",
            "OAuth callback state did not match",
        ),
        (
            "/auth/callback?state=right&state=wrong&code=c",
            "OAuth callback state did not match",
        ),
        (
            "/auth/callback?code=c&state=right&error=denied",
            "ChatGPT login was rejected",
        ),
        (
            "/auth/callback?code=&state=right",
            "OAuth callback is missing authorization code",
        ),
        (":bad", "invalid OAuth callback"),
    ] {
        assert_eq!(callback_result(target, "right").unwrap_err(), error, "{target}");
    }
    assert_eq!(
        read_callback(None, "right").unwrap_err(),
        "invalid OAuth callback"
    );
}

fn request(text: &str) -> Result<String, String> {
    callback_request(text.as_bytes().to_vec(), "right")
}

#[test]
fn callbacks_arrive_in_pieces() {
    let mut bytes = Vec::new();
    assert_eq!(
        receive(&mut bytes, b"GET /auth/callback?code=secret-code&sta"),
        Received::More
    );
    assert_eq!(
        receive(
            &mut bytes,
            b"te=right HTTP/1.1\r\nHost: localhost\r\n\r\n"
        ),
        Received::Whole
    );
    assert_eq!(callback_request(bytes, "right").unwrap(), "secret-code");
    let error = request("GET /wrong?code=secret-code&state=right HTTP/1.1\r\n\r\n").unwrap_err();
    assert_eq!(error, "unexpected OAuth callback path");
    assert_eq!(
        request("POST /auth/callback HTTP/1.1\r\n\r\n").unwrap_err(),
        "OAuth callback requires HTTP GET"
    );
    assert_eq!(
        request("GET\r\n\r\n").unwrap_err(),
        "OAuth callback is missing request target"
    );
    assert_eq!(
        callback_request(vec![0xff, 0xfe], "right").unwrap_err(),
        "OAuth callback request is not valid UTF-8"
    );
}

#[test]
fn callbacks_are_limited() {
    let refused = |error: &str| Received::Refused {
        error: error.to_string(),
    };
    let mut bytes = Vec::new();
    assert_eq!(
        receive(&mut bytes, b""),
        refused("OAuth callback closed before complete request headers")
    );
    let mut bytes = vec![b'a'; CALLBACK_LIMIT - 2];
    assert_eq!(receive(&mut bytes, b"b"), Received::More);
    assert_eq!(
        receive(&mut bytes, b"c"),
        refused("OAuth callback headers exceeded 16 KiB")
    );
    let mut bytes = vec![b'a'; CALLBACK_LIMIT - 4];
    assert_eq!(receive(&mut bytes, b"\r\n\r\n"), Received::Whole);
    let mut bytes = vec![b'a'; CALLBACK_LIMIT - 3];
    assert_eq!(
        receive(&mut bytes, b"\r\n\r\n"),
        refused("OAuth callback headers exceeded 16 KiB")
    );
}

#[test]
fn the_browser_is_told_the_outcome() {
    assert_eq!(
        callback_response(LoginPage::Complete),
        "HTTP/1.1 200 OK\r\nContent-Type: text/html; charset=utf-8\r\nContent-Length: 68\r\nConnection: close\r\n\r\n<html><body>Login complete. You may close this window.</body></html>"
    );
    assert!(callback_response(LoginPage::Refused).starts_with("HTTP/1.1 400"));
    assert!(callback_response(LoginPage::Failed).starts_with("HTTP/1.1 500"));
}

#[test]
fn a_login_needs_three_tokens_and_an_account() {
    let account = jwt(&format!(r#"{{"{ACCOUNT_CLAIM}":"me"}}"#));
    let full = |id: &str| TokenResponse {
        id_token: Some(id.to_string()),
        access_token: Some("access".into()),
        refresh_token: Some("refresh".into()),
    };
    let data = login_data(full(&account), NOW).unwrap();
    assert_eq!(data.tokens.account_id.as_deref(), Some("me"));
    assert_eq!(data.last_refresh, NOW);
    assert!(login_data(full("opaque"), NOW)
        .unwrap_err()
        .contains("no usable account id"));
    assert_eq!(
        login_data(returned("a", "b"), NOW).unwrap_err(),
        "ChatGPT token response is missing id_token"
    );
    let mut missing = full(&account);
    missing.access_token = Some(String::new());
    assert_eq!(
        login_data(missing, NOW).unwrap_err(),
        "ChatGPT token response is missing access_token"
    );
    let mut missing = full(&account);
    missing.refresh_token = None;
    assert_eq!(
        login_data(missing, NOW).unwrap_err(),
        "ChatGPT token response is missing refresh_token"
    );
    assert_eq!(required_token(Some("t".into()), "x").unwrap(), "t");
    assert_eq!(
        code_refused("400 Bad Request"),
        "ChatGPT authorization-code exchange failed with HTTP 400 Bad Request"
    );
}

#[test]
fn requests_name_the_client() {
    assert_eq!(
        json_text(&refresh_body("r")),
        format!(
            r#"{{"client_id":"{CLIENT_ID}","grant_type":"refresh_token","refresh_token":"r"}}"#
        )
    );
    let form = code_exchange("c", "u", "v");
    assert_eq!(form[0].1, "authorization_code");
    assert_eq!(form[4], ("code_verifier".to_string(), "v".to_string()));
}

#[test]
fn the_auth_file_stands_in_the_configuration() {
    assert_eq!(
        auth_path(Some("/xdg"), Some("/home/u")).unwrap(),
        "/xdg/e-agent/auth.json"
    );
    assert_eq!(
        auth_path(None, Some("/home/u")).unwrap(),
        "/home/u/.config/e-agent/auth.json"
    );
    assert_eq!(
        auth_path(None, None).unwrap_err(),
        "cannot locate ChatGPT auth storage: set XDG_CONFIG_HOME or HOME"
    );
    assert_eq!(temporary_name(&[0; 16]), ".auth.AAAAAAAAAAAAAAAAAAAAAA.tmp");
    let name = fresh_temporary_name();
    assert_eq!(name.len(), 32);
    assert_ne!(name, fresh_temporary_name());
}
