use zedazo::auth::{
    bind_auth_allowed, bind_is_loopback, cookie_value, cors_policy, extract_credential,
    login_outcome, logout_cookie, parse_flag, request_authorized, set_cookie_header,
    tokens_equal, AuthConfig, AuthConfigError, AuthMode, CorsPolicy, LoginOutcome,
};

#[test]
fn loopback_bind_detection() {
    assert!(bind_is_loopback("127.0.0.1:8080"));
    assert!(bind_is_loopback("localhost:8080"));
    assert!(bind_is_loopback("[::1]:8080"));
    assert!(!bind_is_loopback("0.0.0.0:8080"));
    assert!(!bind_is_loopback("192.168.1.10:8080"));
}

#[test]
fn fail_closed_disabled_on_public_bind() {
    let auth = AuthConfig::disabled();
    assert!(bind_auth_allowed("127.0.0.1:8080", &auth, false));
    assert!(!bind_auth_allowed("0.0.0.0:8080", &auth, false));
    assert!(bind_auth_allowed("0.0.0.0:8080", &auth, parse_flag("true") == Some(true)));
    let token = AuthConfig::token("t".to_string(), true);
    assert!(bind_auth_allowed("0.0.0.0:8080", &token, false));
}

#[test]
fn bind_variants() {
    assert!(bind_is_loopback("[0:0:0:0:0:0:0:1]:80"));
    assert!(!bind_is_loopback("[::2]:80"));
    assert!(bind_is_loopback("localhost"));
    assert!(!bind_is_loopback("[::1"));
}

#[test]
fn auth_from_values() {
    let a = AuthConfig::from_values(None, None, None).unwrap();
    assert_eq!(a, AuthConfig::disabled());
    let t = AuthConfig::from_values(Some("TOKEN"), Some("no"), Some("s3")).unwrap();
    assert_eq!(t.mode, AuthMode::Token("s3".to_string()));
    assert!(!t.cookie_secure);
    let t = AuthConfig::from_values(Some("token"), Some("maybe"), Some("s3")).unwrap();
    assert!(t.cookie_secure);
    assert_eq!(AuthConfig::from_values(Some("token"), None, Some("")), Err(AuthConfigError::EmptyToken));
    assert_eq!(AuthConfig::from_values(Some("token"), None, None), Err(AuthConfigError::EmptyToken));
    assert_eq!(
        AuthConfig::from_values(Some("Basic"), None, None),
        Err(AuthConfigError::UnknownMode("basic".to_string()))
    );
    assert_eq!(t.expected_token(), Some("s3"));
    assert_eq!(AuthConfig::disabled().expected_token(), None);
}

#[test]
fn credentials_from_bearer_or_cookie() {
    assert_eq!(extract_credential(Some("Bearer secret-token"), None).as_deref(), Some("secret-token"));
    assert_eq!(extract_credential(Some("bearer  x "), None).as_deref(), Some("x"));
    assert_eq!(extract_credential(Some("Basic abc"), Some("a=1; zedazo_auth=tok")).as_deref(), Some("tok"));
    assert_eq!(extract_credential(Some("Bearer   "), None), None);
    assert_eq!(cookie_value("zedazo_authx=1; zedazo_auth=v=w", "zedazo_auth").as_deref(), Some("v=w"));
    assert_eq!(cookie_value("a=1", "zedazo_auth"), None);
}

#[test]
fn token_mode_authorizes_only_matching_credentials() {
    let auth = AuthConfig::token("secret-token".to_string(), false);
    assert!(!request_authorized(None, None, &auth));
    assert!(request_authorized(Some("Bearer secret-token"), None, &auth));
    assert!(!request_authorized(Some("Bearer wrong"), None, &auth));
    assert!(request_authorized(None, Some("zedazo_auth=secret-token"), &auth));
    assert!(request_authorized(None, None, &AuthConfig::disabled()));
    assert!(tokens_equal("a", "a"));
    assert!(!tokens_equal("a", "b"));
}

#[test]
fn login_sets_cookie_and_logout_clears() {
    let auth = AuthConfig::token("secret-token".to_string(), false);
    match login_outcome(&auth, "secret-token") {
        LoginOutcome::Accepted { set_cookie: Some(c) } => {
            assert!(c.contains("zedazo_auth=secret-token"));
            assert!(c.contains("HttpOnly"));
        }
        other => panic!("unexpected {other:?}"),
    }
    assert_eq!(login_outcome(&auth, "wrong"), LoginOutcome::InvalidToken);
    assert_eq!(login_outcome(&AuthConfig::disabled(), "x"), LoginOutcome::AuthDisabled);
    assert_eq!(
        set_cookie_header("v", true, false),
        "zedazo_auth=v; Path=/; HttpOnly; SameSite=Strict; Secure"
    );
    assert_eq!(
        logout_cookie(&AuthConfig::token("t".to_string(), false)),
        "zedazo_auth=; Path=/; HttpOnly; SameSite=Strict; Max-Age=0"
    );
    let bad = AuthConfig::token("a\nb".to_string(), false);
    assert_eq!(login_outcome(&bad, "a\nb"), LoginOutcome::Accepted { set_cookie: None });
}

#[test]
fn cors_follows_mode_and_origins() {
    assert_eq!(cors_policy(&AuthConfig::disabled(), None), CorsPolicy::AllowAny);
    let auth = AuthConfig::token("t".to_string(), true);
    assert_eq!(cors_policy(&auth, None), CorsPolicy::SameOriginOnly);
    assert_eq!(cors_policy(&auth, Some("  ")), CorsPolicy::SameOriginOnly);
    assert_eq!(
        cors_policy(&auth, Some("https://a.test, https://b.test,bad\u{1}")),
        CorsPolicy::Origins(vec!["https://a.test".to_string(), "https://b.test".to_string()])
    );
}

#[test]
fn fail_closed_public_bind() {
    let auth = AuthConfig::disabled();
    assert!(!bind_auth_allowed("0.0.0.0:8080", &auth, false));
    assert!(bind_auth_allowed("127.0.0.1:8080", &auth, false));
}
