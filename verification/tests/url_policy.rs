use zedazo::error::CardDavError;
use zedazo::url_policy::{
    ensure_trailing_slash, is_loopback_host, origin_key, origin_with_slash, parse_and_validate,
    resolve_href, resolve_redirect, same_collection, same_origin, validate_server_url, DavUrl,
};

#[test]
fn https_remoto_ok() {
    parse_and_validate("https://cloud.example.test/remote.php/dav/").unwrap();
}

#[test]
fn http_loopback_ok() {
    parse_and_validate("http://127.0.0.1:8080/dav/").unwrap();
    parse_and_validate("http://localhost/dav/").unwrap();
    parse_and_validate("http://[::1]/dav/").unwrap();
}

#[test]
fn http_remoto_prohibido() {
    let err = parse_and_validate("http://cloud.example.test/dav/").unwrap_err();
    assert!(matches!(err, CardDavError::CleartextForbidden));
}

#[test]
fn ftp_prohibido() {
    let err = parse_and_validate("ftp://127.0.0.1/dav").unwrap_err();
    assert!(matches!(err, CardDavError::UnsupportedScheme(_)));
}

#[test]
fn resolve_path_absolute() {
    let base = DavUrl::parse("https://cloud.example.test/remote.php/dav/").unwrap();
    let joined = resolve_href(&base, "/remote.php/dav/principals/users/ada/").unwrap();
    assert_eq!(
        joined.as_str(),
        "https://cloud.example.test/remote.php/dav/principals/users/ada/"
    );
}

#[test]
fn resolve_href_rechaza_loopback_inyectado() {
    let base = DavUrl::parse("https://cloud.example.test/remote.php/dav/").unwrap();
    let err = resolve_href(&base, "http://127.0.0.1:9/secret").unwrap_err();
    assert!(matches!(err, CardDavError::CrossOrigin { .. }));
    let err = resolve_href(&base, "//127.0.0.1/steal").unwrap_err();
    assert!(matches!(err, CardDavError::CrossOrigin { .. }));
    let err = resolve_href(&base, "https://evil.example.test/dav/").unwrap_err();
    assert!(matches!(err, CardDavError::CrossOrigin { .. }));
}

#[test]
fn resolve_href_acepta_absoluto_mismo_origen() {
    let base = DavUrl::parse("https://cloud.example.test/remote.php/dav/").unwrap();
    let joined = resolve_href(
        &base,
        "https://cloud.example.test/remote.php/dav/addressbooks/users/ada/",
    )
    .unwrap();
    assert!(joined.path().contains("/addressbooks/"));
}

#[test]
fn well_known_redirect_https_ok_loopback_no() {
    let base = DavUrl::parse("https://contacts.icloud.com/.well-known/carddav").unwrap();
    let ok = resolve_redirect(&base, "https://p01-contacts.icloud.com/", true).unwrap();
    assert_eq!(ok.host_str(), Some("p01-contacts.icloud.com"));
    let err = resolve_redirect(&base, "http://127.0.0.1:8080/", true).unwrap_err();
    assert!(matches!(
        err,
        CardDavError::CrossOrigin { .. } | CardDavError::CleartextForbidden
    ));
}

#[test]
fn redirect_to_remote_cleartext_is_refused() {
    let base = DavUrl::parse("https://contacts.example.test/.well-known/carddav").unwrap();
    let err = resolve_redirect(&base, "http://other.example.test/", true).unwrap_err();
    assert!(matches!(err, CardDavError::CleartextForbidden));
    let err = resolve_href(&base, "   ").unwrap_err();
    assert!(matches!(err, CardDavError::Protocol(_)));
}

#[test]
fn cross_origin_error_names_both_sides() {
    let base = DavUrl::parse("https://cloud.example.test:8443/dav/").unwrap();
    match resolve_href(&base, "https://evil.example.test/x").unwrap_err() {
        CardDavError::CrossOrigin { from, to } => {
            assert_eq!(from, "https://cloud.example.test:8443");
            assert_eq!(to, "https://evil.example.test/x");
        }
        other => panic!("unexpected {other:?}"),
    }
}

#[test]
fn loopback_hosts() {
    assert!(is_loopback_host("LocalHost"));
    assert!(is_loopback_host("127.9.9.9"));
    assert!(is_loopback_host("[::1]"));
    assert!(!is_loopback_host("::2"));
    assert!(!is_loopback_host("128.0.0.1"));
    assert!(!is_loopback_host("example.test"));
}

#[test]
fn validation_and_helpers() {
    let u = DavUrl::parse("https://Cloud.Example.test/a").unwrap();
    assert!(validate_server_url(&u).is_ok());
    let v = DavUrl::parse("https://cloud.example.test:443/b").unwrap();
    assert!(same_origin(&u, &v));
    let w = DavUrl::parse("https://cloud.example.test:444/b").unwrap();
    assert!(!same_origin(&u, &w));
    assert_eq!(origin_key(&w), "https://cloud.example.test:444");
    let s = ensure_trailing_slash(&u);
    assert_eq!(s.as_str(), "https://cloud.example.test/a/");
    assert!(same_collection(&u, &s));
    assert_eq!(origin_with_slash(&w).unwrap().as_str(), "https://cloud.example.test:444/");
}
