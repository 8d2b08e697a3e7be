use std::time::Duration;

use zedazo::client::{
    addressbooks_from, backoff, card_targets, expect_dav_ok, filter_cards, home_set_from,
    principal_from, pull_result, quote_etag, plan_create, plan_delete, plan_put, request_headers,
    require_concrete_etag, retry_after_delay, retry_step, select_addressbook, status_error,
    sync_state_from, sync_target, unquote_header_etag, well_known_outcome, write_outcome,
    Addressbook, CardObject, PullResult, Redirects, RetryStep, SyncState, MAX_RETRIES,
};
use zedazo::error::CardDavError;
use zedazo::url_policy::{parse_and_validate, DavUrl};
use zedazo::xml::parse_multistatus;

fn url(s: &str) -> DavUrl {
    parse_and_validate(s).unwrap()
}

#[test]
fn backoff_grows_and_caps() {
    assert_eq!(Duration::from_millis(backoff(0)), Duration::from_millis(200));
    assert_eq!(Duration::from_millis(backoff(1)), Duration::from_millis(400));
    assert!(Duration::from_millis(backoff(8)) <= Duration::from_millis(5_000));
}

#[test]
fn backoff_exact_values() {
    assert_eq!(backoff(2), 800);
    assert_eq!(backoff(4), 3200);
    assert_eq!(backoff(5), 5000);
    assert_eq!(backoff(u32::MAX), 5000);
}

#[test]
fn etag_helpers_reject_wildcard() {
    assert!(matches!(require_concrete_etag("*"), Err(CardDavError::MissingEtag)));
    assert!(matches!(require_concrete_etag("  "), Err(CardDavError::MissingEtag)));
    assert_eq!(require_concrete_etag("\"abc\"").unwrap(), "abc");
    assert_eq!(quote_etag("abc"), "\"abc\"");
    assert_eq!(quote_etag("\"abc\""), "\"abc\"");
}

#[test]
fn weak_etags_keep_their_marker_when_quoted() {
    assert_eq!(unquote_header_etag(" W/\"v1\" "), "v1");
    assert_eq!(unquote_header_etag("w/ \"v2\""), "v2");
    assert_eq!(quote_etag("W/\"v1\""), "W/\"v1\"");
}

#[test]
fn retry_after_integer_seconds_capped() {
    assert_eq!(retry_after_delay(Some("5")).map(Duration::from_secs), Some(Duration::from_secs(5)));
    assert_eq!(retry_after_delay(Some("120")).map(Duration::from_secs), Some(Duration::from_secs(30)));
    assert_eq!(retry_after_delay(Some("Wed, 21 Oct 2015 07:28:00 GMT")), None);
}

#[test]
fn retry_after_absent_or_blank() {
    assert_eq!(retry_after_delay(None), None);
    assert_eq!(retry_after_delay(Some(" 7 ")), Some(7));
    assert_eq!(retry_after_delay(Some("18446744073709551615")), Some(30));
    assert_eq!(retry_after_delay(Some("-1")), None);
}

#[test]
fn persistent_throttling_gives_up_on_the_last_attempt() {
    let mut waits = Vec::new();
    for attempt in 0..MAX_RETRIES {
        match retry_step(attempt, 429, Some("0")) {
            RetryStep::Wait(ms) => waits.push(ms),
            RetryStep::GiveUp(e) => {
                assert_eq!(attempt, MAX_RETRIES - 1);
                assert_eq!(
                    e,
                    CardDavError::RetriesExhausted { attempts: 4, retry_after: Some(0) }
                );
            }
            RetryStep::Deliver => panic!("throttled answer delivered"),
        }
    }
    assert_eq!(waits, vec![0, 0, 0]);
    assert_eq!(retry_step(0, 503, None), RetryStep::Wait(200));
    assert_eq!(retry_step(1, 200, None), RetryStep::Deliver);
    assert_eq!(retry_step(2, 503, Some("9")), RetryStep::Wait(9000));
}

#[test]
fn sync_state_detects_token_change() {
    let book = DavUrl::parse("http://127.0.0.1/book/").unwrap();
    let a = SyncState {
        addressbook: book.clone(),
        ctag: Some("1".into()),
        sync_token: None,
        etag: None,
    };
    let b = SyncState {
        addressbook: book,
        ctag: Some("2".into()),
        sync_token: None,
        etag: None,
    };
    assert!(b.changed_from(&a));
    assert!(!a.changed_from(&a));
}

#[test]
fn fingerprint_prefers_sync_token_then_ctag_then_etag() {
    let book = DavUrl::parse("http://127.0.0.1/book/").unwrap();
    let s = SyncState {
        addressbook: book.clone(),
        ctag: Some("c".into()),
        sync_token: Some("t".into()),
        etag: Some("e".into()),
    };
    assert_eq!(s.fingerprint(), "t");
    let s2 = SyncState { addressbook: book.clone(), ctag: None, sync_token: None, etag: Some("e".into()) };
    assert_eq!(s2.fingerprint(), "e");
    let s3 = SyncState { addressbook: book, ctag: None, sync_token: None, etag: None };
    assert_eq!(s3.fingerprint(), "");
}

#[test]
fn write_answers_are_typed() {
    let href = url("http://127.0.0.1/book/ada.vcf");
    let ok = write_outcome(204, href.clone(), "\"etag-1\"", Some("\"etag-2\"")).unwrap();
    assert_eq!(ok.status, 204);
    assert_eq!(ok.etag.as_deref(), Some("etag-2"));
    let created = write_outcome(201, href.clone(), "*", None).unwrap();
    assert_eq!(created.etag, None);
    assert_eq!(
        write_outcome(412, href.clone(), "\"stale\"", None).unwrap_err(),
        CardDavError::PreconditionFailed {
            url: "http://127.0.0.1/book/ada.vcf".into(),
            etag: "\"stale\"".into()
        }
    );
    assert_eq!(
        write_outcome(401, href.clone(), "x", None).unwrap_err(),
        CardDavError::Unauthorized("http://127.0.0.1/book/ada.vcf".into())
    );
    assert_eq!(
        write_outcome(500, href, "x", None).unwrap_err(),
        CardDavError::HttpStatus {
            status: 500,
            url: "http://127.0.0.1/book/ada.vcf".into(),
            detail: "Internal Server Error".into()
        }
    );
}

#[test]
fn status_errors_and_dav_answers() {
    let u = url("http://127.0.0.1/dav/");
    assert!(matches!(expect_dav_ok(401, &u), Err(CardDavError::Unauthorized(_))));
    assert!(expect_dav_ok(207, &u).is_ok());
    assert!(expect_dav_ok(200, &u).is_ok());
    assert!(matches!(expect_dav_ok(404, &u), Err(CardDavError::HttpStatus { status: 404, .. })));
    assert!(matches!(
        status_error(412, &u),
        CardDavError::PreconditionFailed { ref etag, .. } if etag.is_empty()
    ));
    assert_eq!(
        status_error(599, &u),
        CardDavError::HttpStatus { status: 599, url: "http://127.0.0.1/dav/".into(), detail: "sin motivo".into() }
    );
}

#[test]
fn write_plans_carry_a_precondition() {
    let href = url("http://127.0.0.1/book/ada.vcf");
    assert_eq!(plan_put(&href, "*").unwrap_err(), CardDavError::MissingEtag);
    let put = plan_put(&href, "etag-1").unwrap();
    assert_eq!(
        put.headers,
        vec![
            ("If-Match".to_string(), "\"etag-1\"".to_string()),
            ("Content-Type".to_string(), "text/vcard; charset=utf-8".to_string())
        ]
    );
    assert_eq!(put.etag_for_error, "\"etag-1\"");
    let create = plan_create(&href).unwrap();
    assert_eq!(create.headers[0], ("If-None-Match".to_string(), "*".to_string()));
    let del = plan_delete(&href, "\"etag-1\"").unwrap();
    assert_eq!(del.headers, vec![("If-Match".to_string(), "\"etag-1\"".to_string())]);
    let remote = DavUrl::parse("http://cloud.example.test/ada.vcf").unwrap();
    assert_eq!(plan_create(&remote).unwrap_err(), CardDavError::CleartextForbidden);
}

#[test]
fn request_headers_add_xml_type_only_when_missing() {
    let none: Vec<(String, String)> = vec![];
    let h = request_headers(Some("1"), true, &none);
    assert_eq!(
        h,
        vec![
            ("Depth".to_string(), "1".to_string()),
            ("Content-Type".to_string(), "application/xml; charset=utf-8".to_string())
        ]
    );
    let extra = vec![("content-type".to_string(), "text/vcard".to_string())];
    assert_eq!(request_headers(None, true, &extra), extra);
    assert!(request_headers(None, false, &none).is_empty());
}

#[test]
fn redirects_are_followed_on_the_same_origin_only() {
    let mut r = Redirects::new(url("http://127.0.0.1:8080/.well-known/carddav"), false, true);
    assert_eq!(r.before_send(), Ok(true));
    assert_eq!(r.after_answer(301, Some(b"/remote.php/dav/")), Ok(true));
    assert_eq!(r.url().as_str(), "http://127.0.0.1:8080/remote.php/dav/");
    assert_eq!(r.hops(), 1);
    assert_eq!(r.after_answer(207, None), Ok(false));
    let e = r.after_answer(302, Some(b"http://127.0.0.2/x")).unwrap_err();
    assert!(matches!(e, CardDavError::CrossOrigin { .. }));
    assert_eq!(
        r.after_answer(302, None).unwrap_err(),
        CardDavError::Protocol(
            "redirección sin Location desde http://127.0.0.1:8080/remote.php/dav/".into()
        )
    );
    assert_eq!(
        r.after_answer(302, Some(&[0x80u8][..])).unwrap_err(),
        CardDavError::Protocol("Location no ASCII".into())
    );
}

#[test]
fn redirect_chain_is_bounded() {
    let mut r = Redirects::new(url("http://127.0.0.1/a"), false, true);
    for _ in 0..8 {
        assert_eq!(r.after_answer(307, Some(b"/a")), Ok(true));
    }
    assert_eq!(
        r.after_answer(307, Some(b"/a")).unwrap_err(),
        CardDavError::Protocol("demasiadas redirecciones desde http://127.0.0.1/a".into())
    );
}

#[test]
fn credentials_do_not_follow_a_host_change() {
    let mut r = Redirects::new(url("https://example.test/.well-known/carddav"), true, true);
    assert_eq!(r.after_answer(301, Some(b"https://dav.example.test/dav/")), Ok(true));
    assert_eq!(r.before_send(), Ok(false));
    let mut s = Redirects::new(url("https://example.test/.well-known/carddav"), false, true);
    assert!(s.after_answer(301, Some(b"https://dav.example.test/dav/")).is_err());
}

const HOME_LISTING: &str = r#"<?xml version="1.0"?>
<d:multistatus xmlns:d="DAV:" xmlns:card="urn:ietf:params:xml:ns:carddav">
  <d:response>
    <d:href>/remote.php/dav/addressbooks/users/ada/</d:href>
    <d:propstat>
      <d:prop>
        <d:displayname>Home</d:displayname>
        <d:resourcetype><d:collection/></d:resourcetype>
      </d:prop>
      <d:status>HTTP/1.1 200 OK</d:status>
    </d:propstat>
  </d:response>
  <d:response>
    <d:href>/remote.php/dav/addressbooks/users/ada/contacts/</d:href>
    <d:propstat>
      <d:prop>
        <d:displayname>Contactos</d:displayname>
        <d:resourcetype>
          <d:collection/>
          <card:addressbook/>
        </d:resourcetype>
      </d:prop>
      <d:status>HTTP/1.1 200 OK</d:status>
    </d:propstat>
  </d:response>
</d:multistatus>"#;

const CARDS_LISTING: &str = r#"<?xml version="1.0"?>
<d:multistatus xmlns:d="DAV:">
  <d:response>
    <d:href>/remote.php/dav/addressbooks/users/ada/contacts/</d:href>
    <d:propstat>
      <d:prop>
        <d:resourcetype>
          <d:collection/>
        </d:resourcetype>
      </d:prop>
      <d:status>HTTP/1.1 200 OK</d:status>
    </d:propstat>
  </d:response>
  <d:response>
    <d:href>/remote.php/dav/addressbooks/users/ada/contacts/ada.vcf</d:href>
    <d:propstat>
      <d:prop>
        <d:getcontenttype>text/vcard</d:getcontenttype>
        <d:getetag>"etag-1"</d:getetag>
        <d:resourcetype/>
      </d:prop>
      <d:status>HTTP/1.1 200 OK</d:status>
    </d:propstat>
  </d:response>
</d:multistatus>"#;

const EVIL_HREF: &str = r#"<?xml version="1.0"?>
<d:multistatus xmlns:d="DAV:" xmlns:card="urn:ietf:params:xml:ns:carddav">
  <d:response>
    <d:href>http://127.0.0.1:9/steal</d:href>
    <d:propstat>
      <d:prop>
        <d:displayname>Trampa</d:displayname>
        <d:resourcetype>
          <d:collection/>
          <card:addressbook/>
        </d:resourcetype>
      </d:prop>
      <d:status>HTTP/1.1 200 OK</d:status>
    </d:propstat>
  </d:response>
</d:multistatus>"#;

#[test]
fn addressbooks_are_listed_from_the_home_set() {
    let home = url("http://127.0.0.1:8080/remote.php/dav/addressbooks/users/ada/");
    let books = addressbooks_from(&home, &parse_multistatus(HOME_LISTING).unwrap()).unwrap();
    assert_eq!(books.len(), 1);
    assert_eq!(books[0].displayname.as_deref(), Some("Contactos"));
    assert_eq!(
        books[0].url.as_str(),
        "http://127.0.0.1:8080/remote.php/dav/addressbooks/users/ada/contacts/"
    );
}

#[test]
fn href_to_another_origin_is_refused() {
    let home = url("http://127.0.0.1:8080/remote.php/dav/addressbooks/users/ada/");
    let err = addressbooks_from(&home, &parse_multistatus(EVIL_HREF).unwrap()).unwrap_err();
    assert!(matches!(err, CardDavError::CrossOrigin { .. }), "got {err:?}");
}

#[test]
fn cards_are_listed_without_the_collection() {
    let book = url("http://127.0.0.1:8080/remote.php/dav/addressbooks/users/ada/contacts/");
    let targets = card_targets(&book, &parse_multistatus(CARDS_LISTING).unwrap()).unwrap();
    assert_eq!(targets.len(), 1);
    assert_eq!(
        targets[0].href.as_str(),
        "http://127.0.0.1:8080/remote.php/dav/addressbooks/users/ada/contacts/ada.vcf"
    );
    assert_eq!(targets[0].etag.as_deref(), Some("etag-1"));
}

#[test]
fn principal_and_home_set_are_resolved() {
    let xml = r#"<d:multistatus xmlns:d="DAV:" xmlns:c="urn:ietf:params:xml:ns:carddav">
  <d:response>
    <d:href>/remote.php/dav/</d:href>
    <d:propstat>
      <d:prop>
        <d:current-user-principal><d:href>/remote.php/dav/principals/users/ada/</d:href></d:current-user-principal>
      </d:prop>
      <d:status>HTTP/1.1 200 OK</d:status>
    </d:propstat>
  </d:response>
</d:multistatus>"#;
    let base = url("http://127.0.0.1:8080/remote.php/dav/");
    let rs = parse_multistatus(xml).unwrap();
    assert_eq!(
        principal_from(&base, &rs).unwrap().as_str(),
        "http://127.0.0.1:8080/remote.php/dav/principals/users/ada/"
    );
    assert_eq!(
        home_set_from(&base, &rs).unwrap_err(),
        CardDavError::Protocol("addressbook-home-set ausente".into())
    );
}

fn book(u: &str, name: Option<&str>) -> Addressbook {
    Addressbook {
        url: url(u),
        displayname: name.map(str::to_string),
        etag: None,
        ctag: None,
        sync_token: None,
    }
}

#[test]
fn the_addressbook_to_pull_is_chosen() {
    let server = url("http://127.0.0.1/dav/");
    let books = vec![book("http://127.0.0.1/dav/a/", Some("A")), book("http://127.0.0.1/dav/b/", Some("B"))];
    assert_eq!(
        select_addressbook(&books, None, &server).unwrap_err(),
        CardDavError::AmbiguousAddressbook { count: 2 }
    );
    let wanted = url("http://127.0.0.1/dav/b");
    let chosen = select_addressbook(&books, Some(&wanted), &server).unwrap();
    assert_eq!(chosen.displayname.as_deref(), Some("B"));
    let other = url("http://127.0.0.1/dav/c");
    let given = select_addressbook(&books, Some(&other), &server).unwrap();
    assert_eq!(given.url.as_str(), "http://127.0.0.1/dav/c/");
    assert_eq!(given.displayname, None);
    assert_eq!(
        select_addressbook(&vec![], None, &server).unwrap_err(),
        CardDavError::NoAddressbook("http://127.0.0.1/dav/".into())
    );
    let one = vec![book("http://127.0.0.1/dav/a", None)];
    assert_eq!(sync_target(&one, None, &server).unwrap().as_str(), "http://127.0.0.1/dav/a/");
}

#[test]
fn sync_state_comes_from_the_first_response() {
    let xml = r#"<d:multistatus xmlns:d="DAV:" xmlns:cs="http://calendarserver.org/ns/">
  <d:response><d:href>/b/</d:href><d:propstat><d:prop><cs:getctag>7</cs:getctag></d:prop><d:status>HTTP/1.1 200 OK</d:status></d:propstat></d:response>
</d:multistatus>"#;
    let s = sync_state_from(url("http://127.0.0.1/b/"), &parse_multistatus(xml).unwrap());
    assert_eq!(s.ctag.as_deref(), Some("7"));
    assert_eq!(s.sync_token, None);
    let empty = sync_state_from(url("http://127.0.0.1/b/"), &vec![]);
    assert_eq!(empty.fingerprint(), "");
}

const PROF_CARD: &str = "BEGIN:VCARD\r\nVERSION:4.0\r\nFN:Ada Juzgado\r\nCATEGORIES:PROF,PROF-JUD\r\nUID:urn:uuid:00000000-0000-4000-a000-0000000000aa\r\nEND:VCARD\r\n";
const FIN_CARD: &str = "BEGIN:VCARD\r\nVERSION:4.0\r\nFN:Banco Example\r\nCATEGORIES:FIN,FIN-CRYPTO\r\nUID:urn:uuid:00000000-0000-4000-a000-0000000000bb\r\nEND:VCARD\r\n";

fn card(path: &str, body: &str) -> CardObject {
    CardObject { href: url(path), etag: None, vcard: body.to_string() }
}

#[test]
fn category_filter_keeps_matching_cards() {
    let cards = vec![card("http://127.0.0.1/b/ada.vcf", PROF_CARD), card("http://127.0.0.1/b/banco.vcf", FIN_CARD)];
    let kept = filter_cards(&cards, &vec!["PROF".to_string()]);
    assert_eq!(kept.len(), 1);
    assert!(kept[0].vcard.contains("Ada Juzgado"));
    let kept2 = filter_cards(&cards, &vec!["FIN-CRYPTO".to_string()]);
    assert_eq!(kept2.len(), 1);
    assert!(kept2[0].vcard.contains("Banco"));
    assert_eq!(filter_cards(&cards, &vec![]).len(), 2);
}

#[test]
fn pulled_cards_are_concatenated() {
    let pulled = PullResult {
        addressbook: book("http://127.0.0.1/b/", None),
        cards: vec![
            card("http://127.0.0.1/b/1.vcf", "  BEGIN:VCARD\r\nEND:VCARD\r\n"),
            card("http://127.0.0.1/b/2.vcf", "   "),
            card("http://127.0.0.1/b/3.vcf", "BEGIN:VCARD\nEND:VCARD"),
        ],
    };
    assert_eq!(pulled.concatenated_vcf(), "BEGIN:VCARD\r\nEND:VCARD\nBEGIN:VCARD\nEND:VCARD\n");
}

#[test]
fn well_known_answers() {
    let origin = url("https://example.test/");
    let fin = url("https://dav.example.test/remote.php/dav");
    assert_eq!(
        well_known_outcome(&origin, 200, &fin).unwrap().as_str(),
        "https://dav.example.test/remote.php/dav/"
    );
    let still = url("https://example.test/.well-known/carddav");
    assert_eq!(well_known_outcome(&origin, 401, &still).unwrap().as_str(), "https://example.test/");
    assert!(well_known_outcome(&origin, 404, &fin).is_none());
}

#[test]
fn filtered_pull_is_plain_pull_filtered() {
    let cards = vec![card("http://127.0.0.1/b/ada.vcf", PROF_CARD), card("http://127.0.0.1/b/banco.vcf", FIN_CARD)];
    let plain = pull_result(book("http://127.0.0.1/b/", None), &cards, &vec![]);
    assert_eq!(plain.cards.len(), 2);
    let wanted = vec!["PROF-JUD".to_string()];
    let filtered = pull_result(book("http://127.0.0.1/b/", None), &cards, &wanted);
    assert_eq!(filtered.addressbook.url.as_str(), "http://127.0.0.1/b/");
    assert_eq!(filtered.cards.len(), 1);
    assert_eq!(filtered.cards[0].href.as_str(), "http://127.0.0.1/b/ada.vcf");
    let again = filter_cards(&plain.cards, &wanted);
    assert_eq!(again.len(), filtered.cards.len());
    assert_eq!(again[0].vcard, filtered.cards[0].vcard);
}
