//! The CardDAV flows of the client, with the server's answers fed to the library's
//! decisions (loopback URLs, fixture documents).

use zedazo::client::{
    addressbooks_from, card_targets, dav_root_start, describe_from, expect_dav_ok, filter_cards,
    home_set_from, plan_create, plan_delete, plan_put, principal_from, retry_step,
    select_addressbook, sync_state_from, well_known_outcome, well_known_url, write_outcome,
    CardObject, PullResult, Redirects, RetryStep, WritePlan, MAX_RETRIES,
};
use zedazo::error::CardDavError;
use zedazo::url_policy::{ensure_trailing_slash, parse_and_validate, DavUrl};
use zedazo::xml::parse_multistatus;

const BASE: &str = "http://127.0.0.1:8080";
const VCARD: &str = "BEGIN:VCARD\r\nVERSION:4.0\r\nFN:Ada Example\r\nUID:urn:uuid:00000000-0000-4000-a000-000000000001\r\nEMAIL:ada@example.test\r\nEND:VCARD\r\n";
const HREF: &str = "/remote.php/dav/addressbooks/users/ada/contacts/ada.vcf";
const BOOK: &str = "/remote.php/dav/addressbooks/users/ada/contacts/";

fn url(path: &str) -> DavUrl {
    parse_and_validate(&format!("{BASE}{path}")).unwrap()
}

const PRINCIPAL: &str = r#"<?xml version="1.0"?>
<d:multistatus xmlns:d="DAV:">
  <d:response>
    <d:href>/remote.php/dav/</d:href>
    <d:propstat>
      <d:prop>
        <d:current-user-principal>
          <d:href>/remote.php/dav/principals/users/ada/</d:href>
        </d:current-user-principal>
      </d:prop>
      <d:status>HTTP/1.1 200 OK</d:status>
    </d:propstat>
  </d:response>
</d:multistatus>"#;

const HOME: &str = r#"<?xml version="1.0"?>
<d:multistatus xmlns:d="DAV:" xmlns:c="urn:ietf:params:xml:ns:carddav">
  <d:response>
    <d:href>/remote.php/dav/principals/users/ada/</d:href>
    <d:propstat>
      <d:prop>
        <c:addressbook-home-set>
          <d:href>/remote.php/dav/addressbooks/users/ada/</d:href>
        </c:addressbook-home-set>
      </d:prop>
      <d:status>HTTP/1.1 200 OK</d:status>
    </d:propstat>
  </d:response>
</d:multistatus>"#;

const HOME_LISTING: &str = r#"<?xml version="1.0"?>
<d:multistatus xmlns:d="DAV:" xmlns:card="urn:ietf:params:xml:ns:carddav">
  <d:response>
    <d:href>/remote.php/dav/addressbooks/users/ada/</d:href>
    <d:propstat>
      <d:prop>
        <d:displayname>Home</d:displayname>
        <d:resourcetype><d:collection/></d:resourcetype>
      </d:prop>
      <d:status>HTTP/1.1 200 OK</d:status>
    </d:propstat>
  </d:response>
  <d:response>
    <d:href>/remote.php/dav/addressbooks/users/ada/contacts/</d:href>
    <d:propstat>
      <d:prop>
        <d:displayname>Contactos</d:displayname>
        <d:resourcetype>
          <d:collection/>
          <card:addressbook/>
        </d:resourcetype>
      </d:prop>
      <d:status>HTTP/1.1 200 OK</d:status>
    </d:propstat>
  </d:response>
</d:multistatus>"#;

const CARDS_LISTING: &str = r#"<?xml version="1.0"?>
<d:multistatus xmlns:d="DAV:">
  <d:response>
    <d:href>/remote.php/dav/addressbooks/users/ada/contacts/</d:href>
    <d:propstat>
      <d:prop>
        <d:resourcetype>
          <d:collection/>
        </d:resourcetype>
      </d:prop>
      <d:status>HTTP/1.1 200 OK</d:status>
    </d:propstat>
  </d:response>
  <d:response>
    <d:href>/remote.php/dav/addressbooks/users/ada/contacts/ada.vcf</d:href>
    <d:propstat>
      <d:prop>
        <d:getcontenttype>text/vcard</d:getcontenttype>
        <d:getetag>"etag-1"</d:getetag>
        <d:resourcetype/>
      </d:prop>
      <d:status>HTTP/1.1 200 OK</d:status>
    </d:propstat>
  </d:response>
</d:multistatus>"#;

const EVIL_HREF: &str = r#"<?xml version="1.0"?>
<d:multistatus xmlns:d="DAV:" xmlns:card="urn:ietf:params:xml:ns:carddav">
  <d:response>
    <d:href>http://127.0.0.1:9/steal</d:href>
    <d:propstat>
      <d:prop>
        <d:displayname>Trampa</d:displayname>
        <d:resourcetype>
          <d:collection/>
          <card:addressbook/>
        </d:resourcetype>
      </d:prop>
      <d:status>HTTP/1.1 200 OK</d:status>
    </d:propstat>
  </d:response>
</d:multistatus>"#;

fn pull_cards(book: &DavUrl, listing: &str, body_for: impl Fn(&str) -> String) -> Vec<CardObject> {
    let targets = card_targets(book, &parse_multistatus(listing).unwrap()).unwrap();
    targets
        .into_iter()
        .map(|t| {
            let vcard = body_for(t.href.as_str());
            CardObject { href: t.href, etag: t.etag, vcard }
        })
        .collect()
}

#[test]
fn pull_via_well_known_and_nextcloud_paths() {
    let server = url("");
    let (given, origin) = dav_root_start(&server).unwrap();
    assert_eq!(given.as_str(), "http://127.0.0.1:8080/");
    // GET /.well-known/carddav → 301 /remote.php/dav/ → 401
    let mut hops = Redirects::new(well_known_url(&origin).unwrap(), true, true);
    assert_eq!(hops.before_send(), Ok(true));
    assert_eq!(hops.after_answer(301, Some(b"/remote.php/dav/")), Ok(true));
    assert_eq!(hops.after_answer(401, None), Ok(false));
    let dav_root = well_known_outcome(&origin, 401, hops.url()).unwrap();
    assert_eq!(dav_root.as_str(), "http://127.0.0.1:8080/remote.php/dav/");

    let principal = principal_from(&dav_root, &parse_multistatus(PRINCIPAL).unwrap()).unwrap();
    let home = home_set_from(&principal, &parse_multistatus(HOME).unwrap()).unwrap();
    let home = ensure_trailing_slash(&home);
    let books = addressbooks_from(&home, &parse_multistatus(HOME_LISTING).unwrap()).unwrap();
    assert_eq!(books.len(), 1);
    assert_eq!(books[0].displayname.as_deref(), Some("Contactos"));
    assert!(books[0].url.path().contains("/remote.php/dav/addressbooks/users/ada/contacts"));

    let selected = select_addressbook(&books, None, &server).unwrap();
    let cards = pull_cards(&selected.url, CARDS_LISTING, |_| VCARD.to_string());
    let pulled = PullResult { addressbook: selected, cards: filter_cards(&cards, &vec![]) };
    assert_eq!(pulled.cards.len(), 1);
    assert!(pulled.concatenated_vcf().contains("FN:Ada Example"));
    assert!(pulled.concatenated_vcf().contains("ada@example.test"));
}

#[test]
fn explicit_addressbook_skips_well_known() {
    let server = url("");
    let explicit = url(BOOK);
    let listing = parse_multistatus(CARDS_LISTING).unwrap();
    let books = vec![describe_from(ensure_trailing_slash(&explicit), &listing)];
    assert_eq!(books.len(), 1);
    let selected = select_addressbook(&books, Some(&explicit), &server).unwrap();
    let cards = pull_cards(&selected.url, CARDS_LISTING, |_| VCARD.to_string());
    let pulled = PullResult { addressbook: selected, cards };
    assert_eq!(pulled.cards.len(), 1);
    assert!(pulled.cards[0].vcard.contains("BEGIN:VCARD"));
}

#[test]
fn unauthorized_is_typed_error() {
    let err = expect_dav_ok(401, &url("/remote.php/dav/")).unwrap_err();
    assert!(matches!(err, CardDavError::Unauthorized(_)));
}

#[test]
fn persistent_429_exhausts_retries() {
    let mut outcome = None;
    for attempt in 0..MAX_RETRIES {
        match retry_step(attempt, 429, Some("0")) {
            RetryStep::Wait(_) => continue,
            RetryStep::Deliver => panic!("429 delivered"),
            RetryStep::GiveUp(e) => {
                outcome = Some(e);
                break;
            }
        }
    }
    assert!(matches!(outcome, Some(CardDavError::RetriesExhausted { .. })));
}

#[test]
fn dav_href_absoluto_a_otro_origen_no_se_sigue() {
    let home = url("/remote.php/dav/addressbooks/users/ada/");
    let err = addressbooks_from(&home, &parse_multistatus(EVIL_HREF).unwrap()).unwrap_err();
    assert!(matches!(err, CardDavError::CrossOrigin { .. }), "esperado CrossOrigin, obtuvo {err:?}");
}

const PROF_CARD: &str = "BEGIN:VCARD\r\nVERSION:4.0\r\nFN:Ada Juzgado\r\nCATEGORIES:PROF,PROF-JUD\r\nUID:urn:uuid:00000000-0000-4000-a000-0000000000aa\r\nEND:VCARD\r\n";
const FIN_CARD: &str = "BEGIN:VCARD\r\nVERSION:4.0\r\nFN:Banco Example\r\nCATEGORIES:FIN,FIN-CRYPTO\r\nUID:urn:uuid:00000000-0000-4000-a000-0000000000bb\r\nEND:VCARD\r\n";

const FILTER_LISTING: &str = r#"<?xml version="1.0"?>
<d:multistatus xmlns:d="DAV:">
  <d:response>
    <d:href>/remote.php/dav/addressbooks/users/ada/contacts/</d:href>
    <d:propstat>
      <d:prop>
        <d:resourcetype><d:collection/></d:resourcetype>
      </d:prop>
      <d:status>HTTP/1.1 200 OK</d:status>
    </d:propstat>
  </d:response>
  <d:response>
    <d:href>/remote.php/dav/addressbooks/users/ada/contacts/ada.vcf</d:href>
    <d:propstat>
      <d:prop>
        <d:getcontenttype>text/vcard</d:getcontenttype>
        <d:getetag>"e1"</d:getetag>
      </d:prop>
      <d:status>HTTP/1.1 200 OK</d:status>
    </d:propstat>
  </d:response>
  <d:response>
    <d:href>/remote.php/dav/addressbooks/users/ada/contacts/banco.vcf</d:href>
    <d:propstat>
      <d:prop>
        <d:getcontenttype>text/vcard</d:getcontenttype>
        <d:getetag>"e2"</d:getetag>
      </d:prop>
      <d:status>HTTP/1.1 200 OK</d:status>
    </d:propstat>
  </d:response>
</d:multistatus>"#;

#[test]
fn pull_category_filter_keeps_n1_and_n2_matches() {
    let book = url(BOOK);
    let body = |href: &str| if href.ends_with("ada.vcf") { PROF_CARD.to_string() } else { FIN_CARD.to_string() };
    let all = pull_cards(&book, FILTER_LISTING, body);
    assert_eq!(all.len(), 2);
    let pulled = |cats: Vec<String>| PullResult {
        addressbook: describe_from(book.clone(), &vec![]),
        cards: filter_cards(&all, &cats),
    };
    let only_prof = pulled(vec!["PROF-JUD".into()]);
    assert_eq!(only_prof.cards.len(), 1);
    assert!(only_prof.concatenated_vcf().contains("Ada Juzgado"));
    assert!(!only_prof.concatenated_vcf().contains("Banco Example"));
    let n1_fin = pulled(vec!["FIN".into()]);
    assert_eq!(n1_fin.cards.len(), 1);
    assert!(n1_fin.concatenated_vcf().contains("FIN-CRYPTO"));
}

fn sync_xml(ctag: &str, token: &str) -> String {
    format!(
        r#"<?xml version="1.0"?>
<d:multistatus xmlns:d="DAV:" xmlns:cs="http://calendarserver.org/ns/">
  <d:response>
    <d:href>{BOOK}</d:href>
    <d:propstat>
      <d:prop>
        <d:getetag>"col-etag"</d:getetag>
        <cs:getctag>{ctag}</cs:getctag>
        <d:sync-token>{token}</d:sync-token>
      </d:prop>
      <d:status>HTTP/1.1 200 OK</d:status>
    </d:propstat>
  </d:response>
</d:multistatus>"#
    )
}

#[test]
fn watch_detects_sync_token_and_ctag_change() {
    let book = url(BOOK);
    let first = sync_state_from(
        book.clone(),
        &parse_multistatus(&sync_xml("ctag-1", "https://example.test/sync/1")).unwrap(),
    );
    assert_eq!(first.ctag.as_deref(), Some("ctag-1"));
    assert_eq!(first.sync_token.as_deref(), Some("https://example.test/sync/1"));
    let second = sync_state_from(
        book,
        &parse_multistatus(&sync_xml("ctag-2", "https://example.test/sync/2")).unwrap(),
    );
    assert_eq!(second.ctag.as_deref(), Some("ctag-2"));
    assert_eq!(second.sync_token.as_deref(), Some("https://example.test/sync/2"));
    assert!(second.changed_from(&first));
    assert_eq!(second.fingerprint(), "https://example.test/sync/2");
}

/// The server's side of a conditional write: `If-Match` must name the current ETag,
/// `If-None-Match: *` needs an absent object.
fn server_status(plan: &WritePlan, current: Option<&str>, ok: u16) -> u16 {
    for (k, v) in &plan.headers {
        if k == "If-Match" && Some(v.trim_matches('"')) != current {
            return 412;
        }
        if k == "If-None-Match" && v == "*" && current.is_some() {
            return 412;
        }
    }
    ok
}

fn if_match(plan: &WritePlan) -> Option<String> {
    plan.headers.iter().find(|(k, _)| k == "If-Match").map(|(_, v)| v.clone())
}

#[test]
fn put_if_match_success_sends_quoted_etag() {
    let href = url(HREF);
    let plan = plan_put(&href, "etag-1").unwrap();
    let status = server_status(&plan, Some("etag-1"), 204);
    let written = write_outcome(status, href, &plan.etag_for_error, Some("\"etag-2\"")).unwrap();
    assert_eq!(written.status, 204);
    assert_eq!(written.etag.as_deref(), Some("etag-2"));
    let sent = if_match(&plan).expect("If-Match");
    assert_eq!(sent.trim_matches('"'), "etag-1");
}

#[test]
fn put_http_412_is_conflict_not_overwrite() {
    let href = url(HREF);
    let plan = plan_put(&href, "etag-stale").unwrap();
    let status = server_status(&plan, Some("etag-current"), 204);
    let err = write_outcome(status, href, &plan.etag_for_error, None).unwrap_err();
    assert!(matches!(err, CardDavError::PreconditionFailed { .. }), "esperado 412 tipado, obtuvo {err:?}");
}

#[test]
fn delete_http_412_is_conflict() {
    let href = url(HREF);
    let plan = plan_delete(&href, "viejo").unwrap();
    let status = server_status(&plan, Some("etag-current"), 204);
    let err = write_outcome(status, href, &plan.etag_for_error, None).unwrap_err();
    assert!(matches!(err, CardDavError::PreconditionFailed { .. }));
}

#[test]
fn delete_if_match_success() {
    let href = url(HREF);
    let plan = plan_delete(&href, "etag-1").unwrap();
    let status = server_status(&plan, Some("etag-1"), 204);
    let written = write_outcome(status, href, &plan.etag_for_error, None).unwrap();
    assert_eq!(written.status, 204);
}

#[test]
fn put_rejects_wildcard_etag_without_http() {
    let href = url(HREF);
    let err = plan_put(&href, "*").unwrap_err();
    assert!(matches!(err, CardDavError::MissingEtag));
}

#[test]
fn create_sends_if_none_match_star() {
    let href = url(HREF);
    let plan = plan_create(&href).unwrap();
    let status = server_status(&plan, None, 201);
    let written = write_outcome(status, href, &plan.etag_for_error, Some("\"new-1\"")).unwrap();
    assert_eq!(written.status, 201);
    let sent = plan.headers.iter().find(|(k, _)| k == "If-None-Match").map(|(_, v)| v.as_str());
    assert_eq!(sent, Some("*"));
}
