use zedazo::error::CardDavError;
use zedazo::xml::{
    looks_like_vcard, parse_http_status, parse_multistatus, propfind_collection,
    propfind_sync_state, unquote_etag, DavResponse,
};

const SAMPLE: &str = r#"<?xml version="1.0"?>
<d:multistatus xmlns:d="DAV:" xmlns:card="urn:ietf:params:xml:ns:carddav">
  <d:response>
    <d:href>/remote.php/dav/addressbooks/users/ada/</d:href>
    <d:propstat>
      <d:prop>
        <d:resourcetype><d:collection/></d:resourcetype>
        <d:current-user-principal>
          <d:href>/remote.php/dav/principals/users/ada/</d:href>
        </d:current-user-principal>
        <card:addressbook-home-set>
          <d:href>/remote.php/dav/addressbooks/users/ada/</d:href>
        </card:addressbook-home-set>
      </d:prop>
      <d:status>HTTP/1.1 200 OK</d:status>
    </d:propstat>
  </d:response>
  <d:response>
    <d:href>/remote.php/dav/addressbooks/users/ada/contacts/</d:href>
    <d:propstat>
      <d:prop>
        <d:displayname>Contactos</d:displayname>
        <d:getetag>"abc123"</d:getetag>
        <d:resourcetype>
          <d:collection/>
          <card:addressbook/>
        </d:resourcetype>
      </d:prop>
      <d:status>HTTP/1.1 200 OK</d:status>
    </d:propstat>
  </d:response>
  <d:response>
    <d:href>/remote.php/dav/addressbooks/users/ada/contacts/ada.vcf</d:href>
    <d:propstat>
      <d:prop>
        <d:getcontenttype>text/vcard; charset=utf-8</d:getcontenttype>
        <d:getetag>"card-1"</d:getetag>
        <d:resourcetype/>
      </d:prop>
      <d:status>HTTP/1.1 200 OK</d:status>
    </d:propstat>
  </d:response>
</d:multistatus>"#;

fn chars(s: &str) -> Vec<char> {
    s.chars().collect()
}

#[test]
fn parse_principal_home_addressbook_and_card() {
    let all = parse_multistatus(SAMPLE).unwrap();
    assert_eq!(all.len(), 3);
    assert_eq!(
        all[0].current_user_principal.as_deref(),
        Some("/remote.php/dav/principals/users/ada/")
    );
    assert_eq!(
        all[0].addressbook_home_set.as_deref(),
        Some("/remote.php/dav/addressbooks/users/ada/")
    );
    assert!(all[1].is_addressbook);
    assert_eq!(all[1].displayname.as_deref(), Some("Contactos"));
    assert_eq!(all[1].etag.as_deref(), Some("abc123"));
    assert!(looks_like_vcard(&all[2]));
    assert!(!looks_like_vcard(&all[1]));
}

#[test]
fn rejects_non_multistatus() {
    let err = parse_multistatus("<html>no</html>").unwrap_err();
    assert!(matches!(err, CardDavError::Protocol(_)));
}

#[test]
fn non_multistatus_message_names_the_root() {
    let err = parse_multistatus("<html>no</html>").unwrap_err();
    assert_eq!(
        err,
        CardDavError::Protocol("se esperaba multistatus DAV, se obtuvo <html>".to_string())
    );
}

#[test]
fn malformed_xml_is_protocol_error() {
    let err = parse_multistatus("<d:multistatus xmlns:d=\"DAV:\">").unwrap_err();
    assert!(matches!(err, CardDavError::Protocol(_)));
}

#[test]
fn leading_byte_order_marks_are_ignored() {
    let text = format!("\u{feff}\u{feff}{SAMPLE}");
    let all = parse_multistatus(&text).unwrap();
    assert_eq!(all.len(), 3);
}

#[test]
fn failed_propstat_is_skipped_but_its_status_kept() {
    let xml = r#"<d:multistatus xmlns:d="DAV:">
  <d:response>
    <d:href>/book/</d:href>
    <d:propstat>
      <d:prop><d:displayname>Hidden</d:displayname></d:prop>
      <d:status>HTTP/1.1 404 Not Found</d:status>
    </d:propstat>
    <d:propstat>
      <d:prop><d:getetag>"e9"</d:getetag></d:prop>
      <d:status>HTTP/1.1 200 OK</d:status>
    </d:propstat>
  </d:response>
</d:multistatus>"#;
    let all = parse_multistatus(xml).unwrap();
    assert_eq!(all.len(), 1);
    assert_eq!(all[0].status, Some(404));
    assert_eq!(all[0].displayname, None);
    assert_eq!(all[0].etag.as_deref(), Some("e9"));
    assert_eq!(all[0].href, "/book/");
}

#[test]
fn prop_directly_under_response_is_read() {
    let xml = r#"<D:multistatus xmlns:D="DAV:">
  <D:response>
    <D:href> /book/ </D:href>
    <D:prop><D:displayname>  Libreta  </D:displayname></D:prop>
  </D:response>
</D:multistatus>"#;
    let all = parse_multistatus(xml).unwrap();
    assert_eq!(all[0].href, "/book/");
    assert_eq!(all[0].displayname.as_deref(), Some("Libreta"));
    assert_eq!(all[0].status, None);
}

#[test]
fn ctag_and_sync_token_are_read() {
    let xml = r#"<d:multistatus xmlns:d="DAV:" xmlns:cs="http://calendarserver.org/ns/">
  <d:response>
    <d:href>/book/</d:href>
    <d:propstat>
      <d:prop>
        <cs:getctag>ctag-7</cs:getctag>
        <d:sync-token>http://example.test/sync/42</d:sync-token>
      </d:prop>
      <d:status>HTTP/1.1 200 OK</d:status>
    </d:propstat>
  </d:response>
</d:multistatus>"#;
    let all = parse_multistatus(xml).unwrap();
    assert_eq!(all[0].ctag.as_deref(), Some("ctag-7"));
    assert_eq!(all[0].sync_token.as_deref(), Some("http://example.test/sync/42"));
}

#[test]
fn http_status_is_the_second_word() {
    assert_eq!(parse_http_status(&chars("HTTP/1.1 207 Multi-Status")), Some(207));
    assert_eq!(parse_http_status(&chars("  HTTP/1.1\t404")), Some(404));
    assert_eq!(parse_http_status(&chars("HTTP/1.1")), None);
    assert_eq!(parse_http_status(&chars("HTTP/1.1 OK")), None);
    assert_eq!(parse_http_status(&chars("HTTP/1.1 70000")), None);
    assert_eq!(parse_http_status(&chars("")), None);
}

#[test]
fn etag_quotes_are_removed() {
    let v: String = unquote_etag(&chars("  \"abc\"  ")).into_iter().collect();
    assert_eq!(v, "abc");
    let w: String = unquote_etag(&chars("\"\"\"")).into_iter().collect();
    assert_eq!(w, "");
}

#[test]
fn vcard_detection_rules() {
    let mut r = DavResponse::default();
    r.href = "/book/card.VCF".to_string();
    r.content_type = Some("text/plain".to_string());
    assert!(looks_like_vcard(&r));
    r.href = "/book/card".to_string();
    assert!(!looks_like_vcard(&r));
    r.content_type = None;
    assert!(looks_like_vcard(&r));
    r.href = "/book/sub/".to_string();
    assert!(!looks_like_vcard(&r));
    r.href = "/book/x".to_string();
    r.content_type = Some("TEXT/VCARD".to_string());
    r.is_collection = true;
    assert!(!looks_like_vcard(&r));
}

#[test]
fn propfind_bodies_ask_for_their_properties() {
    assert!(propfind_collection().contains("<d:resourcetype/>"));
    assert!(propfind_sync_state().contains("getctag"));
    assert!(propfind_sync_state().contains("sync-token"));
}
