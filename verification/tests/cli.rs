use zedazo::cli::{
    conflict_message, parse_categories, put_kind, require_confirm, resolve_object_href,
    watch_action, CarddavOpts, CliError, PutKind, WatchAction, WatchCycles,
};
use zedazo::client::SyncState;
use zedazo::url_policy::DavUrl;
use zedazo::error::CardDavError;

fn opts(url: Option<&str>, addressbook: Option<&str>) -> CarddavOpts {
    CarddavOpts {
        url: url.map(str::to_string),
        username: None,
        addressbook: addressbook.map(str::to_string),
        config: None,
    }
}

#[test]
fn write_exige_confirm() {
    assert!(require_confirm(false, "put").is_err());
    assert!(require_confirm(true, "put").is_ok());
}

#[test]
fn confirm_refusal_names_the_operation() {
    let m = require_confirm(false, "delete").unwrap_err();
    assert!(m.starts_with("escritura CardDAV opt-in: delete exige --confirm"));
}

#[test]
fn categories_are_normalised_or_refused() {
    let ok = parse_categories(&vec!["prof".to_string(), " fin-crypto ".to_string()]).unwrap();
    assert_eq!(ok, vec!["PROF".to_string(), "FIN-CRYPTO".to_string()]);
    let bad = parse_categories(&vec!["PROF".to_string(), "nope!".to_string()]).unwrap_err();
    assert!(matches!(bad, CardDavError::UnknownCategory(_)));
    assert!(parse_categories(&vec![]).unwrap().is_empty());
}

#[test]
fn object_href_resolution() {
    let abs = resolve_object_href(&opts(None, None), "http://127.0.0.1/b/x.vcf", None).unwrap();
    assert_eq!(abs.as_str(), "http://127.0.0.1/b/x.vcf");
    let rel = resolve_object_href(&opts(None, Some("http://127.0.0.1/book/")), "x.vcf", None).unwrap();
    assert_eq!(rel.as_str(), "http://127.0.0.1/book/x.vcf");
    let env = resolve_object_href(&opts(Some("http://127.0.0.1/"), None), "x.vcf", Some("http://127.0.0.1/env/")).unwrap();
    assert_eq!(env.as_str(), "http://127.0.0.1/env/x.vcf");
    let blank_env = resolve_object_href(&opts(Some("http://127.0.0.1/u/"), None), "x.vcf", Some("  ")).unwrap();
    assert_eq!(blank_env.as_str(), "http://127.0.0.1/u/x.vcf");
    assert_eq!(
        resolve_object_href(&opts(None, None), "x.vcf", None).unwrap_err(),
        CliError::Usage("href relativo: indica --addressbook o --url (o ZEDAZO_CARDDAV_*)".into())
    );
    let cross = resolve_object_href(&opts(None, Some("http://127.0.0.1/book/")), "//127.0.0.2/x.vcf", None).unwrap_err();
    assert!(matches!(cross, CliError::CardDav(CardDavError::CrossOrigin { .. })));
    let remote = resolve_object_href(&opts(None, None), "http://example.test/x.vcf", None).unwrap_err();
    assert_eq!(remote, CliError::CardDav(CardDavError::CleartextForbidden));
}

#[test]
fn put_needs_an_etag_unless_creating() {
    assert_eq!(put_kind(true, None), Ok(PutKind::Create));
    assert_eq!(put_kind(false, Some("e1".into())), Ok(PutKind::Update("e1".into())));
    assert_eq!(put_kind(false, None), Err(CardDavError::MissingEtag));
}

#[test]
fn conflict_messages() {
    assert_eq!(
        conflict_message("http://h/x.vcf", "\"e\"", true),
        "conflicto CardDAV (HTTP 412) en http://h/x.vcf: If-Match \"e\" no coincide; no se borró."
    );
    assert!(conflict_message("u", "e", false).ends_with("revisa el ETag."));
}

#[test]
fn watch_runs_its_cycles() {
    let mut once = WatchCycles::new(true, 99);
    assert!(once.after_cycle());
    let mut three = WatchCycles::new(false, 3);
    assert!(!three.after_cycle());
    assert!(!three.after_cycle());
    assert!(three.after_cycle());
    let mut endless = WatchCycles::new(false, 0);
    for _ in 0..10 {
        assert!(!endless.after_cycle());
    }
}

#[test]
fn watch_pulls_only_on_change_with_output() {
    let book = DavUrl::parse("http://127.0.0.1/book/").unwrap();
    let state = |ctag: &str| SyncState {
        addressbook: book.clone(),
        ctag: Some(ctag.to_string()),
        sync_token: None,
        etag: None,
    };
    assert_eq!(watch_action(&state("1"), &state("1"), true), WatchAction::Unchanged);
    assert_eq!(watch_action(&state("1"), &state("2"), true), WatchAction::PullAndRecord);
    assert_eq!(watch_action(&state("1"), &state("2"), false), WatchAction::Record);
}
