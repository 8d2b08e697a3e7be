use zedazo::error::CardDavError;
use zedazo::filter::{
    category_matches, extract_categories, is_taxonomy_code, parse_category_filter,
    unfold_vcard, vcard_matches_categories, TAXONOMY_N1,
};

#[test]
fn parse_normalizes_and_rejects_garbage() {
    assert_eq!(parse_category_filter("prof-jud").unwrap(), "PROF-JUD");
    assert_eq!(parse_category_filter(" FIN ").unwrap(), "FIN");
    assert!(matches!(
        parse_category_filter("not a category"),
        Err(CardDavError::UnknownCategory(_))
    ));
    assert!(matches!(
        parse_category_filter(""),
        Err(CardDavError::UnknownCategory(_))
    ));
}

#[test]
fn extract_handles_fold_and_params() {
    let vcard = "BEGIN:VCARD\nCATEGORIES:PROF,\n PROF-JUD\nFN:Ada\nEND:VCARD\n";
    let cats = extract_categories(vcard);
    assert_eq!(cats, vec!["PROF", "PROF-JUD"]);

    let typed = "CATEGORIES;LANGUAGE=es:FIN,FIN-CRYPTO\n";
    assert_eq!(extract_categories(typed), vec!["FIN", "FIN-CRYPTO"]);
}

#[test]
fn n1_filter_matches_n2_child_not_the_reverse() {
    assert!(category_matches("PROF-JUD", "PROF"));
    assert!(category_matches("PROF-JUD", "PROF-JUD"));
    assert!(!category_matches("PROF", "PROF-JUD"));
    assert!(!category_matches("FIN-CRYPTO", "PROF"));
}

#[test]
fn vcard_or_filter() {
    let vcard = "BEGIN:VCARD\nCATEGORIES:FIN-CRYPTO\nEND:VCARD\n";
    assert!(vcard_matches_categories(
        vcard,
        &["PROF".into(), "FIN".into()]
    ));
    assert!(!vcard_matches_categories(vcard, &["PROF-JUD".into()]));
    assert!(vcard_matches_categories(vcard, &[]));
}

#[test]
fn known_n1_are_taxonomy_codes() {
    for n1 in TAXONOMY_N1 {
        assert!(is_taxonomy_code(n1), "{n1}");
    }
}

#[test]
fn parse_rejects_long_and_four_level_codes() {
    assert!(parse_category_filter("ABCDEFGHI").is_err());
    assert!(parse_category_filter("AB-CD-EF-GH").is_err());
    assert!(parse_category_filter("A").is_err());
    assert!(parse_category_filter("PROF-").is_err());
    assert_eq!(parse_category_filter("ab-cd-ef").unwrap(), "AB-CD-EF");
    match parse_category_filter("  prof jud ") {
        Err(CardDavError::UnknownCategory(m)) => assert_eq!(m, "prof jud"),
        other => panic!("unexpected {other:?}"),
    }
}

#[test]
fn unfold_joins_continuations_and_crlf() {
    assert_eq!(unfold_vcard("A:1\r\n B\r\nC:2\r\n"), "A:1B\nC:2");
    assert_eq!(unfold_vcard("A:1\r\tB"), "A:1B");
    assert_eq!(unfold_vcard(""), "");
}

#[test]
fn extract_ignores_other_properties_and_empty_values() {
    let vcard = "X-CATEGORIES:NO\ncategories:prof, ,fin\nCATEGORIES;TYPE=x\n";
    assert_eq!(extract_categories(vcard), vec!["PROF", "FIN"]);
}

#[test]
fn category_matches_trims_and_ignores_case() {
    assert!(category_matches(" prof-jud ", "Prof"));
    assert!(!category_matches("", ""));
    assert!(!category_matches("PROFX", "PROF"));
}

#[test]
fn vcard_without_categories_does_not_pass_a_filter() {
    assert!(!vcard_matches_categories("BEGIN:VCARD\nFN:x\nEND:VCARD\n", &["PROF".into()]));
}
