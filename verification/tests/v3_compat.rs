use zedazo::v3_compat::{adapt_v3, normalize_types_v3};
use zedazo::vcard::{ParsedVCard, RawParam, RawProperty, RawTypedValue};

#[test]
fn test_v3_type_lowercase() {
    let mut vcard = ParsedVCard {
        version: Some("3.0".to_string()),
        emails_raw: vec![RawTypedValue {
            value: "x@y.com".to_string(),
            types: vec!["INTERNET".to_string(), "PREF".to_string()],
            pref: 0,
        }],
        ..Default::default()
    };

    adapt_v3(&mut vcard);

    let email = &vcard.emails_raw[0];
    assert_eq!(email.types, vec!["internet"]);
    assert_eq!(email.pref, 1);
}

#[test]
fn test_v3_agent_ignored() {
    let mut vcard = ParsedVCard {
        version: Some("3.0".to_string()),
        raw_properties: vec![
            RawProperty {
                group: None,
                name: "FN".to_string(),
                params: vec![],
                value: "Test".to_string(),
            },
            RawProperty {
                group: None,
                name: "AGENT".to_string(),
                params: vec![],
                value: "BEGIN:VCARD...".to_string(),
            },
            RawProperty {
                group: None,
                name: "LABEL".to_string(),
                params: vec![],
                value: "Calle Test".to_string(),
            },
            RawProperty {
                group: None,
                name: "MAILER".to_string(),
                params: vec![],
                value: "Apple Mail".to_string(),
            },
        ],
        ..Default::default()
    };

    adapt_v3(&mut vcard);

    assert_eq!(vcard.raw_properties.len(), 1);
    assert_eq!(vcard.raw_properties[0].name, "FN");
}

#[test]
fn test_v3_version_updated() {
    let mut vcard = ParsedVCard {
        version: Some("3.0".to_string()),
        ..Default::default()
    };

    adapt_v3(&mut vcard);

    assert_eq!(vcard.version.as_deref(), Some("4.0"));
}

#[test]
fn test_v3_type_multi_value_lowercase() {
    let mut vcard = ParsedVCard {
        version: Some("3.0".to_string()),
        tels_raw: vec![RawTypedValue {
            value: "+34600000000".to_string(),
            types: vec!["CELL".to_string(), "VOICE".to_string()],
            pref: 0,
        }],
        ..Default::default()
    };

    adapt_v3(&mut vcard);

    let tel = &vcard.tels_raw[0];
    assert_eq!(tel.types, vec!["cell", "voice"]);
    assert_eq!(tel.pref, 0);
}

#[test]
fn type_params_lowercased_other_params_kept() {
    let mut vcard = ParsedVCard {
        raw_properties: vec![RawProperty {
            group: Some("item1".to_string()),
            name: "agent-x".to_string(),
            params: vec![
                RawParam { name: "type".to_string(), values: vec!["WORK".to_string()] },
                RawParam { name: "LANGUAGE".to_string(), values: vec!["ES".to_string()] },
            ],
            value: "v".to_string(),
        }, RawProperty {
            group: None,
            name: "mailer".to_string(),
            params: vec![],
            value: "m".to_string(),
        }],
        ..Default::default()
    };
    adapt_v3(&mut vcard);
    assert_eq!(vcard.raw_properties.len(), 1);
    let p = &vcard.raw_properties[0];
    assert_eq!(p.group.as_deref(), Some("item1"));
    assert_eq!(p.params[0].values, vec!["work"]);
    assert_eq!(p.params[1].values, vec!["ES"]);
}

#[test]
fn normalize_types_keeps_pref_when_absent() {
    let mut types = vec!["Home".to_string(), "pReF".to_string(), "X".to_string()];
    let mut pref = 3u8;
    normalize_types_v3(&mut types, &mut pref);
    assert_eq!(types, vec!["home", "x"]);
    assert_eq!(pref, 1);
    let mut types = vec!["WORK".to_string()];
    let mut pref = 3u8;
    normalize_types_v3(&mut types, &mut pref);
    assert_eq!(pref, 3);
}
