use zedazo::source::{detect_source, detect_source_lowered, detect_version, SourceDetail};

#[test]
fn test_detect_proton_prodid() {
    let result = detect_source(&["-//ProtonMail//ES".to_string()], &["abc-123".to_string()]);
    assert!(matches!(result, SourceDetail::ProtonAutosave));
}

#[test]
fn test_detect_google_prodid() {
    let result = detect_source(&["-//Google Inc//Google Contacts//EN".to_string()], &[]);
    assert_eq!(result, SourceDetail::Google);
}

#[test]
fn test_detect_apple_prodid() {
    let result = detect_source(&["-//Apple Inc.//Address Book//EN".to_string()], &[]);
    assert_eq!(result, SourceDetail::Apple);
}

#[test]
fn test_detect_proton_autosave_uid() {
    let result = detect_source(&[], &["proton-autosave-abc-123".to_string()]);
    assert_eq!(result, SourceDetail::ProtonAutosave);
}

#[test]
fn test_detect_proton_import_uid() {
    let result = detect_source(&[], &["proton-import-abc-123".to_string()]);
    assert_eq!(result, SourceDetail::ProtonImport);
}

#[test]
fn test_detect_proton_web_uid() {
    let result = detect_source(&[], &["proton-web-abc-123".to_string()]);
    assert_eq!(result, SourceDetail::ProtonWeb);
}

#[test]
fn test_detect_unknown() {
    let result = detect_source(&[], &[]);
    assert!(matches!(result, SourceDetail::Unknown(_)));
}

#[test]
fn test_detect_version_4_0() {
    let result = detect_version(&["4.0".to_string(), "4.0".to_string(), "3.0".to_string()]);
    assert_eq!(result, "4.0");
}

#[test]
fn test_detect_version_3_0() {
    let result = detect_version(&["3.0".to_string(), "3.0".to_string()]);
    assert_eq!(result, "3.0");
}

#[test]
fn proton_prodid_refined_by_uid_and_case_insensitive() {
    let r = detect_source(
        &["-//PROTON AG//x".to_string()],
        &["x".to_string(), "PROTON-WEB-1".to_string()],
    );
    assert_eq!(r, SourceDetail::ProtonWeb);
    // first deciding PRODID wins
    let r = detect_source(&["Apple".to_string(), "google".to_string()], &[]);
    assert_eq!(r, SourceDetail::Apple);
    // a bare "proton" UID counts as autosave
    assert_eq!(detect_source(&[], &["my-proton-id".to_string()]), SourceDetail::ProtonAutosave);
}

#[test]
fn lowered_detection_is_case_sensitive() {
    assert!(matches!(
        detect_source_lowered(&["GOOGLE".to_string()], &[]),
        SourceDetail::Unknown(_)
    ));
    assert_eq!(detect_source_lowered(&["google".to_string()], &[]), SourceDetail::Google);
}

#[test]
fn version_tie_and_trim() {
    assert_eq!(detect_version(&[]), "4.0");
    assert_eq!(detect_version(&[" 3.0 ".to_string(), "4.0".to_string()]), "4.0");
    assert_eq!(detect_version(&[" 3.0\n".to_string(), "2.1".to_string()]), "3.0");
}
