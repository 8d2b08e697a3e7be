use zedazo::encoding::ensure_utf8;

#[test]
fn test_utf8_passthrough() {
    let input = b"BEGIN:VCARD\nFN:Juan P\xc3\xa9rez\nEND:VCARD\n";
    let result = ensure_utf8(input);
    assert!(result.contains("Juan Pérez"));
}

#[test]
fn test_iso_8859_1_to_utf8() {
    let input = b"BEGIN:VCARD\nFN:Juan P\xe9rez\nEND:VCARD\n";
    let result = ensure_utf8(input);
    assert!(result.contains("Juan Pérez"));
}

#[test]
fn test_invalid_utf8_replacement() {
    let input: &[u8] = b"Hello \xff World";
    let result = ensure_utf8(input);
    assert!(result.contains('\u{FFFD}') || result.contains('ÿ'));
}

#[test]
fn test_iso_spanish_chars() {
    let input = b"FN:Pe\xf1a\n";
    let result = ensure_utf8(input);
    assert!(result.contains("Peña"));
}

#[test]
fn valid_utf8_is_returned_as_is() {
    let text = "ñandú € 😀";
    assert_eq!(ensure_utf8(text.as_bytes()), text);
    assert_eq!(ensure_utf8(b""), "");
}
