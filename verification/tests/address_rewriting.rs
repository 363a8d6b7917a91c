use move_language_server::addresses::replace_16_bytes_libra;
use move_language_server::dialects::{DialectName, LibraDialect};
use move_language_server::rewriter::replace_sender_placeholder;
use move_language_server::source_map::FileSourceMap;

fn b(s: &str) -> Vec<u8> {
    s.as_bytes().to_vec()
}

fn s(v: &[u8]) -> String {
    String::from_utf8(v.to_vec()).unwrap()
}

#[test]
fn replace_libra_16_byte_address() {
    let source = "use 0x00000000000000001111111111111111;";
    let replaced = replace_16_bytes_libra(&b(source), &mut FileSourceMap::new());
    assert_eq!(s(&replaced), "use 0x0000000000000000000000001111111111111111;");
}

#[test]
fn replace_multiple_addresses() {
    let source =
        "use 0x00000000000000001111111111111111; \n use 0x00000000000000001111111111111112;";
    let replaced = replace_16_bytes_libra(&b(source), &mut FileSourceMap::new());
    assert_eq!(s(&replaced), "use 0x0000000000000000000000001111111111111111; \n use 0x0000000000000000000000001111111111111112;");
}

#[test]
fn dont_replace_20_bytes_address() {
    let source = "use 0x0000000000000000000000001111111111111111;";
    let replaced = replace_16_bytes_libra(&b(source), &mut FileSourceMap::new());
    assert_eq!(s(&replaced), "use 0x0000000000000000000000001111111111111111;");
}

#[test]
fn replace_minified_addresses() {
    let source = r"use 0x0;
        use 0x1;
        use 0x11;
        use 0x1111;
        use 0x11111111;
        use 0x1111111111111111;
        use 0x00000000000000001111111111111111;";
    let replaced = replace_16_bytes_libra(&b(source), &mut FileSourceMap::new());
    assert_eq!(
        s(&replaced),
        r"use 0x0000000000000000000000000000000000000000;
        use 0x0000000000000000000000000000000000000001;
        use 0x0000000000000000000000000000000000000011;
        use 0x0000000000000000000000000000000000001111;
        use 0x0000000000000000000000000000000011111111;
        use 0x0000000000000000000000001111111111111111;
        use 0x0000000000000000000000001111111111111111;"
    )
}

#[test]
fn sender_placeholder_both_spellings_are_substituted() {
    let mut map = FileSourceMap::new();
    let out = replace_sender_placeholder(
        &b("address {{sender}} { use {{ sender }}; }"),
        &b("0x42"),
        &mut map,
    );
    assert_eq!(s(&out), "address 0x42 { use 0x42; }");
    assert_eq!(map.layers.len(), 2);
}

#[test]
fn sender_placeholder_absent_leaves_text_and_map_unchanged() {
    let mut map = FileSourceMap::new();
    let text = b("address 0x42 { }");
    let out = replace_sender_placeholder(&text, &b("0x42"), &mut map);
    assert_eq!(out, text);
    assert_eq!(map.layers.len(), 0);
}

#[test]
fn translation_round_trips_offsets_outside_replacements() {
    // "{{sender}}" (10 bytes) becomes "0x1" (3 bytes): every offset past the
    // replacement shifts by 7, and the bytes it finds are the original ones.
    let text = b("address {{sender}} {x}");
    let mut map = FileSourceMap::new();
    let out = replace_sender_placeholder(&text, &b("0x1"), &mut map);
    assert_eq!(s(&out), "address 0x1 {x}");
    // byte 'x' sits at offset 13 of the transformed text and 20 of the original
    assert_eq!(out[13], b'x');
    assert_eq!(map.translate_offset(13), 20);
    assert_eq!(text[20], b'x');
    // offsets before the replaced range are identity-mapped
    assert_eq!(map.translate_offset(3), 3);
    // offsets inside the replacement map to the start boundary of the original span
    assert_eq!(map.translate_offset(9), 8);
}

#[test]
fn address_layers_translate_back_to_original_literal() {
    let source = b("use 0x1;");
    let mut map = FileSourceMap::new();
    let out = replace_16_bytes_libra(&source, &mut map);
    assert_eq!(s(&out), "use 0x0000000000000000000000000000000000000001;");
    // the ';' ends the literal in both texts
    assert_eq!(out[46], b';');
    assert_eq!(map.translate_offset(46), 7);
    assert_eq!(source[7], b';');
    // a position inside the expanded literal maps to the literal's start
    assert_eq!(map.translate_offset(20), 4);
}

#[test]
fn address_pass_appends_no_layer_for_canonical_literal() {
    let source = b("use 0x0000000000000000000000001111111111111111;");
    let mut map = FileSourceMap::new();
    let replaced = replace_16_bytes_libra(&source, &mut map);
    assert_eq!(replaced, source);
    assert_eq!(map.layers.len(), 0);
}

#[test]
fn address_pass_appends_one_layer_per_replacement() {
    let source = b("use 0x1; use 0x2;");
    let mut map = FileSourceMap::new();
    let _ = replace_16_bytes_libra(&source, &mut map);
    assert_eq!(map.layers.len(), 2);
    assert_eq!(map.layers[0].original, b("0x1"));
    assert_eq!(map.layers[1].original, b("0x2"));
    assert!(map.layers[0].end < map.layers[1].end);
}

#[test]
fn normalize_account_address_is_idempotent_on_canonical_literals() {
    let first = LibraDialect.normalize_account_address(&b("0xAB1")).unwrap();
    let canonical = first.normalized_original.clone();
    let second = LibraDialect.normalize_account_address(&canonical).unwrap();
    assert_eq!(second.normalized_original, canonical);
    assert_eq!(second.normalized_extended, canonical);
    assert_eq!(
        s(&canonical),
        "0x00000000000000000000000000000ab1"
    );
}

#[test]
fn normalize_account_address_rejects_bad_literals() {
    assert!(LibraDialect.normalize_account_address(&b("")).is_err());
    assert!(LibraDialect.normalize_account_address(&b("0x")).is_err());
    assert!(LibraDialect.normalize_account_address(&b("1234")).is_err());
    assert!(LibraDialect.normalize_account_address(&b("0xg1")).is_err());
    assert!(LibraDialect
        .normalize_account_address(&b("0x111111111111111111111111111111111"))
        .is_err());
    assert!(LibraDialect.normalize_account_address(&b("0x1")).is_ok());
}

#[test]
fn dialect_names_parse_and_share_one_dialect() {
    let libra = DialectName::from_bytes(&b("libra")).unwrap();
    let starcoin = DialectName::from_bytes(&b("starcoin")).unwrap();
    assert!(DialectName::from_bytes(&b("unknown")).is_err());
    assert_eq!(libra.get_dialect(), LibraDialect);
    assert_eq!(starcoin.get_dialect(), LibraDialect);
}
