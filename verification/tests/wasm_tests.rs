use silq::wasm::{parse_silq, tokenize_silq};

#[test]
fn test_parse_silq_wasm() {
    let result = parse_silq("def main() { return 42; }");
    assert!(result.contains("TypeDecl"));
}

#[test]
fn test_tokenize_silq_wasm() {
    let result = tokenize_silq("x + 1");
    assert!(result.contains("Identifier"));
    assert!(result.contains("Plus"));
}

#[test]
fn token_listing_format() {
    assert_eq!(tokenize_silq("x + 1"), "Identifier: 'x'\nPlus: '+'\nIntLit: '1'");
    assert_eq!(tokenize_silq(""), "");
}

#[test]
fn syntax_tree_dump_of_semicolons_is_empty() {
    assert_eq!(parse_silq(" ; ; "), "[]");
    let dump = parse_silq("x + 1;");
    assert!(dump.contains("Binary"));
    assert!(dump.contains("Plus"));
}
