use vanyline_sandbox::tools::labels::{severity_label, symbol_kind_label, toolchain_for_path};
use vanyline_sandbox::tools::position::{
    ambiguity_note, line_snippet, position_to_offset, resolve_position, LspSymbolTarget,
    PositionResolution,
};

fn target(line: u64, symbol: Option<&str>, character: Option<u64>) -> LspSymbolTarget {
    LspSymbolTarget {
        path: "m.rs".to_string(),
        line,
        symbol: symbol.map(|s| s.to_string()),
        character,
    }
}

#[test]
fn resolve_position_symbol_unique() {
    let content = "fn main() { call_main(); }";
    assert_eq!(
        resolve_position(content, &target(1, Some("call_main"), None)).unwrap(),
        PositionResolution::Unique { line0: 0, character0: 12 }
    );
}

#[test]
fn resolve_position_symbol_word_boundary_not_substring() {
    let content = "fn main() { mainframe(); }";
    assert_eq!(
        resolve_position(content, &target(1, Some("main"), None)).unwrap(),
        PositionResolution::Unique { line0: 0, character0: 3 }
    );
}

#[test]
fn resolve_position_symbol_not_prefix_of_longer_ident() {
    let content = "foobar foo";
    assert_eq!(
        resolve_position(content, &target(1, Some("foo"), None)).unwrap(),
        PositionResolution::Unique { line0: 0, character0: 7 }
    );
}

#[test]
fn resolve_position_symbol_at_line_edges() {
    let content = "foo";
    assert_eq!(
        resolve_position(content, &target(1, Some("foo"), None)).unwrap(),
        PositionResolution::Unique { line0: 0, character0: 0 }
    );
}

#[test]
fn resolve_position_symbol_ambiguous_first_and_second_col() {
    let content = "let x = f(x);";
    assert_eq!(
        resolve_position(content, &target(1, Some("x"), None)).unwrap(),
        PositionResolution::Ambiguous { line0: 0, character0: 4, matches: 2, second_char1: 11 }
    );
}

#[test]
fn resolve_position_symbol_not_found_vnl_sbx_lsp_010() {
    let content = "fn main() {}";
    let err = resolve_position(content, &target(1, Some("nope"), None)).unwrap_err();
    assert!(
        err.to_string().contains("VNL-SBX-LSP-010"),
        "symbol not found should return VNL-SBX-LSP-010, got: {err}"
    );
}

#[test]
fn resolve_position_symbol_multiline_line0() {
    let content = "a()\nb()\nc(foo);\n";
    assert_eq!(
        resolve_position(content, &target(3, Some("foo"), None)).unwrap(),
        PositionResolution::Unique { line0: 2, character0: 2 }
    );
}

#[test]
fn resolve_position_character_1based_to_0based() {
    assert_eq!(
        resolve_position("abcdefgh", &target(1, None, Some(4))).unwrap(),
        PositionResolution::Unique { line0: 0, character0: 3 }
    );
}

#[test]
fn resolve_position_character_zero_saturates() {
    assert_eq!(
        resolve_position("abcdefgh", &target(1, None, Some(0))).unwrap(),
        PositionResolution::Unique { line0: 0, character0: 0 }
    );
}

#[test]
fn resolve_position_symbol_wins_over_character() {
    assert_eq!(
        resolve_position("foo bar", &target(1, Some("bar"), Some(1))).unwrap(),
        PositionResolution::Unique { line0: 0, character0: 4 }
    );
}

#[test]
fn resolve_position_empty_symbol_falls_back_to_character() {
    assert_eq!(
        resolve_position("abcdefgh", &target(1, Some(""), Some(3))).unwrap(),
        PositionResolution::Unique { line0: 0, character0: 2 }
    );
}

#[test]
fn resolve_position_default_column_zero() {
    assert_eq!(
        resolve_position("abcdefgh", &target(1, None, None)).unwrap(),
        PositionResolution::Unique { line0: 0, character0: 0 }
    );
}

#[test]
fn resolve_position_line_out_of_range_vnl_sbx_lsp_007() {
    let err = resolve_position("une\nseule\n", &target(99, None, None)).unwrap_err();
    assert!(
        err.to_string().contains("VNL-SBX-LSP-007"),
        "out-of-range line should return VNL-SBX-LSP-007, got: {err}"
    );
}

#[test]
fn resolve_position_line_zero_vnl_sbx_lsp_007() {
    let err = resolve_position("une\nseule\n", &target(0, None, None)).unwrap_err();
    assert!(
        err.to_string().contains("VNL-SBX-LSP-007"),
        "line 0 should return VNL-SBX-LSP-007, got: {err}"
    );
}

#[test]
fn symbol_kind_label_known_and_unknown() {
    assert_eq!(symbol_kind_label(12), "fn");
    assert_eq!(symbol_kind_label(23), "struct");
    assert_eq!(symbol_kind_label(26), "typeParameter");
    assert_eq!(symbol_kind_label(99), "symbol99");
    assert_eq!(symbol_kind_label(0), "symbol0");
}

#[test]
fn position_to_offset_line_character() {
    assert_eq!(position_to_offset("abc\ndef", 0, 2).unwrap(), 2, "line 0 char 2 → offset 2");
    assert_eq!(position_to_offset("abc\ndef", 1, 2).unwrap(), 6, "line 1 char 2 → offset 6");
    let err = position_to_offset("abc\ndef", 2, 0).unwrap_err();
    assert!(
        err.to_string().contains("VNL-SBX-LSP-007"),
        "out-of-range line should return VNL-SBX-LSP-007"
    );
}

#[test]
fn toolchain_for_path_rust_file() {
    assert_eq!(toolchain_for_path("src/main.rs"), Some(("rust", "rust")));
}

#[test]
fn toolchain_for_path_ts_file() {
    assert_eq!(toolchain_for_path("src/index.ts"), Some(("node", "typescript")));
    assert_eq!(toolchain_for_path("src/app.tsx"), Some(("node", "typescript")));
    assert_eq!(toolchain_for_path("src/mod.mts"), Some(("node", "typescript")));
    assert_eq!(toolchain_for_path("src/mod.cts"), Some(("node", "typescript")));
}

#[test]
fn toolchain_for_path_js_file() {
    assert_eq!(toolchain_for_path("src/index.js"), Some(("node", "javascript")));
    assert_eq!(toolchain_for_path("src/app.jsx"), Some(("node", "javascript")));
    assert_eq!(toolchain_for_path("src/mod.mjs"), Some(("node", "javascript")));
    assert_eq!(toolchain_for_path("src/mod.cjs"), Some(("node", "javascript")));
}

#[test]
fn toolchain_for_path_unknown_extension() {
    assert_eq!(toolchain_for_path("file.xyz"), None);
    assert_eq!(toolchain_for_path("file.py"), None);
    assert_eq!(toolchain_for_path("file.json"), None);
    assert_eq!(toolchain_for_path("README.md"), None);
}

#[test]
fn toolchain_for_path_case_insensitive() {
    assert_eq!(toolchain_for_path("src/main.RS"), Some(("rust", "rust")));
    assert_eq!(toolchain_for_path("src/index.TS"), Some(("node", "typescript")));
    assert_eq!(toolchain_for_path("src/script.JS"), Some(("node", "javascript")));
}

// ── further cases ───────────────────────────────────────────────────────────

#[test]
fn symbol_mode_aims_at_a_delimited_identifier() {
    let content = "x_y x x";
    match resolve_position(content, &target(1, Some("x"), None)).unwrap() {
        PositionResolution::Ambiguous { character0, matches, second_char1, .. } => {
            assert_eq!(character0, 4);
            assert_eq!(matches, 2);
            assert_eq!(second_char1, 7);
        }
        other => panic!("unexpected {other:?}"),
    }
}

#[test]
fn resolution_error_messages_exact() {
    assert_eq!(
        resolve_position("a\nb", &target(3, None, None)).unwrap_err(),
        "VNL-SBX-LSP-007: line 3 out of range (2 lines)"
    );
    assert_eq!(
        resolve_position("fn main() {}", &target(1, Some("nope"), None)).unwrap_err(),
        "VNL-SBX-LSP-010: symbol \"nope\" not found as identifier on line 1 of m.rs"
    );
}

#[test]
fn columns_count_characters_not_bytes() {
    assert_eq!(
        resolve_position("é foo", &target(1, Some("foo"), None)).unwrap(),
        PositionResolution::Unique { line0: 0, character0: 2 }
    );
    assert_eq!(position_to_offset("é foo", 0, 2).unwrap(), 3);
    assert_eq!(position_to_offset("ab", 0, 99).unwrap(), 2, "clamped to the end of the line");
}

#[test]
fn line_snippets_and_notes() {
    assert_eq!(line_snippet("a\n   b c  \n", 1), Some("b c".to_string()));
    assert_eq!(line_snippet("a\n", 5), None);
    assert_eq!(
        ambiguity_note("x", 2, 11),
        " (symbole \"x\" trouvé 2× sur la ligne, 1re occurrence utilisée — préciser character: 11 pour la suivante)"
    );
}

#[test]
fn severity_labels() {
    assert_eq!(severity_label(1), "error");
    assert_eq!(severity_label(2), "warning");
    assert_eq!(severity_label(3), "information");
    assert_eq!(severity_label(4), "hint");
    assert_eq!(severity_label(7), "error");
}

#[test]
fn resolve_position_empty_file_has_line_one() {
    assert_eq!(
        resolve_position("", &target(1, None, None)).unwrap(),
        PositionResolution::Unique { line0: 0, character0: 0 }
    );
    let err = resolve_position("", &target(2, None, None)).unwrap_err();
    assert_eq!(err, "VNL-SBX-LSP-007: line 2 out of range (1 lines)");
    assert!(resolve_position("", &target(1, Some("x"), None)).unwrap_err().contains("VNL-SBX-LSP-010"));
}
