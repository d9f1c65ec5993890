use vanyline_sandbox::tools::symbols::{
    deepest_containing, flat_enclosing, render_document_symbols, render_references_grouped,
    render_workspace_symbols, symbol_name_and_detail, DocumentSymbol, ReferenceLocation,
    SymbolLocation,
};

fn flat(name: &str, kind: i64, uri: &str, line0: i64) -> DocumentSymbol {
    DocumentSymbol {
        kind: Some(kind),
        name: Some(name.to_string()),
        detail: None,
        location: Some(SymbolLocation { uri: Some(uri.to_string()), start_line: Some(line0) }),
        selection_start_line: None,
        range: None,
        children: None,
    }
}

fn hier(name: &str, kind: i64, detail: Option<&str>, range: (i64, i64), sel: i64, children: Vec<DocumentSymbol>) -> DocumentSymbol {
    DocumentSymbol {
        kind: Some(kind),
        name: Some(name.to_string()),
        detail: detail.map(|d| d.to_string()),
        location: None,
        selection_start_line: Some(Some(sel)),
        range: Some((Some(range.0), Some(range.1))),
        children: if children.is_empty() { None } else { Some(children) },
    }
}

fn name_at(syms: &[DocumentSymbol], path: &[usize]) -> String {
    let mut cur = &syms[path[0]];
    for &i in &path[1..] {
        cur = &cur.children.as_ref().unwrap()[i];
    }
    cur.name.clone().unwrap()
}

#[test]
fn flat_enclosing_last_start_before() {
    let syms = vec![
        flat("a", 12, "file:///m.rs", 0),
        flat("b", 12, "file:///m.rs", 2),
        flat("c", 12, "file:///m.rs", 5),
    ];
    let name = |r: Option<usize>| r.map(|i| syms[i].name.clone().unwrap());
    assert_eq!(name(flat_enclosing(&syms, 1)), Some("a".to_string()));
    assert_eq!(name(flat_enclosing(&syms, 2)), Some("b".to_string()));
    assert_eq!(name(flat_enclosing(&syms, 7)), Some("c".to_string()));
    assert!(flat_enclosing(&vec![], 3).is_none(), "liste vide → None");
}

#[test]
fn deepest_containing_prefers_deepest() {
    let syms = vec![hier("outer", 12, None, (0, 10), 0, vec![hier("inner", 12, None, (3, 6), 3, vec![])])];
    let p = deepest_containing(&syms, 4).unwrap();
    assert_eq!(name_at(&syms, &p), "inner");
    let p = deepest_containing(&syms, 1).unwrap();
    assert_eq!(name_at(&syms, &p), "outer");
    assert!(deepest_containing(&syms, 20).is_none(), "hors de tout range → None");
}

// ── further cases ───────────────────────────────────────────────────────────

#[test]
fn lsp_document_symbols_flat_sorted() {
    let uri = "file:///w/main.rs";
    let syms = vec![
        flat("main", 12, uri, 2),
        flat("Config", 23, uri, 0),
        flat("helper", 12, uri, 1),
    ];
    let displays = vec!["main.rs".to_string(); 3];
    let out = render_document_symbols(&syms, uri, &displays);
    assert_eq!(out, "struct Config — L1\nfn helper — L2\nfn main — L3");
}

#[test]
fn lsp_document_symbols_hierarchical_indented() {
    let syms = vec![hier(
        "Outer",
        23,
        Some("struct Outer"),
        (0, 5),
        0,
        vec![hier("run", 6, Some("() -> ()"), (2, 3), 2, vec![])],
    )];
    let displays = vec!["hier.rs".to_string()];
    let out = render_document_symbols(&syms, "file:///w/hier.rs", &displays);
    let lines: Vec<&str> = out.lines().collect();
    assert!(lines.contains(&"struct Outer · struct Outer — L1"), "got: {out}");
    assert!(lines.contains(&"  method run · () -> () — L3"), "got: {out}");
}

#[test]
fn lsp_document_symbols_empty_message() {
    let out = render_document_symbols(&vec![], "file:///w/empty.rs", &vec![]);
    assert_eq!(out, "no symbols (file analyzed yet — the outline is empty)");
}

#[test]
fn lsp_workspace_symbols_flat_design_format() {
    let syms = vec![flat("Config", 23, "file:///w/src/main.rs", 0)];
    let out = render_workspace_symbols("Config", &syms, &vec!["src/main.rs".to_string()]);
    assert_eq!(out, "src/main.rs:1: struct Config");
    assert_eq!(
        render_workspace_symbols("zzz", &vec![], &vec![]),
        "no symbol matching \"zzz\""
    );
}

#[test]
fn name_and_detail() {
    let mut s = flat("run", 6, "file:///x", 0);
    assert_eq!(symbol_name_and_detail(&s).into_iter().collect::<String>(), "method run");
    s.detail = Some("".into());
    assert_eq!(symbol_name_and_detail(&s).into_iter().collect::<String>(), "method run");
    s.detail = Some("fn()".into());
    assert_eq!(symbol_name_and_detail(&s).into_iter().collect::<String>(), "method run · fn()");
}

#[test]
fn lsp_references_grouped_with_enclosing() {
    let uri = "file:///w/main.rs";
    let locations = vec![
        ReferenceLocation { uri: Some(uri.to_string()), line0: 0 },
        ReferenceLocation { uri: Some(uri.to_string()), line0: 1 },
        ReferenceLocation { uri: Some("file:///external/lib.rs".to_string()), line0: 10 },
    ];
    let displays = vec!["main.rs".to_string(), "main.rs".to_string(), "file:///external/lib.rs".to_string()];
    let symbols = vec![(uri.to_string(), vec![flat("helper", 12, uri, 0), flat("main", 12, uri, 1)])];
    let contents = vec![(uri.to_string(), "fn helper() {}\nfn main() { helper(); }\n".to_string())];
    let out = render_references_grouped(&locations, &displays, &symbols, &contents);
    let lines: Vec<&str> = out.lines().collect();
    assert_eq!(lines[0], "références (3):");
    assert!(lines.contains(&"main.rs"), "file header, got: {out}");
    let idx = |s: &str| lines.iter().position(|l| *l == s).unwrap_or_else(|| panic!("missing {s:?} in {out}"));
    assert_eq!(lines[idx("  dans fn helper · fn helper() {} — L1") + 1], "    L1: fn helper() {}");
    assert_eq!(lines[idx("  dans fn main · fn main() { helper(); } — L2") + 1], "    L2: fn main() { helper(); }");
    assert!(lines.contains(&"file:///external/lib.rs"), "got: {out}");
    assert_eq!(lines[idx("file:///external/lib.rs") + 1], "  L11");
    assert!(!out.contains("file:///external/lib.rs:11"), "got: {out}");
}
