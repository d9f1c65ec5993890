use vanyline_sandbox::tools::dispatch::{
    definition_report, diagnostics_report, file_toolchain, invalid_arguments, lsp_tool_for_name,
    order_reference_uris, reference_file_step, references_report, rename_report, target_info,
    toolchain_not_configured, workspace_symbols_failure, workspace_symbols_toolchain,
    DiagnosticEntry, LspTool, ReferenceFileStep, RenameOutcome, MAX_REFERENCE_FILES,
};
use vanyline_sandbox::tools::edits::AppliedSite;
use vanyline_sandbox::tools::position::LspSymbolTarget;

fn target(line: u64, symbol: Option<&str>, character: Option<u64>) -> LspSymbolTarget {
    LspSymbolTarget { path: "main.rs".into(), line, symbol: symbol.map(|s| s.into()), character }
}

#[test]
fn lsp_unknown_tool_returns_none() {
    assert_eq!(lsp_tool_for_name("read_file"), None);
    assert_eq!(lsp_tool_for_name("lsp_hover"), None);
    assert_eq!(lsp_tool_for_name("lsp_rename"), Some(LspTool::Rename));
    assert_eq!(lsp_tool_for_name("lsp_workspace_symbols"), Some(LspTool::WorkspaceSymbols));
}

#[test]
fn lsp_workspace_symbols_bad_hint_is_error() {
    assert_eq!(
        workspace_symbols_toolchain(Some("notes.txt"), true, true),
        Err("VNL-SBX-LSP-006: no LSP configured for that extension".to_string())
    );
}

#[test]
fn lsp_workspace_symbols_hint_with_known_extension_ok() {
    assert_eq!(workspace_symbols_toolchain(Some("src/x.ts"), true, false), Ok("node"));
    assert_eq!(workspace_symbols_toolchain(None, false, true), Ok("node"));
    assert_eq!(workspace_symbols_toolchain(None, true, true), Ok("rust"));
    assert_eq!(
        workspace_symbols_toolchain(None, false, false),
        Err("VNL-SBX-LSP-006: no LSP toolchain configured in this sandbox".to_string())
    );
}

#[test]
fn lsp_workspace_symbols_method_missing_degrades() {
    assert_eq!(
        workspace_symbols_failure("VNL-SBX-LSP-005: {\"code\":-32601,\"message\":\"nope\"}"),
        Ok("this LSP server does not support workspace/symbol (method not found) — use lsp_document_symbols per file".to_string())
    );
    assert_eq!(
        workspace_symbols_failure("VNL-SBX-LSP-005: {\"code\":-32600}"),
        Err("VNL-SBX-LSP-005: {\"code\":-32600}".to_string())
    );
}

#[test]
fn lsp_no_toolchain_for_extension() {
    assert_eq!(file_toolchain("/w/notes.txt"), Err("VNL-SBX-LSP-006: no LSP for file extension".to_string()));
    assert_eq!(file_toolchain("/w/main.rs"), Ok(("rust", "rust")));
    assert_eq!(toolchain_not_configured("node"), "VNL-SBX-LSP-006: no LSP configured for toolchain node");
}

#[test]
fn lsp_invalid_args_errors() {
    assert_eq!(
        invalid_arguments("lsp_definition", "missing field `line`"),
        "invalid arguments for lsp_definition: missing field `line`"
    );
}

#[test]
fn lsp_definition_symbol_relative_paths_and_snippet() {
    let (l, c, line) = target_info("fn main() {}", &target(1, Some("main"), None), "/w/main.rs", "/w").unwrap();
    assert_eq!((l, c), (0, 3));
    assert_eq!(line, "cible: main.rs:1: fn main() {}");
}

#[test]
fn lsp_definition_ambiguous_symbol_noted() {
    let (_, c, line) = target_info("let x = f(x);", &target(1, Some("x"), None), "/w/a.rs", "/w").unwrap();
    assert_eq!(c, 4);
    assert_eq!(
        line,
        "cible: a.rs:1: let x = f(x); (symbole \"x\" trouvé 2× sur la ligne, 1re occurrence utilisée — préciser character: 11 pour la suivante)"
    );
}

#[test]
fn lsp_definition_symbol_not_found_returns_010() {
    let err = target_info("fn main() {}", &target(1, Some("nope"), None), "/w/main.rs", "/w").unwrap_err();
    assert!(err.starts_with("VNL-SBX-LSP-010"));
}

#[test]
fn target_outside_the_root_keeps_the_resolved_path() {
    let (_, _, line) = target_info("x", &target(1, None, Some(1)), "/elsewhere/a.rs", "/w").unwrap();
    assert_eq!(line, "cible: /elsewhere/a.rs:1: x");
}

#[test]
fn lsp_diagnostics_distinguishes_not_yet_analyzed_from_clean() {
    let none = diagnostics_report("/w/main.rs", &None);
    assert!(none.starts_with("not yet analyzed"));
    assert!(!none.contains("no issues found"));
    assert_eq!(
        diagnostics_report("/w/main.rs", &Some(vec![])),
        "no diagnostics: file analyzed, no issues found"
    );
}

#[test]
fn lsp_diagnostics_returns_structured() {
    let ds = vec![
        DiagnosticEntry { start: Some((0, 3)), severity: 1, message: "boom".into() },
        DiagnosticEntry { start: None, severity: 2, message: "no range".into() },
        DiagnosticEntry { start: Some((4, 0)), severity: 2, message: "careful".into() },
    ];
    assert_eq!(
        diagnostics_report("/w/main.rs", &Some(ds)),
        "/w/main.rs:1:4: error: boom\n/w/main.rs:5:1: warning: careful"
    );
}

#[test]
fn lsp_definition_includes_hover_signature() {
    let out = definition_report(
        "cible: main.rs:1: fn main() {}",
        "fn main()",
        "Entry point.",
        &vec!["main.rs:1: fn main() {}".to_string()],
    );
    assert_eq!(
        out,
        "cible: main.rs:1: fn main() {}\nsignature: fn main()\ndoc: Entry point.\ndéfini à:\n  main.rs:1: fn main() {}"
    );
}

#[test]
fn lsp_definition_no_hover_still_works() {
    assert_eq!(definition_report("cible: a.rs:2", "", "", &vec![]), "cible: a.rs:2\nno definitions");
}

#[test]
fn lsp_references_empty_keeps_message() {
    assert_eq!(references_report("cible: a.rs:1: x", None), "cible: a.rs:1: x\nno references");
    assert_eq!(references_report("cible: a.rs:1: x", Some("références (1):".into())), "cible: a.rs:1: x\nréférences (1):");
}

#[test]
fn lsp_rename_no_changes_returns_no_rename() {
    assert_eq!(rename_report("cible: a.rs:1: x", &RenameOutcome::NoEdit), "cible: a.rs:1: x\nno rename");
    assert_eq!(rename_report("cible: a.rs:1: x", &RenameOutcome::Applied(vec![])), "cible: a.rs:1: x\nno rename");
}

#[test]
fn lsp_rename_apply_reports_before_after() {
    let files = vec![(
        "main.rs".to_string(),
        vec![AppliedSite { line0: 0, old_line: "fn helper() {}".into(), new_line: "fn tool() {}".into() }],
    )];
    assert_eq!(
        rename_report("cible: main.rs:1: fn helper() {}", &RenameOutcome::Applied(files)),
        "cible: main.rs:1: fn helper() {}\nrename appliqué\n1 remplacements dans 1 fichiers\nmain.rs — 1 remplacements\n  L1: fn helper() {} → fn tool() {}"
    );
    assert_eq!(
        rename_report("cible: t", &RenameOutcome::Preview("aperçu".into())),
        "cible: t\naperçu"
    );
}

#[test]
fn lsp_references_secondary_file_read_and_grouped() {
    let uris: Vec<String> = vec![
        "file:///w/z.rs".into(),
        "file:///w/main.rs".into(),
        "file:///w/b.rs".into(),
        "file:///w/z.rs".into(),
        "file:///w/a.rs".into(),
    ];
    assert_eq!(
        order_reference_uris("file:///w/main.rs", &uris),
        vec!["file:///w/main.rs", "file:///w/a.rs", "file:///w/b.rs", "file:///w/z.rs"]
    );
    assert_eq!(
        order_reference_uris("file:///w/other.rs", &uris),
        vec!["file:///w/a.rs", "file:///w/b.rs", "file:///w/main.rs", "file:///w/z.rs"]
    );
    assert!(order_reference_uris("file:///w/main.rs", &vec![]).is_empty());
}

#[test]
fn reference_files_are_capped() {
    assert_eq!(reference_file_step(Some("rust"), "rust", 0), ReferenceFileStep::Admit);
    assert_eq!(reference_file_step(Some("node"), "rust", 0), ReferenceFileStep::Skip);
    assert_eq!(reference_file_step(None, "rust", 0), ReferenceFileStep::Skip);
    assert_eq!(reference_file_step(Some("rust"), "rust", MAX_REFERENCE_FILES), ReferenceFileStep::OverCap);
    assert_eq!(MAX_REFERENCE_FILES, 20);
}

use vanyline_sandbox::tools::dispatch::{rename_step, ReferenceScan, RenameStep, ScanAction, ScanEvent};

fn ev(ok: bool, text: &str) -> ScanEvent {
    ScanEvent { ok, text: text.to_string() }
}

#[test]
fn reference_scan_target_file_reuses_its_text_and_is_not_reopened() {
    let uris = vec!["file:///w/a.rs".to_string(), "file:///w/b.rs".to_string(), "https://x/c.rs".to_string()];
    let mut s = ReferenceScan::new(uris, "file:///w/a.rs", "/w/a.rs", "fn a() {}", "rust");
    assert!(matches!(s.step(&ev(false, "")), ScanAction::Confine(ref p) if p == "/w/a.rs"));
    assert!(matches!(s.step(&ev(true, "/w/a.rs")), ScanAction::RequestSymbols(ref u) if u == "file:///w/a.rs"));
    match s.step(&ev(true, "")) {
        ScanAction::Record { uri, content, symbols_ok } => {
            assert_eq!(uri, "file:///w/a.rs");
            assert_eq!(content, "fn a() {}");
            assert!(symbols_ok);
        }
        _ => panic!("record expected"),
    }
    assert!(matches!(s.step(&ev(true, "")), ScanAction::Confine(ref p) if p == "/w/b.rs"));
    assert!(matches!(s.step(&ev(true, "/w/b.rs")), ScanAction::ReadFile(ref p) if p == "/w/b.rs"));
    match s.step(&ev(true, "fn b() {}")) {
        ScanAction::EnsureOpen { uri, language_id, content } => {
            assert_eq!(uri, "file:///w/b.rs");
            assert_eq!(language_id, "rust");
            assert_eq!(content, "fn b() {}");
        }
        _ => panic!("open expected"),
    }
    assert!(matches!(s.step(&ev(true, "")), ScanAction::RequestSymbols(_)));
    assert!(matches!(s.step(&ev(false, "")), ScanAction::Record { symbols_ok: false, .. }));
    assert!(matches!(s.step(&ev(true, "")), ScanAction::Continue));
    assert!(matches!(s.step(&ev(true, "")), ScanAction::Done));
    assert_eq!(s.admitted, 2);
}

#[test]
fn reference_scan_skips_other_toolchains_and_failures() {
    let uris = vec!["file:///w/x.ts".to_string(), "file:///w/gone.rs".to_string(), "file:///w/c.rs".to_string()];
    let mut s = ReferenceScan::new(uris, "file:///w/a.rs", "/w/a.rs", "", "rust");
    s.step(&ev(false, ""));
    assert!(matches!(s.step(&ev(true, "/w/x.ts")), ScanAction::Continue));
    assert!(matches!(s.step(&ev(true, "")), ScanAction::Confine(_)));
    assert!(matches!(s.step(&ev(false, "")), ScanAction::Continue));
    assert!(matches!(s.step(&ev(true, "")), ScanAction::Confine(_)));
    assert!(matches!(s.step(&ev(true, "/w/c.rs")), ScanAction::ReadFile(_)));
    assert!(matches!(s.step(&ev(false, "")), ScanAction::Continue));
    assert!(matches!(s.step(&ev(true, "")), ScanAction::Done));
    assert_eq!(s.admitted, 1);
}

#[test]
fn reference_scan_warns_once_over_the_cap() {
    let uris: Vec<String> = (0..23).map(|i| format!("file:///w/f{i}.rs")).collect();
    let mut s = ReferenceScan::new(uris, "file:///w/a.rs", "/w/a.rs", "", "rust");
    let mut last = ev(false, "");
    let mut warnings = 0;
    let mut records = 0;
    loop {
        let a = s.step(&last);
        last = ev(true, "");
        match a {
            ScanAction::Done => break,
            ScanAction::Confine(p) => last = ev(true, &p),
            ScanAction::ReadFile(_) => last = ev(true, "fn x() {}"),
            ScanAction::WarnOverCap => warnings += 1,
            ScanAction::Record { .. } => records += 1,
            _ => {}
        }
    }
    assert_eq!(records, 20);
    assert_eq!(warnings, 1);
}

#[test]
fn rename_step_choices() {
    assert_eq!(rename_step(true, true), RenameStep::NoEdit);
    assert_eq!(rename_step(false, true), RenameStep::Preview);
    assert_eq!(rename_step(false, false), RenameStep::Apply);
}
