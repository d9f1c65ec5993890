use vanyline_sandbox::tools::edits::{
    apply_text_edits, applied_sites, format_applied_files, preview_sites, render_rename_preview,
    workspace_edit_files, AppliedSite, DocumentChange, EditPosition, EditRange, PreviewFile,
    TextEdit, WorkspaceEdit,
};

fn edit(sl: u64, sc: u64, el: u64, ec: u64, text: &str) -> TextEdit {
    TextEdit {
        range: Some(EditRange {
            start: Some(EditPosition { line: Some(sl), character: Some(sc) }),
            end: Some(EditPosition { line: Some(el), character: Some(ec) }),
        }),
        new_text: Some(text.to_string()),
    }
}

#[test]
fn apply_text_edits_replaces_range() {
    let content = "fn main() {}";
    let result = apply_text_edits(content, &vec![edit(0, 0, 0, 2, "X")]).unwrap();
    assert_eq!(result, "X main() {}");
}

#[test]
fn apply_text_edits_multiple_sorted_descending() {
    let content = "abcd";
    let result = apply_text_edits(content, &vec![edit(0, 1, 0, 2, "X"), edit(0, 2, 0, 3, "Y")]).unwrap();
    assert_eq!(result, "aXYd");
}

#[test]
fn apply_text_edits_invalid_range_errors() {
    let content = "foo";
    let err = apply_text_edits(content, &vec![edit(0, 5, 0, 2, "X")]).unwrap_err();
    assert!(
        err.to_string().contains("VNL-SBX-LSP-008"),
        "start > end should return VNL-SBX-LSP-008, got: {}",
        err
    );
}

#[test]
fn workspace_edit_files_both_forms() {
    let we = WorkspaceEdit {
        changes: vec![("file:///a".to_string(), Some(vec![edit(0, 0, 0, 1, "X")]))],
        document_changes: vec![DocumentChange {
            uri: Some("file:///b".to_string()),
            edits: Some(vec![edit(0, 0, 0, 1, "Y")]),
        }],
    };
    let files = workspace_edit_files(we);
    assert_eq!(files.len(), 2);
    assert_eq!(files[0].0, "file:///a");
    assert_eq!(files[1].0, "file:///b");
}

#[test]
fn workspace_edit_files_empty_returns_empty() {
    let we = WorkspaceEdit { changes: vec![], document_changes: vec![] };
    let files = workspace_edit_files(we);
    assert!(files.is_empty());
}

#[test]
fn format_applied_files_two_files_totals() {
    let files = vec![
        (
            "main.rs".to_string(),
            vec![
                AppliedSite {
                    line0: 0,
                    old_line: "fn helper() {}".to_string(),
                    new_line: "fn tool() {}".to_string(),
                },
                AppliedSite {
                    line0: 1,
                    old_line: "helper();".to_string(),
                    new_line: "tool();".to_string(),
                },
            ],
        ),
        (
            "lib.rs".to_string(),
            vec![AppliedSite {
                line0: 3,
                old_line: "pub fn helper() {}".to_string(),
                new_line: "pub fn tool() {}".to_string(),
            }],
        ),
    ];
    let out = format_applied_files(&files);
    assert!(out.contains("3 remplacements dans 2 fichiers"), "total header expected, got: {out}");
    assert!(out.contains("main.rs — 2 remplacements"), "main.rs header expected, got: {out}");
    assert!(
        out.contains("  L1: fn helper() {} → fn tool() {}"),
        "site line expected, got: {out}"
    );
    let pos_main = out.find("main.rs — 2 remplacements").unwrap();
    let pos_lib = out.find("lib.rs — 1 remplacements").unwrap();
    assert!(pos_main < pos_lib, "input order must be preserved, got: {out}");
}

#[test]
fn render_rename_preview_external_uri_renders_bare_line() {
    let edits = vec![edit(10, 4, 10, 8, "X")];
    let files = vec![PreviewFile {
        display: "file:///external/lib.rs".to_string(),
        content: None,
        sites: preview_sites(&edits),
    }];
    let out = render_rename_preview(&files);
    assert!(out.contains("file:///external/lib.rs"), "raw URI expected, got: {out}");
    assert!(out.contains("L11:5"), "1-based line:col expected, got: {out}");
    assert!(
        out.lines().any(|l| l.trim() == "L11:5"),
        "bare L11:5 line (no snippet) expected, got: {out}"
    );
}

// ── further cases ───────────────────────────────────────────────────────────

#[test]
fn apply_text_edits_multiline_and_insertion() {
    let content = "a\nbc\nd";
    assert_eq!(apply_text_edits(content, &vec![edit(0, 1, 2, 0, "-")]).unwrap(), "a-d");
    assert_eq!(apply_text_edits(content, &vec![edit(1, 1, 1, 1, "Z")]).unwrap(), "a\nbZc\nd");
    assert_eq!(apply_text_edits(content, &vec![]).unwrap(), content);
}

#[test]
fn apply_text_edits_reports_missing_fields_and_bad_lines() {
    let no_range = TextEdit { range: None, new_text: Some("x".into()) };
    assert!(apply_text_edits("abc", &vec![no_range]).unwrap_err().contains("VNL-SBX-LSP-008"));
    assert_eq!(
        apply_text_edits("abc", &vec![edit(5, 0, 5, 0, "x")]).unwrap_err(),
        "VNL-SBX-LSP-008: invalid start position in TextEdit"
    );
}

#[test]
fn workspace_edit_files_merges_same_uri() {
    let we = WorkspaceEdit {
        changes: vec![("file:///a".to_string(), Some(vec![edit(0, 0, 0, 1, "X")]))],
        document_changes: vec![
            DocumentChange { uri: Some("file:///a".to_string()), edits: Some(vec![edit(1, 0, 1, 1, "Y")]) },
            DocumentChange { uri: None, edits: Some(vec![edit(0, 0, 0, 1, "Z")]) },
        ],
    };
    let files = workspace_edit_files(we);
    assert_eq!(files.len(), 1);
    assert_eq!(files[0].1.len(), 2);
}

#[test]
fn applied_sites_give_lines_before_and_after() {
    let before = "fn helper() {}\nfn main() { helper(); }\n";
    let edits = vec![edit(0, 3, 0, 9, "tool")];
    let after = apply_text_edits(before, &edits).unwrap();
    let sites = applied_sites(before, &after, &edits);
    assert_eq!(
        sites,
        vec![AppliedSite {
            line0: 0,
            old_line: "fn helper() {}".to_string(),
            new_line: "fn tool() {}".to_string(),
        }]
    );
}

#[test]
fn preview_lists_snippets_of_read_files() {
    let edits = vec![edit(0, 3, 0, 9, "tool")];
    let files = vec![PreviewFile {
        display: "main.rs".to_string(),
        content: Some("fn helper() {}\n".to_string()),
        sites: preview_sites(&edits),
    }];
    assert_eq!(
        render_rename_preview(&files),
        "aperçu — 1 sites dans 1 fichiers — AUCUN fichier modifié\nmain.rs\n  L1:4: fn helper() {}"
    );
}

#[test]
fn overlapping_edits_apply_as_byte_ranges() {
    // "aé": é is bytes 1..3. Replace it by "xyz", then bytes 0..3 (of the
    // original positions) by nothing: the second range is applied to "axyz".
    let e1 = edit(0, 1, 0, 2, "xyz");
    let e2 = edit(0, 0, 0, 2, "");
    assert_eq!(apply_text_edits("aé", &vec![e1, e2]), Ok("z".to_string()));
}
