use vanyline_sandbox::linters::{
    apply_content_changes, convert_hadolint_findings, convert_hadolint_output, convert_ruff_findings,
    convert_ruff_output, handle_frame, read_linter_message, ruff_severity,
    utf16_offset, ContentChange, HadolintFinding, LintBook, LintDiagnostic, LintOutcome,
    LinterAction, LinterMessage, ReplyKind, RuffFinding,
};

fn hf(line: Option<i64>, column: Option<i64>, level: &str, code: &str, message: &str) -> HadolintFinding {
    HadolintFinding {
        line,
        column,
        level: Some(level.to_string()),
        code: Some(format!("\"{code}\"")),
        message: Some(message.to_string()),
    }
}

#[allow(clippy::too_many_arguments)]
fn rf(
    filename: Option<Option<&str>>,
    row: Option<i64>,
    column: Option<i64>,
    end: Option<(i64, Option<i64>)>,
    message: &str,
    code: &str,
    severity: Option<&str>,
    url: Option<&str>,
) -> RuffFinding {
    RuffFinding {
        filename: filename.map(|f| f.map(|s| s.to_string())),
        row,
        column,
        end,
        message: Some(message.to_string()),
        code: Some(format!("\"{code}\"")),
        severity: severity.map(|s| s.to_string()),
        url: url.map(|s| s.to_string()),
    }
}

#[allow(clippy::too_many_arguments)]
fn diag(
    sl: u64,
    sc: u64,
    el: u64,
    ec: u64,
    severity: i64,
    code: &str,
    source: &str,
    message: &str,
    href: Option<&str>,
) -> LintDiagnostic {
    LintDiagnostic {
        start_line: sl,
        start_character: sc,
        end_line: el,
        end_character: ec,
        severity,
        code: Some(format!("\"{code}\"")),
        source: source.to_string(),
        message: message.to_string(),
        href: href.map(|s| s.to_string()),
    }
}

fn full(text: &str) -> ContentChange {
    ContentChange { text: Some(text.to_string()), range: None }
}

fn ranged(s: (i64, i64), e: (i64, i64), text: &str) -> ContentChange {
    ContentChange { text: Some(text.to_string()), range: Some((Some(s), Some(e))) }
}

fn start_end(d: &LintDiagnostic) -> ((u64, u64), (u64, u64)) {
    ((d.start_line, d.start_character), (d.end_line, d.end_character))
}

// ── hadolint ────────────────────────────────────────────────────────────────

#[test]
fn convert_hadolint_output_example() {
    let input = r#"[{"file":"<stdin>","line":1,"column":1,"level":"warning","code":"DL3007","message":"Using latest tags ..."},{"file":"<stdin>","line":3,"column":5,"level":"error","code":"DL3020","message":"COPY cannot be used with ADD --link"}]"#;
    let doc_text = "FROM ubuntu:latest\nRUN echo x\nADD --link x /y\n";
    let out = convert_hadolint_output(input, doc_text);
    assert_eq!(
        out,
        vec![
            diag(0, 0, 0, 18, 2, "DL3007", "hadolint", "Using latest tags ...", None),
            diag(2, 4, 2, 15, 1, "DL3020", "hadolint", "COPY cannot be used with ADD --link", None),
        ]
    );
}

#[test]
fn convert_hadolint_output_levels() {
    let input = r#"[
            {"file":"<stdin>","line":1,"column":1,"level":"error","code":"A","message":"a"},
            {"file":"<stdin>","line":2,"column":1,"level":"warning","code":"B","message":"b"},
            {"file":"<stdin>","line":3,"column":1,"level":"info","code":"C","message":"c"},
            {"file":"<stdin>","line":4,"column":1,"level":"style","code":"D","message":"d"},
            {"file":"<stdin>","line":5,"column":1,"level":"mystere","code":"E","message":"e"}
        ]"#;
    let out = convert_hadolint_output(input, "a\nb\nc\nd\ne");
    let severities: Vec<i64> = out.iter().map(|d| d.severity).collect();
    assert_eq!(severities, vec![1, 2, 3, 4, 3]);
}

#[test]
fn convert_hadolint_output_clamps() {
    let out = convert_hadolint_output(r#"[{"file":"<stdin>","line":99,"column":1,"level":"info","code":"L1","message":"ligne hors bornes"}]"#, "FROM x\nRUN y");
    assert_eq!(start_end(&out[0]), ((1, 0), (1, 5)));

    let out = convert_hadolint_output(r#"[{"file":"<stdin>","line":1,"column":99,"level":"info","code":"L2","message":"colonne hors borne"}]"#, "FROM x\nRUN y");
    assert_eq!(start_end(&out[0]), ((0, 6), (0, 6)));

    let out = convert_hadolint_output(r#"[{"file":"<stdin>","line":2,"column":1,"level":"info","code":"L3","message":"ligne vide"}]"#, "x\n\ny");
    assert_eq!(start_end(&out[0]), ((1, 0), (1, 0)));
}

#[test]
fn convert_hadolint_output_utf16() {
    let doc = "RUN echo \u{1F41B}X";
    let input = r#"[{"file":"<stdin>","line":1,"column":12,"level":"info","code":"U1","message":"sur X"},{"file":"<stdin>","line":1,"column":99,"level":"info","code":"U2","message":"clamp"}]"#;
    let out = convert_hadolint_output(input, doc);
    assert_eq!(start_end(&out[0]), ((0, 11), (0, 12)));
    assert_eq!(start_end(&out[1]), ((0, 12), (0, 12)));
}

#[test]
fn convert_hadolint_output_garbage() {
    assert!(convert_hadolint_output("{}", "x\n").is_empty());
    assert!(convert_hadolint_output("not json", "x\n").is_empty());
    assert!(convert_hadolint_output(r#"[{"column":1,"level":"warning","code":"X","message":"pas de line"}]"#, "x\n").is_empty());
}

#[test]
fn convert_hadolint_output_skips_non_objects_and_reads_loose_fields() {
    // A number and a string in the array are not findings; a `level` that is
    // not a string gives the default severity; a missing column reads as 1.
    let input = r#"[1, "x", {"line":1,"level":7,"code":"K","message":"m"}]"#;
    let out = convert_hadolint_output(input, "abc");
    assert_eq!(out, vec![diag(0, 0, 0, 3, 3, "K", "hadolint", "m", None)]);
}

#[test]
fn convert_hadolint_findings_direct() {
    assert!(convert_hadolint_findings(&vec![], "x\n").is_empty());
    let no_line = HadolintFinding {
        line: None,
        column: Some(1),
        level: Some("warning".into()),
        code: Some("X".into()),
        message: Some("pas de line".into()),
    };
    assert!(convert_hadolint_findings(&vec![no_line], "x\n").is_empty());
    let out = convert_hadolint_findings(&vec![hf(Some(1), Some(2), "error", "A", "a")], "xyz");
    assert_eq!(out, vec![diag(0, 1, 0, 3, 1, "A", "hadolint", "a", None)]);
}

// ── ruff ────────────────────────────────────────────────────────────────────

#[test]
fn convert_ruff_output_example() {
    let input = r#"[{"cell":null,"code":"I001","end_location":{"column":12,"row":2},"filename":"-","fix":{"applicability":"safe","edits":[{"content":"import json\nimport os\n\n","end_location":{"column":1,"row":4},"location":{"column":1,"row":1}}],"message":"Organize imports"},"location":{"column":1,"row":1},"message":"Import block is un-sorted or un-formatted","name":"unsorted-imports","noqa_row":1,"severity":"error","url":"https://docs.astral.sh/ruff/rules/unsorted-imports"},{"cell":null,"code":"F401","end_location":{"column":10,"row":1},"filename":"-","fix":{"applicability":"safe","edits":[{"content":"","end_location":{"column":1,"row":2},"location":{"column":1,"row":1}}],"message":"Remove unused import: `os`"},"location":{"column":8,"row":1},"message":"`os` imported but unused","name":"unused-import","noqa_row":1,"severity":"error","url":"https://docs.astral.sh/ruff/rules/unused-import"}]"#;
    let doc_text = "import os\nimport json\n\nprint(json.dumps({\"a\": 1}))\n";
    let out = convert_ruff_output(input, doc_text);
    assert_eq!(
        out,
        vec![
            diag(
                0,
                0,
                1,
                11,
                1,
                "I001",
                "ruff",
                "Import block is un-sorted or un-formatted",
                Some("https://docs.astral.sh/ruff/rules/unsorted-imports"),
            ),
            diag(
                0,
                7,
                0,
                9,
                1,
                "F401",
                "ruff",
                "`os` imported but unused",
                Some("https://docs.astral.sh/ruff/rules/unused-import"),
            ),
        ]
    );
}

#[test]
fn convert_ruff_output_severity_relayed() {
    let input = r#"[
            {"cell":null,"code":"A","end_location":{"column":1,"row":1},"filename":"-","fix":null,"location":{"column":1,"row":1},"message":"a","name":"x","noqa_row":1,"severity":"error","url":null},
            {"cell":null,"code":"B","end_location":{"column":1,"row":2},"filename":"-","fix":null,"location":{"column":1,"row":2},"message":"b","name":"x","noqa_row":2,"severity":"warning","url":null},
            {"cell":null,"code":"C","end_location":{"column":1,"row":3},"filename":"-","fix":null,"location":{"column":1,"row":3},"message":"c","name":"x","noqa_row":3,"url":null},
            {"cell":null,"code":"D","end_location":{"column":1,"row":4},"filename":"-","fix":null,"location":{"column":1,"row":4},"message":"d","name":"x","noqa_row":4,"severity":"info","url":null},
            {"cell":null,"code":"E","end_location":{"column":1,"row":5},"filename":"-","fix":null,"location":{"column":1,"row":5},"message":"e","name":"x","noqa_row":5,"severity":"hint","url":null},
            {"cell":null,"code":"F","end_location":{"column":1,"row":6},"filename":"-","fix":null,"location":{"column":1,"row":6},"message":"f","name":"x","noqa_row":6,"severity":"bogus","url":null}
        ]"#;
    let out = convert_ruff_output(input, "a\nb\nc\nd\ne\nf");
    assert_eq!(out.len(), 6);
    let severities: Vec<i64> = out.iter().map(|d| d.severity).collect();
    assert_eq!(severities, vec![1, 2, 2, 3, 4, 2]);
}

#[test]
fn convert_ruff_output_url_null_omits_code_description() {
    let input = r#"[{"cell":null,"code":"invalid-syntax","end_location":{"column":13,"row":1},"filename":"-","fix":null,"location":{"column":12,"row":1},"message":"Expected a parameter or the end of the parameter list","name":"invalid-syntax","noqa_row":null,"severity":"error","url":null},{"cell":null,"code":"invalid-syntax","end_location":{"column":1,"row":2},"filename":"-","fix":null,"location":{"column":1,"row":2},"message":"unexpected EOF while parsing","name":"invalid-syntax","noqa_row":null,"severity":"error","url":null}]"#;
    let out = convert_ruff_output(input, "def broken(:\n");
    assert_eq!(out.len(), 2);
    assert_eq!(out[0].code.as_deref(), Some("\"invalid-syntax\""));
    assert!(out[0].href.is_none());
    assert_eq!(out[0].severity, 1);
    assert_eq!(start_end(&out[0]), ((0, 11), (0, 12)));
    assert!(out[1].href.is_none());
    assert_eq!(start_end(&out[1]), ((1, 0), (1, 0)));
}

#[test]
fn convert_ruff_output_filename_guard() {
    let input = r#"[
            {"cell":null,"code":"A","end_location":{"column":1,"row":1},"filename":"-","fix":null,"location":{"column":1,"row":1},"message":"filename = -","name":"g","noqa_row":1,"severity":"error","url":null},
            {"cell":null,"code":"B","end_location":{"column":1,"row":1},"fix":null,"location":{"column":1,"row":1},"message":"filename absent","name":"g","noqa_row":1,"severity":"error","url":null},
            {"cell":null,"code":"C","end_location":{"column":1,"row":1},"filename":"/chemin/autre.py","fix":null,"location":{"column":1,"row":1},"message":"filename étranger","name":"g","noqa_row":1,"severity":"error","url":null}
        ]"#;
    let out = convert_ruff_output(input, "x\n");
    assert_eq!(out.len(), 2);
    assert_eq!(out[0].code.as_deref(), Some("\"A\""));
    assert_eq!(out[1].code.as_deref(), Some("\"B\""));
}

#[test]
fn convert_ruff_output_clamps() {
    let out = convert_ruff_output(r#"[{"cell":null,"code":"L1","end_location":{"column":99,"row":99},"filename":"-","fix":null,"location":{"column":1,"row":99},"message":"ligne hors bornes","name":"l","noqa_row":99,"severity":"error","url":null}]"#, "a = 1\nb = 2");
    assert_eq!(start_end(&out[0]), ((1, 0), (1, 5)));

    let out = convert_ruff_output(r#"[{"cell":null,"code":"L2","end_location":{"column":99,"row":1},"filename":"-","fix":null,"location":{"column":99,"row":1},"message":"colonne hors borne","name":"l","noqa_row":1,"severity":"error","url":null}]"#, "a = 1\nb = 2");
    assert_eq!(start_end(&out[0]), ((0, 5), (0, 5)));

    let out = convert_ruff_output(r#"[{"cell":null,"code":"L3","end_location":{"column":2,"row":1},"filename":"-","fix":null,"location":{"column":5,"row":1},"message":"end antérieur après clamp","name":"l","noqa_row":1,"severity":"error","url":null}]"#, "a = 1\nb = 2");
    assert_eq!(start_end(&out[0]), ((0, 4), (0, 5)));
}

#[test]
fn convert_ruff_output_end_location_missing_falls_back_to_line_end() {
    let input = r#"[{"cell":null,"code":"N1","filename":"-","fix":null,"location":{"column":1,"row":1},"message":"sans end_location","name":"n","noqa_row":1,"severity":"error","url":null}]"#;
    let doc = "x = \"\u{1F41B}\"\n";
    let out = convert_ruff_output(input, doc);
    assert_eq!(out.len(), 1);
    assert_eq!(start_end(&out[0]), ((0, 0), (0, 8)));
}

#[test]
fn convert_ruff_output_utf16_shift_documented() {
    let input = r#"[{"cell":null,"code":"I001","end_location":{"column":27,"row":1},"filename":"-","fix":{"applicability":"safe","edits":[{"content":"import os\n","end_location":{"column":27,"row":1},"location":{"column":18,"row":1}}],"message":"Organize imports"},"location":{"column":18,"row":1},"message":"Import block is un-sorted or un-formatted","name":"unsorted-imports","noqa_row":1,"severity":"error","url":"https://docs.astral.sh/ruff/rules/unsorted-imports"},{"cell":null,"code":"F401","end_location":{"column":27,"row":1},"filename":"-","fix":{"applicability":"safe","edits":[{"content":"","end_location":{"column":27,"row":1},"location":{"column":18,"row":1}}],"message":"Remove unused import: `os`"},"location":{"column":25,"row":1},"message":"`os` imported but unused","name":"unused-import","noqa_row":1,"severity":"error","url":"https://docs.astral.sh/ruff/rules/unused-import"}]"#;
    let doc = "x = print(\"\u{1F41B}\") ; import os\n";
    let out = convert_ruff_output(input, doc);
    assert_eq!(out.len(), 2);
    assert_eq!((out[0].start_line, out[0].start_character), (0, 17));
    assert_eq!((out[1].start_line, out[1].start_character), (0, 24));
}

#[test]
fn convert_ruff_output_garbage() {
    assert!(convert_ruff_output("{}", "x\n").is_empty());
    assert!(convert_ruff_output("not json", "x\n").is_empty());
    assert!(convert_ruff_output(r#"[{"cell":null,"code":"X","fix":null,"message":"pas de location","name":"x","noqa_row":1,"severity":"error","url":null}]"#, "x\n").is_empty());
    assert!(convert_ruff_output(r#"[{"cell":null,"code":"Y","fix":null,"location":{"column":1,"row":"première"},"message":"row non-numérique","name":"y","noqa_row":1,"severity":"error","url":null}]"#, "x\n").is_empty());
}

#[test]
fn convert_ruff_output_filename_not_a_string_is_foreign() {
    let input = r#"[{"filename":null,"location":{"row":1,"column":1},"message":"n","code":"N"},{"location":{"row":1,"column":1},"message":"k","code":"K"}]"#;
    let out = convert_ruff_output(input, "x\n");
    assert_eq!(out.len(), 1);
    assert_eq!(out[0].code.as_deref(), Some("\"K\""));
    assert_eq!(out[0].severity, 2);
}

#[test]
fn convert_ruff_findings_direct() {
    assert!(convert_ruff_findings(&vec![], "x\n").is_empty());
    let no_row = rf(Some(None), None, None, None, "pas de location", "X", Some("error"), None);
    assert!(convert_ruff_findings(&vec![no_row], "x\n").is_empty());
    let one = rf(None, Some(1), Some(2), Some((1, Some(3))), "m", "C", Some("hint"), Some("u"));
    assert_eq!(convert_ruff_findings(&vec![one], "abcd"), vec![diag(0, 1, 0, 2, 4, "C", "ruff", "m", Some("u"))]);
}

#[test]
fn ruff_severity_names() {
    assert_eq!(ruff_severity(Some(&"fatal".to_string())), 1);
    assert_eq!(ruff_severity(Some(&"notice".to_string())), 3);
    assert_eq!(ruff_severity(Some(&"information".to_string())), 3);
    assert_eq!(ruff_severity(None), 2);
}

// ── content changes (shared by both linter servers) ─────────────────────────

fn check_full_replace() {
    let mut text = "abc\ndef".to_string();
    apply_content_changes(&mut text, &vec![full("xyz")]);
    assert_eq!(text, "xyz");
    apply_content_changes(&mut text, &vec![full("nul")]);
    assert_eq!(text, "nul");
}

fn check_incremental() {
    let mut text = "FROM ubuntu:latest\n".to_string();
    apply_content_changes(&mut text, &vec![ranged((0, 12), (0, 18), "22.04")]);
    assert_eq!(text, "FROM ubuntu:22.04\n");

    let mut text = "a\nb".to_string();
    apply_content_changes(&mut text, &vec![ranged((1, 1), (1, 1), "c")]);
    assert_eq!(text, "a\nbc");

    let mut text = "a\nb\nc\n".to_string();
    apply_content_changes(&mut text, &vec![ranged((0, 0), (2, 0), "")]);
    assert_eq!(text, "c\n");
}

fn check_bounded() {
    let mut text = "abc".to_string();
    apply_content_changes(&mut text, &vec![ranged((0, 0), (99, 99), "Z")]);
    assert_eq!(text, "Z");

    let mut text = "a".to_string();
    apply_content_changes(&mut text, &vec![ranged((5, 5), (7, 2), "Q")]);
    assert_eq!(text, "aQ");

    let mut text = "intact".to_string();
    let malformed = ContentChange { text: Some("X".into()), range: Some((None, Some((0, 1)))) };
    apply_content_changes(&mut text, &vec![malformed]);
    assert_eq!(text, "intact");
}

#[test]
fn hadolint_lsp_apply_content_changes_full_replace() {
    check_full_replace();
}

#[test]
fn ruff_lsp_apply_content_changes_full_replace() {
    check_full_replace();
}

#[test]
fn hadolint_lsp_apply_content_changes_incremental() {
    check_incremental();
}

#[test]
fn ruff_lsp_apply_content_changes_incremental() {
    check_incremental();
}

#[test]
fn hadolint_lsp_apply_content_changes_bounded() {
    check_bounded();
}

#[test]
fn ruff_lsp_apply_content_changes_bounded() {
    check_bounded();
}

#[test]
fn apply_content_changes_sequence() {
    let mut text = "one\ntwo\nthree".to_string();
    apply_content_changes(
        &mut text,
        &vec![ranged((0, 0), (0, 3), "ONE"), ranged((2, 5), (2, 5), "!")],
    );
    assert_eq!(text, "ONE\ntwo\nthree!");
}

#[test]
fn reversed_range_is_applied_in_order() {
    let mut text = "abcd".to_string();
    apply_content_changes(&mut text, &vec![ranged((0, 3), (0, 1), "X")]);
    assert_eq!(text, "aXd");
}

#[test]
fn utf16_offsets_count_surrogate_pairs() {
    let text = "a\u{1F41B}b";
    assert_eq!(utf16_offset(text, 0, 0), 0);
    assert_eq!(utf16_offset(text, 0, 3), 5);
    assert_eq!(utf16_offset(text, 0, 2), 1, "a column inside a character stays before it");
    assert_eq!(utf16_offset(text, 0, 99), 6);
}

// ── the document book of a linter server ────────────────────────────────────

fn notif(method: &str, uri: &str, text: Option<&str>, version: Option<i64>, changes: Vec<ContentChange>) -> LinterMessage {
    LinterMessage {
        method: method.to_string(),
        is_request: false,
        uri: Some(uri.to_string()),
        text: text.map(|s| s.to_string()),
        version,
        changes,
    }
}

#[test]
fn requests_are_answered() {
    let mut book = LintBook::new();
    let mut req = notif("initialize", "file:///d", None, None, vec![]);
    req.is_request = true;
    req.uri = None;
    assert_eq!(book.handle_message(&req), LinterAction::Reply(ReplyKind::Initialize));
    req.method = "shutdown".into();
    assert_eq!(book.handle_message(&req), LinterAction::Reply(ReplyKind::Shutdown));
    req.method = "textDocument/hover".into();
    assert_eq!(book.handle_message(&req), LinterAction::Reply(ReplyKind::MethodNotFound));
    let mut exit = notif("exit", "file:///d", None, None, vec![]);
    exit.uri = None;
    assert_eq!(book.handle_message(&exit), LinterAction::Exit);
}

#[test]
fn open_change_save_close_cycle() {
    let mut book = LintBook::new();
    let uri = "file:///Dockerfile";
    let a = book.handle_message(&notif("textDocument/didOpen", uri, Some("FROM x\n"), Some(1), vec![]));
    let g1 = match a {
        LinterAction::Lint { uri: u, text, version, generation } => {
            assert_eq!(u, uri);
            assert_eq!(text, "FROM x\n");
            assert_eq!(version, 1);
            generation
        }
        other => panic!("unexpected {other:?}"),
    };
    let a = book.handle_message(&notif(
        "textDocument/didChange",
        uri,
        None,
        Some(2),
        vec![ranged((0, 5), (0, 6), "y")],
    ));
    let g2 = match a {
        LinterAction::Debounce { uri: u, generation } => {
            assert_eq!(u, uri);
            generation
        }
        other => panic!("unexpected {other:?}"),
    };
    assert_ne!(g1, g2);
    // A lint started before the change is stale: not published.
    assert_eq!(book.lint_finished(uri, 1, g1), LintOutcome::Rearm(g2 + 1));
    let g3 = book.current_gen(uri).unwrap();
    assert_eq!(book.debounce_fired(uri, g2), None, "superseded debounce finds nothing");
    assert_eq!(book.debounce_fired(uri, g3), Some(("FROM y\n".to_string(), 2, g3)));
    assert_eq!(book.lint_finished(uri, 2, g3), LintOutcome::Publish);
    let a = book.handle_message(&notif("textDocument/didClose", uri, None, None, vec![]));
    assert_eq!(a, LinterAction::ClearDiagnostics { uri: uri.to_string(), version: 2 });
    assert!(!book.doc_exists(uri));
    assert_eq!(book.lint_finished(uri, 2, g3), LintOutcome::Drop);
}

#[test]
fn change_of_unopened_document_is_ignored() {
    let mut book = LintBook::new();
    let a = book.handle_message(&notif("textDocument/didChange", "file:///x", None, Some(3), vec![full("t")]));
    assert_eq!(a, LinterAction::Nothing);
    assert!(!book.doc_exists("file:///x"));
}

#[test]
fn read_linter_message_reads_the_frame() {
    let frame = br#"{"jsonrpc":"2.0","method":"textDocument/didChange","params":{"textDocument":{"uri":"file:///a","version":4},"contentChanges":[{"text":"all"},{"range":null,"text":"n"},{"range":{"start":{"line":0,"character":1},"end":{"line":"x","character":2}},"text":"r"},{"text":5},7]}}"#;
    let m = read_linter_message(frame).unwrap();
    assert_eq!(m.method, "textDocument/didChange");
    assert!(!m.is_request);
    assert_eq!(m.uri.as_deref(), Some("file:///a"));
    assert_eq!(m.text, None);
    assert_eq!(m.version, Some(4));
    assert_eq!(
        m.changes,
        vec![
            full("all"),
            full("n"),
            ContentChange { text: Some("r".to_string()), range: Some((Some((0, 1)), None)) },
            ContentChange { text: None, range: None },
            ContentChange { text: None, range: None },
        ]
    );
}

#[test]
fn read_linter_message_requests_and_refusals() {
    let m = read_linter_message(br#"{"id":1,"method":"initialize","params":{}}"#).unwrap();
    assert!(m.is_request);
    assert!(m.changes.is_empty());
    let m = read_linter_message(br#"{"id":null,"method":"x"}"#).unwrap();
    assert!(!m.is_request);
    assert_eq!(read_linter_message(b"not json"), None);
    assert_eq!(read_linter_message(br#"{"id":1}"#), None);
    assert_eq!(read_linter_message(br#"{"method":3}"#), None);
}

#[test]
fn handle_frame_drives_the_book() {
    let mut book = LintBook::new();
    assert_eq!(
        handle_frame(&mut book, br#"{"jsonrpc":"2.0","id":1,"method":"initialize"}"#),
        LinterAction::Reply(ReplyKind::Initialize)
    );
    assert_eq!(handle_frame(&mut book, b"{"), LinterAction::Nothing);
    let open = br#"{"method":"textDocument/didOpen","params":{"textDocument":{"uri":"u","text":"FROM x","version":2}}}"#;
    assert_eq!(
        handle_frame(&mut book, open),
        LinterAction::Lint { uri: "u".to_string(), text: "FROM x".to_string(), version: 2, generation: 1 }
    );
    let change = br#"{"method":"textDocument/didChange","params":{"textDocument":{"uri":"u","version":3},"contentChanges":[{"text":"FROM y"}]}}"#;
    assert_eq!(handle_frame(&mut book, change), LinterAction::Debounce { uri: "u".to_string(), generation: 2 });
    assert_eq!(book.debounce_fired("u", 2), Some(("FROM y".to_string(), 3, 2)));
    assert_eq!(handle_frame(&mut book, br#"{"method":"exit"}"#), LinterAction::Exit);
}

#[test]
fn lint_codes_are_copied_as_json_values() {
    let out = convert_ruff_output(
        r#"[{"code":7,"location":{"row":1,"column":1},"message":"a"},{"code":null,"location":{"row":1,"column":1},"message":"b"}]"#,
        "x",
    );
    assert_eq!(out.len(), 2);
    assert_eq!(out[0].code.as_deref(), Some("7"));
    assert_eq!(out[1].code, None);
    let out = convert_hadolint_output(r#"[{"line":1,"code":{"k":1},"message":"c"},{"line":1,"code":null},{"line":1}]"#, "x");
    assert_eq!(out[0].code.as_deref(), Some(r#"{"k":1}"#));
    assert_eq!(out[1].code.as_deref(), Some("null"));
    assert_eq!(out[2].code, None);
}
