use vanyline_sandbox::tools::hover::{
    hover_contents_to_text, hover_segments, hover_signature_and_doc, split_fenced_code_blocks,
    HoverContents, HoverSegment, HoverValue,
};

/// A `MarkupContent` (`{kind, value}`): only its `value` is read.
fn markup(value: &str) -> HoverContents {
    HoverContents::One(HoverValue::Entry { language: None, value: Some(value.to_string()) })
}

fn text(s: &str) -> HoverValue {
    HoverValue::Text(s.to_string())
}

fn code(language: &str, value: &str) -> HoverValue {
    HoverValue::Entry { language: Some(language.to_string()), value: Some(value.to_string()) }
}

fn empty_object() -> HoverContents {
    HoverContents::One(HoverValue::Entry { language: None, value: None })
}

#[test]
fn hover_contents_to_text_handles_all_lsp_shapes() {
    assert_eq!(hover_contents_to_text(&markup("Arc<T>")), "Arc<T>");
    assert_eq!(hover_contents_to_text(&HoverContents::One(text("plain hover"))), "plain hover");
    assert_eq!(
        hover_contents_to_text(&HoverContents::Many(vec![text("line one"), code("rust", "line two")])),
        "line one\nline two"
    );
    assert_eq!(hover_contents_to_text(&empty_object()), "");
}

#[test]
fn hover_split_markdown_fenced_signature_and_doc() {
    let (sig, doc) = hover_signature_and_doc(&markup("```rust\nfn main()\n```\n\nEntry point.\nRuns it.\nThird.\nFourth.",
    ));
    assert_eq!(sig, "fn main()", "first fenced block is the signature");
    assert_eq!(doc, "Entry point.\nRuns it.\nThird.", "doc truncated to 3 lines");
}

#[test]
fn hover_split_plaintext_no_fences_is_signature() {
    let (sig, doc) = hover_signature_and_doc(&markup("hover:file:///x"));
    assert_eq!(sig, "hover:file:///x");
    assert_eq!(doc, "");
}

#[test]
fn hover_split_array_marked_string_code_then_prose() {
    let (sig, doc) =
        hover_signature_and_doc(&HoverContents::Many(vec![text("Doc one"), code("rust", "fn f()")]));
    assert_eq!(sig, "fn f()", "first {{language, value}} entry is the signature");
    assert_eq!(doc, "Doc one", "prose outside code sections is the doc");
}

#[test]
fn hover_split_second_code_block_not_in_doc() {
    let (sig, doc) = hover_signature_and_doc(&markup("```rust\nfn a()\n```\n\nbetween.\n\n```sh\nfn b()\n```\n\nafter.",
    ));
    assert_eq!(sig, "fn a()", "signature is the first fenced block");
    assert_eq!(doc, "between.\nafter.");
    assert!(!doc.contains("fn b()"), "second code block must not leak into the doc, got: {doc}");
    assert!(!doc.contains("```"), "no residual fences, got: {doc}");
}

#[test]
fn hover_split_empty() {
    assert_eq!(hover_signature_and_doc(&empty_object()), (String::new(), String::new()));
    assert_eq!(
        hover_signature_and_doc(&HoverContents::Many(vec![])),
        (String::new(), String::new())
    );
}

#[test]
fn hover_split_multiline_no_fences() {
    let (sig, doc) = hover_signature_and_doc(&markup("a\nb\nc\nd"));
    assert_eq!(sig, "a", "first non-empty line is the signature");
    assert_eq!(doc, "b\nc\nd", "next 3 non-empty lines, 4th truncated");
}

// ── further cases ───────────────────────────────────────────────────────────

#[test]
fn fenced_blocks_are_split_from_prose() {
    let (blocks, prose) = split_fenced_code_blocks("intro\n```rust\nfn a()\n```\noutro");
    assert_eq!(blocks, vec!["fn a()"]);
    assert_eq!(prose, vec!["intro", "outro"]);
    let (blocks, prose) = split_fenced_code_blocks("");
    assert!(blocks.is_empty());
    assert!(prose.is_empty());
}

#[test]
fn segments_of_array_contents() {
    let segs = hover_segments(&HoverContents::Many(vec![text("doc"), code("rust", "fn f()"), text("")]));
    assert_eq!(
        segs,
        vec![HoverSegment::Prose("doc".to_string()), HoverSegment::Code("fn f()".to_string())]
    );
}
