//! The decisions of the LSP tools, taken between the calls that read files
//! and talk to the language server: which tool a name selects, which
//! toolchain serves a request, the target line of a position tool, and the
//! text of each tool's answer.

use vstd::prelude::*;
use vstd::string::StringExecFns;
use crate::text::{append_chars, chars_of, dec, dec_chars_wide, eq_chars, join_chars, join_with, string_of, views};
use crate::tools::edits::{applied_report, format_applied_files, AppliedSite};
use crate::tools::labels::{dec_int, severity_label, severity_spec, toolchain_for_path, toolchain_spec};
use crate::tools::locations::{relative_display, relative_display_spec, strip_prefix_spec};
use crate::tools::position::{
    ambiguity_note, ambiguity_note_spec, line_snippet, line_snippet_spec, matches_at,
    resolve_position, resolve_position_spec, LspSymbolTarget, PositionResolution,
};
use crate::tools::hover::views_of_strings;
use crate::tools::symbols::{chars_lt, dec_i128_chars, seq_lt};
use crate::text::strings_of;

verus! {

// ── arguments ───────────────────────────────────────────────────────────────

/// Arguments of `lsp_diagnostics`.
pub struct LspDiagnosticsArgs {
    pub path: String,
}

/// Arguments of `lsp_document_symbols`.
pub struct LspDocumentSymbolsArgs {
    pub path: String,
}

/// Arguments of `lsp_workspace_symbols`: `path` only hints at the toolchain
/// (by its extension); it is never resolved nor read.
pub struct LspWorkspaceSymbolsArgs {
    pub query: String,
    pub path: Option<String>,
}

/// Arguments of `lsp_rename`: the position target, the new name, and whether
/// to only preview the edit (no file written).
#[derive(Clone)]
pub struct LspRenameArgs {
    pub target: LspSymbolTarget,
    pub new_name: String,
    pub preview: bool,
}

// ── tool selection ──────────────────────────────────────────────────────────

/// The LSP tools.
#[derive(PartialEq, Eq, Structural, Debug, Clone, Copy)]
pub enum LspTool {
    Diagnostics,
    Definition,
    References,
    Rename,
    DocumentSymbols,
    WorkspaceSymbols,
}

/// The LSP tool a tool name selects, if any.
pub open spec fn lsp_tool_spec(name: Seq<char>) -> Option<LspTool> {
    if name == "lsp_diagnostics"@ {
        Some(LspTool::Diagnostics)
    } else if name == "lsp_definition"@ {
        Some(LspTool::Definition)
    } else if name == "lsp_references"@ {
        Some(LspTool::References)
    } else if name == "lsp_rename"@ {
        Some(LspTool::Rename)
    } else if name == "lsp_document_symbols"@ {
        Some(LspTool::DocumentSymbols)
    } else if name == "lsp_workspace_symbols"@ {
        Some(LspTool::WorkspaceSymbols)
    } else {
        None
    }
}

fn is_lit(s: &Vec<char>, lit: &str) -> (b: bool)
    ensures
        b == (s@ == lit@),
{
    let l = chars_of(lit);
    eq_chars(s.as_slice(), l.as_slice())
}

/// The LSP tool named `name`; `None` for a name outside this family.
pub fn lsp_tool_for_name(name: &str) -> (r: Option<LspTool>)
    ensures
        r == lsp_tool_spec(name@),
{
    let n = chars_of(name);
    if is_lit(&n, "lsp_diagnostics") {
        Some(LspTool::Diagnostics)
    } else if is_lit(&n, "lsp_definition") {
        Some(LspTool::Definition)
    } else if is_lit(&n, "lsp_references") {
        Some(LspTool::References)
    } else if is_lit(&n, "lsp_rename") {
        Some(LspTool::Rename)
    } else if is_lit(&n, "lsp_document_symbols") {
        Some(LspTool::DocumentSymbols)
    } else if is_lit(&n, "lsp_workspace_symbols") {
        Some(LspTool::WorkspaceSymbols)
    } else {
        None
    }
}

/// `"invalid arguments for {name}: {detail}"`.
pub fn invalid_arguments(name: &str, detail: &str) -> (r: String)
    ensures
        r@ == "invalid arguments for "@ + name@ + ": "@ + detail@,
{
    let mut s = "invalid arguments for ".to_owned();
    s.append(name);
    s.append(": ");
    s.append(detail);
    s
}

// ── toolchains ──────────────────────────────────────────────────────────────

/// The error when a workspace-symbol hint has no LSP extension.
pub open spec fn hint_without_lsp_msg() -> Seq<char> {
    "VNL-SBX-LSP-006: no LSP configured for that extension"@
}

/// The error when no toolchain is configured at all.
pub open spec fn no_toolchain_msg() -> Seq<char> {
    "VNL-SBX-LSP-006: no LSP toolchain configured in this sandbox"@
}

/// The view of an optional string.
pub open spec fn opt_view(o: Option<&str>) -> Option<Seq<char>> {
    match o {
        Some(s) => Some(s@),
        None => None,
    }
}

/// The toolchain serving `lsp_workspace_symbols`: the one of the hint's
/// extension when a hint is given (no LSP for it is an error), else the
/// first configured of `rust` and `node`.
pub open spec fn workspace_toolchain_spec(hint: Option<Seq<char>>, rust: bool, node: bool) -> Result<
    Seq<char>,
    Seq<char>,
> {
    match hint {
        Some(h) => match toolchain_spec(h) {
            Some(p) => Ok(p.0),
            None => Err(hint_without_lsp_msg()),
        },
        None => if rust {
            Ok("rust"@)
        } else if node {
            Ok("node"@)
        } else {
            Err(no_toolchain_msg())
        },
    }
}

/// Chooses the toolchain of `lsp_workspace_symbols` from the optional path
/// hint and which of the `rust` and `node` toolchains are configured.
pub fn workspace_symbols_toolchain(hint: Option<&str>, rust_configured: bool, node_configured: bool) -> (r:
    Result<&'static str, String>)
    ensures
        match r {
            Ok(t) => workspace_toolchain_spec(opt_view(hint), rust_configured, node_configured)
                == Ok::<Seq<char>, Seq<char>>(t@),
            Err(e) => workspace_toolchain_spec(opt_view(hint), rust_configured, node_configured)
                == Err::<Seq<char>, Seq<char>>(e@),
        },
{
    match hint {
        Some(h) => match toolchain_for_path(h) {
            Some((tc, _language_id)) => Ok(tc),
            None => Err("VNL-SBX-LSP-006: no LSP configured for that extension".to_owned()),
        },
        None => {
            proof {
                reveal_strlit("rust");
                reveal_strlit("node");
            }
            if rust_configured {
                Ok("rust")
            } else if node_configured {
                Ok("node")
            } else {
                Err("VNL-SBX-LSP-006: no LSP toolchain configured in this sandbox".to_owned())
            }
        },
    }
}

/// The error when a file's extension has no LSP.
pub open spec fn file_without_lsp_msg() -> Seq<char> {
    "VNL-SBX-LSP-006: no LSP for file extension"@
}

/// The toolchain and language id of the file a tool works on.
pub fn file_toolchain(resolved: &str) -> (r: Result<(&'static str, &'static str), String>)
    ensures
        match r {
            Ok((t, lang)) => toolchain_spec(resolved@) == Some((t@, lang@)),
            Err(e) => toolchain_spec(resolved@) is None && e@ == file_without_lsp_msg(),
        },
{
    match toolchain_for_path(resolved) {
        Some(pair) => Ok(pair),
        None => Err("VNL-SBX-LSP-006: no LSP for file extension".to_owned()),
    }
}

/// The error when the manager has no configuration for a toolchain.
pub fn toolchain_not_configured(toolchain: &str) -> (r: String)
    ensures
        r@ == "VNL-SBX-LSP-006: no LSP configured for toolchain "@ + toolchain@,
{
    let mut s = "VNL-SBX-LSP-006: no LSP configured for toolchain ".to_owned();
    s.append(toolchain);
    s
}

// ── the target line ─────────────────────────────────────────────────────────

/// The symbol of a target, or the empty string.
pub open spec fn symbol_or_empty(t: LspSymbolTarget) -> Seq<char> {
    match t.symbol {
        Some(s) => s@,
        None => Seq::empty(),
    }
}

/// The note that an ambiguous resolution adds to the target line.
pub open spec fn target_note_spec(res: PositionResolution, t: LspSymbolTarget) -> Seq<char> {
    match res {
        PositionResolution::Unique { .. } => Seq::empty(),
        PositionResolution::Ambiguous { matches, second_char1, .. } => ambiguity_note_spec(
            symbol_or_empty(t),
            matches as nat,
            second_char1 as nat,
        ),
    }
}

/// `cible: {display}:{line}: {snippet}{note}` (line 1-based), without the
/// snippet part when the line could not be read.
pub open spec fn target_line_spec(display: Seq<char>, line0: nat, snippet: Option<Seq<char>>, note: Seq<
    char,
>) -> Seq<char> {
    match snippet {
        Some(s) => "cible: "@ + display + ":"@ + dec(line0 + 1) + ": "@ + s + note,
        None => "cible: "@ + display + ":"@ + dec(line0 + 1) + note,
    }
}

/// The 0-based line and column of a resolution.
pub open spec fn resolution_position(res: PositionResolution) -> (u64, u64) {
    match res {
        PositionResolution::Unique { line0, character0 } => (line0, character0),
        PositionResolution::Ambiguous { line0, character0, .. } => (line0, character0),
    }
}

/// What a position tool aims at in the file `resolved` (under `root`) whose
/// text is `content`: the 0-based position and the target line of the
/// answer, or the resolution error.
pub open spec fn target_info_spec(content: Seq<char>, t: LspSymbolTarget, resolved: Seq<char>, root: Seq<
    char,
>) -> Result<(u64, u64, Seq<char>), Seq<char>> {
    match resolve_position_spec(content, t) {
        Err(e) => Err(e),
        Ok(res) => {
            let (line0, character0) = resolution_position(res);
            Ok(
                (
                    line0,
                    character0,
                    target_line_spec(
                        relative_display_spec(resolved, root),
                        line0 as nat,
                        line_snippet_spec(content, line0 as nat),
                        target_note_spec(res, t),
                    ),
                ),
            )
        },
    }
}

/// Resolves the target of a position tool in the file `resolved` (under
/// `root`) whose text is `content`, and renders the target line that heads
/// the tool's answer.
pub fn target_info(content: &str, target: &LspSymbolTarget, resolved: &str, root: &str) -> (r: Result<
    (u64, u64, String),
    String,
>)
    ensures
        match r {
            Ok((l, c, s)) => target_info_spec(content@, *target, resolved@, root@) == Ok::<
                (u64, u64, Seq<char>),
                Seq<char>,
            >((l, c, s@)),
            Err(e) => target_info_spec(content@, *target, resolved@, root@) == Err::<
                (u64, u64, Seq<char>),
                Seq<char>,
            >(e@),
        },
{
    let res = match resolve_position(content, target) {
        Ok(p) => p,
        Err(e) => {
            return Err(e);
        },
    };
    assert(resolve_position_spec(content@, *target) == Ok::<PositionResolution, Seq<char>>(res));
    let (line0, character0, note) = match res {
        PositionResolution::Unique { line0, character0 } => (line0, character0, String::new()),
        PositionResolution::Ambiguous { line0, character0, matches, second_char1 } => {
            let sym: &str = match &target.symbol {
                Some(s) => s.as_str(),
                None => "",
            };
            proof {
                reveal_strlit("");
            }
            (line0, character0, ambiguity_note(sym, matches, second_char1))
        },
    };
    assert(note@ == target_note_spec(res, *target));
    let display = relative_display(resolved, root);
    let mut out = chars_of("cible: ");
    let d = chars_of(display.as_str());
    append_chars(&mut out, d.as_slice());
    out.push(':');
    let n = dec_chars_wide(line0 as u128 + 1);
    append_chars(&mut out, n.as_slice());
    let snippet = line_snippet(content, line0);
    match &snippet {
        Some(s) => {
            out.push(':');
            out.push(' ');
            let sc = chars_of(s.as_str());
            append_chars(&mut out, sc.as_slice());
        },
        None => {},
    }
    let nc = chars_of(note.as_str());
    append_chars(&mut out, nc.as_slice());
    proof {
        reveal_strlit(":");
        reveal_strlit(": ");
        match snippet {
            Some(s) => {
                assert(out@ =~= "cible: "@ + display@ + ":"@ + dec((line0 + 1) as nat) + ": "@ + s@ + note@);
            },
            None => {
                assert(out@ =~= "cible: "@ + display@ + ":"@ + dec((line0 + 1) as nat) + note@);
            },
        }
    }
    Ok((line0, character0, string_of(out.as_slice())))
}

// ── answers ─────────────────────────────────────────────────────────────────

/// One diagnostic as the server published it: the 0-based start (line,
/// character) of its range when the range has one, its severity code and
/// its message.
pub struct DiagnosticEntry {
    pub start: Option<(i64, i64)>,
    pub severity: i64,
    pub message: String,
}

/// The answer when no diagnostics arrived in time.
pub open spec fn not_yet_analyzed_msg() -> Seq<char> {
    "not yet analyzed: no diagnostics received from the LSP server within the timeout — this does NOT mean the file is clean, retry shortly"@
}

/// The answer when the server published an empty list.
pub open spec fn no_diagnostics_msg() -> Seq<char> {
    "no diagnostics: file analyzed, no issues found"@
}

/// `{resolved}:{line}:{col}: {label}: {message}` (1-based), or nothing for
/// a diagnostic without a start.
pub open spec fn diagnostic_line(resolved: Seq<char>, d: DiagnosticEntry) -> Option<Seq<char>> {
    match d.start {
        Some((l, c)) => Some(
            resolved + ":"@ + dec_int(l + 1) + ":"@ + dec_int(c + 1) + ": "@ + severity_spec(
                d.severity,
            ) + ": "@ + d.message@,
        ),
        None => None,
    }
}

/// The lines of the diagnostics that have a start, in order.
pub open spec fn diagnostic_lines(resolved: Seq<char>, ds: Seq<DiagnosticEntry>) -> Seq<Seq<char>>
    decreases ds.len(),
{
    if ds.len() == 0 {
        Seq::empty()
    } else {
        let prev = diagnostic_lines(resolved, ds.drop_last());
        match diagnostic_line(resolved, ds.last()) {
            Some(l) => prev.push(l),
            None => prev,
        }
    }
}

/// The answer of `lsp_diagnostics`: three distinct states, nothing received,
/// an empty list, or one line per diagnostic.
pub open spec fn diagnostics_report_spec(resolved: Seq<char>, ds: Option<Seq<DiagnosticEntry>>) -> Seq<
    char,
> {
    match ds {
        None => not_yet_analyzed_msg(),
        Some(s) => if s.len() == 0 {
            no_diagnostics_msg()
        } else {
            join_with(diagnostic_lines(resolved, s), "\n"@)
        },
    }
}

/// The view of an optional diagnostics list.
pub open spec fn diagnostics_view(ds: Option<Vec<DiagnosticEntry>>) -> Option<Seq<DiagnosticEntry>> {
    match ds {
        Some(v) => Some(v@),
        None => None,
    }
}

/// The answer of `lsp_diagnostics` for the file `resolved`, given what the
/// server published (`None`: nothing within the wait).
pub fn diagnostics_report(resolved: &str, diagnostics: &Option<Vec<DiagnosticEntry>>) -> (r: String)
    ensures
        r@ == diagnostics_report_spec(resolved@, diagnostics_view(*diagnostics)),
{
    match diagnostics {
        None => "not yet analyzed: no diagnostics received from the LSP server within the timeout — this does NOT mean the file is clean, retry shortly".to_owned(),
        Some(ds) => {
            if ds.len() == 0 {
                return "no diagnostics: file analyzed, no issues found".to_owned();
            }
            let rc = chars_of(resolved);
            let mut lines: Vec<Vec<char>> = Vec::new();
            let mut i: usize = 0;
            while i < ds.len()
                invariant
                    i <= ds@.len(),
                    rc@ == resolved@,
                    views(lines@) == diagnostic_lines(resolved@, ds@.take(i as int)),
                decreases ds.len() - i,
            {
                let d = &ds[i];
                assert(ds@.take(i + 1).drop_last() =~= ds@.take(i as int));
                assert(ds@.take(i + 1).last() == ds@[i as int]);
                match d.start {
                    Some((l, c)) => {
                        let mut line = rc.clone();
                        line.push(':');
                        let a = dec_i128_chars(l as i128 + 1);
                        append_chars(&mut line, a.as_slice());
                        line.push(':');
                        let b = dec_i128_chars(c as i128 + 1);
                        append_chars(&mut line, b.as_slice());
                        line.push(':');
                        line.push(' ');
                        let lab = chars_of(severity_label(d.severity));
                        append_chars(&mut line, lab.as_slice());
                        line.push(':');
                        line.push(' ');
                        let m = chars_of(d.message.as_str());
                        append_chars(&mut line, m.as_slice());
                        proof {
                            reveal_strlit(":");
                            reveal_strlit(": ");
                            assert(line@ =~= resolved@ + ":"@ + dec_int(l + 1) + ":"@ + dec_int(c + 1)
                                + ": "@ + severity_spec(d.severity) + ": "@ + d.message@);
                        }
                        let ghost before = lines@;
                        lines.push(line);
                        assert(views(lines@) =~= views(before).push(line@));
                    },
                    None => {},
                }
                i = i + 1;
            }
            assert(ds@.take(ds@.len() as int) =~= ds@);
            let nl = ['\n'];
            proof {
                reveal_strlit("\n");
                assert(nl@ =~= "\n"@);
            }
            let out = join_chars(&lines, nl.as_slice());
            string_of(out.as_slice())
        },
    }
}

/// The lines of the `lsp_definition` answer: the target line, the hover
/// signature and documentation when not empty, then the definitions (one
/// indented line each) or `no definitions`.
pub open spec fn definition_lines(target: Seq<char>, signature: Seq<char>, doc: Seq<char>, locations: Seq<
    Seq<char>,
>) -> Seq<Seq<char>> {
    let a = seq![target];
    let b = if signature.len() > 0 {
        a.push("signature: "@ + signature)
    } else {
        a
    };
    let c = if doc.len() > 0 {
        b.push("doc: "@ + doc)
    } else {
        b
    };
    if locations.len() == 0 {
        c.push("no definitions"@)
    } else {
        c.push("défini à:"@) + locations.map_values(|l: Seq<char>| "  "@ + l)
    }
}

/// The answer of `lsp_definition`, from the target line, the hover's
/// signature and documentation (empty when the hover gave none) and the
/// rendered definition locations.
pub fn definition_report(target_line: &str, signature: &str, doc: &str, locations: &Vec<String>) -> (r:
    String)
    ensures
        r@ == join_with(
            definition_lines(target_line@, signature@, doc@, locations@.map_values(|l: String| l@)),
            "\n"@,
        ),
{
    let ghost locs = locations@.map_values(|l: String| l@);
    let mut lines: Vec<Vec<char>> = Vec::new();
    lines.push(chars_of(target_line));
    let ghost a = seq![target_line@];
    assert(views(lines@) =~= a);
    let signature_chars = chars_of(signature);
    if signature_chars.len() > 0 {
        let mut l = chars_of("signature: ");
        let s = signature_chars;
        append_chars(&mut l, s.as_slice());
        let ghost before = views(lines@);
        lines.push(l);
        assert(views(lines@) =~= before.push("signature: "@ + signature@));
    }
    let ghost b = if signature@.len() > 0 {
        a.push("signature: "@ + signature@)
    } else {
        a
    };
    assert(views(lines@) =~= b);
    let doc_chars = chars_of(doc);
    if doc_chars.len() > 0 {
        let mut l = chars_of("doc: ");
        let s = doc_chars;
        append_chars(&mut l, s.as_slice());
        let ghost before = views(lines@);
        lines.push(l);
        assert(views(lines@) =~= before.push("doc: "@ + doc@));
    }
    let ghost c = if doc@.len() > 0 {
        b.push("doc: "@ + doc@)
    } else {
        b
    };
    assert(views(lines@) =~= c);
    if locations.len() == 0 {
        lines.push(chars_of("no definitions"));
        assert(views(lines@) =~= c.push("no definitions"@));
    } else {
        lines.push(chars_of("défini à:"));
        let ghost head = c.push("défini à:"@);
        assert(views(lines@) =~= head);
        let mut i: usize = 0;
        while i < locations.len()
            invariant
                i <= locations@.len(),
                locs == locations@.map_values(|l: String| l@),
                views(lines@) == head + locs.take(i as int).map_values(|l: Seq<char>| "  "@ + l),
            decreases locations.len() - i,
        {
            let mut l = chars_of("  ");
            let s = chars_of(locations[i].as_str());
            append_chars(&mut l, s.as_slice());
            let ghost before = views(lines@);
            lines.push(l);
            assert(views(lines@) =~= before.push(l@));
            assert(locs.take(i + 1).map_values(|l: Seq<char>| "  "@ + l) =~= locs.take(
                i as int,
            ).map_values(|l: Seq<char>| "  "@ + l).push("  "@ + locs[i as int]));
            i = i + 1;
        }
        assert(locs.take(locations@.len() as int) =~= locs);
    }
    let nl = ['\n'];
    proof {
        reveal_strlit("\n");
        assert(nl@ =~= "\n"@);
    }
    let out = join_chars(&lines, nl.as_slice());
    string_of(out.as_slice())
}

/// The answer of `lsp_references`: the target line, then `no references`
/// when the server found none, else the grouped rendering.
pub fn references_report(target_line: &str, grouped: Option<String>) -> (r: String)
    ensures
        r@ == target_line@ + "\n"@ + match grouped {
            Some(g) => g@,
            None => "no references"@,
        },
{
    let mut s = target_line.to_owned();
    s.append("\n");
    match grouped {
        Some(g) => {
            s.append(g.as_str());
        },
        None => {
            s.append("no references");
        },
    }
    s
}

/// What became of a rename request.
pub enum RenameOutcome {
    /// The server proposed no edit.
    NoEdit,
    /// Preview mode: the rendered preview of the proposed edit.
    Preview(String),
    /// The edit was applied: the files changed (display path, sites).
    Applied(Vec<(String, Vec<AppliedSite>)>),
}

/// The answer of `lsp_rename`: the target line, then `no rename` when there
/// was nothing to change, the preview, or the report of what was applied.
pub open spec fn rename_report_spec(target: Seq<char>, o: RenameOutcome) -> Seq<char> {
    match o {
        RenameOutcome::NoEdit => target + "\nno rename"@,
        RenameOutcome::Preview(p) => target + "\n"@ + p@,
        RenameOutcome::Applied(fs) => if fs@.len() == 0 {
            target + "\nno rename"@
        } else {
            target + "\nrename appliqué\n"@ + applied_report(fs@)
        },
    }
}

/// The answer of `lsp_rename` for the given outcome.
pub fn rename_report(target_line: &str, outcome: &RenameOutcome) -> (r: String)
    ensures
        r@ == rename_report_spec(target_line@, *outcome),
{
    let mut s = target_line.to_owned();
    match outcome {
        RenameOutcome::NoEdit => {
            s.append("\nno rename");
        },
        RenameOutcome::Preview(p) => {
            s.append("\n");
            s.append(p.as_str());
        },
        RenameOutcome::Applied(fs) => {
            if fs.len() == 0 {
                s.append("\nno rename");
            } else {
                s.append("\nrename appliqué\n");
                let rep = format_applied_files(fs);
                s.append(rep.as_str());
            }
        },
    }
    s
}

// ── workspace symbols ───────────────────────────────────────────────────────

/// `p` occurs in `s`.
pub open spec fn contains_seq(s: Seq<char>, p: Seq<char>) -> bool {
    exists|i: int| 0 <= i && i + p.len() <= s.len() && #[trigger] s.subrange(i, i + p.len()) == p
}

/// The answer when the server does not implement `workspace/symbol`.
pub open spec fn workspace_symbol_unsupported_msg() -> Seq<char> {
    "this LSP server does not support workspace/symbol (method not found) — use lsp_document_symbols per file"@
}

/// The JSON-RPC error member of a missing method, as the client's error
/// text carries it.
pub open spec fn method_not_found_marker() -> Seq<char> {
    "\"code\":-32601"@
}

/// Whether `p` occurs in `s`.
fn contains_chars(s: &[char], p: &[char]) -> (b: bool)
    ensures
        b == contains_seq(s@, p@),
{
    if p.len() > s.len() {
        return false;
    }
    let last = s.len() - p.len();
    let mut i: usize = 0;
    loop
        invariant
            i <= last,
            last + p@.len() == s@.len(),
            forall|k: int| 0 <= k < i ==> #[trigger] s@.subrange(k, k + p@.len()) != p@,
        decreases last - i,
    {
        if matches_at(s, i, p) {
            return true;
        }
        if i == last {
            assert forall|k: int| 0 <= k && k + p@.len() <= s@.len() implies #[trigger] s@.subrange(
                k,
                k + p@.len(),
            ) != p@ by {
                if k == i {
                }
            }
            return false;
        }
        i = i + 1;
    }
}

/// What a failed `workspace/symbol` request answers: when the server lacks
/// the method (the error text carries `"code":-32601`) a success telling to
/// use the per-file tool, never a fallback; otherwise the error itself.
pub fn workspace_symbols_failure(error: &str) -> (r: Result<String, String>)
    ensures
        contains_seq(error@, method_not_found_marker()) ==> (r matches Ok(m) && m@
            == workspace_symbol_unsupported_msg()),
        !contains_seq(error@, method_not_found_marker()) ==> (r matches Err(e) && e@ == error@),
{
    let e = chars_of(error);
    let marker = chars_of("\"code\":-32601");
    if contains_chars(e.as_slice(), marker.as_slice()) {
        Ok("this LSP server does not support workspace/symbol (method not found) — use lsp_document_symbols per file".to_owned())
    } else {
        Err(error.to_owned())
    }
}

// ── reference files ─────────────────────────────────────────────────────────

/// At most this many distinct files get their symbols collected for
/// `lsp_references`.
pub const MAX_REFERENCE_FILES: usize = 20;

/// What `lsp_references` does with one distinct file of the references.
#[derive(PartialEq, Eq, Structural, Debug, Clone, Copy)]
pub enum ReferenceFileStep {
    /// Rendered without enclosing symbols (no LSP for it, or another
    /// toolchain than the session's).
    Skip,
    /// Rendered without enclosing symbols: the cap is reached.
    OverCap,
    /// Read, opened, and its symbols collected.
    Admit,
}

/// The step for a file whose extension gives `file_toolchain`, when
/// `admitted` files were already admitted.
pub open spec fn reference_file_step_spec(file_toolchain: Option<Seq<char>>, session: Seq<char>, admitted: nat) -> ReferenceFileStep {
    match file_toolchain {
        None => ReferenceFileStep::Skip,
        Some(t) => if t != session {
            ReferenceFileStep::Skip
        } else if admitted >= MAX_REFERENCE_FILES {
            ReferenceFileStep::OverCap
        } else {
            ReferenceFileStep::Admit
        },
    }
}

/// Decides what to do with one distinct reference file.
pub fn reference_file_step(file_toolchain: Option<&str>, session_toolchain: &str, admitted: usize) -> (r:
    ReferenceFileStep)
    ensures
        r == reference_file_step_spec(opt_view(file_toolchain), session_toolchain@, admitted as nat),
{
    match file_toolchain {
        None => ReferenceFileStep::Skip,
        Some(t) => {
            let a = chars_of(t);
            let b = chars_of(session_toolchain);
            if !eq_chars(a.as_slice(), b.as_slice()) {
                ReferenceFileStep::Skip
            } else if admitted >= MAX_REFERENCE_FILES {
                ReferenceFileStep::OverCap
            } else {
                ReferenceFileStep::Admit
            }
        },
    }
}

/// `String` order is a strict order: irreflexive.
pub proof fn lemma_seq_lt_irreflexive(a: Seq<char>)
    ensures
        !seq_lt(a, a),
    decreases a.len(),
{
    if a.len() > 0 {
        lemma_seq_lt_irreflexive(a.drop_first());
    }
}

/// `String` order is transitive.
pub proof fn lemma_seq_lt_transitive(a: Seq<char>, b: Seq<char>, c: Seq<char>)
    requires
        seq_lt(a, b),
        seq_lt(b, c),
    ensures
        seq_lt(a, c),
    decreases a.len(),
{
    if a.len() > 0 && b.len() > 0 && c.len() > 0 && a[0] == b[0] && b[0] == c[0] {
        lemma_seq_lt_transitive(a.drop_first(), b.drop_first(), c.drop_first());
    }
}

/// Distinct characters have distinct code points.
proof fn lemma_char_u32_injective(c: char, d: char)
    ensures
        c != d ==> (c as u32) != (d as u32),
{
    vstd::utf8::char_u32_cast(c, c as u32);
    vstd::utf8::char_u32_cast(d, d as u32);
}

/// `String` order is total.
pub proof fn lemma_seq_lt_total(a: Seq<char>, b: Seq<char>)
    requires
        a != b,
    ensures
        seq_lt(a, b) || seq_lt(b, a),
    decreases a.len(),
{
    if a.len() == 0 && b.len() == 0 {
        assert(a =~= b);
    } else if a.len() > 0 && b.len() > 0 && a[0] == b[0] {
        let da = a.drop_first();
        let db = b.drop_first();
        if da == db {
            assert(da.len() == db.len());
            assert(a.len() == b.len());
            assert(a =~= b) by {
                assert forall|i: int| 0 <= i < a.len() implies a[i] == b[i] by {
                    if i > 0 {
                        assert(a[i] == a.drop_first()[i - 1]);
                        assert(b[i] == b.drop_first()[i - 1]);
                    }
                }
            }
        } else {
            lemma_seq_lt_total(a.drop_first(), b.drop_first());
        }
    } else if a.len() > 0 && b.len() > 0 {
        lemma_char_u32_injective(a[0], b[0]);
    }
}

/// Strictly increasing from index `from` on.
pub open spec fn sorted_from(s: Seq<Seq<char>>, from: int) -> bool {
    forall|i: int, j: int| from <= i < j < s.len() ==> #[trigger] seq_lt(s[i], s[j]) || !(i < j)
}

/// The order in which `lsp_references` visits the distinct files of its
/// references: the target file first when it is among them, then the
/// others in `String` order, each once.
pub open spec fn reference_uri_order(file_uri: Seq<char>, uris: Seq<Seq<char>>, r: Seq<Seq<char>>) -> bool {
    let head: int = if uris.contains(file_uri) {
        1
    } else {
        0
    };
    &&& forall|x: Seq<char>| r.contains(x) <==> uris.contains(x)
    &&& r.no_duplicates()
    &&& uris.contains(file_uri) ==> r.len() > 0 && r[0] == file_uri
    &&& forall|i: int, j: int| head <= i < j < r.len() ==> #[trigger] seq_lt(r[i], r[j])
}

/// Inserting `u` at a position `p` that keeps the order keeps the sequence
/// strictly increasing, and adds exactly `u`.
proof fn lemma_insert_sorted(s: Seq<Seq<char>>, p: int, u: Seq<char>)
    requires
        0 <= p <= s.len(),
        forall|i: int, j: int| 0 <= i < j < s.len() ==> #[trigger] seq_lt(s[i], s[j]),
        forall|k: int| 0 <= k < p ==> #[trigger] seq_lt(s[k], u),
        p < s.len() ==> seq_lt(u, s[p]),
    ensures
        forall|i: int, j: int| 0 <= i < j < s.insert(p, u).len() ==> #[trigger] seq_lt(
            s.insert(p, u)[i],
            s.insert(p, u)[j],
        ),
        forall|x: Seq<char>| s.insert(p, u).contains(x) <==> (s.contains(x) || x == u),
{
    let t = s.insert(p, u);
    assert forall|i: int, j: int| 0 <= i < j < t.len() implies #[trigger] seq_lt(t[i], t[j]) by {
        if j < p {
        } else if j == p {
        } else if i < p {
            assert(t[j] == s[j - 1]);
            if j - 1 == p {
                lemma_seq_lt_transitive(s[i], u, s[p]);
            } else {
                assert(seq_lt(s[i], s[j - 1]));
            }
        } else if i == p {
            assert(t[j] == s[j - 1]);
            if j - 1 > p {
                lemma_seq_lt_transitive(u, s[p], s[j - 1]);
            }
        } else {
            assert(t[i] == s[i - 1]);
            assert(t[j] == s[j - 1]);
        }
    }
    assert forall|x: Seq<char>| t.contains(x) <==> (s.contains(x) || x == u) by {
        if t.contains(x) {
            let k = choose|k: int| 0 <= k < t.len() && t[k] == x;
            if k < p {
                assert(s[k] == x);
            } else if k > p {
                assert(s[k - 1] == x);
            }
        }
        if s.contains(x) {
            let k = choose|k: int| 0 <= k < s.len() && s[k] == x;
            if k < p {
                assert(t[k] == x);
            } else {
                assert(t[k + 1] == x);
            }
        }
        if x == u {
            assert(t[p] == u);
        }
    }
}

/// Adds `u` to the strictly increasing `sorted` unless it is there.
fn insert_sorted(sorted: &mut Vec<Vec<char>>, u: Vec<char>)
    requires
        forall|i: int, j: int| 0 <= i < j < views(old(sorted)@).len() ==> #[trigger] seq_lt(
            views(old(sorted)@)[i],
            views(old(sorted)@)[j],
        ),
    ensures
        forall|i: int, j: int| 0 <= i < j < views(final(sorted)@).len() ==> #[trigger] seq_lt(
            views(final(sorted)@)[i],
            views(final(sorted)@)[j],
        ),
        forall|x: Seq<char>| views(final(sorted)@).contains(x) <==> (views(old(sorted)@).contains(x) || x == u@),
{
    let ghost s = views(sorted@);
    let mut p: usize = 0;
    while p < sorted.len() && chars_lt(sorted[p].as_slice(), u.as_slice())
        invariant
            p <= sorted@.len(),
            s == views(sorted@),
            forall|k: int| 0 <= k < p ==> #[trigger] seq_lt(s[k], u@),
        decreases sorted.len() - p,
    {
        p = p + 1;
    }
    if p < sorted.len() && eq_chars(sorted[p].as_slice(), u.as_slice()) {
        assert(s[p as int] == u@);
        assert(s.contains(u@));
        return;
    }
    proof {
        if p < s.len() {
            assert(!seq_lt(s[p as int], u@));
            assert(s[p as int] != u@);
            lemma_seq_lt_total(s[p as int], u@);
        }
        lemma_insert_sorted(s, p as int, u@);
    }
    let ghost uv = u@;
    sorted.insert(p, u);
    assert(views(sorted@) =~= s.insert(p as int, uv));
    assert(s == views(old(sorted)@));
    assert forall|x: Seq<char>| #[trigger] views(sorted@).contains(x) <==> (views(old(sorted)@).contains(x) || x == uv) by {
        assert(views(sorted@).contains(x) <==> (s.contains(x) || x == uv));
    }
}

/// Orders the distinct files of the references (`uris`, in any order, with
/// repeats) for `lsp_references`: `file_uri` first when it occurs, then the
/// others in `String` order, each once.
pub fn order_reference_uris(file_uri: &str, uris: &Vec<String>) -> (r: Vec<String>)
    ensures
        reference_uri_order(file_uri@, views_of_strings(uris@), views_of_strings(r@)),
{
    let ghost us = views_of_strings(uris@);
    let fu = chars_of(file_uri);
    let mut sorted: Vec<Vec<char>> = Vec::new();
    let mut has_target = false;
    let mut i: usize = 0;
    while i < uris.len()
        invariant
            i <= uris@.len(),
            us == views_of_strings(uris@),
            fu@ == file_uri@,
            forall|a: int, b: int| 0 <= a < b < views(sorted@).len() ==> #[trigger] seq_lt(
                views(sorted@)[a],
                views(sorted@)[b],
            ),
            forall|x: Seq<char>| views(sorted@).contains(x) <==> (us.take(i as int).contains(x) && x != fu@),
            has_target <==> us.take(i as int).contains(fu@),
        decreases uris.len() - i,
    {
        let u = chars_of(uris[i].as_str());
        assert(us[i as int] == u@);
        proof {
            assert forall|x: Seq<char>| us.take(i + 1).contains(x) <==> (us.take(i as int).contains(x) || x == u@) by {
                if us.take(i + 1).contains(x) {
                    let k = choose|k: int| 0 <= k < i + 1 && #[trigger] us.take(i + 1)[k] == x;
                    if k < i {
                        assert(us.take(i as int)[k] == x);
                    }
                }
                if us.take(i as int).contains(x) {
                    let k = choose|k: int| 0 <= k < i && #[trigger] us.take(i as int)[k] == x;
                    assert(us.take(i + 1)[k] == x);
                }
                if x == u@ {
                    assert(us.take(i + 1)[i as int] == x);
                }
            }
        }
        let ghost before = views(sorted@);
        let ghost uv = u@;
        if eq_chars(u.as_slice(), fu.as_slice()) {
            has_target = true;
        } else {
            insert_sorted(&mut sorted, u);
        }
        assert forall|x: Seq<char>| views(sorted@).contains(x) <==> (us.take(i + 1).contains(x) && x
            != fu@) by {
            if uv == fu@ {
                assert(views(sorted@) == before);
            }
        }
        i = i + 1;
    }
    assert(us.take(uris@.len() as int) =~= us);
    let mut out: Vec<Vec<char>> = Vec::new();
    if has_target {
        out.push(fu);
    }
    let ghost head: int = if has_target { 1 } else { 0 };
    let ghost pre = views(out@);
    let mut k: usize = 0;
    while k < sorted.len()
        invariant
            k <= sorted@.len(),
            out@.len() == head + k,
            head == (if has_target { 1int } else { 0int }),
            has_target ==> views(out@)[0] == file_uri@,
            forall|a: int| 0 <= a < k ==> #[trigger] views(out@)[head + a] == views(sorted@)[a],
        decreases sorted.len() - k,
    {
        let ghost before = views(out@);
        out.push(sorted[k].clone());
        assert(views(out@) =~= before.push(sorted@[k as int]@));
        k = k + 1;
    }
    let ghost s = views(sorted@);
    let ghost o = views(out@);
    proof {
        assert(o.len() == head + s.len());
        assert forall|x: Seq<char>| o.contains(x) <==> us.contains(x) by {
            if o.contains(x) {
                let a = choose|a: int| 0 <= a < o.len() && o[a] == x;
                if a >= head {
                    assert(o[head + (a - head)] == s[a - head]);
                    assert(s.contains(x));
                }
            }
            if us.contains(x) {
                if x == file_uri@ {
                    assert(o[0] == x);
                } else {
                    assert(s.contains(x));
                    let a = choose|a: int| 0 <= a < s.len() && s[a] == x;
                    assert(o[head + a] == x);
                }
            }
        }
        assert forall|a: int, b: int| head <= a < b < o.len() implies #[trigger] seq_lt(o[a], o[b]) by {
            assert(o[head + (a - head)] == s[a - head]);
            assert(o[head + (b - head)] == s[b - head]);
        }
        assert forall|a: int, b: int| 0 <= a < o.len() && 0 <= b < o.len() && a != b implies o[a] != o[b] by {
            if a >= head && b >= head {
                assert(o[head + (a - head)] == s[a - head]);
                assert(o[head + (b - head)] == s[b - head]);
                if a < b {
                    assert(seq_lt(s[a - head], s[b - head]));
                    if o[a] == o[b] {
                        lemma_seq_lt_irreflexive(o[a]);
                    }
                } else {
                    assert(seq_lt(s[b - head], s[a - head]));
                    if o[a] == o[b] {
                        lemma_seq_lt_irreflexive(o[a]);
                    }
                }
            } else if a < head {
                assert(o[head + (b - head)] == s[b - head]);
                assert(s.contains(o[b]));
            } else {
                assert(o[head + (a - head)] == s[a - head]);
                assert(s.contains(o[a]));
            }
        }
    }
    let r = strings_of(&out);
    assert(views_of_strings(r@) =~= o);
    r
}

// ── the reference files, step by step ──────────────────────────────────────

/// Where the scan of the reference files stands.
#[derive(Debug, Clone, Copy, PartialEq, Eq, Structural)]
pub enum ScanPhase {
    /// Taking the next distinct URI.
    Next,
    /// Its path is being confined to the sandbox.
    Confining,
    /// The file is being read.
    Reading,
    /// The file is being opened in the language server.
    Opening,
    /// Its document symbols are being asked for.
    Symbols,
    /// Every URI was seen.
    Done,
}

/// The scan of the distinct files of `lsp_references` (in the order of
/// `order_reference_uris`): each file of the session's toolchain, up to
/// `MAX_REFERENCE_FILES` of them, is read (the target file's text is reused),
/// opened in the server when it is not the target file, and asked for its
/// symbols; any failure leaves that file without enclosing symbols.
pub struct ReferenceScan {
    pub uris: Vec<String>,
    pub file_uri: String,
    pub resolved: String,
    pub text: String,
    pub session_toolchain: String,
    pub next: usize,
    pub admitted: usize,
    pub cap_warned: bool,
    pub phase: ScanPhase,
    pub cur_uri: String,
    pub cur_language: String,
    pub cur_content: String,
}

/// What the caller does next.
pub enum ScanAction {
    /// Call `step` again (the URI was passed over).
    Continue,
    /// Confine this path to the sandbox (`ok` and the resolved path back).
    Confine(String),
    /// Read this file (`ok` and its text back).
    ReadFile(String),
    /// Open this URI in the server, with its language and text (`ok` back).
    EnsureOpen { uri: String, language_id: String, content: String },
    /// Ask the server for the document symbols of this URI (`ok` back,
    /// the symbols kept by the caller).
    RequestSymbols(String),
    /// Record this file: its text, and its symbols when they came back.
    Record { uri: String, content: String, symbols_ok: bool },
    /// Warn, once, that the remaining files go without enclosing symbols.
    WarnOverCap,
    /// The scan is over.
    Done,
}

/// The outcome of the last action.
pub struct ScanEvent {
    pub ok: bool,
    pub text: String,
}

/// A scan by its views.
pub struct ScanView {
    pub uris: Seq<Seq<char>>,
    pub file_uri: Seq<char>,
    pub resolved: Seq<char>,
    pub text: Seq<char>,
    pub session_toolchain: Seq<char>,
    pub next: nat,
    pub admitted: nat,
    pub cap_warned: bool,
    pub phase: ScanPhase,
    pub cur_uri: Seq<char>,
    pub cur_language: Seq<char>,
    pub cur_content: Seq<char>,
}

/// The view of a scan.
pub open spec fn scan_view(s: ReferenceScan) -> ScanView {
    ScanView {
        uris: views_of_strings(s.uris@),
        file_uri: s.file_uri@,
        resolved: s.resolved@,
        text: s.text@,
        session_toolchain: s.session_toolchain@,
        next: s.next as nat,
        admitted: s.admitted as nat,
        cap_warned: s.cap_warned,
        phase: s.phase,
        cur_uri: s.cur_uri@,
        cur_language: s.cur_language@,
        cur_content: s.cur_content@,
    }
}

/// An action by a tag, its texts and its flag.
pub open spec fn scan_action_view(a: ScanAction) -> (nat, Seq<Seq<char>>, bool) {
    match a {
        ScanAction::Continue => (0, seq![], false),
        ScanAction::Confine(p) => (1, seq![p@], false),
        ScanAction::ReadFile(p) => (2, seq![p@], false),
        ScanAction::EnsureOpen { uri, language_id, content } => (3, seq![uri@, language_id@, content@], false),
        ScanAction::RequestSymbols(u) => (4, seq![u@], false),
        ScanAction::Record { uri, content, symbols_ok } => (5, seq![uri@, content@], symbols_ok),
        ScanAction::WarnOverCap => (6, seq![], false),
        ScanAction::Done => (7, seq![], false),
    }
}

/// Once the file's text is known: open it in the server unless it is the
/// target file, then ask for its symbols.
pub open spec fn scan_after_content(st: ScanView, content: Seq<char>) -> (ScanView, (nat, Seq<Seq<char>>, bool)) {
    if st.cur_uri != st.file_uri {
        (
            ScanView { phase: ScanPhase::Opening, cur_content: content, ..st },
            (3, seq![st.cur_uri, st.cur_language, content], false),
        )
    } else {
        (ScanView { phase: ScanPhase::Symbols, cur_content: content, ..st }, (4, seq![st.cur_uri], false))
    }
}

/// One step of the scan, given the outcome of the last action.
pub open spec fn scan_step_spec(st: ScanView, ev_ok: bool, ev_text: Seq<char>) -> (ScanView, (nat, Seq<Seq<char>>, bool)) {
    match st.phase {
        ScanPhase::Next => if st.next >= st.uris.len() {
            (ScanView { phase: ScanPhase::Done, ..st }, (7, seq![], false))
        } else {
            let uri = st.uris[st.next as int];
            let st1 = ScanView { next: st.next + 1, cur_uri: uri, ..st };
            match strip_prefix_spec(uri, "file://"@) {
                None => (st1, (0, seq![], false)),
                Some(raw) => (ScanView { phase: ScanPhase::Confining, ..st1 }, (1, seq![raw], false)),
            }
        },
        ScanPhase::Confining => if !ev_ok {
            (ScanView { phase: ScanPhase::Next, ..st }, (0, seq![], false))
        } else {
            let tc = toolchain_spec(ev_text);
            let tname = match tc {
                Some(p) => Some(p.0),
                None => None,
            };
            match reference_file_step_spec(tname, st.session_toolchain, st.admitted) {
                ReferenceFileStep::Skip => (ScanView { phase: ScanPhase::Next, ..st }, (0, seq![], false)),
                ReferenceFileStep::OverCap => if st.cap_warned {
                    (ScanView { phase: ScanPhase::Next, ..st }, (0, seq![], false))
                } else {
                    (ScanView { phase: ScanPhase::Next, cap_warned: true, ..st }, (6, seq![], false))
                },
                ReferenceFileStep::Admit => {
                    let st1 = ScanView {
                        admitted: st.admitted + 1,
                        cur_language: tc->Some_0.1,
                        ..st
                    };
                    if ev_text == st.resolved {
                        scan_after_content(st1, st.text)
                    } else {
                        (ScanView { phase: ScanPhase::Reading, ..st1 }, (2, seq![ev_text], false))
                    }
                },
            }
        },
        ScanPhase::Reading => if !ev_ok {
            (ScanView { phase: ScanPhase::Next, ..st }, (0, seq![], false))
        } else {
            scan_after_content(st, ev_text)
        },
        ScanPhase::Opening => if !ev_ok {
            (ScanView { phase: ScanPhase::Next, ..st }, (0, seq![], false))
        } else {
            (ScanView { phase: ScanPhase::Symbols, ..st }, (4, seq![st.cur_uri], false))
        },
        ScanPhase::Symbols => (
            ScanView { phase: ScanPhase::Next, ..st },
            (5, seq![st.cur_uri, st.cur_content], ev_ok),
        ),
        ScanPhase::Done => (st, (7, seq![], false)),
    }
}

impl ReferenceScan {
    /// A scan of `uris` for the references of the symbol in `file_uri`,
    /// whose confined path is `resolved` and text `text`, on a session of
    /// `session_toolchain`.
    pub fn new(uris: Vec<String>, file_uri: &str, resolved: &str, text: &str, session_toolchain: &str) -> (r: ReferenceScan)
        ensures
            scan_view(r) == (ScanView {
                uris: views_of_strings(uris@),
                file_uri: file_uri@,
                resolved: resolved@,
                text: text@,
                session_toolchain: session_toolchain@,
                next: 0,
                admitted: 0,
                cap_warned: false,
                phase: ScanPhase::Next,
                cur_uri: Seq::<char>::empty(),
                cur_language: Seq::<char>::empty(),
                cur_content: Seq::<char>::empty(),
            }),
    {
        ReferenceScan {
            uris,
            file_uri: file_uri.to_owned(),
            resolved: resolved.to_owned(),
            text: text.to_owned(),
            session_toolchain: session_toolchain.to_owned(),
            next: 0,
            admitted: 0,
            cap_warned: false,
            phase: ScanPhase::Next,
            cur_uri: String::new(),
            cur_language: String::new(),
            cur_content: String::new(),
        }
    }

    /// Once the file's text is known.
    fn after_content(&mut self, content: String) -> (a: ScanAction)
        requires
            old(self).admitted <= MAX_REFERENCE_FILES,
        ensures
            (scan_view(*final(self)), scan_action_view(a)) == scan_after_content(scan_view(*old(self)), content@),
    {
        let same = eq_chars(chars_of(self.cur_uri.as_str()).as_slice(), chars_of(self.file_uri.as_str()).as_slice());
        self.cur_content = content.clone();
        if !same {
            self.phase = ScanPhase::Opening;
            ScanAction::EnsureOpen { uri: self.cur_uri.clone(), language_id: self.cur_language.clone(), content }
        } else {
            self.phase = ScanPhase::Symbols;
            ScanAction::RequestSymbols(self.cur_uri.clone())
        }
    }

    /// Takes the outcome of the last action (ignored when the last action
    /// asked for none) and says what to do next.
    pub fn step(&mut self, last: &ScanEvent) -> (a: ScanAction)
        requires
            old(self).admitted <= MAX_REFERENCE_FILES,
        ensures
            final(self).admitted <= MAX_REFERENCE_FILES,
            (scan_view(*final(self)), scan_action_view(a)) == scan_step_spec(
                scan_view(*old(self)),
                last.ok,
                last.text@,
            ),
    {
        match self.phase {
            ScanPhase::Next => {
                if self.next >= self.uris.len() {
                    self.phase = ScanPhase::Done;
                    return ScanAction::Done;
                }
                let uri = self.uris[self.next].clone();
                proof {
                    assert(views_of_strings(self.uris@)[self.next as int] == self.uris@[self.next as int]@);
                }
                self.next = self.next + 1;
                self.cur_uri = uri;
                match crate::tools::locations::file_uri_path(self.cur_uri.as_str()) {
                    None => ScanAction::Continue,
                    Some(raw) => {
                        self.phase = ScanPhase::Confining;
                        ScanAction::Confine(raw)
                    },
                }
            },
            ScanPhase::Confining => {
                if !last.ok {
                    self.phase = ScanPhase::Next;
                    return ScanAction::Continue;
                }
                let tc = toolchain_for_path(last.text.as_str());
                let tname: Option<&str> = match tc {
                    Some((t, _)) => Some(t),
                    None => None,
                };
                match reference_file_step(tname, self.session_toolchain.as_str(), self.admitted) {
                    ReferenceFileStep::Skip => {
                        self.phase = ScanPhase::Next;
                        ScanAction::Continue
                    },
                    ReferenceFileStep::OverCap => {
                        self.phase = ScanPhase::Next;
                        if self.cap_warned {
                            ScanAction::Continue
                        } else {
                            self.cap_warned = true;
                            ScanAction::WarnOverCap
                        }
                    },
                    ReferenceFileStep::Admit => {
                        self.admitted = self.admitted + 1;
                        self.cur_language = match tc {
                            Some((_, lang)) => lang.to_owned(),
                            None => String::new(),
                        };
                        let same = eq_chars(
                            chars_of(last.text.as_str()).as_slice(),
                            chars_of(self.resolved.as_str()).as_slice(),
                        );
                        if same {
                            let t = self.text.clone();
                            self.after_content(t)
                        } else {
                            self.phase = ScanPhase::Reading;
                            ScanAction::ReadFile(last.text.clone())
                        }
                    },
                }
            },
            ScanPhase::Reading => {
                if !last.ok {
                    self.phase = ScanPhase::Next;
                    return ScanAction::Continue;
                }
                self.after_content(last.text.clone())
            },
            ScanPhase::Opening => {
                if !last.ok {
                    self.phase = ScanPhase::Next;
                    return ScanAction::Continue;
                }
                self.phase = ScanPhase::Symbols;
                ScanAction::RequestSymbols(self.cur_uri.clone())
            },
            ScanPhase::Symbols => {
                self.phase = ScanPhase::Next;
                ScanAction::Record { uri: self.cur_uri.clone(), content: self.cur_content.clone(), symbols_ok: last.ok }
            },
            ScanPhase::Done => ScanAction::Done,
        }
    }
}

/// What `lsp_rename` does with the server's answer.
#[derive(Debug, Clone, Copy, PartialEq, Eq, Structural)]
pub enum RenameStep {
    /// The server had no edit to make (a `null` answer).
    NoEdit,
    /// List the edit's sites without writing any file.
    Preview,
    /// Apply the edit to the files.
    Apply,
}

/// A `null` answer means no edit; otherwise `preview` decides between
/// listing and applying.
pub fn rename_step(answer_is_null: bool, preview: bool) -> (r: RenameStep)
    ensures
        r == (if answer_is_null {
            RenameStep::NoEdit
        } else if preview {
            RenameStep::Preview
        } else {
            RenameStep::Apply
        }),
{
    if answer_is_null {
        RenameStep::NoEdit
    } else if preview {
        RenameStep::Preview
    } else {
        RenameStep::Apply
    }
}

} // verus!
