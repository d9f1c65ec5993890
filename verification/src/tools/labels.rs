//! Display labels: the LSP toolchain of a file, diagnostic severities and
//! symbol kinds.

use vstd::prelude::*;
use crate::lsp::frame::{lower_chars, lower_seq};
use crate::text::{append_chars, chars_of, dec, dec_chars, ends_with, ends_with_chars, string_of};

verus! {

/// The toolchain and LSP language id of a file, by its extension (compared
/// without regard to case): `.rs` is Rust; `.ts`, `.tsx`, `.mts`, `.cts` are
/// TypeScript and `.js`, `.jsx`, `.mjs`, `.cjs` JavaScript, both served by
/// the `node` toolchain. Lowercasing only the ASCII letters decides these
/// suffixes exactly as full Unicode lowercasing does: no other character
/// lowercases to one of their letters.
pub open spec fn toolchain_spec(path: Seq<char>) -> Option<(Seq<char>, Seq<char>)> {
    let l = lower_seq(path);
    if ends_with(l, ".rs"@) {
        Some(("rust"@, "rust"@))
    } else if ends_with(l, ".ts"@) || ends_with(l, ".tsx"@) || ends_with(l, ".mts"@) || ends_with(
        l,
        ".cts"@,
    ) {
        Some(("node"@, "typescript"@))
    } else if ends_with(l, ".js"@) || ends_with(l, ".jsx"@) || ends_with(l, ".mjs"@) || ends_with(
        l,
        ".cjs"@,
    ) {
        Some(("node"@, "javascript"@))
    } else {
        None
    }
}

/// Whether `l` ends with the literal `suffix`.
fn ends_with_lit(l: &[char], suffix: &str) -> (b: bool)
    ensures
        b == ends_with(l@, suffix@),
{
    let s = chars_of(suffix);
    ends_with_chars(l, s.as_slice())
}

/// Maps a file path to its LSP toolchain name and language id by extension,
/// case-insensitively; `None` when no LSP covers the extension.
pub fn toolchain_for_path(path: &str) -> (r: Option<(&'static str, &'static str)>)
    ensures
        match r {
            Some((t, lang)) => toolchain_spec(path@) == Some((t@, lang@)),
            None => toolchain_spec(path@) is None,
        },
{
    let v = chars_of(path);
    let l = lower_chars(v.as_slice());
    if ends_with_lit(l.as_slice(), ".rs") {
        Some(("rust", "rust"))
    } else if ends_with_lit(l.as_slice(), ".ts") || ends_with_lit(l.as_slice(), ".tsx")
        || ends_with_lit(l.as_slice(), ".mts") || ends_with_lit(l.as_slice(), ".cts") {
        Some(("node", "typescript"))
    } else if ends_with_lit(l.as_slice(), ".js") || ends_with_lit(l.as_slice(), ".jsx")
        || ends_with_lit(l.as_slice(), ".mjs") || ends_with_lit(l.as_slice(), ".cjs") {
        Some(("node", "javascript"))
    } else {
        None
    }
}

/// The display name of an LSP diagnostic severity; unknown codes read as
/// errors.
pub open spec fn severity_spec(severity: i64) -> Seq<char> {
    if severity == 2 {
        "warning"@
    } else if severity == 3 {
        "information"@
    } else if severity == 4 {
        "hint"@
    } else {
        "error"@
    }
}

/// The display name of an LSP diagnostic severity.
pub fn severity_label(severity: i64) -> (r: &'static str)
    ensures
        r@ == severity_spec(severity),
{
    match severity {
        1 => "error",
        2 => "warning",
        3 => "information",
        4 => "hint",
        _ => "error",
    }
}

/// Decimal rendering of a signed integer, as `format!("{n}")`.
pub open spec fn dec_int(n: int) -> Seq<char> {
    if n < 0 {
        seq!['-'] + dec((-n) as nat)
    } else {
        dec(n as nat)
    }
}

/// Decimal rendering of `n`.
pub fn dec_i64_chars(n: i64) -> (r: Vec<char>)
    ensures
        r@ == dec_int(n as int),
{
    if n < 0 {
        let m: u64 = (-(n as i128)) as u64;
        let mut r = vec!['-'];
        let d = dec_chars(m);
        append_chars(&mut r, d.as_slice());
        assert(r@ =~= seq!['-'] + dec((-n) as nat));
        r
    } else {
        dec_chars(n as u64)
    }
}

/// The names of the LSP symbol kinds 1 to 26, in order.
pub open spec fn symbol_kind_names() -> Seq<Seq<char>> {
    seq![
        "file"@, "module"@, "namespace"@, "package"@, "class"@, "method"@, "property"@, "field"@,
        "constructor"@, "enum"@, "interface"@, "fn"@, "var"@, "constant"@, "string"@, "number"@,
        "boolean"@, "array"@, "object"@, "key"@, "null"@, "enumMember"@, "struct"@, "event"@,
        "operator"@, "typeParameter"@,
    ]
}

/// The display name of an LSP symbol kind: its name for 1 to 26, else
/// `symbol{kind}`.
pub open spec fn symbol_kind_spec(kind: i64) -> Seq<char> {
    if 1 <= kind <= 26 {
        symbol_kind_names()[kind - 1]
    } else {
        "symbol"@ + dec_int(kind as int)
    }
}

/// The display name of an LSP symbol kind (1 to 26); `symbol{n}` for any
/// other number.
pub fn symbol_kind_label(kind: i64) -> (r: String)
    ensures
        r@ == symbol_kind_spec(kind),
{
    let name: &str = match kind {
        1 => "file",
        2 => "module",
        3 => "namespace",
        4 => "package",
        5 => "class",
        6 => "method",
        7 => "property",
        8 => "field",
        9 => "constructor",
        10 => "enum",
        11 => "interface",
        12 => "fn",
        13 => "var",
        14 => "constant",
        15 => "string",
        16 => "number",
        17 => "boolean",
        18 => "array",
        19 => "object",
        20 => "key",
        21 => "null",
        22 => "enumMember",
        23 => "struct",
        24 => "event",
        25 => "operator",
        26 => "typeParameter",
        _ => {
            let mut out = chars_of("symbol");
            let d = dec_i64_chars(kind);
            append_chars(&mut out, d.as_slice());
            return string_of(out.as_slice());
        },
    };
    name.to_owned()
}

} // verus!
