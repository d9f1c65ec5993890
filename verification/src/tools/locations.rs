//! Rendering of LSP locations: display paths of file URIs and the one-line
//! rendering of a location.

use vstd::prelude::*;
use crate::text::{append_chars, chars_of, dec, dec_chars_wide, starts_with, starts_with_chars, string_of};

verus! {

/// `str::strip_prefix` on characters.
pub open spec fn strip_prefix_spec(s: Seq<char>, p: Seq<char>) -> Option<Seq<char>> {
    if starts_with(s, p) {
        Some(s.skip(p.len() as int))
    } else {
        None
    }
}

/// `s.strip_prefix(p)`.
pub fn strip_prefix_chars(s: &[char], p: &[char]) -> (r: Option<Vec<char>>)
    ensures
        match r {
            Some(x) => strip_prefix_spec(s@, p@) == Some(x@),
            None => strip_prefix_spec(s@, p@) is None,
        },
{
    if starts_with_chars(s, p) {
        Some(crate::text::copy_range(s, p.len(), s.len()))
    } else {
        None
    }
}

/// The path of a `file://` URI.
pub fn file_uri_path(uri: &str) -> (r: Option<String>)
    ensures
        match r {
            Some(x) => strip_prefix_spec(uri@, "file://"@) == Some(x@),
            None => strip_prefix_spec(uri@, "file://"@) is None,
        },
{
    let u = chars_of(uri);
    let pre = chars_of("file://");
    match strip_prefix_chars(u.as_slice(), pre.as_slice()) {
        Some(x) => Some(string_of(x.as_slice())),
        None => None,
    }
}

/// The display path of a URI: when its path was confined inside the
/// workspace (`confined` is the resolved path), the URI without its
/// `file://{root}/` prefix, or the resolved path when the URI does not have
/// that prefix; otherwise the raw URI.
pub open spec fn display_path_spec(uri: Seq<char>, root: Seq<char>, confined: Option<Seq<char>>) -> Seq<char> {
    match confined {
        Some(resolved) => match strip_prefix_spec(uri, "file://"@ + root + "/"@) {
            Some(rel) => rel,
            None => resolved,
        },
        None => uri,
    }
}

/// The display path of a URI (see `display_path_spec`).
pub fn display_path(uri: &str, root: &str, confined: Option<String>) -> (r: String)
    ensures
        r@ == display_path_spec(uri@, root@, match confined {
            Some(c) => Some(c@),
            None => None,
        }),
{
    match confined {
        Some(resolved) => {
            let mut pre = chars_of("file://");
            let rc = chars_of(root);
            append_chars(&mut pre, rc.as_slice());
            pre.push('/');
            proof {
                reveal_strlit("/");
            }
            assert(pre@ =~= "file://"@ + root@ + "/"@);
            let u = chars_of(uri);
            match strip_prefix_chars(u.as_slice(), pre.as_slice()) {
                Some(rel) => string_of(rel.as_slice()),
                None => resolved,
            }
        },
        None => uri.to_owned(),
    }
}

/// The display of a resolved path: relative to the root when under
/// `{root}/`, else the resolved path itself.
pub open spec fn relative_display_spec(resolved: Seq<char>, root: Seq<char>) -> Seq<char> {
    match strip_prefix_spec(resolved, root + "/"@) {
        Some(rel) => rel,
        None => resolved,
    }
}

/// The display of a resolved path (see `relative_display_spec`).
pub fn relative_display(resolved: &str, root: &str) -> (r: String)
    ensures
        r@ == relative_display_spec(resolved@, root@),
{
    let mut pre = chars_of(root);
    pre.push('/');
    proof {
        reveal_strlit("/");
    }
    assert(pre@ =~= root@ + "/"@);
    let rs = chars_of(resolved);
    match strip_prefix_chars(rs.as_slice(), pre.as_slice()) {
        Some(rel) => string_of(rel.as_slice()),
        None => resolved.to_owned(),
    }
}

/// The one-line rendering of a location: for a URI confined inside the
/// workspace, `{display}:{line}: {snippet}` (or without the snippet when
/// the line could not be read, or just `{display}` without a line); for any
/// other URI, `{uri}:{line}` or the raw URI (lines 1-based).
pub open spec fn location_text_spec(
    raw_uri: Seq<char>,
    display: Seq<char>,
    confined: bool,
    line0: Option<u64>,
    snippet: Option<Seq<char>>,
) -> Seq<char> {
    if confined {
        match line0 {
            None => display,
            Some(l) => match snippet {
                Some(sn) => display + ":"@ + dec((l + 1) as nat) + ": "@ + sn,
                None => display + ":"@ + dec((l + 1) as nat),
            },
        }
    } else {
        match line0 {
            Some(l) => raw_uri + ":"@ + dec((l + 1) as nat),
            None => raw_uri,
        }
    }
}

/// The one-line rendering of a location (see `location_text_spec`).
pub fn render_location_text(
    raw_uri: &str,
    display: &str,
    confined: bool,
    line0: Option<u64>,
    snippet: Option<String>,
) -> (r: String)
    ensures
        r@ == location_text_spec(raw_uri@, display@, confined, line0, match snippet {
            Some(s) => Some(s@),
            None => None,
        }),
{
    proof {
        reveal_strlit(":");
    }
    if confined {
        match line0 {
            None => display.to_owned(),
            Some(l) => {
                let mut out = chars_of(display);
                out.push(':');
                let d = dec_chars_wide(l as u128 + 1);
                append_chars(&mut out, d.as_slice());
                match snippet {
                    Some(sn) => {
                        let a = chars_of(": ");
                        append_chars(&mut out, a.as_slice());
                        let b = chars_of(sn.as_str());
                        append_chars(&mut out, b.as_slice());
                    },
                    None => {},
                }
                string_of(out.as_slice())
            },
        }
    } else {
        match line0 {
            Some(l) => {
                let mut out = chars_of(raw_uri);
                out.push(':');
                let d = dec_chars_wide(l as u128 + 1);
                append_chars(&mut out, d.as_slice());
                string_of(out.as_slice())
            },
            None => raw_uri.to_owned(),
        }
    }
}

} // verus!
