//! LSP text edits: applying a list of `TextEdit`s to a file, gathering the
//! edits of a `WorkspaceEdit` per file, and the reports of a rename (applied
//! or previewed).

use vstd::prelude::*;
use crate::text::{append_chars, chars_of, dec, starts_with, dec_chars, dec_chars_wide, eq_chars, join_chars, join_with, lemma_first_index, lines, lines_of, first_index, strip_cr, string_of, views};
use crate::tools::position::{char_len_utf8, char_width, line_snippet, line_snippet_spec, position_offset_spec, position_to_offset, utf8_len};

verus! {

/// A position of a `TextEdit` range, each field absent when the JSON field
/// is missing or not an unsigned integer.
#[derive(Debug, Clone, Copy, PartialEq, Eq)]
pub struct EditPosition {
    pub line: Option<u64>,
    pub character: Option<u64>,
}

/// The range of a `TextEdit`, each end absent when missing.
#[derive(Debug, Clone, Copy, PartialEq, Eq)]
pub struct EditRange {
    pub start: Option<EditPosition>,
    pub end: Option<EditPosition>,
}

/// An LSP `TextEdit`: its range (absent when the edit has no `range`) and
/// its new text (absent when missing or not a string).
#[derive(Debug, Clone, PartialEq, Eq)]
pub struct TextEdit {
    pub range: Option<EditRange>,
    pub new_text: Option<String>,
}

/// The line of one end of a range, if given.
pub open spec fn end_line(p: Option<EditPosition>) -> Option<u64> {
    match p {
        Some(q) => q.line,
        None => None,
    }
}

/// The character of one end of a range, if given.
pub open spec fn end_character(p: Option<EditPosition>) -> Option<u64> {
    match p {
        Some(q) => q.character,
        None => None,
    }
}

/// The characters of the lines before `line`, one newline each.
pub open spec fn lines_chars(ls: Seq<Seq<char>>) -> nat
    decreases ls.len(),
{
    if ls.len() == 0 {
        0
    } else {
        lines_chars(ls.drop_last()) + ls.last().len() + 1
    }
}

/// An edit ready to apply: byte range (in the file as it was) and new text.
pub type Replacement = (nat, nat, Seq<char>);

/// `"VNL-SBX-LSP-008: TextEdit range start > end ({start} > {end})"`.
pub open spec fn start_after_end_msg(start: nat, end: nat) -> Seq<char> {
    "VNL-SBX-LSP-008: TextEdit range start > end ("@ + dec(start) + " > "@ + dec(end) + ")"@
}

/// The new text of an edit (empty when absent).
pub open spec fn new_text_of(e: TextEdit) -> Seq<char> {
    match e.new_text {
        Some(t) => t@,
        None => seq![],
    }
}

/// Checks and converts one edit: a range with both ends, each with a line
/// and a character, each a valid position of `content`, the start not after
/// the end (as byte offsets).
pub open spec fn parse_edit(content: Seq<char>, e: TextEdit) -> Result<Replacement, Seq<char>> {
    match e.range {
        None => Err("VNL-SBX-LSP-008: TextEdit missing 'range'"@),
        Some(r) => {
            if end_line(r.start) is None {
                Err("VNL-SBX-LSP-008: TextEdit range missing 'start' line"@)
            } else if end_character(r.start) is None {
                Err("VNL-SBX-LSP-008: TextEdit range missing 'start' character"@)
            } else {
                let sl = end_line(r.start)->Some_0 as nat;
                let sc = end_character(r.start)->Some_0 as nat;
                match position_offset_spec(content, sl, sc) {
                    Err(_) => Err("VNL-SBX-LSP-008: invalid start position in TextEdit"@),
                    Ok(bs) => {
                        if end_line(r.end) is None {
                            Err("VNL-SBX-LSP-008: TextEdit range missing 'end' line"@)
                        } else if end_character(r.end) is None {
                            Err("VNL-SBX-LSP-008: TextEdit range missing 'end' character"@)
                        } else {
                            let el = end_line(r.end)->Some_0 as nat;
                            let ec = end_character(r.end)->Some_0 as nat;
                            match position_offset_spec(content, el, ec) {
                                Err(_) => Err("VNL-SBX-LSP-008: invalid end position in TextEdit"@),
                                Ok(be) => {
                                    if bs > be {
                                        Err(start_after_end_msg(bs, be))
                                    } else {
                                        Ok((bs, be, new_text_of(e)))
                                    }
                                },
                            }
                        }
                    },
                }
            }
        },
    }
}

/// Checks and converts all edits, in order; the first refused edit decides
/// the error.
pub open spec fn parse_edits(content: Seq<char>, es: Seq<TextEdit>) -> Result<Seq<Replacement>, Seq<char>>
    decreases es.len(),
{
    if es.len() == 0 {
        Ok(seq![])
    } else {
        match parse_edits(content, es.drop_last()) {
            Err(m) => Err(m),
            Ok(ps) => match parse_edit(content, es.last()) {
                Err(m) => Err(m),
                Ok(p) => Ok(ps.push(p)),
            },
        }
    }
}

/// Where a replacement goes in a list sorted by decreasing start: after
/// every replacement starting at or after it.
pub open spec fn insert_position(s: Seq<Replacement>, p: Replacement) -> nat
    decreases s.len(),
{
    if s.len() == 0 {
        0
    } else if s[0].0 < p.0 {
        0
    } else {
        1 + insert_position(s.drop_first(), p)
    }
}

/// The replacements sorted by decreasing start, equal starts kept in their
/// order (a stable sort on the reversed start).
pub open spec fn sort_by_start_desc(ps: Seq<Replacement>) -> Seq<Replacement>
    decreases ps.len(),
{
    if ps.len() == 0 {
        seq![]
    } else {
        let s = sort_by_start_desc(ps.drop_last());
        let k = insert_position(s, ps.last()) as int;
        s.take(k) + seq![ps.last()] + s.skip(k)
    }
}

/// The character index at which byte offset `b` of `t` falls, when it falls
/// on a character boundary (the end included).
pub open spec fn char_at_byte(t: Seq<char>, b: nat) -> Option<nat> {
    if exists|i: int| 0 <= i <= t.len() && #[trigger] utf8_len(t.take(i)) == b {
        Some((choose|i: int| 0 <= i <= t.len() && #[trigger] utf8_len(t.take(i)) == b) as nat)
    } else {
        None
    }
}

/// The text after the replacements, applied in turn, or `None` when the
/// byte range of one of them does not fall on character boundaries of the
/// text it is applied to (or ends before it starts).
pub open spec fn apply_replacements(s: Seq<char>, ps: Seq<Replacement>) -> Option<Seq<char>>
    decreases ps.len(),
{
    if ps.len() == 0 {
        Some(s)
    } else {
        match apply_replacements(s, ps.drop_last()) {
            None => None,
            Some(t) => {
                let (a, b, x) = ps.last();
                match (char_at_byte(t, a), char_at_byte(t, b)) {
                    (Some(i), Some(j)) => if i <= j {
                        Some(t.take(i as int) + x + t.skip(j as int))
                    } else {
                        None
                    },
                    _ => None,
                }
            },
        }
    }
}

/// One more character adds its width.
pub proof fn lemma_utf8_len_take_step(t: Seq<char>, i: int)
    requires
        0 <= i < t.len(),
    ensures
        utf8_len(t.take(i + 1)) == utf8_len(t.take(i)) + char_width(t[i]),
{
    assert(t.take(i + 1).drop_last() =~= t.take(i));
    assert(t.take(i + 1).last() == t[i]);
}

/// Longer prefixes take strictly more bytes.
pub proof fn lemma_utf8_len_take_strict(t: Seq<char>, i: int, j: int)
    requires
        0 <= i <= j <= t.len(),
    ensures
        utf8_len(t.take(j)) >= utf8_len(t.take(i)) + (j - i),
    decreases j - i,
{
    if i < j {
        lemma_utf8_len_take_strict(t, i, j - 1);
        lemma_utf8_len_take_step(t, j - 1);
    }
}

/// The character index of byte offset `b` of `t`, if it is a boundary.
fn byte_to_char(t: &Vec<char>, b: usize) -> (r: Option<usize>)
    ensures
        match r {
            Some(i) => char_at_byte(t@, b as nat) == Some(i as nat) && i <= t@.len(),
            None => char_at_byte(t@, b as nat) is None,
        },
{
    let mut acc: u128 = 0;
    let mut i: usize = 0;
    assert(t@.take(0) =~= Seq::<char>::empty());
    while i < t.len() && acc < b as u128
        invariant
            i <= t@.len(),
            acc == utf8_len(t@.take(i as int)),
            forall|k: int| 0 <= k < i ==> #[trigger] utf8_len(t@.take(k)) < b,
        decreases t.len() - i,
    {
        proof {
            lemma_utf8_len_take_step(t@, i as int);
        }
        acc = acc + char_len_utf8(t[i]) as u128;
        i = i + 1;
    }
    if acc == b as u128 {
        proof {
            let w = choose|k: int| 0 <= k <= t@.len() && #[trigger] utf8_len(t@.take(k)) == b;
            if w < i {
                lemma_utf8_len_take_strict(t@, w, i as int);
            } else if w > i {
                lemma_utf8_len_take_strict(t@, i as int, w);
            }
        }
        Some(i)
    } else {
        proof {
            assert forall|k: int| 0 <= k <= t@.len() implies #[trigger] utf8_len(t@.take(k)) != b by {
                if k > i {
                    lemma_utf8_len_take_strict(t@, i as int, k);
                }
            }
        }
        None
    }
}

/// The error of overlapping edits whose byte range no longer falls on
/// character boundaries of the text.
pub open spec fn overlap_msg() -> Seq<char> {
    "VNL-SBX-LSP-008: TextEdit ranges overlap"@
}

/// What `apply_text_edits` gives: every edit checked and converted (first
/// error wins), then applied from the last start to the first.
pub open spec fn apply_text_edits_spec(content: Seq<char>, es: Seq<TextEdit>) -> Result<Seq<char>, Seq<char>> {
    match parse_edits(content, es) {
        Err(m) => Err(m),
        Ok(ps) => match apply_replacements(content, sort_by_start_desc(ps)) {
            Some(t) => Ok(t),
            None => Err(overlap_msg()),
        },
    }
}

/// `lines_chars` of a sequence with a first line.
pub proof fn lemma_lines_chars_cons(a: Seq<char>, t: Seq<Seq<char>>)
    ensures
        lines_chars(seq![a] + t) == a.len() + 1 + lines_chars(t),
    decreases t.len(),
{
    if t.len() == 0 {
        assert(seq![a] + t =~= seq![a]);
        assert(seq![a].drop_last() =~= Seq::<Seq<char>>::empty());
        assert(seq![a].last() == a);
        assert(lines_chars(Seq::<Seq<char>>::empty()) == 0);
    } else {
        lemma_lines_chars_cons(a, t.drop_last());
        assert((seq![a] + t).drop_last() =~= seq![a] + t.drop_last());
        assert((seq![a] + t).last() == t.last());
    }
}

/// The lines before the `k`-th take no more than all of them.
pub proof fn lemma_lines_chars_prefix(ls: Seq<Seq<char>>, k: int)
    requires
        0 <= k <= ls.len(),
    ensures
        lines_chars(ls.take(k)) <= lines_chars(ls),
    decreases ls.len(),
{
    if k < ls.len() {
        lemma_lines_chars_prefix(ls.drop_last(), k);
        assert(ls.drop_last().take(k) =~= ls.take(k));
    } else {
        assert(ls.take(k) =~= ls);
    }
}

/// An edit checked and converted, for execution.
struct ParsedEdit {
    start: usize,
    end: usize,
    text: Vec<char>,
}

/// The replacement of a parsed edit.
spec fn parsed_view(p: ParsedEdit) -> Replacement {
    (p.start as nat, p.end as nat, p.text@)
}

/// The replacements of parsed edits.
spec fn parsed_views(ps: Seq<ParsedEdit>) -> Seq<Replacement> {
    ps.map_values(|p: ParsedEdit| parsed_view(p))
}

/// Checks and converts one edit.
fn parse_one(content: &str, text: &Vec<char>, ls: &Vec<Vec<char>>, e: &TextEdit) -> (r: Result<ParsedEdit, String>)
    requires
        text@ == content@,
        views(ls@) == lines(content@),
        utf8_len(content@) <= usize::MAX,
        content@.len() <= usize::MAX,
    ensures
        match r {
            Ok(p) => parse_edit(content@, *e) == Ok::<Replacement, Seq<char>>(parsed_view(p)),
            Err(m) => parse_edit(content@, *e) == Err::<Replacement, Seq<char>>(m@),
        },
{
    let r = match &e.range {
        None => return Err("VNL-SBX-LSP-008: TextEdit missing 'range'".to_owned()),
        Some(r) => r,
    };
    let (sl, sc) = match r.start {
        None => return Err("VNL-SBX-LSP-008: TextEdit range missing 'start' line".to_owned()),
        Some(p) => match (p.line, p.character) {
            (None, _) => return Err("VNL-SBX-LSP-008: TextEdit range missing 'start' line".to_owned()),
            (Some(_), None) => return Err("VNL-SBX-LSP-008: TextEdit range missing 'start' character".to_owned()),
            (Some(l), Some(c)) => (l, c),
        },
    };
    let bs = match position_to_offset(content, sl, sc) {
        Err(_) => return Err("VNL-SBX-LSP-008: invalid start position in TextEdit".to_owned()),
        Ok(o) => o,
    };
    let (el, ec) = match r.end {
        None => return Err("VNL-SBX-LSP-008: TextEdit range missing 'end' line".to_owned()),
        Some(p) => match (p.line, p.character) {
            (None, _) => return Err("VNL-SBX-LSP-008: TextEdit range missing 'end' line".to_owned()),
            (Some(_), None) => return Err("VNL-SBX-LSP-008: TextEdit range missing 'end' character".to_owned()),
            (Some(l), Some(c)) => (l, c),
        },
    };
    let be = match position_to_offset(content, el, ec) {
        Err(_) => return Err("VNL-SBX-LSP-008: invalid end position in TextEdit".to_owned()),
        Ok(o) => o,
    };
    if bs > be {
        let mut out = chars_of("VNL-SBX-LSP-008: TextEdit range start > end (");
        let a = dec_chars(bs as u64);
        append_chars(&mut out, a.as_slice());
        let b = chars_of(" > ");
        append_chars(&mut out, b.as_slice());
        let c = dec_chars(be as u64);
        append_chars(&mut out, c.as_slice());
        let d = chars_of(")");
        append_chars(&mut out, d.as_slice());
        return Err(string_of(out.as_slice()));
    }
    let new_text = match &e.new_text {
        Some(t) => chars_of(t.as_str()),
        None => Vec::new(),
    };
    let out = ParsedEdit { start: bs, end: be, text: new_text };
    assert(position_offset_spec(content@, sl as nat, sc as nat) == Ok::<nat, Seq<char>>(bs as nat));
    assert(position_offset_spec(content@, el as nat, ec as nat) == Ok::<nat, Seq<char>>(be as nat));
    assert(new_text_of(*e) == out.text@);
    assert(parse_edit(content@, *e) == Ok::<Replacement, Seq<char>>(parsed_view(out)));
    Ok(out)
}

/// Inserts a replacement into a list sorted by decreasing start.
fn insert_desc(sorted: &mut Vec<ParsedEdit>, p: ParsedEdit)
    ensures
        ({
            let k = insert_position(parsed_views(old(sorted)@), parsed_view(p)) as int;
            parsed_views(final(sorted)@) == parsed_views(old(sorted)@).take(k) + seq![parsed_view(p)]
                + parsed_views(old(sorted)@).skip(k)
        }),
{
    let ghost s0 = parsed_views(sorted@);
    assert(s0.skip(0) =~= s0);
    let mut k: usize = 0;
    while k < sorted.len() && sorted[k].start >= p.start
        invariant
            k <= sorted@.len(),
            s0 == parsed_views(sorted@),
            insert_position(s0, parsed_view(p)) == k + insert_position(s0.skip(k as int), parsed_view(p)),
        decreases sorted.len() - k,
    {
        proof {
            assert(s0.skip(k as int)[0] == s0[k as int]);
            assert(s0.skip(k as int).drop_first() =~= s0.skip(k + 1));
        }
        k = k + 1;
    }
    proof {
        if k < sorted@.len() {
            assert(s0.skip(k as int)[0] == s0[k as int]);
        }
    }
    sorted.insert(k, p);
    assert(parsed_views(sorted@) =~= s0.take(k as int) + seq![parsed_view(p)] + s0.skip(k as int));
}

/// Replaces `t[a..b]` by `x`.
fn splice(t: &Vec<char>, a: usize, b: usize, x: &Vec<char>) -> (r: Vec<char>)
    requires
        a <= b <= t@.len(),
    ensures
        r@ == t@.take(a as int) + x@ + t@.skip(b as int),
{
    let mut out: Vec<char> = Vec::new();
    let mut i: usize = 0;
    while i < a
        invariant
            i <= a <= b <= t@.len(),
            out@ == t@.take(i as int),
        decreases a - i,
    {
        out.push(t[i]);
        i = i + 1;
        assert(out@ =~= t@.take(i as int));
    }
    append_chars(&mut out, x.as_slice());
    let mut j: usize = b;
    while j < t.len()
        invariant
            a <= b <= j <= t@.len(),
            out@ == t@.take(a as int) + x@ + t@.subrange(b as int, j as int),
        decreases t.len() - j,
    {
        out.push(t[j]);
        j = j + 1;
        assert(out@ =~= t@.take(a as int) + x@ + t@.subrange(b as int, j as int));
    }
    assert(t@.subrange(b as int, t@.len() as int) =~= t@.skip(b as int));
    out
}

/// Applies LSP `TextEdit`s to `content`.
///
/// Each edit needs a range whose two ends carry a line and a character and
/// are positions of the file (see `position_to_offset`), the start not after
/// the end; the first edit that does not is reported as a `VNL-SBX-LSP-008`
/// error. The edits are then applied as byte ranges of the file, from the
/// last start to the first (equal starts in their given order), so that
/// earlier positions stay valid; when ranges overlap, a later range is
/// applied to the text as the earlier ones left it, and one whose byte range
/// no longer falls on character boundaries of that text is refused.
pub fn apply_text_edits(content: &str, edits: &Vec<TextEdit>) -> (r: Result<String, String>)
    requires
        utf8_len(content@) <= usize::MAX,
    ensures
        match r {
            Ok(t) => apply_text_edits_spec(content@, edits@) == Ok::<Seq<char>, Seq<char>>(t@),
            Err(m) => apply_text_edits_spec(content@, edits@) == Err::<Seq<char>, Seq<char>>(m@),
        },
{
    let text = chars_of(content);
    let tl = text.len();
    assert(tl == text@.len());
    let ls = lines_of(text.as_slice());
    let mut sorted: Vec<ParsedEdit> = Vec::new();
    assert(edits@.take(0) =~= Seq::<TextEdit>::empty());
    let mut i: usize = 0;
    while i < edits.len()
        invariant
            i <= edits@.len(),
            text@ == content@,
            views(ls@) == lines(content@),
            utf8_len(content@) <= usize::MAX,
            text@.len() <= usize::MAX,
            parse_edits(content@, edits@.take(i as int)) is Ok,
            parsed_views(sorted@) == sort_by_start_desc(parse_edits(content@, edits@.take(i as int))->Ok_0),
        decreases edits.len() - i,
    {
        let ghost prefix = edits@.take(i + 1);
        proof {
            assert(prefix.drop_last() =~= edits@.take(i as int));
            assert(prefix.last() == edits@[i as int]);
        }
        match parse_one(content, &text, &ls, &edits[i]) {
            Err(m) => {
                proof {
                    lemma_parse_edits_error_persists(content@, edits@, i as nat + 1);
                }
                return Err(m);
            },
            Ok(p) => {
                let ghost pv = parsed_view(p);
                let ghost ps_i = parse_edits(content@, edits@.take(i as int))->Ok_0;
                insert_desc(&mut sorted, p);
                proof {
                    assert(parse_edits(content@, prefix) == Ok::<Seq<Replacement>, Seq<char>>(ps_i.push(pv)));
                    assert(ps_i.push(pv).drop_last() =~= ps_i);
                    assert(ps_i.push(pv).last() == pv);
                }
            },
        }
        i = i + 1;
    }
    proof {
        assert(edits@.take(edits@.len() as int) =~= edits@);
    }
    let ghost ps = sort_by_start_desc(parse_edits(content@, edits@)->Ok_0);
    let mut cur = text;
    let mut k: usize = 0;
    while k < sorted.len()
        invariant
            k <= sorted@.len(),
            parsed_views(sorted@) == ps,
            parse_edits(content@, edits@) is Ok,
            ps == sort_by_start_desc(parse_edits(content@, edits@)->Ok_0),
            apply_replacements(content@, ps.take(k as int)) == Some(cur@),
        decreases sorted.len() - k,
    {
        proof {
            assert(ps.take(k + 1).drop_last() =~= ps.take(k as int));
            assert(ps.take(k + 1).last() == parsed_view(sorted@[k as int]));
        }
        let ci = byte_to_char(&cur, sorted[k].start);
        let cj = byte_to_char(&cur, sorted[k].end);
        let fits = match (ci, cj) {
            (Some(i0), Some(j0)) => i0 <= j0,
            _ => false,
        };
        if fits {
            let i0 = ci.unwrap();
            let j0 = cj.unwrap();
            cur = splice(&cur, i0, j0, &sorted[k].text);
        } else {
            proof {
                let t = ps.take(k + 1);
                assert(apply_replacements(content@, t.drop_last()) == Some(cur@));
                assert(apply_replacements(content@, t) is None);
                lemma_apply_none_persists(content@, ps, k as nat + 1);
                assert(parse_edits(content@, edits@) is Ok);
                assert(apply_replacements(content@, sort_by_start_desc(parse_edits(content@, edits@)->Ok_0)) is None);
                assert(apply_text_edits_spec(content@, edits@) == Err::<Seq<char>, Seq<char>>(overlap_msg()));
                assert(ps.take(ps.len() as int) =~= ps);
            }
            return Err("VNL-SBX-LSP-008: TextEdit ranges overlap".to_owned());
        }
        k = k + 1;
    }
    proof {
        assert(ps.take(ps.len() as int) =~= ps);
    }
    Ok(string_of(cur.as_slice()))
}

/// Once a prefix of the edits is refused, so are all the edits.
pub proof fn lemma_parse_edits_error_persists(content: Seq<char>, es: Seq<TextEdit>, n: nat)
    requires
        n <= es.len(),
        parse_edits(content, es.take(n as int)) is Err,
    ensures
        parse_edits(content, es) == parse_edits(content, es.take(n as int)),
    decreases es.len() - n,
{
    if n < es.len() {
        assert(es.take((n + 1) as int).drop_last() =~= es.take(n as int));
        lemma_parse_edits_error_persists(content, es, n + 1);
    } else {
        assert(es.take(n as int) =~= es);
    }
}

/// Once a replacement no longer fits, the whole application fails.
pub proof fn lemma_apply_none_persists(s: Seq<char>, ps: Seq<Replacement>, n: nat)
    requires
        n <= ps.len(),
        apply_replacements(s, ps.take(n as int)) is None,
    ensures
        apply_replacements(s, ps) is None,
    decreases ps.len() - n,
{
    if n < ps.len() {
        assert(ps.take((n + 1) as int).drop_last() =~= ps.take(n as int));
        lemma_apply_none_persists(s, ps, n + 1);
    } else {
        assert(ps.take(n as int) =~= ps);
    }
}


// ── workspace edits ─────────────────────────────────────────────────────────

/// An entry of `documentChanges`: the document URI (absent when missing or
/// not a string) and its edits (absent when missing or not an array).
#[derive(Debug, Clone, PartialEq, Eq)]
pub struct DocumentChange {
    pub uri: Option<String>,
    pub edits: Option<Vec<TextEdit>>,
}

/// An LSP `WorkspaceEdit`: the entries of `changes` in their order (edits
/// absent when not an array; no entry when `changes` is missing or not an
/// object) and the entries of `documentChanges`.
#[derive(Debug, Clone, PartialEq, Eq)]
pub struct WorkspaceEdit {
    pub changes: Vec<(String, Option<Vec<TextEdit>>)>,
    pub document_changes: Vec<DocumentChange>,
}

/// The files of a result, as URI and edits.
pub open spec fn files_view(r: Seq<(String, Vec<TextEdit>)>) -> Seq<(Seq<char>, Seq<TextEdit>)> {
    r.map_values(|p: (String, Vec<TextEdit>)| (p.0@, p.1@))
}

/// The files of `changes`: every entry whose edits are an array, in order.
pub open spec fn change_files(ch: Seq<(String, Option<Vec<TextEdit>>)>) -> Seq<(Seq<char>, Seq<TextEdit>)>
    decreases ch.len(),
{
    if ch.len() == 0 {
        seq![]
    } else {
        let prev = change_files(ch.drop_last());
        match ch.last().1 {
            Some(es) => prev.push((ch.last().0@, es@)),
            None => prev,
        }
    }
}

/// Index of the first file with URI `u` (the length when there is none).
pub open spec fn first_uri(acc: Seq<(Seq<char>, Seq<TextEdit>)>, u: Seq<char>) -> nat
    decreases acc.len(),
{
    if acc.len() == 0 {
        0
    } else if acc[0].0 == u {
        0
    } else {
        1 + first_uri(acc.drop_first(), u)
    }
}

/// Adds a `documentChanges` entry: ignored without a URI or edits; its edits
/// are appended to those of the first file with the same URI, or it becomes
/// a new file.
pub open spec fn add_document_change(acc: Seq<(Seq<char>, Seq<TextEdit>)>, dc: DocumentChange) -> Seq<
    (Seq<char>, Seq<TextEdit>),
> {
    match (dc.uri, dc.edits) {
        (Some(u), Some(es)) => {
            let k = first_uri(acc, u@);
            if k < acc.len() {
                acc.update(k as int, (acc[k as int].0, acc[k as int].1 + es@))
            } else {
                acc.push((u@, es@))
            }
        },
        _ => acc,
    }
}

/// All `documentChanges` entries added in order.
pub open spec fn document_files(acc: Seq<(Seq<char>, Seq<TextEdit>)>, dcs: Seq<DocumentChange>) -> Seq<
    (Seq<char>, Seq<TextEdit>),
>
    decreases dcs.len(),
{
    if dcs.len() == 0 {
        acc
    } else {
        add_document_change(document_files(acc, dcs.drop_last()), dcs.last())
    }
}

/// The `(uri, edits)` of a workspace edit: `changes` first, then
/// `documentChanges`, one entry per URI.
pub open spec fn workspace_edit_files_spec(we: WorkspaceEdit) -> Seq<(Seq<char>, Seq<TextEdit>)> {
    document_files(change_files(we.changes@), we.document_changes@)
}

/// Index of the first file with URI `u`.
fn find_uri(acc: &Vec<(String, Vec<TextEdit>)>, u: &Vec<char>) -> (k: usize)
    ensures
        k == first_uri(files_view(acc@), u@),
        k <= acc@.len(),
{
    let ghost fv = files_view(acc@);
    assert(fv.skip(0) =~= fv);
    let mut k: usize = 0;
    while k < acc.len()
        invariant
            k <= acc@.len(),
            fv == files_view(acc@),
            first_uri(fv, u@) == k + first_uri(fv.skip(k as int), u@),
        decreases acc.len() - k,
    {
        proof {
            assert(fv.skip(k as int)[0] == fv[k as int]);
            assert(fv.skip(k as int).drop_first() =~= fv.skip(k + 1));
        }
        let c = chars_of(acc[k].0.as_str());
        if eq_chars(c.as_slice(), u.as_slice()) {
            return k;
        }
        k = k + 1;
    }
    k
}

/// The `(uri, edits)` of an LSP `WorkspaceEdit`: first the entries of
/// `changes` whose edits are an array, then the entries of `documentChanges`
/// that carry a URI and edits; the edits of a URI already listed are
/// appended to its entry.
pub fn workspace_edit_files(edit: WorkspaceEdit) -> (r: Vec<(String, Vec<TextEdit>)>)
    ensures
        files_view(r@) == workspace_edit_files_spec(edit),
{
    let ghost we = edit;
    let WorkspaceEdit { changes, document_changes } = edit;
    let mut changes = changes;
    let mut result: Vec<(String, Vec<TextEdit>)> = Vec::new();
    let ghost ch0 = changes@;
    let n0 = changes.len();
    assert(n0 == ch0.len());
    let mut i: usize = 0;
    assert(ch0.take(0) =~= Seq::<(String, Option<Vec<TextEdit>>)>::empty());
    while changes.len() > 0
        invariant
            ch0 == we.changes@,
            ch0.len() <= usize::MAX,
            i + changes@.len() == ch0.len(),
            changes@ == ch0.skip(i as int),
            files_view(result@) == change_files(ch0.take(i as int)),
        decreases changes.len(),
    {
        let (u, e) = changes.remove(0);
        proof {
            assert(ch0[i as int] == (u, e));
            assert(ch0.take(i + 1).drop_last() =~= ch0.take(i as int));
            assert(ch0.take(i + 1).last() == ch0[i as int]);
            assert(changes@ =~= ch0.skip(i + 1));
        }
        let ghost before = files_view(result@);
        match e {
            Some(es) => {
                result.push((u, es));
                assert(files_view(result@) =~= before.push((u@, es@)));
            },
            None => {},
        }
        i = i + 1;
    }
    assert(ch0.take(i as int) =~= ch0);
    let mut dcs = document_changes;
    let ghost d0 = dcs@;
    let m0 = dcs.len();
    assert(m0 == d0.len());
    let ghost base = files_view(result@);
    let mut j: usize = 0;
    assert(d0.take(0) =~= Seq::<DocumentChange>::empty());
    while dcs.len() > 0
        invariant
            d0 == we.document_changes@,
            d0.len() <= usize::MAX,
            base == change_files(we.changes@),
            j + dcs@.len() == d0.len(),
            dcs@ == d0.skip(j as int),
            files_view(result@) == document_files(base, d0.take(j as int)),
        decreases dcs.len(),
    {
        let dc = dcs.remove(0);
        proof {
            assert(d0[j as int] == dc);
            assert(d0.take(j + 1).drop_last() =~= d0.take(j as int));
            assert(d0.take(j + 1).last() == dc);
            assert(dcs@ =~= d0.skip(j + 1));
        }
        let ghost before = files_view(result@);
        let ghost dcv = dc;
        let DocumentChange { uri, edits } = dc;
        match (uri, edits) {
            (Some(u), Some(mut es)) => {
                let uc = chars_of(u.as_str());
                let k = find_uri(&result, &uc);
                if k < result.len() {
                    let (eu, mut ees) = result.remove(k);
                    let ghost old_ees = ees@;
                    ees.append(&mut es);
                    result.insert(k, (eu, ees));
                    assert(files_view(result@) =~= before.update(k as int, (before[k as int].0, before[k as int].1 + dcv.edits->Some_0@)));
                } else {
                    result.push((u, es));
                    assert(files_view(result@) =~= before.push((dcv.uri->Some_0@, dcv.edits->Some_0@)));
                }
            },
            _ => {},
        }
        j = j + 1;
    }
    assert(d0.take(j as int) =~= d0);
    result
}

// ── rename reports ──────────────────────────────────────────────────────────

/// A site changed by an applied rename: 0-based line of the start of the
/// edit, and the trimmed line before and after (empty when the line does not
/// exist).
#[derive(Debug, Clone, PartialEq, Eq)]
pub struct AppliedSite {
    pub line0: u64,
    pub old_line: String,
    pub new_line: String,
}

/// `Option::unwrap_or_default` on a snippet.
pub open spec fn snippet_or_empty(o: Option<Seq<char>>) -> Seq<char> {
    match o {
        Some(s) => s,
        None => seq![],
    }
}

/// The sites of the edits of one file: one per edit whose range has a start
/// line, with that line of the text before and after.
pub open spec fn applied_sites_spec(before: Seq<char>, after: Seq<char>, es: Seq<TextEdit>) -> Seq<
    (nat, Seq<char>, Seq<char>),
>
    decreases es.len(),
{
    if es.len() == 0 {
        seq![]
    } else {
        let prev = applied_sites_spec(before, after, es.drop_last());
        match es.last().range {
            Some(r) => match end_line(r.start) {
                Some(l) => prev.push(
                    (
                        l as nat,
                        snippet_or_empty(line_snippet_spec(before, l as nat)),
                        snippet_or_empty(line_snippet_spec(after, l as nat)),
                    ),
                ),
                None => prev,
            },
            None => prev,
        }
    }
}

/// The view of applied sites.
pub open spec fn sites_view(v: Seq<AppliedSite>) -> Seq<(nat, Seq<char>, Seq<char>)> {
    v.map_values(|s: AppliedSite| (s.line0 as nat, s.old_line@, s.new_line@))
}

/// The sites of the edits applied to one file, with the line at each site
/// before (`before`) and after (`after`) the edits.
pub fn applied_sites(before: &str, after: &str, edits: &Vec<TextEdit>) -> (r: Vec<AppliedSite>)
    ensures
        sites_view(r@) == applied_sites_spec(before@, after@, edits@),
{
    let mut r: Vec<AppliedSite> = Vec::new();
    let mut i: usize = 0;
    while i < edits.len()
        invariant
            i <= edits@.len(),
            sites_view(r@) == applied_sites_spec(before@, after@, edits@.take(i as int)),
        decreases edits.len() - i,
    {
        proof {
            assert(edits@.take(i + 1).drop_last() =~= edits@.take(i as int));
            assert(edits@.take(i + 1).last() == edits@[i as int]);
        }
        let ghost prev = sites_view(r@);
        let line: Option<u64> = match &edits[i].range {
            Some(rg) => match rg.start {
                Some(p) => p.line,
                None => None,
            },
            None => None,
        };
        match line {
            Some(l) => {
                let old_line = match line_snippet(before, l) {
                    Some(s) => s,
                    None => String::new(),
                };
                let new_line = match line_snippet(after, l) {
                    Some(s) => s,
                    None => String::new(),
                };
                r.push(AppliedSite { line0: l, old_line, new_line });
                assert(sites_view(r@) =~= prev.push(
                    (
                        l as nat,
                        snippet_or_empty(line_snippet_spec(before@, l as nat)),
                        snippet_or_empty(line_snippet_spec(after@, l as nat)),
                    ),
                ));
            },
            None => {},
        }
        i = i + 1;
    }
    assert(edits@.take(edits@.len() as int) =~= edits@);
    r
}

/// `"  L{line0 + 1}: {old} → {new}"`.
pub open spec fn applied_site_line(s: AppliedSite) -> Seq<char> {
    "  L"@ + dec((s.line0 + 1) as nat) + ": "@ + s.old_line@ + " → "@ + s.new_line@
}

/// The header of one file of the report.
pub open spec fn applied_file_header(display: Seq<char>, sites: Seq<AppliedSite>) -> Seq<char> {
    display + " — "@ + dec(sites.len()) + " remplacements"@
}

/// The lines of one file of the report: its header, then one line per site.
pub open spec fn applied_file_lines(display: Seq<char>, sites: Seq<AppliedSite>) -> Seq<Seq<char>> {
    seq![applied_file_header(display, sites)] + sites.map_values(|s: AppliedSite| applied_site_line(s))
}

/// The lines of all files of the report, in order.
pub open spec fn applied_files_lines(files: Seq<(String, Vec<AppliedSite>)>) -> Seq<Seq<char>>
    decreases files.len(),
{
    if files.len() == 0 {
        seq![]
    } else {
        applied_files_lines(files.drop_last()) + applied_file_lines(files.last().0@, files.last().1@)
    }
}

/// The number of sites of all files.
pub open spec fn total_sites(files: Seq<(String, Vec<AppliedSite>)>) -> nat
    decreases files.len(),
{
    if files.len() == 0 {
        0
    } else {
        total_sites(files.drop_last()) + files.last().1@.len()
    }
}

/// The report of an applied rename.
pub open spec fn applied_report(files: Seq<(String, Vec<AppliedSite>)>) -> Seq<char> {
    join_with(
        seq![dec(total_sites(files)) + " remplacements dans "@ + dec(files.len()) + " fichiers"@]
            + applied_files_lines(files),
        "\n"@,
    )
}

/// Appends the decimal rendering of `n` to `out`.
fn push_dec(out: &mut Vec<char>, n: u128)
    ensures
        final(out)@ == old(out)@ + dec(n as nat),
{
    let d = dec_chars_wide(n);
    append_chars(out, d.as_slice());
}

/// The report of an applied rename: `{total} remplacements dans {m}
/// fichiers`, then for each file (display paths given by the caller, in
/// order) `{display} — {n} remplacements` followed by one
/// `  L<1-based>: {old} → {new}` line per site, lines joined by newlines.
pub fn format_applied_files(files: &Vec<(String, Vec<AppliedSite>)>) -> (r: String)
    ensures
        r@ == applied_report(files@),
{
    let mut lines: Vec<Vec<char>> = Vec::new();
    let mut total: u128 = 0;
    let mut i: usize = 0;
    while i < files.len()
        invariant
            i <= files@.len(),
            total == total_sites(files@.take(i as int)),
            total <= i * (usize::MAX as nat),
            views(lines@) == applied_files_lines(files@.take(i as int)),
        decreases files.len() - i,
    {
        proof {
            assert(files@.take(i + 1).drop_last() =~= files@.take(i as int));
            assert(files@.take(i + 1).last() == files@[i as int]);
        }
        let ghost before = views(lines@);
        let (display, sites) = (&files[i].0, &files[i].1);
        let mut head = chars_of(display.as_str());
        let a = chars_of(" — ");
        append_chars(&mut head, a.as_slice());
        push_dec(&mut head, sites.len() as u128);
        let b = chars_of(" remplacements");
        append_chars(&mut head, b.as_slice());
        let ghost hv = head@;
        lines.push(head);
        proof {
            assert(sites@.take(0).map_values(|s: AppliedSite| applied_site_line(s)) =~= Seq::<Seq<char>>::empty());
            assert(hv == display@ + " — "@ + dec(sites@.len()) + " remplacements"@);
            assert(views(lines@) =~= before.push(hv));
            assert(before.push(hv) =~= before + seq![applied_file_header(display@, sites@)] + sites@.take(0).map_values(
                |s: AppliedSite| applied_site_line(s),
            ));
        }
        let mut j: usize = 0;
        while j < sites.len()
            invariant
                j <= sites@.len(),
                sites@ == files@[i as int].1@,
                0 <= i < files@.len(),
                    views(lines@) == before + seq![applied_file_header(display@, sites@)] + sites@.take(
                    j as int,
                ).map_values(|s: AppliedSite| applied_site_line(s)),
            decreases sites.len() - j,
        {
            let s = &sites[j];
            let mut l = chars_of("  L");
            push_dec(&mut l, s.line0 as u128 + 1);
            let c = chars_of(": ");
            append_chars(&mut l, c.as_slice());
            let o = chars_of(s.old_line.as_str());
            append_chars(&mut l, o.as_slice());
            let d = chars_of(" → ");
            append_chars(&mut l, d.as_slice());
            let n = chars_of(s.new_line.as_str());
            append_chars(&mut l, n.as_slice());
            let ghost lv = l@;
            let ghost prev_lines = views(lines@);
            lines.push(l);
            proof {
                assert(views(lines@) =~= prev_lines.push(lv));
                let f = |s: AppliedSite| applied_site_line(s);
                assert(lv == applied_site_line(sites@[j as int]));
                assert(sites@.take(j + 1) =~= sites@.take(j as int).push(sites@[j as int]));
                assert(sites@.take(j + 1).map_values(f) =~= sites@.take(j as int).map_values(f).push(lv));
                assert(views(lines@) =~= before + seq![applied_file_header(display@, sites@)] + sites@.take(
                    j + 1,
                ).map_values(f));
            }
            j = j + 1;
        }
        proof {
            assert(sites@.take(sites@.len() as int) =~= sites@);
        }
        proof {
            let n = files.len();
            assert(total + sites@.len() <= (i + 1) * (usize::MAX as nat) && (i + 1) * (usize::MAX as nat) <= u128::MAX) by (nonlinear_arith)
                requires
                    total <= i * (usize::MAX as nat),
                    sites@.len() <= usize::MAX,
                    i < n,
                    n <= usize::MAX,
                    usize::MAX <= u64::MAX,
            ;
            assert(views(lines@) =~= before + applied_file_lines(display@, sites@));
        }
        total = total + sites.len() as u128;
        i = i + 1;
    }
    proof {
        assert(files@.take(files@.len() as int) =~= files@);
    }
    let mut first = Vec::new();
    push_dec(&mut first, total);
    let a = chars_of(" remplacements dans ");
    append_chars(&mut first, a.as_slice());
    push_dec(&mut first, files.len() as u128);
    let b = chars_of(" fichiers");
    append_chars(&mut first, b.as_slice());
    let mut all: Vec<Vec<char>> = vec![first];
    let ghost head = views(all@);
    let mut k: usize = 0;
    while k < lines.len()
        invariant
            k <= lines@.len(),
            views(all@) == head + views(lines@).take(k as int),
        decreases lines.len() - k,
    {
        let l = lines[k].clone();
        assert(l@ == lines@[k as int]@);
        assert(views(lines@)[k as int] == lines@[k as int]@);
        let ghost prev_all = views(all@);
        all.push(l);
        assert(views(all@) =~= prev_all.push(lines@[k as int]@));
        assert(views(lines@).take(k + 1) =~= views(lines@).take(k as int).push(lines@[k as int]@));
        assert(views(all@) =~= head + views(lines@).take(k + 1));
        k = k + 1;
    }
    assert(views(lines@).take(lines@.len() as int) =~= views(lines@));
    let sep = chars_of("\n");
    let joined = join_chars(&all, sep.as_slice());
    proof {
        assert(views(lines@) == applied_files_lines(files@));
        assert(views(all@) == seq![dec(total_sites(files@)) + " remplacements dans "@ + dec(files@.len()) + " fichiers"@]
            + applied_files_lines(files@));
    }
    string_of(joined.as_slice())
}

/// A file of a rename preview: its display path, its current text (absent
/// when it was not read) and the 0-based start of each edit.
#[derive(Debug, Clone, PartialEq, Eq)]
pub struct PreviewFile {
    pub display: String,
    pub content: Option<String>,
    pub sites: Vec<(u64, u64)>,
}

/// The starts of the edits whose range has a start line and character.
pub open spec fn preview_sites_spec(es: Seq<TextEdit>) -> Seq<(u64, u64)>
    decreases es.len(),
{
    if es.len() == 0 {
        seq![]
    } else {
        let prev = preview_sites_spec(es.drop_last());
        match es.last().range {
            Some(r) => match (end_line(r.start), end_character(r.start)) {
                (Some(l), Some(c)) => prev.push((l, c)),
                _ => prev,
            },
            None => prev,
        }
    }
}

/// The starts of the edits whose range has a start line and character.
pub fn preview_sites(edits: &Vec<TextEdit>) -> (r: Vec<(u64, u64)>)
    ensures
        r@ == preview_sites_spec(edits@),
{
    let mut r: Vec<(u64, u64)> = Vec::new();
    let mut i: usize = 0;
    while i < edits.len()
        invariant
            i <= edits@.len(),
            r@ == preview_sites_spec(edits@.take(i as int)),
        decreases edits.len() - i,
    {
        proof {
            assert(edits@.take(i + 1).drop_last() =~= edits@.take(i as int));
            assert(edits@.take(i + 1).last() == edits@[i as int]);
        }
        match &edits[i].range {
            Some(rg) => match rg.start {
                Some(p) => match (p.line, p.character) {
                    (Some(l), Some(c)) => {
                        r.push((l, c));
                    },
                    _ => {},
                },
                None => {},
            },
            None => {},
        }
        i = i + 1;
    }
    assert(edits@.take(edits@.len() as int) =~= edits@);
    r
}

/// The snippet of a preview site: its line of the file, when the file was
/// read and has that line.
pub open spec fn preview_snippet(content: Option<String>, line0: u64) -> Option<Seq<char>> {
    match content {
        Some(c) => line_snippet_spec(c@, line0 as nat),
        None => None,
    }
}

/// `"  L{line}:{col}: {snippet}"`, or without the snippet.
pub open spec fn preview_site_line(content: Option<String>, site: (u64, u64)) -> Seq<char> {
    let pos = "  L"@ + dec((site.0 + 1) as nat) + ":"@ + dec((site.1 + 1) as nat);
    match preview_snippet(content, site.0) {
        Some(s) => pos + ": "@ + s,
        None => pos,
    }
}

/// The lines of one file of the preview.
pub open spec fn preview_file_lines(f: PreviewFile) -> Seq<Seq<char>> {
    seq![f.display@] + f.sites@.map_values(|st: (u64, u64)| preview_site_line(f.content, st))
}

/// The lines of all files of the preview.
pub open spec fn preview_files_lines(files: Seq<PreviewFile>) -> Seq<Seq<char>>
    decreases files.len(),
{
    if files.len() == 0 {
        seq![]
    } else {
        preview_files_lines(files.drop_last()) + preview_file_lines(files.last())
    }
}

/// The number of sites of all preview files.
pub open spec fn preview_total(files: Seq<PreviewFile>) -> nat
    decreases files.len(),
{
    if files.len() == 0 {
        0
    } else {
        preview_total(files.drop_last()) + files.last().sites@.len()
    }
}

/// The preview of a rename.
pub open spec fn preview_report(files: Seq<PreviewFile>) -> Seq<char> {
    join_with(
        seq![
            "aperçu — "@ + dec(preview_total(files)) + " sites dans "@ + dec(files.len())
                + " fichiers — AUCUN fichier modifié"@,
        ] + preview_files_lines(files),
        "\n"@,
    )
}

/// The preview of a rename, nothing written: `aperçu — {N} sites dans {M}
/// fichiers — AUCUN fichier modifié`, then for each file its display path
/// and one `  L<line>:<col>` line per site (1-based), followed by
/// `: <snippet>` when the file was read and has that line.
pub fn render_rename_preview(files: &Vec<PreviewFile>) -> (r: String)
    ensures
        r@ == preview_report(files@),
{
    let mut lines: Vec<Vec<char>> = Vec::new();
    let mut total: u128 = 0;
    let mut i: usize = 0;
    while i < files.len()
        invariant
            i <= files@.len(),
            total == preview_total(files@.take(i as int)),
            total <= i * (usize::MAX as nat),
            views(lines@) == preview_files_lines(files@.take(i as int)),
        decreases files.len() - i,
    {
        proof {
            assert(files@.take(i + 1).drop_last() =~= files@.take(i as int));
            assert(files@.take(i + 1).last() == files@[i as int]);
        }
        let ghost before = views(lines@);
        let f = &files[i];
        let head = chars_of(f.display.as_str());
        lines.push(head);
        proof {
            assert(views(lines@) =~= before.push(f.display@));
            assert(f.sites@.take(0).map_values(|st: (u64, u64)| preview_site_line(f.content, st)) =~= Seq::<Seq<char>>::empty());
            assert(views(lines@) =~= before + seq![f.display@] + f.sites@.take(0).map_values(
                |st: (u64, u64)| preview_site_line(f.content, st),
            ));
        }
        let mut j: usize = 0;
        while j < f.sites.len()
            invariant
                j <= f.sites@.len(),
                *f == files@[i as int],
                0 <= i < files@.len(),
                    views(lines@) == before + seq![f.display@] + f.sites@.take(j as int).map_values(
                    |st: (u64, u64)| preview_site_line(f.content, st),
                ),
            decreases f.sites.len() - j,
        {
            let (line0, c0) = f.sites[j];
            let mut l = chars_of("  L");
            push_dec(&mut l, line0 as u128 + 1);
            l.push(':');
            push_dec(&mut l, c0 as u128 + 1);
            let snippet = match &f.content {
                Some(c) => line_snippet(c.as_str(), line0),
                None => None,
            };
            match snippet {
                Some(sn) => {
                    let a = chars_of(": ");
                    append_chars(&mut l, a.as_slice());
                    let b = chars_of(sn.as_str());
                    append_chars(&mut l, b.as_slice());
                },
                None => {},
            }
            let ghost lv = l@;
            let ghost prev_lines = views(lines@);
            lines.push(l);
            proof {
                assert(views(lines@) =~= prev_lines.push(lv));
                reveal_strlit(":");
                let g = |st: (u64, u64)| preview_site_line(f.content, st);
                assert(f.sites@[j as int] == (line0, c0));
                assert(preview_snippet(f.content, line0) == match snippet {
                    Some(sn) => Some(sn@),
                    None => None::<Seq<char>>,
                });
                assert(lv == preview_site_line(f.content, f.sites@[j as int]));
                assert(f.sites@.take(j + 1) =~= f.sites@.take(j as int).push(f.sites@[j as int]));
                assert(f.sites@.take(j + 1).map_values(g) =~= f.sites@.take(j as int).map_values(g).push(lv));
                assert(views(lines@) =~= before + seq![f.display@] + f.sites@.take(j + 1).map_values(
                    |st: (u64, u64)| preview_site_line(f.content, st),
                ));
            }
            j = j + 1;
        }
        proof {
            assert(f.sites@.take(f.sites@.len() as int) =~= f.sites@);
            assert(views(lines@) =~= before + preview_file_lines(*f));
        }
        proof {
            let n = files.len();
            let sl = f.sites@.len();
            assert(total + sl <= (i + 1) * (usize::MAX as nat) && (i + 1) * (usize::MAX as nat) <= u128::MAX) by (nonlinear_arith)
                requires
                    total <= i * (usize::MAX as nat),
                    sl <= usize::MAX,
                    i < n,
                    n <= usize::MAX,
                    usize::MAX <= u64::MAX,
            ;
        }
        total = total + f.sites.len() as u128;
        i = i + 1;
    }
    proof {
        assert(files@.take(files@.len() as int) =~= files@);
    }
    let mut first = chars_of("aperçu — ");
    push_dec(&mut first, total);
    let a = chars_of(" sites dans ");
    append_chars(&mut first, a.as_slice());
    push_dec(&mut first, files.len() as u128);
    let b = chars_of(" fichiers — AUCUN fichier modifié");
    append_chars(&mut first, b.as_slice());
    let mut all: Vec<Vec<char>> = vec![first];
    let ghost head = views(all@);
    let mut k: usize = 0;
    while k < lines.len()
        invariant
            k <= lines@.len(),
            views(all@) == head + views(lines@).take(k as int),
        decreases lines.len() - k,
    {
        let l = lines[k].clone();
        assert(l@ == lines@[k as int]@);
        assert(views(lines@)[k as int] == lines@[k as int]@);
        let ghost prev_all = views(all@);
        all.push(l);
        assert(views(all@) =~= prev_all.push(lines@[k as int]@));
        assert(views(lines@).take(k + 1) =~= views(lines@).take(k as int).push(lines@[k as int]@));
        assert(views(all@) =~= head + views(lines@).take(k + 1));
        k = k + 1;
    }
    assert(views(lines@).take(lines@.len() as int) =~= views(lines@));
    let sep = chars_of("\n");
    let joined = join_chars(&all, sep.as_slice());
    proof {
        assert(views(lines@) == preview_files_lines(files@));
        assert(views(all@) == seq![
            "aperçu — "@ + dec(preview_total(files@)) + " sites dans "@ + dec(files@.len())
                + " fichiers — AUCUN fichier modifié"@,
        ] + preview_files_lines(files@));
    }
    string_of(joined.as_slice())
}

/// The code every refusal of `apply_text_edits` starts with.
pub open spec fn edit_error_code() -> Seq<char> {
    "VNL-SBX-LSP-008"@
}

proof fn lemma_code_prefix(lit: Seq<char>, rest: Seq<char>)
    requires
        lit.len() >= 15,
        lit.take(15) == edit_error_code(),
    ensures
        starts_with(lit + rest, edit_error_code()),
{
    reveal_strlit("VNL-SBX-LSP-008");
    assert((lit + rest).take(15) =~= lit.take(15));
}

proof fn lemma_parse_edit_error_code(content: Seq<char>, e: TextEdit)
    ensures
        parse_edit(content, e) matches Err(m) ==> starts_with(m, edit_error_code()),
{
    reveal_strlit("VNL-SBX-LSP-008");
    reveal_strlit("VNL-SBX-LSP-008: TextEdit missing 'range'");
    reveal_strlit("VNL-SBX-LSP-008: TextEdit range missing 'start' line");
    reveal_strlit("VNL-SBX-LSP-008: TextEdit range missing 'start' character");
    reveal_strlit("VNL-SBX-LSP-008: invalid start position in TextEdit");
    reveal_strlit("VNL-SBX-LSP-008: TextEdit range missing 'end' line");
    reveal_strlit("VNL-SBX-LSP-008: TextEdit range missing 'end' character");
    reveal_strlit("VNL-SBX-LSP-008: invalid end position in TextEdit");
    reveal_strlit("VNL-SBX-LSP-008: TextEdit range start > end (");
    let lits = seq![
        "VNL-SBX-LSP-008: TextEdit missing 'range'"@,
        "VNL-SBX-LSP-008: TextEdit range missing 'start' line"@,
        "VNL-SBX-LSP-008: TextEdit range missing 'start' character"@,
        "VNL-SBX-LSP-008: invalid start position in TextEdit"@,
        "VNL-SBX-LSP-008: TextEdit range missing 'end' line"@,
        "VNL-SBX-LSP-008: TextEdit range missing 'end' character"@,
        "VNL-SBX-LSP-008: invalid end position in TextEdit"@,
    ];
    assert forall|k: int| 0 <= k < lits.len() implies starts_with(#[trigger] lits[k], edit_error_code()) by {
        assert(lits[k].take(15) =~= edit_error_code());
    }
    assert(starts_with(lits[0], edit_error_code()));
    assert(starts_with(lits[1], edit_error_code()));
    assert(starts_with(lits[2], edit_error_code()));
    assert(starts_with(lits[3], edit_error_code()));
    assert(starts_with(lits[4], edit_error_code()));
    assert(starts_with(lits[5], edit_error_code()));
    assert(starts_with(lits[6], edit_error_code()));
    if let Err(m) = parse_edit(content, e) {
        let head = "VNL-SBX-LSP-008: TextEdit range start > end ("@;
        assert(head.take(15) =~= edit_error_code());
        match e.range {
            None => {},
            Some(r) => {
                if let (Some(sl), Some(sc), Some(el), Some(ec)) = (
                    end_line(r.start),
                    end_character(r.start),
                    end_line(r.end),
                    end_character(r.end),
                ) {
                    if let (Ok(bs), Ok(be)) = (
                        position_offset_spec(content, sl as nat, sc as nat),
                        position_offset_spec(content, el as nat, ec as nat),
                    ) {
                        let rest = dec(bs) + " > "@ + dec(be) + ")"@;
                        lemma_code_prefix(head, rest);
                        assert(start_after_end_msg(bs, be) =~= head + rest);
                    }
                }
            },
        }
    }
}

proof fn lemma_parse_edits_error_code(content: Seq<char>, es: Seq<TextEdit>)
    ensures
        parse_edits(content, es) matches Err(m) ==> starts_with(m, edit_error_code()),
    decreases es.len(),
{
    if es.len() > 0 {
        lemma_parse_edits_error_code(content, es.drop_last());
        lemma_parse_edit_error_code(content, es.last());
    }
}

/// No edit leaves the text as it is, and every refusal carries the
/// `VNL-SBX-LSP-008` code.
pub proof fn lemma_apply_text_edits_codes(content: Seq<char>, es: Seq<TextEdit>)
    ensures
        apply_text_edits_spec(content, Seq::<TextEdit>::empty()) == Ok::<Seq<char>, Seq<char>>(content),
        apply_text_edits_spec(content, es) matches Err(m) ==> starts_with(m, edit_error_code()),
{
    lemma_parse_edits_error_code(content, es);
    reveal_strlit("VNL-SBX-LSP-008: TextEdit ranges overlap");
    reveal_strlit("VNL-SBX-LSP-008");
    assert(overlap_msg().take(15) =~= edit_error_code());
    assert(sort_by_start_desc(Seq::<Replacement>::empty()) =~= Seq::<Replacement>::empty());
}

/// A boundary is found at the one character index whose prefix has that
/// many bytes.
proof fn lemma_char_at_byte_is(t: Seq<char>, x: nat, i: int)
    requires
        0 <= i <= t.len(),
        utf8_len(t.take(i)) == x,
    ensures
        char_at_byte(t, x) == Some(i as nat),
{
    assert(utf8_len(t.take(i)) == x);
    let w = choose|k: int| 0 <= k <= t.len() && #[trigger] utf8_len(t.take(k)) == x;
    if w < i {
        lemma_utf8_len_take_strict(t, w, i);
    } else if w > i {
        lemma_utf8_len_take_strict(t, i, w);
    }
}

/// The index a boundary is found at has that many bytes before it.
proof fn lemma_char_at_byte_some(t: Seq<char>, x: nat)
    requires
        char_at_byte(t, x) is Some,
    ensures
        char_at_byte(t, x)->Some_0 <= t.len(),
        utf8_len(t.take(char_at_byte(t, x)->Some_0 as int)) == x,
{
}

/// Replacements applied from the last start to the first, each a range of
/// character boundaries of the text, none reaching into the one applied
/// before it: they all apply, and the text before the start of the last
/// one applied is the original's.
pub proof fn lemma_disjoint_replacements_apply(s: Seq<char>, ps: Seq<Replacement>)
    requires
        forall|k: int| 0 <= k < ps.len() ==> #[trigger] ps[k].0 <= ps[k].1 && char_at_byte(s, ps[k].0) is Some
            && char_at_byte(s, ps[k].1) is Some,
        forall|k: int| 0 <= k && k + 1 < ps.len() ==> #[trigger] ps[k + 1].1 <= ps[k].0,
    ensures
        apply_replacements(s, ps) is Some,
        ps.len() > 0 ==> ({
            let i = char_at_byte(s, ps.last().0)->Some_0;
            let t = apply_replacements(s, ps)->Some_0;
            i <= t.len() && t.take(i as int) == s.take(i as int)
        }),
    decreases ps.len(),
{
    if ps.len() > 0 {
        let pre = ps.drop_last();
        assert forall|k: int| 0 <= k < pre.len() implies #[trigger] pre[k].0 <= pre[k].1 && char_at_byte(s, pre[k].0) is Some
            && char_at_byte(s, pre[k].1) is Some by {
            assert(pre[k] == ps[k]);
        }
        assert forall|k: int| 0 <= k && k + 1 < pre.len() implies #[trigger] pre[k + 1].1 <= pre[k].0 by {
            assert(pre[k + 1] == ps[k + 1] && pre[k] == ps[k]);
        }
        lemma_disjoint_replacements_apply(s, pre);
        let t = apply_replacements(s, pre)->Some_0;
        let (a, b, x) = ps.last();
        assert(ps.last() == ps[ps.len() - 1]);
        lemma_char_at_byte_some(s, a);
        lemma_char_at_byte_some(s, b);
        let ia = char_at_byte(s, a)->Some_0;
        let ib = char_at_byte(s, b)->Some_0;
        if ia > ib {
            lemma_utf8_len_take_strict(s, ib as int, ia as int);
        }
        if pre.len() == 0 {
            assert(t == s);
            lemma_char_at_byte_is(t, a, ia as int);
            lemma_char_at_byte_is(t, b, ib as int);
        } else {
            let lp = pre.last();
            assert(lp == ps[ps.len() - 2]);
            let k2 = ps.len() - 2;
            assert(ps[k2 + 1].1 <= ps[k2].0);
            assert(b <= lp.0);
            lemma_char_at_byte_some(s, lp.0);
            let il = char_at_byte(s, lp.0)->Some_0;
            if ib > il {
                lemma_utf8_len_take_strict(s, il as int, ib as int);
            }
            assert(t.take(ib as int) =~= t.take(il as int).take(ib as int));
            assert(s.take(ib as int) =~= s.take(il as int).take(ib as int));
            assert(t.take(ia as int) =~= t.take(il as int).take(ia as int));
            assert(s.take(ia as int) =~= s.take(il as int).take(ia as int));
            lemma_char_at_byte_is(t, a, ia as int);
            lemma_char_at_byte_is(t, b, ib as int);
        }
        let r = t.take(ia as int) + x + t.skip(ib as int);
        assert(apply_replacements(s, ps) == Some(r));
        assert(r.take(ia as int) =~= t.take(ia as int));
        if pre.len() > 0 {
            let il = char_at_byte(s, pre.last().0)->Some_0;
            assert(t.take(ia as int) =~= t.take(il as int).take(ia as int));
            assert(s.take(ia as int) =~= s.take(il as int).take(ia as int));
        }
    }
}

/// The first edit that fails to parse decides the error of the list, and
/// the list parses when every edit does.
proof fn lemma_parse_edits_first_error(content: Seq<char>, es: Seq<TextEdit>)
    ensures
        parse_edits(content, es) is Ok <==> forall|k: int| 0 <= k < es.len() ==> #[trigger] parse_edit(content, es[k]) is Ok,
        parse_edits(content, es) matches Err(m) ==> exists|i: int|
            0 <= i < es.len() && parse_edit(content, es[i]) == Err::<Replacement, Seq<char>>(m) && forall|k: int|
                0 <= k < i ==> #[trigger] parse_edit(content, es[k]) is Ok,
    decreases es.len(),
{
    if es.len() > 0 {
        let pre = es.drop_last();
        lemma_parse_edits_first_error(content, pre);
        assert forall|k: int| 0 <= k < pre.len() implies pre[k] == es[k] by {}
        if parse_edits(content, pre) is Ok && parse_edit(content, es.last()) is Ok {
            assert forall|k: int| 0 <= k < es.len() implies #[trigger] parse_edit(content, es[k]) is Ok by {
                if k < pre.len() {
                    assert(pre[k] == es[k]);
                } else {
                    assert(es[k] == es.last());
                }
            }
        }
        if parse_edits(content, pre) is Err {
            let m = parse_edits(content, pre)->Err_0;
            let i = choose|i: int|
                0 <= i < pre.len() && parse_edit(content, pre[i]) == Err::<Replacement, Seq<char>>(m) && forall|k: int|
                    0 <= k < i ==> #[trigger] parse_edit(content, pre[k]) is Ok;
            assert(es[i] == pre[i]);
            assert forall|k: int| 0 <= k < i implies #[trigger] parse_edit(content, es[k]) is Ok by {
                assert(es[k] == pre[k]);
            }
        } else if parse_edit(content, es.last()) is Err {
            let i = es.len() - 1;
            assert(es[i] == es.last());
            assert forall|k: int| 0 <= k < i implies #[trigger] parse_edit(content, es[k]) is Ok by {
                assert(es[k] == pre[k]);
            }
        }
    }
}

/// `apply_text_edits` fails on a malformed or inverted range exactly: when
/// some edit is refused, the first one refused gives the error; when none
/// is, the only possible error is that of overlapping ranges that no longer
/// fall on character boundaries.
pub proof fn lemma_apply_text_edits_fails_on_bad_range(content: Seq<char>, es: Seq<TextEdit>)
    ensures
        (exists|i: int| 0 <= i < es.len() && #[trigger] parse_edit(content, es[i]) is Err) ==> exists|i: int|
            0 <= i < es.len() && apply_text_edits_spec(content, es) == Err::<Seq<char>, Seq<char>>(
                parse_edit(content, es[i])->Err_0,
            ) && forall|k: int| 0 <= k < i ==> #[trigger] parse_edit(content, es[k]) is Ok,
        (forall|k: int| 0 <= k < es.len() ==> #[trigger] parse_edit(content, es[k]) is Ok) ==> (apply_text_edits_spec(
            content,
            es,
        ) is Ok || apply_text_edits_spec(content, es) == Err::<Seq<char>, Seq<char>>(overlap_msg())),
{
    lemma_parse_edits_first_error(content, es);
}

} // verus!
