//! Positions in a file: the 1-based line/symbol/character target of the
//! position tools resolved to a 0-based LSP position, line snippets, and the
//! conversion of an LSP position to a byte offset.

use vstd::prelude::*;
use crate::maint::is_ascii_alnum;
use crate::text::{append_chars, chars_of, dec, dec_chars, first_index, lemma_first_index, lines, lines_of, strip_cr, string_of, trim, trim_chars, views};

verus! {

/// A character that can be part of an ASCII identifier: `[A-Za-z0-9_]`.
pub open spec fn is_ident(c: char) -> bool {
    is_ascii_alnum(c) || c == '_'
}

/// Whether `c` can be part of an ASCII identifier.
pub fn is_ident_char(c: char) -> (b: bool)
    ensures
        b == is_ident(c),
{
    ('a' <= c && c <= 'z') || ('A' <= c && c <= 'Z') || ('0' <= c && c <= '9') || c == '_'
}

/// The position target shared by the position tools: a 1-based line, and
/// either the identifier to aim at on that line or a 1-based column.
#[derive(Debug, Clone, PartialEq, Eq)]
pub struct LspSymbolTarget {
    pub path: String,
    /// 1-based line.
    pub line: u64,
    /// Identifier to aim at on the line (its first delimited occurrence).
    pub symbol: Option<String>,
    /// 1-based column, used when no (non-empty) symbol is given.
    pub character: Option<u64>,
}

/// A resolved 0-based LSP position, with what symbol mode found.
#[derive(Debug, Clone, Copy, PartialEq, Eq)]
pub enum PositionResolution {
    /// One occurrence, or column mode.
    Unique { line0: u64, character0: u64 },
    /// The symbol occurs `matches` (at least two) times on the line: the first
    /// one is used; `second_char1` is the 1-based column of the second.
    Ambiguous { line0: u64, character0: u64, matches: usize, second_char1: u64 },
}

/// `s` occurs in `l` at `p` as a delimited identifier: the characters match
/// and neither neighbour is an identifier character.
pub open spec fn hit_at(l: Seq<char>, s: Seq<char>, p: int) -> bool {
    &&& 0 <= p
    &&& p + s.len() <= l.len()
    &&& l.subrange(p, p + s.len()) == s
    &&& (p == 0 || !is_ident(l[p - 1]))
    &&& (p + s.len() == l.len() || !is_ident(l[p + s.len()]))
}

/// The delimited occurrences of `s` in `l` starting before `k`, in order.
pub open spec fn hits_below(l: Seq<char>, s: Seq<char>, k: nat) -> Seq<nat>
    decreases k,
{
    if k == 0 {
        seq![]
    } else {
        let h = hits_below(l, s, (k - 1) as nat);
        if hit_at(l, s, k - 1) {
            h.push((k - 1) as nat)
        } else {
            h
        }
    }
}

/// All delimited occurrences of `s` in `l`, in order.
pub open spec fn symbol_hits(l: Seq<char>, s: Seq<char>) -> Seq<nat> {
    hits_below(l, s, l.len() + 1)
}

/// Every listed occurrence is a delimited occurrence, listed in increasing
/// order, and every delimited occurrence is listed.
pub proof fn lemma_hits_below(l: Seq<char>, s: Seq<char>, k: nat)
    ensures
        forall|i: int| 0 <= i < hits_below(l, s, k).len() ==> #[trigger] hits_below(l, s, k)[i] < k
            && hit_at(l, s, hits_below(l, s, k)[i] as int),
        forall|i: int, j: int|
            0 <= i < j < hits_below(l, s, k).len() ==> #[trigger] hits_below(l, s, k)[i]
                < #[trigger] hits_below(l, s, k)[j],
        forall|p: int| 0 <= p < k && hit_at(l, s, p) ==> hits_below(l, s, k).contains(p as nat),
    decreases k,
{
    if k > 0 {
        lemma_hits_below(l, s, (k - 1) as nat);
        let h = hits_below(l, s, (k - 1) as nat);
        if hit_at(l, s, k - 1) {
            assert forall|p: int| 0 <= p < k && hit_at(l, s, p) implies hits_below(l, s, k).contains(
                p as nat,
            ) by {
                if p < k - 1 {
                    let i = choose|i: int| 0 <= i < h.len() && h[i] == p as nat;
                    assert(hits_below(l, s, k)[i] == p as nat);
                } else {
                    assert(hits_below(l, s, k)[h.len() as int] == p as nat);
                }
            }
        }
    }
}

/// `"VNL-SBX-LSP-007: line {line} out of range ({n} lines)"`.
pub open spec fn line_out_of_range_msg(line: nat, n: nat) -> Seq<char> {
    "VNL-SBX-LSP-007: line "@ + dec(line) + " out of range ("@ + dec(n) + " lines)"@
}

/// `"VNL-SBX-LSP-010: symbol \"{sym}\" not found as identifier on line {line} of {path}"`.
pub open spec fn symbol_not_found_msg(sym: Seq<char>, line: nat, path: Seq<char>) -> Seq<char> {
    "VNL-SBX-LSP-010: symbol \""@ + sym + "\" not found as identifier on line "@ + dec(line)
        + " of "@ + path
}

/// The symbol of a target when it switches symbol mode on (present and not
/// empty).
pub open spec fn target_symbol(t: LspSymbolTarget) -> Option<Seq<char>> {
    match t.symbol {
        Some(s) => if s@.len() > 0 {
            Some(s@)
        } else {
            None
        },
        None => None,
    }
}

/// The lines a target's line number counts: those of `str::lines`, except
/// that an empty file is one empty line (so line 1 of an empty file exists).
pub open spec fn target_lines(content: Seq<char>) -> Seq<Seq<char>> {
    if content.len() == 0 {
        seq![Seq::<char>::empty()]
    } else {
        lines(content)
    }
}

/// What `resolve_position` gives for a file's characters and a target.
///
/// The line must exist (1-based, `str::lines` convention, an empty file
/// being one empty line); in symbol mode the
/// first delimited occurrence of the symbol on it is used (none is an error,
/// several are reported); otherwise the 1-based column minus one (saturating
/// at 0), or column 0 when no column is given.
pub open spec fn resolve_position_spec(content: Seq<char>, t: LspSymbolTarget) -> Result<
    PositionResolution,
    Seq<char>,
> {
    let ls = target_lines(content);
    if t.line == 0 || t.line > ls.len() {
        Err(line_out_of_range_msg(t.line as nat, ls.len()))
    } else {
        let line0 = (t.line - 1) as u64;
        let l = ls[line0 as int];
        match target_symbol(t) {
            Some(s) => {
                let hits = symbol_hits(l, s);
                if hits.len() == 0 {
                    Err(symbol_not_found_msg(s, t.line as nat, t.path@))
                } else if hits.len() == 1 {
                    Ok(PositionResolution::Unique { line0, character0: hits[0] as u64 })
                } else {
                    Ok(
                        PositionResolution::Ambiguous {
                            line0,
                            character0: hits[0] as u64,
                            matches: hits.len() as usize,
                            second_char1: (hits[1] + 1) as u64,
                        },
                    )
                }
            },
            None => {
                let c = match t.character {
                    Some(c) => c,
                    None => 0,
                };
                Ok(
                    PositionResolution::Unique {
                        line0,
                        character0: if c == 0 {
                            0
                        } else {
                            (c - 1) as u64
                        },
                    },
                )
            },
        }
    }
}

/// The result as `Result<_, Seq<char>>`.
pub open spec fn resolution_view(r: Result<PositionResolution, String>) -> Result<
    PositionResolution,
    Seq<char>,
> {
    match r {
        Ok(p) => Ok(p),
        Err(e) => Err(e@),
    }
}

/// Whether `s` occurs in `l` at `p` (characters only).
pub(crate) fn matches_at(l: &[char], p: usize, s: &[char]) -> (b: bool)
    requires
        p <= l@.len(),
    ensures
        b == (p + s@.len() <= l@.len() && l@.subrange(p as int, p + s@.len()) == s@),
{
    if s.len() > l.len() - p {
        return false;
    }
    let end = p + s.len();
    let mut i: usize = 0;
    while i < s.len()
        invariant
            end == p + s@.len(),
            end <= l@.len(),
            i <= s@.len(),
            forall|k: int| 0 <= k < i ==> l@[p + k] == s@[k],
        decreases s.len() - i,
    {
        let q = p + i;
        if l[q] != s[i] {
            assert(l@.subrange(p as int, p + s@.len())[i as int] != s@[i as int]);
            return false;
        }
        i = i + 1;
    }
    assert(l@.subrange(p as int, p + s@.len()) =~= s@);
    true
}

/// The delimited occurrences of `s` in `l`.
fn find_hits(l: &[char], s: &[char]) -> (r: Vec<usize>)
    ensures
        r@.len() == symbol_hits(l@, s@).len(),
        forall|i: int| 0 <= i < r@.len() ==> r@[i] as nat == #[trigger] symbol_hits(l@, s@)[i],
{
    let mut hits: Vec<usize> = Vec::new();
    let mut start: usize = 0;
    loop
        invariant
            start <= l@.len(),
            hits@.len() == hits_below(l@, s@, start as nat).len(),
            forall|i: int| 0 <= i < hits@.len() ==> hits@[i] as nat == #[trigger] hits_below(
                l@,
                s@,
                start as nat,
            )[i],
        decreases l.len() - start,
    {
        if matches_at(l, start, s) {
            let after = start + s.len();
            let left_ok = start == 0 || !is_ident_char(l[start - 1]);
            let right_ok = after == l.len() || !is_ident_char(l[after]);
            if left_ok && right_ok {
                hits.push(start);
            }
        }
        assert(hits_below(l@, s@, (start + 1) as nat) == if hit_at(l@, s@, start as int) {
            hits_below(l@, s@, start as nat).push(start as nat)
        } else {
            hits_below(l@, s@, start as nat)
        });
        if start == l.len() {
            return hits;
        }
        start = start + 1;
    }
}

/// Resolves the 0-based LSP position aimed at by `target` in `content` (the
/// raw text of the file).
///
/// - The line is 1-based; line 0 or a line past the last one (lines as
///   `str::lines` counts them, an empty file being one empty line, so that
///   line 1 of an empty file exists) is a `VNL-SBX-LSP-007` error.
/// - A non-empty `symbol` is searched on the line as a delimited identifier
///   (a literal match whose neighbours are not `[A-Za-z0-9_]`), columns in
///   characters: none is a `VNL-SBX-LSP-010` error, one gives `Unique`, more
///   give `Ambiguous` with the first one used.
/// - Otherwise `character` (1-based) minus one, saturating at 0; no column
///   at all gives column 0.
pub fn resolve_position(content: &str, target: &LspSymbolTarget) -> (r: Result<
    PositionResolution,
    String,
>)
    ensures
        resolution_view(r) == resolve_position_spec(content@, *target),
{
    let text = chars_of(content);
    let ls = if text.len() == 0 {
        let one: Vec<Vec<char>> = vec![Vec::new()];
        assert(views(one@) =~= target_lines(content@));
        one
    } else {
        lines_of(text.as_slice())
    };
    let n = ls.len();
    proof {
        assert(views(ls@) == target_lines(content@));
        assert(views(ls@).len() == ls@.len());
    }
    if target.line == 0 || target.line > n as u64 {
        let mut msg = chars_of("VNL-SBX-LSP-007: line ");
        let a = dec_chars(target.line);
        append_chars(&mut msg, a.as_slice());
        let b = chars_of(" out of range (");
        append_chars(&mut msg, b.as_slice());
        let c = dec_chars(n as u64);
        append_chars(&mut msg, c.as_slice());
        let d = chars_of(" lines)");
        append_chars(&mut msg, d.as_slice());
        return Err(string_of(msg.as_slice()));
    }
    let line0: u64 = target.line - 1;
    let idx: usize = line0 as usize;
    let l = &ls[idx];
    proof {
        assert(views(ls@)[idx as int] == ls@[idx as int]@);
    }
    let sym_mode: Option<Vec<char>> = match &target.symbol {
        Some(s) => {
            let sv = chars_of(s.as_str());
            if sv.len() > 0 {
                Some(sv)
            } else {
                None
            }
        },
        None => None,
    };
    match sym_mode {
        Some(sv) => {
            let hits = find_hits(l.as_slice(), sv.as_slice());
            if hits.len() == 0 {
                let mut msg = chars_of("VNL-SBX-LSP-010: symbol \"");
                append_chars(&mut msg, sv.as_slice());
                let a = chars_of("\" not found as identifier on line ");
                append_chars(&mut msg, a.as_slice());
                let b = dec_chars(target.line);
                append_chars(&mut msg, b.as_slice());
                let c = chars_of(" of ");
                append_chars(&mut msg, c.as_slice());
                let p = chars_of(target.path.as_str());
                append_chars(&mut msg, p.as_slice());
                Err(string_of(msg.as_slice()))
            } else if hits.len() == 1 {
                Ok(PositionResolution::Unique { line0, character0: hits[0] as u64 })
            } else {
                proof {
                    lemma_hits_below(l@, sv@, (l@.len() + 1) as nat);
                    assert(hits@[1] as nat == symbol_hits(l@, sv@)[1]);
                    assert(symbol_hits(l@, sv@)[1] < l@.len() + 1);
                }
                Ok(
                    PositionResolution::Ambiguous {
                        line0,
                        character0: hits[0] as u64,
                        matches: hits.len(),
                        second_char1: hits[1] as u64 + 1,
                    },
                )
            }
        },
        None => {
            let c: u64 = match target.character {
                Some(c) => c,
                None => 0,
            };
            let character0: u64 = if c == 0 {
                0
            } else {
                c - 1
            };
            Ok(PositionResolution::Unique { line0, character0 })
        },
    }
}

/// Symbol mode aims at a delimited occurrence of the symbol: the characters
/// of the line at the resolved column are the symbol, bordered by
/// non-identifier characters or the ends of the line; and when it reports an
/// ambiguity, the second column (1-based) is another such occurrence, further
/// right.
pub proof fn lemma_symbol_mode_aims_at_identifier(content: Seq<char>, t: LspSymbolTarget)
    requires
        target_symbol(t) is Some,
        resolve_position_spec(content, t) is Ok,
        target_lines(content)[t.line - 1].len() < u64::MAX,
    ensures
        ({
            let l = target_lines(content)[t.line - 1];
            let s = target_symbol(t)->Some_0;
            match resolve_position_spec(content, t)->Ok_0 {
                PositionResolution::Unique { character0, .. } => hit_at(l, s, character0 as int),
                PositionResolution::Ambiguous { character0, second_char1, .. } => hit_at(
                    l,
                    s,
                    character0 as int,
                ) && hit_at(l, s, second_char1 - 1) && character0 < second_char1 - 1,
            }
        }),
{
    let l = target_lines(content)[t.line - 1];
    let s = target_symbol(t)->Some_0;
    lemma_hits_below(l, s, l.len() + 1);
    let h = symbol_hits(l, s);
    assert(h[0] < l.len() + 1);
    if h.len() > 1 {
        assert(h[0] < h[1]);
    }
}

/// A character of an ASCII identifier, written out: a letter, a digit or
/// `_`.
pub open spec fn word_char(c: char) -> bool {
    ('a' <= c && c <= 'z') || ('A' <= c && c <= 'Z') || ('0' <= c && c <= '9') || c == '_'
}

/// `s` stands at `p` in `l` as a whole word: the characters match and the
/// characters just before and just after, when there are any, are not
/// `word_char`s.
pub open spec fn word_at(l: Seq<char>, s: Seq<char>, p: int) -> bool {
    &&& 0 <= p
    &&& p + s.len() <= l.len()
    &&& l.subrange(p, p + s.len()) == s
    &&& (p > 0 ==> !word_char(l[p - 1]))
    &&& (p + s.len() < l.len() ==> !word_char(l[p + s.len()]))
}

/// Symbol mode finds whole words: on an existing line it succeeds exactly
/// when the symbol stands there as a whole word (bordered by anything but
/// `[A-Za-z0-9_]`); the column it gives is the leftmost such place; a unique
/// answer means there is no other, and an ambiguous one counts them and
/// gives the next one to the right.
pub proof fn lemma_symbol_mode_whole_words(content: Seq<char>, t: LspSymbolTarget)
    requires
        target_symbol(t) is Some,
        1 <= t.line <= target_lines(content).len(),
        target_lines(content)[t.line - 1].len() < u64::MAX,
    ensures
        ({
            let l = target_lines(content)[t.line - 1];
            let s = target_symbol(t)->Some_0;
            &&& (resolve_position_spec(content, t) is Ok <==> exists|p: int| #[trigger] word_at(l, s, p))
            &&& (resolve_position_spec(content, t) matches Ok(PositionResolution::Unique { character0, .. }) ==> {
                &&& word_at(l, s, character0 as int)
                &&& forall|p: int| #[trigger] word_at(l, s, p) ==> p == character0
            })
            &&& (resolve_position_spec(content, t) matches Ok(
                PositionResolution::Ambiguous { character0, second_char1, .. },
            ) ==> {
                &&& word_at(l, s, character0 as int)
                &&& word_at(l, s, second_char1 - 1)
                &&& character0 < second_char1 - 1
                &&& forall|p: int| #[trigger] word_at(l, s, p) ==> character0 <= p
                &&& forall|p: int| #[trigger] word_at(l, s, p) && p != character0 ==> second_char1 - 1 <= p
            })
        }),
{
    let l = target_lines(content)[t.line - 1];
    let s = target_symbol(t)->Some_0;
    assert forall|c: char| #[trigger] is_ident(c) == word_char(c) by {}
    assert forall|p: int| #[trigger] word_at(l, s, p) == hit_at(l, s, p) by {}
    lemma_hits_below(l, s, l.len() + 1);
    let h = symbol_hits(l, s);
    assert forall|p: int| #[trigger] word_at(l, s, p) implies h.contains(p as nat) && p <= l.len() by {}
    if h.len() > 0 {
        assert(h[0] < l.len() + 1);
        assert(word_at(l, s, h[0] as int));
        assert forall|p: int| #[trigger] word_at(l, s, p) implies h[0] <= p by {
            let i = choose|i: int| 0 <= i < h.len() && h[i] == p as nat;
            if i > 0 {
                assert(h[0] < h[i]);
            }
        }
        if h.len() > 1 {
            assert(h[0] < h[1]);
            assert(h[1] < l.len() + 1);
            assert(word_at(l, s, h[1] as int));
            assert forall|p: int| #[trigger] word_at(l, s, p) && p != h[0] implies h[1] <= p by {
                let i = choose|i: int| 0 <= i < h.len() && h[i] == p as nat;
                if i > 1 {
                    assert(h[1] < h[i]);
                }
            }
        } else {
            assert forall|p: int| #[trigger] word_at(l, s, p) implies p == h[0] by {
                let i = choose|i: int| 0 <= i < h.len() && h[i] == p as nat;
            }
        }
    } else {
        assert forall|p: int| !#[trigger] word_at(l, s, p) by {
            if word_at(l, s, p) {
                assert(h.contains(p as nat));
            }
        }
    }
}

/// The errors of `resolve_position`: a line 0 or past the last line gives
/// exactly the `VNL-SBX-LSP-007` error; on an existing line the only error
/// is the `VNL-SBX-LSP-010` not-found error of symbol mode; and in symbol
/// mode the column has no say in the result.
pub proof fn lemma_resolve_position_errors(content: Seq<char>, t: LspSymbolTarget, c: Option<u64>)
    ensures
        (t.line == 0 || t.line > target_lines(content).len()) <==> resolve_position_spec(content, t) == Err::<
            PositionResolution,
            Seq<char>,
        >(line_out_of_range_msg(t.line as nat, target_lines(content).len())),
        (1 <= t.line <= target_lines(content).len() && resolve_position_spec(content, t) is Err) ==> (
        target_symbol(t) is Some && resolve_position_spec(content, t) == Err::<PositionResolution, Seq<char>>(
            symbol_not_found_msg(target_symbol(t)->Some_0, t.line as nat, t.path@),
        )),
        target_symbol(t) is Some ==> resolve_position_spec(content, LspSymbolTarget { character: c, ..t })
            == resolve_position_spec(content, t),
{
    reveal_strlit("VNL-SBX-LSP-007: line ");
    reveal_strlit("VNL-SBX-LSP-010: symbol \"");
    let n = target_lines(content).len();
    if 1 <= t.line <= n {
        if let Some(s) = target_symbol(t) {
            let m1 = line_out_of_range_msg(t.line as nat, n);
            let m2 = symbol_not_found_msg(s, t.line as nat, t.path@);
            assert(m1[13] == '0');
            assert(m2[13] == '1');
        }
    }
}

/// The trimmed text of line `line0` (0-based, `str::lines` convention), if
/// that line exists.
pub open spec fn line_snippet_spec(content: Seq<char>, line0: nat) -> Option<Seq<char>> {
    if line0 < lines(content).len() {
        Some(trim(lines(content)[line0 as int]))
    } else {
        None
    }
}

/// The trimmed text of line `line0` (0-based) of `content`, if it exists.
pub fn line_snippet(content: &str, line0: u64) -> (r: Option<String>)
    ensures
        match r {
            Some(s) => line_snippet_spec(content@, line0 as nat) == Some(s@),
            None => line_snippet_spec(content@, line0 as nat) is None,
        },
{
    let text = chars_of(content);
    let ls = lines_of(text.as_slice());
    proof {
        assert(views(ls@).len() == ls@.len());
    }
    if line0 >= ls.len() as u64 {
        return None;
    }
    let idx = line0 as usize;
    proof {
        assert(views(ls@)[idx as int] == ls@[idx as int]@);
    }
    let t = trim_chars(ls[idx].as_slice());
    Some(string_of(t.as_slice()))
}

/// The ambiguity note appended to the target line of a tool answer.
pub open spec fn ambiguity_note_spec(sym: Seq<char>, matches: nat, second_char1: nat) -> Seq<char> {
    " (symbole \""@ + sym + "\" trouvé "@ + dec(matches)
        + "× sur la ligne, 1re occurrence utilisée — préciser character: "@ + dec(second_char1)
        + " pour la suivante)"@
}

/// The note telling that a symbol occurs `matches` times on its line, that
/// the first occurrence was used, and which column reaches the second.
pub fn ambiguity_note(sym: &str, matches: usize, second_char1: u64) -> (r: String)
    ensures
        r@ == ambiguity_note_spec(sym@, matches as nat, second_char1 as nat),
{
    let mut out = chars_of(" (symbole \"");
    let s = chars_of(sym);
    append_chars(&mut out, s.as_slice());
    let a = chars_of("\" trouvé ");
    append_chars(&mut out, a.as_slice());
    let m = dec_chars(matches as u64);
    append_chars(&mut out, m.as_slice());
    let b = chars_of("× sur la ligne, 1re occurrence utilisée — préciser character: ");
    append_chars(&mut out, b.as_slice());
    let c = dec_chars(second_char1);
    append_chars(&mut out, c.as_slice());
    let d = chars_of(" pour la suivante)");
    append_chars(&mut out, d.as_slice());
    string_of(out.as_slice())
}


// ── byte offsets ────────────────────────────────────────────────────────────

/// `char::len_utf8`: the number of bytes of `c` in UTF-8.
pub open spec fn char_width(c: char) -> nat {
    if (c as u32) < 0x80 {
        1
    } else if (c as u32) < 0x800 {
        2
    } else if (c as u32) < 0x10000 {
        3
    } else {
        4
    }
}

/// The number of bytes of `s` in UTF-8.
pub open spec fn utf8_len(s: Seq<char>) -> nat
    decreases s.len(),
{
    if s.len() == 0 {
        0
    } else {
        utf8_len(s.drop_last()) + char_width(s.last())
    }
}

/// The bytes taken by lines that each were followed by one newline byte.
pub open spec fn lines_bytes(ls: Seq<Seq<char>>) -> nat
    decreases ls.len(),
{
    if ls.len() == 0 {
        0
    } else {
        lines_bytes(ls.drop_last()) + utf8_len(ls.last()) + 1
    }
}

/// What `position_to_offset` gives: the line must exist (0-based,
/// `str::lines` convention); the offset is the bytes of the lines before it,
/// one newline byte each, plus the bytes of the first `character` characters
/// of the line (clamped to its length).
pub open spec fn position_offset_spec(content: Seq<char>, line: nat, character: nat) -> Result<
    nat,
    Seq<char>,
> {
    let ls = lines(content);
    if line >= ls.len() {
        Err(line_out_of_range_msg(line, ls.len()))
    } else {
        let l = ls[line as int];
        let c = if character <= l.len() {
            character
        } else {
            l.len()
        };
        Ok(lines_bytes(ls.take(line as int)) + utf8_len(l.take(c as int)))
    }
}

/// `utf8_len` adds up over concatenation.
pub proof fn lemma_utf8_len_add(a: Seq<char>, b: Seq<char>)
    ensures
        utf8_len(a + b) == utf8_len(a) + utf8_len(b),
    decreases b.len(),
{
    if b.len() == 0 {
        assert(a + b =~= a);
    } else {
        lemma_utf8_len_add(a, b.drop_last());
        assert((a + b).drop_last() =~= a + b.drop_last());
        assert((a + b).last() == b.last());
    }
}

/// A prefix takes no more bytes than the whole.
pub proof fn lemma_utf8_len_take(s: Seq<char>, i: int)
    requires
        0 <= i <= s.len(),
    ensures
        utf8_len(s.take(i)) <= utf8_len(s),
{
    lemma_utf8_len_add(s.take(i), s.skip(i));
    assert(s.take(i) + s.skip(i) =~= s);
}

/// `lines_bytes` of a sequence with a first line.
pub proof fn lemma_lines_bytes_cons(a: Seq<char>, t: Seq<Seq<char>>)
    ensures
        lines_bytes(seq![a] + t) == utf8_len(a) + 1 + lines_bytes(t),
    decreases t.len(),
{
    if t.len() == 0 {
        assert(seq![a] + t =~= seq![a]);
        assert(seq![a].drop_last() =~= Seq::<Seq<char>>::empty());
        assert(seq![a].last() == a);
        assert(lines_bytes(Seq::<Seq<char>>::empty()) == 0);
    } else {
        lemma_lines_bytes_cons(a, t.drop_last());
        assert((seq![a] + t).drop_last() =~= seq![a] + t.drop_last());
        assert((seq![a] + t).last() == t.last());
    }
}

/// A line of `s` and the lines before it fit in the bytes of `s`.
pub proof fn lemma_line_fits(s: Seq<char>, k: int)
    requires
        0 <= k < lines(s).len(),
    ensures
        lines_bytes(lines(s).take(k)) + utf8_len(lines(s)[k]) <= utf8_len(s),
    decreases s.len(),
{
    let i = first_index(s, '\n');
    lemma_first_index(s, '\n');
    if i >= s.len() {
        assert(lines(s).take(0) =~= Seq::<Seq<char>>::empty());
    } else {
        let head = s.take(i as int);
        let rest = s.skip((i + 1) as int);
        assert(s =~= head + seq!['\n'] + rest);
        lemma_utf8_len_add(head + seq!['\n'], rest);
        lemma_utf8_len_add(head, seq!['\n']);
        assert(seq!['\n'].drop_last() =~= Seq::<char>::empty());
        let l0 = strip_cr(head);
        assert(utf8_len(l0) <= utf8_len(head)) by {
            if head.len() > 0 && head.last() == '\r' {
                assert(l0 == head.drop_last());
            }
        }
        assert(lines(s) == seq![l0] + lines(rest));
        if k == 0 {
            assert(lines(s).take(0) =~= Seq::<Seq<char>>::empty());
        } else {
            lemma_line_fits(rest, k - 1);
            assert(lines(s).take(k) =~= seq![l0] + lines(rest).take(k - 1));
            lemma_lines_bytes_cons(l0, lines(rest).take(k - 1));
        }
    }
}

/// Exec `char::len_utf8`.
pub fn char_len_utf8(c: char) -> (n: usize)
    ensures
        n == char_width(c),
{
    let u = c as u32;
    if u < 0x80 {
        1
    } else if u < 0x800 {
        2
    } else if u < 0x10000 {
        3
    } else {
        4
    }
}

/// The UTF-8 size of the first `n` characters of `v`, given a bound on the
/// size of the whole.
fn utf8_prefix_len(v: &[char], n: usize, bound: Ghost<nat>) -> (r: usize)
    requires
        n <= v@.len(),
        utf8_len(v@) <= bound@,
        bound@ <= usize::MAX,
    ensures
        r == utf8_len(v@.take(n as int)),
{
    let mut acc: usize = 0;
    let mut i: usize = 0;
    while i < n
        invariant
            n <= v@.len(),
            i <= n,
            acc == utf8_len(v@.take(i as int)),
            utf8_len(v@) <= bound@,
            bound@ <= usize::MAX,
        decreases n - i,
    {
        proof {
            assert(v@.take(i + 1).drop_last() =~= v@.take(i as int));
            lemma_utf8_len_take(v@, i + 1);
        }
        acc = acc + char_len_utf8(v[i]);
        i = i + 1;
    }
    acc
}

/// Converts an LSP position (`line`, `character`, 0-based) to a byte offset
/// in `content`: `character` counts characters and is clamped to the end of
/// the line; each earlier line counts its bytes plus one newline byte. A line
/// past the last one is a `VNL-SBX-LSP-007` error.
pub fn position_to_offset(content: &str, line: u64, character: u64) -> (r: Result<usize, String>)
    requires
        utf8_len(content@) <= usize::MAX,
    ensures
        match r {
            Ok(o) => position_offset_spec(content@, line as nat, character as nat) == Ok::<
                nat,
                Seq<char>,
            >(o as nat),
            Err(e) => position_offset_spec(content@, line as nat, character as nat) == Err::<
                nat,
                Seq<char>,
            >(e@),
        },
{
    let text = chars_of(content);
    let ls = lines_of(text.as_slice());
    let n = ls.len();
    let ghost all = lines(content@);
    proof {
        assert(views(ls@).len() == ls@.len());
    }
    if line >= n as u64 {
        let mut msg = chars_of("VNL-SBX-LSP-007: line ");
        let a = dec_chars(line);
        append_chars(&mut msg, a.as_slice());
        let b = chars_of(" out of range (");
        append_chars(&mut msg, b.as_slice());
        let c = dec_chars(n as u64);
        append_chars(&mut msg, c.as_slice());
        let d = chars_of(" lines)");
        append_chars(&mut msg, d.as_slice());
        return Err(string_of(msg.as_slice()));
    }
    let target = line as usize;
    proof {
        lemma_line_fits(content@, target as int);
    }
    let mut acc: usize = 0;
    let mut k: usize = 0;
    while k < target
        invariant
            k <= target < ls@.len(),
            views(ls@) == all,
            all == lines(content@),
            acc == lines_bytes(all.take(k as int)),
            lines_bytes(all.take(target as int)) + utf8_len(all[target as int]) <= utf8_len(content@),
            utf8_len(content@) <= usize::MAX,
        decreases target - k,
    {
        proof {
            assert(views(ls@)[k as int] == ls@[k as int]@);
            assert(all.take(k + 1).drop_last() =~= all.take(k as int));
            assert(all.take(target as int).take(k + 1) =~= all.take(k + 1));
            lemma_lines_prefix_bytes(all.take(target as int), k + 1);
        }
        let w = utf8_prefix_len(ls[k].as_slice(), ls[k].len(), Ghost(utf8_len(content@)));
        proof {
            assert(ls@[k as int]@.take(ls@[k as int]@.len() as int) =~= ls@[k as int]@);
        }
        acc = acc + w + 1;
        k = k + 1;
    }
    proof {
        assert(views(ls@)[target as int] == ls@[target as int]@);
    }
    let l = &ls[target];
    let clamped: usize = if (character as u128) <= (l.len() as u128) {
        character as usize
    } else {
        l.len()
    };
    proof {
        lemma_utf8_len_take(all[target as int], clamped as int);
    }
    let tail = utf8_prefix_len(l.as_slice(), clamped, Ghost(utf8_len(content@)));
    proof {
        lemma_utf8_len_take(all[target as int], clamped as int);
    }
    Ok(acc + tail)
}

/// The bytes of the first lines of a sequence of lines are no more than
/// those of all of them.
pub proof fn lemma_lines_prefix_bytes(ls: Seq<Seq<char>>, k: int)
    requires
        0 <= k <= ls.len(),
    ensures
        lines_bytes(ls.take(k)) <= lines_bytes(ls),
    decreases ls.len(),
{
    if k < ls.len() {
        lemma_lines_prefix_bytes(ls.drop_last(), k);
        assert(ls.drop_last().take(k) =~= ls.take(k));
    } else {
        assert(ls.take(k) =~= ls);
    }
}

} // verus!
