//! The logic of the single-linter LSP servers (hadolint, ruff): positions in
//! UTF-16 units, incremental document synchronisation, the conversion of the
//! linters' findings to LSP diagnostics, and the bookkeeping that keeps a
//! stale lint from being published.

use vstd::prelude::*;
use crate::assoc::{find_key, functional, key_views, remove_key, set_key, to_map};
use crate::json::{absent_or_null, array_items, i64_at, indexed_pointer, joined_pointer, json_array_items, json_i64_at, json_kind_at, json_str_at, json_text_at, kind_at, str_at, text_at, JsonKind};
use crate::text::{append_chars, chars_of, copy_range, dec, first_index, lemma_first_index, split, split_chars, string_of, views};
use vstd::utf8::encode_utf8;
use crate::tools::edits::{lemma_lines_chars_cons, lines_chars};
use crate::tools::position::{char_len_utf8, char_width, lemma_lines_bytes_cons, lemma_utf8_len_add, lemma_utf8_len_take, lines_bytes, utf8_len};

verus! {

// ── UTF-16 positions ────────────────────────────────────────────────────────

/// `char::len_utf16`.
pub open spec fn width16(c: char) -> nat {
    if (c as u32) < 0x10000 {
        1
    } else {
        2
    }
}

/// The number of UTF-16 units of `s`.
pub open spec fn utf16_len(s: Seq<char>) -> nat
    decreases s.len(),
{
    if s.len() == 0 {
        0
    } else {
        utf16_len(s.drop_last()) + width16(s.last())
    }
}

/// The number of leading characters of `l` that fit in `target` UTF-16
/// units (a character never split).
pub open spec fn fit_count(l: Seq<char>, target: nat) -> nat
    decreases l.len(),
{
    if l.len() == 0 {
        0
    } else if width16(l[0]) > target {
        0
    } else {
        1 + fit_count(l.drop_first(), (target - width16(l[0])) as nat)
    }
}

/// The line of a position, clamped to the lines of a text (`n` lines).
pub open spec fn clamp_line(line: i64, n: nat) -> nat {
    if line < 0 {
        0
    } else if line >= n {
        (n - 1) as nat
    } else {
        line as nat
    }
}

/// A count that a negative value makes 0.
pub open spec fn nonneg(x: i64) -> nat {
    if x < 0 {
        0
    } else {
        x as nat
    }
}

/// The character index of an LSP position (`character` in UTF-16 units) in
/// a text whose lines end with `\n` only: line and column clamped.
pub open spec fn utf16_char_index(t: Seq<char>, line: i64, character: i64) -> nat {
    let ps = split(t, '\n');
    let li = clamp_line(line, ps.len());
    lines_chars(ps.take(li as int)) + fit_count(ps[li as int], nonneg(character))
}

/// The byte offset of an LSP position (`character` in UTF-16 units): line
/// and column clamped to the text, never inside a character.
pub open spec fn utf16_offset_spec(t: Seq<char>, line: i64, character: i64) -> nat {
    let ps = split(t, '\n');
    let li = clamp_line(line, ps.len());
    lines_bytes(ps.take(li as int)) + utf8_len(ps[li as int].take(fit_count(ps[li as int], nonneg(character)) as int))
}

/// A split has at least one piece.
pub proof fn lemma_split_nonempty(s: Seq<char>, c: char)
    ensures
        split(s, c).len() >= 1,
    decreases s.len(),
{
    let i = first_index(s, c);
    lemma_first_index(s, c);
    if i < s.len() {
        lemma_split_nonempty(s.skip((i + 1) as int), c);
    }
}

/// A piece of a split on `\n` and the pieces before it fit in the text, in
/// characters and in bytes.
pub proof fn lemma_piece_fits(s: Seq<char>, k: int)
    requires
        0 <= k < split(s, '\n').len(),
    ensures
        lines_chars(split(s, '\n').take(k)) + split(s, '\n')[k].len() <= s.len(),
        lines_bytes(split(s, '\n').take(k)) + utf8_len(split(s, '\n')[k]) <= utf8_len(s),
    decreases s.len(),
{
    let i = first_index(s, '\n');
    lemma_first_index(s, '\n');
    if i >= s.len() {
        assert(split(s, '\n').take(0) =~= Seq::<Seq<char>>::empty());
    } else {
        let head = s.take(i as int);
        let rest = s.skip((i + 1) as int);
        assert(s =~= head + seq!['\n'] + rest);
        lemma_utf8_len_add(head + seq!['\n'], rest);
        lemma_utf8_len_add(head, seq!['\n']);
        assert(seq!['\n'].drop_last() =~= Seq::<char>::empty());
        assert(split(s, '\n') == seq![head] + split(rest, '\n'));
        if k == 0 {
            assert(split(s, '\n').take(0) =~= Seq::<Seq<char>>::empty());
        } else {
            lemma_piece_fits(rest, k - 1);
            assert(split(s, '\n').take(k) =~= seq![head] + split(rest, '\n').take(k - 1));
            lemma_lines_chars_cons(head, split(rest, '\n').take(k - 1));
            lemma_lines_bytes_cons(head, split(rest, '\n').take(k - 1));
        }
    }
}

/// A piece of a split on `\n` sits in the text right after the pieces
/// before it (each followed by its newline), whose bytes it starts after.
pub proof fn lemma_piece_in_text(s: Seq<char>, k: int)
    requires
        0 <= k < split(s, '\n').len(),
    ensures
        ({
            let ps = split(s, '\n');
            let lc = lines_chars(ps.take(k));
            &&& lc + ps[k].len() <= s.len()
            &&& s.subrange(lc as int, (lc + ps[k].len()) as int) == ps[k]
            &&& utf8_len(s.take(lc as int)) == lines_bytes(ps.take(k))
        }),
    decreases s.len(),
{
    let i = first_index(s, '\n');
    lemma_first_index(s, '\n');
    if i >= s.len() {
        assert(split(s, '\n') == seq![s]);
        assert(split(s, '\n').take(0) =~= Seq::<Seq<char>>::empty());
        assert(lines_chars(Seq::<Seq<char>>::empty()) == 0);
        assert(lines_bytes(Seq::<Seq<char>>::empty()) == 0);
        assert(s.subrange(0, s.len() as int) =~= s);
        assert(s.take(0) =~= Seq::<char>::empty());
        assert(utf8_len(Seq::<char>::empty()) == 0);
    } else {
        let head = s.take(i as int);
        let rest = s.skip((i + 1) as int);
        assert(s =~= head + seq!['\n'] + rest);
        assert(split(s, '\n') == seq![head] + split(rest, '\n'));
        if k == 0 {
            assert(split(s, '\n').take(0) =~= Seq::<Seq<char>>::empty());
            assert(lines_chars(Seq::<Seq<char>>::empty()) == 0);
            assert(lines_bytes(Seq::<Seq<char>>::empty()) == 0);
            assert(split(s, '\n')[0] == head);
            assert(s.subrange(0, i as int) =~= head);
            assert(s.take(0) =~= Seq::<char>::empty());
            assert(utf8_len(Seq::<char>::empty()) == 0);
        } else {
            lemma_piece_in_text(rest, k - 1);
            let pr = split(rest, '\n');
            assert(split(s, '\n').take(k) =~= seq![head] + pr.take(k - 1));
            lemma_lines_chars_cons(head, pr.take(k - 1));
            lemma_lines_bytes_cons(head, pr.take(k - 1));
            let lc2 = lines_chars(pr.take(k - 1));
            let lc = head.len() + 1 + lc2;
            assert(split(s, '\n')[k] == pr[k - 1]);
            assert(lines_chars(split(s, '\n').take(k)) == lc);
            assert(s.subrange(lc as int, (lc + pr[k - 1].len()) as int) =~= rest.subrange(lc2 as int, (lc2 + pr[k - 1].len()) as int));
            assert(s.take(lc as int) =~= head + seq!['\n'] + rest.take(lc2 as int));
            lemma_utf8_len_add(head + seq!['\n'], rest.take(lc2 as int));
            lemma_utf8_len_add(head, seq!['\n']);
            assert(seq!['\n'].drop_last() =~= Seq::<char>::empty());
            let nl = seq!['\n'];
            assert(nl.len() == 1 && nl.last() == '\n');
            assert(nl.drop_last() =~= Seq::<char>::empty());
            assert(utf8_len(nl.drop_last()) == 0);
            assert(char_width('\n') == 1) by {
                assert(('\n' as u32) == 10);
            }
            assert(utf8_len(nl) == 1);
            assert(lines_bytes(split(s, '\n').take(k)) == utf8_len(head) + 1 + lines_bytes(pr.take(k - 1)));
        }
    }
}

/// A position of `utf16_offset` falls on a character boundary of the text,
/// within it, on the clamped line: the byte offset is the UTF-8 length of
/// the characters before `utf16_char_index`, which lies between the start
/// and the end of that line.
pub proof fn lemma_utf16_offset_boundary(t: Seq<char>, line: i64, character: i64)
    ensures
        utf16_char_index(t, line, character) <= t.len(),
        utf16_offset_spec(t, line, character) == utf8_len(t.take(utf16_char_index(t, line, character) as int)),
        utf16_offset_spec(t, line, character) <= utf8_len(t),
        ({
            let ps = split(t, '\n');
            let li = clamp_line(line, ps.len());
            let lc = lines_chars(ps.take(li as int));
            lc <= utf16_char_index(t, line, character) <= lc + ps[li as int].len()
        }),
{
    let ps = split(t, '\n');
    lemma_split_nonempty(t, '\n');
    let li = clamp_line(line, ps.len());
    let l = ps[li as int];
    lemma_piece_in_text(t, li as int);
    let lc = lines_chars(ps.take(li as int));
    let f = fit_count(l, nonneg(character));
    lemma_fit_count_le(l, nonneg(character));
    assert(t.take((lc + f) as int) =~= t.take(lc as int) + t.subrange(lc as int, (lc + f) as int));
    assert(t.subrange(lc as int, (lc + f) as int) =~= l.take(f as int));
    lemma_utf8_len_add(t.take(lc as int), l.take(f as int));
    lemma_utf8_len_take(t, (lc + f) as int);
}

/// `fit_count` never exceeds the line.
proof fn lemma_fit_count_le(l: Seq<char>, target: nat)
    ensures
        fit_count(l, target) <= l.len(),
    decreases l.len(),
{
    if l.len() > 0 && width16(l[0]) <= target {
        lemma_fit_count_le(l.drop_first(), (target - width16(l[0])) as nat);
    }
}

/// UTF-16 takes no more units than UTF-8 takes bytes.
pub proof fn lemma_utf16_le_utf8(s: Seq<char>)
    ensures
        utf16_len(s) <= utf8_len(s),
    decreases s.len(),
{
    if s.len() > 0 {
        lemma_utf16_le_utf8(s.drop_last());
    }
}

/// Exec `char::len_utf16`.
pub fn char_len_utf16(c: char) -> (n: usize)
    ensures
        n == width16(c),
{
    if (c as u32) < 0x10000 {
        1
    } else {
        2
    }
}

/// The UTF-16 length of a line, given a bound on its UTF-8 length.
fn utf16_length(l: &[char], bound: Ghost<nat>) -> (n: usize)
    requires
        utf8_len(l@) <= bound@,
        bound@ <= usize::MAX,
    ensures
        n == utf16_len(l@),
{
    let mut n: usize = 0;
    let mut i: usize = 0;
    while i < l.len()
        invariant
            i <= l@.len(),
            n == utf16_len(l@.take(i as int)),
            utf8_len(l@) <= bound@,
            bound@ <= usize::MAX,
        decreases l.len() - i,
    {
        proof {
            assert(l@.take(i + 1).drop_last() =~= l@.take(i as int));
            lemma_utf16_le_utf8(l@.take(i + 1));
            lemma_utf8_len_take(l@, i + 1);
        }
        n = n + char_len_utf16(l[i]);
        i = i + 1;
    }
    assert(l@.take(l@.len() as int) =~= l@);
    n
}

/// The characters of `l` that fit in `target` UTF-16 units, counted.
fn fit(l: &[char], target: u64) -> (k: usize)
    ensures
        k == fit_count(l@, target as nat),
        k <= l@.len(),
{
    let mut k: usize = 0;
    let mut units: u64 = 0;
    assert(l@.skip(0) =~= l@);
    while k < l.len() && (char_len_utf16(l[k]) as u64) <= target - units
        invariant
            k <= l@.len(),
            units <= target,
            fit_count(l@, target as nat) == k + fit_count(l@.skip(k as int), (target - units) as nat),
        decreases l.len() - k,
    {
        proof {
            assert(l@.skip(k as int)[0] == l@[k as int]);
            assert(l@.skip(k as int).drop_first() =~= l@.skip(k + 1));
        }
        units = units + char_len_utf16(l[k]) as u64;
        k = k + 1;
    }
    proof {
        if k < l@.len() {
            assert(l@.skip(k as int)[0] == l@[k as int]);
        } else {
            assert(l@.skip(k as int).len() == 0);
        }
    }
    k
}

/// The piece and the pieces before it, for a clamped line.
fn clamp_line_exec(line: i64, n: usize) -> (li: usize)
    requires
        n >= 1,
    ensures
        li == clamp_line(line, n as nat),
{
    if line < 0 {
        0
    } else if line as u64 >= n as u64 {
        n - 1
    } else {
        line as usize
    }
}

/// Byte offset in `text` of the LSP position (`line`, `character`), the
/// column counted in UTF-16 units: line and column are clamped to the text
/// (lines end with `\n`; after a final newline an empty line still exists)
/// and a column inside a character stays before it. Never fails.
pub fn utf16_offset(text: &str, line: i64, character: i64) -> (r: usize)
    requires
        utf8_len(text@) <= usize::MAX,
    ensures
        r == utf16_offset_spec(text@, line, character),
{
    let t = chars_of(text);
    let ps = split_chars(t.as_slice(), '\n');
    proof {
        lemma_split_nonempty(text@, '\n');
        assert(views(ps@).len() == ps@.len());
    }
    let li = clamp_line_exec(line, ps.len());
    let ghost all = split(text@, '\n');
    proof {
        lemma_piece_fits(text@, li as int);
    }
    let mut acc: usize = 0;
    let mut k: usize = 0;
    while k < li
        invariant
            k <= li < ps@.len(),
            views(ps@) == all,
            all == split(text@, '\n'),
            acc == lines_bytes(all.take(k as int)),
            lines_bytes(all.take(li as int)) + utf8_len(all[li as int]) <= utf8_len(text@),
            utf8_len(text@) <= usize::MAX,
        decreases li - k,
    {
        proof {
            assert(views(ps@)[k as int] == ps@[k as int]@);
            assert(all.take(k + 1).drop_last() =~= all.take(k as int));
            crate::tools::position::lemma_lines_prefix_bytes(all.take(li as int), k + 1);
            assert(all.take(li as int).take(k + 1) =~= all.take(k + 1));
            lemma_utf8_len_take(ps@[k as int]@, ps@[k as int]@.len() as int);
            assert(ps@[k as int]@.take(ps@[k as int]@.len() as int) =~= ps@[k as int]@);
        }
        let mut w: usize = 0;
        let mut j: usize = 0;
        while j < ps[k].len()
            invariant
                k < ps@.len(),
                j <= ps@[k as int]@.len(),
                w == utf8_len(ps@[k as int]@.take(j as int)),
                utf8_len(ps@[k as int]@) <= usize::MAX,
            decreases ps@[k as int]@.len() - j,
        {
            proof {
                assert(ps@[k as int]@.take(j + 1).drop_last() =~= ps@[k as int]@.take(j as int));
                lemma_utf8_len_take(ps@[k as int]@, j + 1);
            }
            w = w + char_len_utf8(ps[k][j]);
            j = j + 1;
        }
        proof {
            assert(ps@[k as int]@.take(j as int) =~= ps@[k as int]@);
        }
        acc = acc + w + 1;
        k = k + 1;
    }
    proof {
        assert(views(ps@)[li as int] == ps@[li as int]@);
    }
    let line_chars = &ps[li];
    let target: u64 = if character < 0 {
        0
    } else {
        character as u64
    };
    let cnt = fit(line_chars.as_slice(), target);
    let mut bytes: usize = 0;
    let mut j: usize = 0;
    proof {
        lemma_utf8_len_take(all[li as int], cnt as int);
    }
    while j < cnt
        invariant
            j <= cnt <= line_chars@.len(),
            line_chars@ == all[li as int],
            bytes == utf8_len(all[li as int].take(j as int)),
            acc + utf8_len(all[li as int].take(cnt as int)) <= usize::MAX,
        decreases cnt - j,
    {
        proof {
            assert(all[li as int].take(j + 1).drop_last() =~= all[li as int].take(j as int));
            lemma_utf8_len_take(all[li as int].take(cnt as int), j + 1);
            assert(all[li as int].take(cnt as int).take(j + 1) =~= all[li as int].take(j + 1));
        }
        bytes = bytes + char_len_utf8(line_chars[j]);
        j = j + 1;
    }
    acc + bytes
}

/// The character index of an LSP position, for execution.
fn utf16_index(t: &Vec<char>, line: i64, character: i64) -> (r: usize)
    ensures
        r == utf16_char_index(t@, line, character),
        r <= t@.len(),
{
    let ps = split_chars(t.as_slice(), '\n');
    proof {
        lemma_split_nonempty(t@, '\n');
        assert(views(ps@).len() == ps@.len());
    }
    let li = clamp_line_exec(line, ps.len());
    let ghost all = split(t@, '\n');
    proof {
        lemma_piece_fits(t@, li as int);
    }
    let tl = t.len();
    assert(tl == t@.len());
    let mut acc: usize = 0;
    let mut k: usize = 0;
    while k < li
        invariant
            k <= li < ps@.len(),
            views(ps@) == all,
            all == split(t@, '\n'),
            acc == lines_chars(all.take(k as int)),
            lines_chars(all.take(li as int)) + all[li as int].len() <= t@.len(),
            t@.len() <= usize::MAX,
        decreases li - k,
    {
        proof {
            assert(views(ps@)[k as int] == ps@[k as int]@);
            assert(all.take(k + 1).drop_last() =~= all.take(k as int));
            crate::tools::edits::lemma_lines_chars_prefix(all.take(li as int), k + 1);
            assert(all.take(li as int).take(k + 1) =~= all.take(k + 1));
        }
        acc = acc + ps[k].len() + 1;
        k = k + 1;
    }
    proof {
        assert(views(ps@)[li as int] == ps@[li as int]@);
    }
    let target: u64 = if character < 0 {
        0
    } else {
        character as u64
    };
    let cnt = fit(ps[li].as_slice(), target);
    acc + cnt
}

// ── document synchronisation ────────────────────────────────────────────────

/// A `contentChanges` entry of `didChange`: its new text (absent when
/// missing or not a string) and its range: absent (or `null`) for a full
/// replacement, else its two ends, each absent when malformed.
#[derive(Debug, Clone, PartialEq, Eq)]
pub struct ContentChange {
    pub text: Option<String>,
    pub range: Option<(Option<(i64, i64)>, Option<(i64, i64)>)>,
}

/// What a content change holds: its new text and its range.
#[verifier::ext_equal]
pub struct ChangeView {
    pub text: Option<Seq<char>>,
    pub range: Option<(Option<(i64, i64)>, Option<(i64, i64)>)>,
}

/// The view of a content change.
pub open spec fn change_view(c: ContentChange) -> ChangeView {
    ChangeView {
        text: match c.text {
            Some(t) => Some(t@),
            None => None,
        },
        range: c.range,
    }
}

/// The views of content changes.
pub open spec fn changes_view(cs: Seq<ContentChange>) -> Seq<ChangeView> {
    cs.map_values(|c: ContentChange| change_view(c))
}

/// One change applied to a text: ignored without new text or with a
/// malformed range; a full replacement without range; else the text between
/// the two positions (in either order, clamped) replaced.
pub open spec fn apply_change(t: Seq<char>, ch: ChangeView) -> Seq<char> {
    match ch.text {
        None => t,
        Some(nt) => match ch.range {
            None => nt,
            Some((Some(s), Some(e))) => {
                let a = utf16_char_index(t, s.0, s.1);
                let b = utf16_char_index(t, e.0, e.1);
                let (lo, hi) = if a <= b {
                    (a, b)
                } else {
                    (b, a)
                };
                t.take(lo as int) + nt + t.skip(hi as int)
            },
            _ => t,
        },
    }
}

/// The changes applied in order.
pub open spec fn apply_changes(t: Seq<char>, chs: Seq<ChangeView>) -> Seq<char>
    decreases chs.len(),
{
    if chs.len() == 0 {
        t
    } else {
        apply_change(apply_changes(t, chs.drop_last()), chs.last())
    }
}

/// Applies the `contentChanges` of a `didChange` to `text`, in order (each on
/// the text left by the previous one): see `apply_change`. A malformed range
/// never fails nor touches anything beyond itself.
pub fn apply_content_changes(text: &mut String, changes: &Vec<ContentChange>)
    ensures
        final(text)@ == apply_changes(old(text)@, changes_view(changes@)),
{
    let mut cur = chars_of(text.as_str());
    let mut i: usize = 0;
    while i < changes.len()
        invariant
            i <= changes@.len(),
            cur@ == apply_changes(old(text)@, changes_view(changes@).take(i as int)),
        decreases changes.len() - i,
    {
        proof {
            assert(changes_view(changes@).take(i + 1).drop_last() =~= changes_view(changes@).take(i as int));
            assert(changes_view(changes@).take(i + 1).last() == change_view(changes@[i as int]));
        }
        let ch = &changes[i];
        match &ch.text {
            None => {},
            Some(nt) => match ch.range {
                None => {
                    cur = chars_of(nt.as_str());
                },
                Some((Some(s), Some(e))) => {
                    let a = utf16_index(&cur, s.0, s.1);
                    let b = utf16_index(&cur, e.0, e.1);
                    let (lo, hi) = if a <= b {
                        (a, b)
                    } else {
                        (b, a)
                    };
                    let mut out = copy_range(cur.as_slice(), 0, lo);
                    let n = chars_of(nt.as_str());
                    append_chars(&mut out, n.as_slice());
                    let tail = copy_range(cur.as_slice(), hi, cur.len());
                    append_chars(&mut out, tail.as_slice());
                    assert(cur@.subrange(0, lo as int) =~= cur@.take(lo as int));
                    assert(cur@.subrange(hi as int, cur@.len() as int) =~= cur@.skip(hi as int));
                    cur = out;
                },
                _ => {},
            },
        }
        i = i + 1;
    }
    assert(changes_view(changes@).take(changes@.len() as int) =~= changes_view(changes@));
    *text = string_of(cur.as_slice());
}


// ── findings to diagnostics ─────────────────────────────────────────────────

/// A diagnostic to publish (0-based positions, columns in UTF-16 units).
#[derive(Debug, Clone, PartialEq, Eq)]
pub struct LintDiagnostic {
    pub start_line: u64,
    pub start_character: u64,
    pub end_line: u64,
    pub end_character: u64,
    pub severity: i64,
    /// The rule code, as JSON text (`"DL3007"`).
    pub code: Option<String>,
    pub source: String,
    pub message: String,
    /// `codeDescription.href`, when the linter gave a documentation URL.
    pub href: Option<String>,
}

/// The view of a diagnostic.
pub type DiagView = (nat, nat, nat, nat, i64, Option<Seq<char>>, Seq<char>, Seq<char>, Option<Seq<char>>);

/// The view of an optional string.
pub open spec fn opt_view(o: Option<String>) -> Option<Seq<char>> {
    match o {
        Some(s) => Some(s@),
        None => None,
    }
}

/// Its view.
pub open spec fn diag_view(d: LintDiagnostic) -> DiagView {
    (
        d.start_line as nat,
        d.start_character as nat,
        d.end_line as nat,
        d.end_character as nat,
        d.severity,
        opt_view(d.code),
        d.source@,
        d.message@,
        opt_view(d.href),
    )
}

/// The views of diagnostics.
pub open spec fn diag_views(v: Seq<LintDiagnostic>) -> Seq<DiagView> {
    v.map_values(|d: LintDiagnostic| diag_view(d))
}

/// A 1-based line number made a 0-based line of a text of `n` lines,
/// clamped (non-positive numbers give the first line).
pub open spec fn line_index(x: int, n: nat) -> nat {
    if x - 1 < 0 {
        0
    } else if x - 1 >= n {
        (n - 1) as nat
    } else {
        (x - 1) as nat
    }
}

/// A 1-based column made 0-based and clamped to `units`.
pub open spec fn column_index(x: int, units: nat) -> nat {
    if x - 1 < 0 {
        0
    } else if x - 1 > units {
        units
    } else {
        (x - 1) as nat
    }
}

/// An entry of `hadolint --format json`: each field absent when missing or
/// of another type (the code, any JSON value, kept as JSON text).
#[derive(Debug, Clone, PartialEq, Eq)]
pub struct HadolintFinding {
    pub line: Option<i64>,
    pub column: Option<i64>,
    pub level: Option<String>,
    /// The JSON text of the rule code.
    pub code: Option<String>,
    pub message: Option<String>,
}

/// What a hadolint finding holds.
#[verifier::ext_equal]
pub struct HadolintView {
    pub line: Option<i64>,
    pub column: Option<i64>,
    pub level: Option<Seq<char>>,
    pub code: Option<Seq<char>>,
    pub message: Option<Seq<char>>,
}

/// The view of a hadolint finding.
pub open spec fn hadolint_view(f: HadolintFinding) -> HadolintView {
    HadolintView {
        line: f.line,
        column: f.column,
        level: opt_view(f.level),
        code: opt_view(f.code),
        message: opt_view(f.message),
    }
}

/// The views of hadolint findings.
pub open spec fn hadolint_views(fs: Seq<HadolintFinding>) -> Seq<HadolintView> {
    fs.map_values(|f: HadolintFinding| hadolint_view(f))
}

/// The severity of a hadolint level: error 1, warning 2, info 3, style 4,
/// anything else 3.
pub open spec fn hadolint_severity_spec(level: Option<Seq<char>>) -> i64 {
    match level {
        Some(l) => if l == "error"@ {
            1
        } else if l == "warning"@ {
            2
        } else if l == "style"@ {
            4
        } else {
            3
        },
        None => 3,
    }
}

/// The message of a finding (empty when absent).
pub open spec fn text_or_empty(o: Option<Seq<char>>) -> Seq<char> {
    match o {
        Some(s) => s,
        None => seq![],
    }
}

/// The diagnostic of one hadolint finding on a document split in lines:
/// none without a line; the start at (line - 1, column - 1) clamped (column
/// 1 when absent), the end at the end of that line (hadolint gives a point).
pub open spec fn hadolint_diag(f: HadolintView, lines: Seq<Seq<char>>) -> Option<DiagView> {
    match f.line {
        None => None,
        Some(line) => {
            let li = line_index(line as int, lines.len());
            let units = utf16_len(lines[li as int]);
            let col = match f.column {
                Some(c) => c as int,
                None => 1,
            };
            Some(
                (
                    li,
                    column_index(col, units),
                    li,
                    units,
                    hadolint_severity_spec(f.level),
                    f.code,
                    "hadolint"@,
                    text_or_empty(f.message),
                    None,
                ),
            )
        },
    }
}

/// The diagnostics of hadolint findings, in order.
pub open spec fn hadolint_diags(fs: Seq<HadolintView>, lines: Seq<Seq<char>>) -> Seq<DiagView>
    decreases fs.len(),
{
    if fs.len() == 0 {
        seq![]
    } else {
        let prev = hadolint_diags(fs.drop_last(), lines);
        match hadolint_diag(fs.last(), lines) {
            Some(d) => prev.push(d),
            None => prev,
        }
    }
}

/// The diagnostics of ruff findings, in order.
pub open spec fn ruff_diags(fs: Seq<RuffView>, lines: Seq<Seq<char>>) -> Seq<DiagView>
    decreases fs.len(),
{
    if fs.len() == 0 {
        seq![]
    } else {
        let prev = ruff_diags(fs.drop_last(), lines);
        match ruff_diag(fs.last(), lines) {
            Some(d) => prev.push(d),
            None => prev,
        }
    }
}

/// An entry of `ruff check --output-format json`: the file name (outer
/// `None` when the key is absent; inner `None` when not a string), the
/// start (`location.row`, absent when not an integer; `location.column`),
/// the end (`end_location`, absent when missing, `null` or without an
/// integer row), and the other fields the conversion reads.
#[derive(Debug, Clone, PartialEq, Eq)]
pub struct RuffFinding {
    pub filename: Option<Option<String>>,
    pub row: Option<i64>,
    pub column: Option<i64>,
    pub end: Option<(i64, Option<i64>)>,
    pub message: Option<String>,
    /// The JSON text of the rule code.
    pub code: Option<String>,
    pub severity: Option<String>,
    pub url: Option<String>,
}

/// What a ruff finding holds.
#[verifier::ext_equal]
pub struct RuffView {
    pub filename: Option<Option<Seq<char>>>,
    pub row: Option<i64>,
    pub column: Option<i64>,
    pub end: Option<(i64, Option<i64>)>,
    pub message: Option<Seq<char>>,
    pub code: Option<Seq<char>>,
    pub severity: Option<Seq<char>>,
    pub url: Option<Seq<char>>,
}

/// The view of a ruff finding.
pub open spec fn ruff_view(f: RuffFinding) -> RuffView {
    RuffView {
        filename: match f.filename {
            Some(n) => Some(opt_view(n)),
            None => None,
        },
        row: f.row,
        column: f.column,
        end: f.end,
        message: opt_view(f.message),
        code: opt_view(f.code),
        severity: opt_view(f.severity),
        url: opt_view(f.url),
    }
}

/// The views of ruff findings.
pub open spec fn ruff_views(fs: Seq<RuffFinding>) -> Seq<RuffView> {
    fs.map_values(|f: RuffFinding| ruff_view(f))
}

/// The LSP severity of a ruff severity: error/fatal 1, warning 2,
/// info/information/notice 3, hint 4, anything else (or none) 2.
pub open spec fn ruff_severity_spec(sev: Option<Seq<char>>) -> i64 {
    match sev {
        Some(s) => if s == "error"@ || s == "fatal"@ {
            1
        } else if s == "warning"@ {
            2
        } else if s == "info"@ || s == "information"@ || s == "notice"@ {
            3
        } else if s == "hint"@ {
            4
        } else {
            2
        },
        None => 2,
    }
}

/// The diagnostic of one ruff finding: none for another file than stdin
/// (`-`) or without a start row; positions as for hadolint, the end from
/// `end_location` (same conversion) or the end of the start line, and the
/// end of the start line too when the clamps put the end before the start.
pub open spec fn ruff_diag(f: RuffView, lines: Seq<Seq<char>>) -> Option<DiagView> {
    if f.filename matches Some(name) && name != Some("-"@) {
        None
    } else {
        match f.row {
            None => None,
            Some(row) => {
                let li = line_index(row as int, lines.len());
                let units = utf16_len(lines[li as int]);
                let col = match f.column {
                    Some(c) => c as int,
                    None => 1,
                };
                let sc = column_index(col, units);
                let end0: (nat, nat) = match f.end {
                    Some((er, ec)) => {
                        let ei = line_index(er as int, lines.len());
                        let ecol = match ec {
                            Some(c) => c as int,
                            None => 1,
                        };
                        (ei, column_index(ecol, utf16_len(lines[ei as int])))
                    },
                    None => (li, units),
                };
                let end = if end0.0 < li || (end0.0 == li && end0.1 < sc) {
                    (li, units)
                } else {
                    end0
                };
                Some(
                    (
                        li,
                        sc,
                        end.0,
                        end.1,
                        ruff_severity_spec(f.severity),
                        f.code,
                        "ruff"@,
                        text_or_empty(f.message),
                        f.url,
                    ),
                )
            },
        }
    }
}


/// A ruff finding that gives a diagnostic: about stdin (no file name, or
/// `-`) and with a start row.
pub open spec fn ruff_qualifies(f: RuffView) -> bool {
    !(f.filename matches Some(name) && name != Some("-"@)) && f.row is Some
}

/// How many findings qualify.
pub open spec fn ruff_qualifying_count(fs: Seq<RuffView>) -> nat
    decreases fs.len(),
{
    if fs.len() == 0 {
        0
    } else {
        ruff_qualifying_count(fs.drop_last()) + if ruff_qualifies(fs.last()) {
            1nat
        } else {
            0nat
        }
    }
}

/// A diagnostic is well formed: its source is `ruff`, its severity is in
/// 1..=4 and its start is not after its end.
pub open spec fn ruff_diag_well_formed(d: DiagView) -> bool {
    &&& d.6 == "ruff"@
    &&& 1 <= d.4 <= 4
    &&& (d.0 < d.2 || (d.0 == d.2 && d.1 <= d.3))
}

/// The ruff conversion keeps one diagnostic per qualifying finding, in
/// order, each well formed.
pub proof fn lemma_ruff_diags_well_formed(fs: Seq<RuffView>, lines: Seq<Seq<char>>)
    requires
        lines.len() >= 1,
    ensures
        ruff_diags(fs, lines).len() == ruff_qualifying_count(fs),
        forall|i: int| 0 <= i < ruff_diags(fs, lines).len() ==> ruff_diag_well_formed(#[trigger] ruff_diags(fs, lines)[i]),
    decreases fs.len(),
{
    if fs.len() > 0 {
        lemma_ruff_diags_well_formed(fs.drop_last(), lines);
        let prev = ruff_diags(fs.drop_last(), lines);
        match ruff_diag(fs.last(), lines) {
            Some(d) => {
                assert(ruff_diag_well_formed(d));
                assert forall|i: int| 0 <= i < prev.push(d).len() implies ruff_diag_well_formed(#[trigger] prev.push(d)[i]) by {
                    if i < prev.len() {
                        assert(prev.push(d)[i] == prev[i]);
                    }
                }
            },
            None => {},
        }
    }
}

/// The ruff conversion of a linter output: when the output is a JSON
/// array, one diagnostic per finding about stdin with a start row, each
/// well formed (source `ruff`, severity in 1..=4, start not after end).
pub proof fn lemma_ruff_output_diagnostics(out: Seq<char>, doc_text: Seq<char>)
    ensures
        ruff_output_findings(out) matches Some(fs) ==> {
            let ds = ruff_diags(fs, split(doc_text, '\n'));
            &&& ds.len() == ruff_qualifying_count(fs)
            &&& forall|i: int| 0 <= i < ds.len() ==> ruff_diag_well_formed(#[trigger] ds[i])
        },
{
    lemma_split_nonempty(doc_text, '\n');
    if let Some(fs) = ruff_output_findings(out) {
        lemma_ruff_diags_well_formed(fs, split(doc_text, '\n'));
    }
}

/// Whether `s` is the literal `lit`.
fn is_lit(s: &String, lit: &str) -> (b: bool)
    ensures
        b == (s@ == lit@),
{
    let a = chars_of(s.as_str());
    let l = chars_of(lit);
    crate::text::eq_chars(a.as_slice(), l.as_slice())
}

/// The lines of a document (split on `\n`) with their UTF-16 lengths.
fn doc_lines(doc_text: &str) -> (r: (Vec<Vec<char>>, Vec<usize>))
    requires
        utf8_len(doc_text@) <= usize::MAX,
    ensures
        views(r.0@) == split(doc_text@, '\n'),
        r.1@.len() == r.0@.len(),
        r.0@.len() >= 1,
        forall|i: int| 0 <= i < r.1@.len() ==> r.1@[i] == utf16_len(#[trigger] r.0@[i]@),
{
    let t = chars_of(doc_text);
    let ps = split_chars(t.as_slice(), '\n');
    proof {
        lemma_split_nonempty(doc_text@, '\n');
        assert(views(ps@).len() == ps@.len());
    }
    let mut units: Vec<usize> = Vec::new();
    let mut i: usize = 0;
    while i < ps.len()
        invariant
            i <= ps@.len(),
            views(ps@) == split(doc_text@, '\n'),
            utf8_len(doc_text@) <= usize::MAX,
            units@.len() == i,
            forall|k: int| 0 <= k < i ==> units@[k] == utf16_len(#[trigger] ps@[k]@),
        decreases ps.len() - i,
    {
        proof {
            lemma_piece_fits(doc_text@, i as int);
            assert(views(ps@)[i as int] == ps@[i as int]@);
        }
        let u = utf16_length(ps[i].as_slice(), Ghost(utf8_len(doc_text@)));
        units.push(u);
        i = i + 1;
    }
    (ps, units)
}

/// `line_index` for execution.
fn line_index_exec(x: i64, n: usize) -> (r: usize)
    requires
        n >= 1,
    ensures
        r == line_index(x as int, n as nat),
{
    if (x as i128) - 1 < 0 {
        0
    } else if (x as i128) - 1 >= n as i128 {
        n - 1
    } else {
        (x - 1) as usize
    }
}

/// `column_index` for execution.
fn column_index_exec(x: i64, units: usize) -> (r: usize)
    ensures
        r == column_index(x as int, units as nat),
{
    if (x as i128) - 1 < 0 {
        0
    } else if (x as i128) - 1 > units as i128 {
        units
    } else {
        (x - 1) as usize
    }
}

/// Converts hadolint findings (the entries of its JSON output) to LSP
/// diagnostics on the linted document: 1-based positions made 0-based and
/// clamped to the document (lines split on `\n`, columns in UTF-16 units),
/// the range running to the end of the line; severities error 1, warning 2,
/// info 3, style 4, anything else 3; the code verbatim; source `hadolint`.
/// Findings without a line give nothing.
pub fn convert_hadolint_findings(findings: &Vec<HadolintFinding>, doc_text: &str) -> (r: Vec<LintDiagnostic>)
    requires
        utf8_len(doc_text@) <= usize::MAX,
    ensures
        diag_views(r@) == hadolint_diags(hadolint_views(findings@), split(doc_text@, '\n')),
{
    let (lines, units) = doc_lines(doc_text);
    let ghost ls = split(doc_text@, '\n');
    let n = lines.len();
    let mut out: Vec<LintDiagnostic> = Vec::new();
    let mut i: usize = 0;
    while i < findings.len()
        invariant
            i <= findings@.len(),
            views(lines@) == ls,
            n == lines@.len(),
            n >= 1,
            units@.len() == n,
            forall|k: int| 0 <= k < units@.len() ==> units@[k] == utf16_len(#[trigger] lines@[k]@),
            diag_views(out@) == hadolint_diags(hadolint_views(findings@).take(i as int), ls),
        decreases findings.len() - i,
    {
        proof {
            assert(hadolint_views(findings@).take(i + 1).drop_last() =~= hadolint_views(findings@).take(i as int));
            assert(hadolint_views(findings@).take(i + 1).last() == hadolint_view(findings@[i as int]));
        }
        let f = &findings[i];
        match f.line {
            None => {},
            Some(line) => {
                let li = line_index_exec(line, n);
                let u = units[li];
                proof {
                    assert(views(lines@)[li as int] == lines@[li as int]@);
                }
                let col: i64 = match f.column {
                    Some(c) => c,
                    None => 1,
                };
                let sc = column_index_exec(col, u);
                let severity: i64 = match &f.level {
                    Some(l) => if is_lit(l, "error") {
                        1
                    } else if is_lit(l, "warning") {
                        2
                    } else if is_lit(l, "style") {
                        4
                    } else {
                        3
                    },
                    None => 3,
                };
                let message = match &f.message {
                    Some(m) => m.clone(),
                    None => String::new(),
                };
                let code = match &f.code {
                    Some(c) => Some(c.clone()),
                    None => None,
                };
                let d = LintDiagnostic {
                    start_line: li as u64,
                    start_character: sc as u64,
                    end_line: li as u64,
                    end_character: u as u64,
                    severity,
                    code,
                    source: "hadolint".to_owned(),
                    message,
                    href: None,
                };
                let ghost before = diag_views(out@);
                out.push(d);
                assert(diag_views(out@) =~= before.push(diag_view(d)));
            },
        }
        i = i + 1;
    }
    assert(hadolint_views(findings@).take(findings@.len() as int) =~= hadolint_views(findings@));
    out
}

/// The LSP severity of a ruff severity (see `ruff_severity_spec`).
pub fn ruff_severity(sev: Option<&String>) -> (r: i64)
    ensures
        r == ruff_severity_spec(match sev {
            Some(s) => Some(s@),
            None => None,
        }),
{
    match sev {
        Some(s) => if is_lit(s, "error") || is_lit(s, "fatal") {
            1
        } else if is_lit(s, "warning") {
            2
        } else if is_lit(s, "info") || is_lit(s, "information") || is_lit(s, "notice") {
            3
        } else if is_lit(s, "hint") {
            4
        } else {
            2
        },
        None => 2,
    }
}

/// Converts ruff findings (the entries of its JSON output) to LSP
/// diagnostics on the linted document (see `ruff_diag`): findings of
/// another file than stdin, or without a start row, are left out; the
/// severity is relayed when known (warning otherwise); the code and message
/// verbatim; the documentation URL, when a string, as `codeDescription`;
/// source `ruff`. Ruff counts columns in characters and the conversion keeps
/// them as they are (a character outside the BMP before the column shifts it
/// by one UTF-16 unit).
pub fn convert_ruff_findings(findings: &Vec<RuffFinding>, doc_text: &str) -> (r: Vec<LintDiagnostic>)
    requires
        utf8_len(doc_text@) <= usize::MAX,
    ensures
        diag_views(r@) == ruff_diags(ruff_views(findings@), split(doc_text@, '\n')),
{
    let (lines, units) = doc_lines(doc_text);
    let ghost ls = split(doc_text@, '\n');
    let n = lines.len();
    let mut out: Vec<LintDiagnostic> = Vec::new();
    let mut i: usize = 0;
    while i < findings.len()
        invariant
            i <= findings@.len(),
            views(lines@) == ls,
            n == lines@.len(),
            n >= 1,
            units@.len() == n,
            forall|k: int| 0 <= k < units@.len() ==> units@[k] == utf16_len(#[trigger] lines@[k]@),
            diag_views(out@) == ruff_diags(ruff_views(findings@).take(i as int), ls),
        decreases findings.len() - i,
    {
        proof {
            assert(ruff_views(findings@).take(i + 1).drop_last() =~= ruff_views(findings@).take(i as int));
            assert(ruff_views(findings@).take(i + 1).last() == ruff_view(findings@[i as int]));
        }
        let f = &findings[i];
        let foreign = match &f.filename {
            Some(name) => match name {
                Some(x) => !is_lit(x, "-"),
                None => true,
            },
            None => false,
        };
        if !foreign {
            match f.row {
                None => {},
                Some(row) => {
                    let li = line_index_exec(row, n);
                    let u = units[li];
                    proof {
                        assert(views(lines@)[li as int] == lines@[li as int]@);
                    }
                    let col: i64 = match f.column {
                        Some(c) => c,
                        None => 1,
                    };
                    let sc = column_index_exec(col, u);
                    let (mut el, mut ec): (usize, usize) = match f.end {
                        Some((er, ecol)) => {
                            let ei = line_index_exec(er, n);
                            proof {
                                assert(views(lines@)[ei as int] == lines@[ei as int]@);
                            }
                            let c: i64 = match ecol {
                                Some(c) => c,
                                None => 1,
                            };
                            (ei, column_index_exec(c, units[ei]))
                        },
                        None => (li, u),
                    };
                    if el < li || (el == li && ec < sc) {
                        el = li;
                        ec = u;
                    }
                    let message = match &f.message {
                        Some(m) => m.clone(),
                        None => String::new(),
                    };
                    let code = match &f.code {
                        Some(c) => Some(c.clone()),
                        None => None,
                    };
                    let href = match &f.url {
                        Some(c) => Some(c.clone()),
                        None => None,
                    };
                    let d = LintDiagnostic {
                        start_line: li as u64,
                        start_character: sc as u64,
                        end_line: el as u64,
                        end_character: ec as u64,
                        severity: ruff_severity(f.severity.as_ref()),
                        code,
                        source: "ruff".to_owned(),
                        message,
                        href,
                    };
                    let ghost before = diag_views(out@);
                    out.push(d);
                    assert(diag_views(out@) =~= before.push(diag_view(d)));
                },
            }
        }
        i = i + 1;
    }
    assert(ruff_views(findings@).take(findings@.len() as int) =~= ruff_views(findings@));
    out
}


// ── the linter server ───────────────────────────────────────────────────────

/// The documents open in a linter server and the lint generation of each
/// URI: every change bumps the generation, and a lint only publishes when
/// the document still has the version and generation it started from.
pub struct LintBook {
    docs: Vec<(Vec<char>, (Vec<char>, i64))>,
    gens: Vec<(Vec<char>, u64)>,
}

/// The abstract state: URI -> (text, version), URI -> generation.
pub struct LintView {
    pub docs: Map<Seq<char>, (Seq<char>, i64)>,
    pub gens: Map<Seq<char>, u64>,
}

impl View for LintBook {
    type V = LintView;

    closed spec fn view(&self) -> LintView {
        LintView {
            docs: to_map(key_views(self.docs@)).map_values(|d: (Vec<char>, i64)| (d.0@, d.1)),
            gens: to_map(key_views(self.gens@)),
        }
    }
}

/// What a lint starts from: the text, its version and the generation.
pub type Snapshot = (Seq<char>, i64, u64);

/// The snapshot of a URI, if it is open and has a generation.
pub open spec fn snapshot_spec(v: LintView, u: Seq<char>) -> Option<Snapshot> {
    if v.docs.dom().contains(u) && v.gens.dom().contains(u) {
        Some((v.docs[u].0, v.docs[u].1, v.gens[u]))
    } else {
        None
    }
}

/// The next generation of a URI (from 0 when it has none).
pub open spec fn next_gen(v: LintView, u: Seq<char>) -> u64 {
    (if v.gens.dom().contains(u) {
        v.gens[u] + 1
    } else {
        1
    }) as u64
}

/// A URI's generation can still be bumped.
pub open spec fn can_bump(v: LintView, u: Seq<char>) -> bool {
    !v.gens.dom().contains(u) || v.gens[u] < u64::MAX
}

/// The view of a snapshot.
pub open spec fn snap_view(s: Option<(String, i64, u64)>) -> Option<Snapshot> {
    match s {
        Some((t, ver, g)) => Some((t@, ver, g)),
        None => None,
    }
}

impl LintBook {
    /// One entry per URI in both tables.
    pub closed spec fn wf(&self) -> bool {
        functional(key_views(self.docs@)) && functional(key_views(self.gens@))
    }

    /// No document open.
    pub fn new() -> (b: LintBook)
        ensures
            b.wf(),
            b@.docs == Map::<Seq<char>, (Seq<char>, i64)>::empty(),
            b@.gens == Map::<Seq<char>, u64>::empty(),
    {
        let b = LintBook { docs: Vec::new(), gens: Vec::new() };
        assert(to_map(key_views(b.gens@)) =~= Map::<Seq<char>, u64>::empty());
        assert(to_map(key_views(b.docs@)) =~= Map::<Seq<char>, (Vec<char>, i64)>::empty());
        assert(b@.docs =~= Map::<Seq<char>, (Seq<char>, i64)>::empty());
        b
    }

    /// The generation of a URI.
    pub fn current_gen(&self, uri: &str) -> (r: Option<u64>)
        requires
            self.wf(),
        ensures
            r == (if self@.gens.dom().contains(uri@) {
                Some(self@.gens[uri@])
            } else {
                None::<u64>
            }),
    {
        let u = chars_of(uri);
        match find_key(&self.gens, u.as_slice()) {
            Some(i) => Some(self.gens[i].1),
            None => None,
        }
    }

    /// Whether a document is open under `uri`.
    pub fn doc_exists(&self, uri: &str) -> (b: bool)
        requires
            self.wf(),
        ensures
            b == self@.docs.dom().contains(uri@),
    {
        let u = chars_of(uri);
        find_key(&self.docs, u.as_slice()).is_some()
    }

    /// Bumps the generation of `uri` (disqualifying lints in flight and
    /// pending debounces) and returns it.
    pub fn bump_gen(&mut self, uri: &str) -> (g: u64)
        requires
            old(self).wf(),
            can_bump(old(self)@, uri@),
        ensures
            final(self).wf(),
            g == next_gen(old(self)@, uri@),
            final(self)@.gens == old(self)@.gens.insert(uri@, g),
            final(self)@.docs == old(self)@.docs,
    {
        let cur = self.current_gen(uri);
        let next: u64 = match cur {
            Some(c) => c + 1,
            None => 1,
        };
        let u = chars_of(uri);
        let mut gens: Vec<(Vec<char>, u64)> = Vec::new();
        std::mem::swap(&mut gens, &mut self.gens);
        self.gens = set_key(gens, u, next);
        next
    }

    /// The text, version and generation of `uri`, if open.
    pub fn snapshot(&self, uri: &str) -> (r: Option<(String, i64, u64)>)
        requires
            self.wf(),
        ensures
            snap_view(r) == snapshot_spec(self@, uri@),
    {
        let u = chars_of(uri);
        match find_key(&self.docs, u.as_slice()) {
            None => None,
            Some(i) => match find_key(&self.gens, u.as_slice()) {
                None => None,
                Some(j) => {
                    let text = string_of(self.docs[i].1.0.as_slice());
                    Some((text, self.docs[i].1.1, self.gens[j].1))
                },
            },
        }
    }

    /// Whether a lint started from (`version`, `generation`) is still
    /// current: the document has that version and the URI that generation.
    pub fn is_current(&self, uri: &str, version: i64, generation: u64) -> (b: bool)
        requires
            self.wf(),
        ensures
            b == (self@.docs.dom().contains(uri@) && self@.docs[uri@].1 == version
                && self@.gens.dom().contains(uri@) && self@.gens[uri@] == generation),
    {
        let u = chars_of(uri);
        let doc_ok = match find_key(&self.docs, u.as_slice()) {
            Some(i) => self.docs[i].1.1 == version,
            None => false,
        };
        let gen_ok = match find_key(&self.gens, u.as_slice()) {
            Some(j) => self.gens[j].1 == generation,
            None => false,
        };
        doc_ok && gen_ok
    }

    /// Opens (or reopens) a document.
    pub fn open_doc(&mut self, uri: &str, text: &str, version: i64)
        requires
            old(self).wf(),
        ensures
            final(self).wf(),
            final(self)@.docs == old(self)@.docs.insert(uri@, (text@, version)),
            final(self)@.gens == old(self)@.gens,
    {
        let u = chars_of(uri);
        let t = chars_of(text);
        let mut docs: Vec<(Vec<char>, (Vec<char>, i64))> = Vec::new();
        std::mem::swap(&mut docs, &mut self.docs);
        let ghost d0 = to_map(key_views(docs@));
        let ghost tv = t@;
        self.docs = set_key(docs, u, (t, version));
        proof {
            assert(self@.docs =~= d0.map_values(|d: (Vec<char>, i64)| (d.0@, d.1)).insert(uri@, (tv, version)));
        }
    }

    /// Applies changes to an open document and records its new version
    /// (when given); `false`, with nothing changed, when the URI is not open.
    pub fn change_doc(&mut self, uri: &str, changes: &Vec<ContentChange>, version: Option<i64>) -> (b: bool)
        requires
            old(self).wf(),
        ensures
            final(self).wf(),
            b == old(self)@.docs.dom().contains(uri@),
            final(self)@.gens == old(self)@.gens,
            b ==> final(self)@.docs == old(self)@.docs.insert(
                uri@,
                (
                    apply_changes(old(self)@.docs[uri@].0, changes_view(changes@)),
                    match version {
                        Some(v) => v,
                        None => old(self)@.docs[uri@].1,
                    },
                ),
            ),
            !b ==> final(self)@.docs == old(self)@.docs,
    {
        let u = chars_of(uri);
        match find_key(&self.docs, u.as_slice()) {
            None => false,
            Some(i) => {
                let mut text = string_of(self.docs[i].1.0.as_slice());
                apply_content_changes(&mut text, changes);
                let v = match version {
                    Some(v) => v,
                    None => self.docs[i].1.1,
                };
                self.open_doc(uri, text.as_str(), v);
                true
            },
        }
    }

    /// Closes a document: forgets it and its generation; returns its last
    /// version when it was open (its diagnostics must then be cleared).
    pub fn close_doc(&mut self, uri: &str) -> (r: Option<i64>)
        requires
            old(self).wf(),
        ensures
            final(self).wf(),
            final(self)@.docs == old(self)@.docs.remove(uri@),
            final(self)@.gens == old(self)@.gens.remove(uri@),
            r == (if old(self)@.docs.dom().contains(uri@) {
                Some(old(self)@.docs[uri@].1)
            } else {
                None::<i64>
            }),
    {
        let u = chars_of(uri);
        let found = find_key(&self.docs, u.as_slice());
        let r = match found {
            Some(i) => Some(self.docs[i].1.1),
            None => None,
        };
        let mut gens: Vec<(Vec<char>, u64)> = Vec::new();
        std::mem::swap(&mut gens, &mut self.gens);
        self.gens = remove_key(gens, u.as_slice());
        let mut docs: Vec<(Vec<char>, (Vec<char>, i64))> = Vec::new();
        std::mem::swap(&mut docs, &mut self.docs);
        let ghost d0 = to_map(key_views(docs@));
        self.docs = remove_key(docs, u.as_slice());
        proof {
            assert(self@.docs =~= d0.map_values(|d: (Vec<char>, i64)| (d.0@, d.1)).remove(uri@));
        }
        r
    }
}


/// A message received by a linter server, as far as it matters here: its
/// method, whether it is a request (an id that is not `null`), and from its
/// parameters the document URI, text and version and the content changes
/// (each absent when missing or of another type).
#[derive(Debug, Clone, PartialEq, Eq)]
pub struct LinterMessage {
    pub method: String,
    pub is_request: bool,
    pub uri: Option<String>,
    pub text: Option<String>,
    pub version: Option<i64>,
    pub changes: Vec<ContentChange>,
}

/// What a message holds, as the server reads it.
#[verifier::ext_equal]
pub struct MessageView {
    pub method: Seq<char>,
    pub is_request: bool,
    pub uri: Option<Seq<char>>,
    pub text: Option<Seq<char>>,
    pub version: Option<i64>,
    pub changes: Seq<ChangeView>,
}

/// The view of a message.
pub open spec fn message_view(m: LinterMessage) -> MessageView {
    MessageView {
        method: m.method@,
        is_request: m.is_request,
        uri: opt_view(m.uri),
        text: opt_view(m.text),
        version: m.version,
        changes: changes_view(m.changes@),
    }
}

/// The view of an optional message.
pub open spec fn opt_message_view(m: Option<LinterMessage>) -> Option<MessageView> {
    match m {
        Some(x) => Some(message_view(x)),
        None => None,
    }
}

/// The answer to a request.
#[derive(Debug, Clone, Copy, PartialEq, Eq, Structural)]
pub enum ReplyKind {
    /// The capabilities (open/close and incremental sync).
    Initialize,
    /// A `null` result.
    Shutdown,
    /// Error -32601.
    MethodNotFound,
}

/// What the server must do after a message.
#[derive(Debug, Clone, PartialEq, Eq)]
pub enum LinterAction {
    Reply(ReplyKind),
    /// Stop serving.
    Exit,
    /// Lint this text now (version and generation to check at the end).
    Lint { uri: String, text: String, version: i64, generation: u64 },
    /// Wait for the debounce delay, then call `debounce_fired`.
    Debounce { uri: String, generation: u64 },
    /// Publish an empty diagnostic list for this version.
    ClearDiagnostics { uri: String, version: i64 },
    Nothing,
}

/// The view of an action: a code (0 reply, 1 exit, 2 lint, 3 debounce,
/// 4 clear, 5 nothing) with its data.
pub type ActionView = (nat, Option<ReplyKind>, Seq<char>, Seq<char>, i64, u64);

/// Its view.
pub open spec fn action_view(a: LinterAction) -> ActionView {
    match a {
        LinterAction::Reply(k) => (0, Some(k), seq![], seq![], 0, 0),
        LinterAction::Exit => (1, None, seq![], seq![], 0, 0),
        LinterAction::Lint { uri, text, version, generation } => (2, None, uri@, text@, version, generation),
        LinterAction::Debounce { uri, generation } => (3, None, uri@, seq![], 0, generation),
        LinterAction::ClearDiagnostics { uri, version } => (4, None, uri@, seq![], version, 0),
        LinterAction::Nothing => (5, None, seq![], seq![], 0, 0),
    }
}

/// What a message does to the state and which action follows.
///
/// Requests: `initialize` and `shutdown` are answered, anything else gets
/// -32601. Notifications: `exit` stops; `didOpen` records the document
/// (text empty and version 1 when absent), bumps its generation and lints
/// it now; `didChange` applies the changes to an open document (its version
/// updated when given) and arms a debounce under a new generation;
/// `didSave` of an open document bumps the generation and lints now;
/// `didClose` forgets the document and clears its diagnostics; anything
/// else, or a message without URI where one is needed, changes nothing.
pub open spec fn handle_spec(v: LintView, m: MessageView) -> (LintView, ActionView) {
    let meth = m.method;
    let nothing = (5nat, None::<ReplyKind>, Seq::<char>::empty(), Seq::<char>::empty(), 0i64, 0u64);
    if m.is_request {
        let k = if meth == "initialize"@ {
            ReplyKind::Initialize
        } else if meth == "shutdown"@ {
            ReplyKind::Shutdown
        } else {
            ReplyKind::MethodNotFound
        };
        (v, (0, Some(k), seq![], seq![], 0, 0))
    } else if meth == "exit"@ {
        (v, (1, None, seq![], seq![], 0, 0))
    } else if m.uri is None {
        (v, nothing)
    } else {
        let u = m.uri->Some_0;
        if meth == "textDocument/didOpen"@ {
            let text = text_or_empty(m.text);
            let ver = match m.version {
                Some(x) => x,
                None => 1,
            };
            let g = next_gen(v, u);
            let w = LintView { docs: v.docs.insert(u, (text, ver)), gens: v.gens.insert(u, g) };
            (w, (2, None, u, text, ver, g))
        } else if meth == "textDocument/didChange"@ {
            if !v.docs.dom().contains(u) {
                (v, nothing)
            } else {
                let ver = match m.version {
                    Some(x) => x,
                    None => v.docs[u].1,
                };
                let g = next_gen(v, u);
                let w = LintView {
                    docs: v.docs.insert(u, (apply_changes(v.docs[u].0, m.changes), ver)),
                    gens: v.gens.insert(u, g),
                };
                (w, (3, None, u, seq![], 0, g))
            }
        } else if meth == "textDocument/didSave"@ {
            if !v.docs.dom().contains(u) {
                (v, nothing)
            } else {
                let g = next_gen(v, u);
                let w = LintView { docs: v.docs, gens: v.gens.insert(u, g) };
                (w, (2, None, u, v.docs[u].0, v.docs[u].1, g))
            }
        } else if meth == "textDocument/didClose"@ {
            let w = LintView { docs: v.docs.remove(u), gens: v.gens.remove(u) };
            if v.docs.dom().contains(u) {
                (w, (4, None, u, seq![], v.docs[u].1, 0))
            } else {
                (w, nothing)
            }
        } else {
            (v, nothing)
        }
    }
}

/// Equal views of lint states are equal.
pub open spec fn same_state(a: LintView, b: LintView) -> bool {
    a.docs == b.docs && a.gens == b.gens
}

impl LintBook {
    /// Whether the generation of `uri` can still be bumped.
    pub fn can_bump_gen(&self, uri: &str) -> (b: bool)
        requires
            self.wf(),
        ensures
            b == can_bump(self@, uri@),
    {
        match self.current_gen(uri) {
            Some(g) => g < u64::MAX,
            None => true,
        }
    }

    /// Handles one message (see `handle_spec`).
    pub fn handle_message(&mut self, m: &LinterMessage) -> (a: LinterAction)
        requires
            old(self).wf(),
            m.uri matches Some(u) ==> can_bump(old(self)@, u@),
        ensures
            final(self).wf(),
            same_state(final(self)@, handle_spec(old(self)@, message_view(*m)).0),
            action_view(a) == handle_spec(old(self)@, message_view(*m)).1,
    {
        let meth = chars_of(m.method.as_str());
        let is = |lit: &str| -> (b: bool)
            ensures
                b == (meth@ == lit@),
            {
                let l = chars_of(lit);
                crate::text::eq_chars(meth.as_slice(), l.as_slice())
            };
        if m.is_request {
            let k = if is("initialize") {
                ReplyKind::Initialize
            } else if is("shutdown") {
                ReplyKind::Shutdown
            } else {
                ReplyKind::MethodNotFound
            };
            return LinterAction::Reply(k);
        }
        if is("exit") {
            return LinterAction::Exit;
        }
        let uri: &str = match &m.uri {
            None => return LinterAction::Nothing,
            Some(u) => u.as_str(),
        };
        if is("textDocument/didOpen") {
            let text: String = match &m.text {
                Some(t) => t.clone(),
                None => String::new(),
            };
            let ver: i64 = match m.version {
                Some(x) => x,
                None => 1,
            };
            self.open_doc(uri, text.as_str(), ver);
            let g = self.bump_gen(uri);
            LinterAction::Lint { uri: uri.to_owned(), text, version: ver, generation: g }
        } else if is("textDocument/didChange") {
            if !self.change_doc(uri, &m.changes, m.version) {
                return LinterAction::Nothing;
            }
            let g = self.bump_gen(uri);
            LinterAction::Debounce { uri: uri.to_owned(), generation: g }
        } else if is("textDocument/didSave") {
            if !self.doc_exists(uri) {
                return LinterAction::Nothing;
            }
            let g = self.bump_gen(uri);
            match self.snapshot(uri) {
                Some((text, version, generation)) => LinterAction::Lint {
                    uri: uri.to_owned(),
                    text,
                    version,
                    generation,
                },
                None => LinterAction::Nothing,
            }
        } else if is("textDocument/didClose") {
            match self.close_doc(uri) {
                Some(version) => LinterAction::ClearDiagnostics { uri: uri.to_owned(), version },
                None => LinterAction::Nothing,
            }
        } else {
            LinterAction::Nothing
        }
    }

    /// The end of a debounce armed under `generation`: nothing when the
    /// generation moved since (a newer change or a save superseded it), else
    /// the snapshot to lint.
    pub fn debounce_fired(&self, uri: &str, generation: u64) -> (r: Option<(String, i64, u64)>)
        requires
            self.wf(),
        ensures
            snap_view(r) == (if self@.gens.dom().contains(uri@) && self@.gens[uri@] == generation {
                snapshot_spec(self@, uri@)
            } else {
                None
            }),
    {
        match self.current_gen(uri) {
            Some(g) => if g == generation {
                self.snapshot(uri)
            } else {
                None
            },
            None => None,
        }
    }

    /// The end of a lint started from (`version`, `generation`): publish
    /// when still current; when the document moved but is still open, arm a
    /// new debounce for its current content; else drop the result.
    pub fn lint_finished(&mut self, uri: &str, version: i64, generation: u64) -> (r: LintOutcome)
        requires
            old(self).wf(),
            can_bump(old(self)@, uri@),
        ensures
            final(self).wf(),
            ({
                let v = old(self)@;
                let current = v.docs.dom().contains(uri@) && v.docs[uri@].1 == version
                    && v.gens.dom().contains(uri@) && v.gens[uri@] == generation;
                if current {
                    r == LintOutcome::Publish && same_state(final(self)@, v)
                } else if v.docs.dom().contains(uri@) {
                    r == LintOutcome::Rearm(next_gen(v, uri@)) && final(self)@.gens == v.gens.insert(
                        uri@,
                        next_gen(v, uri@),
                    ) && final(self)@.docs == v.docs
                } else {
                    r == LintOutcome::Drop && same_state(final(self)@, v)
                }
            }),
    {
        if self.is_current(uri, version, generation) {
            LintOutcome::Publish
        } else if self.doc_exists(uri) {
            let g = self.bump_gen(uri);
            LintOutcome::Rearm(g)
        } else {
            LintOutcome::Drop
        }
    }
}

/// What to do with a finished lint.
#[derive(Debug, Clone, Copy, PartialEq, Eq, Structural)]
pub enum LintOutcome {
    /// Publish its diagnostics.
    Publish,
    /// Discard it and debounce a new lint under this generation.
    Rearm(u64),
    /// Discard it (the document was closed).
    Drop,
}

/// A stale debounce never fires: once the generation of a URI was bumped,
/// a debounce armed under the previous generation finds nothing to lint.
pub proof fn lemma_bump_disarms_debounce(v: LintView, u: Seq<char>)
    requires
        can_bump(v, u),
        v.gens.dom().contains(u),
    ensures
        next_gen(v, u) != v.gens[u],
{
}

/// A lint result is published only for the document state it was computed
/// from: after any message that bumps the URI's generation (open, change,
/// save) or closes it, the result of a lint started before is not current.
pub proof fn lemma_no_stale_publication(v: LintView, m: MessageView, version: i64)
    requires
        m.uri matches Some(u) && can_bump(v, u) && v.gens.dom().contains(u),
        !m.is_request,
        handle_spec(v, m).1.0 == 2 || handle_spec(v, m).1.0 == 3 || handle_spec(v, m).1.0 == 4,
    ensures
        ({
            let u = m.uri->Some_0;
            let w = handle_spec(v, m).0;
            !(w.gens.dom().contains(u) && w.gens[u] == v.gens[u])
        }),
{
}


// ── messages and linter output as JSON ──────────────────────────────────────

/// A position `{line, character}` at pointer `p` of the JSON `t`: `None`
/// unless both are integers.
pub open spec fn frame_position(t: Seq<u8>, p: Seq<char>) -> Option<(i64, i64)> {
    match (json_i64_at(t, p + "/line"@), json_i64_at(t, p + "/character"@)) {
        (Some(l), Some(c)) => Some((l, c)),
        _ => None,
    }
}

/// The content change at pointer `c` of the JSON `t`: its string `text`,
/// and its `range` (absent or `null` for none) with both ends.
pub open spec fn frame_change(t: Seq<u8>, c: Seq<char>) -> ChangeView {
    ChangeView {
        text: json_str_at(t, c + "/text"@),
        range: if absent_or_null(json_kind_at(t, c + "/range"@)) {
            None
        } else {
            Some((frame_position(t, c + "/range/start"@), frame_position(t, c + "/range/end"@)))
        },
    }
}

/// The pointer of the `i`-th content change of a message.
pub open spec fn change_pointer(i: nat) -> Seq<char> {
    "/params/contentChanges/"@ + dec(i) + ""@
}

/// What a received frame says, as the server reads it: nothing when it is
/// not JSON or has no string `method`; a request when it has an `id` that
/// is not `null`; the `uri`, `text` and `version` of `params.textDocument`;
/// the entries of `params.contentChanges` when it is an array.
pub open spec fn frame_message(t: Seq<u8>) -> Option<MessageView> {
    match json_str_at(t, "/method"@) {
        None => None,
        Some(method) => Some(
            MessageView {
                method,
                is_request: !absent_or_null(json_kind_at(t, "/id"@)),
                uri: json_str_at(t, "/params/textDocument/uri"@),
                text: json_str_at(t, "/params/textDocument/text"@),
                version: json_i64_at(t, "/params/textDocument/version"@),
                changes: match json_kind_at(t, "/params/contentChanges"@) {
                    JsonKind::Array(n) => Seq::new(n as nat, |i: int| frame_change(t, change_pointer(i as nat))),
                    _ => Seq::empty(),
                },
            },
        ),
    }
}

fn read_position(t: &[u8], p: &str) -> (r: Option<(i64, i64)>)
    ensures
        r == frame_position(t@, p@),
{
    let lp = joined_pointer(p, "/line");
    let cp = joined_pointer(p, "/character");
    match (i64_at(t, lp.as_str()), i64_at(t, cp.as_str())) {
        (Some(l), Some(c)) => Some((l, c)),
        _ => None,
    }
}

fn read_change(t: &[u8], i: usize) -> (r: ContentChange)
    ensures
        change_view(r) == frame_change(t@, change_pointer(i as nat)),
{
    let c = indexed_pointer("/params/contentChanges/", i, "");
    let tp = joined_pointer(c.as_str(), "/text");
    let rp = joined_pointer(c.as_str(), "/range");
    let sp = joined_pointer(c.as_str(), "/range/start");
    let ep = joined_pointer(c.as_str(), "/range/end");
    let text = str_at(t, tp.as_str());
    let k = kind_at(t, rp.as_str());
    let range = if k == JsonKind::Absent || k == JsonKind::Null {
        None
    } else {
        Some((read_position(t, sp.as_str()), read_position(t, ep.as_str())))
    };
    ContentChange { text, range }
}

/// Reads a received frame (see `frame_message`).
pub fn read_linter_message(frame: &[u8]) -> (r: Option<LinterMessage>)
    ensures
        opt_message_view(r) == frame_message(frame@),
{
    let method = match str_at(frame, "/method") {
        Some(m) => m,
        None => return None,
    };
    let id = kind_at(frame, "/id");
    let is_request = !(id == JsonKind::Absent || id == JsonKind::Null);
    let uri = str_at(frame, "/params/textDocument/uri");
    let text = str_at(frame, "/params/textDocument/text");
    let version = i64_at(frame, "/params/textDocument/version");
    let mut changes: Vec<ContentChange> = Vec::new();
    let ghost want = match json_kind_at(frame@, "/params/contentChanges"@) {
        JsonKind::Array(n) => Seq::new(n as nat, |i: int| frame_change(frame@, change_pointer(i as nat))),
        _ => Seq::<ChangeView>::empty(),
    };
    match kind_at(frame, "/params/contentChanges") {
        JsonKind::Array(n) => {
            let mut i: usize = 0;
            while i < n
                invariant
                    i <= n,
                    want.len() == n,
                    forall|k: int| 0 <= k < n ==> #[trigger] want[k] == frame_change(frame@, change_pointer(k as nat)),
                    changes_view(changes@) =~= want.take(i as int),
                decreases n - i,
            {
                let c = read_change(frame, i);
                let ghost before = changes_view(changes@);
                changes.push(c);
                proof {
                    assert(changes_view(changes@) =~= before.push(change_view(c)));
                    assert(want.take(i + 1) =~= want.take(i as int).push(want[i as int]));
                }
                i = i + 1;
            }
            assert(want.take(n as int) =~= want);
        },
        _ => {},
    }
    let r = LinterMessage { method, is_request, uri, text, version, changes };
    assert(message_view(r) =~= frame_message(frame@)->Some_0);
    Some(r)
}

/// Handles one received frame: a frame that says nothing (see
/// `frame_message`), or names a document whose generation can no longer be
/// bumped, changes nothing; any other is handled as `handle_spec` says.
pub fn handle_frame(book: &mut LintBook, frame: &[u8]) -> (a: LinterAction)
    requires
        old(book).wf(),
    ensures
        final(book).wf(),
        match frame_message(frame@) {
            None => a is Nothing && same_state(final(book)@, old(book)@),
            Some(m) => if m.uri matches Some(u) && !can_bump(old(book)@, u) {
                a is Nothing && same_state(final(book)@, old(book)@)
            } else {
                same_state(final(book)@, handle_spec(old(book)@, m).0) && action_view(a) == handle_spec(
                    old(book)@,
                    m,
                ).1
            },
        },
{
    let m = match read_linter_message(frame) {
        Some(m) => m,
        None => return LinterAction::Nothing,
    };
    if let Some(u) = &m.uri {
        if !book.can_bump_gen(u.as_str()) {
            return LinterAction::Nothing;
        }
    }
    book.handle_message(&m)
}

/// A JSON text that is an object.
pub open spec fn is_json_object(item: Seq<char>) -> bool {
    json_kind_at(encode_utf8(item), ""@) == JsonKind::Object
}

/// The objects among array elements, in order.
pub open spec fn object_items(items: Seq<Seq<char>>) -> Seq<Seq<char>> {
    items.filter(|it: Seq<char>| is_json_object(it))
}

/// A hadolint entry read from its JSON text: `line` and `column` when
/// integers, `level` and `message` when strings, `code` as the JSON text of
/// whatever value is there.
pub open spec fn hadolint_entry(item: Seq<char>) -> HadolintView {
    let t = encode_utf8(item);
    HadolintView {
        line: json_i64_at(t, "/line"@),
        column: json_i64_at(t, "/column"@),
        level: json_str_at(t, "/level"@),
        code: json_text_at(t, "/code"@),
        message: json_str_at(t, "/message"@),
    }
}

/// The findings of `hadolint --format json` output: one per object of the
/// top-level array; `None` when the output is not a JSON array.
pub open spec fn hadolint_output_findings(out: Seq<char>) -> Option<Seq<HadolintView>> {
    match json_array_items(out) {
        Some(items) => Some(object_items(items).map_values(|it: Seq<char>| hadolint_entry(it))),
        None => None,
    }
}

/// A ruff entry read from its JSON text: `filename` (inner `None` when not
/// a string), `location.row` and `location.column` when integers,
/// `end_location` when its `row` is an integer, the strings `message`,
/// `severity` and `url`, and `code` as the JSON text of its value when it
/// is there and not `null`.
pub open spec fn ruff_entry(item: Seq<char>) -> RuffView {
    let t = encode_utf8(item);
    RuffView {
        filename: if json_kind_at(t, "/filename"@) == JsonKind::Absent {
            None
        } else {
            Some(json_str_at(t, "/filename"@))
        },
        row: json_i64_at(t, "/location/row"@),
        column: json_i64_at(t, "/location/column"@),
        end: match json_i64_at(t, "/end_location/row"@) {
            Some(r) => Some((r, json_i64_at(t, "/end_location/column"@))),
            None => None,
        },
        message: json_str_at(t, "/message"@),
        code: if absent_or_null(json_kind_at(t, "/code"@)) {
            None
        } else {
            json_text_at(t, "/code"@)
        },
        severity: json_str_at(t, "/severity"@),
        url: json_str_at(t, "/url"@),
    }
}

/// The findings of `ruff check --output-format json` output: one per object
/// of the top-level array; `None` when the output is not a JSON array.
pub open spec fn ruff_output_findings(out: Seq<char>) -> Option<Seq<RuffView>> {
    match json_array_items(out) {
        Some(items) => Some(object_items(items).map_values(|it: Seq<char>| ruff_entry(it))),
        None => None,
    }
}

fn read_hadolint_entry(item: &String) -> (r: HadolintFinding)
    ensures
        hadolint_view(r) == hadolint_entry(item@),
{
    let t = item.as_str().as_bytes();
    HadolintFinding {
        line: i64_at(t, "/line"),
        column: i64_at(t, "/column"),
        level: str_at(t, "/level"),
        code: text_at(t, "/code"),
        message: str_at(t, "/message"),
    }
}

fn read_ruff_entry(item: &String) -> (r: RuffFinding)
    ensures
        ruff_view(r) == ruff_entry(item@),
{
    let t = item.as_str().as_bytes();
    let filename = if kind_at(t, "/filename") == JsonKind::Absent {
        None
    } else {
        Some(str_at(t, "/filename"))
    };
    let end = match i64_at(t, "/end_location/row") {
        Some(r) => Some((r, i64_at(t, "/end_location/column"))),
        None => None,
    };
    let ck = kind_at(t, "/code");
    let code = if ck == JsonKind::Absent || ck == JsonKind::Null {
        None
    } else {
        text_at(t, "/code")
    };
    let r = RuffFinding {
        filename,
        row: i64_at(t, "/location/row"),
        column: i64_at(t, "/location/column"),
        end,
        message: str_at(t, "/message"),
        code,
        severity: str_at(t, "/severity"),
        url: str_at(t, "/url"),
    };
    assert(ruff_view(r) =~= ruff_entry(item@));
    r
}

/// Whether an element of the linter output is an object.
fn is_object_item(item: &String) -> (b: bool)
    ensures
        b == is_json_object(item@),
{
    kind_at(item.as_str().as_bytes(), "") == JsonKind::Object
}

/// Reads the findings of hadolint's JSON output (see
/// `hadolint_output_findings`).
pub fn read_hadolint_output(out: &str) -> (r: Option<Vec<HadolintFinding>>)
    ensures
        match hadolint_output_findings(out@) {
            Some(fs) => r matches Some(v) && hadolint_views(v@) == fs,
            None => r is None,
        },
{
    let items = match array_items(out) {
        Some(v) => v,
        None => return None,
    };
    let ghost iv = items@.map_values(|s: String| s@);
    let mut fs: Vec<HadolintFinding> = Vec::new();
    let mut i: usize = 0;
    while i < items.len()
        invariant
            i <= items@.len(),
            iv == items@.map_values(|s: String| s@),
            hadolint_views(fs@) =~= object_items(iv.take(i as int)).map_values(|it: Seq<char>| hadolint_entry(it)),
        decreases items.len() - i,
    {
        proof {
            assert(iv.take(i + 1).drop_last() =~= iv.take(i as int));
            assert(iv.take(i + 1).last() == items@[i as int]@);
        }
        let ghost before = hadolint_views(fs@);
        let ghost prev = object_items(iv.take(i as int));
        proof {
            assert(iv.take(i + 1) =~= iv.take(i as int).push(iv[i as int]));
            iv.take(i as int).lemma_filter_push(iv[i as int], |it: Seq<char>| is_json_object(it));
            assert(object_items(iv.take(i + 1)) == if is_json_object(iv[i as int]) {
                prev.push(iv[i as int])
            } else {
                prev
            });
        }
        if is_object_item(&items[i]) {
            let f = read_hadolint_entry(&items[i]);
            fs.push(f);
            proof {
                assert(hadolint_views(fs@) =~= before.push(hadolint_view(f)));
                assert(prev.push(iv[i as int]).map_values(|it: Seq<char>| hadolint_entry(it)) =~= prev.map_values(
                    |it: Seq<char>| hadolint_entry(it),
                ).push(hadolint_entry(iv[i as int])));
            }
        }
        i = i + 1;
    }
    assert(iv.take(items@.len() as int) =~= iv);
    Some(fs)
}

/// Reads the findings of ruff's JSON output (see `ruff_output_findings`).
pub fn read_ruff_output(out: &str) -> (r: Option<Vec<RuffFinding>>)
    ensures
        match ruff_output_findings(out@) {
            Some(fs) => r matches Some(v) && ruff_views(v@) == fs,
            None => r is None,
        },
{
    let items = match array_items(out) {
        Some(v) => v,
        None => return None,
    };
    let ghost iv = items@.map_values(|s: String| s@);
    let mut fs: Vec<RuffFinding> = Vec::new();
    let mut i: usize = 0;
    while i < items.len()
        invariant
            i <= items@.len(),
            iv == items@.map_values(|s: String| s@),
            ruff_views(fs@) =~= object_items(iv.take(i as int)).map_values(|it: Seq<char>| ruff_entry(it)),
        decreases items.len() - i,
    {
        proof {
            assert(iv.take(i + 1).drop_last() =~= iv.take(i as int));
            assert(iv.take(i + 1).last() == items@[i as int]@);
        }
        let ghost before = ruff_views(fs@);
        let ghost prev = object_items(iv.take(i as int));
        proof {
            assert(iv.take(i + 1) =~= iv.take(i as int).push(iv[i as int]));
            iv.take(i as int).lemma_filter_push(iv[i as int], |it: Seq<char>| is_json_object(it));
            assert(object_items(iv.take(i + 1)) == if is_json_object(iv[i as int]) {
                prev.push(iv[i as int])
            } else {
                prev
            });
        }
        if is_object_item(&items[i]) {
            let f = read_ruff_entry(&items[i]);
            fs.push(f);
            proof {
                assert(ruff_views(fs@) =~= before.push(ruff_view(f)));
                assert(prev.push(iv[i as int]).map_values(|it: Seq<char>| ruff_entry(it)) =~= prev.map_values(
                    |it: Seq<char>| ruff_entry(it),
                ).push(ruff_entry(iv[i as int])));
            }
        }
        i = i + 1;
    }
    assert(iv.take(items@.len() as int) =~= iv);
    Some(fs)
}

/// The diagnostics of hadolint's JSON output on the linted document:
/// nothing when the output is not a JSON array, else those of its findings
/// (see `convert_hadolint_findings`).
pub fn convert_hadolint_output(out: &str, doc_text: &str) -> (r: Vec<LintDiagnostic>)
    requires
        utf8_len(doc_text@) <= usize::MAX,
    ensures
        diag_views(r@) == match hadolint_output_findings(out@) {
            Some(fs) => hadolint_diags(fs, split(doc_text@, '\n')),
            None => Seq::empty(),
        },
{
    match read_hadolint_output(out) {
        Some(fs) => convert_hadolint_findings(&fs, doc_text),
        None => {
            let r: Vec<LintDiagnostic> = Vec::new();
            assert(diag_views(r@) =~= Seq::empty());
            r
        },
    }
}

/// The diagnostics of ruff's JSON output on the linted document: nothing
/// when the output is not a JSON array, else those of its findings (see
/// `convert_ruff_findings`).
pub fn convert_ruff_output(ruff_json: &str, doc_text: &str) -> (r: Vec<LintDiagnostic>)
    requires
        utf8_len(doc_text@) <= usize::MAX,
    ensures
        diag_views(r@) == match ruff_output_findings(ruff_json@) {
            Some(fs) => ruff_diags(fs, split(doc_text@, '\n')),
            None => Seq::empty(),
        },
{
    match read_ruff_output(ruff_json) {
        Some(fs) => convert_ruff_findings(&fs, doc_text),
        None => {
            let r: Vec<LintDiagnostic> = Vec::new();
            assert(diag_views(r@) =~= Seq::empty());
            r
        },
    }
}

} // verus!
