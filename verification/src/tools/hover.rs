//! Hover contents: the three LSP shapes (`MarkedString`, `MarkedString[]`,
//! `MarkupContent`) flattened to text, split into code and prose, and turned
//! into a signature and a short documentation.

use vstd::prelude::*;
use crate::text::{chars_of, copy_range, is_whitespace, is_ws, join_chars, join_with, lemma_lead_ws_is, lines, lines_of, starts_with, starts_with_chars, string_of, trim, trim_chars, trim_start, views};

verus! {

/// One JSON value of a hover: a string, or any other value through its
/// `language` and `value` fields (each absent when missing or not a string).
#[derive(Debug, Clone, PartialEq, Eq)]
pub enum HoverValue {
    Text(String),
    Entry { language: Option<String>, value: Option<String> },
}

/// `hover.contents`: an array of values, or a single value.
#[derive(Debug, Clone, PartialEq, Eq)]
pub enum HoverContents {
    Many(Vec<HoverValue>),
    One(HoverValue),
}

/// A piece of hover contents: code (from a `{language, value}` entry) or
/// prose (which may hold fenced code blocks itself).
#[derive(Debug, Clone, PartialEq, Eq)]
pub enum HoverSegment {
    Code(String),
    Prose(String),
}

/// The text of a value: the string itself, else its `value` field (empty
/// when absent).
pub open spec fn value_text(v: HoverValue) -> Seq<char> {
    match v {
        HoverValue::Text(s) => s@,
        HoverValue::Entry { value, .. } => match value {
            Some(x) => x@,
            None => seq![],
        },
    }
}

/// The non-empty texts of a list of values.
pub open spec fn non_empty_texts(vs: Seq<HoverValue>) -> Seq<Seq<char>> {
    vs.map_values(|v: HoverValue| value_text(v)).filter(|t: Seq<char>| t.len() > 0)
}

/// The hover contents flattened to text: the non-empty texts of an array
/// joined by newlines, or the text of the single value.
pub open spec fn contents_text(c: HoverContents) -> Seq<char> {
    match c {
        HoverContents::Many(vs) => join_with(non_empty_texts(vs@), "\n"@),
        HoverContents::One(v) => value_text(v),
    }
}

/// A value is a code entry when its `language` is a string.
pub open spec fn is_code(v: HoverValue) -> bool {
    match v {
        HoverValue::Entry { language, .. } => language is Some,
        _ => false,
    }
}

/// The segment of one array element: code (when not empty) for a code
/// entry, else prose (when not empty).
pub open spec fn element_segment(v: HoverValue) -> Option<(bool, Seq<char>)> {
    if value_text(v).len() == 0 {
        None
    } else {
        Some((is_code(v), value_text(v)))
    }
}

/// The segments of a list of values, in order.
pub open spec fn element_segments(vs: Seq<HoverValue>) -> Seq<(bool, Seq<char>)>
    decreases vs.len(),
{
    if vs.len() == 0 {
        seq![]
    } else {
        let prev = element_segments(vs.drop_last());
        match element_segment(vs.last()) {
            Some(s) => prev.push(s),
            None => prev,
        }
    }
}

/// The segments of hover contents, as (is code, text): an array gives one
/// per non-empty element; a single code entry gives its code; anything else
/// its flattened text as prose. Empty texts give no segment.
pub open spec fn segments_spec(c: HoverContents) -> Seq<(bool, Seq<char>)> {
    match c {
        HoverContents::Many(vs) => element_segments(vs@),
        HoverContents::One(v) => {
            if contents_text(c).len() == 0 {
                seq![]
            } else {
                seq![(is_code(v), contents_text(c))]
            }
        },
    }
}

/// The view of segments.
pub open spec fn segments_view(v: Seq<HoverSegment>) -> Seq<(bool, Seq<char>)> {
    v.map_values(
        |s: HoverSegment| match s {
            HoverSegment::Code(c) => (true, c@),
            HoverSegment::Prose(p) => (false, p@),
        },
    )
}

/// The text of a value.
fn text_of(v: &HoverValue) -> (r: Vec<char>)
    ensures
        r@ == value_text(*v),
{
    match v {
        HoverValue::Text(s) => chars_of(s.as_str()),
        HoverValue::Entry { value, .. } => match value {
            Some(x) => chars_of(x.as_str()),
            None => Vec::new(),
        },
    }
}

/// Whether a value is a code entry.
fn code_entry(v: &HoverValue) -> (b: bool)
    ensures
        b == is_code(*v),
{
    match v {
        HoverValue::Entry { language, .. } => language.is_some(),
        _ => false,
    }
}

/// Hover contents flattened to text.
pub fn hover_contents_to_text(contents: &HoverContents) -> (r: String)
    ensures
        r@ == contents_text(*contents),
{
    match contents {
        HoverContents::Many(vs) => {
            let ghost all = vs@.map_values(|v: HoverValue| value_text(v));
            let mut texts: Vec<Vec<char>> = Vec::new();
            let mut i: usize = 0;
            while i < vs.len()
                invariant
                    i <= vs@.len(),
                    all == vs@.map_values(|v: HoverValue| value_text(v)),
                    views(texts@) == all.take(i as int).filter(|t: Seq<char>| t.len() > 0),
                decreases vs.len() - i,
            {
                let t = text_of(&vs[i]);
                let ghost before = views(texts@);
                proof {
                    assert(all.take(i + 1) =~= all.take(i as int).push(all[i as int]));
                    all.take(i as int).lemma_filter_push(all[i as int], |t: Seq<char>| t.len() > 0);
                }
                if t.len() > 0 {
                    texts.push(t);
                    assert(views(texts@) =~= before.push(all[i as int]));
                }
                i = i + 1;
            }
            assert(all.take(vs@.len() as int) =~= all);
            let sep = chars_of("\n");
            let joined = join_chars(&texts, sep.as_slice());
            string_of(joined.as_slice())
        },
        HoverContents::One(v) => {
            let t = text_of(v);
            string_of(t.as_slice())
        },
    }
}

/// The code and prose segments of hover contents, in order.
pub fn hover_segments(contents: &HoverContents) -> (r: Vec<HoverSegment>)
    ensures
        segments_view(r@) == segments_spec(*contents),
{
    match contents {
        HoverContents::Many(vs) => {
            let mut r: Vec<HoverSegment> = Vec::new();
            let mut i: usize = 0;
            while i < vs.len()
                invariant
                    i <= vs@.len(),
                    segments_view(r@) == element_segments(vs@.take(i as int)),
                decreases vs.len() - i,
            {
                proof {
                    assert(vs@.take(i + 1).drop_last() =~= vs@.take(i as int));
                    assert(vs@.take(i + 1).last() == vs@[i as int]);
                }
                let ghost before = segments_view(r@);
                let t = text_of(&vs[i]);
                if t.len() > 0 {
                    let s = string_of(t.as_slice());
                    if code_entry(&vs[i]) {
                        r.push(HoverSegment::Code(s));
                    } else {
                        r.push(HoverSegment::Prose(s));
                    }
                    assert(segments_view(r@) =~= before.push((is_code(vs@[i as int]), value_text(vs@[i as int]))));
                }
                i = i + 1;
            }
            assert(vs@.take(vs@.len() as int) =~= vs@);
            r
        },
        HoverContents::One(v) => {
            let t = text_of(v);
            if t.len() == 0 {
                let r: Vec<HoverSegment> = Vec::new();
                assert(segments_view(r@) =~= segments_spec(*contents));
                r
            } else {
                let s = string_of(t.as_slice());
                let seg = if code_entry(v) {
                    HoverSegment::Code(s)
                } else {
                    HoverSegment::Prose(s)
                };
                let r = vec![seg];
                assert(segments_view(r@) =~= segments_spec(*contents));
                r
            }
        },
    }
}

// ── fenced code blocks ──────────────────────────────────────────────────────

/// A fence line: ```` ``` ```` after optional leading whitespace.
pub open spec fn is_fence(line: Seq<char>) -> bool {
    starts_with(trim_start(line), "```"@)
}

/// The state of the scan for fenced blocks: blocks found, prose lines, and
/// the lines of the block being read, if a fence is open.
pub type FenceState = (Seq<Seq<char>>, Seq<Seq<char>>, Option<Seq<Seq<char>>>);

/// One line of the scan: a fence opens a block or closes the open one (an
/// empty or blank block goes back to prose); any other line goes to the
/// open block or to prose.
pub open spec fn fence_step(st: FenceState, line: Seq<char>) -> FenceState {
    let (blocks, prose, open) = st;
    if is_fence(line) {
        match open {
            Some(buf) => {
                let block = join_with(buf, "\n"@);
                if trim(block).len() == 0 {
                    (blocks, prose + buf, None)
                } else {
                    (blocks.push(block), prose, None)
                }
            },
            None => (blocks, prose, Some(seq![])),
        }
    } else {
        match open {
            Some(buf) => (blocks, prose, Some(buf.push(line))),
            None => (blocks, prose.push(line), None),
        }
    }
}

/// The scan over lines.
pub open spec fn fence_scan(ls: Seq<Seq<char>>) -> FenceState
    decreases ls.len(),
{
    if ls.len() == 0 {
        (seq![], seq![], None)
    } else {
        fence_step(fence_scan(ls.drop_last()), ls.last())
    }
}

/// The fenced code blocks of a text and its remaining prose lines: fence
/// lines never go to the prose, a fence left open is no block (its lines go
/// back to prose) and neither is a blank block.
pub open spec fn split_fenced_spec(text: Seq<char>) -> (Seq<Seq<char>>, Seq<Seq<char>>) {
    let (blocks, prose, open) = fence_scan(lines(text));
    match open {
        Some(buf) => (blocks, prose + buf),
        None => (blocks, prose),
    }
}

/// What the scan keeps as it goes: no prose line and no line of an open
/// block is a fence, and every block is non-blank.
pub open spec fn fence_scan_inv(st: FenceState) -> bool {
    let (blocks, prose, open) = st;
    &&& forall|i: int| 0 <= i < prose.len() ==> !is_fence(#[trigger] prose[i])
    &&& (open matches Some(buf) ==> forall|i: int| 0 <= i < buf.len() ==> !is_fence(#[trigger] buf[i]))
    &&& forall|i: int| 0 <= i < blocks.len() ==> trim(#[trigger] blocks[i]).len() > 0
}

proof fn lemma_fence_scan_inv(ls: Seq<Seq<char>>)
    ensures
        fence_scan_inv(fence_scan(ls)),
    decreases ls.len(),
{
    if ls.len() > 0 {
        lemma_fence_scan_inv(ls.drop_last());
        let (blocks, prose, open) = fence_scan(ls.drop_last());
        let line = ls.last();
        match open {
            Some(buf) => {
                assert forall|i: int| 0 <= i < (prose + buf).len() implies !is_fence(#[trigger] (prose + buf)[i]) by {
                    if i < prose.len() {
                        assert((prose + buf)[i] == prose[i]);
                    } else {
                        assert((prose + buf)[i] == buf[i - prose.len()]);
                    }
                }
                assert forall|i: int| 0 <= i < buf.push(line).len() && !is_fence(line) implies !is_fence(#[trigger] buf.push(line)[i]) by {
                    if i < buf.len() {
                        assert(buf.push(line)[i] == buf[i]);
                    }
                }
                let block = join_with(buf, "\n"@);
                assert forall|i: int| 0 <= i < blocks.push(block).len() && trim(block).len() > 0 implies trim(#[trigger] blocks.push(block)[i]).len() > 0 by {
                    if i < blocks.len() {
                        assert(blocks.push(block)[i] == blocks[i]);
                    }
                }
            },
            None => {
                assert forall|i: int| 0 <= i < prose.push(line).len() && !is_fence(line) implies !is_fence(#[trigger] prose.push(line)[i]) by {
                    if i < prose.len() {
                        assert(prose.push(line)[i] == prose[i]);
                    }
                }
            },
        }
    }
}

/// Fence lines never reach the prose, and every code block found holds
/// something other than whitespace.
pub proof fn lemma_split_fenced_no_fence_in_prose(text: Seq<char>)
    ensures
        forall|i: int| 0 <= i < split_fenced_spec(text).1.len() ==> !is_fence(#[trigger] split_fenced_spec(text).1[i]),
        forall|i: int| 0 <= i < split_fenced_spec(text).0.len() ==> trim(#[trigger] split_fenced_spec(text).0[i]).len() > 0,
{
    lemma_fence_scan_inv(lines(text));
    let (blocks, prose, open) = fence_scan(lines(text));
    if let Some(buf) = open {
        assert forall|i: int| 0 <= i < (prose + buf).len() implies !is_fence(#[trigger] (prose + buf)[i]) by {
            if i < prose.len() {
                assert((prose + buf)[i] == prose[i]);
            } else {
                assert((prose + buf)[i] == buf[i - prose.len()]);
            }
        }
    }
}

/// The lines of each block the scan found, in order.
pub open spec fn fence_block_lines(ls: Seq<Seq<char>>) -> Seq<Seq<Seq<char>>>
    decreases ls.len(),
{
    if ls.len() == 0 {
        seq![]
    } else {
        let prev = fence_block_lines(ls.drop_last());
        let line = ls.last();
        match fence_scan(ls.drop_last()).2 {
            Some(buf) => if is_fence(line) && trim(join_with(buf, "\n"@)).len() > 0 {
                prev.push(buf)
            } else {
                prev
            },
            None => prev,
        }
    }
}

/// The number of lines of all blocks.
pub open spec fn block_line_total(bs: Seq<Seq<Seq<char>>>) -> nat
    decreases bs.len(),
{
    if bs.len() == 0 {
        0
    } else {
        block_line_total(bs.drop_last()) + bs.last().len()
    }
}

/// How many lines are not fences.
pub open spec fn non_fence_count(ls: Seq<Seq<char>>) -> nat
    decreases ls.len(),
{
    if ls.len() == 0 {
        0
    } else {
        non_fence_count(ls.drop_last()) + if is_fence(ls.last()) {
            0nat
        } else {
            1nat
        }
    }
}

/// The lines of the open block, if any.
pub open spec fn open_len(o: Option<Seq<Seq<char>>>) -> nat {
    match o {
        Some(b) => b.len(),
        None => 0,
    }
}

proof fn lemma_fence_scan_lines(ls: Seq<Seq<char>>)
    ensures
        ({
            let (blocks, prose, open) = fence_scan(ls);
            let bl = fence_block_lines(ls);
            &&& blocks.len() == bl.len()
            &&& forall|i: int| 0 <= i < bl.len() ==> #[trigger] blocks[i] == join_with(bl[i], "\n"@)
            &&& forall|i: int, j: int| 0 <= i < bl.len() && 0 <= j < bl[i].len() ==> !is_fence(#[trigger] bl[i][j])
            &&& (open matches Some(buf) ==> forall|j: int| 0 <= j < buf.len() ==> !is_fence(#[trigger] buf[j]))
            &&& prose.len() + block_line_total(bl) + open_len(open) == non_fence_count(ls)
        }),
    decreases ls.len(),
{
    if ls.len() > 0 {
        let pre = ls.drop_last();
        lemma_fence_scan_lines(pre);
        let (blocks, prose, open) = fence_scan(pre);
        let bl = fence_block_lines(pre);
        let line = ls.last();
        match open {
            Some(buf) => {
                if is_fence(line) {
                    let block = join_with(buf, "\n"@);
                    if trim(block).len() > 0 {
                        assert(bl.push(buf).drop_last() =~= bl);
                        assert forall|i: int| 0 <= i < bl.push(buf).len() implies #[trigger] blocks.push(block)[i]
                            == join_with(bl.push(buf)[i], "\n"@) by {
                            if i < bl.len() {
                                assert(blocks.push(block)[i] == blocks[i]);
                                assert(bl.push(buf)[i] == bl[i]);
                            }
                        }
                        assert forall|i: int, j: int| 0 <= i < bl.push(buf).len() && 0 <= j < bl.push(buf)[i].len()
                            implies !is_fence(#[trigger] bl.push(buf)[i][j]) by {
                            if i < bl.len() {
                                assert(bl.push(buf)[i] == bl[i]);
                            }
                        }
                    }
                } else {
                    assert forall|j: int| 0 <= j < buf.push(line).len() implies !is_fence(#[trigger] buf.push(line)[j]) by {
                        if j < buf.len() {
                            assert(buf.push(line)[j] == buf[j]);
                        }
                    }
                }
            },
            None => {},
        }
    }
}

/// The split keeps every line that is not a fence, and only those: each
/// block is the join of its lines, none of them a fence, and the prose lines
/// and the lines of the blocks together are as many as the non-fence lines
/// of the text.
pub proof fn lemma_split_fenced_drops_only_fences(text: Seq<char>)
    ensures
        ({
            let (blocks, prose) = split_fenced_spec(text);
            let bl = fence_block_lines(lines(text));
            &&& blocks.len() == bl.len()
            &&& forall|i: int| 0 <= i < bl.len() ==> #[trigger] blocks[i] == join_with(bl[i], "\n"@)
            &&& forall|i: int, j: int| 0 <= i < bl.len() && 0 <= j < bl[i].len() ==> !is_fence(#[trigger] bl[i][j])
            &&& prose.len() + block_line_total(bl) == non_fence_count(lines(text))
        }),
{
    lemma_fence_scan_lines(lines(text));
}

/// `a` is `b` with some elements left out, the others in their order:
/// matched from the end, an element of `b` either is the last one of `a`
/// still unmatched or is left out.
pub open spec fn is_subsequence<A>(a: Seq<A>, b: Seq<A>) -> bool
    decreases b.len(),
{
    if a.len() == 0 {
        true
    } else if b.len() == 0 {
        false
    } else if a.last() == b.last() {
        is_subsequence(a.drop_last(), b.drop_last())
    } else {
        is_subsequence(a, b.drop_last())
    }
}

/// The lines that are not fences, in order.
pub open spec fn non_fence_lines(ls: Seq<Seq<char>>) -> Seq<Seq<char>>
    decreases ls.len(),
{
    if ls.len() == 0 {
        seq![]
    } else if is_fence(ls.last()) {
        non_fence_lines(ls.drop_last())
    } else {
        non_fence_lines(ls.drop_last()).push(ls.last())
    }
}

proof fn lemma_subsequence_push<A>(a: Seq<A>, b: Seq<A>, e: A)
    requires
        is_subsequence(a, b),
    ensures
        is_subsequence(a, b.push(e)),
    decreases b.len(), 2nat,
{
    assert(b.push(e).drop_last() =~= b);
    if a.len() > 0 && a.last() == e {
        lemma_subsequence_drop_last(a, b);
    }
}

proof fn lemma_subsequence_drop_last<A>(a: Seq<A>, b: Seq<A>)
    requires
        is_subsequence(a, b),
        a.len() > 0,
    ensures
        is_subsequence(a.drop_last(), b),
    decreases b.len(), 1nat,
{
    let b0 = b.drop_last();
    assert(b0.push(b.last()) =~= b);
    if a.last() == b.last() {
        lemma_subsequence_push(a.drop_last(), b0, b.last());
    } else {
        lemma_subsequence_drop_last(a, b0);
        lemma_subsequence_push(a.drop_last(), b0, b.last());
    }
}

proof fn lemma_subsequence_drop_suffix<A>(a: Seq<A>, c: Seq<A>, b: Seq<A>)
    requires
        is_subsequence(a + c, b),
    ensures
        is_subsequence(a, b),
    decreases c.len(),
{
    if c.len() == 0 {
        assert(a + c =~= a);
    } else {
        lemma_subsequence_drop_last(a + c, b);
        assert((a + c).drop_last() =~= a + c.drop_last());
        lemma_subsequence_drop_suffix(a, c.drop_last(), b);
    }
}

/// The prose lines and the lines of the open block, if any.
pub open spec fn prose_and_open(st: FenceState) -> Seq<Seq<char>> {
    match st.2 {
        Some(buf) => st.1 + buf,
        None => st.1,
    }
}

proof fn lemma_fence_scan_order(ls: Seq<Seq<char>>)
    ensures
        is_subsequence(prose_and_open(fence_scan(ls)), non_fence_lines(ls)),
    decreases ls.len(),
{
    if ls.len() > 0 {
        let pre = ls.drop_last();
        lemma_fence_scan_order(pre);
        let (blocks, prose, open) = fence_scan(pre);
        let line = ls.last();
        let n = non_fence_lines(pre);
        if is_fence(line) {
            match open {
                Some(buf) => {
                    if trim(join_with(buf, "\n"@)).len() > 0 {
                        lemma_subsequence_drop_suffix(prose, buf, n);
                    }
                },
                None => {},
            }
        } else {
            let p = prose_and_open(fence_scan(pre));
            assert(p.push(line).drop_last() =~= p);
            assert(n.push(line).drop_last() =~= n);
            match open {
                Some(buf) => {
                    assert(prose + buf.push(line) =~= p.push(line));
                },
                None => {},
            }
        }
    }
}

/// The prose keeps the order of the text: its lines are the non-fence
/// lines of the text with some left out (those of the code blocks), the
/// others in the order they come in.
pub proof fn lemma_split_fenced_prose_in_order(text: Seq<char>)
    ensures
        is_subsequence(split_fenced_spec(text).1, non_fence_lines(lines(text))),
{
    lemma_fence_scan_order(lines(text));
}

/// Appends every vector of `src` to `dst`.
fn extend_lines(dst: &mut Vec<Vec<char>>, src: Vec<Vec<char>>)
    ensures
        views(final(dst)@) == views(old(dst)@) + views(src@),
{
    let mut i: usize = 0;
    let ghost d0 = views(dst@);
    let ghost s0 = views(src@);
    let mut src = src;
    let n = src.len();
    assert(n == s0.len());
    assert(s0.take(0) =~= Seq::<Seq<char>>::empty());
    while src.len() > 0
        invariant
            s0.len() <= usize::MAX,
            i + src@.len() == s0.len(),
            views(src@) == s0.skip(i as int),
            views(dst@) == d0 + s0.take(i as int),
        decreases src.len(),
    {
        let ghost old_src = src@;
        let x = src.remove(0);
        proof {
            assert(x == old_src[0]);
            assert(views(old_src)[0] == old_src[0]@);
            assert(s0.skip(i as int)[0] == s0[i as int]);
            assert(x@ == s0[i as int]);
            assert(src@ =~= old_src.subrange(1, old_src.len() as int));
            assert forall|k: int| 0 <= k < views(src@).len() implies views(src@)[k] == s0.skip(i + 1)[k] by {
                assert(views(src@)[k] == src@[k]@);
                assert(src@[k] == old_src[k + 1]);
                assert(views(old_src)[k + 1] == old_src[k + 1]@);
                assert(s0.skip(i as int)[k + 1] == s0[i + 1 + k]);
            }
            assert(views(src@) =~= s0.skip(i + 1));
        }
        let ghost before = views(dst@);
        dst.push(x);
        assert(views(dst@) =~= before.push(s0[i as int]));
        assert(s0.take(i + 1) =~= s0.take(i as int).push(s0[i as int]));
        i = i + 1;
    }
    assert(s0.take(i as int) =~= s0);
}

/// Splits a text (markdown or plain) into its fenced code blocks (fences
/// removed) and its remaining prose lines.
pub fn split_fenced_code_blocks(text: &str) -> (r: (Vec<String>, Vec<String>))
    ensures
        views_of_strings(r.0@) == split_fenced_spec(text@).0,
        views_of_strings(r.1@) == split_fenced_spec(text@).1,
{
    let t = chars_of(text);
    let ls = lines_of(t.as_slice());
    let ghost all = lines(text@);
    let fence = chars_of("```");
    let nl = chars_of("\n");
    let mut blocks: Vec<Vec<char>> = Vec::new();
    let mut prose: Vec<Vec<char>> = Vec::new();
    let mut open: Option<Vec<Vec<char>>> = None;
    let mut i: usize = 0;
    while i < ls.len()
        invariant
            i <= ls@.len(),
            views(ls@) == all,
            all == lines(text@),
            fence@ == "```"@,
            nl@ == "\n"@,
            fence_scan(all.take(i as int)) == (
                views(blocks@),
                views(prose@),
                match open {
                    Some(b) => Some(views(b@)),
                    None => None::<Seq<Seq<char>>>,
                },
            ),
        decreases ls.len() - i,
    {
        proof {
            assert(all.take(i + 1).drop_last() =~= all.take(i as int));
            assert(all.take(i + 1).last() == all[i as int]);
            assert(views(ls@)[i as int] == ls@[i as int]@);
        }
        let line = &ls[i];
        let lead = trim_start_chars(line.as_slice());
        if starts_with_chars(lead.as_slice(), fence.as_slice()) {
            match open {
                Some(buf) => {
                    let block = join_chars(&buf, nl.as_slice());
                    let tb = trim_chars(block.as_slice());
                    if tb.len() == 0 {
                        extend_lines(&mut prose, buf);
                    } else {
                        let ghost bb = views(blocks@);
                        blocks.push(block);
                        assert(views(blocks@) =~= bb.push(join_with(views(buf@), "\n"@)));
                    }
                    open = None;
                },
                None => {
                    let fresh: Vec<Vec<char>> = Vec::new();
                    assert(views(fresh@) =~= Seq::<Seq<char>>::empty());
                    open = Some(fresh);
                },
            }
        } else {
            let l = line.clone();
            assert(l@ == all[i as int]);
            match open {
                Some(mut buf) => {
                    let ghost bb = views(buf@);
                    buf.push(l);
                    assert(views(buf@) =~= bb.push(all[i as int]));
                    open = Some(buf);
                },
                None => {
                    let ghost pb = views(prose@);
                    prose.push(l);
                    assert(views(prose@) =~= pb.push(all[i as int]));
                },
            }
        }
        i = i + 1;
    }
    assert(all.take(ls@.len() as int) =~= all);
    match open {
        Some(buf) => {
            extend_lines(&mut prose, buf);
        },
        None => {},
    }
    let b = strings_of_lines(&blocks);
    let p = strings_of_lines(&prose);
    (b, p)
}

/// The views of a sequence of strings.
pub open spec fn views_of_strings(v: Seq<String>) -> Seq<Seq<char>> {
    v.map_values(|s: String| s@)
}

/// `String`s of character vectors.
fn strings_of_lines(v: &Vec<Vec<char>>) -> (r: Vec<String>)
    ensures
        views_of_strings(r@) == views(v@),
{
    let mut r: Vec<String> = Vec::new();
    let mut i: usize = 0;
    while i < v.len()
        invariant
            i <= v@.len(),
            views_of_strings(r@) == views(v@).take(i as int),
        decreases v.len() - i,
    {
        let ghost before = views_of_strings(r@);
        let s = string_of(v[i].as_slice());
        r.push(s);
        assert(views_of_strings(r@) =~= before.push(v@[i as int]@));
        assert(views(v@).take(i + 1) =~= views(v@).take(i as int).push(v@[i as int]@));
        i = i + 1;
    }
    assert(views(v@).take(v@.len() as int) =~= views(v@));
    r
}

/// `str::trim_start` on characters.
fn trim_start_chars(v: &[char]) -> (r: Vec<char>)
    ensures
        r@ == trim_start(v@),
{
    let mut i: usize = 0;
    while i < v.len() && is_whitespace(v[i])
        invariant
            i <= v@.len(),
            forall|k: int| 0 <= k < i ==> is_ws(v@[k]),
        decreases v.len() - i,
    {
        i = i + 1;
    }
    proof {
        lemma_lead_ws_is(v@, i as int);
    }
    copy_range(v, i, v.len())
}


// ── signature and documentation ─────────────────────────────────────────────

/// The scan for the signature: the first code section found so far, and the
/// prose lines gathered.
pub type SigState = (Option<Seq<char>>, Seq<Seq<char>>);

/// One segment of the scan: code is a signature candidate and never prose;
/// prose gives its fenced blocks as signature candidates and its other lines
/// as prose.
pub open spec fn sig_step(st: SigState, seg: (bool, Seq<char>)) -> SigState {
    let (sig, prose) = st;
    if seg.0 {
        (
            if sig is None {
                Some(seg.1)
            } else {
                sig
            },
            prose,
        )
    } else {
        let (blocks, pl) = split_fenced_spec(seg.1);
        (
            if sig is None && blocks.len() > 0 {
                Some(blocks[0])
            } else {
                sig
            },
            prose + pl,
        )
    }
}

/// The scan over segments.
pub open spec fn sig_scan(segs: Seq<(bool, Seq<char>)>) -> SigState
    decreases segs.len(),
{
    if segs.len() == 0 {
        (None, seq![])
    } else {
        sig_step(sig_scan(segs.drop_last()), segs.last())
    }
}

/// At most the first `n` elements.
pub open spec fn first_n<A>(s: Seq<A>, n: nat) -> Seq<A> {
    if s.len() <= n {
        s
    } else {
        s.take(n as int)
    }
}

/// The signature and documentation of hover contents: the signature is the
/// first code section (a `{language, value}` entry or a fenced block of
/// prose), the documentation the first three non-blank prose lines joined by
/// newlines; with no code section at all, the first non-blank prose line is
/// the signature and the next three the documentation.
pub open spec fn signature_and_doc_spec(c: HoverContents) -> (Seq<char>, Seq<char>) {
    let (sig, prose) = sig_scan(segments_spec(c));
    let cands = prose.filter(|l: Seq<char>| trim(l).len() > 0);
    match sig {
        Some(s) => (s, join_with(first_n(cands, 3), "\n"@)),
        None => {
            if cands.len() == 0 {
                (seq![], seq![])
            } else {
                (cands[0], join_with(first_n(cands.skip(1), 3), "\n"@))
            }
        },
    }
}

/// Owned characters of each string.
fn chars_of_strings(v: &Vec<String>) -> (r: Vec<Vec<char>>)
    ensures
        views(r@) == views_of_strings(v@),
{
    let mut r: Vec<Vec<char>> = Vec::new();
    let mut i: usize = 0;
    while i < v.len()
        invariant
            i <= v@.len(),
            views(r@) == views_of_strings(v@).take(i as int),
        decreases v.len() - i,
    {
        let ghost before = views(r@);
        let c = chars_of(v[i].as_str());
        r.push(c);
        assert(views(r@) =~= before.push(v@[i as int]@));
        assert(views_of_strings(v@).take(i + 1) =~= views_of_strings(v@).take(i as int).push(v@[i as int]@));
        i = i + 1;
    }
    assert(views_of_strings(v@).take(v@.len() as int) =~= views_of_strings(v@));
    r
}

/// Splits hover contents into a signature and a short documentation (see
/// `signature_and_doc_spec`); empty contents give two empty strings.
pub fn hover_signature_and_doc(contents: &HoverContents) -> (r: (String, String))
    ensures
        (r.0@, r.1@) == signature_and_doc_spec(*contents),
{
    let segs = hover_segments(contents);
    let ghost sv = segments_view(segs@);
    let mut sig: Option<Vec<char>> = None;
    let mut prose: Vec<Vec<char>> = Vec::new();
    let mut i: usize = 0;
    while i < segs.len()
        invariant
            i <= segs@.len(),
            sv == segments_view(segs@),
            sig_scan(sv.take(i as int)) == (
                match sig {
                    Some(x) => Some(x@),
                    None => None::<Seq<char>>,
                },
                views(prose@),
            ),
        decreases segs.len() - i,
    {
        proof {
            assert(sv.take(i + 1).drop_last() =~= sv.take(i as int));
            assert(sv.take(i + 1).last() == sv[i as int]);
        }
        match &segs[i] {
            HoverSegment::Code(code) => {
                if sig.is_none() {
                    sig = Some(chars_of(code.as_str()));
                }
            },
            HoverSegment::Prose(text) => {
                let (blocks, pl) = split_fenced_code_blocks(text.as_str());
                if sig.is_none() && blocks.len() > 0 {
                    sig = Some(chars_of(blocks[0].as_str()));
                }
                let plc = chars_of_strings(&pl);
                extend_lines(&mut prose, plc);
            },
        }
        i = i + 1;
    }
    assert(sv.take(segs@.len() as int) =~= sv);
    let ghost all = views(prose@);
    let mut cands: Vec<Vec<char>> = Vec::new();
    let mut k: usize = 0;
    while k < prose.len()
        invariant
            k <= prose@.len(),
            all == views(prose@),
            views(cands@) == all.take(k as int).filter(|l: Seq<char>| trim(l).len() > 0),
        decreases prose.len() - k,
    {
        let ghost before = views(cands@);
        proof {
            assert(all.take(k + 1) =~= all.take(k as int).push(all[k as int]));
            all.take(k as int).lemma_filter_push(all[k as int], |l: Seq<char>| trim(l).len() > 0);
            assert(all[k as int] == prose@[k as int]@);
        }
        let t = trim_chars(prose[k].as_slice());
        if t.len() > 0 {
            let l = prose[k].clone();
            cands.push(l);
            assert(views(cands@) =~= before.push(all[k as int]));
        }
        k = k + 1;
    }
    assert(all.take(prose@.len() as int) =~= all);
    let ghost cv = views(cands@);
    let nl = chars_of("\n");
    match sig {
        Some(s) => {
            assert(cv.skip(0) =~= cv);
            let doc_lines = first_lines(&cands, 0, 3);
            let doc = join_chars(&doc_lines, nl.as_slice());
            (string_of(s.as_slice()), string_of(doc.as_slice()))
        },
        None => {
            if cands.len() == 0 {
                (String::new(), String::new())
            } else {
                proof {
                    assert(cv[0] == cands@[0]@);
                }
                let doc_lines = first_lines(&cands, 1, 3);
                let doc = join_chars(&doc_lines, nl.as_slice());
                (string_of(cands[0].as_slice()), string_of(doc.as_slice()))
            }
        },
    }
}

/// At most `n` of the vectors of `v`, from `from` on.
fn first_lines(v: &Vec<Vec<char>>, from: usize, n: usize) -> (r: Vec<Vec<char>>)
    requires
        from <= v@.len(),
    ensures
        views(r@) == first_n(views(v@).skip(from as int), n as nat),
{
    let mut r: Vec<Vec<char>> = Vec::new();
    let mut i: usize = from;
    let ghost rest = views(v@).skip(from as int);
    while i < v.len() && i - from < n
        invariant
            from <= i <= v@.len(),
            rest == views(v@).skip(from as int),
            i - from <= n,
            views(r@) == rest.take(i - from),
        decreases v.len() - i,
    {
        let ghost before = views(r@);
        let l = v[i].clone();
        assert(l@ == v@[i as int]@);
        r.push(l);
        assert(rest[i - from] == v@[i as int]@);
        assert(views(r@) =~= before.push(v@[i as int]@));
        assert(rest.take(i - from + 1) =~= rest.take(i - from).push(rest[i - from]));
        i = i + 1;
    }
    proof {
        if rest.len() <= n {
            assert(rest.take(i - from) =~= rest);
        }
    }
    r
}

} // verus!
