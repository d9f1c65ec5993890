//! Symbols: the outline of a file, workspace symbol search results, the
//! symbol enclosing a reference, and the rendering of locations and
//! references.

use vstd::prelude::*;
use crate::text::{append_chars, chars_of, join_chars, join_with, string_of, views};
use crate::tools::labels::{dec_i64_chars, dec_int, symbol_kind_label, symbol_kind_spec};

verus! {

/// The location of a flat symbol (`SymbolInformation.location`): its URI
/// and the line of the start of its range (each absent when missing).
#[derive(Debug, Clone, PartialEq, Eq)]
pub struct SymbolLocation {
    pub uri: Option<String>,
    pub start_line: Option<i64>,
}

/// A symbol as a server reports it, flat (`SymbolInformation`, with a
/// location) or hierarchical (`DocumentSymbol`, with a selection range and
/// children). Each field is absent when the JSON field is missing or of
/// another type.
#[derive(Debug)]
pub struct DocumentSymbol {
    pub kind: Option<i64>,
    pub name: Option<String>,
    pub detail: Option<String>,
    /// Present when `location` is an object.
    pub location: Option<SymbolLocation>,
    /// Present when `selectionRange` is present: the line of its start.
    pub selection_start_line: Option<Option<i64>>,
    /// Present when `range` is an object: the lines of its start and end.
    pub range: Option<(Option<i64>, Option<i64>)>,
    /// Present when `children` is an array.
    pub children: Option<Vec<DocumentSymbol>>,
}


/// The kind of a symbol (0 when absent).
pub open spec fn kind_of(s: DocumentSymbol) -> i64 {
    match s.kind {
        Some(k) => k,
        None => 0,
    }
}

/// The name of a symbol (empty when absent).
pub open spec fn name_of(s: DocumentSymbol) -> Seq<char> {
    match s.name {
        Some(n) => n@,
        None => seq![],
    }
}

/// The symbol has a non-empty `detail` (where servers put a signature).
pub open spec fn has_detail(s: DocumentSymbol) -> bool {
    match s.detail {
        Some(d) => d@.len() > 0,
        None => false,
    }
}

/// `"{kind label} {name}"`, then `" · {detail}"` when the detail is not
/// empty.
pub open spec fn name_and_detail_spec(s: DocumentSymbol) -> Seq<char> {
    let base = symbol_kind_spec(kind_of(s)) + " "@ + name_of(s);
    if has_detail(s) {
        base + " · "@ + s.detail->Some_0@
    } else {
        base
    }
}

/// The kind label, name and detail of a symbol.
pub fn symbol_name_and_detail(s: &DocumentSymbol) -> (r: Vec<char>)
    ensures
        r@ == name_and_detail_spec(*s),
{
    let kind: i64 = match s.kind {
        Some(k) => k,
        None => 0,
    };
    let label = symbol_kind_label(kind);
    let mut out = chars_of(label.as_str());
    out.push(' ');
    match &s.name {
        Some(n) => {
            let c = chars_of(n.as_str());
            append_chars(&mut out, c.as_slice());
        },
        None => {},
    }
    proof {
        reveal_strlit(" ");
    }
    assert(out@ =~= symbol_kind_spec(kind_of(*s)) + " "@ + name_of(*s));
    match &s.detail {
        Some(d) => {
            let dc = chars_of(d.as_str());
            if dc.len() > 0 {
                let sep = chars_of(" · ");
                append_chars(&mut out, sep.as_slice());
                append_chars(&mut out, dc.as_slice());
            }
        },
        None => {},
    }
    out
}

/// The line of the start of the selection range (0 when absent).
pub open spec fn selection_line(s: DocumentSymbol) -> int {
    match s.selection_start_line {
        Some(Some(l)) => l as int,
        _ => 0,
    }
}

/// Decimal rendering of a wide signed integer.
pub fn dec_i128_chars(n: i128) -> (r: Vec<char>)
    ensures
        r@ == dec_int(n as int),
{
    if n < 0 {
        let m: u128 = (-(n as i128 + 1)) as u128 + 1;
        let mut r = vec!['-'];
        let d = crate::text::dec_chars_wide(m);
        append_chars(&mut r, d.as_slice());
        assert(r@ =~= seq!['-'] + crate::text::dec((-n) as nat));
        r
    } else {
        crate::text::dec_chars_wide(n as u128)
    }
}

/// Two spaces per level.
pub open spec fn indent(depth: nat) -> Seq<char> {
    Seq::new(2 * depth, |i: int| ' ')
}

/// The lines of a hierarchical symbol: its own line, indented, then those of
/// its children one level deeper.
pub open spec fn entry_lines(s: DocumentSymbol, depth: nat) -> Seq<Seq<char>>
    decreases s,
{
    seq![indent(depth) + name_and_detail_spec(s) + " — L"@ + dec_int(selection_line(s) + 1)]
        + match s.children {
        Some(cs) => children_lines(cs@, depth + 1),
        None => seq![],
    }
}

/// The lines of a list of hierarchical symbols, in order.
pub open spec fn children_lines(cs: Seq<DocumentSymbol>, depth: nat) -> Seq<Seq<char>>
    decreases cs,
{
    if cs.len() == 0 {
        seq![]
    } else {
        children_lines(cs.drop_last(), depth) + entry_lines(cs.last(), depth)
    }
}


/// Lines each preceded by `2 * n` spaces.
pub open spec fn shifted(ls: Seq<Seq<char>>, n: nat) -> Seq<Seq<char>> {
    ls.map_values(|l: Seq<char>| Seq::new(2 * n, |i: int| ' ') + l)
}

proof fn lemma_shifted_add(a: Seq<Seq<char>>, b: Seq<Seq<char>>, n: nat)
    ensures
        shifted(a + b, n) == shifted(a, n) + shifted(b, n),
{
    assert(shifted(a + b, n) =~= shifted(a, n) + shifted(b, n));
}

proof fn lemma_shifted_twice(a: Seq<Seq<char>>, m: nat, n: nat)
    ensures
        shifted(shifted(a, m), n) == shifted(a, m + n),
{
    assert forall|k: int| 0 <= k < a.len() implies #[trigger] shifted(shifted(a, m), n)[k] == shifted(a, m + n)[k] by {
        assert(Seq::new(2 * n, |i: int| ' ') + (Seq::new(2 * m, |i: int| ' ') + a[k]) =~= Seq::new(
            2 * (m + n),
            |i: int| ' ',
        ) + a[k]);
    }
    assert(shifted(shifted(a, m), n) =~= shifted(a, m + n));
}

proof fn lemma_entry_lines_shift(s: DocumentSymbol, d: nat)
    ensures
        entry_lines(s, d) == shifted(entry_lines(s, 0), d),
        s.children matches Some(cs) ==> entry_lines(s, d).drop_first() == shifted(children_lines(cs@, 0), d + 1),
        entry_lines(s, d).len() >= 1,
    decreases s, 1nat,
{
    let line_d = indent(d) + name_and_detail_spec(s) + " — L"@ + dec_int(selection_line(s) + 1);
    let line_0 = indent(0) + name_and_detail_spec(s) + " — L"@ + dec_int(selection_line(s) + 1);
    assert(line_d =~= Seq::new(2 * d, |i: int| ' ') + line_0);
    assert(shifted(seq![line_0], d) =~= seq![line_d]);
    match s.children {
        Some(cs) => {
            assert(decreases_to!(s => s.children));
            assert(decreases_to!(s.children => s.children->Some_0));
            assert(decreases_to!(cs => cs@));
            lemma_children_lines_shift(cs@, d + 1);
            lemma_children_lines_shift(cs@, 1);
            lemma_shifted_twice(children_lines(cs@, 0), 1, d);
            lemma_shifted_add(seq![line_0], children_lines(cs@, 1), d);
            assert(entry_lines(s, d) == seq![line_d] + children_lines(cs@, d + 1));
            assert(entry_lines(s, 0) == seq![line_0] + children_lines(cs@, 1));
            assert((1 + d) as nat == d + 1);
            assert(entry_lines(s, d) =~= shifted(entry_lines(s, 0), d));
            assert(entry_lines(s, d).drop_first() =~= children_lines(cs@, d + 1));
        },
        None => {
            assert(entry_lines(s, d) =~= seq![line_d]);
            assert(entry_lines(s, 0) =~= seq![line_0]);
        },
    }
}

proof fn lemma_children_lines_shift(cs: Seq<DocumentSymbol>, d: nat)
    ensures
        children_lines(cs, d) == shifted(children_lines(cs, 0), d),
    decreases cs, 0nat,
{
    if cs.len() == 0 {
        assert(shifted(seq![], d) =~= Seq::<Seq<char>>::empty());
    } else {
        lemma_children_lines_shift(cs.drop_last(), d);
        lemma_entry_lines_shift(cs.last(), d);
        lemma_shifted_add(children_lines(cs.drop_last(), 0), entry_lines(cs.last(), 0), d);
    }
}

proof fn lemma_children_lines_flatten(cs: Seq<DocumentSymbol>, d: nat)
    ensures
        children_lines(cs, d) == cs.map_values(|c: DocumentSymbol| entry_lines(c, d)).flatten(),
    decreases cs.len(),
{
    if cs.len() > 0 {
        lemma_children_lines_flatten(cs.drop_last(), d);
        let m = cs.map_values(|c: DocumentSymbol| entry_lines(c, d));
        let m0 = cs.drop_last().map_values(|c: DocumentSymbol| entry_lines(c, d));
        assert(m =~= m0.push(entry_lines(cs.last(), d)));
        m0.lemma_flatten_push(entry_lines(cs.last(), d));
    } else {
        assert(cs.map_values(|c: DocumentSymbol| entry_lines(c, d)) =~= Seq::<Seq<Seq<char>>>::empty());
    }
}

/// The outline nests by two spaces per level: at depth 0 a symbol's own
/// line is its label with no indentation; at depth `d` every line of a
/// symbol is its depth-0 line preceded by `2 * d` spaces; and its own line
/// is followed by the blocks of its children, in order, each rendered one
/// level deeper. So a child's line is always indented two spaces more than
/// its parent's.
pub proof fn lemma_outline_nesting(s: DocumentSymbol, d: nat)
    ensures
        entry_lines(s, 0)[0] == name_and_detail_spec(s) + " — L"@ + dec_int(selection_line(s) + 1),
        entry_lines(s, d) == shifted(entry_lines(s, 0), d),
        s.children matches Some(cs) ==> entry_lines(s, d).drop_first() == cs@.map_values(
            |c: DocumentSymbol| entry_lines(c, d + 1),
        ).flatten(),
        forall|k: int| 0 <= k < entry_lines(s, d).len() ==> #[trigger] entry_lines(s, d)[k].take(2 * d as int)
            == Seq::new(2 * d, |i: int| ' '),
        entry_lines(s, d).len() >= 1,
{
    lemma_entry_lines_shift(s, d);
    lemma_entry_lines_shift(s, 0);
    assert(indent(0) =~= Seq::<char>::empty());
    assert(entry_lines(s, 0)[0] =~= name_and_detail_spec(s) + " — L"@ + dec_int(selection_line(s) + 1));
    if let Some(cs) = s.children {
        lemma_children_lines_flatten(cs@, d + 1);
        assert(entry_lines(s, d).drop_first() =~= children_lines(cs@, d + 1));
    }
    assert forall|k: int| 0 <= k < entry_lines(s, d).len() implies #[trigger] entry_lines(s, d)[k].take(2 * d as int)
        == Seq::new(2 * d, |i: int| ' ') by {
        assert(entry_lines(s, d)[k] == Seq::new(2 * d, |i: int| ' ') + entry_lines(s, 0)[k]);
        assert(entry_lines(s, d)[k].take(2 * d as int) =~= Seq::new(2 * d, |i: int| ' '));
    }
}

/// Appends the lines of a hierarchical symbol (see `entry_lines`), indented
/// by `ind` (`depth` levels).
fn push_entry_lines(sym: &DocumentSymbol, ind: &Vec<char>, depth: Ghost<nat>, lines: &mut Vec<Vec<char>>)
    requires
        ind@ == indent(depth@),
    ensures
        views(final(lines)@) == views(old(lines)@) + entry_lines(*sym, depth@),
    decreases sym,
{
    let ghost before = views(lines@);
    let mut l = ind.clone();
    assert(l@ == ind@);
    let nd = symbol_name_and_detail(sym);
    append_chars(&mut l, nd.as_slice());
    let m = chars_of(" — L");
    append_chars(&mut l, m.as_slice());
    let line0: i128 = match sym.selection_start_line {
        Some(Some(x)) => x as i128,
        _ => 0,
    };
    let d = dec_i128_chars(line0 + 1);
    append_chars(&mut l, d.as_slice());
    let ghost lv = l@;
    lines.push(l);
    assert(views(lines@) =~= before.push(lv));
    match &sym.children {
        Some(cs) => {
            let mut child_ind = ind.clone();
            assert(child_ind@ == ind@);
            child_ind.push(' ');
            child_ind.push(' ');
            assert(child_ind@ =~= indent(depth@ + 1));
            let ghost mid = views(lines@);
            proof {
                assert forall|k: int| 0 <= k < cs@.len() implies decreases_to!(*sym => cs@[k]) by {
                    assert(decreases_to!(*sym => sym.children));
                    assert(decreases_to!(sym.children => sym.children->Some_0));
                    assert(decreases_to!(*cs => cs@));
                    assert(decreases_to!(cs@ => cs@[k]));
                }
            }
            let mut i: usize = 0;
            while i < cs.len()
                invariant
                    forall|k: int| 0 <= k < cs@.len() ==> decreases_to!(*sym => cs@[k]),
                    i <= cs@.len(),
                    child_ind@ == indent(depth@ + 1),
                    views(lines@) == mid + children_lines(cs@.take(i as int), depth@ + 1),
                decreases cs.len() - i,
            {
                proof {
                    assert(cs@.take(i + 1).drop_last() =~= cs@.take(i as int));
                    assert(cs@.take(i + 1).last() == cs@[i as int]);
                }
                push_entry_lines(&cs[i], &child_ind, Ghost(depth@ + 1), lines);
                i = i + 1;
            }
            assert(cs@.take(cs@.len() as int) =~= cs@);
            assert(views(lines@) =~= before + entry_lines(*sym, depth@));
        },
        None => {
            assert(views(lines@) =~= before + entry_lines(*sym, depth@));
        },
    }
}


// ── document outline ────────────────────────────────────────────────────────

/// `String`'s order: lexicographic on characters (the order of their UTF-8
/// bytes).
pub open spec fn seq_lt(a: Seq<char>, b: Seq<char>) -> bool
    decreases a.len(),
{
    if a.len() == 0 {
        b.len() > 0
    } else if b.len() == 0 {
        false
    } else if a[0] != b[0] {
        (a[0] as u32) < (b[0] as u32)
    } else {
        seq_lt(a.drop_first(), b.drop_first())
    }
}

/// Exec `seq_lt`.
pub fn chars_lt(a: &[char], b: &[char]) -> (r: bool)
    ensures
        r == seq_lt(a@, b@),
{
    assert(a@.skip(0) =~= a@);
    assert(b@.skip(0) =~= b@);
    let mut i: usize = 0;
    while i < a.len() && i < b.len() && a[i] == b[i]
        invariant
            i <= a@.len(),
            i <= b@.len(),
            forall|k: int| 0 <= k < i ==> a@[k] == b@[k],
            seq_lt(a@, b@) == seq_lt(a@.skip(i as int), b@.skip(i as int)),
        decreases a.len() - i,
    {
        proof {
            assert(a@.skip(i as int).drop_first() =~= a@.skip(i + 1));
            assert(b@.skip(i as int).drop_first() =~= b@.skip(i + 1));
        }
        i = i + 1;
    }
    proof {
        if i < a@.len() {
            assert(a@.skip(i as int)[0] == a@[i as int]);
        }
        if i < b@.len() {
            assert(b@.skip(i as int)[0] == b@[i as int]);
        }
    }
    if i == a.len() {
        i < b.len()
    } else if i == b.len() {
        false
    } else {
        (a[i] as u32) < (b[i] as u32)
    }
}

/// A flat outline entry: 1-based line, name, rendered line.
pub type FlatEntry = (int, Seq<char>, Seq<char>);

/// The 1-based line of a flat symbol.
pub open spec fn flat_line1(s: DocumentSymbol) -> int {
    match s.location {
        Some(loc) => match loc.start_line {
            Some(l) => l as int + 1,
            None => 1,
        },
        None => 1,
    }
}

/// The rendered line of a flat symbol: `{label} — L{line}`, prefixed by the
/// display path of its file and `: ` when that file is not the one opened.
pub open spec fn flat_rendered(s: DocumentSymbol, opened: Seq<char>, display: Seq<char>) -> Seq<char> {
    let r0 = name_and_detail_spec(s) + " — L"@ + dec_int(flat_line1(s));
    match s.location {
        Some(loc) => match loc.uri {
            Some(u) => if u@ != opened {
                display + ": "@ + r0
            } else {
                r0
            },
            None => r0,
        },
        None => r0,
    }
}

/// The flat entries and the hierarchical lines of an outline, in order.
pub open spec fn outline_scan(syms: Seq<DocumentSymbol>, opened: Seq<char>, displays: Seq<Seq<char>>) -> (
    Seq<FlatEntry>,
    Seq<Seq<char>>,
)
    decreases syms.len(),
{
    if syms.len() == 0 {
        (seq![], seq![])
    } else {
        let (fl, tr) = outline_scan(syms.drop_last(), opened, displays);
        let s = syms.last();
        if s.location is Some {
            (fl.push((flat_line1(s), name_of(s), flat_rendered(s, opened, displays[syms.len() - 1]))), tr)
        } else if s.selection_start_line is Some {
            (fl, tr + entry_lines(s, 0))
        } else {
            (fl, tr)
        }
    }
}

/// Flat entries are ordered by line, then name.
pub open spec fn flat_lt(a: FlatEntry, b: FlatEntry) -> bool {
    a.0 < b.0 || (a.0 == b.0 && seq_lt(a.1, b.1))
}

/// Where an entry goes in a sorted list: before the first entry it sorts
/// strictly before.
pub open spec fn flat_insert_position(s: Seq<FlatEntry>, p: FlatEntry) -> nat
    decreases s.len(),
{
    if s.len() == 0 {
        0
    } else if flat_lt(p, s[0]) {
        0
    } else {
        1 + flat_insert_position(s.drop_first(), p)
    }
}

/// The flat entries sorted by (line, name), equal keys in their order (a
/// stable sort).
pub open spec fn sort_flats(fs: Seq<FlatEntry>) -> Seq<FlatEntry>
    decreases fs.len(),
{
    if fs.len() == 0 {
        seq![]
    } else {
        let s = sort_flats(fs.drop_last());
        let k = flat_insert_position(s, fs.last()) as int;
        s.take(k) + seq![fs.last()] + s.skip(k)
    }
}

/// The outline of a file (see `render_document_symbols`).
pub open spec fn outline_spec(syms: Seq<DocumentSymbol>, opened: Seq<char>, displays: Seq<Seq<char>>) -> Seq<char> {
    if syms.len() == 0 {
        "no symbols (file analyzed yet — the outline is empty)"@
    } else {
        let (fl, tr) = outline_scan(syms, opened, displays);
        join_with(sort_flats(fl).map_values(|e: FlatEntry| e.2) + tr, "\n"@)
    }
}

/// A flat entry for execution.
struct FlatLine {
    line1: i128,
    name: Vec<char>,
    rendered: Vec<char>,
}

/// Its view.
spec fn flat_view(f: FlatLine) -> FlatEntry {
    (f.line1 as int, f.name@, f.rendered@)
}

/// The views of flat entries.
spec fn flat_views(v: Seq<FlatLine>) -> Seq<FlatEntry> {
    v.map_values(|f: FlatLine| flat_view(f))
}

/// Whether `p` sorts strictly before `e`.
fn flat_before(p: &FlatLine, e: &FlatLine) -> (b: bool)
    ensures
        b == flat_lt(flat_view(*p), flat_view(*e)),
{
    p.line1 < e.line1 || (p.line1 == e.line1 && chars_lt(p.name.as_slice(), e.name.as_slice()))
}

/// Inserts an entry into a sorted list.
fn insert_flat(sorted: &mut Vec<FlatLine>, p: FlatLine)
    ensures
        ({
            let k = flat_insert_position(flat_views(old(sorted)@), flat_view(p)) as int;
            flat_views(final(sorted)@) == flat_views(old(sorted)@).take(k) + seq![flat_view(p)]
                + flat_views(old(sorted)@).skip(k)
        }),
{
    let ghost s0 = flat_views(sorted@);
    assert(s0.skip(0) =~= s0);
    let mut k: usize = 0;
    while k < sorted.len() && !flat_before(&p, &sorted[k])
        invariant
            k <= sorted@.len(),
            s0 == flat_views(sorted@),
            flat_insert_position(s0, flat_view(p)) == k + flat_insert_position(s0.skip(k as int), flat_view(p)),
        decreases sorted.len() - k,
    {
        proof {
            assert(s0.skip(k as int)[0] == s0[k as int]);
            assert(s0.skip(k as int).drop_first() =~= s0.skip(k + 1));
        }
        k = k + 1;
    }
    proof {
        if k < sorted@.len() {
            assert(s0.skip(k as int)[0] == s0[k as int]);
        }
    }
    sorted.insert(k, p);
    assert(flat_views(sorted@) =~= s0.take(k as int) + seq![flat_view(p)] + s0.skip(k as int));
}

/// The outline of a file for `lsp_document_symbols`, from the symbols the
/// server returned (`displays[i]` is the display path of the file of
/// symbol `i`).
///
/// Flat symbols (with a location) give `{label} — L{line}` (1-based),
/// prefixed by `{display}: ` when they belong to another file than the one
/// opened, sorted by (line, name); hierarchical ones (with a selection
/// range) follow as an indented tree, in the server's order; other entries
/// are left out. No symbol at all gives an explicit message.
pub fn render_document_symbols(symbols: &Vec<DocumentSymbol>, opened_uri: &str, displays: &Vec<String>) -> (r: String)
    requires
        displays@.len() == symbols@.len(),
    ensures
        r@ == outline_spec(symbols@, opened_uri@, displays@.map_values(|d: String| d@)),
{
    let ghost dv = displays@.map_values(|d: String| d@);
    if symbols.len() == 0 {
        return "no symbols (file analyzed yet — the outline is empty)".to_owned();
    }
    let opened = chars_of(opened_uri);
    let mut flats: Vec<FlatLine> = Vec::new();
    let mut tree: Vec<Vec<char>> = Vec::new();
    let empty_indent: Vec<char> = Vec::new();
    assert(empty_indent@ =~= indent(0));
    let mut i: usize = 0;
    while i < symbols.len()
        invariant
            i <= symbols@.len(),
            displays@.len() == symbols@.len(),
            dv == displays@.map_values(|d: String| d@),
            opened@ == opened_uri@,
            empty_indent@ == indent(0),
            outline_scan(symbols@.take(i as int), opened_uri@, dv) == (
                sort_flats_inv(flat_views(flats@)),
                views(tree@),
            ),
        decreases symbols.len() - i,
    {
        proof {
            assert(symbols@.take(i + 1).drop_last() =~= symbols@.take(i as int));
            assert(symbols@.take(i + 1).last() == symbols@[i as int]);
        }
        let s = &symbols[i];
        match &s.location {
            Some(loc) => {
                let line1: i128 = match loc.start_line {
                    Some(l) => l as i128 + 1,
                    None => 1,
                };
                let mut r0 = symbol_name_and_detail(s);
                let m = chars_of(" — L");
                append_chars(&mut r0, m.as_slice());
                let d = dec_i128_chars(line1);
                append_chars(&mut r0, d.as_slice());
                let rendered = match &loc.uri {
                    Some(u) => {
                        let uc = chars_of(u.as_str());
                        if !crate::text::eq_chars(uc.as_slice(), opened.as_slice()) {
                            let mut out = chars_of(displays[i].as_str());
                            let sep = chars_of(": ");
                            append_chars(&mut out, sep.as_slice());
                            append_chars(&mut out, r0.as_slice());
                            out
                        } else {
                            r0
                        }
                    },
                    None => r0,
                };
                let name = match &s.name {
                    Some(n) => chars_of(n.as_str()),
                    None => Vec::new(),
                };
                let ghost fv = flat_views(flats@);
                let entry = FlatLine { line1, name, rendered };
                proof {
                    assert(dv[i as int] == displays@[i as int]@);
                    assert(flat_view(entry) == (flat_line1(*s), name_of(*s), flat_rendered(*s, opened_uri@, dv[i as int])));
                }
                flats.push(entry);
                assert(flat_views(flats@) =~= fv.push(flat_view(entry)));
            },
            None => {
                if s.selection_start_line.is_some() {
                    push_entry_lines(s, &empty_indent, Ghost(0), &mut tree);
                }
            },
        }
        i = i + 1;
    }
    assert(symbols@.take(symbols@.len() as int) =~= symbols@);
    let mut sorted: Vec<FlatLine> = Vec::new();
    let ghost fl = flat_views(flats@);
    let mut flats = flats;
    let mut j: usize = 0;
    let nf = flats.len();
    assert(nf == fl.len());
    assert(fl.take(0) =~= Seq::<FlatEntry>::empty());
    while flats.len() > 0
        invariant
            fl.len() <= usize::MAX,
            j + flats@.len() == fl.len(),
            flat_views(flats@) == fl.skip(j as int),
            flat_views(sorted@) == sort_flats(fl.take(j as int)),
        decreases flats.len(),
    {
        let ghost old_flats = flats@;
        let e = flats.remove(0);
        proof {
            assert(e == old_flats[0]);
            assert(flat_views(old_flats)[0] == flat_view(old_flats[0]));
            assert(fl.skip(j as int)[0] == fl[j as int]);
            assert(flat_views(flats@) =~= fl.skip(j + 1)) by {
                assert forall|k: int| 0 <= k < flat_views(flats@).len() implies flat_views(flats@)[k] == fl.skip(j + 1)[k] by {
                    assert(flats@[k] == old_flats[k + 1]);
                    assert(flat_views(old_flats)[k + 1] == flat_view(old_flats[k + 1]));
                }
            }
            assert(fl.take(j + 1).drop_last() =~= fl.take(j as int));
            assert(fl.take(j + 1).last() == fl[j as int]);
        }
        insert_flat(&mut sorted, e);
        j = j + 1;
    }
    assert(fl.take(j as int) =~= fl);
    let mut all: Vec<Vec<char>> = Vec::new();
    let mut k: usize = 0;
    while k < sorted.len()
        invariant
            k <= sorted@.len(),
            views(all@) == flat_views(sorted@).take(k as int).map_values(|e: FlatEntry| e.2),
        decreases sorted.len() - k,
    {
        let ghost before = views(all@);
        let l = sorted[k].rendered.clone();
        assert(l@ == sorted@[k as int].rendered@);
        all.push(l);
        assert(views(all@) =~= before.push(flat_view(sorted@[k as int]).2));
        assert(flat_views(sorted@).take(k + 1) =~= flat_views(sorted@).take(k as int).push(flat_view(sorted@[k as int])));
        k = k + 1;
    }
    assert(flat_views(sorted@).take(sorted@.len() as int) =~= flat_views(sorted@));
    let ghost head = views(all@);
    let mut t: usize = 0;
    while t < tree.len()
        invariant
            t <= tree@.len(),
            views(all@) == head + views(tree@).take(t as int),
        decreases tree.len() - t,
    {
        let ghost before = views(all@);
        let l = tree[t].clone();
        assert(l@ == tree@[t as int]@);
        all.push(l);
        assert(views(all@) =~= before.push(tree@[t as int]@));
        assert(views(tree@).take(t + 1) =~= views(tree@).take(t as int).push(tree@[t as int]@));
        t = t + 1;
    }
    assert(views(tree@).take(tree@.len() as int) =~= views(tree@));
    let sep = chars_of("\n");
    let joined = join_chars(&all, sep.as_slice());
    string_of(joined.as_slice())
}

/// The flat entries as scanned (the identity; names the invariant).
spec fn sort_flats_inv(fs: Seq<FlatEntry>) -> Seq<FlatEntry> {
    fs
}


// ── workspace symbols ───────────────────────────────────────────────────────

/// The 1-based line of a flat symbol's location (line 0 when absent).
pub open spec fn location_line1(loc: SymbolLocation) -> int {
    match loc.start_line {
        Some(l) => l as int + 1,
        None => 1,
    }
}

/// The line of one workspace symbol, if it has a location with a URI:
/// `{display}:{line}: {label}`.
pub open spec fn workspace_symbol_line(s: DocumentSymbol, display: Seq<char>) -> Option<Seq<char>> {
    match s.location {
        Some(loc) => match loc.uri {
            Some(_) => Some(display + ":"@ + dec_int(location_line1(loc)) + ": "@ + name_and_detail_spec(s)),
            None => None,
        },
        None => None,
    }
}

/// The lines of workspace symbols, in the server's order.
pub open spec fn workspace_symbol_lines(syms: Seq<DocumentSymbol>, displays: Seq<Seq<char>>) -> Seq<Seq<char>>
    decreases syms.len(),
{
    if syms.len() == 0 {
        seq![]
    } else {
        let prev = workspace_symbol_lines(syms.drop_last(), displays);
        match workspace_symbol_line(syms.last(), displays[syms.len() - 1]) {
            Some(l) => prev.push(l),
            None => prev,
        }
    }
}

/// The result of a workspace symbol search (see `render_workspace_symbols`).
pub open spec fn workspace_symbols_spec(query: Seq<char>, syms: Seq<DocumentSymbol>, displays: Seq<Seq<char>>) -> Seq<char> {
    if syms.len() == 0 {
        "no symbol matching \""@ + query + "\""@
    } else {
        join_with(workspace_symbol_lines(syms, displays), "\n"@)
    }
}

/// The result of `workspace/symbol` for `lsp_workspace_symbols`: one line
/// `{display}:{line}: {label}` (1-based) per symbol with a location URI, in
/// the server's order (its ranking); `displays[i]` is the display path of
/// the file of symbol `i`. No symbol gives `no symbol matching "{query}"`.
pub fn render_workspace_symbols(query: &str, symbols: &Vec<DocumentSymbol>, displays: &Vec<String>) -> (r: String)
    requires
        displays@.len() == symbols@.len(),
    ensures
        r@ == workspace_symbols_spec(query@, symbols@, displays@.map_values(|d: String| d@)),
{
    let ghost dv = displays@.map_values(|d: String| d@);
    if symbols.len() == 0 {
        let mut out = chars_of("no symbol matching \"");
        let q = chars_of(query);
        append_chars(&mut out, q.as_slice());
        out.push('"');
        proof {
            reveal_strlit("\"");
        }
        assert(out@ =~= "no symbol matching \""@ + query@ + "\""@);
        return string_of(out.as_slice());
    }
    let mut lines: Vec<Vec<char>> = Vec::new();
    let mut i: usize = 0;
    while i < symbols.len()
        invariant
            i <= symbols@.len(),
            displays@.len() == symbols@.len(),
            dv == displays@.map_values(|d: String| d@),
            views(lines@) == workspace_symbol_lines(symbols@.take(i as int), dv),
        decreases symbols.len() - i,
    {
        proof {
            assert(symbols@.take(i + 1).drop_last() =~= symbols@.take(i as int));
            assert(symbols@.take(i + 1).last() == symbols@[i as int]);
            assert(dv[i as int] == displays@[i as int]@);
        }
        let s = &symbols[i];
        match &s.location {
            Some(loc) => match &loc.uri {
                Some(_) => {
                    let line1: i128 = match loc.start_line {
                        Some(l) => l as i128 + 1,
                        None => 1,
                    };
                    let mut l = chars_of(displays[i].as_str());
                    l.push(':');
                    let d = dec_i128_chars(line1);
                    append_chars(&mut l, d.as_slice());
                    let sep = chars_of(": ");
                    append_chars(&mut l, sep.as_slice());
                    let nd = symbol_name_and_detail(s);
                    append_chars(&mut l, nd.as_slice());
                    proof {
                        reveal_strlit(":");
                    }
                    let ghost lv = l@;
                    let ghost before = views(lines@);
                    lines.push(l);
                    assert(views(lines@) =~= before.push(lv));
                    assert(lv =~= dv[i as int] + ":"@ + dec_int(location_line1(*loc)) + ": "@ + name_and_detail_spec(*s));
                    assert(workspace_symbol_line(symbols@[i as int], dv[i as int]) == Some(lv));
                },
                None => {},
            },
            None => {},
        }
        i = i + 1;
    }
    assert(symbols@.take(symbols@.len() as int) =~= symbols@);
    let sep = chars_of("\n");
    let joined = join_chars(&lines, sep.as_slice());
    string_of(joined.as_slice())
}

// ── enclosing symbols ───────────────────────────────────────────────────────

/// The start line of a flat symbol's location, if any.
pub open spec fn flat_start(s: DocumentSymbol) -> Option<i64> {
    match s.location {
        Some(loc) => loc.start_line,
        None => None,
    }
}

/// Among the first `n` symbols, those `keep` accepts, the index of the one
/// whose flat start line is the largest not after `r` (the first one on
/// ties).
pub open spec fn flat_best(syms: Seq<DocumentSymbol>, keep: spec_fn(DocumentSymbol) -> bool, r: i64, n: nat) -> Option<nat>
    decreases n,
{
    if n == 0 {
        None
    } else {
        let b = flat_best(syms, keep, r, (n - 1) as nat);
        let s = syms[n - 1];
        if keep(s) && flat_start(s) is Some && flat_start(s)->Some_0 <= r && (b is None
            || flat_start(s)->Some_0 > flat_start(syms[b->Some_0 as int])->Some_0) {
            Some((n - 1) as nat)
        } else {
            b
        }
    }
}

/// Flat form: the symbol that started last at or before line `r` (0-based),
/// the first one on equal starts.
pub open spec fn flat_enclosing_spec(syms: Seq<DocumentSymbol>, r: i64) -> Option<nat> {
    flat_best(syms, |s: DocumentSymbol| true, r, syms.len())
}

/// Index of the best symbol so far, for execution.
fn flat_best_exec(syms: &Vec<DocumentSymbol>, keep_uri: Option<&Vec<char>>, r: i64) -> (b: Option<usize>)
    ensures
        b matches Some(k) ==> k < syms@.len(),
        match b {
            Some(k) => flat_best(syms@, keep_of(keep_uri), r, syms@.len()) == Some(k as nat),
            None => flat_best(syms@, keep_of(keep_uri), r, syms@.len()) is None,
        },
{
    let ghost keep = keep_of(keep_uri);
    let mut best: Option<usize> = None;
    let mut best_line: i64 = 0;
    let mut i: usize = 0;
    while i < syms.len()
        invariant
            i <= syms@.len(),
            keep == keep_of(keep_uri),
            match best {
                Some(k) => k < i && flat_best(syms@, keep, r, i as nat) == Some(k as nat) && flat_start(
                    syms@[k as int],
                ) == Some(best_line),
                None => flat_best(syms@, keep, r, i as nat) is None,
            },
        decreases syms.len() - i,
    {
        let s = &syms[i];
        let kept = match keep_uri {
            None => true,
            Some(u) => is_flat_for_exec(s, u),
        };
        let start: Option<i64> = match &s.location {
            Some(loc) => loc.start_line,
            None => None,
        };
        match start {
            Some(l) => {
                if kept && l <= r && (best.is_none() || l > best_line) {
                    best = Some(i);
                    best_line = l;
                }
            },
            None => {},
        }
        i = i + 1;
    }
    best
}

/// The predicate of symbols kept: all of them, or the flat symbols of one
/// file.
pub open spec fn keep_of(keep_uri: Option<&Vec<char>>) -> spec_fn(DocumentSymbol) -> bool {
    match keep_uri {
        None => |s: DocumentSymbol| true,
        Some(u) => |s: DocumentSymbol| is_flat_for(s, u@),
    }
}

/// A flat symbol located in the file with URI `u`.
pub open spec fn is_flat_for(s: DocumentSymbol, u: Seq<char>) -> bool {
    match s.location {
        Some(loc) => match loc.uri {
            Some(x) => x@ == u,
            None => false,
        },
        None => false,
    }
}

/// Whether `s` is a flat symbol of the file `u`.
fn is_flat_for_exec(s: &DocumentSymbol, u: &Vec<char>) -> (b: bool)
    ensures
        b == is_flat_for(*s, u@),
{
    match &s.location {
        Some(loc) => match &loc.uri {
            Some(x) => {
                let xc = chars_of(x.as_str());
                crate::text::eq_chars(xc.as_slice(), u.as_slice())
            },
            None => false,
        },
        None => false,
    }
}

/// Flat form of the enclosing symbol: among flat symbols, the index of the
/// one whose start line is the largest at or before `ref_line0` (the first
/// one on equal starts); `None` when there is none.
pub fn flat_enclosing(file_symbols: &Vec<DocumentSymbol>, ref_line0: i64) -> (r: Option<usize>)
    ensures
        match r {
            Some(k) => flat_enclosing_spec(file_symbols@, ref_line0) == Some(k as nat),
            None => flat_enclosing_spec(file_symbols@, ref_line0) is None,
        },
{
    flat_best_exec(file_symbols, None, ref_line0)
}

/// A hierarchical symbol whose range covers line `r`.
pub open spec fn covers(s: DocumentSymbol, r: i64) -> bool {
    match s.range {
        Some((Some(a), Some(b))) => a <= r && r <= b,
        _ => false,
    }
}

/// A hierarchical entry of an outline (no location, a selection range).
pub open spec fn is_hier(s: DocumentSymbol) -> bool {
    s.location is None && s.selection_start_line is Some
}

/// From index `k` on, the path (indices, outermost first) of the deepest
/// symbol covering line `r`: the first covering symbol, then recursively its
/// children. At the top level only hierarchical entries count when `top` is
/// set.
pub open spec fn deepest_at(syms: Seq<DocumentSymbol>, r: i64, k: nat, top: bool) -> Option<Seq<nat>>
    decreases syms, syms.len() - k,
{
    if k >= syms.len() {
        None
    } else {
        let s = syms[k as int];
        if (!top || is_hier(s)) && covers(s, r) {
            match s.children {
                Some(cs) => match deepest_at(cs@, r, 0, false) {
                    Some(p) => Some(seq![k] + p),
                    None => Some(seq![k]),
                },
                None => Some(seq![k]),
            }
        } else {
            deepest_at(syms, r, k + 1, top)
        }
    }
}

/// The symbol at a path of indices.
pub open spec fn symbol_at(syms: Seq<DocumentSymbol>, path: Seq<nat>) -> DocumentSymbol
    decreases path.len(),
{
    if path.len() <= 1 {
        syms[path[0] as int]
    } else {
        match syms[path[0] as int].children {
            Some(cs) => symbol_at(cs@, path.drop_first()),
            None => syms[path[0] as int],
        }
    }
}

/// A symbol whose range is given, and runs from a line at or before `r`
/// to a line at or after it.
pub open spec fn spans_line(s: DocumentSymbol, r: i64) -> bool {
    match s.range {
        Some((Some(a), Some(b))) => a <= r && r <= b,
        _ => false,
    }
}

proof fn lemma_deepest_from(syms: Seq<DocumentSymbol>, r: i64, k: nat)
    ensures
        (exists|j: int| k <= j < syms.len() && spans_line(#[trigger] syms[j], r)) <==> deepest_at(syms, r, k, false) is Some,
        deepest_at(syms, r, k, false) matches Some(p) ==> {
            &&& p.len() >= 1
            &&& k <= p[0] < syms.len()
            &&& spans_line(syms[p[0] as int], r)
            &&& forall|j: int| k <= j < p[0] ==> !spans_line(#[trigger] syms[j], r)
            &&& spans_line(symbol_at(syms, p), r)
            &&& symbol_at(syms, p).children matches Some(cs) ==> forall|j: int| 0 <= j < cs@.len() ==> !spans_line(#[trigger] cs@[j], r)
        },
    decreases syms, syms.len() - k,
{
    if k < syms.len() {
        let s = syms[k as int];
        if covers(s, r) {
            match s.children {
                Some(cs) => {
                    assert(decreases_to!(syms => syms[k as int]));
                    assert(decreases_to!(syms[k as int] => syms[k as int].children));
                    assert(decreases_to!(syms[k as int].children => syms[k as int].children->Some_0));
                    assert(decreases_to!(cs => cs@));
                    lemma_deepest_from(cs@, r, 0);
                    match deepest_at(cs@, r, 0, false) {
                        Some(q) => {
                            let p = seq![k] + q;
                            assert(p.drop_first() =~= q);
                            assert(symbol_at(syms, p) == symbol_at(cs@, q));
                        },
                        None => {
                            assert(symbol_at(syms, seq![k]) == s);
                        },
                    }
                },
                None => {
                    assert(symbol_at(syms, seq![k]) == s);
                },
            }
        } else {
            lemma_deepest_from(syms, r, k + 1);
            if exists|j: int| k <= j < syms.len() && spans_line(#[trigger] syms[j], r) {
                let j = choose|j: int| k <= j < syms.len() && spans_line(#[trigger] syms[j], r);
                assert(j != k);
            }
        }
    }
}

/// The enclosing symbol of a line is found wherever it sits among its
/// siblings: when some symbol of the list spans the line, there is an
/// answer, and none otherwise; the answer's first index is the first
/// symbol of the list spanning the line; the symbol at the answer's path
/// spans the line, and none of its children does (it is the deepest).
pub proof fn lemma_deepest_enclosing(syms: Seq<DocumentSymbol>, r: i64)
    ensures
        (exists|j: int| 0 <= j < syms.len() && spans_line(#[trigger] syms[j], r)) <==> deepest_at(syms, r, 0, false) is Some,
        deepest_at(syms, r, 0, false) matches Some(p) ==> {
            &&& p.len() >= 1
            &&& p[0] < syms.len()
            &&& forall|j: int| 0 <= j < p[0] ==> !spans_line(#[trigger] syms[j], r)
            &&& spans_line(symbol_at(syms, p), r)
            &&& symbol_at(syms, p).children matches Some(cs) ==> forall|j: int| 0 <= j < cs@.len() ==> !spans_line(#[trigger] cs@[j], r)
        },
{
    lemma_deepest_from(syms, r, 0);
}

/// Hierarchical form of the enclosing symbol: the path to the deepest
/// symbol whose range covers `ref_line0` (start and end lines included),
/// children searched first; `None` when none covers it.
pub fn deepest_containing(file_symbols: &Vec<DocumentSymbol>, ref_line0: i64) -> (r: Option<Vec<usize>>)
    ensures
        match r {
            Some(p) => deepest_at(file_symbols@, ref_line0, 0, false) == Some(p@.map_values(|i: usize| i as nat)),
            None => deepest_at(file_symbols@, ref_line0, 0, false) is None,
        },
{
    match deepest_from(file_symbols, ref_line0, false) {
        Some((p, _)) => Some(p),
        None => None,
    }
}

/// `deepest_at(syms, r, 0, top)` for execution, with the symbol found.
fn deepest_from<'a>(syms: &'a Vec<DocumentSymbol>, r: i64, top: bool) -> (res: Option<(Vec<usize>, &'a DocumentSymbol)>)
    ensures
        match res {
            Some((p, sym)) => deepest_at(syms@, r, 0, top) == Some(p@.map_values(|i: usize| i as nat))
                && symbol_at(syms@, p@.map_values(|i: usize| i as nat)) == *sym && p@.len() >= 1,
            None => deepest_at(syms@, r, 0, top) is None,
        },
    decreases syms@,
{
    let mut k: usize = 0;
    while k < syms.len()
        invariant
            k <= syms@.len(),
            deepest_at(syms@, r, 0, top) == deepest_at(syms@, r, k as nat, top),
        decreases syms.len() - k,
    {
        let s = &syms[k];
        let range_ok = match s.range {
            Some((Some(a), Some(b))) => a <= r && r <= b,
            _ => false,
        };
        let hier_ok = s.location.is_none() && s.selection_start_line.is_some();
        if (!top || hier_ok) && range_ok {
            match &s.children {
                Some(cs) => {
                    proof {
                        assert(decreases_to!(syms@ => syms@[k as int]));
                        assert(decreases_to!(syms@[k as int] => syms@[k as int].children));
                        assert(decreases_to!(syms@[k as int].children => syms@[k as int].children->Some_0));
                        assert(decreases_to!(*cs => cs@));
                    }
                    let sub = deepest_from(cs, r, false);
                    match sub {
                        Some((p, sym)) => {
                            let mut path = vec![k];
                            let mut p = p;
                            let ghost pv = p@.map_values(|i: usize| i as nat);
                            path.append(&mut p);
                            let ghost full = path@.map_values(|i: usize| i as nat);
                            assert(full =~= seq![k as nat] + pv);
                            assert(full.drop_first() =~= pv);
                            return Some((path, sym));
                        },
                        None => {
                            let path = vec![k];
                            assert(path@.map_values(|i: usize| i as nat) =~= seq![k as nat]);
                            return Some((path, s));
                        },
                    }
                },
                None => {
                    let path = vec![k];
                    assert(path@.map_values(|i: usize| i as nat) =~= seq![k as nat]);
                    return Some((path, s));
                },
            }
        }
        k = k + 1;
    }
    None
}

// ── references ──────────────────────────────────────────────────────────────

/// A reference as the server reports it: the URI (`uri` or `targetUri`,
/// absent when neither is a string) and the 0-based start line (0 when
/// absent).
#[derive(Debug, Clone, PartialEq, Eq)]
pub struct ReferenceLocation {
    pub uri: Option<String>,
    pub line0: i64,
}

/// A reference to render: URI, 0-based line, display path.
pub type GroupedRef = (Seq<char>, i64, Seq<char>);

/// The references with a URI, with their display paths, in order.
pub open spec fn collect_refs(locs: Seq<ReferenceLocation>, displays: Seq<Seq<char>>) -> Seq<GroupedRef>
    decreases locs.len(),
{
    if locs.len() == 0 {
        seq![]
    } else {
        let prev = collect_refs(locs.drop_last(), displays);
        match locs.last().uri {
            Some(u) => prev.push((u@, locs.last().line0, displays[locs.len() - 1])),
            None => prev,
        }
    }
}

/// References are ordered by display path, then line.
pub open spec fn ref_lt(a: GroupedRef, b: GroupedRef) -> bool {
    seq_lt(a.2, b.2) || (a.2 == b.2 && a.1 < b.1)
}

/// Where a reference goes in a sorted list.
pub open spec fn ref_insert_position(s: Seq<GroupedRef>, p: GroupedRef) -> nat
    decreases s.len(),
{
    if s.len() == 0 {
        0
    } else if ref_lt(p, s[0]) {
        0
    } else {
        1 + ref_insert_position(s.drop_first(), p)
    }
}

/// The references sorted by (display path, line), the server's order kept
/// between equal keys.
pub open spec fn sort_refs(rs: Seq<GroupedRef>) -> Seq<GroupedRef>
    decreases rs.len(),
{
    if rs.len() == 0 {
        seq![]
    } else {
        let s = sort_refs(rs.drop_last());
        let k = ref_insert_position(s, rs.last()) as int;
        s.take(k) + seq![rs.last()] + s.skip(k)
    }
}

/// The value of the first entry with key `u`.
pub open spec fn lookup<V>(m: Seq<(Seq<char>, V)>, u: Seq<char>) -> Option<V>
    decreases m.len(),
{
    if m.len() == 0 {
        None
    } else if m[0].0 == u {
        Some(m[0].1)
    } else {
        lookup(m.drop_first(), u)
    }
}

/// The enclosing symbol of a reference at line `l0` of file `u`, as (is
/// hierarchical, path): the deepest hierarchical symbol covering the line
/// first, else the flat symbol of that file that started last at or before
/// it.
pub open spec fn enclosing_of(syms: Option<Seq<DocumentSymbol>>, u: Seq<char>, l0: i64) -> Option<(bool, Seq<nat>)> {
    match syms {
        None => None,
        Some(ss) => match deepest_at(ss, l0, 0, true) {
            Some(p) => Some((true, p)),
            None => match flat_best(ss, |s: DocumentSymbol| is_flat_for(s, u), l0, ss.len()) {
                Some(k) => Some((false, seq![k])),
                None => None,
            },
        },
    }
}

/// `max(l, 0)`.
pub open spec fn clamp0(l: i64) -> nat {
    if l < 0 {
        0
    } else {
        l as nat
    }
}

/// The header of a run of references under one enclosing symbol:
/// `  dans {label} · {signature} — L{line}`, the signature (the trimmed line
/// of the symbol in the file) only for a flat symbol without detail whose
/// file was read; else `  dans {label} — L{line}`.
pub open spec fn run_header(sym: DocumentSymbol, hier: bool, content: Option<Seq<char>>) -> Seq<char> {
    let enc_line0: int = if hier {
        selection_line(sym)
    } else {
        match flat_start(sym) {
            Some(l) => l as int,
            None => 0,
        }
    };
    let sig = if has_detail(sym) || hier {
        None
    } else {
        match content {
            Some(c) => crate::tools::position::line_snippet_spec(c, if enc_line0 < 0 { 0 } else { enc_line0 as nat }),
            None => None,
        }
    };
    let label = name_and_detail_spec(sym);
    match sig {
        Some(sg) => "  dans "@ + label + " · "@ + sg + " — L"@ + dec_int(enc_line0 + 1),
        None => "  dans "@ + label + " — L"@ + dec_int(enc_line0 + 1),
    }
}

/// The line of one reference: `    L{line}: {snippet}` in a file that was
/// read (without the snippet when the line is missing), `  L{line}` in a
/// file that was not.
pub open spec fn ref_line(content: Option<Seq<char>>, l0: i64) -> Seq<char> {
    let line1 = dec_int(l0 as int + 1);
    match content {
        Some(c) => match crate::tools::position::line_snippet_spec(c, clamp0(l0)) {
            Some(sn) => "    L"@ + line1 + ": "@ + sn,
            None => "    L"@ + line1,
        },
        None => "  L"@ + line1,
    }
}

/// The rendering state: lines so far, current file, current run (none yet,
/// bare references, or the enclosing symbol of the run).
pub type RefState = (Seq<Seq<char>>, Option<Seq<char>>, Option<Option<(bool, Seq<nat>)>>);

/// One reference: a file header when the file changes, a run header when the
/// enclosing symbol changes, then the reference line.
pub open spec fn ref_step(
    st: RefState,
    r: GroupedRef,
    symbols: Seq<(Seq<char>, Seq<DocumentSymbol>)>,
    contents: Seq<(Seq<char>, Seq<char>)>,
) -> RefState {
    let (out, cur, run) = st;
    let (u, l0, disp) = r;
    let (out1, run1) = if cur != Some(u) {
        (out.push(disp), None::<Option<(bool, Seq<nat>)>>)
    } else {
        (out, run)
    };
    let syms = lookup(symbols, u);
    let content = lookup(contents, u);
    let (out2, run2) = match enclosing_of(syms, u, l0) {
        Some(id) => {
            if run1 != Some(Some(id)) {
                (out1.push(run_header(symbol_at(syms->Some_0, id.1), id.0, content)), Some(Some(id)))
            } else {
                (out1, Some(Some(id)))
            }
        },
        None => (out1, Some(None::<(bool, Seq<nat>)>)),
    };
    (out2.push(ref_line(content, l0)), Some(u), run2)
}

/// All references in turn.
pub open spec fn ref_scan(
    rs: Seq<GroupedRef>,
    symbols: Seq<(Seq<char>, Seq<DocumentSymbol>)>,
    contents: Seq<(Seq<char>, Seq<char>)>,
) -> RefState
    decreases rs.len(),
{
    if rs.len() == 0 {
        (seq![], None, None)
    } else {
        ref_step(ref_scan(rs.drop_last(), symbols, contents), rs.last(), symbols, contents)
    }
}

/// The views of the symbol table.
pub open spec fn symbols_view(m: Seq<(String, Vec<DocumentSymbol>)>) -> Seq<(Seq<char>, Seq<DocumentSymbol>)> {
    m.map_values(|e: (String, Vec<DocumentSymbol>)| (e.0@, e.1@))
}

/// The views of the content table.
pub open spec fn contents_view(m: Seq<(String, String)>) -> Seq<(Seq<char>, Seq<char>)> {
    m.map_values(|e: (String, String)| (e.0@, e.1@))
}

/// The grouped references (see `render_references_grouped`).
pub open spec fn references_spec(
    locs: Seq<ReferenceLocation>,
    displays: Seq<Seq<char>>,
    symbols: Seq<(Seq<char>, Seq<DocumentSymbol>)>,
    contents: Seq<(Seq<char>, Seq<char>)>,
) -> Seq<char> {
    let rs = sort_refs(collect_refs(locs, displays));
    join_with(
        seq!["références ("@ + crate::text::dec(rs.len()) + "):"@] + ref_scan(rs, symbols, contents).0,
        "\n"@,
    )
}


/// A reference ready to render, for execution.
struct RefItem {
    uri: Vec<char>,
    line0: i64,
    display: Vec<char>,
}

/// Its view.
spec fn ref_view(r: RefItem) -> GroupedRef {
    (r.uri@, r.line0, r.display@)
}

/// The views of references.
spec fn ref_views(v: Seq<RefItem>) -> Seq<GroupedRef> {
    v.map_values(|r: RefItem| ref_view(r))
}

/// Whether `p` sorts strictly before `e`.
fn ref_before(p: &RefItem, e: &RefItem) -> (b: bool)
    ensures
        b == ref_lt(ref_view(*p), ref_view(*e)),
{
    chars_lt(p.display.as_slice(), e.display.as_slice()) || (crate::text::eq_chars(
        p.display.as_slice(),
        e.display.as_slice(),
    ) && p.line0 < e.line0)
}

/// Inserts a reference into a sorted list.
fn insert_ref(sorted: &mut Vec<RefItem>, p: RefItem)
    ensures
        ({
            let k = ref_insert_position(ref_views(old(sorted)@), ref_view(p)) as int;
            ref_views(final(sorted)@) == ref_views(old(sorted)@).take(k) + seq![ref_view(p)]
                + ref_views(old(sorted)@).skip(k)
        }),
{
    let ghost s0 = ref_views(sorted@);
    assert(s0.skip(0) =~= s0);
    let mut k: usize = 0;
    while k < sorted.len() && !ref_before(&p, &sorted[k])
        invariant
            k <= sorted@.len(),
            s0 == ref_views(sorted@),
            ref_insert_position(s0, ref_view(p)) == k + ref_insert_position(s0.skip(k as int), ref_view(p)),
        decreases sorted.len() - k,
    {
        proof {
            assert(s0.skip(k as int)[0] == s0[k as int]);
            assert(s0.skip(k as int).drop_first() =~= s0.skip(k + 1));
        }
        k = k + 1;
    }
    proof {
        if k < sorted@.len() {
            assert(s0.skip(k as int)[0] == s0[k as int]);
        }
    }
    sorted.insert(k, p);
    assert(ref_views(sorted@) =~= s0.take(k as int) + seq![ref_view(p)] + s0.skip(k as int));
}

/// The first entry whose key is `u` decides `lookup`.
pub proof fn lemma_lookup_first<V>(m: Seq<(Seq<char>, V)>, u: Seq<char>, k: int)
    requires
        0 <= k <= m.len(),
        forall|j: int| 0 <= j < k ==> m[j].0 != u,
        k < m.len() ==> m[k].0 == u,
    ensures
        lookup(m, u) == if k < m.len() {
            Some(m[k].1)
        } else {
            None::<V>
        },
    decreases m.len(),
{
    if m.len() > 0 && k > 0 {
        assert forall|j: int| 0 <= j < k - 1 implies m.drop_first()[j].0 != u by {
            assert(m.drop_first()[j] == m[j + 1]);
        }
        lemma_lookup_first(m.drop_first(), u, k - 1);
    }
}

/// Index of the first symbol table entry for `u`.
fn find_symbols(m: &Vec<(String, Vec<DocumentSymbol>)>, u: &Vec<char>) -> (k: Option<usize>)
    ensures
        match k {
            Some(i) => i < m@.len() && lookup(symbols_view(m@), u@) == Some(m@[i as int].1@),
            None => lookup(symbols_view(m@), u@) is None,
        },
{
    let mut i: usize = 0;
    while i < m.len()
        invariant
            i <= m@.len(),
            forall|j: int| 0 <= j < i ==> m@[j].0@ != u@,
        decreases m.len() - i,
    {
        let c = chars_of(m[i].0.as_str());
        if crate::text::eq_chars(c.as_slice(), u.as_slice()) {
            proof {
                lemma_lookup_first(symbols_view(m@), u@, i as int);
            }
            return Some(i);
        }
        i = i + 1;
    }
    proof {
        lemma_lookup_first(symbols_view(m@), u@, m@.len() as int);
    }
    None
}

/// Index of the first content table entry for `u`.
fn find_content(m: &Vec<(String, String)>, u: &Vec<char>) -> (k: Option<usize>)
    ensures
        match k {
            Some(i) => i < m@.len() && lookup(contents_view(m@), u@) == Some(m@[i as int].1@),
            None => lookup(contents_view(m@), u@) is None,
        },
{
    let mut i: usize = 0;
    while i < m.len()
        invariant
            i <= m@.len(),
            forall|j: int| 0 <= j < i ==> m@[j].0@ != u@,
        decreases m.len() - i,
    {
        let c = chars_of(m[i].0.as_str());
        if crate::text::eq_chars(c.as_slice(), u.as_slice()) {
            proof {
                lemma_lookup_first(contents_view(m@), u@, i as int);
            }
            return Some(i);
        }
        i = i + 1;
    }
    proof {
        lemma_lookup_first(contents_view(m@), u@, m@.len() as int);
    }
    None
}

/// The view of a run.
spec fn run_view(run: Option<Option<(bool, Vec<usize>)>>) -> Option<Option<(bool, Seq<nat>)>> {
    match run {
        Some(Some((h, p))) => Some(Some((h, p@.map_values(|i: usize| i as nat)))),
        Some(None) => Some(None),
        None => None,
    }
}

/// Whether the current run is the one of the enclosing symbol `(h, p)`.
fn same_run(run: &Option<Option<(bool, Vec<usize>)>>, h: bool, p: &Vec<usize>) -> (b: bool)
    ensures
        b == (run_view(*run) == Some(Some((h, p@.map_values(|i: usize| i as nat))))),
{
    match run {
        Some(Some((rh, rp))) => {
            if *rh != h {
                return false;
            }
            if rp.len() != p.len() {
                assert(rp@.map_values(|i: usize| i as nat).len() == rp@.len());
                assert(p@.map_values(|i: usize| i as nat).len() == p@.len());
                assert(rp@.map_values(|i: usize| i as nat) != p@.map_values(|i: usize| i as nat));
                return false;
            }
            let mut i: usize = 0;
            while i < p.len()
                invariant
                    i <= p@.len(),
                    rp@.len() == p@.len(),
                    run_view(*run) == Some(Some((h, rp@.map_values(|i: usize| i as nat)))),
                    forall|j: int| 0 <= j < i ==> rp@[j] == p@[j],
                decreases p.len() - i,
            {
                if rp[i] != p[i] {
                    assert(rp@.map_values(|i: usize| i as nat)[i as int] != p@.map_values(|i: usize| i as nat)[i as int]);
                    return false;
                }
                i = i + 1;
            }
            assert(rp@.map_values(|i: usize| i as nat) =~= p@.map_values(|i: usize| i as nat));
            true
        },
        _ => false,
    }
}

/// The header line of a run.
fn run_header_line(sym: &DocumentSymbol, hier: bool, content: Option<&String>) -> (r: Vec<char>)
    ensures
        r@ == run_header(*sym, hier, match content {
            Some(c) => Some(c@),
            None => None,
        }),
{
    let enc_line0: i128 = if hier {
        match sym.selection_start_line {
            Some(Some(l)) => l as i128,
            _ => 0,
        }
    } else {
        match &sym.location {
            Some(loc) => match loc.start_line {
                Some(l) => l as i128,
                None => 0,
            },
            None => 0,
        }
    };
    let detail = match &sym.detail {
        Some(d) => {
            let dc = chars_of(d.as_str());
            dc.len() > 0
        },
        None => false,
    };
    let sig: Option<String> = if detail || hier {
        None
    } else {
        match content {
            Some(c) => {
                let at: u64 = if enc_line0 < 0 {
                    0
                } else {
                    enc_line0 as u64
                };
                crate::tools::position::line_snippet(c.as_str(), at)
            },
            None => None,
        }
    };
    let label = symbol_name_and_detail(sym);
    let mut out = chars_of("  dans ");
    append_chars(&mut out, label.as_slice());
    match sig {
        Some(sg) => {
            let a = chars_of(" · ");
            append_chars(&mut out, a.as_slice());
            let b = chars_of(sg.as_str());
            append_chars(&mut out, b.as_slice());
        },
        None => {},
    }
    let m = chars_of(" — L");
    append_chars(&mut out, m.as_slice());
    let d = dec_i128_chars(enc_line0 + 1);
    append_chars(&mut out, d.as_slice());
    out
}

/// The line of one reference.
fn ref_line_exec(content: Option<&String>, l0: i64) -> (r: Vec<char>)
    ensures
        r@ == ref_line(match content {
            Some(c) => Some(c@),
            None => None,
        }, l0),
{
    let d = dec_i128_chars(l0 as i128 + 1);
    match content {
        Some(c) => {
            let at: u64 = if l0 < 0 {
                0
            } else {
                l0 as u64
            };
            let mut out = chars_of("    L");
            append_chars(&mut out, d.as_slice());
            match crate::tools::position::line_snippet(c.as_str(), at) {
                Some(sn) => {
                    let a = chars_of(": ");
                    append_chars(&mut out, a.as_slice());
                    let b = chars_of(sn.as_str());
                    append_chars(&mut out, b.as_slice());
                },
                None => {},
            }
            out
        },
        None => {
            let mut out = chars_of("  L");
            append_chars(&mut out, d.as_slice());
            out
        },
    }
}

/// The result of `textDocument/references` for `lsp_references`, grouped
/// by file, from what was already gathered: `displays[i]` is the display
/// path of reference `i`, `symbols_by_uri` the symbols of each file whose
/// outline was asked and `contents_by_uri` the text of each file read (only
/// files inside the workspace).
///
/// References without a URI are left out; the others are sorted by
/// (display path, line), the server's order kept between equal keys. The
/// text starts with `références ({n}):`; each file starts with its display
/// path; each run of references under one enclosing symbol (the deepest
/// hierarchical symbol covering the line, else the flat symbol of that file
/// that started last at or before it) starts with its header (see
/// `run_header`); each reference gives `    L{line}: {snippet}` in a file
/// that was read and `  L{line}` in one that was not (lines 1-based).
pub fn render_references_grouped(
    locations: &Vec<ReferenceLocation>,
    displays: &Vec<String>,
    symbols_by_uri: &Vec<(String, Vec<DocumentSymbol>)>,
    contents_by_uri: &Vec<(String, String)>,
) -> (r: String)
    requires
        displays@.len() == locations@.len(),
    ensures
        r@ == references_spec(
            locations@,
            displays@.map_values(|d: String| d@),
            symbols_view(symbols_by_uri@),
            contents_view(contents_by_uri@),
        ),
{
    let ghost dv = displays@.map_values(|d: String| d@);
    let ghost sv = symbols_view(symbols_by_uri@);
    let ghost cv = contents_view(contents_by_uri@);
    let mut sorted: Vec<RefItem> = Vec::new();
    let mut i: usize = 0;
    while i < locations.len()
        invariant
            i <= locations@.len(),
            displays@.len() == locations@.len(),
            dv == displays@.map_values(|d: String| d@),
            ref_views(sorted@) == sort_refs(collect_refs(locations@.take(i as int), dv)),
        decreases locations.len() - i,
    {
        proof {
            assert(locations@.take(i + 1).drop_last() =~= locations@.take(i as int));
            assert(locations@.take(i + 1).last() == locations@[i as int]);
            assert(dv[i as int] == displays@[i as int]@);
        }
        match &locations[i].uri {
            Some(u) => {
                let item = RefItem {
                    uri: chars_of(u.as_str()),
                    line0: locations[i].line0,
                    display: chars_of(displays[i].as_str()),
                };
                let ghost c = collect_refs(locations@.take(i as int), dv);
                insert_ref(&mut sorted, item);
                assert(collect_refs(locations@.take(i + 1), dv) == c.push(ref_view(item)));
                assert(c.push(ref_view(item)).drop_last() =~= c);
            },
            None => {},
        }
        i = i + 1;
    }
    assert(locations@.take(locations@.len() as int) =~= locations@);
    let ghost rs = ref_views(sorted@);
    let mut out: Vec<Vec<char>> = Vec::new();
    let mut cur: Option<Vec<char>> = None;
    let mut run: Option<Option<(bool, Vec<usize>)>> = None;
    let mut k: usize = 0;
    while k < sorted.len()
        invariant
            k <= sorted@.len(),
            rs == ref_views(sorted@),
            sv == symbols_view(symbols_by_uri@),
            cv == contents_view(contents_by_uri@),
            ref_scan(rs.take(k as int), sv, cv) == (
                views(out@),
                match cur {
                    Some(c) => Some(c@),
                    None => None::<Seq<char>>,
                },
                run_view(run),
            ),
        decreases sorted.len() - k,
    {
        proof {
            assert(rs.take(k + 1).drop_last() =~= rs.take(k as int));
            assert(rs.take(k + 1).last() == rs[k as int]);
        }
        let item = &sorted[k];
        let same_file = match &cur {
            Some(c) => crate::text::eq_chars(c.as_slice(), item.uri.as_slice()),
            None => false,
        };
        if !same_file {
            let d = item.display.clone();
            assert(d@ == item.display@);
            let ghost before = views(out@);
            out.push(d);
            assert(views(out@) =~= before.push(item.display@));
            run = None;
        }
        let si = find_symbols(symbols_by_uri, &item.uri);
        let ci = find_content(contents_by_uri, &item.uri);
        let content: Option<&String> = match ci {
            Some(c) => Some(&contents_by_uri[c].1),
            None => None,
        };
        let enc: Option<(bool, Vec<usize>, &DocumentSymbol)> = match si {
            Some(j) => {
                let ss = &symbols_by_uri[j].1;
                match deepest_from(ss, item.line0, true) {
                    Some((p, sym)) => Some((true, p, sym)),
                    None => match flat_best_exec(ss, Some(&item.uri), item.line0) {
                        Some(f) => {
                            let p = vec![f];
                            assert(p@.map_values(|i: usize| i as nat) =~= seq![f as nat]);
                            Some((false, p, &ss[f]))
                        },
                        None => None,
                    },
                }
            },
            None => None,
        };
        proof {
            assert(keep_of(Some(&item.uri)) == (|s: DocumentSymbol| is_flat_for(s, item.uri@)));
        }
        match enc {
            Some((h, p, sym)) => {
                if !same_run(&run, h, &p) {
                    let hl = run_header_line(sym, h, content);
                    let ghost before = views(out@);
                    let ghost hv = hl@;
                    out.push(hl);
                    assert(views(out@) =~= before.push(hv));
                }
                run = Some(Some((h, p)));
            },
            None => {
                run = Some(None);
            },
        }
        let rl = ref_line_exec(content, item.line0);
        let ghost before = views(out@);
        let ghost rv = rl@;
        out.push(rl);
        assert(views(out@) =~= before.push(rv));
        let nc = item.uri.clone();
        assert(nc@ == item.uri@);
        cur = Some(nc);
        k = k + 1;
    }
    assert(rs.take(sorted@.len() as int) =~= rs);
    let mut first = chars_of("références (");
    let d = crate::text::dec_chars(sorted.len() as u64);
    append_chars(&mut first, d.as_slice());
    let tail = chars_of("):");
    append_chars(&mut first, tail.as_slice());
    let mut all: Vec<Vec<char>> = vec![first];
    let ghost head = views(all@);
    let mut t: usize = 0;
    while t < out.len()
        invariant
            t <= out@.len(),
            views(all@) == head + views(out@).take(t as int),
        decreases out.len() - t,
    {
        let ghost before = views(all@);
        let l = out[t].clone();
        assert(l@ == out@[t as int]@);
        all.push(l);
        assert(views(all@) =~= before.push(out@[t as int]@));
        assert(views(out@).take(t + 1) =~= views(out@).take(t as int).push(out@[t as int]@));
        t = t + 1;
    }
    assert(views(out@).take(out@.len() as int) =~= views(out@));
    let sep = chars_of("\n");
    let joined = join_chars(&all, sep.as_slice());
    proof {
        assert(rs == sort_refs(collect_refs(locations@, dv)));
        assert(rs.len() == sorted@.len());
        assert(ref_scan(rs, sv, cv).0 == views(out@));
        assert(views(all@) == seq!["références ("@ + crate::text::dec(rs.len()) + "):"@] + ref_scan(rs, sv, cv).0);
    }
    string_of(joined.as_slice())
}

} // verus!
