//! Character-level models of the `str` operations the rest of the crate
//! relies on (`lines`, `split`, `splitn`, `trim`, decimal rendering), with
//! executable counterparts proved against them.

use vstd::prelude::*;

verus! {

// ── specifications ──────────────────────────────────────────────────────────

/// Index of the first `c` in `s`, or `s.len()` when `c` does not occur.
pub open spec fn first_index(s: Seq<char>, c: char) -> nat
    decreases s.len(),
{
    if s.len() == 0 {
        0
    } else if s[0] == c {
        0
    } else {
        1 + first_index(s.drop_first(), c)
    }
}

/// `str::split(c)`: the pieces between occurrences of `c` (always at least one).
pub open spec fn split(s: Seq<char>, c: char) -> Seq<Seq<char>>
    decreases s.len(),
{
    let i = first_index(s, c);
    if i >= s.len() {
        seq![s]
    } else {
        seq![s.take(i as int)].add(split(s.skip((i + 1) as int), c))
    }
}

/// `str::splitn(n, c)` for `n >= 1`: at most `n` pieces, the last one holding
/// the rest of the input.
pub open spec fn splitn(s: Seq<char>, n: nat, c: char) -> Seq<Seq<char>>
    decreases s.len(),
{
    let i = first_index(s, c);
    if n <= 1 || i >= s.len() {
        seq![s]
    } else {
        seq![s.take(i as int)].add(splitn(s.skip((i + 1) as int), (n - 1) as nat, c))
    }
}

/// A line of `str::lines` loses a `'\r'` that stood right before its `'\n'`.
pub open spec fn strip_cr(l: Seq<char>) -> Seq<char> {
    if l.len() > 0 && l.last() == '\r' {
        l.drop_last()
    } else {
        l
    }
}

/// `str::lines`: split on `'\n'`, a `"\r\n"` ending counts as one line end,
/// the final line ending is optional and the empty text has no line.
pub open spec fn lines(s: Seq<char>) -> Seq<Seq<char>>
    decreases s.len(),
{
    if s.len() == 0 {
        seq![]
    } else {
        let i = first_index(s, '\n');
        if i >= s.len() {
            seq![s]
        } else {
            seq![strip_cr(s.take(i as int))].add(lines(s.skip((i + 1) as int)))
        }
    }
}

/// `char::is_whitespace`: the Unicode `White_Space` property.
pub open spec fn is_ws(c: char) -> bool {
    let u = c as u32;
    (0x9 <= u && u <= 0xD) || u == 0x20 || u == 0x85 || u == 0xA0 || u == 0x1680 || (0x2000
        <= u && u <= 0x200A) || u == 0x2028 || u == 0x2029 || u == 0x202F || u == 0x205F || u
        == 0x3000
}

/// Number of leading whitespace characters.
pub open spec fn lead_ws(s: Seq<char>) -> nat
    decreases s.len(),
{
    if s.len() > 0 && is_ws(s[0]) {
        1 + lead_ws(s.drop_first())
    } else {
        0
    }
}

/// Number of trailing whitespace characters.
pub open spec fn trail_ws(s: Seq<char>) -> nat
    decreases s.len(),
{
    if s.len() > 0 && is_ws(s.last()) {
        1 + trail_ws(s.drop_last())
    } else {
        0
    }
}

/// `str::trim_start`.
pub open spec fn trim_start(s: Seq<char>) -> Seq<char> {
    s.skip(lead_ws(s) as int)
}

/// `str::trim_end`.
pub open spec fn trim_end(s: Seq<char>) -> Seq<char> {
    s.take(s.len() - trail_ws(s))
}

/// `str::trim`.
pub open spec fn trim(s: Seq<char>) -> Seq<char> {
    trim_end(trim_start(s))
}

/// `str::starts_with` for a sequence prefix.
pub open spec fn starts_with(s: Seq<char>, p: Seq<char>) -> bool {
    p.len() <= s.len() && s.take(p.len() as int) == p
}

/// `str::ends_with` for a sequence suffix.
pub open spec fn ends_with(s: Seq<char>, p: Seq<char>) -> bool {
    p.len() <= s.len() && s.skip(s.len() - p.len()) == p
}

/// The characters of each vector, in order.
pub open spec fn views(v: Seq<Vec<char>>) -> Seq<Seq<char>> {
    v.map_values(|p: Vec<char>| p@)
}

/// The character of a decimal digit `d < 10`.
pub open spec fn digit_char(d: nat) -> char {
    (('0' as u32) + d) as char
}

/// Decimal rendering of `n` (no sign, no leading zero), as `format!("{n}")`.
pub open spec fn dec(n: nat) -> Seq<char>
    decreases n,
{
    if n < 10 {
        seq![digit_char(n)]
    } else {
        dec(n / 10).push(digit_char(n % 10))
    }
}

// ── lemmas ──────────────────────────────────────────────────────────────────

/// `first_index` is the first position holding `c` (or the length).
pub proof fn lemma_first_index(s: Seq<char>, c: char)
    ensures
        first_index(s, c) <= s.len(),
        forall|k: int| 0 <= k < first_index(s, c) ==> s[k] != c,
        first_index(s, c) < s.len() ==> s[first_index(s, c) as int] == c,
    decreases s.len(),
{
    if s.len() > 0 && s[0] != c {
        lemma_first_index(s.drop_first(), c);
        assert forall|k: int| 0 <= k < first_index(s, c) implies s[k] != c by {
            if k > 0 {
                assert(s[k] == s.drop_first()[k - 1]);
            }
        }
    }
}

/// A position with no `c` before it and `c` at it (or the end) is `first_index`.
pub proof fn lemma_first_index_is(s: Seq<char>, c: char, j: int)
    requires
        0 <= j <= s.len(),
        forall|k: int| 0 <= k < j ==> s[k] != c,
        j < s.len() ==> s[j] == c,
    ensures
        first_index(s, c) == j,
    decreases s.len(),
{
    if s.len() > 0 && j > 0 {
        assert(s[0] != c);
        assert forall|k: int| 0 <= k < j - 1 implies s.drop_first()[k] != c by {
            assert(s.drop_first()[k] == s[k + 1]);
        }
        lemma_first_index_is(s.drop_first(), c, j - 1);
    }
}

// ── executable counterparts ─────────────────────────────────────────────────

/// `String::push`: appends one character.
pub assume_specification[ String::push ](s: &mut String, ch: char)
    ensures
        final(s)@ == old(s)@.push(ch),
;

/// The characters of `s`, in order.
pub fn chars_of(s: &str) -> (v: Vec<char>)
    ensures
        v@ == s@,
{
    let mut v: Vec<char> = Vec::new();
    for c in it: s.chars()
        invariant
            v@ == it.seq().take(it.index() as int),
            it.seq() == s@,
    {
        v.push(c);
    }
    v
}

/// A `String` holding exactly the characters of `v`.
pub fn string_of(v: &[char]) -> (s: String)
    ensures
        s@ == v@,
{
    let mut s = String::new();
    let mut i: usize = 0;
    while i < v.len()
        invariant
            i <= v.len(),
            s@ == v@.take(i as int),
        decreases v.len() - i,
    {
        s.push(v[i]);
        i = i + 1;
        assert(s@ == v@.take(i as int));
    }
    assert(v@.take(v.len() as int) == v@);
    s
}

/// `String` form of each vector.
pub fn strings_of(v: &Vec<Vec<char>>) -> (r: Vec<String>)
    ensures
        r@.len() == v@.len(),
        forall|i: int| 0 <= i < v@.len() ==> #[trigger] r@[i]@ == v@[i]@,
{
    let mut r: Vec<String> = Vec::new();
    let mut i: usize = 0;
    while i < v.len()
        invariant
            i <= v.len(),
            r@.len() == i,
            forall|k: int| 0 <= k < i ==> #[trigger] r@[k]@ == v@[k]@,
        decreases v.len() - i,
    {
        let s = string_of(v[i].as_slice());
        r.push(s);
        i = i + 1;
    }
    r
}

/// Copy of `v[a..b]`.
pub fn copy_range<T: Copy>(v: &[T], a: usize, b: usize) -> (r: Vec<T>)
    requires
        a <= b <= v@.len(),
    ensures
        r@ == v@.subrange(a as int, b as int),
{
    let mut r: Vec<T> = Vec::new();
    let mut i: usize = a;
    while i < b
        invariant
            a <= i <= b <= v@.len(),
            r@ == v@.subrange(a as int, i as int),
        decreases b - i,
    {
        r.push(v[i]);
        i = i + 1;
        assert(r@ == v@.subrange(a as int, i as int));
    }
    r
}

/// Position of the first `c` at or after `from` (or `v.len()`).
pub fn find_char(v: &[char], from: usize, c: char) -> (j: usize)
    requires
        from <= v@.len(),
    ensures
        from <= j <= v@.len(),
        j == from + first_index(v@.skip(from as int), c),
        forall|k: int| from <= k < j ==> v@[k] != c,
        j < v@.len() ==> v@[j as int] == c,
{
    let mut j = from;
    while j < v.len() && v[j] != c
        invariant
            from <= j <= v@.len(),
            forall|k: int| from <= k < j ==> v@[k] != c,
        decreases v.len() - j,
    {
        j = j + 1;
    }
    proof {
        let t = v@.skip(from as int);
        assert forall|k: int| 0 <= k < j - from implies t[k] != c by {
            assert(t[k] == v@[k + from]);
        }
        lemma_first_index_is(t, c, j - from);
    }
    j
}

/// `str::split(c)` on characters.
pub fn split_chars(v: &[char], c: char) -> (r: Vec<Vec<char>>)
    ensures
        views(r@) == split(v@, c),
{
    let mut acc: Vec<Vec<char>> = Vec::new();
    let mut pos: usize = 0;
    assert(v@.skip(0) =~= v@);
    assert(views(acc@) =~= Seq::<Seq<char>>::empty());
    loop
        invariant
            pos <= v@.len(),
            split(v@, c) == views(acc@) + split(v@.skip(pos as int), c),
        decreases v@.len() - pos,
    {
        let ghost t = v@.skip(pos as int);
        let j = find_char(v, pos, c);
        let piece = copy_range(v, pos, j);
        let ghost old_acc = acc@;
        acc.push(piece);
        assert(views(acc@) == views(old_acc).push(piece@));
        if j >= v.len() {
            assert(piece@ == t);
            assert(split(t, c) == seq![t]);
            assert(split(v@, c) == views(acc@));
            return acc;
        }
        assert(t.take((j - pos) as int) == piece@);
        assert(t.skip(j - pos + 1) == v@.skip(j + 1));
        assert(split(t, c) == seq![piece@].add(split(v@.skip(j + 1), c)));
        pos = j + 1;
        assert(split(v@, c) == views(acc@) + split(v@.skip(pos as int), c));
    }
}

/// `str::splitn(n, c)` on characters (`n >= 1`).
pub fn splitn_chars(v: &[char], n: usize, c: char) -> (r: Vec<Vec<char>>)
    requires
        n >= 1,
    ensures
        views(r@) == splitn(v@, n as nat, c),
{
    let mut acc: Vec<Vec<char>> = Vec::new();
    let mut pos: usize = 0;
    let mut left: usize = n;
    assert(v@.skip(0) =~= v@);
    assert(views(acc@) =~= Seq::<Seq<char>>::empty());
    loop
        invariant
            pos <= v@.len(),
            left >= 1,
            splitn(v@, n as nat, c) == views(acc@) + splitn(v@.skip(pos as int), left as nat, c),
        decreases v@.len() - pos,
    {
        let ghost t = v@.skip(pos as int);
        let j = find_char(v, pos, c);
        let ghost old_acc = acc@;
        if left <= 1 || j >= v.len() {
            let piece = copy_range(v, pos, v.len());
            acc.push(piece);
            assert(views(acc@) == views(old_acc).push(piece@));
            assert(piece@ == t);
            assert(splitn(t, left as nat, c) == seq![t]);
            return acc;
        }
        let piece = copy_range(v, pos, j);
        acc.push(piece);
        assert(views(acc@) == views(old_acc).push(piece@));
        assert(t.take((j - pos) as int) == piece@);
        assert(t.skip(j - pos + 1) == v@.skip(j + 1));
        assert(splitn(t, left as nat, c) == seq![piece@].add(
            splitn(v@.skip(j + 1), (left - 1) as nat, c),
        ));
        pos = j + 1;
        left = left - 1;
    }
}

/// `str::lines` on characters.
pub fn lines_of(v: &[char]) -> (r: Vec<Vec<char>>)
    ensures
        views(r@) == lines(v@),
{
    let mut acc: Vec<Vec<char>> = Vec::new();
    let mut pos: usize = 0;
    assert(v@.skip(0) =~= v@);
    assert(views(acc@) =~= Seq::<Seq<char>>::empty());
    loop
        invariant
            pos <= v@.len(),
            lines(v@) == views(acc@) + lines(v@.skip(pos as int)),
        decreases v@.len() - pos,
    {
        let ghost t = v@.skip(pos as int);
        if pos >= v.len() {
            assert(t.len() == 0);
            assert(lines(v@) == views(acc@));
            return acc;
        }
        let j = find_char(v, pos, '\n');
        let ghost old_acc = acc@;
        if j >= v.len() {
            let piece = copy_range(v, pos, j);
            acc.push(piece);
            assert(views(acc@) == views(old_acc).push(piece@));
            assert(piece@ == t);
            assert(lines(t) == seq![t]);
            return acc;
        }
        let end = if j > pos && v[j - 1] == '\r' {
            j - 1
        } else {
            j
        };
        let piece = copy_range(v, pos, end);
        acc.push(piece);
        assert(views(acc@) == views(old_acc).push(piece@));
        assert(strip_cr(t.take((j - pos) as int)) == piece@);
        assert(t.skip(j - pos + 1) == v@.skip(j + 1));
        assert(lines(t) == seq![piece@].add(lines(v@.skip(j + 1))));
        pos = j + 1;
    }
}

/// `char::is_whitespace`.
pub fn is_whitespace(c: char) -> (b: bool)
    ensures
        b == is_ws(c),
{
    let u = c as u32;
    (0x9 <= u && u <= 0xD) || u == 0x20 || u == 0x85 || u == 0xA0 || u == 0x1680 || (0x2000
        <= u && u <= 0x200A) || u == 0x2028 || u == 0x2029 || u == 0x202F || u == 0x205F || u
        == 0x3000
}

/// `lead_ws` is the length of the whitespace run at the front.
pub proof fn lemma_lead_ws_is(s: Seq<char>, j: int)
    requires
        0 <= j <= s.len(),
        forall|k: int| 0 <= k < j ==> is_ws(s[k]),
        j < s.len() ==> !is_ws(s[j]),
    ensures
        lead_ws(s) == j,
    decreases s.len(),
{
    if j > 0 {
        assert forall|k: int| 0 <= k < j - 1 implies is_ws(s.drop_first()[k]) by {
            assert(s.drop_first()[k] == s[k + 1]);
        }
        lemma_lead_ws_is(s.drop_first(), j - 1);
    }
}

/// `trail_ws` is the length of the whitespace run at the back.
pub proof fn lemma_trail_ws_is(s: Seq<char>, j: int)
    requires
        0 <= j <= s.len(),
        forall|k: int| s.len() - j <= k < s.len() ==> is_ws(s[k]),
        j < s.len() ==> !is_ws(s[s.len() - j - 1]),
    ensures
        trail_ws(s) == j,
    decreases s.len(),
{
    if j > 0 {
        let d = s.drop_last();
        assert forall|k: int| d.len() - (j - 1) <= k < d.len() implies is_ws(d[k]) by {
            assert(d[k] == s[k]);
        }
        if j - 1 < d.len() {
            assert(d[d.len() - (j - 1) - 1] == s[s.len() - j - 1]);
        }
        lemma_trail_ws_is(d, j - 1);
    }
}

/// `str::trim` on characters.
pub fn trim_chars(v: &[char]) -> (r: Vec<char>)
    ensures
        r@ == trim(v@),
{
    let mut a: usize = 0;
    while a < v.len() && is_whitespace(v[a])
        invariant
            a <= v@.len(),
            forall|k: int| 0 <= k < a ==> is_ws(v@[k]),
        decreases v.len() - a,
    {
        a = a + 1;
    }
    proof {
        lemma_lead_ws_is(v@, a as int);
    }
    let ghost t = v@.skip(a as int);
    let mut b: usize = v.len();
    while b > a && is_whitespace(v[b - 1])
        invariant
            a <= b <= v@.len(),
            forall|k: int| b <= k < v@.len() ==> is_ws(v@[k]),
        decreases b - a,
    {
        b = b - 1;
    }
    proof {
        let m = (v.len() - b) as int;
        assert forall|k: int| t.len() - m <= k < t.len() implies is_ws(t[k]) by {
            assert(t[k] == v@[k + a]);
        }
        if m < t.len() {
            assert(t[t.len() - m - 1] == v@[b - 1]);
        }
        lemma_trail_ws_is(t, m);
        assert(trim(v@) == t.take(t.len() - m));
        assert(t.take(t.len() - m) == v@.subrange(a as int, b as int));
    }
    copy_range(v, a, b)
}

/// Exec `starts_with` on characters.
pub fn starts_with_chars(s: &[char], p: &[char]) -> (b: bool)
    ensures
        b == starts_with(s@, p@),
{
    if p.len() > s.len() {
        return false;
    }
    let mut i: usize = 0;
    while i < p.len()
        invariant
            i <= p@.len() <= s@.len(),
            forall|k: int| 0 <= k < i ==> s@[k] == p@[k],
        decreases p.len() - i,
    {
        if s[i] != p[i] {
            assert(s@.take(p@.len() as int)[i as int] != p@[i as int]);
            return false;
        }
        i = i + 1;
    }
    assert(s@.take(p@.len() as int) == p@);
    true
}

/// Exec `ends_with` on characters.
pub fn ends_with_chars(s: &[char], p: &[char]) -> (b: bool)
    ensures
        b == ends_with(s@, p@),
{
    if p.len() > s.len() {
        return false;
    }
    let off = s.len() - p.len();
    let mut i: usize = 0;
    while i < p.len()
        invariant
            off + p.len() == s.len(),
            i <= p@.len(),
            forall|k: int| 0 <= k < i ==> s@[off + k] == p@[k],
        decreases p.len() - i,
    {
        if s[off + i] != p[i] {
            assert(s@.skip(off as int)[i as int] != p@[i as int]);
            return false;
        }
        i = i + 1;
    }
    assert(s@.skip(off as int) == p@);
    true
}

/// Exec equality of character sequences.
pub fn eq_chars(a: &[char], b: &[char]) -> (r: bool)
    ensures
        r == (a@ == b@),
{
    if a.len() != b.len() {
        return false;
    }
    let mut i: usize = 0;
    while i < a.len()
        invariant
            a@.len() == b@.len(),
            i <= a@.len(),
            forall|k: int| 0 <= k < i ==> a@[k] == b@[k],
        decreases a.len() - i,
    {
        if a[i] != b[i] {
            return false;
        }
        i = i + 1;
    }
    assert(a@ == b@);
    true
}

/// Appends the characters of `src` to `dst`.
pub fn append_chars(dst: &mut Vec<char>, src: &[char])
    ensures
        final(dst)@ == old(dst)@ + src@,
{
    let mut i: usize = 0;
    while i < src.len()
        invariant
            i <= src@.len(),
            dst@ == old(dst)@ + src@.take(i as int),
        decreases src.len() - i,
    {
        dst.push(src[i]);
        i = i + 1;
        assert(dst@ == old(dst)@ + src@.take(i as int));
    }
    assert(src@.take(src@.len() as int) == src@);
}

/// Appends the bytes of `src` to `dst`.
pub fn append_bytes(dst: &mut Vec<u8>, src: &[u8])
    ensures
        final(dst)@ == old(dst)@ + src@,
{
    let mut i: usize = 0;
    while i < src.len()
        invariant
            i <= src@.len(),
            dst@ == old(dst)@ + src@.take(i as int),
        decreases src.len() - i,
    {
        dst.push(src[i]);
        i = i + 1;
        assert(dst@ == old(dst)@ + src@.take(i as int));
    }
    assert(src@.take(src@.len() as int) == src@);
}

/// Decimal rendering of `n`.
pub fn dec_chars(n: u64) -> (r: Vec<char>)
    ensures
        r@ == dec(n as nat),
{
    let mut tail: Vec<char> = Vec::new();
    let mut q: u64 = n;
    while q >= 10
        invariant
            dec(n as nat) == dec(q as nat) + tail@,
        decreases q,
    {
        let d = q % 10;
        let ch = char_of_digit(d);
        let ghost old_tail = tail@;
        tail.insert(0, ch);
        assert(tail@ == seq![digit_char(d as nat)] + old_tail);
        assert(dec(q as nat) == dec((q / 10) as nat).push(digit_char((q % 10) as nat)));
        assert(dec((q / 10) as nat).push(digit_char(d as nat)) + old_tail == dec((q / 10) as nat)
            + tail@);
        q = q / 10;
    }
    let ch = char_of_digit(q);
    tail.insert(0, ch);
    tail
}

/// The character of digit `d`.
pub fn char_of_digit(d: u64) -> (c: char)
    requires
        d < 10,
    ensures
        c == digit_char(d as nat),
{
    let c = match d {
        0 => '0',
        1 => '1',
        2 => '2',
        3 => '3',
        4 => '4',
        5 => '5',
        6 => '6',
        7 => '7',
        8 => '8',
        _ => '9',
    };
    c
}

/// A `String` holding the decimal rendering of `n`.
pub fn dec_string(n: u64) -> (s: String)
    ensures
        s@ == dec(n as nat),
{
    let v = dec_chars(n);
    string_of(v.as_slice())
}


/// The pieces joined with `sep` between them, as `[..].join(sep)`.
pub open spec fn join_with(ls: Seq<Seq<char>>, sep: Seq<char>) -> Seq<char>
    decreases ls.len(),
{
    if ls.len() == 0 {
        seq![]
    } else if ls.len() == 1 {
        ls[0]
    } else {
        join_with(ls.drop_last(), sep) + sep + ls.last()
    }
}

/// The pieces joined with `sep` between them.
pub fn join_chars(ls: &Vec<Vec<char>>, sep: &[char]) -> (r: Vec<char>)
    ensures
        r@ == join_with(views(ls@), sep@),
{
    let mut out: Vec<char> = Vec::new();
    let mut i: usize = 0;
    while i < ls.len()
        invariant
            i <= ls@.len(),
            out@ == join_with(views(ls@).take(i as int), sep@),
        decreases ls.len() - i,
    {
        let ghost t = views(ls@).take(i + 1);
        assert(t.drop_last() =~= views(ls@).take(i as int));
        assert(t.last() == ls@[i as int]@);
        if i > 0 {
            append_chars(&mut out, sep);
        } else {
            assert(views(ls@).take(0) =~= Seq::<Seq<char>>::empty());
        }
        append_chars(&mut out, ls[i].as_slice());
        if i == 0 {
            assert(out@ =~= t[0]);
        }
        i = i + 1;
    }
    assert(views(ls@).take(ls@.len() as int) =~= views(ls@));
    out
}

/// Decimal rendering of a 128-bit `n`.
pub fn dec_chars_wide(n: u128) -> (r: Vec<char>)
    ensures
        r@ == dec(n as nat),
{
    let mut tail: Vec<char> = Vec::new();
    let mut q: u128 = n;
    while q >= 10
        invariant
            dec(n as nat) == dec(q as nat) + tail@,
        decreases q,
    {
        let d = q % 10;
        let ch = char_of_digit(d as u64);
        let ghost old_tail = tail@;
        tail.insert(0, ch);
        assert(tail@ == seq![digit_char(d as nat)] + old_tail);
        assert(dec(q as nat) == dec((q / 10) as nat).push(digit_char((q % 10) as nat)));
        assert(dec((q / 10) as nat).push(digit_char(d as nat)) + old_tail == dec((q / 10) as nat)
            + tail@);
        q = q / 10;
    }
    let ch = char_of_digit(q as u64);
    tail.insert(0, ch);
    tail
}

} // verus!
