//! `Content-Length` framing of the LSP stdio transport.

use vstd::prelude::*;
use crate::text::{
    dec, digit_char, lines, lines_of, starts_with, starts_with_chars, trim, trim_chars, views,
    copy_range, dec_chars, is_ws, lead_ws, trail_ws, first_index, lemma_first_index_is,
    lemma_lead_ws_is, lemma_trail_ws_is,
};

verus! {

// ── decimal numbers ─────────────────────────────────────────────────────────

/// `c` is an ASCII digit.
pub open spec fn is_digit(c: char) -> bool {
    '0' <= c && c <= '9'
}

/// Value of a digit string.
pub open spec fn digits_value(s: Seq<char>) -> nat
    decreases s.len(),
{
    if s.len() == 0 {
        0
    } else {
        digits_value(s.drop_last()) * 10 + ((s.last() as u32) - ('0' as u32)) as nat
    }
}

/// The text after an optional leading `+`.
pub open spec fn unsigned_digits(s: Seq<char>) -> Seq<char> {
    if s.len() > 0 && s[0] == '+' {
        s.drop_first()
    } else {
        s
    }
}

/// Every character is an ASCII digit.
pub open spec fn all_digits(t: Seq<char>) -> bool {
    forall|i: int| 0 <= i < t.len() ==> is_digit(#[trigger] t[i])
}

/// `str::parse::<usize>`: an optional `+`, then one or more ASCII digits whose
/// value fits in a `usize`.
pub open spec fn parse_usize(s: Seq<char>) -> Option<nat> {
    let t = unsigned_digits(s);
    if t.len() > 0 && all_digits(t) && digits_value(t) <= usize::MAX {
        Some(digits_value(t))
    } else {
        None
    }
}

/// Every character of a decimal rendering is a digit, and its value is the
/// number rendered.
pub proof fn lemma_dec_digits(n: nat)
    ensures
        dec(n).len() > 0,
        forall|i: int| 0 <= i < dec(n).len() ==> is_digit(#[trigger] dec(n)[i]),
        digits_value(dec(n)) == n,
    decreases n,
{
    assert((digit_char(n % 10) as u32) == ('0' as u32) + n % 10);
    if n >= 10 {
        lemma_dec_digits(n / 10);
        let d = dec(n / 10);
        assert(dec(n) == d.push(digit_char(n % 10)));
        assert(dec(n).drop_last() == d);
        assert(dec(n).last() == digit_char(n % 10));
        assert(digits_value(dec(n)) == digits_value(d) * 10 + n % 10);
        assert(n == (n / 10) * 10 + n % 10);
        assert(dec(n).drop_last() == d);
        assert forall|i: int| 0 <= i < dec(n).len() implies is_digit(#[trigger] dec(n)[i]) by {
            if i < d.len() {
                assert(dec(n)[i] == d[i]);
            }
        }
    } else {
        assert(dec(n).drop_last() =~= Seq::<char>::empty());
        assert(digits_value(Seq::<char>::empty()) == 0);
        assert(n % 10 == n);
    }
}

/// Parsing a decimal rendering gives the number back.
pub proof fn lemma_parse_dec(n: nat)
    requires
        n <= usize::MAX,
    ensures
        parse_usize(dec(n)) == Some(n),
{
    lemma_dec_digits(n);
    assert(dec(n)[0] != '+');
}

/// Exec `str::parse::<usize>` on characters.
pub fn parse_usize_chars(s: &[char]) -> (r: Option<usize>)
    ensures
        match parse_usize(s@) {
            Some(n) => r == Some(n as usize),
            None => r is None,
        },
{
    let start: usize = if s.len() > 0 && s[0] == '+' {
        1
    } else {
        0
    };
    let ghost t = unsigned_digits(s@);
    assert(t == s@.skip(start as int));
    if start >= s.len() {
        return None;
    }
    let mut value: usize = 0;
    let mut i: usize = start;
    while i < s.len()
        invariant
            start <= i <= s@.len(),
            t == s@.skip(start as int),
            t == unsigned_digits(s@),
            forall|k: int| start <= k < i ==> is_digit(#[trigger] s@[k]),
            value == digits_value(s@.subrange(start as int, i as int)),
        decreases s.len() - i,
    {
        let c = s[i];
        if !('0' <= c && c <= '9') {
            assert(!is_digit(t[i - start]));
            assert(t == unsigned_digits(s@));
            assert(!all_digits(t));
            assert(parse_usize(s@) is None);
            return None;
        }
        let d = (c as u32 - '0' as u32) as usize;
        let ghost sub = s@.subrange(start as int, i + 1);
        assert(sub.drop_last() == s@.subrange(start as int, i as int));
        if value > (usize::MAX - d) / 10 {
            proof {
                assert(digits_value(sub) == value * 10 + d);
                assert(value * 10 + d > usize::MAX) by (nonlinear_arith)
                    requires
                        value > (usize::MAX - d) / 10,
                        d <= 9,
                ;
                assert(t.take((i + 1 - start) as int) == sub);
                if forall|k: int| 0 <= k < t.len() ==> is_digit(#[trigger] t[k]) {
                    lemma_digits_value_prefix_mono(t, (i + 1 - start) as int);
                }
                assert(parse_usize(s@) is None);
            }
            return None;
        }
        assert(value * 10 + d <= usize::MAX) by (nonlinear_arith)
            requires
                value <= (usize::MAX - d) / 10,
                d <= 9,
        ;
        value = value * 10 + d;
        i = i + 1;
    }
    assert(s@.subrange(start as int, s@.len() as int) == t);
    Some(value)
}

/// The value of a digit string is at least the value of any prefix.
pub proof fn lemma_digits_value_prefix_mono(t: Seq<char>, k: int)
    requires
        0 <= k <= t.len(),
        forall|i: int| 0 <= i < t.len() ==> is_digit(#[trigger] t[i]),
    ensures
        digits_value(t) >= digits_value(t.take(k)),
    decreases t.len() - k,
{
    if k < t.len() {
        lemma_digits_value_prefix_mono(t, k + 1);
        let p = t.take(k + 1);
        assert(p.drop_last() == t.take(k));
        assert(is_digit(t[k]));
        assert(p.last() == t[k]);
    } else {
        assert(t.take(k) == t);
    }
}

// ── encoding ────────────────────────────────────────────────────────────────

/// ASCII bytes of `Content-Length: `.
pub open spec fn header_prefix() -> Seq<u8> {
    seq![67u8, 111, 110, 116, 101, 110, 116, 45, 76, 101, 110, 103, 116, 104, 58, 32]
}

/// The header/body separator `\r\n\r\n`.
pub open spec fn header_end() -> Seq<u8> {
    seq![13u8, 10, 13, 10]
}

/// ASCII bytes of a character sequence made of ASCII characters.
pub open spec fn ascii_bytes(s: Seq<char>) -> Seq<u8> {
    s.map_values(|c: char| c as u8)
}

/// The frame of a payload: `Content-Length: N\r\n\r\n` then the payload.
pub open spec fn frame_bytes(p: Seq<u8>) -> Seq<u8> {
    header_prefix() + ascii_bytes(dec(p.len())) + header_end() + p
}

/// Encodes a JSON-RPC payload as an LSP stdio frame:
/// `Content-Length: N\r\n\r\n` followed by the payload.
pub fn encode_message(payload: &[u8]) -> (r: Vec<u8>)
    ensures
        r@ == frame_bytes(payload@),
{
    let mut buf: Vec<u8> = vec![67u8, 111, 110, 116, 101, 110, 116, 45, 76, 101, 110, 103, 116, 104, 58, 32];
    assert(buf@ == header_prefix());
    let digits = dec_chars(payload.len() as u64);
    let mut i: usize = 0;
    while i < digits.len()
        invariant
            i <= digits@.len(),
            digits@ == dec(payload@.len()),
            buf@ == header_prefix() + ascii_bytes(digits@.take(i as int)),
        decreases digits.len() - i,
    {
        let ghost before = buf@;
        buf.push(digits[i] as u8);
        assert(ascii_bytes(digits@.take(i + 1)) == ascii_bytes(digits@.take(i as int)).push(
            digits@[i as int] as u8,
        ));
        i = i + 1;
    }
    assert(digits@.take(digits@.len() as int) == digits@);
    buf.push(13u8);
    buf.push(10u8);
    buf.push(13u8);
    buf.push(10u8);
    let mut j: usize = 0;
    let ghost head = buf@;
    assert(head == header_prefix() + ascii_bytes(dec(payload@.len())) + header_end());
    while j < payload.len()
        invariant
            j <= payload@.len(),
            buf@ == head + payload@.take(j as int),
        decreases payload.len() - j,
    {
        buf.push(payload[j]);
        j = j + 1;
        assert(buf@ == head + payload@.take(j as int));
    }
    assert(payload@.take(payload@.len() as int) == payload@);
    buf
}

// ── decoding ────────────────────────────────────────────────────────────────

/// Lossy UTF-8 decoding of bytes (`String::from_utf8_lossy`).
pub uninterp spec fn utf8_lossy(b: Seq<u8>) -> Seq<char>;

/// `String::from_utf8_lossy`: decodes UTF-8, each invalid sequence replaced by
/// U+FFFD. The contract names the result and says nothing more.
#[verifier::external_body]
fn decode_utf8_lossy(b: &[u8]) -> (s: String)
    ensures
        s@ == utf8_lossy(b@),
{
    String::from_utf8_lossy(b).into_owned()
}

/// Every byte is ASCII.
pub open spec fn all_ascii(b: Seq<u8>) -> bool {
    forall|i: int| 0 <= i < b.len() ==> #[trigger] b[i] < 128
}

/// The characters of a header: ASCII bytes map one to one (UTF-8 decodes an
/// ASCII byte to the character of the same code), anything else goes through
/// lossy decoding.
pub open spec fn header_chars(b: Seq<u8>) -> Seq<char> {
    if all_ascii(b) {
        b.map_values(|x: u8| x as char)
    } else {
        utf8_lossy(b)
    }
}

/// `char::to_ascii_lowercase`.
pub open spec fn ascii_lower(c: char) -> char {
    if 'A' <= c && c <= 'Z' {
        ((c as u32) + 32) as char
    } else {
        c
    }
}

/// `str::to_ascii_lowercase`.
pub open spec fn lower_seq(s: Seq<char>) -> Seq<char> {
    s.map_values(|c: char| ascii_lower(c))
}

/// `content-length:`.
pub open spec fn cl_key() -> Seq<char> {
    seq!['c', 'o', 'n', 't', 'e', 'n', 't', '-', 'l', 'e', 'n', 'g', 't', 'h', ':']
}

/// An announced length fits in a `usize`.
pub proof fn lemma_first_content_length_fits(ls: Seq<Seq<char>>)
    ensures
        first_content_length(ls) matches Some(n) ==> n <= usize::MAX,
    decreases ls.len(),
{
    if ls.len() > 0 {
        lemma_first_content_length_fits(ls.drop_first());
    }
}

/// The length a header line announces: the line trimmed and lowercased must
/// start with `content-length:` and the rest, trimmed, must parse as a `usize`.
pub open spec fn line_content_length(line: Seq<char>) -> Option<nat> {
    let t = lower_seq(trim(line));
    if starts_with(t, cl_key()) {
        parse_usize(trim(t.skip(cl_key().len() as int)))
    } else {
        None
    }
}

/// The first length announced by a header line.
pub open spec fn first_content_length(ls: Seq<Seq<char>>) -> Option<nat>
    decreases ls.len(),
{
    if ls.len() == 0 {
        None
    } else {
        match line_content_length(ls[0]) {
            Some(n) => Some(n),
            None => first_content_length(ls.drop_first()),
        }
    }
}

/// `\r\n\r\n` starts at `k`.
pub open spec fn term_at(b: Seq<u8>, k: int) -> bool {
    0 <= k && k + 4 <= b.len() && b[k] == 13 && b[k + 1] == 10 && b[k + 2] == 13 && b[k + 3] == 10
}

/// First position at or after `k` where `\r\n\r\n` starts.
pub open spec fn find_term(b: Seq<u8>, k: nat) -> Option<nat>
    decreases b.len() - k,
{
    if k + 4 > b.len() {
        None
    } else if term_at(b, k as int) {
        Some(k)
    } else {
        find_term(b, k + 1)
    }
}

/// Position of the header terminator and announced length, when both exist.
pub open spec fn frame_header(b: Seq<u8>) -> Option<(nat, nat)> {
    match find_term(b, 0) {
        None => None,
        Some(pos) => match first_content_length(lines(header_chars(b.take(pos as int)))) {
            None => None,
            Some(cl) => Some((pos, cl)),
        },
    }
}

/// The first complete frame of a buffer: its payload and the number of bytes
/// it occupies.
pub open spec fn next_frame_spec(b: Seq<u8>) -> Option<(Seq<u8>, nat)> {
    match frame_header(b) {
        None => None,
        Some((pos, cl)) => if pos + 4 + cl > b.len() {
            None
        } else {
            Some((b.subrange((pos + 4) as int, (pos + 4 + cl) as int), pos + 4 + cl))
        },
    }
}

/// Reading the buffer would overflow a `usize` in the end-of-frame sum.
pub open spec fn frame_overflows(b: Seq<u8>) -> bool {
    match frame_header(b) {
        Some((pos, cl)) => pos + 4 + cl > usize::MAX,
        None => false,
    }
}

/// Incremental decoder of `Content-Length` frames over a byte stream.
pub struct FrameReader {
    buf: Vec<u8>,
}

impl View for FrameReader {
    type V = Seq<u8>;

    /// The bytes received and not yet consumed.
    closed spec fn view(&self) -> Seq<u8> {
        self.buf@
    }
}

/// Lowercased characters (ASCII letters only).
pub fn lower_chars(s: &[char]) -> (r: Vec<char>)
    ensures
        r@ == lower_seq(s@),
{
    let mut r: Vec<char> = Vec::new();
    let mut i: usize = 0;
    while i < s.len()
        invariant
            i <= s@.len(),
            r@ == lower_seq(s@.take(i as int)),
        decreases s.len() - i,
    {
        let c = s[i];
        let l = if 'A' <= c && c <= 'Z' {
            ((c as u32) + 32) as u8 as char
        } else {
            c
        };
        assert(l == ascii_lower(c)) by {
            if 'A' <= c && c <= 'Z' {
                assert(((c as u32) + 32) as u8 as char == ((c as u32) + 32) as char);
            }
        }
        r.push(l);
        assert(lower_seq(s@.take(i + 1)) == lower_seq(s@.take(i as int)).push(ascii_lower(c)));
        i = i + 1;
    }
    assert(s@.take(s@.len() as int) == s@);
    r
}

/// The length announced by one header line.
fn line_length(line: &[char]) -> (r: Option<usize>)
    ensures
        match line_content_length(line@) {
            Some(n) => r == Some(n as usize),
            None => r is None,
        },
{
    let t = trim_chars(line);
    let low = lower_chars(t.as_slice());
    let key = vec!['c', 'o', 'n', 't', 'e', 'n', 't', '-', 'l', 'e', 'n', 'g', 't', 'h', ':'];
    assert(key@ == cl_key());
    if !starts_with_chars(low.as_slice(), key.as_slice()) {
        return None;
    }
    let rest = copy_range(low.as_slice(), key.len(), low.len());
    assert(rest@ == low@.skip(cl_key().len() as int));
    let v = trim_chars(rest.as_slice());
    parse_usize_chars(v.as_slice())
}

/// Header characters of `b`.
fn header_text(b: &[u8]) -> (r: Vec<char>)
    ensures
        r@ == header_chars(b@),
{
    let mut i: usize = 0;
    while i < b.len()
        invariant
            i <= b@.len(),
            forall|k: int| 0 <= k < i ==> #[trigger] b@[k] < 128,
        decreases b.len() - i,
    {
        if b[i] >= 128 {
            let s = decode_utf8_lossy(b);
            return crate::text::chars_of(s.as_str());
        }
        i = i + 1;
    }
    let mut r: Vec<char> = Vec::new();
    let mut j: usize = 0;
    while j < b.len()
        invariant
            j <= b@.len(),
            r@ == b@.take(j as int).map_values(|x: u8| x as char),
        decreases b.len() - j,
    {
        r.push(b[j] as char);
        assert(b@.take(j + 1).map_values(|x: u8| x as char) == b@.take(j as int).map_values(
            |x: u8| x as char,
        ).push(b@[j as int] as char));
        j = j + 1;
    }
    assert(b@.take(b@.len() as int) == b@);
    r
}

impl FrameReader {
    /// An empty decoder.
    pub fn new() -> (r: FrameReader)
        ensures
            r@ == Seq::<u8>::empty(),
    {
        FrameReader { buf: Vec::new() }
    }

    /// Appends a chunk of bytes to the internal buffer.
    pub fn push(&mut self, chunk: &[u8])
        ensures
            final(self)@ == old(self)@ + chunk@,
    {
        crate::text::append_bytes(&mut self.buf, chunk);
    }

    /// `true` when decoding the buffered frame would overflow the end-of-frame
    /// sum (a header announcing a length beyond the address space).
    pub fn overflows(&self) -> (r: bool)
        ensures
            r == frame_overflows(self@),
    {
        let _n = self.buf.len();
        assert(self@ == self.buf@);
        proof {
            if let Some((pos, cl)) = frame_header(self@) {
                lemma_first_content_length_fits(lines(header_chars(self@.take(pos as int))));
                assert(cl <= usize::MAX);
            }
        }
        match self.header() {
            Some((pos, cl)) => cl > usize::MAX - 4 - pos,
            None => false,
        }
    }

    /// Terminator position and announced length of the buffered frame.
    fn header(&self) -> (r: Option<(usize, usize)>)
        ensures
            match frame_header(self@) {
                Some((pos, cl)) => r == Some((pos as usize, cl as usize)) && pos + 4 <= self@.len(),
                None => r is None,
            },
    {
        let buf = &self.buf;
        assert(self@ == buf@);
        let mut k: usize = 0;
        assert(find_term(buf@, 0) == find_term(buf@, 0));
        while k < buf.len() && buf.len() - k >= 4 && !(buf[k] == 13 && buf[k + 1] == 10 && buf[k + 2] == 13
            && buf[k + 3] == 10)
            invariant
                k <= buf@.len(),
                find_term(buf@, 0) == find_term(buf@, k as nat),
            decreases buf.len() - k,
        {
            k = k + 1;
        }
        if k >= buf.len() || buf.len() - k < 4 {
            return None;
        }
        assert(find_term(buf@, k as nat) == Some(k as nat));
        let pos = k;
        let head = copy_range(buf.as_slice(), 0, pos);
        let text = header_text(head.as_slice());
        let ls = lines_of(text.as_slice());
        let ghost lv = views(ls@);
        let mut i: usize = 0;
        assert(lv.skip(0) == lv);
        assert(head@ == buf@.take(pos as int));
        while i < ls.len()
            invariant
                lv == views(ls@),
                lv == lines(header_chars(buf@.take(pos as int))),
                self@ == buf@,
                find_term(buf@, 0) == Some(pos as nat),
                pos + 4 <= buf@.len(),
                i <= ls@.len(),
                first_content_length(lv) == first_content_length(lv.skip(i as int)),
            decreases ls.len() - i,
        {
            assert(lv.skip(i as int)[0] == ls@[i as int]@);
            match line_length(ls[i].as_slice()) {
                Some(n) => {
                    assert(first_content_length(lv.skip(i as int)) == Some(n as nat));
                    assert(first_content_length(lines(header_chars(buf@.take(pos as int)))) == Some(n as nat));
                    assert(frame_header(buf@) == Some((pos as nat, n as nat)));
                    assert(frame_header(self@) == Some((pos as nat, n as nat)));
                    return Some((pos, n));
                },
                None => {
                    assert(lv.skip(i as int).drop_first() == lv.skip(i + 1));
                },
            }
            i = i + 1;
        }
        assert(lv.skip(i as int).len() == 0);
        None
    }

    /// Takes the first complete frame out of the buffer and returns its
    /// payload; `None` (buffer unchanged) while no complete frame is there.
    pub fn next_frame(&mut self) -> (r: Option<Vec<u8>>)
        requires
            !frame_overflows(old(self)@),
        ensures
            match next_frame_spec(old(self)@) {
                Some((p, n)) => r matches Some(v) && v@ == p && final(self)@ == old(self)@.skip(
                    n as int,
                ),
                None => r is None && final(self)@ == old(self)@,
            },
    {
        let (pos, cl) = match self.header() {
            Some(h) => h,
            None => return None,
        };
        let body_start = pos + 4;
        if cl > self.buf.len() - body_start {
            return None;
        }
        let end = body_start + cl;
        let payload = copy_range(self.buf.as_slice(), body_start, end);
        let rest = copy_range(self.buf.as_slice(), end, self.buf.len());
        self.buf = rest;
        Some(payload)
    }
}


// ── reading back what was written ───────────────────────────────────────────

/// `find_term` finds the first terminator.
pub proof fn lemma_find_term_at(b: Seq<u8>, k: nat, h: nat)
    requires
        k <= h,
        forall|j: int| k <= j < h ==> !term_at(b, j),
        term_at(b, h as int),
    ensures
        find_term(b, k) == Some(h),
    decreases h - k,
{
    if k < h {
        lemma_find_term_at(b, k + 1, h);
    }
}

/// The characters of the header of a frame announcing `n` bytes.
pub open spec fn header_text_of(n: nat) -> Seq<char> {
    header_prefix().map_values(|x: u8| x as char) + dec(n)
}

/// The header of a frame announcing `n` bytes announces `n`.
pub proof fn lemma_header_announces(n: nat)
    requires
        n <= usize::MAX,
    ensures
        first_content_length(lines(header_text_of(n))) == Some(n),
{
    let hc = header_text_of(n);
    let pre = header_prefix().map_values(|x: u8| x as char);
    lemma_dec_digits(n);
    let d = dec(n);
    assert(pre =~= seq!['C', 'o', 'n', 't', 'e', 'n', 't', '-', 'L', 'e', 'n', 'g', 't', 'h', ':', ' ']);
    assert forall|k: int| 0 <= k < hc.len() implies hc[k] != '\n' by {
        if k >= pre.len() {
            assert(hc[k] == d[k - pre.len()]);
            assert(is_digit(d[k - pre.len()]));
        }
    }
    lemma_first_index_is(hc, '\n', hc.len() as int);
    assert(lines(hc) == seq![hc]);
    lemma_lead_ws_is(hc, 0);
    assert(hc.last() == d.last());
    assert(is_digit(d[d.len() - 1]));
    lemma_trail_ws_is(hc, 0);
    assert(trim(hc) =~= hc);
    let low = lower_seq(hc);
    let low_pre = seq!['c', 'o', 'n', 't', 'e', 'n', 't', '-', 'l', 'e', 'n', 'g', 't', 'h', ':', ' '];
    assert forall|k: int| 0 <= k < d.len() implies ascii_lower(#[trigger] d[k]) == d[k] by {
        assert(is_digit(d[k]));
    }
    assert(low =~= low_pre + d) by {
        assert forall|k: int| 0 <= k < low.len() implies low[k] == (low_pre + d)[k] by {
            if k >= 16 {
                assert(hc[k] == d[k - 16]);
                assert(ascii_lower(d[k - 16]) == d[k - 16]);
            }
        }
    }
    assert(low.take(15) =~= cl_key());
    assert(starts_with(low, cl_key()));
    let rest = low.skip(15);
    assert(rest =~= seq![' '] + d);
    lemma_lead_ws_is(rest, 1);
    assert(rest.last() == d.last());
    lemma_trail_ws_is(rest, 0);
    assert(trim(rest) =~= d);
    lemma_parse_dec(n);
    assert(line_content_length(hc) == Some(n));
    assert(seq![hc].drop_first() =~= Seq::<Seq<char>>::empty());
}

/// Reading back a frame written by `encode_message` gives the payload back,
/// consumes exactly the frame and leaves whatever followed it.
pub proof fn lemma_encode_read_back(p: Seq<u8>, rest: Seq<u8>)
    requires
        p.len() <= usize::MAX,
    ensures
        next_frame_spec(frame_bytes(p) + rest) == Some((p, frame_bytes(p).len())),
        (frame_bytes(p) + rest).len() <= usize::MAX ==> !frame_overflows(frame_bytes(p) + rest),
{
    let n = p.len();
    let d = dec(n);
    lemma_dec_digits(n);
    let db = ascii_bytes(d);
    let head = header_prefix() + db;
    let b = frame_bytes(p) + rest;
    let h = head.len();
    assert(frame_bytes(p) =~= head + header_end() + p);
    assert(b =~= head + (header_end() + p + rest));
    assert forall|k: int| 0 <= k < h implies b[k] != 13 && (#[trigger] b[k]) < 128 by {
        assert(b[k] == head[k]);
        if k >= 16 {
            assert(head[k] == db[k - 16]);
            assert(is_digit(d[k - 16]));
        }
    }
    assert forall|j: int| 0 <= j < h implies !term_at(b, j) by {
        assert(b[j] != 13);
    }
    assert(b[h as int] == 13 && b[(h + 1) as int] == 10 && b[(h + 2) as int] == 13 && b[(h + 3) as int] == 10);
    lemma_find_term_at(b, 0, h);
    assert(b.take(h as int) =~= head);
    assert(all_ascii(head));
    assert forall|k: int| 0 <= k < d.len() implies ((d[k] as u8) as char) == d[k] by {
        assert(is_digit(d[k]));
    }
    assert(head.map_values(|x: u8| x as char) =~= header_text_of(n));
    assert(header_chars(b.take(h as int)) == header_text_of(n));
    lemma_header_announces(n);
    assert(frame_header(b) == Some((h, n)));
    assert(b.subrange((h + 4) as int, (h + 4 + n) as int) =~= p);
    assert(frame_bytes(p).len() == h + 4 + n);
}

/// What polling a reader gives.
#[derive(Debug, Clone, PartialEq, Eq)]
pub enum FramePoll {
    /// The payload of the first complete frame, which left the buffer.
    Frame(Vec<u8>),
    /// No complete frame yet; the buffer is unchanged.
    Incomplete,
    /// The buffered header announces a length whose end cannot be addressed;
    /// the buffer is unchanged and the stream cannot go on.
    Overflow,
}

impl FrameReader {
    /// The next complete frame, checking first that its announced end can be
    /// addressed.
    pub fn poll_frame(&mut self) -> (r: FramePoll)
        ensures
            frame_overflows(old(self)@) ==> r == FramePoll::Overflow && final(self)@ == old(self)@,
            !frame_overflows(old(self)@) ==> match next_frame_spec(old(self)@) {
                Some((p, n)) => r matches FramePoll::Frame(v) && v@ == p && final(self)@ == old(self)@.skip(n as int),
                None => r == FramePoll::Incomplete && final(self)@ == old(self)@,
            },
    {
        if self.overflows() {
            return FramePoll::Overflow;
        }
        match self.next_frame() {
            Some(v) => FramePoll::Frame(v),
            None => FramePoll::Incomplete,
        }
    }
}

} // verus!
