//! Byte-level view of protocol text.
//!
//! The protocol is framed by ASCII bytes, so texts are examined through
//! their UTF-8 bytes. The lemmas here show that the positions the scanners
//! find fall between characters, which is what cutting a `&str` needs.

use vstd::prelude::*;
use vstd::string::*;
use vstd::utf8::*;

verus! {

/// The bytes of a text are well-formed UTF-8, and the text is what they
/// decode to.
pub proof fn lemma_text_is_utf8(s: &str)
    ensures
        valid_utf8(s.spec_bytes()),
        decode_utf8(s.spec_bytes()) == s@,
{
    encode_utf8_valid_utf8(s@);
    encode_utf8_decode_utf8(s@);
}

/// A position that holds no continuation byte, or the end, lies between
/// characters.
proof fn lemma_boundary_at(bytes: Seq<u8>, i: int)
    requires
        valid_utf8(bytes),
        0 <= i <= bytes.len(),
        i < bytes.len() ==> !is_continuation_byte(bytes[i]),
    ensures
        is_char_boundary(bytes, i),
{
    if i < bytes.len() {
        is_char_boundary_iff_not_is_continuation_byte(bytes, i);
    } else {
        is_char_boundary_start_end_of_seq(bytes);
    }
}

/// The position after a whole character lies between characters too.
proof fn lemma_boundary_advance(bytes: Seq<u8>, i: int)
    requires
        valid_utf8(bytes),
        0 <= i < bytes.len(),
        is_char_boundary(bytes, i),
    ensures
        i + length_of_first_scalar(bytes.subrange(i, bytes.len() as int)) <= bytes.len(),
        is_char_boundary(
            bytes,
            i + length_of_first_scalar(bytes.subrange(i, bytes.len() as int)),
        ),
{
    let tail = bytes.subrange(i, bytes.len() as int);
    valid_utf8_split(bytes, i);
    let w = length_of_first_scalar(tail);
    let rest = pop_first_scalar(tail);
    assert(valid_first_scalar(tail) && valid_utf8(rest));
    assert(rest =~= bytes.subrange(i + w, bytes.len() as int));
    if i + w < bytes.len() {
        assert(valid_first_scalar(rest));
        assert(rest[0] == bytes[i + w]);
    }
    lemma_boundary_at(bytes, i + w);
}

/// The position after an ASCII byte lies between characters.
proof fn lemma_boundary_after_ascii(bytes: Seq<u8>, i: int)
    requires
        valid_utf8(bytes),
        0 < i <= bytes.len(),
        bytes[i - 1] < 0x80,
    ensures
        is_char_boundary(bytes, i),
{
    lemma_boundary_at(bytes, i - 1);
    lemma_boundary_advance(bytes, i - 1);
}

/// The part of `s` between two byte positions.
pub(crate) fn slice<'a>(s: &'a str, from: usize, to: usize) -> (r: &'a str)
    requires
        from <= to <= s.spec_bytes().len(),
        is_char_boundary(s.spec_bytes(), from as int),
        is_char_boundary(s.spec_bytes(), to as int),
    ensures
        r.spec_bytes() == s.spec_bytes().subrange(from as int, to as int),
{
    let (head, _) = s.split_at(to);
    proof {
        lemma_text_is_utf8(s);
        lemma_text_is_utf8(head);
        if from < to {
            is_char_boundary_iff_not_is_continuation_byte(s.spec_bytes(), from as int);
            assert(head.spec_bytes()[from as int] == s.spec_bytes()[from as int]);
        }
        lemma_boundary_at(head.spec_bytes(), from as int);
    }
    let (_, r) = head.split_at(from);
    assert(r.spec_bytes() =~= s.spec_bytes().subrange(from as int, to as int));
    r
}

/// Line feed, which ends a line.
pub const LF: u8 = 10;

/// Carriage return, which may precede a line feed and closes a frame.
pub const CR: u8 = 13;

/// The blank that separates the pairs of a record.
pub const SPACE: u8 = 32;

/// The bar that separates the records of a data line.
pub const BAR: u8 = 124;

/// The sign that separates a key from its value.
pub const EQUALS: u8 = 61;

/// The backslash, which opens an escape.
pub const BACKSLASH: u8 = 92;

/// `p` stands in `s` at position `i`.
pub open spec fn occurs_at(s: Seq<u8>, p: Seq<u8>, i: int) -> bool {
    &&& 0 <= i
    &&& i + p.len() <= s.len()
    &&& s.subrange(i, i + p.len()) == p
}

/// The first position at or after `from` where `p` stands in `s`.
pub open spec fn index_from(s: Seq<u8>, p: Seq<u8>, from: int) -> Option<int>
    decreases s.len() - from + 1,
{
    if from < 0 || from + p.len() > s.len() {
        None
    } else if occurs_at(s, p, from) {
        Some(from)
    } else {
        index_from(s, p, from + 1)
    }
}

/// The first position where `p` stands in `s`.
pub open spec fn index_of(s: Seq<u8>, p: Seq<u8>) -> Option<int> {
    index_from(s, p, 0)
}

/// `p` stands somewhere in `s`.
pub open spec fn has(s: Seq<u8>, p: Seq<u8>) -> bool {
    index_of(s, p) is Some
}

/// `s` begins with `p`.
pub open spec fn has_prefix(s: Seq<u8>, p: Seq<u8>) -> bool {
    occurs_at(s, p, 0)
}

/// `s` ends with `p`.
pub open spec fn has_suffix(s: Seq<u8>, p: Seq<u8>) -> bool {
    occurs_at(s, p, s.len() - p.len())
}

/// `index_from` yields the least position of an occurrence, and none only
/// where there is no occurrence.
pub proof fn lemma_index_from(s: Seq<u8>, p: Seq<u8>, from: int)
    requires
        0 <= from,
    ensures
        match index_from(s, p, from) {
            Some(i) => from <= i && occurs_at(s, p, i) && forall|j: int|
                from <= j < i ==> !occurs_at(s, p, j),
            None => forall|j: int| from <= j ==> !occurs_at(s, p, j),
        },
    decreases s.len() - from + 1,
{
    if from + p.len() > s.len() {
    } else if occurs_at(s, p, from) {
    } else {
        lemma_index_from(s, p, from + 1);
    }
}

/// Whether `pat` stands in `text` at `at`.
pub fn matches_at(text: &[u8], pat: &[u8], at: usize) -> (r: bool)
    ensures
        r == occurs_at(text@, pat@, at as int),
{
    if pat.len() > text.len() || at > text.len() - pat.len() {
        return false;
    }
    let mut k: usize = 0;
    while k < pat.len()
        invariant
            k <= pat.len(),
            at + pat.len() <= text.len(),
            forall|j: int| 0 <= j < k ==> text@[at + j] == pat@[j],
        decreases pat.len() - k,
    {
        if text[at + k] != pat[k] {
            assert(text@.subrange(at as int, at + pat.len())[k as int] == text@[at + k]);
            return false;
        }
        k += 1;
    }
    assert(text@.subrange(at as int, at + pat.len()) =~= pat@);
    true
}

/// The first position where `pat` stands in `text`.
pub fn find(text: &[u8], pat: &[u8]) -> (r: Option<usize>)
    ensures
        match r {
            Some(i) => index_of(text@, pat@) == Some(i as int),
            None => index_of(text@, pat@) is None,
        },
{
    if pat.len() > text.len() {
        return None;
    }
    let last: usize = text.len() - pat.len();
    let mut i: usize = 0;
    loop
        invariant
            i <= last,
            last + pat.len() == text.len(),
            index_from(text@, pat@, i as int) == index_of(text@, pat@),
        decreases last - i,
    {
        if matches_at(text, pat, i) {
            return Some(i);
        }
        if i == last {
            assert(index_from(text@, pat@, i + 1) is None);
            return None;
        }
        i += 1;
    }
}

/// Whether `pat` stands somewhere in `text`.
pub fn contains(text: &[u8], pat: &[u8]) -> (r: bool)
    ensures
        r == has(text@, pat@),
{
    find(text, pat).is_some()
}

/// Whether `text` begins with `pat`.
pub fn starts_with(text: &[u8], pat: &[u8]) -> (r: bool)
    ensures
        r == has_prefix(text@, pat@),
{
    matches_at(text, pat, 0)
}

/// Whether `text` ends with `pat`.
pub fn ends_with(text: &[u8], pat: &[u8]) -> (r: bool)
    ensures
        r == has_suffix(text@, pat@),
{
    if pat.len() > text.len() {
        return false;
    }
    matches_at(text, pat, text.len() - pat.len())
}

/// The number of bytes from `from` up to the next `stop` byte or the end.
pub open spec fn run_len(s: Seq<u8>, stop: u8, from: int) -> nat
    decreases s.len() - from,
{
    if from < 0 || from >= s.len() || s[from] == stop {
        0
    } else {
        1 + run_len(s, stop, from + 1)
    }
}

/// The number of bytes from `from` up to the next line feed or the end.
pub open spec fn line_len(s: Seq<u8>, from: int) -> nat {
    run_len(s, LF, from)
}

/// The line that starts at `from`: the bytes up to the next line feed, less
/// a carriage return directly before that line feed. A last line that no
/// line feed ends keeps a carriage return at its end.
pub open spec fn line_at(s: Seq<u8>, from: int) -> Seq<u8> {
    let brk = from + line_len(s, from);
    if brk < s.len() && from < brk && s[brk - 1] == CR {
        s.subrange(from, brk - 1)
    } else {
        s.subrange(from, brk)
    }
}

/// A run ends within the text, at the first `stop` byte if there is one.
pub proof fn lemma_run_len(s: Seq<u8>, stop: u8, from: int)
    requires
        0 <= from <= s.len(),
    ensures
        from + run_len(s, stop, from) <= s.len(),
        from + run_len(s, stop, from) < s.len() ==> s[from + run_len(s, stop, from)] == stop,
        forall|j: int| from <= j < from + run_len(s, stop, from) ==> s[j] != stop,
    decreases s.len() - from,
{
    if from < s.len() && s[from] != stop {
        lemma_run_len(s, stop, from + 1);
    }
}

/// The lines of `s` from position `from` on.
pub open spec fn lines_from(s: Seq<u8>, from: int) -> Seq<Seq<u8>>
    decreases s.len() - from + 1,
{
    if from < 0 || from >= s.len() {
        Seq::empty()
    } else {
        proof {
            lemma_run_len(s, LF, from);
        }
        seq![line_at(s, from)] + lines_from(s, from + line_len(s, from) + 1)
    }
}

/// The lines of `s`, in order. A line feed at the very end opens no further
/// line.
pub open spec fn lines_of(s: Seq<u8>) -> Seq<Seq<u8>> {
    lines_from(s, 0)
}

/// The position of the next `stop` byte at or after `from`, or the end.
pub(crate) fn run_end(bytes: &[u8], stop: u8, from: usize) -> (end: usize)
    requires
        from <= bytes.len(),
    ensures
        end == from + run_len(bytes@, stop, from as int),
        from <= end <= bytes.len(),
        end < bytes.len() ==> bytes@[end as int] == stop,
{
    let mut end: usize = from;
    while end < bytes.len() && bytes[end] != stop
        invariant
            from <= end <= bytes.len(),
            run_len(bytes@, stop, from as int) == (end - from) + run_len(
                bytes@,
                stop,
                end as int,
            ),
        decreases bytes.len() - end,
    {
        end += 1;
    }
    end
}

/// The lines of `text`, in order, each without its terminator.
pub fn split_lines<'a>(text: &'a str) -> (res: Vec<&'a str>)
    ensures
        res.len() == lines_of(text.spec_bytes()).len(),
        forall|i: int|
            0 <= i < res.len() ==> (#[trigger] res[i]).spec_bytes() == lines_of(
                text.spec_bytes(),
            )[i],
{
    let bytes = text.as_bytes();
    let n = bytes.len();
    let ghost b = text.spec_bytes();
    let ghost mut done: Seq<Seq<u8>> = Seq::empty();
    let mut out: Vec<&'a str> = Vec::new();
    let mut pos: usize = 0;
    proof {
        lemma_text_is_utf8(text);
        lemma_boundary_at(b, 0);
    }
    while pos < n
        invariant
            b == text.spec_bytes(),
            bytes@ == b,
            n == b.len(),
            valid_utf8(b),
            pos <= n,
            is_char_boundary(b, pos as int),
            lines_of(b) =~= done + lines_from(b, pos as int),
            out.len() == done.len(),
            forall|i: int| 0 <= i < out.len() ==> (#[trigger] out[i]).spec_bytes() == done[i],
        decreases n - pos,
    {
        let brk = run_end(bytes, LF, pos);
        let end: usize = if brk < n && pos < brk && bytes[brk - 1] == CR {
            brk - 1
        } else {
            brk
        };
        proof {
            lemma_boundary_at(b, end as int);
        }
        let line = slice(text, pos, end);
        out.push(line);
        proof {
            assert(line.spec_bytes() == line_at(b, pos as int));
            done = done.push(line_at(b, pos as int));
        }
        if brk < n {
            proof {
                lemma_boundary_after_ascii(b, brk + 1);
            }
            pos = brk + 1;
        } else {
            assert(lines_from(b, brk + 1) =~= lines_from(b, n as int));
            pos = n;
        }
    }
    out
}

/// A one-byte white-space character: tab, line feed, vertical tab, form
/// feed, carriage return or blank.
pub open spec fn is_ascii_space(b: u8) -> bool {
    (9 <= b && b <= 13) || b == 32
}

/// The two-byte white-space characters: U+0085 and U+00A0.
pub open spec fn is_pair_space(a: u8, b: u8) -> bool {
    a == 0xC2 && (b == 0x85 || b == 0xA0)
}

/// The three-byte white-space characters: U+1680, U+2000 to U+200A, U+2028,
/// U+2029, U+202F, U+205F and U+3000.
pub open spec fn is_wide_space(a: u8, b: u8, c: u8) -> bool {
    ||| a == 0xE1 && b == 0x9A && c == 0x80
    ||| a == 0xE2 && b == 0x80 && ((0x80 <= c && c <= 0x8A) || c == 0xA8 || c == 0xA9 || c
        == 0xAF)
    ||| a == 0xE2 && b == 0x81 && c == 0x9F
    ||| a == 0xE3 && b == 0x80 && c == 0x80
}

/// The width of the white-space character that starts at `i`, or 0 where
/// none starts there.
pub open spec fn space_width(s: Seq<u8>, i: int) -> int {
    if 0 <= i < s.len() && is_ascii_space(s[i]) {
        1
    } else if 0 <= i && i + 1 < s.len() && is_pair_space(s[i], s[i + 1]) {
        2
    } else if 0 <= i && i + 2 < s.len() && is_wide_space(s[i], s[i + 1], s[i + 2]) {
        3
    } else {
        0
    }
}

/// The width of the white-space character that ends at `end`, or 0 where
/// none ends there.
pub open spec fn space_width_before(s: Seq<u8>, end: int) -> int {
    if 1 <= end <= s.len() && is_ascii_space(s[end - 1]) {
        1
    } else if 2 <= end <= s.len() && is_pair_space(s[end - 2], s[end - 1]) {
        2
    } else if 3 <= end <= s.len() && is_wide_space(s[end - 3], s[end - 2], s[end - 1]) {
        3
    } else {
        0
    }
}

/// The first position at or after `from` where no white-space character
/// starts.
pub open spec fn skip_spaces(s: Seq<u8>, from: int) -> int
    decreases s.len() - from,
{
    if space_width(s, from) == 0 {
        from
    } else {
        skip_spaces(s, from + space_width(s, from))
    }
}

/// The last position at or before `end`, and not before `floor`, where no
/// white-space character ends.
pub open spec fn drop_spaces(s: Seq<u8>, floor: int, end: int) -> int
    decreases end - floor,
{
    if space_width_before(s, end) == 0 || end - space_width_before(s, end) < floor {
        end
    } else {
        drop_spaces(s, floor, end - space_width_before(s, end))
    }
}

/// `s` without the white space at its two ends. White space is what Unicode
/// marks as such.
pub open spec fn trimmed(s: Seq<u8>) -> Seq<u8> {
    let from = skip_spaces(s, 0);
    s.subrange(from, drop_spaces(s, from, s.len() as int))
}

/// The width of the white-space character at `at`, or 0.
fn width_at(bytes: &[u8], at: usize) -> (w: usize)
    requires
        at <= bytes.len(),
    ensures
        w == space_width(bytes@, at as int),
        at + w <= bytes.len(),
{
    let n = bytes.len();
    if at < n && ((9 <= bytes[at] && bytes[at] <= 13) || bytes[at] == 32) {
        1
    } else if n - at >= 2 && bytes[at] == 0xC2 && (bytes[at + 1] == 0x85 || bytes[at + 1]
        == 0xA0) {
        2
    } else if n - at >= 3 && wide_space(bytes[at], bytes[at + 1], bytes[at + 2]) {
        3
    } else {
        0
    }
}

/// The width of the white-space character that ends at `end`, or 0.
fn width_before(bytes: &[u8], end: usize) -> (w: usize)
    requires
        end <= bytes.len(),
    ensures
        w == space_width_before(bytes@, end as int),
        w <= end,
{
    if end >= 1 && ((9 <= bytes[end - 1] && bytes[end - 1] <= 13) || bytes[end - 1] == 32) {
        1
    } else if end >= 2 && bytes[end - 2] == 0xC2 && (bytes[end - 1] == 0x85 || bytes[end - 1]
        == 0xA0) {
        2
    } else if end >= 3 && wide_space(bytes[end - 3], bytes[end - 2], bytes[end - 1]) {
        3
    } else {
        0
    }
}

fn wide_space(a: u8, b: u8, c: u8) -> (r: bool)
    ensures
        r == is_wide_space(a, b, c),
{
    (a == 0xE1 && b == 0x9A && c == 0x80) || (a == 0xE2 && b == 0x80 && ((0x80 <= c && c
        <= 0x8A) || c == 0xA8 || c == 0xA9 || c == 0xAF)) || (a == 0xE2 && b == 0x81 && c
        == 0x9F) || (a == 0xE3 && b == 0x80 && c == 0x80)
}

/// A white-space character is a whole character: the position after it lies
/// between characters.
proof fn lemma_boundary_after_space(b: Seq<u8>, at: int)
    requires
        valid_utf8(b),
        is_char_boundary(b, at),
        space_width(b, at) > 0,
    ensures
        is_char_boundary(b, at + space_width(b, at)),
{
    let tail = b.subrange(at, b.len() as int);
    assert(tail[0] == b[at]);
    lemma_boundary_advance(b, at);
}

/// `text` without the white space at its two ends.
pub fn trim<'a>(text: &'a str) -> (res: &'a str)
    ensures
        res.spec_bytes() == trimmed(text.spec_bytes()),
{
    let bytes = text.as_bytes();
    let n = bytes.len();
    let ghost b = text.spec_bytes();
    proof {
        lemma_text_is_utf8(text);
        lemma_boundary_at(b, 0);
    }
    let mut from: usize = 0;
    loop
        invariant
            bytes@ == b,
            n == b.len(),
            valid_utf8(b),
            from <= n,
            is_char_boundary(b, from as int),
            skip_spaces(b, from as int) == skip_spaces(b, 0),
        ensures
            from == skip_spaces(b, 0),
        decreases n - from,
    {
        let w = width_at(bytes, from);
        if w == 0 {
            break ;
        }
        proof {
            lemma_boundary_after_space(b, from as int);
        }
        from += w;
    }
    let mut end: usize = n;
    proof {
        lemma_boundary_at(b, n as int);
    }
    loop
        invariant
            bytes@ == b,
            n == b.len(),
            valid_utf8(b),
            from <= end <= n,
            is_char_boundary(b, end as int),
            drop_spaces(b, from as int, end as int) == drop_spaces(b, from as int, n as int),
        ensures
            end == drop_spaces(b, from as int, n as int),
        decreases end - from,
    {
        let w = width_before(bytes, end);
        if w == 0 || end - w < from {
            break ;
        }
        proof {
            lemma_boundary_at(b, end - w);
        }
        end -= w;
    }
    slice(text, from, end)
}

/// The parts of `s` that the `stop` bytes at or after `from` set apart.
pub open spec fn parts_from(s: Seq<u8>, stop: u8, from: int) -> Seq<Seq<u8>>
    decreases s.len() - from + 1,
{
    if from < 0 || from > s.len() {
        Seq::empty()
    } else if from + run_len(s, stop, from) >= s.len() {
        seq![s.subrange(from, s.len() as int)]
    } else {
        seq![s.subrange(from, from + run_len(s, stop, from))] + parts_from(
            s,
            stop,
            from + run_len(s, stop, from) + 1,
        )
    }
}

/// The parts of `s` that the `stop` bytes set apart, in order: one more part
/// than there are `stop` bytes, so a text without any is its own only part.
pub open spec fn parts_of(s: Seq<u8>, stop: u8) -> Seq<Seq<u8>> {
    parts_from(s, stop, 0)
}

/// The parts of `text` that the occurrences of the ASCII byte `stop` set
/// apart, in order.
pub(crate) fn split_parts<'a>(text: &'a str, stop: u8) -> (res: Vec<&'a str>)
    requires
        stop < 0x80,
    ensures
        res.len() == parts_of(text.spec_bytes(), stop).len(),
        forall|i: int|
            0 <= i < res.len() ==> (#[trigger] res[i]).spec_bytes() == parts_of(
                text.spec_bytes(),
                stop,
            )[i],
{
    let bytes = text.as_bytes();
    let n = bytes.len();
    let ghost b = text.spec_bytes();
    let ghost mut done: Seq<Seq<u8>> = Seq::empty();
    let mut out: Vec<&'a str> = Vec::new();
    let mut pos: usize = 0;
    proof {
        lemma_text_is_utf8(text);
        lemma_boundary_at(b, 0);
    }
    loop
        invariant_except_break
            parts_of(b, stop) =~= done + parts_from(b, stop, pos as int),
        invariant
            b == text.spec_bytes(),
            bytes@ == b,
            n == b.len(),
            valid_utf8(b),
            stop < 0x80,
            pos <= n,
            is_char_boundary(b, pos as int),
            out.len() == done.len(),
            forall|i: int| 0 <= i < out.len() ==> (#[trigger] out[i]).spec_bytes() == done[i],
        ensures
            parts_of(b, stop) =~= done,
            out.len() == done.len(),
            forall|i: int| 0 <= i < out.len() ==> (#[trigger] out[i]).spec_bytes() == done[i],
        decreases n - pos,
    {
        let brk = run_end(bytes, stop, pos);
        proof {
            lemma_boundary_at(b, brk as int);
        }
        let part = slice(text, pos, brk);
        out.push(part);
        if brk >= n {
            proof {
                done = done.push(b.subrange(pos as int, n as int));
            }
            break ;
        }
        proof {
            done = done.push(b.subrange(pos as int, brk as int));
            lemma_boundary_after_ascii(b, brk + 1);
        }
        pos = brk + 1;
    }
    out
}

/// Where a whole text stands inside another, it ends between characters.
proof fn lemma_boundary_after_occurrence(s: Seq<u8>, p: Seq<u8>, i: int)
    requires
        valid_utf8(s),
        valid_utf8(p),
        occurs_at(s, p, i),
        is_char_boundary(s, i),
    ensures
        is_char_boundary(s, i + p.len()),
    decreases p.len(),
{
    if p.len() > 0 {
        let tail = s.subrange(i, s.len() as int);
        assert(s.subrange(i, i + p.len())[0] == p[0]);
        assert(tail[0] == p[0]);
        let w = length_of_first_scalar(p);
        assert(w == length_of_first_scalar(tail));
        lemma_boundary_advance(s, i);
        let rest = pop_first_scalar(p);
        assert(rest =~= s.subrange(i + w, i + w + rest.len())) by {
            assert forall|k: int| 0 <= k < rest.len() implies rest[k] == s[i + w + k] by {
                assert(s.subrange(i, i + p.len())[w + k] == p[w + k]);
            }
        }
        lemma_boundary_after_occurrence(s, rest, i + w);
    }
}

/// What follows the first occurrence of `p` in `s`.
pub open spec fn after_first(s: Seq<u8>, p: Seq<u8>) -> Option<Seq<u8>> {
    match index_of(s, p) {
        Some(i) => Some(s.subrange(i + p.len(), s.len() as int)),
        None => None,
    }
}

/// What precedes the first occurrence of `p` in `s`.
pub open spec fn before_first(s: Seq<u8>, p: Seq<u8>) -> Option<Seq<u8>> {
    match index_of(s, p) {
        Some(i) => Some(s.subrange(0, i)),
        None => None,
    }
}

/// The parts of `text` before and after the first occurrence of `pat`, or
/// nothing where `pat` does not occur.
pub fn split_once<'a>(text: &'a str, pat: &str) -> (res: Option<(&'a str, &'a str)>)
    ensures
        match res {
            Some((head, tail)) => {
                &&& before_first(text.spec_bytes(), pat.spec_bytes()) == Some(head.spec_bytes())
                &&& after_first(text.spec_bytes(), pat.spec_bytes()) == Some(tail.spec_bytes())
            },
            None => index_of(text.spec_bytes(), pat.spec_bytes()) is None,
        },
{
    let bytes = text.as_bytes();
    let needle = pat.as_bytes();
    match find(bytes, needle) {
        None => None,
        Some(i) => {
            let ghost s = text.spec_bytes();
            let ghost p = pat.spec_bytes();
            proof {
                lemma_text_is_utf8(text);
                lemma_text_is_utf8(pat);
                lemma_index_from(s, p, 0);
                if p.len() == 0 {
                    assert(s.subrange(0, 0) =~= p);
                }
                assert(occurs_at(s, p, i as int));
                if p.len() > 0 {
                    assert(s.subrange(i as int, i + p.len())[0] == s[i as int]);
                    assert(p[0] == s[i as int]);
                    assert(valid_first_scalar(p));
                    assert(!is_continuation_byte(p[0]));
                }
                lemma_boundary_at(s, i as int);
                lemma_boundary_after_occurrence(s, p, i as int);
                lemma_boundary_at(s, 0);
                lemma_boundary_at(s, s.len() as int);
                assert(needle@ == p && bytes@ == s);
                assert(i + needle.len() <= bytes.len());
            }
            let head = slice(text, 0, i);
            let tail = slice(text, i + needle.len(), bytes.len());
            Some((head, tail))
        },
    }
}

/// Whether two texts hold the same characters.
pub fn same_text(a: &str, b: &str) -> (r: bool)
    ensures
        r == (a@ == b@),
{
    let x = a.as_bytes();
    let y = b.as_bytes();
    proof {
        encode_utf8_decode_utf8(a@);
        encode_utf8_decode_utf8(b@);
    }
    if x.len() != y.len() {
        return false;
    }
    let r = matches_at(x, y, 0);
    proof {
        assert(x@.subrange(0, x@.len() as int) =~= x@);
    }
    r
}

/// A run inside the second of two joined texts is the run of that text.
proof fn lemma_run_len_shift(a: Seq<u8>, b: Seq<u8>, stop: u8, j: int)
    requires
        0 <= j <= b.len(),
    ensures
        run_len(a + b, stop, a.len() + j) == run_len(b, stop, j),
    decreases b.len() - j,
{
    if j < b.len() {
        assert((a + b)[a.len() + j] == b[j]);
        if b[j] != stop {
            lemma_run_len_shift(a, b, stop, j + 1);
        }
    }
}

/// A run inside the first of two joined texts is the run of that text,
/// where that text ends with the `stop` byte.
proof fn lemma_run_len_within(a: Seq<u8>, b: Seq<u8>, stop: u8, from: int)
    requires
        0 <= from < a.len(),
        a.last() == stop,
    ensures
        run_len(a + b, stop, from) == run_len(a, stop, from),
        from + run_len(a, stop, from) < a.len(),
    decreases a.len() - from,
{
    assert((a + b)[from] == a[from]);
    if a[from] != stop {
        lemma_run_len_within(a, b, stop, from + 1);
    }
}

/// The lines of the second of two joined texts are lines of the whole.
proof fn lemma_lines_shift(a: Seq<u8>, b: Seq<u8>, j: int)
    requires
        0 <= j <= b.len(),
    ensures
        lines_from(a + b, a.len() + j) == lines_from(b, j),
    decreases b.len() - j,
{
    let s = a + b;
    if j < b.len() {
        lemma_run_len_shift(a, b, LF, j);
        lemma_run_len(b, LF, j);
        let w = run_len(b, LF, j) as int;
        assert(line_at(s, a.len() + j) =~= line_at(b, j)) by {
            if j + w < b.len() && j < j + w {
                assert(s[a.len() + j + w - 1] == b[j + w - 1]);
            }
            assert(s.subrange(a.len() + j, a.len() + j + w) =~= b.subrange(j, j + w));
            if j < j + w {
                assert(s.subrange(a.len() + j, a.len() + j + w - 1) =~= b.subrange(
                    j,
                    j + w - 1,
                ));
            }
        }
        if j + w + 1 <= b.len() {
            lemma_lines_shift(a, b, j + w + 1);
        }
        assert(lines_from(s, a.len() + j + w + 1) == lines_from(b, j + w + 1));
        assert(lines_from(b, j) == seq![line_at(b, j)] + lines_from(b, j + w + 1));
        assert(lines_from(s, a.len() + j) == seq![line_at(s, a.len() + j)] + lines_from(
            s,
            a.len() + j + w + 1,
        ));
    } else {
        assert(lines_from(s, a.len() + j) == Seq::<Seq<u8>>::empty());
        assert(lines_from(b, j) == Seq::<Seq<u8>>::empty());
    }
}

/// Where a text ends with a line feed, the lines of what is joined to it
/// follow its own lines.
pub proof fn lemma_lines_join(a: Seq<u8>, b: Seq<u8>, from: int)
    requires
        0 <= from <= a.len(),
        a.len() == 0 || a.last() == LF,
    ensures
        lines_from(a + b, from) =~= lines_from(a, from) + lines_of(b),
    decreases a.len() - from,
{
    let s = a + b;
    if from == a.len() {
        lemma_lines_shift(a, b, 0);
    } else {
        lemma_run_len_within(a, b, LF, from);
        let w = run_len(a, LF, from) as int;
        assert(line_at(s, from) =~= line_at(a, from)) by {
            if from < from + w {
                assert(s[from + w - 1] == a[from + w - 1]);
                assert(s.subrange(from, from + w - 1) =~= a.subrange(from, from + w - 1));
            }
            assert(s.subrange(from, from + w) =~= a.subrange(from, from + w));
        }
        lemma_lines_join(a, b, from + w + 1);
    }
}

/// The bytes of two joined texts are the bytes of the one followed by the
/// bytes of the other.
pub proof fn lemma_bytes_join(a: Seq<char>, b: Seq<char>)
    ensures
        encode_utf8(a + b) == encode_utf8(a) + encode_utf8(b),
    decreases a.len(),
{
    if a.len() == 0 {
        assert(a + b =~= b);
        assert(encode_utf8(a) + encode_utf8(b) =~= encode_utf8(b));
    } else {
        assert((a + b).drop_first() =~= a.drop_first() + b);
        assert((a + b)[0] == a[0]);
        lemma_bytes_join(a.drop_first(), b);
        assert(encode_utf8(a + b) =~= encode_utf8(a) + encode_utf8(b));
    }
}

/// A text that ends with `tail` ends with the bytes of `tail`.
pub proof fn lemma_suffix_of_join(head: Seq<char>, tail: Seq<char>)
    ensures
        has_suffix(encode_utf8(head + tail), encode_utf8(tail)),
{
    lemma_bytes_join(head, tail);
    let h = encode_utf8(head);
    let t = encode_utf8(tail);
    assert((h + t).subrange((h + t).len() - t.len(), (h + t).len() as int) =~= t);
}

/// Trimming at the end never passes an ASCII byte that is no white space.
pub proof fn lemma_drop_spaces_keeps(s: Seq<u8>, floor: int, end: int, j: int)
    requires
        floor <= j < end <= s.len(),
        0 <= floor,
        s[j] < 0x80,
        !is_ascii_space(s[j]),
    ensures
        j < drop_spaces(s, floor, end) <= end,
    decreases end - floor,
{
    let w = space_width_before(s, end);
    if w == 0 || end - w < floor {
    } else {
        lemma_drop_spaces_keeps(s, floor, end - w, j);
    }
}

/// The bytes of ASCII text are its characters.
pub proof fn lemma_ascii_bytes(chars: Seq<char>)
    requires
        is_ascii_chars(chars),
    ensures
        encode_utf8(chars).len() == chars.len(),
        forall|i: int| 0 <= i < chars.len() ==> #[trigger] encode_utf8(chars)[i] == chars[i] as u8,
{
    is_ascii_chars_encode_utf8(chars);
}

} // verus!
