use vstd::prelude::*;
use vstd::string::StringSliceAdditionalSpecFns;
use vstd::utf8::*;

use crate::context_viewer::ContextViewer;

verus! {

/// A byte range `(start, end)` is wrapped when it lies within the line,
/// is not empty, and does not reach back before the end of the last range
/// that was wrapped (`cursor`).
pub open spec fn range_is_wrapped(len: int, cursor: int, range: (usize, usize)) -> bool {
    &&& range.0 <= len
    &&& range.1 <= len
    &&& range.0 < range.1
    &&& cursor <= range.0
}

/// The text that the byte range `[from, to)` of a UTF-8 line encodes.
pub open spec fn text_between(bytes: Seq<u8>, from: int, to: int) -> Seq<char> {
    decode_utf8(bytes.subrange(from, to))
}

/// The rendering of the bytes of a line from `cursor` on, with each of the
/// ranges `offsets` (taken in order) put between the markers `open` and
/// `close`; ranges that are not wrapped are passed over.
pub open spec fn with_marks_from(
    bytes: Seq<u8>,
    offsets: Seq<(usize, usize)>,
    cursor: int,
    open: Seq<char>,
    close: Seq<char>,
) -> Seq<char>
    decreases offsets.len(),
{
    if offsets.len() == 0 {
        text_between(bytes, cursor, bytes.len() as int)
    } else if range_is_wrapped(bytes.len() as int, cursor, offsets[0]) {
        let (start, end) = offsets[0];
        text_between(bytes, cursor, start as int) + open + text_between(bytes, start as int, end as int) + close
            + with_marks_from(bytes, offsets.drop_first(), end as int, open, close)
    } else {
        with_marks_from(bytes, offsets.drop_first(), cursor, open, close)
    }
}

/// The rendering of the bytes of a line from `cursor` on, with the ranges
/// `offsets` wrapped in the match background sequences.
pub open spec fn with_match_background_from(
    bytes: Seq<u8>,
    offsets: Seq<(usize, usize)>,
    cursor: int,
) -> Seq<char> {
    with_marks_from(bytes, offsets, cursor, ContextViewer::MATCH_BG_ANSI_START@, ContextViewer::MATCH_BG_ANSI_END@)
}

/// The rendering of a whole line with its match ranges wrapped.
pub open spec fn with_match_background(bytes: Seq<u8>, offsets: Seq<(usize, usize)>) -> Seq<char> {
    with_match_background_from(bytes, offsets, 0)
}

/// Every range that is wrapped, from `cursor` on, starts and ends on a
/// character boundary of the line (the line cannot be cut elsewhere).
pub open spec fn wrapped_ranges_on_char_boundaries(
    bytes: Seq<u8>,
    offsets: Seq<(usize, usize)>,
    cursor: int,
) -> bool
    decreases offsets.len(),
{
    if offsets.len() == 0 {
        true
    } else if range_is_wrapped(bytes.len() as int, cursor, offsets[0]) {
        &&& is_char_boundary(bytes, offsets[0].0 as int)
        &&& is_char_boundary(bytes, offsets[0].1 as int)
        &&& wrapped_ranges_on_char_boundaries(bytes, offsets.drop_first(), offsets[0].1 as int)
    } else {
        wrapped_ranges_on_char_boundaries(bytes, offsets.drop_first(), cursor)
    }
}

/// Ranges that all reach beyond the end of the line wrap nothing: the line
/// is rendered as it is from `cursor` on.
pub proof fn lemma_ranges_beyond_line_wrap_nothing(bytes: Seq<u8>, offsets: Seq<(usize, usize)>, cursor: int)
    requires
        forall|k: int| 0 <= k < offsets.len() ==> (#[trigger] offsets[k]).1 > bytes.len(),
    ensures
        with_match_background_from(bytes, offsets, cursor) == text_between(bytes, cursor, bytes.len() as int),
    decreases offsets.len(),
{
    if offsets.len() > 0 {
        assert(offsets[0].1 > bytes.len());
        assert forall|k: int| 0 <= k < offsets.drop_first().len() implies (#[trigger] offsets.drop_first()[k]).1 > bytes.len() by {
            assert(offsets.drop_first()[k] == offsets[k + 1]);
        }
        lemma_ranges_beyond_line_wrap_nothing(bytes, offsets.drop_first(), cursor);
    }
}

/// A line with no match ranges is rendered as it is.
pub proof fn lemma_no_ranges_keep_line(line: Seq<char>)
    ensures
        with_match_background(encode_utf8(line), Seq::empty()) == line,
{
    broadcast use encode_utf8_decode_utf8;

    let bytes = encode_utf8(line);
    assert(bytes.subrange(0, bytes.len() as int) =~= bytes);
}

/// A range inside the line, not empty, that starts at or after the end of
/// the last wrapped range (`cursor`) is wrapped: the text up to it, the
/// opening sequence, its text, the closing sequence, then the rest of the
/// line from its end on.
pub proof fn lemma_range_in_line_is_wrapped(bytes: Seq<u8>, offsets: Seq<(usize, usize)>, cursor: int)
    requires
        offsets.len() > 0,
        cursor <= offsets[0].0 < offsets[0].1 <= bytes.len(),
    ensures
        with_match_background_from(bytes, offsets, cursor) == text_between(bytes, cursor, offsets[0].0 as int)
            + ContextViewer::MATCH_BG_ANSI_START@ + text_between(bytes, offsets[0].0 as int, offsets[0].1 as int)
            + ContextViewer::MATCH_BG_ANSI_END@ + with_match_background_from(
            bytes,
            offsets.drop_first(),
            offsets[0].1 as int,
        ),
{
}

/// A range that is empty, reaches beyond the line, or starts before the end
/// of the last wrapped range is passed over.
pub proof fn lemma_other_ranges_passed_over(bytes: Seq<u8>, offsets: Seq<(usize, usize)>, cursor: int)
    requires
        offsets.len() > 0,
        !(cursor <= offsets[0].0 < offsets[0].1 <= bytes.len()),
    ensures
        with_match_background_from(bytes, offsets, cursor) == with_match_background_from(
            bytes,
            offsets.drop_first(),
            cursor,
        ),
{
}

/// Two adjacent matches are both wrapped: for ranges `[a, b)` and `[b, c)`
/// inside the line, each gets its own pair of sequences.
pub proof fn lemma_adjacent_ranges_both_wrapped(bytes: Seq<u8>, a: usize, b: usize, c: usize)
    requires
        a < b < c <= bytes.len(),
    ensures
        with_match_background(bytes, seq![(a, b), (b, c)]) == text_between(bytes, 0, a as int)
            + ContextViewer::MATCH_BG_ANSI_START@ + text_between(bytes, a as int, b as int)
            + ContextViewer::MATCH_BG_ANSI_END@ + ContextViewer::MATCH_BG_ANSI_START@ + text_between(
            bytes,
            b as int,
            c as int,
        ) + ContextViewer::MATCH_BG_ANSI_END@ + text_between(bytes, c as int, bytes.len() as int),
{
    let offsets = seq![(a, b), (b, c)];
    lemma_range_in_line_is_wrapped(bytes, offsets, 0);
    let rest = offsets.drop_first();
    assert(rest[0] == (b, c));
    lemma_range_in_line_is_wrapped(bytes, rest, b as int);
    assert(rest.drop_first().len() == 0);
    assert(text_between(bytes, b as int, b as int) =~= Seq::<char>::empty()) by {
        assert(bytes.subrange(b as int, b as int) =~= Seq::<u8>::empty());
    }
    let s = ContextViewer::MATCH_BG_ANSI_START@;
    let e = ContextViewer::MATCH_BG_ANSI_END@;
    assert(text_between(bytes, b as int, b as int) + s + text_between(bytes, b as int, c as int) + e
        + text_between(bytes, c as int, bytes.len() as int) =~= s + text_between(bytes, b as int, c as int) + e
        + text_between(bytes, c as int, bytes.len() as int));
}

proof fn lemma_boundary_in_prefix(bytes: Seq<u8>, end: int, i: int)
    requires
        valid_utf8(bytes),
        is_char_boundary(bytes, end),
        is_char_boundary(bytes, i),
        0 <= i <= end <= bytes.len(),
    ensures
        valid_utf8(bytes.subrange(0, end)),
        is_char_boundary(bytes.subrange(0, end), i),
{
    valid_utf8_split(bytes, end);
    let prefix = bytes.subrange(0, end);
    if i == end {
        is_char_boundary_start_end_of_seq(prefix);
        assert(prefix.len() == end);
    } else if i > 0 {
        is_char_boundary_iff_not_is_continuation_byte(bytes, i);
        is_char_boundary_iff_not_is_continuation_byte(prefix, i);
    }
}

proof fn lemma_boundary_in_suffix(bytes: Seq<u8>, start: int, i: int)
    requires
        valid_utf8(bytes),
        is_char_boundary(bytes, start),
        is_char_boundary(bytes, i),
        0 <= start <= i <= bytes.len(),
    ensures
        valid_utf8(bytes.subrange(start, bytes.len() as int)),
        is_char_boundary(bytes.subrange(start, bytes.len() as int), i - start),
{
    valid_utf8_split(bytes, start);
    let suffix = bytes.subrange(start, bytes.len() as int);
    is_char_boundary_start_end_of_seq(suffix);
    if start < i < bytes.len() {
        is_char_boundary_iff_not_is_continuation_byte(bytes, i);
        is_char_boundary_iff_not_is_continuation_byte(suffix, i - start);
        assert(suffix[i - start] == bytes[i]);
    }
}

/// The texts of two adjacent byte ranges, cut at character boundaries, make
/// the text of the range they cover together.
proof fn lemma_text_between_concat(bytes: Seq<u8>, from: int, mid: int, to: int)
    requires
        valid_utf8(bytes),
        0 <= from <= mid <= to <= bytes.len(),
        is_char_boundary(bytes, from),
        is_char_boundary(bytes, mid),
        is_char_boundary(bytes, to),
    ensures
        text_between(bytes, from, mid) + text_between(bytes, mid, to) == text_between(bytes, from, to),
{
    let prefix = bytes.subrange(0, to);
    lemma_boundary_in_prefix(bytes, to, from);
    lemma_boundary_in_prefix(bytes, to, mid);
    lemma_boundary_in_suffix(prefix, from, mid);
    let piece = prefix.subrange(from, to);
    assert(piece =~= bytes.subrange(from, to));
    decode_utf8_split(piece, mid - from);
    assert(piece.subrange(0, mid - from) =~= bytes.subrange(from, mid));
    assert(piece.subrange(mid - from, piece.len() as int) =~= bytes.subrange(mid, to));
}

proof fn lemma_unmarked_from(bytes: Seq<u8>, offsets: Seq<(usize, usize)>, cursor: int)
    requires
        valid_utf8(bytes),
        0 <= cursor <= bytes.len(),
        is_char_boundary(bytes, cursor),
        wrapped_ranges_on_char_boundaries(bytes, offsets, cursor),
    ensures
        with_marks_from(bytes, offsets, cursor, Seq::empty(), Seq::empty()) == text_between(
            bytes,
            cursor,
            bytes.len() as int,
        ),
    decreases offsets.len(),
{
    if offsets.len() > 0 {
        if range_is_wrapped(bytes.len() as int, cursor, offsets[0]) {
            let (start, end) = offsets[0];
            let len = bytes.len() as int;
            lemma_unmarked_from(bytes, offsets.drop_first(), end as int);
            is_char_boundary_start_end_of_seq(bytes);
            lemma_text_between_concat(bytes, cursor, start as int, end as int);
            lemma_text_between_concat(bytes, cursor, end as int, len);
            let e = Seq::<char>::empty();
            assert(text_between(bytes, cursor, start as int) + e + text_between(bytes, start as int, end as int) + e
                =~= text_between(bytes, cursor, end as int));
        } else {
            lemma_unmarked_from(bytes, offsets.drop_first(), cursor);
        }
    }
}

/// Taking the match markers out of a rendered line gives the line back: the
/// rendering puts the line's pieces between the two markers, and with empty
/// markers a line whose wrapped ranges fall on character boundaries is
/// rendered as itself.
pub proof fn lemma_markers_removed_give_line(line: Seq<char>, offsets: Seq<(usize, usize)>)
    requires
        wrapped_ranges_on_char_boundaries(encode_utf8(line), offsets, 0),
    ensures
        with_match_background(encode_utf8(line), offsets) == with_marks_from(
            encode_utf8(line),
            offsets,
            0,
            ContextViewer::MATCH_BG_ANSI_START@,
            ContextViewer::MATCH_BG_ANSI_END@,
        ),
        with_marks_from(encode_utf8(line), offsets, 0, Seq::empty(), Seq::empty()) == line,
{
    broadcast use encode_utf8_valid_utf8, encode_utf8_decode_utf8;

    let bytes = encode_utf8(line);
    is_char_boundary_start_end_of_seq(bytes);
    lemma_unmarked_from(bytes, offsets, 0);
    assert(bytes.subrange(0, bytes.len() as int) =~= bytes);
}

/// True when `p` occurs in `s`.
pub open spec fn contains_pattern(s: Seq<char>, p: Seq<char>) -> bool {
    exists|i: int| 0 <= i && i + p.len() <= s.len() && #[trigger] s.subrange(i, i + p.len()) == p
}

/// `s` with every occurrence of `p` taken out, scanning from the left as
/// `str::replace(p, "")` does: an occurrence is removed whole, and the scan
/// goes on after it.
pub open spec fn without_pattern(s: Seq<char>, p: Seq<char>) -> Seq<char>
    decreases s.len(),
{
    if s.len() == 0 || p.len() == 0 {
        s
    } else if p.is_prefix_of(s) {
        without_pattern(s.skip(p.len() as int), p)
    } else {
        seq![s[0]] + without_pattern(s.skip(1), p)
    }
}

proof fn lemma_marker_shape()
    ensures
        ContextViewer::MATCH_BG_ANSI_START@.len() == 10,
        ContextViewer::MATCH_BG_ANSI_END@.len() == 5,
        ContextViewer::MATCH_BG_ANSI_START@[0] == '\x1b',
        ContextViewer::MATCH_BG_ANSI_END@[0] == '\x1b',
        forall|t: int| 0 < t < 10 ==> ContextViewer::MATCH_BG_ANSI_START@[t] != '\x1b',
        forall|t: int| 0 < t < 5 ==> ContextViewer::MATCH_BG_ANSI_END@[t] != '\x1b',
        ContextViewer::MATCH_BG_ANSI_START@[3] == '8',
        ContextViewer::MATCH_BG_ANSI_END@[3] == '9',
{
    reveal_strlit("\x1b[48;5;52m");
    reveal_strlit("\x1b[49m");
}

proof fn lemma_without_absent(s: Seq<char>, p: Seq<char>)
    requires
        p.len() > 0,
        !contains_pattern(s, p),
    ensures
        without_pattern(s, p) == s,
    decreases s.len(),
{
    if s.len() > 0 {
        if p.is_prefix_of(s) {
            let zero: int = 0;
            assert(s.subrange(zero, zero + p.len()) =~= p);
            assert(contains_pattern(s, p));
        }
        if contains_pattern(s.skip(1), p) {
            let i = choose|i: int|
                0 <= i && i + p.len() <= s.skip(1).len() && #[trigger] s.skip(1).subrange(i, i + p.len()) == p;
            assert(s.subrange(i + 1, i + 1 + p.len()) =~= s.skip(1).subrange(i, i + p.len()));
        }
        lemma_without_absent(s.skip(1), p);
        assert(seq![s[0]] + s.skip(1) =~= s);
    }
}

proof fn lemma_absent_in_parts(a: Seq<char>, b: Seq<char>, p: Seq<char>)
    requires
        !contains_pattern(a + b, p),
    ensures
        !contains_pattern(a, p),
        !contains_pattern(b, p),
{
    if contains_pattern(a, p) {
        let i = choose|i: int| 0 <= i && i + p.len() <= a.len() && #[trigger] a.subrange(i, i + p.len()) == p;
        assert((a + b).subrange(i, i + p.len()) =~= a.subrange(i, i + p.len()));
    }
    if contains_pattern(b, p) {
        let i = choose|i: int| 0 <= i && i + p.len() <= b.len() && #[trigger] b.subrange(i, i + p.len()) == p;
        assert((a + b).subrange(a.len() + i, a.len() + i + p.len()) =~= b.subrange(i, i + p.len()));
    }
}

proof fn lemma_without_leading(p: Seq<char>, y: Seq<char>)
    requires
        p.len() > 0,
    ensures
        without_pattern(p + y, p) == without_pattern(y, p),
{
    assert((p + y).subrange(0, p.len() as int) =~= p);
    assert((p + y).skip(p.len() as int) =~= y);
}

/// Taking `p` out of `x + z` takes it out of each part, when no occurrence
/// of `p` starts in `x` and ends in `z`.
proof fn lemma_without_concat(x: Seq<char>, z: Seq<char>, p: Seq<char>)
    requires
        p.len() > 0,
        forall|k: int|
            0 <= k < x.len() && x.len() < k + p.len() <= x.len() + z.len() ==> #[trigger] (x + z).subrange(
                k,
                k + p.len(),
            ) != p,
    ensures
        without_pattern(x + z, p) == without_pattern(x, p) + without_pattern(z, p),
    decreases x.len(),
{
    let s = x + z;
    if x.len() == 0 {
        assert(s =~= z);
        assert(Seq::<char>::empty() + without_pattern(z, p) =~= without_pattern(z, p));
    } else {
        let d: int = if p.is_prefix_of(x) {
            p.len() as int
        } else {
            1
        };
        if p.is_prefix_of(x) {
            assert(s.subrange(0, p.len() as int) =~= x.subrange(0, p.len() as int));
        } else if p.len() <= x.len() {
            assert(s.subrange(0, p.len() as int) =~= x.subrange(0, p.len() as int));
        } else if p.len() <= s.len() {
            let zero: int = 0;
            assert(s.subrange(zero, zero + p.len()) != p);
            assert(s.subrange(0, p.len() as int) =~= s.subrange(zero, zero + p.len()));
        }
        let x1 = x.skip(d);
        assert(s.skip(d) =~= x1 + z);
        assert forall|k: int|
            0 <= k < x1.len() && x1.len() < k + p.len() <= x1.len() + z.len() implies #[trigger] (x1 + z).subrange(
                k,
                k + p.len(),
            ) != p by {
            assert((x1 + z).subrange(k, k + p.len()) =~= s.subrange(k + d, k + d + p.len()));
        }
        lemma_without_concat(x1, z, p);
        if !p.is_prefix_of(x) {
            assert(s[0] == x[0]);
            assert(seq![x[0]] + (without_pattern(x1, p) + without_pattern(z, p)) =~= (seq![x[0]] + without_pattern(
                x1,
                p,
            )) + without_pattern(z, p));
        }
    }
}

/// No occurrence of `p` starts in `x` and ends in `z` when `z` starts with an
/// escape character and `p` has none but at its start.
proof fn lemma_no_straddle_before_escape(x: Seq<char>, z: Seq<char>, p: Seq<char>)
    requires
        forall|t: int| 0 < t < p.len() ==> p[t] != '\x1b',
        z.len() > 0,
        z[0] == '\x1b',
    ensures
        forall|k: int|
            0 <= k < x.len() && x.len() < k + p.len() <= x.len() + z.len() ==> #[trigger] (x + z).subrange(
                k,
                k + p.len(),
            ) != p,
{
    assert forall|k: int|
        0 <= k < x.len() && x.len() < k + p.len() <= x.len() + z.len() implies #[trigger] (x + z).subrange(
            k,
            k + p.len(),
        ) != p by {
        let j = x.len() - k;
        assert((x + z).subrange(k, k + p.len())[j] == z[0]);
    }
}

proof fn lemma_replace_from(bytes: Seq<u8>, offsets: Seq<(usize, usize)>, cursor: int)
    requires
        valid_utf8(bytes),
        0 <= cursor <= bytes.len(),
        is_char_boundary(bytes, cursor),
        wrapped_ranges_on_char_boundaries(bytes, offsets, cursor),
        !contains_pattern(text_between(bytes, cursor, bytes.len() as int), ContextViewer::MATCH_BG_ANSI_START@),
        !contains_pattern(text_between(bytes, cursor, bytes.len() as int), ContextViewer::MATCH_BG_ANSI_END@),
    ensures
        without_pattern(
            without_pattern(with_match_background_from(bytes, offsets, cursor), ContextViewer::MATCH_BG_ANSI_START@),
            ContextViewer::MATCH_BG_ANSI_END@,
        ) == text_between(bytes, cursor, bytes.len() as int),
    decreases offsets.len(),
{
    let m = ContextViewer::MATCH_BG_ANSI_START@;
    let n = ContextViewer::MATCH_BG_ANSI_END@;
    let len = bytes.len() as int;
    lemma_marker_shape();
    if offsets.len() == 0 {
        lemma_without_absent(text_between(bytes, cursor, len), m);
        lemma_without_absent(text_between(bytes, cursor, len), n);
    } else if range_is_wrapped(len, cursor, offsets[0]) {
        let (start, end) = offsets[0];
        let (start, end) = (start as int, end as int);
        let t1 = text_between(bytes, cursor, start);
        let t2 = text_between(bytes, start, end);
        let head = text_between(bytes, cursor, end);
        let tail = text_between(bytes, end, len);
        let r = with_match_background_from(bytes, offsets.drop_first(), end);
        is_char_boundary_start_end_of_seq(bytes);
        lemma_text_between_concat(bytes, cursor, start, end);
        lemma_text_between_concat(bytes, cursor, end, len);
        lemma_absent_in_parts(head, tail, m);
        lemma_absent_in_parts(head, tail, n);
        lemma_absent_in_parts(t1, t2, m);
        lemma_replace_from(bytes, offsets.drop_first(), end);
        // Taking out the opening markers.
        let y = t2 + (n + r);
        assert(with_match_background_from(bytes, offsets, cursor) =~= t1 + (m + y));
        lemma_no_straddle_before_escape(t1, m + y, m);
        lemma_without_concat(t1, m + y, m);
        lemma_without_absent(t1, m);
        lemma_without_leading(m, y);
        lemma_no_straddle_before_escape(t2, n + r, m);
        lemma_without_concat(t2, n + r, m);
        lemma_without_absent(t2, m);
        assert forall|k: int| 0 <= k < n.len() && n.len() < k + m.len() <= n.len() + r.len() implies #[trigger] (n
            + r).subrange(k, k + m.len()) != m by {
            if k > 0 {
                assert((n + r).subrange(k, k + m.len())[0] == n[k]);
            } else {
                assert((n + r).subrange(k, k + m.len())[3] == n[3]);
            }
        }
        lemma_without_concat(n, r, m);
        lemma_without_absent(n, m);
        let vr = without_pattern(r, m);
        assert(without_pattern(with_match_background_from(bytes, offsets, cursor), m) =~= head + (n + vr));
        // Taking out the closing markers.
        lemma_no_straddle_before_escape(head, n + vr, n);
        lemma_without_concat(head, n + vr, n);
        lemma_without_absent(head, n);
        lemma_without_leading(n, vr);
    } else {
        lemma_replace_from(bytes, offsets.drop_first(), cursor);
    }
}

/// Removing the markers with `replace` gives the line back: taking every
/// match background sequence out of a rendered line, first the opening
/// ones and then the closing ones, leaves the line, when the line holds
/// neither sequence itself and its wrapped ranges fall on character
/// boundaries.
pub proof fn lemma_replacing_markers_gives_line(line: Seq<char>, offsets: Seq<(usize, usize)>)
    requires
        wrapped_ranges_on_char_boundaries(encode_utf8(line), offsets, 0),
        !contains_pattern(line, ContextViewer::MATCH_BG_ANSI_START@),
        !contains_pattern(line, ContextViewer::MATCH_BG_ANSI_END@),
    ensures
        without_pattern(
            without_pattern(with_match_background(encode_utf8(line), offsets), ContextViewer::MATCH_BG_ANSI_START@),
            ContextViewer::MATCH_BG_ANSI_END@,
        ) == line,
{
    broadcast use encode_utf8_valid_utf8, encode_utf8_decode_utf8;

    let bytes = encode_utf8(line);
    is_char_boundary_start_end_of_seq(bytes);
    assert(bytes.subrange(0, bytes.len() as int) =~= bytes);
    lemma_replace_from(bytes, offsets, 0);
}

/// Whether every range of `offsets` that would be wrapped in `line` starts
/// and ends on a character boundary, that is, whether the line can be
/// rendered with these ranges.
pub fn wrapped_ranges_fit(line: &str, offsets: &[(usize, usize)]) -> (r: bool)
    ensures
        r == wrapped_ranges_on_char_boundaries(line.spec_bytes(), offsets@, 0),
{
    let ghost bytes = line.spec_bytes();
    let len = line.as_bytes().len();
    let mut cursor: usize = 0;
    let mut k: usize = 0;
    assert(offsets@.skip(0) =~= offsets@);
    while k < offsets.len()
        invariant
            bytes == line.spec_bytes(),
            len == bytes.len(),
            0 <= k <= offsets@.len(),
            wrapped_ranges_on_char_boundaries(bytes, offsets@, 0)
                == wrapped_ranges_on_char_boundaries(bytes, offsets@.skip(k as int), cursor as int),
        decreases offsets@.len() - k,
    {
        let (start, end) = offsets[k];
        let ghost rest = offsets@.skip(k as int);
        assert(rest[0] == (start, end));
        assert(rest.drop_first() =~= offsets@.skip(k + 1));
        if !(start > len || end > len || start >= end || start < cursor) {
            if !line.is_char_boundary(start) || !line.is_char_boundary(end) {
                return false;
            }
            cursor = end;
        }
        k = k + 1;
    }
    true
}

/// The text of `line` between the byte offsets `from` and `to`.
pub(crate) fn slice_between(line: &str, from: usize, to: usize) -> (r: &str)
    requires
        from <= to <= line.spec_bytes().len(),
        is_char_boundary(line.spec_bytes(), from as int),
        is_char_boundary(line.spec_bytes(), to as int),
    ensures
        r@ == text_between(line.spec_bytes(), from as int, to as int),
{
    broadcast use encode_utf8_valid_utf8, encode_utf8_decode_utf8;

    proof {
        lemma_boundary_in_prefix(line.spec_bytes(), to as int, from as int);
    }
    let (head, _) = line.split_at(to);
    let (_, piece) = head.split_at(from);
    assert(piece.spec_bytes() =~= line.spec_bytes().subrange(from as int, to as int));
    piece
}

} // verus!
