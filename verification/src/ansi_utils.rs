use vstd::prelude::*;
use vstd::string::StringSliceAdditionalSpecFns;
use vstd::utf8::*;

use crate::text::{chars_of, push_char};

verus! {

/// True when an OSC 8 hyperlink introducer `ESC ] 8 ;` starts at index `i`.
pub open spec fn is_osc8_start(s: Seq<char>, i: int) -> bool {
    &&& 0 <= i
    &&& i + 3 < s.len()
    &&& s[i] == '\x1b'
    &&& s[i + 1] == ']'
    &&& s[i + 2] == '8'
    &&& s[i + 3] == ';'
}

/// What is kept of `s` from index `i` on. `inside_link` is true while the
/// scan is within an OSC 8 sequence: there every character is dropped up to
/// and including the terminator, a BEL or the two-character `ESC \`, or up to
/// the end of the text when no terminator follows. Outside a sequence every
/// character is kept except those of a sequence that starts there.
pub open spec fn strip_osc8_from(s: Seq<char>, i: int, inside_link: bool) -> Seq<char>
    decreases s.len() - i,
{
    if i < 0 || i >= s.len() {
        Seq::empty()
    } else if inside_link {
        if s[i] == '\x07' {
            strip_osc8_from(s, i + 1, false)
        } else if s[i] == '\x1b' && i + 1 < s.len() && s[i + 1] == '\\' {
            strip_osc8_from(s, i + 2, false)
        } else {
            strip_osc8_from(s, i + 1, true)
        }
    } else if is_osc8_start(s, i) {
        strip_osc8_from(s, i + 4, true)
    } else {
        seq![s[i]] + strip_osc8_from(s, i + 1, false)
    }
}

/// The text of `s` with every OSC 8 hyperlink sequence removed and the
/// visible text between such sequences kept.
pub open spec fn strip_osc8(s: Seq<char>) -> Seq<char> {
    strip_osc8_from(s, 0, false)
}

proof fn lemma_strip_from_without_escape(s: Seq<char>, i: int)
    requires
        0 <= i <= s.len(),
        forall|k: int| 0 <= k < s.len() ==> s[k] != '\x1b',
    ensures
        strip_osc8_from(s, i, false) == s.subrange(i, s.len() as int),
    decreases s.len() - i,
{
    if i < s.len() {
        lemma_strip_from_without_escape(s, i + 1);
        assert(seq![s[i]] + s.subrange(i + 1, s.len() as int) =~= s.subrange(i, s.len() as int));
    } else {
        assert(s.subrange(i, s.len() as int) =~= Seq::<char>::empty());
    }
}

/// Text without escape characters is kept as it is.
pub proof fn lemma_strip_keeps_text_without_escape(s: Seq<char>)
    requires
        forall|k: int| 0 <= k < s.len() ==> s[k] != '\x1b',
    ensures
        strip_osc8(s) == s,
{
    lemma_strip_from_without_escape(s, 0);
    assert(s.subrange(0, s.len() as int) =~= s);
}

proof fn lemma_strip_from_len(s: Seq<char>, i: int, inside_link: bool)
    requires
        0 <= i,
    ensures
        strip_osc8_from(s, i, inside_link).len() <= if i < s.len() { s.len() - i } else { 0 },
    decreases s.len() - i,
{
    if i < s.len() {
        lemma_strip_from_len(s, i + 1, false);
        lemma_strip_from_len(s, i + 1, true);
        if i + 2 <= s.len() {
            lemma_strip_from_len(s, i + 2, false);
        }
        if i + 4 <= s.len() {
            lemma_strip_from_len(s, i + 4, true);
        }
    }
}

/// Stripping never makes a text longer.
pub proof fn lemma_strip_never_grows(s: Seq<char>)
    ensures
        strip_osc8(s).len() <= s.len(),
{
    lemma_strip_from_len(s, 0, false);
}

/// The OSC 8 sequence `ESC ] 8 ; params ; uri ESC \`. It opens a
/// hyperlink to `uri`; with empty `params` and `uri` it closes one.
pub open spec fn osc8_sequence(params: Seq<char>, uri: Seq<char>) -> Seq<char> {
    seq!['\x1b', ']', '8', ';'] + params + seq![';'] + uri + seq!['\x1b', '\\']
}

/// True when `s` holds no BEL and no escape character.
pub open spec fn without_terminators(s: Seq<char>) -> bool {
    forall|k: int| 0 <= k < s.len() ==> s[k] != '\x07' && s[k] != '\x1b'
}

proof fn lemma_osc8_sequence_shape(params: Seq<char>, uri: Seq<char>)
    requires
        without_terminators(params),
        without_terminators(uri),
    ensures
        ({
            let o = osc8_sequence(params, uri);
            &&& o.len() == params.len() + uri.len() + 7
            &&& is_osc8_start(o, 0)
            &&& o[o.len() - 2] == '\x1b'
            &&& o[o.len() - 1] == '\\'
            &&& forall|k: int| 4 <= k < o.len() - 2 ==> o[k] != '\x07' && o[k] != '\x1b'
        }),
{
    let o = osc8_sequence(params, uri);
    assert forall|k: int| 4 <= k < o.len() - 2 implies o[k] != '\x07' && o[k] != '\x1b' by {
        if k < 4 + params.len() {
            assert(o[k] == params[k - 4]);
        } else if k == 4 + params.len() {
            assert(o[k] == ';');
        } else {
            assert(o[k] == uri[k - 5 - params.len()]);
        }
    }
}

proof fn lemma_skip_sequence_body(s: Seq<char>, i: int, end: int)
    requires
        0 <= i <= end,
        end + 1 < s.len(),
        forall|k: int| i <= k < end ==> s[k] != '\x07' && s[k] != '\x1b',
        s[end] == '\x1b',
        s[end + 1] == '\\',
    ensures
        strip_osc8_from(s, i, true) == strip_osc8_from(s, end + 2, false),
    decreases end - i,
{
    if i < end {
        lemma_skip_sequence_body(s, i + 1, end);
    }
}

proof fn lemma_keep_plain_run(s: Seq<char>, i: int, end: int)
    requires
        0 <= i <= end <= s.len(),
        forall|k: int| i <= k < end ==> !is_osc8_start(s, k),
    ensures
        strip_osc8_from(s, i, false) == s.subrange(i, end) + strip_osc8_from(s, end, false),
    decreases end - i,
{
    if i < end {
        lemma_keep_plain_run(s, i + 1, end);
        assert(!is_osc8_start(s, i));
        assert(seq![s[i]] + s.subrange(i + 1, end) =~= s.subrange(i, end));
        assert(seq![s[i]] + (s.subrange(i + 1, end) + strip_osc8_from(s, end, false)) =~= s.subrange(i, end)
            + strip_osc8_from(s, end, false));
    } else {
        assert(s.subrange(i, end) + strip_osc8_from(s, end, false) =~= strip_osc8_from(s, end, false));
    }
}

/// Removing the hyperlink around a text gives the text back: a text in
/// which no OSC 8 sequence starts, between an OSC 8 sequence that opens a
/// link and the one that closes it, is all that stripping keeps.
pub proof fn lemma_strip_unwraps_hyperlink(params: Seq<char>, uri: Seq<char>, text: Seq<char>)
    requires
        without_terminators(params),
        without_terminators(uri),
        forall|k: int| !is_osc8_start(text, k),
    ensures
        strip_osc8(osc8_sequence(params, uri) + text + osc8_sequence(Seq::empty(), Seq::empty())) == text,
{
    let open = osc8_sequence(params, uri);
    let close = osc8_sequence(Seq::empty(), Seq::empty());
    let s = open + text + close;
    lemma_osc8_sequence_shape(params, uri);
    lemma_osc8_sequence_shape(Seq::empty(), Seq::empty());
    let a = open.len() as int;
    let b = a + text.len();
    assert(is_osc8_start(s, 0)) by {
        assert(s[0] == open[0] && s[1] == open[1] && s[2] == open[2] && s[3] == open[3]);
    }
    assert(s[a - 2] == open[a - 2] && s[a - 1] == open[a - 1]);
    assert forall|k: int| 4 <= k < a - 2 implies s[k] != '\x07' && s[k] != '\x1b' by {
        assert(s[k] == open[k]);
    }
    lemma_skip_sequence_body(s, 4, a - 2);
    assert forall|k: int| a <= k < b implies !is_osc8_start(s, k) by {
        if k + 3 < b {
            assert(!is_osc8_start(text, k - a));
            assert(s[k] == text[k - a] && s[k + 1] == text[k + 1 - a]);
            assert(s[k + 2] == text[k + 2 - a] && s[k + 3] == text[k + 3 - a]);
        } else if k + 1 == b {
            assert(s[k + 1] == close[0]);
        } else if k + 2 == b {
            assert(s[k + 2] == close[0]);
        } else {
            assert(s[k + 3] == close[0]);
        }
    }
    lemma_keep_plain_run(s, a, b);
    assert(s.subrange(a, b) =~= text);
    assert(is_osc8_start(s, b)) by {
        assert(s[b] == close[0] && s[b + 1] == close[1] && s[b + 2] == close[2] && s[b + 3] == close[3]);
    }
    assert(s[s.len() - 2] == close[close.len() - 2] && s[s.len() - 1] == close[close.len() - 1]);
    assert forall|k: int| b + 4 <= k < s.len() - 2 implies s[k] != '\x07' && s[k] != '\x1b' by {
        assert(s[k] == close[k - b]);
    }
    lemma_skip_sequence_body(s, b + 4, s.len() - 2);
    assert(strip_osc8_from(s, s.len() as int, false) =~= Seq::<char>::empty());
    assert(text + Seq::<char>::empty() =~= text);
}

/// True when the bytes `ESC ] 8 ;` start at index `i`.
pub open spec fn is_osc8_start_bytes(b: Seq<u8>, i: int) -> bool {
    &&& 0 <= i
    &&& i + 3 < b.len()
    &&& b[i] == 0x1b
    &&& b[i + 1] == 0x5d
    &&& b[i + 2] == 0x38
    &&& b[i + 3] == 0x3b
}

/// Stripping OSC 8 sequences done byte by byte on UTF-8 encoded text, in
/// the same way as [`strip_osc8_from`] does it character by character.
pub open spec fn strip_osc8_bytes_from(b: Seq<u8>, i: int, inside_link: bool) -> Seq<u8>
    decreases b.len() - i,
{
    if i < 0 || i >= b.len() {
        Seq::empty()
    } else if inside_link {
        if b[i] == 0x07 {
            strip_osc8_bytes_from(b, i + 1, false)
        } else if b[i] == 0x1b && i + 1 < b.len() && b[i + 1] == 0x5c {
            strip_osc8_bytes_from(b, i + 2, false)
        } else {
            strip_osc8_bytes_from(b, i + 1, true)
        }
    } else if is_osc8_start_bytes(b, i) {
        strip_osc8_bytes_from(b, i + 4, true)
    } else {
        seq![b[i]] + strip_osc8_bytes_from(b, i + 1, false)
    }
}

/// The bytes kept when OSC 8 sequences are stripped from UTF-8 bytes.
pub open spec fn strip_osc8_bytes(b: Seq<u8>) -> Seq<u8> {
    strip_osc8_bytes_from(b, 0, false)
}

proof fn lemma_strip_shift(s: Seq<char>, i: int, j: int, inside_link: bool)
    requires
        0 <= i <= s.len(),
        0 <= j,
    ensures
        strip_osc8_from(s, i + j, inside_link) == strip_osc8_from(s.skip(i), j, inside_link),
    decreases s.len() - (i + j),
{
    let t = s.skip(i);
    if i + j < s.len() {
        assert(t[j] == s[i + j]);
        if j + 1 < t.len() {
            assert(t[j + 1] == s[i + j + 1]);
        }
        if j + 3 < t.len() {
            assert(t[j + 2] == s[i + j + 2]);
            assert(t[j + 3] == s[i + j + 3]);
        }
        assert(is_osc8_start(s, i + j) == is_osc8_start(t, j));
        lemma_strip_shift(s, i, j + 1, false);
        lemma_strip_shift(s, i, j + 1, true);
        if i + j + 2 <= s.len() {
            lemma_strip_shift(s, i, j + 2, false);
        }
        if i + j + 4 <= s.len() {
            lemma_strip_shift(s, i, j + 4, true);
        }
    }
}

proof fn lemma_strip_bytes_shift(b: Seq<u8>, i: int, j: int, inside_link: bool)
    requires
        0 <= i <= b.len(),
        0 <= j,
    ensures
        strip_osc8_bytes_from(b, i + j, inside_link) == strip_osc8_bytes_from(b.skip(i), j, inside_link),
    decreases b.len() - (i + j),
{
    let t = b.skip(i);
    if i + j < b.len() {
        assert(t[j] == b[i + j]);
        if j + 1 < t.len() {
            assert(t[j + 1] == b[i + j + 1]);
        }
        if j + 3 < t.len() {
            assert(t[j + 2] == b[i + j + 2]);
            assert(t[j + 3] == b[i + j + 3]);
        }
        assert(is_osc8_start_bytes(b, i + j) == is_osc8_start_bytes(t, j));
        lemma_strip_bytes_shift(b, i, j + 1, false);
        lemma_strip_bytes_shift(b, i, j + 1, true);
        if i + j + 2 <= b.len() {
            lemma_strip_bytes_shift(b, i, j + 2, false);
        }
        if i + j + 4 <= b.len() {
            lemma_strip_bytes_shift(b, i, j + 4, true);
        }
    }
}

proof fn lemma_encode_scalar_bytes(c: char)
    ensures
        1 <= encode_scalar(c as u32).len() <= 4,
        (c as u32) < 0x80 ==> encode_scalar(c as u32) == seq![(c as u32) as u8],
        (c as u32) < 0x80 ==> ((c as u32) as u8) as u32 == c as u32,
        (c as u32) >= 0x80 ==> forall|k: int|
            0 <= k < encode_scalar(c as u32).len() ==> #[trigger] encode_scalar(c as u32)[k] >= 0x80,
{
    let v = c as u32;
    assert(is_scalar(v)) by {
        char_is_scalar(c);
    }
    if v < 0x80 {
        assert((v & 0x7F) as u8 == v as u8 && (v as u8) as u32 == v) by (bit_vector)
            requires
                v < 0x80,
        ;
    } else {
        assert(forall|x: u8| #![trigger (0xC0u8 | x)] (0xC0u8 | x) >= 0x80) by (bit_vector);
        assert(forall|x: u8| #![trigger (0xE0u8 | x)] (0xE0u8 | x) >= 0x80) by (bit_vector);
        assert(forall|x: u8| #![trigger (0xF0u8 | x)] (0xF0u8 | x) >= 0x80) by (bit_vector);
        assert(forall|x: u8| #![trigger (0x80u8 | x)] (0x80u8 | x) >= 0x80) by (bit_vector);
    }
}

proof fn lemma_encode_first(u: Seq<char>)
    requires
        u.len() > 0,
    ensures
        encode_utf8(u) == encode_scalar(u[0] as u32) + encode_utf8(u.drop_first()),
        encode_utf8(u).len() >= encode_scalar(u[0] as u32).len() >= 1,
        encode_utf8(u).skip(encode_scalar(u[0] as u32).len() as int) == encode_utf8(u.drop_first()),
        (u[0] as u32) < 0x80 ==> encode_utf8(u)[0] == (u[0] as u32) as u8,
        (u[0] as u32) < 0x80 ==> ((u[0] as u32) as u8) as u32 == u[0] as u32,
        (u[0] as u32) >= 0x80 ==> forall|k: int|
            0 <= k < encode_scalar(u[0] as u32).len() ==> #[trigger] encode_utf8(u)[k] >= 0x80,
{
    lemma_encode_scalar_bytes(u[0]);
    let e = encode_scalar(u[0] as u32);
    let r = encode_utf8(u.drop_first());
    assert((e + r).skip(e.len() as int) =~= r);
    assert forall|k: int| 0 <= k < e.len() implies (e + r)[k] == e[k] by {}
}

proof fn lemma_encode_empty(u: Seq<char>)
    requires
        u.len() == 0,
    ensures
        encode_utf8(u).len() == 0,
{
}

/// The character whose UTF-8 encoding starts with the byte `b`, when that
/// byte is ASCII.
proof fn lemma_ascii_byte(u: Seq<char>, b: u8)
    requires
        encode_utf8(u).len() > 0,
        encode_utf8(u)[0] == b,
        b < 0x80,
    ensures
        u.len() > 0,
        u[0] as u32 == b as u32,
        u[0] == (b as u32) as char,
        encode_utf8(u).skip(1) == encode_utf8(u.drop_first()),
{
    if u.len() == 0 {
        lemma_encode_empty(u);
    }
    lemma_encode_first(u);
    lemma_encode_scalar_bytes(u[0]);
    if (u[0] as u32) >= 0x80 {
        assert(encode_utf8(u)[0] >= 0x80);
    }
    char_u32_cast(u[0], u[0] as u32);
}

proof fn lemma_copy_high_bytes(b: Seq<u8>, k: int, n: int)
    requires
        0 <= k <= n <= b.len(),
        forall|m: int| k <= m < n ==> #[trigger] b[m] >= 0x80,
    ensures
        strip_osc8_bytes_from(b, k, false) == b.subrange(k, n) + strip_osc8_bytes_from(b, n, false),
    decreases n - k,
{
    if k < n {
        lemma_copy_high_bytes(b, k + 1, n);
        assert(b.subrange(k, n) =~= seq![b[k]] + b.subrange(k + 1, n));
    } else {
        assert(b.subrange(k, n) =~= Seq::<u8>::empty());
    }
}

proof fn lemma_skip_high_bytes(b: Seq<u8>, k: int, n: int)
    requires
        0 <= k <= n <= b.len(),
        forall|m: int| k <= m < n ==> #[trigger] b[m] >= 0x80,
    ensures
        strip_osc8_bytes_from(b, k, true) == strip_osc8_bytes_from(b, n, true),
    decreases n - k,
{
    if k < n {
        lemma_skip_high_bytes(b, k + 1, n);
    }
}

/// What the induction over a text uses: stripping its suffix `u` at the
/// byte level agrees with stripping it at the character level.
spec fn strip_agrees(u: Seq<char>, inside_link: bool) -> bool {
    strip_osc8_bytes_from(encode_utf8(u), 0, inside_link) == encode_utf8(strip_osc8_from(u, 0, inside_link))
}

proof fn lemma_encode_push_front(c: char, x: Seq<char>)
    ensures
        encode_utf8(seq![c] + x) == encode_scalar(c as u32) + encode_utf8(x),
{
    let y = seq![c] + x;
    assert(y[0] == c);
    assert(y.drop_first() =~= x);
}

proof fn lemma_case_ascii_inside(t: Seq<char>)
    requires
        t.len() > 0,
        (t[0] as u32) < 0x80,
        strip_agrees(t.drop_first(), false),
        strip_agrees(t.drop_first(), true),
        t.len() > 1 ==> strip_agrees(t.drop_first().drop_first(), false),
    ensures
        strip_agrees(t, true),
{
    let b = encode_utf8(t);
    let c = t[0];
    let rest = t.drop_first();
    lemma_encode_first(t);
    lemma_encode_scalar_bytes(c);
    lemma_strip_shift(t, 1, 0, false);
    lemma_strip_shift(t, 1, 0, true);
    assert(t.skip(1) =~= rest);
    lemma_strip_bytes_shift(b, 1, 0, false);
    lemma_strip_bytes_shift(b, 1, 0, true);
    if c == '\x07' {
    } else if c == '\x1b' && 1 < t.len() && t[1] == '\\' {
        lemma_encode_first(rest);
        assert(rest[0] == '\\');
        lemma_encode_scalar_bytes(rest[0]);
        assert(b.skip(1) == encode_utf8(rest));
        assert(b[1] == encode_utf8(rest)[0]);
        lemma_strip_shift(t, 2, 0, false);
        lemma_strip_bytes_shift(b, 2, 0, false);
        assert(b.skip(2) =~= encode_utf8(rest).skip(1));
        assert(t.skip(2) =~= rest.drop_first());
        assert(strip_osc8_bytes_from(b, 0, true) == strip_osc8_bytes_from(b, 2, false));
        assert(strip_osc8_from(t, 0, true) == strip_osc8_from(t, 2, false));
    } else {
        if c == '\x1b' && 1 < b.len() && b[1] == 0x5c {
            assert(b[1] == encode_utf8(rest)[0]);
            lemma_ascii_byte(rest, 0x5c);
            assert((0x5cu32 as char) == '\\');
            assert(t[1] == rest[0]);
            assert(t.len() > 1);
            assert(false);
        }
        char_u32_cast(c, c as u32);
        assert((0x07u32 as char) == '\x07');
        assert((0x1bu32 as char) == '\x1b');
        assert(b[0] != 0x07);
        assert(b[0] == 0x1b ==> c == '\x1b');
        assert(strip_osc8_bytes_from(b, 0, true) == strip_osc8_bytes_from(b, 1, true));
        assert(strip_osc8_from(t, 0, true) == strip_osc8_from(t, 1, true));
    }
}

proof fn lemma_case_ascii_outside(t: Seq<char>)
    requires
        t.len() > 0,
        (t[0] as u32) < 0x80,
        strip_agrees(t.drop_first(), false),
        t.len() >= 4 ==> strip_agrees(t.skip(4), true),
    ensures
        strip_agrees(t, false),
{
    let b = encode_utf8(t);
    let c = t[0];
    let rest = t.drop_first();
    lemma_encode_first(t);
    lemma_encode_scalar_bytes(c);
    lemma_strip_shift(t, 1, 0, false);
    assert(t.skip(1) =~= rest);
    lemma_strip_bytes_shift(b, 1, 0, false);
    if is_osc8_start(t, 0) {
        let r1 = rest;
        let r2 = r1.drop_first();
        let r3 = r2.drop_first();
        lemma_encode_first(r1);
        lemma_encode_first(r2);
        lemma_encode_first(r3);
        assert(r1[0] == t[1]);
        assert(r2[0] == t[2]);
        assert(r3[0] == t[3]);
        assert(b.skip(1) == encode_utf8(r1));
        assert(b[1] == encode_utf8(r1)[0]);
        assert(b[2] == encode_utf8(r1)[1]);
        assert(encode_utf8(r1).skip(1) == encode_utf8(r2));
        assert(b[2] == encode_utf8(r2)[0]);
        assert(b[3] == encode_utf8(r2)[1]);
        assert(encode_utf8(r2).skip(1) == encode_utf8(r3));
        assert(b[3] == encode_utf8(r3)[0]);
        assert(b.skip(4) =~= encode_utf8(r3.drop_first()));
        assert(t.skip(4) =~= r3.drop_first());
        lemma_strip_shift(t, 4, 0, true);
        lemma_strip_bytes_shift(b, 4, 0, true);
    } else {
        if is_osc8_start_bytes(b, 0) {
            assert(b[1] == encode_utf8(rest)[0]);
            lemma_ascii_byte(rest, 0x5d);
            let r2 = rest.drop_first();
            assert(b[2] == encode_utf8(rest)[1]);
            assert(encode_utf8(rest)[1] == encode_utf8(r2)[0]);
            lemma_ascii_byte(r2, 0x38);
            let r3 = r2.drop_first();
            assert(b[3] == encode_utf8(r2)[1]);
            assert(encode_utf8(r2)[1] == encode_utf8(r3)[0]);
            lemma_ascii_byte(r3, 0x3b);
            assert((0x5du32 as char) == ']');
            assert((0x38u32 as char) == '8');
            assert((0x3bu32 as char) == ';');
            assert(c as u32 == 0x1b);
            char_u32_cast(c, c as u32);
            assert((0x1bu32 as char) == '\x1b');
            assert(t.len() >= 4);
            assert(t[1] == rest[0]);
            assert(t[2] == r2[0]);
            assert(t[3] == r3[0]);
            assert(false);
        }
        lemma_encode_push_front(c, strip_osc8_from(rest, 0, false));
    }
}

proof fn lemma_case_wide(t: Seq<char>, inside_link: bool)
    requires
        t.len() > 0,
        (t[0] as u32) >= 0x80,
        strip_agrees(t.drop_first(), inside_link),
    ensures
        strip_agrees(t, inside_link),
{
    let b = encode_utf8(t);
    let c = t[0];
    let rest = t.drop_first();
    lemma_encode_first(t);
    let e = encode_scalar(c as u32);
    let n = e.len() as int;
    lemma_strip_shift(t, 1, 0, inside_link);
    assert(t.skip(1) =~= rest);
    assert(forall|m: int| 0 <= m < n ==> #[trigger] b[m] >= 0x80);
    lemma_strip_bytes_shift(b, n, 0, inside_link);
    if inside_link {
        lemma_skip_high_bytes(b, 0, n);
    } else {
        lemma_copy_high_bytes(b, 0, n);
        assert(b.subrange(0, n) =~= e);
        lemma_encode_push_front(c, strip_osc8_from(rest, 0, false));
    }
}

proof fn lemma_strip_encoded(t: Seq<char>, inside_link: bool)
    ensures
        strip_agrees(t, inside_link),
    decreases t.len(),
{
    if t.len() == 0 {
        lemma_encode_empty(t);
        lemma_encode_empty(strip_osc8_from(t, 0, inside_link));
        return;
    }
    let rest = t.drop_first();
    lemma_strip_encoded(rest, false);
    lemma_strip_encoded(rest, true);
    if (t[0] as u32) < 0x80 {
        if t.len() > 1 {
            lemma_strip_encoded(rest.drop_first(), false);
        }
        if t.len() >= 4 {
            lemma_strip_encoded(t.skip(4), true);
        }
        if inside_link {
            lemma_case_ascii_inside(t);
        } else {
            lemma_case_ascii_outside(t);
        }
    } else {
        lemma_case_wide(t, inside_link);
    }
}

/// Stripping the characters of a text is stripping the bytes of its UTF-8
/// encoding: the bytes kept are exactly the encoding of the characters
/// kept, so they are valid UTF-8 and decode to the stripped text.
pub proof fn lemma_strip_bytes_is_strip_chars(s: Seq<char>)
    ensures
        strip_osc8_bytes(encode_utf8(s)) == encode_utf8(strip_osc8(s)),
        valid_utf8(strip_osc8_bytes(encode_utf8(s))),
        decode_utf8(strip_osc8_bytes(encode_utf8(s))) == strip_osc8(s),
{
    broadcast use encode_utf8_valid_utf8, encode_utf8_decode_utf8;

    lemma_strip_encoded(s, false);
}

/// Removes OSC 8 hyperlink escape sequences from `s` and keeps the text that
/// they wrapped: the introducer `ESC ] 8 ;`, the parameters and link target
/// after it, and the terminator (BEL or `ESC \`) are dropped. An introducer
/// without a terminator drops the rest of the text. The UTF-8 bytes of the
/// result are those that a scan over the bytes of `s` keeps.
pub fn strip_osc8_keep_text(s: &str) -> (r: String)
    ensures
        r@ == strip_osc8(s@),
        encode_utf8(r@) == strip_osc8_bytes(s.spec_bytes()),
{
    proof {
        lemma_strip_bytes_is_strip_chars(s@);
    }
    let chars = chars_of(s);
    let n = chars.len();
    let mut out = String::new();
    let mut i: usize = 0;
    while i < n
        invariant
            n == chars@.len(),
            chars@ == s@,
            i <= n,
            out@ + strip_osc8_from(s@, i as int, false) == strip_osc8(s@),
        decreases n - i,
    {
        if n - i > 3 && chars[i] == '\x1b' && chars[i + 1] == ']' && chars[i + 2] == '8'
            && chars[i + 3] == ';' {
            i = i + 4;
            let ghost body_start = i;
            while i < n
                invariant_except_break
                    body_start <= i,
                    n == chars@.len(),
                    chars@ == s@,
                    i <= n,
                    out@ + strip_osc8_from(s@, i as int, true) == strip_osc8(s@),
                ensures
                    body_start <= i <= n,
                    out@ + strip_osc8_from(s@, i as int, false) == strip_osc8(s@),
                decreases n - i,
            {
                if chars[i] == '\x07' {
                    i = i + 1;
                    break;
                }
                if chars[i] == '\x1b' && i + 1 < n && chars[i + 1] == '\\' {
                    i = i + 2;
                    break;
                }
                i = i + 1;
            }
        } else {
            let c = chars[i];
            proof {
                assert(out@ + strip_osc8_from(s@, i as int, false) == out@.push(c)
                    + strip_osc8_from(s@, i + 1, false));
            }
            push_char(&mut out, c);
            i = i + 1;
        }
    }
    out
}

} // verus!
