use vstd::prelude::*;

verus! {

/// What one character becomes when tabs are expanded: a tab becomes four
/// spaces, any other character stays.
pub open spec fn expanded_char(c: char) -> Seq<char> {
    if c == '\t' {
        seq![' ', ' ', ' ', ' ']
    } else {
        seq![c]
    }
}

/// `s` with every tab replaced by four spaces.
pub open spec fn expand_tabs(s: Seq<char>) -> Seq<char>
    decreases s.len(),
{
    if s.len() == 0 {
        Seq::empty()
    } else {
        expand_tabs(s.drop_last()) + expanded_char(s.last())
    }
}

/// Tab expansion goes character by character: expanding two texts one
/// after the other gives the expansion of the two together.
pub proof fn lemma_expand_tabs_concat(a: Seq<char>, b: Seq<char>)
    ensures
        expand_tabs(a + b) == expand_tabs(a) + expand_tabs(b),
    decreases b.len(),
{
    if b.len() == 0 {
        assert(a + b =~= a);
        assert(expand_tabs(a) + Seq::<char>::empty() =~= expand_tabs(a));
    } else {
        lemma_expand_tabs_concat(a, b.drop_last());
        assert((a + b).drop_last() =~= a + b.drop_last());
        assert((a + b).last() == b.last());
        assert(expand_tabs(a) + expand_tabs(b.drop_last()) + expanded_char(b.last()) =~= expand_tabs(a) + (
        expand_tabs(b.drop_last()) + expanded_char(b.last())));
    }
}

/// A tab becomes four spaces, and any other character stays as it is.
pub proof fn lemma_expand_tabs_single(c: char)
    ensures
        expand_tabs(seq![c]) == (if c == '\t' {
            seq![' ', ' ', ' ', ' ']
        } else {
            seq![c]
        }),
{
    assert(seq![c].drop_last() =~= Seq::<char>::empty());
    assert(seq![c].last() == c);
    assert(expand_tabs(Seq::<char>::empty()) == Seq::<char>::empty());
    assert(expand_tabs(seq![c]) == expand_tabs(seq![c].drop_last()) + expanded_char(c));
    assert(Seq::<char>::empty() + expanded_char(c) =~= expanded_char(c));
}

/// A run of `n` spaces.
pub open spec fn spaces(n: nat) -> Seq<char> {
    Seq::new(n, |i: int| ' ')
}

/// The display width of a text on a terminal, in columns, as `ratatui`
/// measures the content of a span (Unicode East Asian width rules).
pub uninterp spec fn display_width(text: Seq<char>) -> usize;

/// Appends one character to a string (`String::push`).
#[verifier::external_body]
pub(crate) fn push_char(text: &mut String, c: char)
    ensures
        final(text)@ == old(text)@.push(c),
{
    text.push(c);
}

/// The characters of `s`, in order.
pub(crate) fn chars_of(s: &str) -> (r: Vec<char>)
    ensures
        r@ == s@,
{
    let mut r: Vec<char> = Vec::new();
    for c in it: s.chars()
        invariant
            r@ == it.seq().take(it.index() as int),
    {
        r.push(c);
    }
    r
}

/// The width that `ratatui` gives a span holding `text`
/// (`ratatui::text::Span::width`).
#[verifier::external_body]
pub(crate) fn span_width(text: &str) -> (w: usize)
    ensures
        w == display_width(text@),
{
    ratatui::text::Span::raw(text).width()
}

/// `s` with every tab replaced by four spaces.
pub fn expand_tabs_in(s: &str) -> (r: String)
    ensures
        r@ == expand_tabs(s@),
{
    let chars = chars_of(s);
    let mut r = String::new();
    let mut i: usize = 0;
    while i < chars.len()
        invariant
            chars@ == s@,
            i <= chars@.len(),
            r@ == expand_tabs(s@.take(i as int)),
        decreases chars@.len() - i,
    {
        let c = chars[i];
        assert(s@.take(i + 1).drop_last() =~= s@.take(i as int));
        if c == '\t' {
            push_char(&mut r, ' ');
            push_char(&mut r, ' ');
            push_char(&mut r, ' ');
            push_char(&mut r, ' ');
        } else {
            push_char(&mut r, c);
        }
        assert(r@ =~= expand_tabs(s@.take(i + 1)));
        i = i + 1;
    }
    assert(s@.take(chars@.len() as int) =~= s@);
    r
}

/// A string of `n` spaces.
pub fn spaces_of(n: usize) -> (r: String)
    ensures
        r@ == spaces(n as nat),
{
    let mut r = String::new();
    let mut i: usize = 0;
    while i < n
        invariant
            i <= n,
            r@ == spaces(i as nat),
        decreases n - i,
    {
        push_char(&mut r, ' ');
        i = i + 1;
        assert(r@ =~= spaces(i as nat));
    }
    r
}

} // verus!
