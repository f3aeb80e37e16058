//! Plain text to paragraph HTML.

use vstd::prelude::*;
use crate::chars::{trim, trimmed_bounds, chars_of, string_of};

verus! {

/// `&`, `<` and `>` as entities; every other character as it is.
pub open spec fn escape_char(c: char) -> Seq<char> {
    if c == '&' {
        seq!['&', 'a', 'm', 'p', ';']
    } else if c == '<' {
        seq!['&', 'l', 't', ';']
    } else if c == '>' {
        seq!['&', 'g', 't', ';']
    } else {
        seq![c]
    }
}

/// The text with `&`, `<` and `>` escaped.
pub open spec fn escaped(s: Seq<char>) -> Seq<char>
    decreases s.len(),
{
    if s.len() == 0 {
        seq![]
    } else {
        escaped(s.drop_last()) + escape_char(s.last())
    }
}

/// The text with every newline written as `<br>`.
pub open spec fn with_breaks(s: Seq<char>) -> Seq<char>
    decreases s.len(),
{
    if s.len() == 0 {
        seq![]
    } else {
        with_breaks(s.drop_last()) + if s.last() == '\n' {
            seq!['<', 'b', 'r', '>']
        } else {
            seq![s.last()]
        }
    }
}

/// One `<p>` element holding the text, newlines as line breaks.
pub open spec fn paragraph(s: Seq<char>) -> Seq<char> {
    seq!['<', 'p', '>'] + with_breaks(s) + seq!['<', '/', 'p', '>']
}

/// A blank line, that is two newlines in a row, starts at `k`.
pub open spec fn blank_line_at(s: Seq<char>, k: int) -> bool {
    0 <= k && k + 1 < s.len() && s[k] == '\n' && s[k + 1] == '\n'
}

pub open spec fn has_blank_line(s: Seq<char>) -> bool {
    exists|k: int| blank_line_at(s, k)
}

/// The first blank line at or after `i`.
pub open spec fn find_blank_line(s: Seq<char>, i: int) -> Option<int>
    decreases s.len() - i,
{
    if i < 0 || i + 1 >= s.len() {
        None
    } else if blank_line_at(s, i) {
        Some(i)
    } else {
        find_blank_line(s, i + 1)
    }
}

/// A segment's paragraph, or nothing when the segment is blank.
pub open spec fn kept_paragraph(seg: Seq<char>) -> Seq<char> {
    if trim(seg).len() == 0 {
        seq![]
    } else {
        paragraph(seg)
    }
}

/// The paragraphs of the segments from `i` on, segments being separated
/// by blank lines.
pub open spec fn paragraphs_from(s: Seq<char>, i: int) -> Seq<char>
    decreases s.len() - i,
{
    if i < 0 || i > s.len() {
        seq![]
    } else {
        match find_blank_line(s, i) {
            Some(k) => if i <= k && k + 2 <= s.len() {
                kept_paragraph(s.subrange(i, k)) + paragraphs_from(s, k + 2)
            } else {
                seq![]
            },
            None => kept_paragraph(s.subrange(i, s.len() as int)),
        }
    }
}

/// HTML for escaped text `e`: one paragraph per non-blank segment when
/// there are blank lines, else the whole text in one paragraph.
pub open spec fn paragraphs_html(e: Seq<char>) -> Seq<char> {
    if find_blank_line(e, 0) is Some {
        paragraphs_from(e, 0)
    } else {
        paragraph(e)
    }
}

/// Relies on `html_escape::encode_text`: `&`, `<` and `>` become
/// `&amp;`, `&lt;` and `&gt;`, every other character is kept.
#[verifier::external_body]
fn encode_text(s: &str) -> (r: String)
    ensures
        r@ == escaped(s@),
{
    html_escape::encode_text(s).into_owned()
}

fn push_with_breaks(out: &mut Vec<char>, s: &Vec<char>, lo: usize, hi: usize)
    requires
        lo <= hi <= s@.len(),
    ensures
        final(out)@ == old(out)@ + with_breaks(s@.subrange(lo as int, hi as int)),
{
    let mut k: usize = lo;
    assert(with_breaks(s@.subrange(lo as int, lo as int)) =~= seq![]);
    assert(out@ =~= old(out)@ + with_breaks(s@.subrange(lo as int, lo as int)));
    while k < hi
        invariant
            lo <= k <= hi <= s@.len(),
            out@ == old(out)@ + with_breaks(s@.subrange(lo as int, k as int)),
        decreases hi - k,
    {
        let ghost prev = out@;
        assert(s@.subrange(lo as int, k + 1).drop_last() =~= s@.subrange(lo as int, k as int));
        if s[k] == '\n' {
            out.push('<');
            out.push('b');
            out.push('r');
            out.push('>');
        } else {
            out.push(s[k]);
        }
        k = k + 1;
        assert(out@ =~= old(out)@ + with_breaks(s@.subrange(lo as int, k as int)));
    }
}

fn push_paragraph(out: &mut Vec<char>, s: &Vec<char>, lo: usize, hi: usize)
    requires
        lo <= hi <= s@.len(),
    ensures
        final(out)@ == old(out)@ + paragraph(s@.subrange(lo as int, hi as int)),
{
    out.push('<');
    out.push('p');
    out.push('>');
    push_with_breaks(out, s, lo, hi);
    out.push('<');
    out.push('/');
    out.push('p');
    out.push('>');
    assert(final(out)@ =~= old(out)@ + paragraph(s@.subrange(lo as int, hi as int)));
}

fn find_blank(s: &Vec<char>, i: usize) -> (r: Option<usize>)
    ensures
        crate::markup::opt_int(r) == find_blank_line(s@, i as int),
        r matches Some(k) ==> i <= k && k + 2 <= s@.len(),
{
    let mut k: usize = i;
    while k < s.len() && k + 1 < s.len()
        invariant
            i <= k,
            find_blank_line(s@, k as int) == find_blank_line(s@, i as int),
        decreases s.len() - k,
    {
        if s[k] == '\n' && s[k + 1] == '\n' {
            return Some(k);
        }
        k = k + 1;
    }
    None
}

/// HTML for text that is already escaped.
pub fn paragraphs_to_html(e: &Vec<char>) -> (r: Vec<char>)
    ensures
        r@ == paragraphs_html(e@),
{
    let mut out: Vec<char> = Vec::new();
    if find_blank(e, 0).is_none() {
        push_paragraph(&mut out, e, 0, e.len());
        assert(e@.subrange(0, e@.len() as int) =~= e@);
        return out;
    }
    let mut i: usize = 0;
    loop
        invariant
            i <= e@.len(),
            find_blank_line(e@, 0) is Some,
            out@ + paragraphs_from(e@, i as int) == paragraphs_from(e@, 0),
        decreases e.len() - i,
    {
        let ghost prev = out@;
        let ghost i0 = i as int;
        let (end, last) = match find_blank(e, i) {
            Some(k) => (k, false),
            None => (e.len(), true),
        };
        let (a, b) = trimmed_bounds(e, i, end);
        if a < b {
            push_paragraph(&mut out, e, i, end);
        }
        assert(out@ =~= prev + kept_paragraph(e@.subrange(i as int, end as int)));
        if last {
            assert(out@ =~= paragraphs_from(e@, 0));
            return out;
        }
        i = end + 2;
        assert(out@ + paragraphs_from(e@, i as int) =~= prev + paragraphs_from(e@, i0));
    }
}

/// Converts plain text to HTML made of `<p>` and `<br>` only, after
/// escaping `&`, `<` and `>`.
pub fn text_to_html(text: &str) -> (r: String)
    ensures
        r@ == paragraphs_html(escaped(text@)),
{
    let enc = encode_text(text);
    let e = chars_of(enc.as_str());
    let html = paragraphs_to_html(&e);
    string_of(&html)
}

/// `find_blank_line` reports a blank line, or there is none from `i` on.
pub proof fn lemma_find_blank_line(s: Seq<char>, i: int)
    requires
        0 <= i,
    ensures
        find_blank_line(s, i) matches Some(k) ==> blank_line_at(s, k),
        find_blank_line(s, i) is None ==> forall|k: int| i <= k ==> !blank_line_at(s, k),
    decreases s.len() - i,
{
    if i + 1 < s.len() && !blank_line_at(s, i) {
        lemma_find_blank_line(s, i + 1);
    }
}

proof fn lemma_escaped_last(t: Seq<char>)
    requires
        t.len() > 0,
    ensures
        escaped(t).len() > 0,
        escaped(t).last() == '\n' <==> t.last() == '\n',
        escape_char(t.last()).len() > 0,
{
    assert(escaped(t) == escaped(t.drop_last()) + escape_char(t.last()));
}

/// Escaping neither creates nor removes a blank line.
pub proof fn lemma_escaped_blank_line(t: Seq<char>)
    ensures
        has_blank_line(escaped(t)) <==> has_blank_line(t),
    decreases t.len(),
{
    if t.len() > 0 {
        let u = t.drop_last();
        let c = t.last();
        let eu = escaped(u);
        let ec = escape_char(c);
        let e = escaped(t);
        assert(e == eu + ec);
        lemma_escaped_blank_line(u);
        if has_blank_line(e) {
            let k = choose|k: int| blank_line_at(e, k);
            if k + 1 < eu.len() {
                assert(blank_line_at(eu, k));
                let j = choose|j: int| blank_line_at(u, j);
                assert(blank_line_at(t, j));
            } else if k >= eu.len() {
                assert(ec[k - eu.len()] == '\n');
                assert(ec[k + 1 - eu.len()] == '\n');
            } else {
                assert(ec[0] == '\n');
                assert(c == '\n');
                lemma_escaped_last(u);
                assert(eu.last() == '\n');
                assert(blank_line_at(t, t.len() - 2));
            }
        }
        if has_blank_line(t) {
            let j = choose|j: int| blank_line_at(t, j);
            if j + 1 < u.len() {
                assert(blank_line_at(u, j));
                let k = choose|k: int| blank_line_at(eu, k);
                assert(blank_line_at(e, k));
            } else {
                lemma_escaped_last(u);
                assert(u.last() == '\n');
                assert(blank_line_at(e, eu.len() - 1));
            }
        }
    }
}

/// Text without a blank line becomes exactly one paragraph: the escaped
/// text with its newlines written as line breaks.
pub proof fn lemma_single_paragraph(t: Seq<char>)
    requires
        !has_blank_line(t),
    ensures
        paragraphs_html(escaped(t)) == paragraph(escaped(t)),
{
    lemma_escaped_blank_line(t);
    lemma_find_blank_line(escaped(t), 0);
}

/// The paragraphs of the segments of plain text `t` between blank lines:
/// each segment, escaped, gives its paragraph unless it is blank.
pub open spec fn segment_paragraphs(t: Seq<char>) -> Seq<char>
    decreases t.len(),
{
    match find_blank_line(t, 0) {
        Some(k) => if 0 <= k && k + 2 <= t.len() {
            kept_paragraph(escaped(t.subrange(0, k))) + segment_paragraphs(
                t.subrange(k + 2, t.len() as int),
            )
        } else {
            seq![]
        },
        None => kept_paragraph(escaped(t)),
    }
}

pub open spec fn shifted(o: Option<int>, d: int) -> Option<int> {
    match o {
        Some(k) => Some(k + d),
        None => None,
    }
}

proof fn lemma_escaped_concat(a: Seq<char>, b: Seq<char>)
    ensures
        escaped(a + b) == escaped(a) + escaped(b),
    decreases b.len(),
{
    if b.len() == 0 {
        assert(a + b =~= a);
        assert(escaped(a) + escaped(b) =~= escaped(a));
    } else {
        assert((a + b).drop_last() =~= a + b.drop_last());
        assert((a + b).last() == b.last());
        lemma_escaped_concat(a, b.drop_last());
        assert(escaped(a + b) =~= escaped(a) + escaped(b));
    }
}

proof fn lemma_find_blank_first(s: Seq<char>, i: int)
    requires
        0 <= i,
    ensures
        find_blank_line(s, i) matches Some(k) ==> i <= k && forall|m: int| i <= m < k ==> !blank_line_at(s, m),
    decreases s.len() - i,
{
    if i + 1 < s.len() && !blank_line_at(s, i) {
        lemma_find_blank_first(s, i + 1);
    }
}

proof fn lemma_find_blank_shift(s: Seq<char>, i: int, j: int)
    requires
        0 <= i <= s.len(),
        0 <= j,
    ensures
        find_blank_line(s, i + j) == shifted(find_blank_line(s.subrange(i, s.len() as int), j), i),
    decreases s.len() - (i + j),
{
    let u = s.subrange(i, s.len() as int);
    if i + j + 1 < s.len() {
        assert(blank_line_at(s, i + j) == blank_line_at(u, j));
        lemma_find_blank_shift(s, i, j + 1);
        assert(i + (j + 1) == (i + j) + 1);
    }
}

proof fn lemma_paragraphs_shift(s: Seq<char>, i: int, j: int)
    requires
        0 <= i <= s.len(),
        0 <= j,
    ensures
        paragraphs_from(s, i + j) == paragraphs_from(s.subrange(i, s.len() as int), j),
    decreases s.len() - (i + j),
{
    let u = s.subrange(i, s.len() as int);
    lemma_find_blank_shift(s, i, j);
    if i + j <= s.len() {
        match find_blank_line(u, j) {
            Some(k) => {
                lemma_find_blank_line(u, j);
                lemma_find_blank_first(u, j);
                assert(s.subrange(i + j, k + i) =~= u.subrange(j, k));
                lemma_paragraphs_shift(s, i, k + 2);
                assert(i + (k + 2) == k + i + 2);
            },
            None => {
                assert(s.subrange(i + j, s.len() as int) =~= u.subrange(j, u.len() as int));
            },
        }
    }
}

/// The paragraphs of the escaped text are those of the plain text's
/// segments.
proof fn lemma_segments_escaped(t: Seq<char>)
    ensures
        paragraphs_from(escaped(t), 0) == segment_paragraphs(t),
    decreases t.len(),
{
    let e = escaped(t);
    lemma_find_blank_line(t, 0);
    lemma_find_blank_first(t, 0);
    match find_blank_line(t, 0) {
        Some(k) => {
            let t1 = t.subrange(0, k);
            let t2 = t.subrange(k + 2, t.len() as int);
            let nn = t.subrange(k, k + 2);
            assert(t =~= t1 + nn + t2);
            assert(nn =~= seq!['\n', '\n']);
            lemma_escaped_concat(t1 + nn, t2);
            lemma_escaped_concat(t1, nn);
            assert(escaped(nn) =~= seq!['\n', '\n']) by {
                let one = nn.drop_last();
                assert(one.drop_last().len() == 0);
                assert(escaped(one.drop_last()) =~= Seq::<char>::empty());
                assert(escaped(one) == escaped(one.drop_last()) + escape_char(one.last()));
                assert(escaped(nn) == escaped(one) + escape_char(nn.last()));
                assert(escape_char('\n') =~= seq!['\n']);
            }
            let e1 = escaped(t1);
            let e2 = escaped(t2);
            assert(e =~= e1 + seq!['\n', '\n'] + e2);
            // no blank line in t1, nor one ending its last character
            assert(!has_blank_line(t1)) by {
                if has_blank_line(t1) {
                    let m = choose|m: int| blank_line_at(t1, m);
                    assert(blank_line_at(t, m));
                }
            }
            lemma_escaped_blank_line(t1);
            if t1.len() > 0 {
                lemma_escaped_last(t1);
                assert(!blank_line_at(t, k - 1));
            }
            assert forall|m: int| 0 <= m < e1.len() implies !blank_line_at(e, m) by {
                if m + 1 < e1.len() {
                    if blank_line_at(e, m) {
                        assert(blank_line_at(e1, m));
                    }
                } else {
                    assert(e[m] == e1.last());
                }
            }
            assert(blank_line_at(e, e1.len() as int));
            lemma_find_blank_line(e, 0);
            lemma_find_blank_first(e, 0);
            assert(find_blank_line(e, 0) == Some(e1.len() as int));
            assert(e.subrange(0, e1.len() as int) =~= e1);
            lemma_paragraphs_shift(e, e1.len() as int + 2, 0);
            assert(e.subrange(e1.len() as int + 2, e.len() as int) =~= e2);
            lemma_segments_escaped(t2);
        },
        None => {
            assert(!has_blank_line(t));
            lemma_escaped_blank_line(t);
            lemma_find_blank_line(e, 0);
            assert(e.subrange(0, e.len() as int) =~= e);
        },
    }
}

/// Text with a blank line becomes one paragraph per segment between blank
/// lines that is not blank, the paragraphs following each other with
/// nothing between them.
pub proof fn lemma_paragraph_per_segment(t: Seq<char>)
    requires
        has_blank_line(t),
    ensures
        paragraphs_html(escaped(t)) == segment_paragraphs(t),
{
    lemma_escaped_blank_line(t);
    lemma_find_blank_line(escaped(t), 0);
    lemma_segments_escaped(t);
}

} // verus!
