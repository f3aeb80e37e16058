//! Whitespace normalisation of extracted text: blank runs, newline runs,
//! per-line trimming and the final trim.

use vstd::prelude::*;
use crate::chars::{is_ws, trim, trimmed_bounds, push_range, chars_of, string_of};
use crate::markup::{find_from, no_tag_left};

verus! {

pub open spec fn is_blank(c: char) -> bool {
    c == ' ' || c == '\t'
}

/// Each run of spaces and tabs becomes one space: a blank is kept, as a
/// space, only when the character before it is not a blank.
pub open spec fn collapse_blanks(s: Seq<char>, i: int) -> Seq<char>
    decreases s.len() - i,
{
    if i < 0 || i >= s.len() {
        seq![]
    } else if !is_blank(s[i]) {
        seq![s[i]] + collapse_blanks(s, i + 1)
    } else if i > 0 && is_blank(s[i - 1]) {
        collapse_blanks(s, i + 1)
    } else {
        seq![' '] + collapse_blanks(s, i + 1)
    }
}

/// Each run of three or more newlines becomes two: a newline is dropped
/// exactly when the two characters before it are newlines.
pub open spec fn collapse_newlines(s: Seq<char>, i: int) -> Seq<char>
    decreases s.len() - i,
{
    if i < 0 || i >= s.len() {
        seq![]
    } else if s[i] == '\n' && i >= 2 && s[i - 1] == '\n' && s[i - 2] == '\n' {
        collapse_newlines(s, i + 1)
    } else {
        seq![s[i]] + collapse_newlines(s, i + 1)
    }
}

/// The lines of `s` from position `i` on, each trimmed, joined by newlines.
pub open spec fn trim_lines(s: Seq<char>, i: int) -> Seq<char>
    decreases s.len() - i,
{
    if i < 0 || i > s.len() {
        seq![]
    } else {
        match find_from(s, i, '\n') {
            Some(e) => if i <= e < s.len() {
                trim(s.subrange(i, e)) + seq!['\n'] + trim_lines(s, e + 1)
            } else {
                seq![]
            },
            None => trim(s.subrange(i, s.len() as int)),
        }
    }
}

/// The whole normalisation: blanks, newlines, lines, then the ends.
pub open spec fn normalized(s: Seq<char>) -> Seq<char> {
    trim(trim_lines(collapse_newlines(collapse_blanks(s, 0), 0), 0))
}

pub open spec fn no_tabs(t: Seq<char>) -> bool {
    forall|k: int| 0 <= k < t.len() ==> t[k] != '\t'
}

/// No two neighbouring characters are both spaces.
pub open spec fn no_double_space(t: Seq<char>) -> bool {
    forall|j: int, k: int|
        #![trigger t[j], t[k]]
        0 <= j && k == j + 1 && k < t.len() ==> !(t[j] == ' ' && t[k] == ' ')
}

/// No three neighbouring characters are all newlines.
pub open spec fn no_triple_newline(t: Seq<char>) -> bool {
    forall|j: int, k: int, l: int|
        #![trigger t[j], t[k], t[l]]
        0 <= j && k == j + 1 && l == k + 1 && l < t.len() ==> !(t[j] == '\n' && t[k] == '\n' && t[l]
            == '\n')
}

/// Of two neighbouring characters where one is a newline, the other is a
/// newline or not whitespace: no line starts or ends with blanks.
pub open spec fn lines_trimmed(t: Seq<char>) -> bool {
    forall|j: int, k: int|
        #![trigger t[j], t[k]]
        0 <= j && k == j + 1 && k < t.len() ==> (t[k] == '\n' ==> t[j] == '\n' || !is_ws(t[j])) && (
        t[j] == '\n' ==> t[k] == '\n' || !is_ws(t[k]))
}

/// The text starts and ends with a non-whitespace character, or is empty.
pub open spec fn ends_trimmed(t: Seq<char>) -> bool {
    t.len() > 0 ==> !is_ws(t[0]) && !is_ws(t[t.len() - 1])
}

/// Some `<` of the text built so far came from `s`, before `i`, at `lt`.
pub open spec fn opened_before(out: Seq<char>, s: Seq<char>, lt: int, i: int) -> bool {
    (forall|m: int| 0 <= m < out.len() ==> out[m] != '<') || (0 <= lt < i && s[lt] == '<')
}

/// Copying `s[i]` keeps the built text free of tags when `s` is.
proof fn lemma_push_source_char(out: Seq<char>, s: Seq<char>, lt: int, i: int)
    requires
        0 <= i < s.len(),
        opened_before(out, s, lt, i),
        no_tag_left(s) ==> no_tag_left(out),
    ensures
        opened_before(out.push(s[i]), s, if s[i] == '<' { i } else { lt }, i + 1),
        no_tag_left(s) ==> no_tag_left(out.push(s[i])),
{
    let u = out.push(s[i]);
    if no_tag_left(s) {
        assert forall|j: int, k: int| 0 <= j < k < u.len() implies !(u[j] == '<' && u[k] == '>') by {
            if k < out.len() {
                assert(u[j] == out[j] && u[k] == out[k]);
            } else {
                assert(u[j] == out[j]);
                if u[j] == '<' && u[k] == '>' {
                    assert(s[lt] == '<' && s[i] == '>');
                }
            }
        }
    }
    if s[i] != '<' {
        assert forall|m: int| 0 <= m < u.len() && (forall|m2: int| 0 <= m2 < out.len() ==> out[m2] != '<') implies u[m] != '<' by {
            if m < out.len() {
                assert(u[m] == out[m]);
            }
        }
    }
}

/// Appending a character that is not `<` or `>` keeps the built text free
/// of tags.
proof fn lemma_push_other_char(out: Seq<char>, s: Seq<char>, lt: int, i: int, c: char)
    requires
        0 <= i,
        c != '<' && c != '>',
        opened_before(out, s, lt, i),
        no_tag_left(s) ==> no_tag_left(out),
    ensures
        opened_before(out.push(c), s, lt, i + 1),
        no_tag_left(s) ==> no_tag_left(out.push(c)),
{
    let u = out.push(c);
    if no_tag_left(s) {
        assert forall|j: int, k: int| 0 <= j < k < u.len() implies !(u[j] == '<' && u[k] == '>') by {
            assert(u[j] == out[j]);
            if k < out.len() {
                assert(u[k] == out[k]);
            }
        }
    }
    assert forall|m: int| 0 <= m < u.len() && (forall|m2: int| 0 <= m2 < out.len() ==> out[m2] != '<') implies u[m] != '<' by {
        if m < out.len() {
            assert(u[m] == out[m]);
        }
    }
}

/// Copying `s[a..b]`, at or after `i`, keeps the built text free of tags
/// when `s` is; the result is where a `<` of the new text came from.
proof fn lemma_push_source_range(out: Seq<char>, s: Seq<char>, lt: int, i: int, a: int, b: int) -> (lt2: int)
    requires
        0 <= i <= a <= b <= s.len(),
        opened_before(out, s, lt, i),
        no_tag_left(s) ==> no_tag_left(out),
    ensures
        opened_before(out + s.subrange(a, b), s, lt2, b),
        no_tag_left(s) ==> no_tag_left(out + s.subrange(a, b)),
{
    let u = out + s.subrange(a, b);
    let n = out.len() as int;
    if no_tag_left(s) {
        assert forall|j: int, k: int| 0 <= j < k < u.len() implies !(u[j] == '<' && u[k] == '>') by {
            if k < n {
                assert(u[j] == out[j] && u[k] == out[k]);
            } else if j < n {
                assert(u[j] == out[j]);
                assert(u[k] == s[a + k - n]);
                if u[j] == '<' && u[k] == '>' {
                    assert(s[lt] == '<' && s[a + k - n] == '>');
                }
            } else {
                assert(u[j] == s[a + j - n]);
                assert(u[k] == s[a + k - n]);
            }
        }
    }
    if exists|j: int| a <= j < b && s[j] == '<' {
        choose|j: int| a <= j < b && s[j] == '<'
    } else {
        assert forall|m: int| 0 <= m < u.len() && (forall|m2: int| 0 <= m2 < out.len() ==> out[m2] != '<') implies u[m] != '<' by {
            if m < n {
                assert(u[m] == out[m]);
            } else {
                assert(u[m] == s[a + m - n]);
            }
        }
        lt
    }
}

fn collapse_blank_runs(s: &Vec<char>) -> (r: Vec<char>)
    ensures
        r@ == collapse_blanks(s@, 0),
        no_tabs(r@),
        no_double_space(r@),
        no_tag_left(s@) ==> no_tag_left(r@),
{
    let mut out: Vec<char> = Vec::new();
    let mut i: usize = 0;
    let ghost mut lt: int = -1;
    while i < s.len()
        invariant
            i <= s@.len(),
            out@ + collapse_blanks(s@, i as int) == collapse_blanks(s@, 0),
            no_tabs(out@),
            no_double_space(out@),
            out@.len() > 0 && out@.last() == ' ' ==> i > 0 && is_blank(s@[i - 1]),
            opened_before(out@, s@, lt, i as int),
            no_tag_left(s@) ==> no_tag_left(out@),
        decreases s.len() - i,
    {
        let ghost prev = out@;
        let ghost i0 = i as int;
        let c = s[i];
        if c != ' ' && c != '\t' {
            out.push(c);
            proof {
                lemma_push_source_char(prev, s@, lt, i0);
                if c == '<' {
                    lt = i0;
                }
            }
        } else if i > 0 && (s[i - 1] == ' ' || s[i - 1] == '\t') {
        } else {
            out.push(' ');
            proof {
                lemma_push_other_char(prev, s@, lt, i0, ' ');
            }
        }
        i = i + 1;
        assert(out@ + collapse_blanks(s@, i as int) =~= prev + collapse_blanks(s@, i0));
    }
    assert(out@ + collapse_blanks(s@, i as int) =~= out@);
    out
}

fn collapse_newline_runs(s: &Vec<char>) -> (r: Vec<char>)
    requires
        no_tabs(s@),
        no_double_space(s@),
    ensures
        r@ == collapse_newlines(s@, 0),
        no_tabs(r@),
        no_double_space(r@),
        no_triple_newline(r@),
        no_tag_left(s@) ==> no_tag_left(r@),
{
    let mut out: Vec<char> = Vec::new();
    let mut i: usize = 0;
    let ghost mut lt: int = -1;
    while i < s.len()
        invariant
            i <= s@.len(),
            no_tabs(s@),
            no_double_space(s@),
            out@ + collapse_newlines(s@, i as int) == collapse_newlines(s@, 0),
            no_tabs(out@),
            no_double_space(out@),
            no_triple_newline(out@),
            out@.len() > 0 && out@.last() == ' ' ==> i > 0 && s@[i - 1] == ' ',
            out@.len() > 0 && out@.last() == '\n' ==> i > 0 && s@[i - 1] == '\n',
            out@.len() > 1 && out@.last() == '\n' && out@[out@.len() - 2] == '\n' ==> i > 1 && s@[i
                - 1] == '\n' && s@[i - 2] == '\n',
            opened_before(out@, s@, lt, i as int),
            no_tag_left(s@) ==> no_tag_left(out@),
        decreases s.len() - i,
    {
        let ghost prev = out@;
        let ghost i0 = i as int;
        let c = s[i];
        if c == '\n' && i >= 2 && s[i - 1] == '\n' && s[i - 2] == '\n' {
        } else {
            out.push(c);
            assert(out@.last() == c);
            proof {
                lemma_push_source_char(prev, s@, lt, i0);
                if c == '<' {
                    lt = i0;
                }
            }
        }
        i = i + 1;
        assert(out@ + collapse_newlines(s@, i as int) =~= prev + collapse_newlines(s@, i0));
    }
    assert(out@ + collapse_newlines(s@, i as int) =~= out@);
    out
}

/// Collapses runs of spaces and tabs to one space, then runs of three or
/// more newlines to two.
pub fn collapse_whitespace(text: &str) -> (r: String)
    ensures
        r@ == collapse_newlines(collapse_blanks(text@, 0), 0),
        no_tabs(r@),
        no_double_space(r@),
        no_triple_newline(r@),
{
    let s = chars_of(text);
    let blanks = collapse_blank_runs(&s);
    let lines = collapse_newline_runs(&blanks);
    string_of(&lines)
}

/// The piece `s[a..b]` of one line, trimmed, taken from a text without
/// tabs or double spaces.
pub open spec fn line_piece(s: Seq<char>, a: int, b: int) -> bool {
    &&& 0 <= a <= b <= s.len()
    &&& no_tabs(s)
    &&& no_double_space(s)
    &&& forall|m: int| a <= m < b ==> s[m] != '\n'
    &&& a < b ==> !is_ws(s[a]) && !is_ws(s[b - 1])
}

/// Text built line by line: empty, or ending with a newline.
pub open spec fn built_lines(out: Seq<char>) -> bool {
    &&& no_tabs(out)
    &&& no_double_space(out)
    &&& lines_trimmed(out)
    &&& out.len() > 0 ==> out.last() == '\n'
}

proof fn lemma_push_piece(out: Seq<char>, s: Seq<char>, a: int, b: int)
    requires
        line_piece(s, a, b),
        built_lines(out),
    ensures
        no_tabs(out + s.subrange(a, b)),
        no_double_space(out + s.subrange(a, b)),
        lines_trimmed(out + s.subrange(a, b)),
{
    let t = out + s.subrange(a, b);
    let n = out.len() as int;
    assert forall|k: int| 0 <= k < t.len() implies t[k] != '\t' by {
        if k >= n {
            assert(t[k] == s[a + k - n]);
        }
    }
    assert forall|j: int, k: int| 0 <= j && k == j + 1 && k < t.len() implies !(t[j] == ' ' && t[k]
        == ' ') && (t[k] == '\n' ==> t[j] == '\n' || !is_ws(t[j])) && (t[j] == '\n' ==> t[k] == '\n'
        || !is_ws(t[k])) by {
        if j >= n {
            assert(t[j] == s[a + j - n]);
            assert(t[k] == s[a + k - n]);
        } else if k == n {
            assert(t[j] == out[j]);
            assert(t[k] == s[a]);
        } else {
            assert(t[j] == out[j]);
            assert(t[k] == out[k]);
        }
    }
}

proof fn lemma_push_newline(t: Seq<char>)
    requires
        no_tabs(t),
        no_double_space(t),
        lines_trimmed(t),
        t.len() > 0 ==> t.last() == '\n' || !is_ws(t.last()),
    ensures
        built_lines(t.push('\n')),
{
    let u = t.push('\n');
    assert forall|k: int| 0 <= k < u.len() implies u[k] != '\t' by {
        if k < t.len() {
            assert(u[k] == t[k]);
        }
    }
    assert forall|j: int, k: int| 0 <= j && k == j + 1 && k < u.len() implies !(u[j] == ' ' && u[k]
        == ' ') && (u[k] == '\n' ==> u[j] == '\n' || !is_ws(u[j])) && (u[j] == '\n' ==> u[k] == '\n'
        || !is_ws(u[k])) by {
        assert(u[j] == t[j]);
        if k < t.len() {
            assert(u[k] == t[k]);
        }
    }
}

fn trim_each_line(s: &Vec<char>) -> (r: Vec<char>)
    requires
        no_tabs(s@),
        no_double_space(s@),
    ensures
        r@ == trim_lines(s@, 0),
        no_tabs(r@),
        no_double_space(r@),
        lines_trimmed(r@),
        no_tag_left(s@) ==> no_tag_left(r@),
{
    let mut out: Vec<char> = Vec::new();
    let mut i: usize = 0;
    let ghost mut lt: int = -1;
    loop
        invariant
            i <= s@.len(),
            no_tabs(s@),
            no_double_space(s@),
            out@ + trim_lines(s@, i as int) == trim_lines(s@, 0),
            built_lines(out@),
            opened_before(out@, s@, lt, i as int),
            no_tag_left(s@) ==> no_tag_left(out@),
        decreases s.len() - i,
    {
        let ghost prev = out@;
        let ghost i0 = i as int;
        let e = match crate::markup::find_char(s, i, '\n') {
            Some(e) => e,
            None => s.len(),
        };
        let (a, b) = trimmed_bounds(s, i, e);
        push_range(&mut out, s, a, b);
        assert(out@ =~= prev + s@.subrange(a as int, b as int));
        proof {
            crate::markup::lemma_find_before(s@, i as int, '\n');
            assert(line_piece(s@, a as int, b as int));
            lemma_push_piece(prev, s@, a as int, b as int);
            lt = lemma_push_source_range(prev, s@, lt, i0, a as int, b as int);
            if b > a {
                assert(out@.last() == s@[b - 1]);
            } else {
                assert(out@ =~= prev);
            }
        }
        if e == s.len() {
            assert(out@ + trim_lines(s@, e as int + 1) =~= prev + trim_lines(s@, i0));
            assert(out@ =~= trim_lines(s@, 0));
            return out;
        }
        out.push('\n');
        proof {
            lemma_push_newline(prev + s@.subrange(a as int, b as int));
            lemma_push_other_char(prev + s@.subrange(a as int, b as int), s@, lt, b as int, '\n');
        }
        i = e + 1;
        assert(out@ + trim_lines(s@, i as int) =~= prev + trim_lines(s@, i0));
    }
}

/// Trims every line, then the whole text, after collapsing whitespace runs.
pub fn normalize_text(text: &str) -> (r: String)
    ensures
        r@ == normalized(text@),
        no_tabs(r@),
        no_double_space(r@),
        lines_trimmed(r@),
        ends_trimmed(r@),
        no_tag_left(text@) ==> no_tag_left(r@),
{
    let s = chars_of(text);
    let blanks = collapse_blank_runs(&s);
    let runs = collapse_newline_runs(&blanks);
    let lines = trim_each_line(&runs);
    let (a, b) = trimmed_bounds(&lines, 0, lines.len());
    let mut out: Vec<char> = Vec::new();
    push_range(&mut out, &lines, a, b);
    assert(lines@.subrange(0, lines@.len() as int) =~= lines@);
    assert(out@ =~= lines@.subrange(a as int, b as int));
    assert(no_tag_left(lines@) ==> no_tag_left(out@)) by {
        if no_tag_left(lines@) {
            assert forall|j: int, k: int| 0 <= j < k < out@.len() implies !(out@[j] == '<' && out@[k]
                == '>') by {
                assert(out@[j] == lines@[a + j] && out@[k] == lines@[a + k]);
            }
        }
    }
    string_of(&out)
}

} // verus!
