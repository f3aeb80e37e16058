//! Recognising the editor's tags in a character sequence and rewriting them.
//!
//! Every rewrite scans left to right and, at each position, either consumes
//! the leftmost match that starts there or copies one character, so matches
//! never overlap.

use vstd::prelude::*;
use crate::chars::{is_ws, is_whitespace, push_range, push_all};

verus! {

pub open spec fn opt_int(o: Option<usize>) -> Option<int> {
    match o {
        Some(k) => Some(k as int),
        None => None,
    }
}

/// `p` occurs in `s` at position `i`.
pub open spec fn starts_with_at(s: Seq<char>, i: int, p: Seq<char>) -> bool {
    0 <= i && i + p.len() <= s.len() && s.subrange(i, i + p.len()) == p
}

/// The first position at or after `i` that holds `c`.
pub open spec fn find_from(s: Seq<char>, i: int, c: char) -> Option<int>
    decreases s.len() - i,
{
    if i < 0 || i >= s.len() {
        None
    } else if s[i] == c {
        Some(i)
    } else {
        find_from(s, i + 1, c)
    }
}

/// End (one past the `>`) of a tag that starts at `i` with `p` and runs to
/// the first `>` after it.
pub open spec fn tag_end(s: Seq<char>, i: int, p: Seq<char>) -> Option<int> {
    if starts_with_at(s, i, p) {
        match find_from(s, i + p.len(), '>') {
            Some(k) => Some(k + 1),
            None => None,
        }
    } else {
        None
    }
}

/// The first position at or after `j` where `c` starts, provided no line
/// break comes before it.
pub open spec fn close_at(s: Seq<char>, j: int, c: Seq<char>) -> Option<int>
    decreases s.len() - j,
{
    if j < 0 || j >= s.len() {
        None
    } else if starts_with_at(s, j, c) {
        Some(j)
    } else if s[j] == '\n' {
        None
    } else {
        close_at(s, j + 1, c)
    }
}

/// A block `open ... > content close` starting at `i`, content on one line
/// and as short as possible: the bounds of its content.
pub open spec fn block_at(s: Seq<char>, i: int, open: Seq<char>, close: Seq<char>) -> Option<
    (int, int),
> {
    match tag_end(s, i, open) {
        Some(a) => match close_at(s, a, close) {
            Some(b) => Some((a, b)),
            None => None,
        },
        None => None,
    }
}

/// Every block is replaced by its content followed by `suffix`.
pub open spec fn rw_block(
    s: Seq<char>,
    i: int,
    open: Seq<char>,
    close: Seq<char>,
    suffix: Seq<char>,
) -> Seq<char>
    decreases s.len() - i,
{
    if i < 0 || i >= s.len() {
        seq![]
    } else {
        let step = seq![s[i]] + rw_block(s, i + 1, open, close, suffix);
        match block_at(s, i, open, close) {
            Some(ab) => if i < ab.1 + close.len() <= s.len() {
                s.subrange(ab.0, ab.1) + suffix + rw_block(s, ab.1 + close.len(), open, close, suffix)
            } else {
                step
            },
            None => step,
        }
    }
}

pub fn starts_at(s: &Vec<char>, i: usize, p: &Vec<char>) -> (r: bool)
    ensures
        r == starts_with_at(s@, i as int, p@),
{
    if i > s.len() || p.len() > s.len() - i {
        return false;
    }
    let mut k: usize = 0;
    while k < p.len()
        invariant
            k <= p@.len(),
            i + p@.len() <= s.len(),
            forall|m: int| 0 <= m < k ==> s@[i + m] == p@[m],
        decreases p.len() - k,
    {
        if s[i + k] != p[k] {
            assert(s@.subrange(i as int, i + p@.len())[k as int] != p@[k as int]);
            return false;
        }
        k = k + 1;
    }
    assert(s@.subrange(i as int, i + p@.len()) =~= p@);
    true
}

pub fn find_char(s: &Vec<char>, i: usize, c: char) -> (r: Option<usize>)
    ensures
        opt_int(r) == find_from(s@, i as int, c),
        r matches Some(k) ==> i <= k < s@.len(),
{
    let mut j: usize = i;
    while j < s.len()
        invariant
            i <= j,
            find_from(s@, j as int, c) == find_from(s@, i as int, c),
        decreases s.len() - j,
    {
        if s[j] == c {
            return Some(j);
        }
        j = j + 1;
    }
    None
}

pub fn tag_match(s: &Vec<char>, i: usize, p: &Vec<char>) -> (r: Option<usize>)
    ensures
        opt_int(r) == tag_end(s@, i as int, p@),
        r matches Some(k) ==> i + p@.len() < k <= s@.len(),
{
    if !starts_at(s, i, p) {
        return None;
    }
    assert(i + p.len() <= s.len());
    match find_char(s, i + p.len(), '>') {
        Some(k) => Some(k + 1),
        None => None,
    }
}

pub fn close_match(s: &Vec<char>, j: usize, c: &Vec<char>) -> (r: Option<usize>)
    ensures
        opt_int(r) == close_at(s@, j as int, c@),
        r matches Some(k) ==> j <= k && k + c@.len() <= s@.len(),
{
    let mut k: usize = j;
    while k < s.len()
        invariant
            j <= k,
            close_at(s@, k as int, c@) == close_at(s@, j as int, c@),
        decreases s.len() - k,
    {
        if starts_at(s, k, c) {
            return Some(k);
        }
        if s[k] == '\n' {
            return None;
        }
        k = k + 1;
    }
    None
}

pub fn block_match(s: &Vec<char>, i: usize, open: &Vec<char>, close: &Vec<char>) -> (r: Option<
    (usize, usize),
>)
    ensures
        r matches Some(ab) ==> block_at(s@, i as int, open@, close@) == Some(
            (ab.0 as int, ab.1 as int),
        ) && i + open@.len() < ab.0 <= ab.1 && ab.1 + close@.len() <= s@.len(),
        r is None ==> block_at(s@, i as int, open@, close@) is None,
{
    match tag_match(s, i, open) {
        Some(a) => match close_match(s, a, close) {
            Some(b) => Some((a, b)),
            None => None,
        },
        None => None,
    }
}

/// Replaces every block by its content followed by `suffix`.
pub fn rewrite_blocks(s: &Vec<char>, open: &Vec<char>, close: &Vec<char>, suffix: &Vec<char>) -> (r:
    Vec<char>)
    ensures
        r@ == rw_block(s@, 0, open@, close@, suffix@),
{
    let mut out: Vec<char> = Vec::new();
    let mut i: usize = 0;
    while i < s.len()
        invariant
            i <= s@.len(),
            out@ + rw_block(s@, i as int, open@, close@, suffix@) == rw_block(
                s@,
                0,
                open@,
                close@,
                suffix@,
            ),
        decreases s.len() - i,
    {
        let ghost prev = out@;
        let ghost i0 = i as int;
        match block_match(s, i, open, close) {
            Some(ab) => {
                push_range(&mut out, s, ab.0, ab.1);
                push_all(&mut out, suffix);
                i = ab.1 + close.len();
                assert(rw_block(s@, i0, open@, close@, suffix@) == s@.subrange(ab.0 as int, ab.1 as int)
                    + suffix@ + rw_block(s@, i as int, open@, close@, suffix@));
                assert(out@ + rw_block(s@, i as int, open@, close@, suffix@) =~= prev + rw_block(
                    s@, i0, open@, close@, suffix@));
            },
            None => {
                out.push(s[i]);
                i = i + 1;
                assert(out@ + rw_block(s@, i as int, open@, close@, suffix@) =~= prev + rw_block(
                    s@, i0, open@, close@, suffix@));
            },
        }
    }
    assert(out@ + rw_block(s@, i as int, open@, close@, suffix@) =~= out@);
    out
}

/// First position at or after `j` that is not whitespace, or the end.
pub open spec fn skip_ws(s: Seq<char>, j: int) -> int
    decreases s.len() - j,
{
    if j < 0 || j >= s.len() || !is_ws(s[j]) {
        j
    } else {
        skip_ws(s, j + 1)
    }
}

/// End of a line break `<br`, optional blanks, optional `/`, `>`.
pub open spec fn br_end(s: Seq<char>, i: int) -> Option<int> {
    if starts_with_at(s, i, seq!['<', 'b', 'r']) {
        let j = skip_ws(s, i + 3);
        if j < s.len() && s[j] == '>' {
            Some(j + 1)
        } else if j + 1 < s.len() && s[j] == '/' && s[j + 1] == '>' {
            Some(j + 2)
        } else {
            None
        }
    } else {
        None
    }
}

/// The single tags that are rewritten without looking at any content.
pub enum Tag {
    /// `</p>`
    ParagraphClose,
    /// `<div ...>` or `</div ...>`
    Division,
    /// `<br>`, `<br/>`, `<br />`
    LineBreak,
    /// `<hr ...>`
    Rule,
    /// any `<...>`
    Any,
}

/// End of the tag of kind `k` that starts at `i`.
pub open spec fn single_end(s: Seq<char>, i: int, k: Tag) -> Option<int> {
    match k {
        Tag::ParagraphClose => if starts_with_at(s, i, seq!['<', '/', 'p', '>']) {
            Some(i + 4)
        } else {
            None
        },
        Tag::Division => match tag_end(s, i, seq!['<', 'd', 'i', 'v']) {
            Some(e) => Some(e),
            None => tag_end(s, i, seq!['<', '/', 'd', 'i', 'v']),
        },
        Tag::LineBreak => br_end(s, i),
        Tag::Rule => tag_end(s, i, seq!['<', 'h', 'r']),
        Tag::Any => tag_end(s, i, seq!['<']),
    }
}

/// Every tag of kind `k` is replaced by `repl`.
pub open spec fn rw_single(s: Seq<char>, i: int, k: Tag, repl: Seq<char>) -> Seq<char>
    decreases s.len() - i,
{
    if i < 0 || i >= s.len() {
        seq![]
    } else {
        let step = seq![s[i]] + rw_single(s, i + 1, k, repl);
        match single_end(s, i, k) {
            Some(e) => if i < e <= s.len() {
                repl + rw_single(s, e, k, repl)
            } else {
                step
            },
            None => step,
        }
    }
}

pub fn skip_whitespace(s: &Vec<char>, j: usize) -> (r: usize)
    ensures
        r as int == skip_ws(s@, j as int),
        j <= s@.len() ==> j <= r <= s@.len(),
{
    let mut k: usize = j;
    while k < s.len() && is_whitespace(s[k])
        invariant
            j <= k,
            j <= s@.len() ==> k <= s@.len(),
            skip_ws(s@, k as int) == skip_ws(s@, j as int),
        decreases s.len() - k,
    {
        k = k + 1;
    }
    k
}

pub fn single_match(s: &Vec<char>, i: usize, k: &Tag) -> (r: Option<usize>)
    ensures
        opt_int(r) == single_end(s@, i as int, *k),
        r matches Some(e) ==> i < e <= s@.len(),
{
    let n = s.len();
    match k {
        Tag::ParagraphClose => {
            let p = vec!['<', '/', 'p', '>'];
            assert(p@ == seq!['<', '/', 'p', '>']);
            if starts_at(s, i, &p) {
                Some(i + 4)
            } else {
                None
            }
        },
        Tag::Division => {
            let open = vec!['<', 'd', 'i', 'v'];
            let close = vec!['<', '/', 'd', 'i', 'v'];
            assert(open@ == seq!['<', 'd', 'i', 'v']);
            assert(close@ == seq!['<', '/', 'd', 'i', 'v']);
            match tag_match(s, i, &open) {
                Some(e) => Some(e),
                None => tag_match(s, i, &close),
            }
        },
        Tag::LineBreak => {
            let p = vec!['<', 'b', 'r'];
            assert(p@ == seq!['<', 'b', 'r']);
            if !starts_at(s, i, &p) {
                return None;
            }
            let j = skip_whitespace(s, i + 3);
            if j < s.len() && s[j] == '>' {
                Some(j + 1)
            } else if j < s.len() && s[j] == '/' && j + 1 < s.len() && s[j + 1] == '>' {
                Some(j + 2)
            } else {
                None
            }
        },
        Tag::Rule => {
            let p = vec!['<', 'h', 'r'];
            assert(p@ == seq!['<', 'h', 'r']);
            tag_match(s, i, &p)
        },
        Tag::Any => {
            let p = vec!['<'];
            assert(p@ == seq!['<']);
            tag_match(s, i, &p)
        },
    }
}

/// Replaces every tag of kind `k` by `repl`.
pub fn rewrite_single(s: &Vec<char>, k: &Tag, repl: &Vec<char>) -> (r: Vec<char>)
    ensures
        r@ == rw_single(s@, 0, *k, repl@),
{
    let mut out: Vec<char> = Vec::new();
    let mut i: usize = 0;
    while i < s.len()
        invariant
            i <= s@.len(),
            out@ + rw_single(s@, i as int, *k, repl@) == rw_single(s@, 0, *k, repl@),
        decreases s.len() - i,
    {
        let ghost prev = out@;
        let ghost i0 = i as int;
        match single_match(s, i, k) {
            Some(e) => {
                push_all(&mut out, repl);
                i = e;
                assert(out@ + rw_single(s@, i as int, *k, repl@) =~= prev + rw_single(
                    s@, i0, *k, repl@));
            },
            None => {
                out.push(s[i]);
                i = i + 1;
                assert(out@ + rw_single(s@, i as int, *k, repl@) =~= prev + rw_single(
                    s@, i0, *k, repl@));
            },
        }
    }
    assert(out@ + rw_single(s@, i as int, *k, repl@) =~= out@);
    out
}

/// Before the position that `find_from` reports, or anywhere after `i`
/// when it reports none, `c` does not occur.
pub proof fn lemma_find_before(s: Seq<char>, i: int, c: char)
    requires
        0 <= i,
    ensures
        find_from(s, i, c) matches Some(k) ==> i <= k < s.len() && s[k] == c && forall|m: int|
            i <= m < k ==> s[m] != c,
        find_from(s, i, c) is None ==> forall|m: int| i <= m < s.len() ==> s[m] != c,
    decreases s.len() - i,
{
    if i < s.len() && s[i] != c {
        lemma_find_before(s, i + 1, c);
    }
}

/// No `<` is followed, anywhere later, by a `>`: nothing shaped like a tag
/// is left.
pub open spec fn no_tag_left(t: Seq<char>) -> bool {
    forall|j: int, k: int| #![trigger t[j], t[k]] 0 <= j < k < t.len() ==> !(t[j] == '<' && t[k] == '>')
}

/// Deletes every `<...>` span.
pub fn strip_tags(s: &Vec<char>) -> (r: Vec<char>)
    ensures
        r@ == rw_single(s@, 0, Tag::Any, seq![]),
        no_tag_left(r@),
{
    let p = vec!['<'];
    assert(p@ == seq!['<']);
    let mut out: Vec<char> = Vec::new();
    let mut i: usize = 0;
    let ghost mut opened: bool = false;
    while i < s.len()
        invariant
            i <= s@.len(),
            p@ == seq!['<'],
            out@ + rw_single(s@, i as int, Tag::Any, seq![]) == rw_single(s@, 0, Tag::Any, seq![]),
            no_tag_left(out@),
            !opened ==> forall|m: int| 0 <= m < out@.len() ==> out@[m] != '<',
            opened ==> forall|m: int| i <= m < s@.len() ==> s@[m] != '>',
        decreases s.len() - i,
    {
        let ghost prev = out@;
        let ghost i0 = i as int;
        proof {
            lemma_find_before(s@, i + 1, '>');
        }
        match tag_match(s, i, &p) {
            Some(e) => {
                i = e;
                assert(out@ + rw_single(s@, i as int, Tag::Any, seq![]) =~= prev + rw_single(
                    s@, i0, Tag::Any, seq![]));
            },
            None => {
                let c = s[i];
                out.push(c);
                if c == '<' {
                    assert(s@.subrange(i as int, i + 1) =~= seq!['<']);
                    proof {
                        opened = true;
                    }
                }
                i = i + 1;
                assert forall|j: int, k: int| 0 <= j < k < out@.len() implies !(out@[j] == '<'
                    && out@[k] == '>') by {
                    if k < prev.len() {
                        assert(out@[j] == prev[j] && out@[k] == prev[k]);
                    } else {
                        assert(out@[j] == prev[j]);
                    }
                }
                assert(out@ + rw_single(s@, i as int, Tag::Any, seq![]) =~= prev + rw_single(
                    s@, i0, Tag::Any, seq![]));
            },
        }
    }
    assert(out@ + rw_single(s@, i as int, Tag::Any, seq![]) =~= out@);
    out
}

} // verus!
