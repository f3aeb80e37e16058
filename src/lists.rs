//! Turning `<ul>` and `<ol>` blocks into bulleted or numbered lines.

use vstd::prelude::*;
use crate::chars::{trim, trim_end, is_whitespace, trimmed_bounds, push_range};
use crate::markup::{block_at, block_match};

verus! {

pub open spec fn digit(d: nat) -> char {
    if d == 0 { '0' } else if d == 1 { '1' } else if d == 2 { '2' } else if d == 3 { '3' }
    else if d == 4 { '4' } else if d == 5 { '5' } else if d == 6 { '6' } else if d == 7 { '7' }
    else if d == 8 { '8' } else { '9' }
}

/// Decimal notation of `n`.
pub open spec fn decimal(n: nat) -> Seq<char>
    decreases n,
{
    if n < 10 {
        seq![digit(n)]
    } else {
        decimal(n / 10).push(digit(n % 10))
    }
}

/// What starts the line of the `n`-th emitted item: a bullet, or `n.`.
pub open spec fn marker(ordered: bool, n: nat) -> Seq<char> {
    if ordered {
        decimal(n) + seq!['.', ' ']
    } else {
        seq!['\u{2022}', ' ']
    }
}

pub open spec fn li_open() -> Seq<char> {
    seq!['<', 'l', 'i']
}

pub open spec fn li_close() -> Seq<char> {
    seq!['<', '/', 'l', 'i', '>']
}

pub open spec fn list_open(ordered: bool) -> Seq<char> {
    if ordered { seq!['<', 'o', 'l'] } else { seq!['<', 'u', 'l'] }
}

pub open spec fn list_close(ordered: bool) -> Seq<char> {
    if ordered { seq!['<', '/', 'o', 'l', '>'] } else { seq!['<', '/', 'u', 'l', '>'] }
}

/// One line per `<li>` of `c` from position `j` on whose trimmed text is not
/// empty; `n` is the number the next emitted item gets.
pub open spec fn item_lines(c: Seq<char>, j: int, ordered: bool, n: nat) -> Seq<char>
    decreases c.len() - j,
{
    if j < 0 || j >= c.len() {
        seq![]
    } else {
        let step = item_lines(c, j + 1, ordered, n);
        match block_at(c, j, li_open(), li_close()) {
            Some(ab) => if j < ab.1 + 5 <= c.len() {
                let item = trim(c.subrange(ab.0, ab.1));
                if item.len() == 0 {
                    item_lines(c, ab.1 + 5, ordered, n)
                } else {
                    marker(ordered, n) + item + seq!['\n'] + item_lines(c, ab.1 + 5, ordered, n + 1)
                }
            } else {
                step
            },
            None => step,
        }
    }
}

/// The text that replaces a list whose content is `c`.
pub open spec fn list_text(c: Seq<char>, ordered: bool) -> Seq<char> {
    seq!['\n'] + trim_end(item_lines(c, 0, ordered, 1)) + seq!['\n']
}

/// Every list of the given kind is replaced by its lines.
pub open spec fn rw_list(s: Seq<char>, i: int, ordered: bool) -> Seq<char>
    decreases s.len() - i,
{
    if i < 0 || i >= s.len() {
        seq![]
    } else {
        let step = seq![s[i]] + rw_list(s, i + 1, ordered);
        match block_at(s, i, list_open(ordered), list_close(ordered)) {
            Some(ab) => if i < ab.1 + 5 <= s.len() {
                list_text(s.subrange(ab.0, ab.1), ordered) + rw_list(s, ab.1 + 5, ordered)
            } else {
                step
            },
            None => step,
        }
    }
}

fn digit_char(d: usize) -> (c: char)
    requires
        d < 10,
    ensures
        c == digit(d as nat),
{
    if d == 0 { '0' } else if d == 1 { '1' } else if d == 2 { '2' } else if d == 3 { '3' }
    else if d == 4 { '4' } else if d == 5 { '5' } else if d == 6 { '6' } else if d == 7 { '7' }
    else if d == 8 { '8' } else { '9' }
}

/// Appends the decimal notation of `n`.
pub fn push_decimal(out: &mut Vec<char>, n: usize)
    ensures
        final(out)@ == old(out)@ + decimal(n as nat),
    decreases n,
{
    if n >= 10 {
        push_decimal(out, n / 10);
    }
    out.push(digit_char(n % 10));
    assert(final(out)@ =~= old(out)@ + decimal(n as nat));
}

/// Length of `s` without its trailing whitespace.
pub fn trim_end_len(s: &Vec<char>) -> (h: usize)
    ensures
        h <= s@.len(),
        s@.subrange(0, h as int) == trim_end(s@),
{
    let mut h: usize = s.len();
    assert(s@.subrange(0, h as int) =~= s@);
    while h > 0 && is_whitespace(s[h - 1])
        invariant
            h <= s@.len(),
            trim_end(s@.subrange(0, h as int)) == trim_end(s@),
        decreases h,
    {
        assert(s@.subrange(0, h as int).drop_last() =~= s@.subrange(0, h - 1));
        h = h - 1;
    }
    h
}

/// The text that replaces a list whose content is `c`.
pub fn list_lines(c: &Vec<char>, ordered: bool) -> (r: Vec<char>)
    ensures
        r@ == list_text(c@, ordered),
{
    let open = vec!['<', 'l', 'i'];
    let close = vec!['<', '/', 'l', 'i', '>'];
    assert(open@ == li_open());
    assert(close@ == li_close());
    let mut lines: Vec<char> = Vec::new();
    let mut j: usize = 0;
    let mut n: usize = 1;
    while j < c.len()
        invariant
            j <= c@.len(),
            1 <= n <= j + 1,
            open@ == li_open(),
            close@ == li_close(),
            lines@ + item_lines(c@, j as int, ordered, n as nat) == item_lines(c@, 0, ordered, 1),
        decreases c.len() - j,
    {
        let ghost prev = lines@;
        let ghost j0 = j as int;
        let ghost n0 = n as nat;
        match block_match(c, j, &open, &close) {
            Some(ab) => {
                let (x, y) = trimmed_bounds(c, ab.0, ab.1);
                j = ab.1 + 5;
                if x < y {
                    if ordered {
                        push_decimal(&mut lines, n);
                        lines.push('.');
                        lines.push(' ');
                    } else {
                        lines.push('\u{2022}');
                        lines.push(' ');
                    }
                    push_range(&mut lines, c, x, y);
                    lines.push('\n');
                    n = n + 1;
                    assert(lines@ =~= prev + marker(ordered, n0) + trim(
                        c@.subrange(ab.0 as int, ab.1 as int),
                    ) + seq!['\n']);
                }
                assert(lines@ + item_lines(c@, j as int, ordered, n as nat) =~= prev + item_lines(
                    c@, j0, ordered, n0));
            },
            None => {
                j = j + 1;
            },
        }
    }
    assert(lines@ + item_lines(c@, j as int, ordered, n as nat) =~= lines@);
    let h = trim_end_len(&lines);
    let mut out: Vec<char> = Vec::new();
    out.push('\n');
    push_range(&mut out, &lines, 0, h);
    out.push('\n');
    assert(out@ =~= list_text(c@, ordered));
    out
}

/// Replaces every list of the given kind by its lines.
pub fn rewrite_lists(s: &Vec<char>, ordered: bool) -> (r: Vec<char>)
    ensures
        r@ == rw_list(s@, 0, ordered),
{
    let open = if ordered { vec!['<', 'o', 'l'] } else { vec!['<', 'u', 'l'] };
    let close = if ordered { vec!['<', '/', 'o', 'l', '>'] } else { vec!['<', '/', 'u', 'l', '>'] };
    assert(open@ == list_open(ordered));
    assert(close@ == list_close(ordered));
    let mut out: Vec<char> = Vec::new();
    let mut i: usize = 0;
    while i < s.len()
        invariant
            i <= s@.len(),
            open@ == list_open(ordered),
            close@ == list_close(ordered),
            out@ + rw_list(s@, i as int, ordered) == rw_list(s@, 0, ordered),
        decreases s.len() - i,
    {
        let ghost prev = out@;
        let ghost i0 = i as int;
        match block_match(s, i, &open, &close) {
            Some(ab) => {
                let mut content: Vec<char> = Vec::new();
                push_range(&mut content, s, ab.0, ab.1);
                let lines = list_lines(&content, ordered);
                crate::chars::push_all(&mut out, &lines);
                i = ab.1 + 5;
                assert(content@ =~= s@.subrange(ab.0 as int, ab.1 as int));
                assert(out@ + rw_list(s@, i as int, ordered) =~= prev + rw_list(s@, i0, ordered));
            },
            None => {
                out.push(s[i]);
                i = i + 1;
                assert(out@ + rw_list(s@, i as int, ordered) =~= prev + rw_list(s@, i0, ordered));
            },
        }
    }
    assert(out@ + rw_list(s@, i as int, ordered) =~= out@);
    out
}

} // verus!
