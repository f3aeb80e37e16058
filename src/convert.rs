//! The two conversions: editor HTML to plain text, and plain text to HTML.

use vstd::prelude::*;
use crate::chars::{chars_of, string_of};
use crate::lists::{rw_list, rewrite_lists};
use crate::markup::{
    Tag, rw_block, rw_single, rewrite_blocks, rewrite_single, strip_tags, no_tag_left,
};

use crate::whitespace::{
    normalized, normalize_text, no_tabs, no_double_space, lines_trimmed, ends_trimmed,
};

verus! {

/// Steps before entity decoding: lists, headers, paragraphs, divisions,
/// line breaks, rules, then every other tag removed. Later steps rely on
/// earlier ones having consumed the block tags.
pub open spec fn markup_stage(s: Seq<char>) -> Seq<char> {
    let nn = seq!['\n', '\n'];
    let bullets = rw_list(s, 0, false);
    let numbered = rw_list(bullets, 0, true);
    let h1 = rw_block(numbered, 0, seq!['<', 'h', '1'], seq!['<', '/', 'h', '1', '>'], nn);
    let h2 = rw_block(h1, 0, seq!['<', 'h', '2'], seq!['<', '/', 'h', '2', '>'], nn);
    let paras = rw_block(h2, 0, seq!['<', 'p'], seq!['<', '/', 'p', '>'], nn);
    let closed = rw_single(paras, 0, Tag::ParagraphClose, nn);
    let divs = rw_single(closed, 0, Tag::Division, seq!['\n']);
    let breaks = rw_single(divs, 0, Tag::LineBreak, seq!['\n']);
    let rules = rw_single(breaks, 0, Tag::Rule, seq!['\n', '-', '-', '-', '\n']);
    rw_single(rules, 0, Tag::Any, seq![])
}

/// Rewrites the markup of `html` into text, before entities are decoded.
pub fn strip_markup(html: &str) -> (r: String)
    ensures
        r@ == markup_stage(html@),
        no_tag_left(r@),
{
    let nn = vec!['\n', '\n'];
    let nl = vec!['\n'];
    let rule = vec!['\n', '-', '-', '-', '\n'];
    let h1o = vec!['<', 'h', '1'];
    let h1c = vec!['<', '/', 'h', '1', '>'];
    let h2o = vec!['<', 'h', '2'];
    let h2c = vec!['<', '/', 'h', '2', '>'];
    let po = vec!['<', 'p'];
    let pc = vec!['<', '/', 'p', '>'];
    assert(nn@ == seq!['\n', '\n']);
    assert(nl@ == seq!['\n']);
    assert(rule@ == seq!['\n', '-', '-', '-', '\n']);
    assert(h1o@ == seq!['<', 'h', '1']);
    assert(h1c@ == seq!['<', '/', 'h', '1', '>']);
    assert(h2o@ == seq!['<', 'h', '2']);
    assert(h2c@ == seq!['<', '/', 'h', '2', '>']);
    assert(po@ == seq!['<', 'p']);
    assert(pc@ == seq!['<', '/', 'p', '>']);
    let s = chars_of(html);
    let bullets = rewrite_lists(&s, false);
    let numbered = rewrite_lists(&bullets, true);
    let h1 = rewrite_blocks(&numbered, &h1o, &h1c, &nn);
    let h2 = rewrite_blocks(&h1, &h2o, &h2c, &nn);
    let paras = rewrite_blocks(&h2, &po, &pc, &nn);
    let closed = rewrite_single(&paras, &Tag::ParagraphClose, &nn);
    let divs = rewrite_single(&closed, &Tag::Division, &nl);
    let breaks = rewrite_single(&divs, &Tag::LineBreak, &nl);
    let rules = rewrite_single(&breaks, &Tag::Rule, &rule);
    let text = strip_tags(&rules);
    string_of(&text)
}

/// What `html_escape::decode_html_entities` makes of a text.
pub uninterp spec fn entities_decoded(s: Seq<char>) -> Seq<char>;

/// Relies on `html_escape::decode_html_entities`: named and numeric
/// character references are replaced by the characters they stand for;
/// a text without `&` holds no reference and is returned as it is.
#[verifier::external_body]
fn decode_entities(s: &str) -> (r: String)
    ensures
        r@ == entities_decoded(s@),
        (forall|k: int| 0 <= k < s@.len() ==> s@[k] != '&') ==> r@ == s@,
{
    html_escape::decode_html_entities(s).into_owned()
}

/// Converts the editor's HTML to plain text: paragraph breaks become blank
/// lines, list items bulleted or numbered lines, and no markup or entity is
/// left.
pub fn html_to_text(html: &str) -> (r: String)
    ensures
        r@ == normalized(entities_decoded(markup_stage(html@))),
        no_tabs(r@),
        no_double_space(r@),
        lines_trimmed(r@),
        ends_trimmed(r@),
        (forall|k: int| 0 <= k < markup_stage(html@).len() ==> markup_stage(html@)[k] != '&')
            ==> no_tag_left(r@),
{
    let stripped = strip_markup(html);
    let decoded = decode_entities(stripped.as_str());
    normalize_text(decoded.as_str())
}

} // verus!
