use note_convert::convert::html_to_text;
use note_convert::paragraphs::text_to_html;
use note_convert::whitespace::collapse_whitespace;
use note_convert::strip_markup;

#[test]
fn unordered_list_drops_empty_item() {
    assert_eq!(html_to_text("<ul><li>A</li><li></li><li>B</li></ul>"), "\u{2022} A\n\u{2022} B");
}

#[test]
fn ordered_list_numbers_only_emitted_items() {
    assert_eq!(html_to_text("<ol><li>A</li><li></li><li>B</li></ol>"), "1. A\n2. B");
}

#[test]
fn ordered_list_reaches_two_digits() {
    let mut html = String::from("<ol>");
    for c in ['a', 'b', 'c', 'd', 'e', 'f', 'g', 'h', 'i', 'j', 'k'] {
        html.push_str(&format!("<li>{}</li>", c));
    }
    html.push_str("</ol>");
    let text = html_to_text(&html);
    let lines: Vec<&str> = text.lines().collect();
    assert_eq!(lines.len(), 11);
    assert_eq!(lines[9], "10. j");
    assert_eq!(lines[10], "11. k");
}

#[test]
fn list_items_with_attributes_and_blank_text() {
    assert_eq!(
        html_to_text("<ol class=\"x\"><li class=\"y\"> A </li><li>   </li><li><b>B</b></li></ol>"),
        "1. A\n2. B"
    );
}

#[test]
fn list_stands_on_its_own_lines() {
    assert_eq!(html_to_text("x<ul><li>A</li></ul>y"), "x\n\u{2022} A\ny");
}

#[test]
fn header_then_paragraph() {
    assert_eq!(html_to_text("<h1>Title</h1><p>Body</p>"), "Title\n\nBody");
}

#[test]
fn second_level_header() {
    assert_eq!(html_to_text("<h2>Sub</h2>text"), "Sub\n\ntext");
}

#[test]
fn non_breaking_space_entity_becomes_a_space_character() {
    assert_eq!(html_to_text("a&nbsp;b"), "a\u{a0}b");
}

#[test]
fn entities_are_decoded_once() {
    assert_eq!(html_to_text("<p>a &amp; b &lt; c</p>"), "a & b < c");
    assert_eq!(html_to_text("&amp;lt;"), "&lt;");
}

#[test]
fn two_paragraphs_from_text() {
    assert_eq!(text_to_html("Para one\n\nPara two"), "<p>Para one</p><p>Para two</p>");
}

#[test]
fn single_paragraph_is_escaped_with_breaks() {
    assert_eq!(text_to_html("a < b\nc & d > e"), "<p>a &lt; b<br>c &amp; d &gt; e</p>");
}

#[test]
fn blank_segments_are_dropped() {
    assert_eq!(text_to_html("one\n\n\n\ntwo"), "<p>one</p><p>two</p>");
    assert_eq!(text_to_html("one\n\n  \n\ntwo"), "<p>one</p><p>two</p>");
}

#[test]
fn odd_newline_run_keeps_a_break() {
    assert_eq!(text_to_html("a\n\n\nb"), "<p>a</p><p><br>b</p>");
}

#[test]
fn single_blank_segment_still_yields_a_paragraph() {
    assert_eq!(text_to_html("   "), "<p>   </p>");
    assert_eq!(text_to_html(""), "<p></p>");
}

#[test]
fn all_blank_segments_yield_nothing() {
    assert_eq!(text_to_html("\n\n"), "");
}

#[test]
fn unknown_tags_are_removed() {
    assert_eq!(html_to_text("<span class=\"x\">hi</span> <b>there</b>"), "hi there");
}

#[test]
fn lone_angle_brackets_are_not_markup() {
    assert_eq!(strip_markup("a < b"), "a < b");
    assert_eq!(strip_markup("x > y"), "x > y");
    assert_eq!(strip_markup("a <i>b</i> < c"), "a b < c");
}

#[test]
fn stripped_markup_has_no_tag() {
    let out = strip_markup("<p>one <em>two</em></p><custom attr='1'>three</custom>");
    assert_eq!(out, "one two\n\nthree");
    assert!(!out.contains('<') && !out.contains('>'));
}

#[test]
fn blanks_collapse_to_one_space() {
    assert_eq!(html_to_text("a \t  b\t\tc"), "a b c");
}

#[test]
fn newline_runs_collapse_to_two() {
    assert_eq!(collapse_whitespace("a\n\n\n\nb"), "a\n\nb");
    assert_eq!(collapse_whitespace("a \t b\n\n\nc"), "a b\n\nc");
    assert_eq!(html_to_text("<p>a</p><p></p><p>b</p>"), "a\n\nb");
}

#[test]
fn lines_are_trimmed() {
    assert_eq!(html_to_text("<p>  x  </p><p> y </p>"), "x\n\ny");
    assert_eq!(html_to_text("  a  <br>  b  "), "a\nb");
}

#[test]
fn line_break_forms() {
    assert_eq!(html_to_text("a<br>b<br/>c<br />d"), "a\nb\nc\nd");
}

#[test]
fn horizontal_rule() {
    assert_eq!(html_to_text("a<hr>b"), "a\n---\nb");
    assert_eq!(html_to_text("a<hr class=\"x\"/>b"), "a\n---\nb");
}

#[test]
fn divisions_are_line_separators() {
    assert_eq!(html_to_text("a<div class=\"z\">b"), "a\nb");
    assert_eq!(html_to_text("<div>a</div><div>b</div>"), "a\n\nb");
}

#[test]
fn unmatched_paragraph_close() {
    assert_eq!(html_to_text("a</p>b"), "a\n\nb");
}

#[test]
fn paragraph_over_two_lines_is_not_a_block() {
    assert_eq!(html_to_text("<p>a\nb</p>c"), "a\nb\n\nc");
}

#[test]
fn empty_input() {
    assert_eq!(html_to_text(""), "");
}

#[test]
fn whitespace_only_line_is_emptied_after_newline_collapse() {
    assert_eq!(collapse_whitespace("a\n \n\nb"), "a\n \n\nb");
    assert_eq!(html_to_text("a\n \n\nb"), "a\n\n\nb");
}

#[test]
fn escaping_text_changes_the_output() {
    assert_eq!(text_to_html("x&y"), "<p>x&amp;y</p>");
    assert_eq!(html_to_text("x&gt;y"), "x>y");
}
