//! The comment extractor and the comment/span model.

use sql_docs::comments::{Comment, CommentSpan, Comments, Location};
use sql_docs::extract::extract_comments;

fn span(sl: u64, sc: u64, el: u64, ec: u64) -> CommentSpan {
    CommentSpan::new(Location::new(sl, sc), Location::new(el, ec))
}

#[test]
fn a_line_comment_is_found_with_its_span() {
    let found = extract_comments("-- users table\nCREATE TABLE users ();\n");
    let comments = found.comments();
    assert_eq!(comments.len(), 1);
    assert_eq!(comments[0].comment(), "users table");
    assert_eq!(comments[0].span().start().line(), 1);
    assert_eq!(comments[0].span().start().column(), 1);
    assert_eq!(comments[0].span().end().line(), 1);
    assert_eq!(comments[0].span().end().column(), 14);
}

#[test]
fn a_trailing_line_comment_has_its_column() {
    let found = extract_comments("  id INT,    -- primary key\n");
    let comments = found.comments();
    assert_eq!(comments.len(), 1);
    assert_eq!(comments[0].comment(), "primary key");
    assert_eq!(comments[0].span().start().line(), 1);
    assert_eq!(comments[0].span().start().column(), 14);
    assert_eq!(comments[0].span().end().column(), 27);
}

#[test]
fn a_block_comment_spans_its_lines() {
    let found = extract_comments("/* all\n   users */\nCREATE TABLE users ();\n");
    let comments = found.comments();
    assert_eq!(comments.len(), 1);
    assert_eq!(comments[0].comment(), "all\n   users");
    assert_eq!(comments[0].span().start().line(), 1);
    assert_eq!(comments[0].span().start().column(), 1);
    assert_eq!(comments[0].span().end().line(), 2);
    assert_eq!(comments[0].span().end().column(), 11);
}

#[test]
fn an_unterminated_block_comment_runs_to_the_end() {
    let found = extract_comments("CREATE TABLE t (a INT);\n/* dangling");
    let comments = found.comments();
    assert_eq!(comments.len(), 1);
    assert_eq!(comments[0].comment(), "dangling");
    assert_eq!(comments[0].span().start().line(), 2);
    assert_eq!(comments[0].span().start().column(), 1);
    assert_eq!(comments[0].span().end().line(), 2);
    assert_eq!(comments[0].span().end().column(), 11);
}

#[test]
fn empty_text_has_no_comments() {
    assert_eq!(extract_comments("").comments().len(), 0);
}

#[test]
fn text_without_comments_has_none() {
    assert_eq!(
        extract_comments("CREATE TABLE t (a INT);\n").comments().len(),
        0
    );
}

#[test]
fn two_dashes_at_the_very_end_are_an_empty_comment() {
    let found = extract_comments("SELECT 1; --");
    let comments = found.comments();
    assert_eq!(comments.len(), 1);
    assert_eq!(comments[0].comment(), "");
}

#[test]
fn comments_come_out_in_source_order() {
    let found = extract_comments("-- first\nSELECT 1; -- second\n/* third */\n");
    let comments = found.comments();
    assert_eq!(comments.len(), 3);
    assert_eq!(comments[0].comment(), "first");
    assert_eq!(comments[1].comment(), "second");
    assert_eq!(comments[2].comment(), "third");
}

#[test]
fn comments_new_sorts_by_span_start() {
    let late = Comment::new(String::from("late"), span(5, 1, 5, 9));
    let early = Comment::new(String::from("early"), span(1, 2, 1, 9));
    let middle = Comment::new(String::from("middle"), span(1, 4, 1, 9));
    let sorted = Comments::new(vec![late, middle, early]);
    let comments = sorted.comments();
    assert_eq!(comments[0].comment(), "early");
    assert_eq!(comments[1].comment(), "middle");
    assert_eq!(comments[2].comment(), "late");
}

#[test]
fn comments_new_keeps_equal_spans_in_encounter_order() {
    let a = Comment::new(String::from("a"), span(2, 1, 2, 5));
    let b = Comment::new(String::from("b"), span(2, 1, 2, 5));
    let sorted = Comments::new(vec![a, b]);
    let comments = sorted.comments();
    assert_eq!(comments[0].comment(), "a");
    assert_eq!(comments[1].comment(), "b");
}

#[test]
fn location_and_span_getters_return_their_fields() {
    let loc = Location::new(3, 7);
    assert_eq!(loc.line(), 3);
    assert_eq!(loc.column(), 7);
    let sp = span(3, 7, 4, 2);
    assert_eq!(sp.start().line(), 3);
    assert_eq!(sp.end().column(), 2);
    let c = Comment::new(String::from("note"), sp);
    assert_eq!(c.comment(), "note");
    assert_eq!(c.span().start().column(), 7);
}
