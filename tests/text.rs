use wordsmith::{RawText, WrapError, WrappedText};

#[test]
fn raw_text_replace_and_read() {
    let mut text = RawText::new("hello world".to_string());
    text.replace(0..5, "goodbye".to_string());
    assert_eq!(text.to_string(), "goodbye world");
    assert_eq!(text.read_range(8..13), "world");
    assert_eq!(RawText::empty().to_string(), "");
}

#[test]
fn raw_text_counts_characters() {
    let mut text = RawText::new("héllo".to_string());
    assert_eq!(text.len(), 5);
    text.replace(1..2, "e".to_string());
    assert_eq!(text.to_string(), "hello");
}

#[test]
fn word_boundaries_alpha_beta_gamma() {
    let text = WrappedText::new("alpha beta gamma".to_string());
    assert_eq!(text.next_word_boundary(0), Some(6));
    assert_eq!(text.previous_word_boundary(11), Some(6));
}

#[test]
fn word_boundaries_at_the_edges() {
    let text = WrappedText::new("alpha beta gamma".to_string());
    assert_eq!(text.previous_word_boundary(0), None);
    assert_eq!(text.next_word_boundary(16), None);
    assert_eq!(text.next_word_boundary(11), Some(16));
    assert_eq!(text.previous_word_boundary(6), Some(0));
    assert_eq!(text.previous_word_boundary(16), Some(11));
    assert_eq!(text.previous_word_boundary(100), Some(11));
    assert_eq!(text.next_word_boundary(5), Some(6));
}

#[test]
fn word_boundaries_with_leading_whitespace() {
    let text = WrappedText::new("   abc".to_string());
    assert_eq!(text.previous_word_boundary(2), None);
    assert_eq!(text.next_word_boundary(0), Some(3));
    assert_eq!(text.previous_word_boundary(5), Some(3));
}

#[test]
fn no_boundary_where_no_word_lies_that_way() {
    assert_eq!(WrappedText::new("  abc".to_string()).previous_word_boundary(2), None);
    assert_eq!(WrappedText::empty().previous_word_boundary(1), None);
    let trailing = WrappedText::new("ab  ".to_string());
    assert_eq!(trailing.next_word_boundary(2), None);
    assert_eq!(trailing.next_word_boundary(0), Some(4));
}

#[test]
fn short_line_is_not_wrapped() {
    let text = WrappedText::new("hello".to_string());
    assert_eq!(text.to_string(), Ok("hello".to_string()));
    assert_eq!(text.wrap_points(), Ok(vec![]));
    assert_eq!(text.line_length(), Ok(1));
    assert_eq!(text.is_soft_wrapped_line(0), Ok(false));
    assert_eq!(text.length(), Ok(5));
}

#[test]
fn long_word_without_space_in_width_is_unwrappable() {
    let mut line = "a".repeat(120);
    line.replace_range(60..61, " ");
    let text = WrappedText::new(line);
    assert_eq!(text.to_string(), Err(WrapError::UnwrappableLine));
    assert_eq!(text.wrap_points(), Err(WrapError::UnwrappableLine));
    assert_eq!(text.line_length(), Err(WrapError::UnwrappableLine));
}

#[test]
fn long_line_breaks_after_last_space_within_width() {
    let line = format!("{} {}", "a".repeat(45), "b".repeat(44));
    let text = WrappedText::new(line);
    let expected = format!("{} \n{}", "a".repeat(45), "b".repeat(44));
    assert_eq!(text.to_string(), Ok(expected));
    assert_eq!(text.wrap_points(), Ok(vec![47]));
    assert_eq!(text.line_length(), Ok(2));
    assert_eq!(text.is_soft_wrapped_line(0), Ok(true));
    assert_eq!(text.is_soft_wrapped_line(1), Ok(false));
    assert_eq!(text.length(), Ok(90));
    let rows = text.lines().unwrap();
    assert_eq!(rows.len(), 2);
    assert_eq!(rows[0], format!("{} ", "a".repeat(45)));
    assert_eq!(rows[1], "b".repeat(44));
}

#[test]
fn wrapped_offsets_resolve_to_unwrapped_text() {
    let line = format!("{} {}", "a".repeat(45), "b".repeat(44));
    let mut text = WrappedText::new(line);
    assert_eq!(text.read_range(47..50), Ok("bbb".to_string()));
    assert_eq!(text.read_range(44..46), Ok("a ".to_string()));
    text.replace(47..48, "X".to_string()).unwrap();
    assert_eq!(
        text.original().to_string(),
        format!("{} X{}", "a".repeat(45), "b".repeat(43))
    );
}

#[test]
fn several_lines_wrap_separately() {
    let text = WrappedText::new(format!("short\n{} {}", "c".repeat(30), "d".repeat(30)));
    let expected = format!("short\n{} \n{}", "c".repeat(30), "d".repeat(30));
    assert_eq!(text.to_string(), Ok(expected));
    assert_eq!(text.wrap_points(), Ok(vec![38]));
    assert_eq!(text.line_length(), Ok(3));
}

#[test]
fn empty_wrapped_text() {
    let text = WrappedText::empty();
    assert_eq!(text.to_string(), Ok(String::new()));
    assert_eq!(text.line_length(), Ok(1));
    assert_eq!(text.length(), Ok(0));
    assert_eq!(text.next_word_boundary(0), None);
}

#[test]
fn authored_final_newline_is_kept() {
    let text = WrappedText::new("ab\n".to_string());
    assert_eq!(text.to_string(), Ok("ab\n".to_string()));
    assert_eq!(text.line_length(), Ok(2));
    assert_eq!(text.is_soft_wrapped_line(0), Ok(false));
    assert_eq!(text.length(), Ok(3));
    let (wrapped, points) = text.to_string_with_wrap_points().unwrap();
    assert_eq!(wrapped, "ab\n");
    assert!(points.is_empty());
}
