use wordsmith::content::is_headline;
use wordsmith::{Content, EditorPosition, Line, LineType};

fn scenario() -> Content {
    Content::new("## Title\n\nBody text".to_string())
}

#[test]
fn lines_are_classified() {
    let lines = scenario().lines();
    assert_eq!(lines.len(), 4);
    assert_eq!(lines[0].text, "## Title");
    assert_eq!(lines[0].kind, LineType::HeadlineStart(2));
    assert_eq!(lines[1].text, "");
    assert_eq!(lines[1].kind, LineType::Normal);
    assert_eq!(lines[2].text, "Body text");
    assert_eq!(lines[2].kind, LineType::Normal);
    assert_eq!(lines[3].text, "");
}

#[test]
fn heading_carries_on_until_an_empty_line() {
    let content = Content::new("# H\ncont\n\nafter\n".to_string());
    let kinds: Vec<LineType> = content.lines().iter().map(|l| l.kind).collect();
    assert_eq!(
        kinds,
        vec![
            LineType::HeadlineStart(1),
            LineType::HeadlineNotStart,
            LineType::Normal,
            LineType::Normal,
            LineType::Normal
        ]
    );
    assert_eq!(content.line_count(), 5);
}

#[test]
fn text_ending_in_newline_has_no_extra_line() {
    let content = Content::new("a\n".to_string());
    let lines = content.lines();
    assert_eq!(lines.len(), 2);
    assert_eq!(lines[0].text, "a");
    assert_eq!(lines[1].text, "");
    assert_eq!(Content::empty().lines().len(), 1);
}

#[test]
fn headline_detection() {
    assert!(is_headline("## x".to_string()));
    assert!(is_headline("  # y".to_string()));
    assert!(is_headline("###### six".to_string()));
    assert!(!is_headline("####### seven".to_string()));
    assert!(!is_headline("##x".to_string()));
    assert!(!is_headline("#".to_string()));
    assert!(is_headline("# ".to_string()));
    assert!(!is_headline("".to_string()));
}

#[test]
fn line_bounds_and_clamp() {
    let line = Line { text: "## Title".to_string(), kind: LineType::HeadlineStart(2) };
    assert_eq!(line.beginning(), -3);
    assert_eq!(line.end(), 5);
    assert_eq!(line.length(), 8);
    assert_eq!(line.clamp_x(-10), -3);
    assert_eq!(line.clamp_x(10), 5);
    assert_eq!(line.clamp_x(2), 2);
    let normal = Line { text: "abc".to_string(), kind: LineType::Normal };
    assert_eq!(normal.beginning(), 0);
    assert_eq!(normal.end(), 3);
    assert_eq!(normal.clamp_x(-1), 0);
    assert_eq!(normal.clamp_x(isize::MAX), 3);
}

#[test]
fn positions_and_offsets() {
    let content = scenario();
    assert_eq!(content.position_to_offset(EditorPosition::new(0, -3)), 0);
    assert_eq!(content.position_to_offset(EditorPosition::new(0, 0)), 3);
    assert_eq!(content.position_to_offset(EditorPosition::new(1, 0)), 9);
    assert_eq!(content.position_to_offset(EditorPosition::new(2, 4)), 14);
    assert_eq!(content.offset_to_position(14), EditorPosition::new(2, 4));
    assert_eq!(content.offset_to_position(3), EditorPosition::new(0, 0));
    assert_eq!(content.offset_to_position(8), EditorPosition::new(0, 5));
    assert_eq!(content.offset_to_position(9), EditorPosition::new(1, 0));
    assert_eq!(content.offset_to_position(1000), EditorPosition::new(3, 0));
}

#[test]
fn offset_is_floored_at_zero() {
    let content = Content::new("abc".to_string());
    assert_eq!(content.position_to_offset(EditorPosition::new(0, -5)), 0);
}

#[test]
fn round_trip_over_every_position() {
    let content = Content::new("# Head\nmore\n\n  ## two\nend".to_string());
    let lines = content.lines();
    for (y, line) in lines.iter().enumerate() {
        for x in line.beginning()..=line.end() {
            let position = EditorPosition::new(y, x);
            let offset = content.position_to_offset(position);
            assert_eq!(content.offset_to_position(offset), position);
        }
    }
}

#[test]
fn marker_is_level_plus_one_characters() {
    let content = Content::new("text\n### Third".to_string());
    let line = content.line(1);
    assert_eq!(line.kind, LineType::HeadlineStart(3));
    assert_eq!(line.beginning(), -4);
    let start = content.position_to_offset(EditorPosition::new(1, line.beginning()));
    let visible = content.position_to_offset(EditorPosition::new(1, 0));
    assert_eq!(visible - start, 4);
}

#[test]
fn content_replace_and_read() {
    let mut content = scenario();
    assert_eq!(content.read_range(3..8), "Title");
    content.replace(0..3, String::new());
    assert_eq!(content.to_string(), "Title\n\nBody text");
    assert_eq!(content.line(0).kind, LineType::Normal);
    assert_eq!(content.text().to_string(), Ok("Title\n\nBody text".to_string()));
}
