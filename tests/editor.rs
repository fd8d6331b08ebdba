use wordsmith::{
    Buffer, Cursor, EditLocation, Editor, EditorPosition, LineType, SaveError, Selection,
    SelectionDirection,
};

fn editor_with(text: &str) -> Editor {
    Editor::new(Buffer::from_file_contents(text.to_string()))
}

fn text_of(editor: &Editor) -> String {
    editor.buffer().content().to_string()
}

fn cursor_position(editor: &Editor) -> EditorPosition {
    match editor.edit_location() {
        EditLocation::Cursor(cursor) => cursor.position,
        EditLocation::Selection(_) => panic!("expected a caret"),
    }
}

fn pos(y: usize, x: isize) -> EditorPosition {
    EditorPosition::new(y, x)
}

#[test]
fn scenario_heading_document_beginning() {
    let mut editor = editor_with("## Title\n\nBody text");
    let lines = editor.buffer().lines();
    assert_eq!(lines[0].kind, LineType::HeadlineStart(2));
    assert_eq!(lines[1].kind, LineType::Normal);
    assert_eq!(lines[1].text, "");
    assert_eq!(lines[2].kind, LineType::Normal);
    assert_eq!(lines[2].text, "Body text");
    assert_eq!(editor.beginning_of_file_position(), pos(0, -3));
    editor.move_to(pos(0, -3), -3);
    editor.backspace();
    assert_eq!(text_of(&editor), "## Title\n\nBody text");
    assert_eq!(cursor_position(&editor), editor.beginning_of_file_position());
}

#[test]
fn scenario_backspace_removes_marker() {
    let mut editor = editor_with("## Title\n\nBody text");
    editor.move_to(pos(0, 0), 0);
    editor.backspace();
    assert_eq!(text_of(&editor), "Title\n\nBody text");
    assert_eq!(editor.buffer().line(0).kind, LineType::Normal);
    assert_eq!(cursor_position(&editor), pos(0, 0));
    assert_eq!(editor.beginning_of_file_position(), pos(0, 0));
}

#[test]
fn scenario_space_completes_marker() {
    let mut editor = editor_with("##X");
    editor.move_to(pos(0, 2), 2);
    editor.replace_text_in_range(None, " ".to_string());
    assert_eq!(text_of(&editor), "## X");
    assert_eq!(editor.buffer().line(0).kind, LineType::HeadlineStart(2));
    assert_eq!(cursor_position(&editor), pos(0, 0));
}

#[test]
fn scenario_backwards_selection_delete() {
    let selection = Selection::new(pos(2, 5), pos(2, 1));
    assert_eq!(selection.smallest(), pos(2, 1));
    assert_eq!(selection.largest(), pos(2, 5));
    assert_eq!(selection.direction(), SelectionDirection::Backwards);
    let mut editor = editor_with("First\nSecond\nHello world");
    editor.select(pos(2, 5), pos(2, 1));
    editor.backspace();
    assert_eq!(editor.buffer().line(2).text, "H world");
    assert_eq!(cursor_position(&editor), pos(2, 1));
}

#[test]
fn positions_order_line_first() {
    assert!(pos(1, -3) > pos(0, 10));
    assert!(pos(1, 2) < pos(1, 3));
    assert_eq!(pos(1, 2).partial_cmp(&pos(1, 2)), Some(std::cmp::Ordering::Equal));
    assert_eq!(Selection::new(pos(0, 1), pos(0, 4)).direction(), SelectionDirection::Forwards);
    let cursor = Cursor::new(1, 2, 7);
    assert_eq!(cursor.position, pos(1, 2));
    assert_eq!(cursor.preferred_x, 7);
}

#[test]
fn empty_replace_changes_nothing() {
    let mut editor = editor_with("## Title\n\nBody text");
    let before = editor.buffer().lines();
    editor.move_to(pos(2, 3), 3);
    editor.replace_range(pos(2, 3)..pos(2, 3), String::new());
    assert_eq!(text_of(&editor), "## Title\n\nBody text");
    let after = editor.buffer().lines();
    assert_eq!(before.len(), after.len());
    for (a, b) in before.iter().zip(after.iter()) {
        assert_eq!(a.text, b.text);
        assert_eq!(a.kind, b.kind);
    }
    assert_eq!(cursor_position(&editor), pos(2, 3));
}

#[test]
fn left_and_right_cross_lines() {
    let mut editor = editor_with("ab\ncd");
    editor.move_to(pos(1, 0), 0);
    editor.move_left();
    assert_eq!(cursor_position(&editor), pos(0, 2));
    editor.move_right();
    assert_eq!(cursor_position(&editor), pos(1, 0));
    editor.move_beginning_of_file();
    editor.move_left();
    assert_eq!(cursor_position(&editor), pos(0, 0));
    editor.move_end_of_file();
    assert_eq!(cursor_position(&editor), pos(2, 0));
    editor.move_right();
    assert_eq!(cursor_position(&editor), pos(2, 0));
}

#[test]
fn right_onto_heading_lands_on_visible_start() {
    let mut editor = editor_with("ab\n# T");
    editor.move_to(pos(0, 2), 2);
    editor.move_right();
    assert_eq!(cursor_position(&editor), pos(1, 0));
}

#[test]
fn vertical_moves_keep_preferred_column() {
    let mut editor = editor_with("long line here\nab\nanother long");
    editor.move_to(pos(0, 10), 10);
    editor.move_down();
    assert_eq!(editor.edit_location(), EditLocation::Cursor(Cursor::new(1, 2, 10)));
    editor.move_down();
    assert_eq!(cursor_position(&editor), pos(2, 10));
    editor.move_down();
    assert_eq!(cursor_position(&editor), pos(3, 0));
    editor.move_up();
    editor.move_up();
    editor.move_up();
    assert_eq!(cursor_position(&editor), pos(0, 10));
    editor.move_up();
    assert_eq!(cursor_position(&editor), pos(0, 0));
}

#[test]
fn line_and_file_bounds() {
    let mut editor = editor_with("## Head\nbody");
    editor.move_to(pos(0, 2), 2);
    editor.move_beginning_of_line();
    assert_eq!(cursor_position(&editor), pos(0, -3));
    editor.move_end_of_line();
    assert_eq!(cursor_position(&editor), pos(0, 4));
    assert_eq!(editor.end_of_file_position(), pos(2, 0));
}

#[test]
fn word_moves_cross_lines() {
    let mut editor = editor_with("alpha beta\ngamma");
    editor.move_to(pos(0, 0), 0);
    editor.move_end_of_word();
    assert_eq!(cursor_position(&editor), pos(0, 6));
    editor.move_end_of_word();
    assert_eq!(cursor_position(&editor), pos(0, 10));
    editor.move_end_of_word();
    assert_eq!(cursor_position(&editor), pos(1, 0));
    editor.move_beginning_of_word();
    assert_eq!(cursor_position(&editor), pos(0, 6));
    editor.move_beginning_of_word();
    assert_eq!(cursor_position(&editor), pos(0, 0));
    editor.move_beginning_of_word();
    assert_eq!(cursor_position(&editor), pos(0, 0));
}

#[test]
fn word_moves_stop_at_blank_lines() {
    let mut editor = editor_with("one\n   \ntwo");
    editor.move_to(pos(2, 0), 0);
    editor.move_beginning_of_word();
    assert_eq!(cursor_position(&editor), pos(1, 0));
    editor.move_to(pos(0, 3), 3);
    editor.move_end_of_word();
    assert_eq!(cursor_position(&editor), pos(1, 0));
}

#[test]
fn selections_extend_and_collapse() {
    let mut editor = editor_with("abc\ndef");
    editor.move_to(pos(0, 2), 2);
    editor.select_left();
    assert_eq!(
        editor.edit_location(),
        EditLocation::Selection(Selection::new(pos(0, 2), pos(0, 1)))
    );
    editor.select_right();
    assert_eq!(cursor_position(&editor), pos(0, 2));
    editor.select_down();
    assert_eq!(
        editor.edit_location(),
        EditLocation::Selection(Selection::new(pos(0, 2), pos(1, 2)))
    );
    editor.select_end_of_line();
    assert_eq!(
        editor.edit_location(),
        EditLocation::Selection(Selection::new(pos(0, 2), pos(1, 3)))
    );
    editor.move_left();
    assert_eq!(cursor_position(&editor), pos(0, 1));
    editor.select_all();
    assert_eq!(
        editor.edit_location(),
        EditLocation::Selection(Selection::new(pos(0, 0), pos(2, 0)))
    );
    editor.remove_selection();
    assert_eq!(cursor_position(&editor), pos(0, 0));
}

#[test]
fn selection_moves_collapse_to_the_matching_end() {
    let mut editor = editor_with("abcdef");
    editor.select(pos(0, 4), pos(0, 1));
    editor.move_right();
    assert_eq!(cursor_position(&editor), pos(0, 5));
    editor.select(pos(0, 4), pos(0, 1));
    editor.move_left();
    assert_eq!(cursor_position(&editor), pos(0, 0));
    editor.select(pos(0, 4), pos(0, 1));
    editor.move_end_of_line();
    assert_eq!(cursor_position(&editor), pos(0, 6));
}

#[test]
fn selections_by_word_and_file() {
    let mut editor = editor_with("one two");
    editor.move_to(pos(0, 0), 0);
    editor.select_end_of_word();
    assert_eq!(
        editor.edit_location(),
        EditLocation::Selection(Selection::new(pos(0, 0), pos(0, 4)))
    );
    editor.select_beginning_of_word();
    assert_eq!(cursor_position(&editor), pos(0, 0));
    editor.select_end_of_file();
    assert_eq!(
        editor.edit_location(),
        EditLocation::Selection(Selection::new(pos(0, 0), pos(1, 0)))
    );
    editor.select_beginning_of_file();
    assert_eq!(cursor_position(&editor), pos(0, 0));
    editor.move_to(pos(0, 5), 5);
    editor.select_beginning_of_line();
    assert_eq!(
        editor.edit_location(),
        EditLocation::Selection(Selection::new(pos(0, 5), pos(0, 0)))
    );
    editor.select_up();
    assert_eq!(
        editor.edit_location(),
        EditLocation::Selection(Selection::new(pos(0, 5), pos(0, 0)))
    );
}

#[test]
fn backspace_deletes_one_position() {
    let mut editor = editor_with("abc");
    editor.move_to(pos(0, 2), 2);
    editor.backspace();
    assert_eq!(text_of(&editor), "ac");
    assert_eq!(cursor_position(&editor), pos(0, 1));
    let mut joined = editor_with("ab\ncd");
    joined.move_to(pos(1, 0), 0);
    joined.backspace();
    assert_eq!(text_of(&joined), "abcd");
    assert_eq!(cursor_position(&joined), pos(0, 2));
    assert!(!joined.buffer().pristine());
}

#[test]
fn enter_breaks_the_line() {
    let mut editor = editor_with("ab");
    editor.move_to(pos(0, 1), 1);
    editor.enter();
    assert_eq!(text_of(&editor), "a\nb");
    assert_eq!(cursor_position(&editor), pos(1, 0));
    let mut selected = editor_with("abcd");
    selected.select(pos(0, 3), pos(0, 1));
    selected.enter();
    assert_eq!(text_of(&selected), "a\nd");
    assert_eq!(cursor_position(&selected), pos(1, 0));
}

#[test]
fn typing_and_pasting_move_the_caret() {
    let mut editor = editor_with("ab");
    editor.move_to(pos(0, 1), 1);
    editor.paste("XY".to_string());
    assert_eq!(text_of(&editor), "aXYb");
    assert_eq!(cursor_position(&editor), pos(0, 3));
    editor.replace_text_in_range(None, "Z".to_string());
    assert_eq!(text_of(&editor), "aXYZb");
    assert_eq!(cursor_position(&editor), pos(0, 4));
    editor.replace_text_in_range(Some(0..1), "q\nr".to_string());
    assert_eq!(text_of(&editor), "q\nrXYZb");
    assert_eq!(cursor_position(&editor), pos(1, 1));
}

#[test]
fn typing_replaces_a_selection() {
    let mut editor = editor_with("hello world");
    editor.select(pos(0, 6), pos(0, 11));
    editor.replace_text_in_range(None, "there".to_string());
    assert_eq!(text_of(&editor), "hello there");
    assert_eq!(cursor_position(&editor), pos(0, 11));
}

#[test]
fn copy_and_cut() {
    let mut editor = editor_with("hello");
    editor.move_to(pos(0, 1), 1);
    assert_eq!(editor.copy(), None);
    assert_eq!(editor.cut(), None);
    editor.select(pos(0, 2), pos(0, 0));
    assert_eq!(editor.copy(), Some("he".to_string()));
    assert_eq!(editor.read_range(pos(0, 1)..pos(0, 4)), "ell");
    assert_eq!(editor.cut(), Some("he".to_string()));
    assert_eq!(text_of(&editor), "llo");
    assert_eq!(cursor_position(&editor), pos(0, 0));
}

#[test]
fn buffer_save_state() {
    let mut buffer = Buffer::empty();
    assert!(buffer.is_empty());
    assert!(buffer.pristine());
    assert!(!buffer.has_file());
    assert_eq!(buffer.contents_to_save(), Err(SaveError::NoFileAssociated));
    buffer.replace(0..0, "text".to_string());
    assert!(!buffer.pristine());
    buffer.set_file();
    assert_eq!(buffer.contents_to_save(), Ok("text".to_string()));
    buffer.mark_saved();
    assert!(buffer.pristine());
    assert_eq!(buffer.read_range(1..3), "ex");
    assert_eq!(buffer.offset_to_position(4), EditorPosition::new(0, 4));
}

#[test]
fn editor_keeps_location_on_new_file() {
    let mut editor = editor_with("abc\ndef");
    editor.move_to(pos(1, 3), 3);
    editor.new_file();
    assert_eq!(text_of(&editor), "");
    assert_eq!(cursor_position(&editor), pos(0, 0));
    assert!(!editor.buffer().has_file());
    editor.set_buffer(Buffer::from_file_contents("xy".to_string()));
    assert!(editor.is_valid_position(pos(0, 2)));
    assert!(!editor.is_valid_position(pos(0, 3)));
    editor.set_file();
    editor.mark_saved();
    assert!(editor.buffer().pristine());
}

#[test]
fn word_moves_skip_whitespace_at_line_edges() {
    let mut editor = editor_with("ab  \ncd");
    editor.move_to(pos(0, 2), 2);
    editor.move_end_of_word();
    assert_eq!(cursor_position(&editor), pos(1, 0));
    let mut indented = editor_with("ab\n  cd");
    indented.move_to(pos(1, 1), 1);
    indented.move_beginning_of_word();
    assert_eq!(cursor_position(&indented), pos(0, 0));
    indented.move_to(pos(1, 1), 1);
    indented.move_end_of_word();
    assert_eq!(cursor_position(&indented), pos(1, 2));
}
