use editor_core::cursor::Cursor;
use editor_core::highlight::Colour;
use editor_core::highlight::HighlightType;
use editor_core::highlight::PrintCommand;
use editor_core::syntax::RustSyntax;
use editor_core::text::Text;

fn text_of(content: &str) -> Text {
    let mut text = Text::new();
    text.load(Ok(String::from(content)));
    text
}

fn rows(text: &Text) -> Vec<Vec<u8>> {
    (0..text.len()).map(|index| text.get_line(index).unwrap().as_bytes().to_vec()).collect()
}

fn tags(text: &Text) -> Vec<Vec<HighlightType>> {
    (0..text.len()).map(|index| text.get_line(index).unwrap().highlight_types().to_vec()).collect()
}

fn strings(rows: &[&str]) -> Vec<Vec<u8>> {
    rows.iter().map(|row| row.as_bytes().to_vec()).collect()
}

fn cursor_at(x: u16, y: u16) -> Cursor {
    let mut cursor = Cursor::new((80, 24));
    cursor.set_position(x, y);
    cursor
}

fn assert_aligned(text: &Text) {
    for index in 0..text.len() {
        let line = text.get_line(index).unwrap();
        assert_eq!(line.highlight_types().len(), line.len());
    }
}

#[test]
fn new_text_has_one_empty_row() {
    let text = Text::new();
    assert_eq!(text.len(), 1);
    assert_eq!(rows(&text), strings(&[""]));
    assert_eq!(tags(&text), vec![Vec::<HighlightType>::new()]);
    assert!(text.is_highlighted());
    assert!(text.is_addressable());
}

#[test]
fn text_without_a_highlighter() {
    let text = Text::with_highlight(None);
    assert_eq!(rows(&text), strings(&[""]));
    assert!(!text.is_highlighted());
    let text = Text::with_highlight(Some(RustSyntax {}));
    assert!(text.is_highlighted());
}

#[test]
fn load_splits_the_text_into_rows() {
    let text = text_of("let a\nb");
    assert_eq!(rows(&text), strings(&["let a", "b"]));
    assert_eq!(text.len(), 2);
}

#[test]
fn load_highlights_the_rows() {
    let text = text_of("let a\n// b");
    assert_eq!(
        tags(&text),
        vec![
            vec![
                HighlightType::Keyword,
                HighlightType::Keyword,
                HighlightType::Keyword,
                HighlightType::Standard,
                HighlightType::Identity,
            ],
            vec![HighlightType::Comment; 4],
        ]
    );
}

#[test]
fn load_of_the_empty_text_gives_one_empty_row() {
    let text = text_of("");
    assert_eq!(rows(&text), strings(&[""]));
}

#[test]
fn load_of_a_failed_read_gives_one_empty_row() {
    let mut text = text_of("a\nb");
    text.load(Err(std::io::Error::new(std::io::ErrorKind::NotFound, "missing")));
    assert_eq!(rows(&text), strings(&[""]));
    assert_eq!(tags(&text), vec![Vec::<HighlightType>::new()]);
}

#[test]
fn load_replaces_what_was_there() {
    let mut text = text_of("a\nb\nc");
    text.load(Ok(String::from("x")));
    assert_eq!(rows(&text), strings(&["x"]));
}

#[test]
fn load_takes_line_breaks_of_both_kinds() {
    let text = text_of("a\r\nb\nc\r\n");
    assert_eq!(rows(&text), strings(&["a", "b", "c"]));
}

#[test]
fn load_keeps_a_highlighter_away_where_there_was_none() {
    let mut text = Text::with_highlight(None);
    text.load(Ok(String::from("let a")));
    assert_eq!(rows(&text), strings(&["let a"]));
    assert_eq!(tags(&text), vec![Vec::<HighlightType>::new()]);
}

#[test]
fn reset_leaves_one_empty_row() {
    let mut text = text_of("a\nb");
    text.reset();
    assert_eq!(rows(&text), strings(&[""]));
    assert_eq!(tags(&text), vec![Vec::<HighlightType>::new()]);
    assert!(text.is_highlighted());
}

#[test]
fn save_joins_the_rows_with_line_breaks() {
    assert_eq!(text_of("a\nb").save(), b"a\nb");
    assert_eq!(text_of("a").save(), b"a");
    assert_eq!(Text::new().save(), b"");
    assert_eq!(text_of("a\n\nb").save(), b"a\n\nb");
}

#[test]
fn save_gives_back_what_was_loaded() {
    let contents = ["", "a", "fn main() {\n    let x = 1;\n}", "a\n\n\nb", "\na", "a\rb", "é\n€"];
    for content in contents {
        assert_eq!(text_of(content).save(), content.as_bytes(), "{:?}", content);
    }
}

#[test]
fn save_drops_a_last_line_break_and_carriage_returns_of_line_breaks() {
    assert_eq!(text_of("a\n").save(), b"a");
    assert_eq!(text_of("a\r\nb").save(), b"a\nb");
}

#[test]
fn save_leaves_the_buffer_as_it_is() {
    let text = text_of("let a\nb");
    let before = (rows(&text), tags(&text));
    text.save();
    assert_eq!((rows(&text), tags(&text)), before);
}

#[test]
fn tab_insertion() {
    let mut text = Text::new();
    let mut cursor = Cursor::new((80, 24));
    text.insert_char('\t', &mut cursor);
    assert_eq!(rows(&text), strings(&["    "]));
    assert_eq!(cursor.get_position(), (4, 0));
}

#[test]
fn insert_char_puts_the_character_at_the_cursor() {
    let mut text = text_of("ac\nxy");
    let mut cursor = cursor_at(1, 0);
    text.insert_char('b', &mut cursor);
    assert_eq!(rows(&text), strings(&["abc", "xy"]));
    assert_eq!(cursor.get_position(), (2, 0));
    cursor.set_position(2, 1);
    text.insert_char('z', &mut cursor);
    assert_eq!(rows(&text), strings(&["abc", "xyz"]));
    assert_eq!(cursor.get_position(), (3, 1));
}

#[test]
fn insert_char_puts_a_tab_as_four_spaces_inside_a_row() {
    let mut text = text_of("ab");
    let mut cursor = cursor_at(1, 0);
    text.insert_char('\t', &mut cursor);
    assert_eq!(rows(&text), strings(&["a    b"]));
    assert_eq!(cursor.get_position(), (5, 0));
}

#[test]
fn insert_char_puts_all_bytes_of_a_character_and_moves_one_column() {
    let mut text = text_of("ab");
    let mut cursor = cursor_at(1, 0);
    text.insert_char('é', &mut cursor);
    assert_eq!(rows(&text), strings(&["aéb"]));
    assert_eq!(text.line_len(0), 4);
    assert_eq!(cursor.get_position(), (2, 0));
}

#[test]
fn insert_char_highlights_anew() {
    let mut text = text_of("le");
    assert_eq!(tags(&text), vec![vec![HighlightType::Identity; 2]]);
    let mut cursor = cursor_at(2, 0);
    text.insert_char('t', &mut cursor);
    assert_eq!(tags(&text), vec![vec![HighlightType::Keyword; 3]]);
}

#[test]
fn insert_char_sets_the_column_aimed_for() {
    let mut text = text_of("abcdef\nxy\nabcdef");
    let mut cursor = cursor_at(6, 0);
    cursor.move_cursor(&text, editor_core::cursor::Direction::Down);
    assert_eq!(cursor.get_position(), (2, 1));
    text.insert_char('z', &mut cursor);
    assert_eq!(cursor.get_position(), (3, 1));
    cursor.move_cursor(&text, editor_core::cursor::Direction::Down);
    assert_eq!(cursor.get_position(), (3, 2));
}

#[test]
fn split_on_newline() {
    let mut text = text_of("abcd");
    let mut cursor = cursor_at(2, 0);
    text.new_line(&mut cursor);
    assert_eq!(rows(&text), strings(&["ab", "cd"]));
    assert_eq!(cursor.get_position(), (0, 1));
}

#[test]
fn new_line_at_the_ends_of_a_row() {
    let mut text = text_of("ab\ncd");
    let mut cursor = cursor_at(0, 0);
    text.new_line(&mut cursor);
    assert_eq!(rows(&text), strings(&["", "ab", "cd"]));
    assert_eq!(cursor.get_position(), (0, 1));
    cursor.set_position(2, 1);
    text.new_line(&mut cursor);
    assert_eq!(rows(&text), strings(&["", "ab", "", "cd"]));
    assert_eq!(cursor.get_position(), (0, 2));
}

#[test]
fn new_line_highlights_anew() {
    let mut text = text_of("letx");
    let mut cursor = cursor_at(3, 0);
    text.new_line(&mut cursor);
    assert_eq!(
        tags(&text),
        vec![vec![HighlightType::Keyword; 3], vec![HighlightType::Identity; 1]]
    );
}

#[test]
fn merge_on_backspace_at_line_start() {
    let mut text = text_of("ab\ncd");
    let mut cursor = cursor_at(0, 1);
    text.delete_char(&mut cursor);
    assert_eq!(rows(&text), strings(&["abcd"]));
    assert_eq!(cursor.get_position(), (2, 0));
}

#[test]
fn delete_char_takes_the_byte_before_the_cursor() {
    let mut text = text_of("abc\nxyz");
    let mut cursor = cursor_at(2, 0);
    text.delete_char(&mut cursor);
    assert_eq!(rows(&text), strings(&["ac", "xyz"]));
    assert_eq!(cursor.get_position(), (1, 0));
    cursor.set_position(3, 1);
    text.delete_char(&mut cursor);
    assert_eq!(rows(&text), strings(&["ac", "xy"]));
    assert_eq!(cursor.get_position(), (2, 1));
}

#[test]
fn delete_char_at_the_start_of_the_document_does_nothing() {
    let mut text = text_of("ab\ncd");
    let mut cursor = cursor_at(0, 0);
    text.delete_char(&mut cursor);
    assert_eq!(rows(&text), strings(&["ab", "cd"]));
    assert_eq!(cursor.get_position(), (0, 0));
}

#[test]
fn delete_char_merges_the_middle_rows() {
    let mut text = text_of("a\nb\nc\nd");
    let mut cursor = cursor_at(0, 2);
    text.delete_char(&mut cursor);
    assert_eq!(rows(&text), strings(&["a", "bc", "d"]));
    assert_eq!(cursor.get_position(), (1, 1));
}

#[test]
fn delete_char_merges_an_empty_row() {
    let mut text = text_of("ab\n\ncd");
    let mut cursor = cursor_at(0, 1);
    text.delete_char(&mut cursor);
    assert_eq!(rows(&text), strings(&["ab", "cd"]));
    assert_eq!(cursor.get_position(), (2, 0));
}

#[test]
fn delete_char_highlights_anew() {
    let mut text = text_of("le\nt");
    let mut cursor = cursor_at(0, 1);
    text.delete_char(&mut cursor);
    assert_eq!(tags(&text), vec![vec![HighlightType::Keyword; 3]]);
}

#[test]
fn new_line_and_delete_char_undo_each_other() {
    let mut text = text_of("fn main() {}");
    let mut cursor = cursor_at(5, 0);
    text.new_line(&mut cursor);
    text.delete_char(&mut cursor);
    assert_eq!(rows(&text), strings(&["fn main() {}"]));
    assert_eq!(cursor.get_position(), (5, 0));
}

#[test]
fn edits_keep_one_tag_for_each_byte() {
    let mut text = Text::new();
    let mut cursor = Cursor::new((80, 24));
    for c in "fn f() {\t/* x".chars() {
        text.insert_char(c, &mut cursor);
        assert_aligned(&text);
    }
    text.new_line(&mut cursor);
    assert_aligned(&text);
    for c in "*/ let s = \"é\";".chars() {
        text.insert_char(c, &mut cursor);
        assert_aligned(&text);
    }
    for _ in 0..6 {
        text.delete_char(&mut cursor);
        assert_aligned(&text);
    }
    cursor.set_position(0, 1);
    text.delete_char(&mut cursor);
    assert_aligned(&text);
    cursor.set_position(3, 0);
    text.new_line(&mut cursor);
    assert_aligned(&text);
    assert_eq!(text.len(), 2);
}

#[test]
fn edits_without_a_highlighter_leave_the_tags() {
    let mut text = Text::with_highlight(None);
    let mut cursor = Cursor::new((80, 24));
    text.insert_char('a', &mut cursor);
    text.new_line(&mut cursor);
    text.insert_char('b', &mut cursor);
    assert_eq!(rows(&text), strings(&["a", "b"]));
    assert_eq!(tags(&text), vec![Vec::<HighlightType>::new(); 2]);
    cursor.set_position(0, 1);
    text.delete_char(&mut cursor);
    assert_eq!(rows(&text), strings(&["ab"]));
    assert_eq!(tags(&text), vec![Vec::<HighlightType>::new()]);
}

#[test]
fn update_syntax_takes_search_marks_away() {
    let mut text = text_of("let");
    text.highlight_match(0, 1, 2);
    assert_eq!(
        tags(&text),
        vec![vec![
            HighlightType::Keyword,
            HighlightType::SearchResult,
            HighlightType::SearchResult
        ]]
    );
    text.update_syntax();
    assert_eq!(tags(&text), vec![vec![HighlightType::Keyword; 3]]);
    text.update_syntax();
    assert_eq!(tags(&text), vec![vec![HighlightType::Keyword; 3]]);
}

#[test]
fn find_phrase_looks_in_one_row() {
    let text = text_of("abab\nxxab");
    assert_eq!(text.find_phrase("ab", 0, 0), Some(0));
    assert_eq!(text.find_phrase("ab", 0, 1), Some(1));
    assert_eq!(text.find_phrase("ab", 0, 3), None);
    assert_eq!(text.find_phrase("ab", 1, 0), Some(2));
    assert_eq!(text.find_phrase("ab", 1, 4), None);
    assert_eq!(text.find_phrase("b\nx", 0, 0), None);
}

#[test]
fn line_len_is_zero_for_a_row_that_is_not_there() {
    let text = text_of("abc\nde");
    assert_eq!(text.line_len(0), 3);
    assert_eq!(text.line_len(1), 2);
    assert_eq!(text.line_len(2), 0);
    assert_eq!(text.line_len(usize::MAX), 0);
}

#[test]
fn get_line_gives_a_row_that_is_there() {
    let text = text_of("abc\nde");
    assert_eq!(text.get_line(1).unwrap().as_bytes(), b"de");
    assert!(text.get_line(2).is_none());
}

#[test]
fn print_line_draws_the_window_of_the_row() {
    let text = text_of("x\nlet a");
    assert_eq!(
        text.print_line(1, 2, 5),
        vec![
            PrintCommand::SetForeground(Colour::Blue),
            PrintCommand::Print(b't'),
            PrintCommand::SetForeground(Colour::Reset),
            PrintCommand::Print(b' '),
            PrintCommand::SetForeground(Colour::Cyan),
            PrintCommand::Print(b'a'),
            PrintCommand::SetForeground(Colour::Reset),
        ]
    );
}

#[test]
fn print_line_of_a_row_that_is_not_there_draws_nothing() {
    let text = text_of("x");
    assert_eq!(text.print_line(1, 0, 10), Vec::<PrintCommand>::new());
}

#[test]
fn print_line_without_a_highlighter_uses_no_colour() {
    let mut text = Text::with_highlight(None);
    text.load(Ok(String::from("let")));
    assert_eq!(
        text.print_line(0, 0, 10),
        vec![
            PrintCommand::Print(b'l'),
            PrintCommand::Print(b'e'),
            PrintCommand::Print(b't'),
            PrintCommand::SetForeground(Colour::Reset),
        ]
    );
}

#[test]
fn print_line_draws_a_search_mark_in_its_colour() {
    let mut text = text_of("ab");
    text.highlight_match(0, 1, 1);
    assert_eq!(
        text.print_line(0, 0, 2),
        vec![
            PrintCommand::SetForeground(Colour::Cyan),
            PrintCommand::Print(b'a'),
            PrintCommand::SetForeground(Colour::Magenta),
            PrintCommand::Print(b'b'),
            PrintCommand::SetForeground(Colour::Reset),
        ]
    );
}

#[test]
fn is_addressable_up_to_the_limits_of_a_cursor() {
    let mut text = text_of(&"a".repeat(65535));
    assert!(text.is_addressable());
    text.load(Ok("a".repeat(65536)));
    assert!(!text.is_addressable());
    text.load(Ok("\n".repeat(65536)));
    assert_eq!(text.len(), 65536);
    assert!(text.is_addressable());
    text.load(Ok("\n".repeat(65537)));
    assert!(!text.is_addressable());
}
