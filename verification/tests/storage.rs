use editor_core::line::Line;
use editor_core::storage::join_into_bytes;
use editor_core::storage::split_into_lines;

fn rows(bytes: &[u8]) -> Vec<Vec<u8>> {
    split_into_lines(bytes).iter().map(|line| line.as_bytes().to_vec()).collect()
}

fn joined(rows: &[&str]) -> Vec<u8> {
    let lines: Vec<Line> = rows.iter().map(|row| Line::new(String::from(*row))).collect();
    join_into_bytes(&lines)
}

#[test]
fn split_at_each_line_break() {
    assert_eq!(rows(b"ab\ncd"), vec![b"ab".to_vec(), b"cd".to_vec()]);
    assert_eq!(rows(b"a\n\nb"), vec![b"a".to_vec(), b"".to_vec(), b"b".to_vec()]);
    assert_eq!(rows(b"a"), vec![b"a".to_vec()]);
}

#[test]
fn split_of_the_empty_text_has_no_rows() {
    assert!(rows(b"").is_empty());
}

#[test]
fn split_takes_a_last_line_break_for_the_end_of_the_last_row() {
    assert_eq!(rows(b"a\n"), vec![b"a".to_vec()]);
    assert_eq!(rows(b"a\n\n"), vec![b"a".to_vec(), b"".to_vec()]);
    assert_eq!(rows(b"\n"), vec![b"".to_vec()]);
}

#[test]
fn split_takes_a_carriage_return_before_a_line_break_away() {
    assert_eq!(rows(b"a\r\nb"), vec![b"a".to_vec(), b"b".to_vec()]);
    assert_eq!(rows(b"a\r\n"), vec![b"a".to_vec()]);
    assert_eq!(rows(b"\r\n"), vec![b"".to_vec()]);
    assert_eq!(rows(b"a\r\r\nb"), vec![b"a\r".to_vec(), b"b".to_vec()]);
}

#[test]
fn split_keeps_other_carriage_returns() {
    assert_eq!(rows(b"a\rb\nc"), vec![b"a\rb".to_vec(), b"c".to_vec()]);
    assert_eq!(rows(b"a\r"), vec![b"a\r".to_vec()]);
    assert_eq!(rows(b"\ra\n"), vec![b"\ra".to_vec()]);
}

#[test]
fn split_agrees_with_the_lines_of_std() {
    let texts = ["", "a", "a\n", "\n", "\n\n", "a\r\nb\r\n", "a\rb", "x\n\ny\r", "\r\n\r\n", "é\nü"];
    for text in texts {
        let expected: Vec<Vec<u8>> = text.lines().map(|row| row.as_bytes().to_vec()).collect();
        assert_eq!(rows(text.as_bytes()), expected, "{:?}", text);
    }
}

#[test]
fn split_rows_have_no_tags() {
    for line in split_into_lines(b"let a\nlet b") {
        assert!(line.highlight_types().is_empty());
    }
}

#[test]
fn join_puts_one_line_break_between_rows() {
    assert_eq!(joined(&["ab", "cd"]), b"ab\ncd");
    assert_eq!(joined(&["a", "", "b"]), b"a\n\nb");
    assert_eq!(joined(&["a"]), b"a");
    assert_eq!(joined(&[""]), b"");
    assert_eq!(joined(&["", ""]), b"\n");
    assert_eq!(joined(&[]), b"");
}

#[test]
fn join_gives_back_what_was_split() {
    let texts: [&[u8]; 6] = [b"a", b"a\nb", b"a\n\nb", b"\na", b"fn main() {\n    let x = 1;\n}", b"a\rb\nc\r"];
    for text in texts {
        assert_eq!(join_into_bytes(&split_into_lines(text)), text);
    }
}
