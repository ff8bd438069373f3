use tcrf::span::{SourceFile, Span};

#[test]
fn line_col_basic() {
    let f = SourceFile::new("t.tcrf", "abc\ndef\n");
    assert_eq!(f.line_col(0), (1, 1));
    assert_eq!(f.line_col(2), (1, 3));
    assert_eq!(f.line_col(4), (2, 1));
    assert_eq!(f.line_col(6), (2, 3));
}

#[test]
fn line_col_multibyte() {
    let f = SourceFile::new("t.tcrf", "あい\nx");
    // "あ" takes 3 bytes: offset 3 starts the second character, column 2
    assert_eq!(f.line_col(3), (1, 2));
    assert_eq!(f.line_col(7), (2, 1));
}

#[test]
fn line_text_strips_newline() {
    let f = SourceFile::new("t.tcrf", "abc\r\ndef");
    assert_eq!(f.line_text(1), "abc");
    assert_eq!(f.line_text(2), "def");
}

#[test]
fn merge_covers_both_spans() {
    let a = Span::new(3, 5);
    let b = Span::new(1, 4);
    let m = a.merge(b);
    assert_eq!((m.start, m.end), (1, 5));
    let n = b.merge(a);
    assert_eq!((n.start, n.end), (1, 5));
}

#[test]
fn line_col_past_end_is_last_line() {
    let f = SourceFile::new("t.tcrf", "ab\ncd");
    assert_eq!(f.line_col(5), (2, 3));
}

#[test]
fn the_line_after_a_final_newline_is_empty() {
    let f = SourceFile::new("t.tcrf", "abc\ndef\n");
    assert_eq!(f.line_text(2), "def");
    assert_eq!(f.line_text(3), "");
}
