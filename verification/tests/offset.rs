//! Tests of the offset resolver and its inverse.

use cpp_linter::common_fs::{get_line_cols_from_offset, get_offset_from_line_col};
use cpp_linter::lint_error::LintError;

#[test]
fn resolve_single_byte_content() {
    let content = b"hello\nworld";
    // columns are 1-indexed on every line, the first included
    assert_eq!(get_line_cols_from_offset(content, 0), Ok((1, 1)));
    assert_eq!(get_line_cols_from_offset(content, 3), Ok((1, 4)));
    // offset 8 points at 'r', the third character of line 2
    assert_eq!(get_line_cols_from_offset(content, 8), Ok((2, 3)));
    // the same position on the first line earns the same column
    assert_eq!(get_line_cols_from_offset(b"world", 2), Ok((1, 3)));
}

#[test]
fn resolve_multi_byte_content() {
    let text = "h\u{e9}llo\nw\u{f6}rld";
    let content = text.as_bytes();
    // the byte offset of 'r' counts the two-byte characters fully ...
    let r_offset = text.find('r').unwrap();
    assert_eq!(r_offset, 10);
    // ... but the column counts characters, not bytes
    assert_eq!(get_line_cols_from_offset(content, r_offset), Ok((2, 3)));
}

#[test]
fn invalid_offset_is_rejected() {
    let content = b"abc";
    assert_eq!(
        get_line_cols_from_offset(content, 4),
        Err(LintError::InvalidOffset)
    );
    assert!(get_line_cols_from_offset(content, 3).is_ok());
}

#[test]
fn round_trip_single_and_multi_byte() {
    let ascii = b"alpha\nbeta\ngamma";
    for offset in 0..=ascii.len() {
        let (line, cols) = get_line_cols_from_offset(ascii, offset).unwrap();
        assert_eq!(get_offset_from_line_col(ascii, line, cols), offset);
    }
    let text = "h\u{e9}llo\nw\u{f6}rld\n\u{1f600} end";
    let bytes = text.as_bytes();
    for (offset, _) in text.char_indices() {
        let (line, cols) = get_line_cols_from_offset(bytes, offset).unwrap();
        assert_eq!(get_offset_from_line_col(bytes, line, cols), offset);
    }
}
