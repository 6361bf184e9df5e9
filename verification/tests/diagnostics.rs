use lexer::error_handling::{Error, ErrorType};
use lexer::text::{push_decimal, push_repeated};

#[test]
fn kind_names() {
    assert_eq!(ErrorType::MissingArgument.name(), "MissingArgument");
    assert_eq!(ErrorType::IoError.name(), "IoError");
    assert_eq!(ErrorType::LexingError.name(), "LexingError");
    assert_eq!(ErrorType::ParsingError.name(), "ParsingError");
}

#[test]
fn new_error_has_nothing_set() {
    let e = Error::new(ErrorType::ParsingError);
    assert_eq!(e.err_type(), ErrorType::ParsingError);
    assert_eq!(e.line(), None);
    assert_eq!(e.column(), None);
    assert_eq!(e.length(), None);
    assert_eq!(e.file_path(), None);
    assert_eq!(e.message(), "An error occured!");
}

#[test]
fn builders_set_one_field_each() {
    let e = Error::new(ErrorType::LexingError).with_line(3);
    assert_eq!((e.line(), e.column(), e.length(), e.file_path()), (Some(3), None, None, None));
    let e = Error::new(ErrorType::LexingError).with_column(4);
    assert_eq!((e.line(), e.column(), e.length(), e.file_path()), (None, Some(4), None, None));
    let e = Error::new(ErrorType::LexingError).with_length(5);
    assert_eq!((e.line(), e.column(), e.length(), e.file_path()), (None, None, Some(5), None));
    let e = Error::new(ErrorType::LexingError).with_file_path("a/b");
    assert_eq!(
        (e.line(), e.column(), e.length(), e.file_path()),
        (None, None, None, Some("a/b".to_string()))
    );
    let e = Error::new(ErrorType::IoError).with_message("gone".to_string());
    assert_eq!(e.message(), "gone");
    assert_eq!(e.err_type(), ErrorType::IoError);
}

#[test]
fn later_builder_calls_replace_earlier_ones() {
    let e = Error::new(ErrorType::LexingError).with_line(1).with_line(9).with_message(
        "a".to_string(),
    ).with_message("b".to_string());
    assert_eq!(e.line(), Some(9));
    assert_eq!(e.message(), "b");
}

#[test]
fn short_form_with_line_and_column() {
    let e = Error::new(ErrorType::LexingError).with_message("Unclosed string literal!".to_string())
        .with_line(12).with_column(7).with_file_path("f").with_length(3);
    assert_eq!(e.to_string(), "LexingError, Unclosed string literal! at line 12, column 7");
}

#[test]
fn short_form_without_anchor() {
    assert_eq!(Error::new(ErrorType::MissingArgument).to_string(), "MissingArgument, An error occured!");
    let e = Error::new(ErrorType::IoError).with_message("No such file".to_string());
    assert_eq!(e.to_string(), "IoError, No such file");
}

#[test]
fn short_form_renders_line_and_column_independently() {
    let e = Error::new(ErrorType::ParsingError).with_line(1000);
    assert_eq!(e.to_string(), "ParsingError, An error occured! at line 1000");
    let e = Error::new(ErrorType::ParsingError).with_column(0);
    assert_eq!(e.to_string(), "ParsingError, An error occured!, column 0");
}

#[test]
fn report_lists_what_is_present() {
    let e = Error::new(ErrorType::LexingError).with_message("Unexpected token! -> 'a$'".to_string())
        .with_line(2).with_column(5).with_file_path("src/x").with_length(2);
    assert_eq!(
        e.report("/abs/src/x"),
        "\n  Type: LexingError\n  Message: Unexpected token! -> 'a$'\n  file_path: '/abs/src/x'\n  Line: 2\n  Column: 5\n  Length: 2"
    );
    let e = Error::new(ErrorType::IoError);
    assert_eq!(e.report("ignored"), "\n  Type: IoError\n  Message: An error occured!");
    let e = Error::new(ErrorType::LexingError).with_column(3);
    assert_eq!(e.report(""), "\n  Type: LexingError\n  Message: An error occured!\n  Column: 3");
}

#[test]
fn anchor_line_defaults_to_one() {
    assert_eq!(Error::new(ErrorType::LexingError).anchor_line(), 1);
    assert_eq!(Error::new(ErrorType::LexingError).with_line(0).anchor_line(), 0);
    assert_eq!(Error::new(ErrorType::LexingError).with_line(17).anchor_line(), 17);
}

#[test]
fn caret_block_points_at_the_span() {
    let e = Error::new(ErrorType::LexingError).with_line(3).with_column(5).with_length(2);
    assert_eq!(
        e.caret_block(Ok("let 1a = 2;".to_string())),
        "\n 3 | let 1a = 2;\n         ^^\n"
    );
}

#[test]
fn caret_block_without_column_or_length() {
    let e = Error::new(ErrorType::LexingError);
    assert_eq!(e.caret_block(Ok("text".to_string())), "\n 1 | text\n    \n");
    let e = Error::new(ErrorType::LexingError).with_line(2).with_column(1);
    assert_eq!(e.caret_block(Ok("'x".to_string())), "\n 2 | 'x\n     \n");
}

#[test]
fn caret_block_shows_why_the_line_is_missing() {
    let e = Error::new(ErrorType::LexingError).with_line(40).with_column(0).with_length(3);
    assert_eq!(
        e.caret_block(Err("Line not found".to_string())),
        "\n 40 | Error reading line: Line not found\n    ^^^\n"
    );
}

#[test]
fn decimal_rendering() {
    for (n, text) in [
        (0usize, "0"),
        (7, "7"),
        (10, "10"),
        (99, "99"),
        (100, "100"),
        (1234567890, "1234567890"),
        (usize::MAX, &usize::MAX.to_string()),
    ] {
        let mut s = String::from("n=");
        push_decimal(&mut s, n);
        assert_eq!(s, format!("n={text}"));
    }
}

#[test]
fn repeated_characters() {
    let mut s = String::from("a");
    push_repeated(&mut s, '^', 3);
    push_repeated(&mut s, ' ', 0);
    push_repeated(&mut s, 'é', 2);
    assert_eq!(s, "a^^^éé");
}
