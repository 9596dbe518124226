use ferro::error::{CompileError, Pos, Span};

#[test]
fn test_error_report_with_span() {
    let source = "let x = 42;\nlet y = ???;\n";
    let span = Span::new(
        Pos { offset: 20, line: 2, column: 9 },
        Pos { offset: 23, line: 2, column: 12 },
    );
    let err = CompileError::new("unexpected token '???'", span);
    let report = err.report_text(source, "test.ferro");
    assert_eq!(err.message, "unexpected token '???'");
    assert_eq!(
        report,
        "error: unexpected token '???' --> test.ferro:2:9\n  |\n  | let y = ???;\n  |         ^^^\n"
    );
}

#[test]
fn test_error_without_span() {
    let err = CompileError::no_span("something went wrong");
    let report = err.report_text("", "test.ferro");
    assert_eq!(err.message, "something went wrong");
    assert_eq!(report, "error: something went wrong\n");
}

#[test]
fn report_marks_at_least_one_column() {
    let span = Span::new(Pos { offset: 0, line: 1, column: 1 }, Pos { offset: 0, line: 1, column: 1 });
    let err = CompileError::new("empty", span);
    assert_eq!(err.report_text("abc", "f.ferro"), "error: empty --> f.ferro:1:1\n  |\n  | abc\n  | ^\n");
}

#[test]
fn report_without_the_line_shows_only_the_place() {
    let span = Span::new(Pos { offset: 0, line: 5, column: 2 }, Pos { offset: 0, line: 5, column: 4 });
    let err = CompileError::new("far away", span);
    assert_eq!(err.report_text("one\ntwo\n", "f.ferro"), "error: far away --> f.ferro:5:2\n");
}

#[test]
fn report_drops_carriage_return_of_the_line() {
    let span = Span::new(Pos { offset: 0, line: 2, column: 1 }, Pos { offset: 0, line: 2, column: 3 });
    let err = CompileError::new("crlf", span);
    assert_eq!(err.report_text("a\r\nbc\r\nd", "f.ferro"), "error: crlf --> f.ferro:2:1\n  |\n  | bc\n  | ^^\n");
}
