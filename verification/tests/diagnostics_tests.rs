use ferro::diagnostics::{
    check_source, classify_header_line, diagnostics_to_lsp, error_to_json, header_end, header_step,
    json_get_content_change_text, json_get_nested_string, json_get_number, json_get_string, lsp_convertible_text,
    lsp_frame, lsp_handle, unreadable_file_json, HeaderLine, HeaderStep, LspAction,
};
use ferro::error::{CompileError, Pos, Span};

fn span(line: usize, col: usize, end_line: usize, end_col: usize) -> Span {
    Span::new(Pos { offset: 0, line, column: col }, Pos { offset: 0, line: end_line, column: end_col })
}

fn sent(a: Option<LspAction>) -> String {
    match a {
        Some(LspAction::Send(m)) => m,
        _ => panic!("expected a message to send"),
    }
}

// ── error_to_json ────────────────────────────────────────

#[test]
fn error_json_escapes_and_widens_the_end() {
    let e = CompileError::new("bad \"x\" \\ here", span(2, 3, 2, 3));
    assert_eq!(
        error_to_json(&e),
        r#"{"message":"bad \"x\" \\ here","line":2,"column":3,"end_line":2,"end_column":4}"#
    );
}

#[test]
fn error_json_keeps_a_later_end() {
    let e = CompileError::new("m", span(1, 2, 3, 9));
    assert_eq!(error_to_json(&e), r#"{"message":"m","line":1,"column":2,"end_line":3,"end_column":9}"#);
}

#[test]
fn error_json_without_span() {
    let e = CompileError::no_span("lost");
    assert_eq!(error_to_json(&e), r#"{"message":"lost","line":1,"column":1,"end_line":1,"end_column":2}"#);
}

// ── JSON lookups ─────────────────────────────────────────

#[test]
fn get_string_finds_the_method() {
    assert_eq!(json_get_string(r#"{"jsonrpc":"2.0","method":"initialize","id":1}"#, "method"), Some("initialize".to_string()));
}

#[test]
fn get_string_undoes_escapes() {
    assert_eq!(json_get_string(r#"{"a" : "x\"y\\z\n"}"#, "a"), Some("x\"y\\z\n".to_string()));
}

#[test]
fn get_string_of_a_number_is_none() {
    assert_eq!(json_get_string(r#"{"a":12}"#, "a"), None);
    assert_eq!(json_get_string(r#"{"b":"x"}"#, "a"), None);
}

#[test]
fn get_number_reads_signed_values() {
    assert_eq!(json_get_number(r#"{"id": -17, "x":3}"#, "id"), Some(-17));
    assert_eq!(json_get_number(r#"{"id":9223372036854775807}"#, "id"), Some(i64::MAX));
    assert_eq!(json_get_number(r#"{"id":9223372036854775808}"#, "id"), None);
    assert_eq!(json_get_number(r#"{"id":"7"}"#, "id"), None);
    assert_eq!(json_get_number(r#"{"x":7}"#, "id"), None);
}

#[test]
fn get_nested_string_looks_inside_the_object() {
    let body = r#"{"uri":"outer","textDocument":{"uri":"file:///a.ferro","text":"fn main() {}"}}"#;
    assert_eq!(json_get_nested_string(body, "textDocument", "uri"), Some("file:///a.ferro".to_string()));
    assert_eq!(json_get_nested_string(body, "textDocument", "text"), Some("fn main() {}".to_string()));
    assert_eq!(json_get_nested_string(body, "missing", "uri"), None);
}

#[test]
fn content_change_text_is_the_first_change() {
    let body = r#"{"textDocument":{"uri":"u"},"contentChanges":[{"text":"abc"},{"text":"def"}]}"#;
    assert_eq!(json_get_content_change_text(body), Some("abc".to_string()));
    assert_eq!(json_get_content_change_text(r#"{"text":"abc"}"#), None);
}

// ── Conversion to LSP diagnostics ────────────────────────

#[test]
fn empty_diagnostics_stay_empty() {
    assert_eq!(diagnostics_to_lsp("[]"), "[]");
}

#[test]
fn one_diagnostic_becomes_zero_based() {
    let check = r#"[{"message":"oops \"q\"","line":2,"column":5,"end_line":2,"end_column":9}]"#;
    assert!(lsp_convertible_text(check));
    assert_eq!(
        diagnostics_to_lsp(check),
        r#"[{"range":{"start":{"line":1,"character":4},"end":{"line":1,"character":8}},"severity":1,"source":"ferro","message":"oops \"q\""}]"#
    );
}

#[test]
fn two_diagnostics_are_split_and_defaults_fill_in() {
    let check = r#"[{"message":"a","line":1,"column":1},{"message":"b","line":0}]"#;
    assert_eq!(
        diagnostics_to_lsp(check),
        r#"[{"range":{"start":{"line":0,"character":0},"end":{"line":0,"character":1}},"severity":1,"source":"ferro","message":"a"},{"range":{"start":{"line":0,"character":0},"end":{"line":0,"character":1}},"severity":1,"source":"ferro","message":"b"}]"#
    );
}

#[test]
fn an_unreadable_diagnostic_is_not_convertible() {
    assert!(!lsp_convertible_text("["));
    assert!(!lsp_convertible_text(r#"[{"message":"a","column":9223372036854775807}]"#));
    assert!(lsp_convertible_text("[]"));
}

// ── check_source ─────────────────────────────────────────

#[test]
fn a_good_program_has_no_diagnostics() {
    assert_eq!(check_source("fn main() { let x: i64 = 1; print(x); }"), Some("[]".to_string()));
}

#[test]
fn a_lexer_error_is_reported() {
    assert_eq!(
        check_source("fn main() { @ }"),
        Some(r#"[{"message":"unexpected character '@'","line":1,"column":13,"end_line":1,"end_column":14}]"#.to_string())
    );
}

#[test]
fn a_type_error_is_reported() {
    let r = check_source("fn main() { let x: i64 = true; }").unwrap();
    assert!(r.starts_with(r#"[{"message":""#));
    assert!(r.contains(r#""line":1"#));
}

#[test]
fn unreadable_file_diagnostic() {
    assert_eq!(
        unreadable_file_json("no such file"),
        r#"[{"message":"could not read file: no such file","line":1,"column":1,"end_line":1,"end_column":1}]"#
    );
}

// ── The language server ──────────────────────────────────

#[test]
fn initialize_reports_capabilities() {
    let m = sent(lsp_handle(r#"{"jsonrpc":"2.0","id":1,"method":"initialize","params":{}}"#));
    assert_eq!(
        m,
        r#"{"jsonrpc":"2.0","id":1,"result":{"capabilities":{"textDocumentSync":1,"diagnosticProvider":{"interFileDependencies":false,"workspaceDiagnostics":false}},"serverInfo":{"name":"ferro-lsp","version":"0.1.0"}}}"#
    );
}

#[test]
fn initialized_is_logged() {
    match lsp_handle(r#"{"jsonrpc":"2.0","method":"initialized","params":{}}"#) {
        Some(LspAction::Log(m)) => assert_eq!(m, "Ferro LSP initialized"),
        _ => panic!("expected a log line"),
    }
}

#[test]
fn opening_a_document_publishes_its_diagnostics() {
    let body = r#"{"jsonrpc":"2.0","method":"textDocument/didOpen","params":{"textDocument":{"uri":"file:///a.ferro","languageId":"ferro","version":1,"text":"fn main() { @ }"}}}"#;
    assert_eq!(
        sent(lsp_handle(body)),
        r#"{"jsonrpc":"2.0","method":"textDocument/publishDiagnostics","params":{"uri":"file:///a.ferro","diagnostics":[{"range":{"start":{"line":0,"character":12},"end":{"line":0,"character":13}},"severity":1,"source":"ferro","message":"unexpected character '@'"}]}}"#
    );
}

#[test]
fn changing_a_document_publishes_its_new_diagnostics() {
    let body = r#"{"jsonrpc":"2.0","method":"textDocument/didChange","params":{"textDocument":{"uri":"file:///a.ferro","version":2},"contentChanges":[{"text":"fn main() {}"}]}}"#;
    assert_eq!(
        sent(lsp_handle(body)),
        r#"{"jsonrpc":"2.0","method":"textDocument/publishDiagnostics","params":{"uri":"file:///a.ferro","diagnostics":[]}}"#
    );
}

#[test]
fn closing_a_document_clears_its_diagnostics() {
    let body = r#"{"jsonrpc":"2.0","method":"textDocument/didClose","params":{"textDocument":{"uri":"file:///b.ferro"}}}"#;
    assert_eq!(
        sent(lsp_handle(body)),
        r#"{"jsonrpc":"2.0","method":"textDocument/publishDiagnostics","params":{"uri":"file:///b.ferro","diagnostics":[]}}"#
    );
}

#[test]
fn shutdown_and_unknown_requests_get_null() {
    assert_eq!(sent(lsp_handle(r#"{"method":"shutdown","id":4}"#)), r#"{"jsonrpc":"2.0","id":4,"result":null}"#);
    assert_eq!(sent(lsp_handle(r#"{"method":"shutdown"}"#)), r#"{"jsonrpc":"2.0","id":0,"result":null}"#);
    assert_eq!(sent(lsp_handle(r#"{"method":"textDocument/hover","id":7}"#)), r#"{"jsonrpc":"2.0","id":7,"result":null}"#);
    assert!(matches!(lsp_handle(r#"{"method":"$/cancelRequest"}"#), Some(LspAction::Ignore)));
}

#[test]
fn exit_stops_the_server() {
    assert!(matches!(lsp_handle(r#"{"jsonrpc":"2.0","method":"exit"}"#), Some(LspAction::Exit)));
}

#[test]
fn an_unreadable_method_has_no_action() {
    assert!(lsp_handle(r#"{"method":"abc\"#).is_none());
}

#[test]
fn header_lines_are_classified() {
    assert!(matches!(classify_header_line("Content-Length: 42"), HeaderLine::Length(42)));
    assert!(matches!(classify_header_line("Content-Length:  7 "), HeaderLine::Length(7)));
    assert!(matches!(classify_header_line("Content-Length: x"), HeaderLine::BadLength));
    assert!(matches!(classify_header_line("Content-Type: json"), HeaderLine::Other));
    assert!(matches!(classify_header_line(""), HeaderLine::End));
}

#[test]
fn a_header_ends_with_its_length() {
    let mut length = 0;
    for line in ["Content-Length: 12", "Content-Type: application/json", ""] {
        match header_step(length, line) {
            HeaderStep::Continue(n) => length = n,
            HeaderStep::Done(r) => {
                assert_eq!(r, Some(12));
                return;
            },
        }
    }
    panic!("header did not end");
}

#[test]
fn a_header_without_length_gives_nothing() {
    assert!(matches!(header_step(0, ""), HeaderStep::Done(None)));
    assert!(matches!(header_step(5, "Content-Length: -1"), HeaderStep::Done(None)));
    assert_eq!(header_end(0), None);
    assert_eq!(header_end(3), Some(3));
}

#[test]
fn frames_count_bytes() {
    assert_eq!(lsp_frame("{}"), "Content-Length: 2\r\n\r\n{}");
    assert_eq!(lsp_frame("h\u{e9}llo \u{20ac}\u{1f600}"), "Content-Length: 14\r\n\r\nh\u{e9}llo \u{20ac}\u{1f600}");
}
