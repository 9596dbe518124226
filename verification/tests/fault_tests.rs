use ferro::error::CompileError;
use ferro::lexer::Lexer;
use ferro::parser::Parser;
use ferro::sema::checker::Checker;

/// Check a program with the given imported items; return the error, if any.
fn check_with(source: &str, imported: &[(String, bool)]) -> Result<(), CompileError> {
    let mut lexer = Lexer::new(source);
    let tokens = lexer.tokenize().expect("lexer error");
    let mut parser = Parser::new(tokens);
    let program = parser.parse_program().expect("parser error");
    let mut checker = Checker::new();
    checker.set_imported_privates(imported);
    checker.check_program(&program)
}

/// The error a program gets, which must exist.
fn error_of(source: &str) -> CompileError {
    match check_with(source, &[]) {
        Ok(()) => panic!("expected an error for {}", source),
        Err(e) => e,
    }
}

/// The 1-based column where `needle` first starts in a one-line source.
fn column_of(source: &str, needle: &str) -> usize {
    source.find(needle).expect("needle") + 1
}

#[test]
fn fault_undeclared_variable_exact() {
    let src = "fn main() { let x: i64 = y; }";
    let e = error_of(src);
    assert_eq!(e.message, "undeclared variable 'y'");
    let sp = e.span.expect("span");
    assert_eq!(sp.start.line, 1);
    assert_eq!(sp.start.column, column_of(src, "y;"));
}

#[test]
fn fault_break_outside_loop_exact() {
    let src = "fn main() { break; }";
    let e = error_of(src);
    assert_eq!(e.message, "break outside of loop");
    let sp = e.span.expect("span");
    assert_eq!(sp.start.column, column_of(src, "break"));
}

#[test]
fn fault_continue_outside_loop_exact() {
    let e = error_of("fn main() { continue; }");
    assert_eq!(e.message, "continue outside of loop");
}

#[test]
fn fault_break_inside_loop_is_fine() {
    assert!(check_with("fn main() { while true { break; } }", &[]).is_ok());
    assert!(check_with("fn main() { for i in 0..3 { continue; } }", &[]).is_ok());
}

#[test]
fn fault_comptime_division_by_zero_exact() {
    let src = "comptime let D = 7 / 0;\nfn main() { }";
    let e = error_of(src);
    assert_eq!(e.message, "division by zero in comptime");
    let sp = e.span.expect("span");
    assert_eq!((sp.start.line, sp.start.column), (1, 1));
}

#[test]
fn fault_comptime_modulo_and_unknown_name() {
    assert_eq!(error_of("comptime let D = 7 % 0;\nfn main() { }").message, "modulo by zero in comptime");
    assert_eq!(error_of("comptime let D = Q + 1;\nfn main() { }").message, "'Q' is not a comptime constant");
}

#[test]
fn fault_private_function_exact() {
    let src = "fn helper() { return; } fn main() { helper(); }";
    let e = check_with(src, &[("helper".to_string(), true)]).unwrap_err();
    assert_eq!(e.message, "function 'helper' is private in its module");
    assert!(check_with(src, &[("helper".to_string(), false)]).is_ok());
}

#[test]
fn fault_cast_messages_exact() {
    assert_eq!(error_of("fn main() { let x = 1 as f64; }").message, "unknown cast target type 'f64'");
    assert_eq!(error_of("fn main() { let x = 1 as i64; }").message, "cannot cast 'i64' to 'i64'");
    assert!(check_with("fn main() { let s = 1 as str; let n = s as i64; let b = n as bool; }", &[]).is_ok());
}

#[test]
fn fault_binary_operator_exact() {
    let src = "fn main() { let x = 1 + true; }";
    let e = error_of(src);
    assert_eq!(e.message, "cannot apply 'Add' to 'i64' and 'bool'");
    assert_eq!(e.span.expect("span").start.column, column_of(src, "1 +"));
    assert_eq!(error_of("fn main() { let x = 1 < true; }").message, "cannot compare 'i64' and 'bool'");
    assert_eq!(
        error_of("fn main() { let x = 1 == true; }").message,
        "cannot compare 'i64' and 'bool' for equality"
    );
}

#[test]
fn fault_argument_type_exact() {
    let e = error_of("fn add(a: i64, b: i64) -> i64 { return a + b; } fn main() { add(1, true); }");
    assert_eq!(e.message, "argument 2 of 'add': expected 'i64', got 'bool'");
}

#[test]
fn fault_argument_count_exact() {
    assert_eq!(error_of("fn main() { len(\"a\", \"b\"); }").message, "function 'len' takes 1 argument(s), got 2");
    assert_eq!(error_of("fn main() { print(1, 2); }").message, "print() takes 1 argument, got 2");
}

#[test]
fn fault_first_error_wins() {
    let e = error_of("fn main() { let a = p; let b = q; }");
    assert_eq!(e.message, "undeclared variable 'p'");
    let e = error_of("fn f() { let a = p; } fn main() { let b = q; }");
    assert_eq!(e.message, "undeclared variable 'p'");
}

#[test]
fn fault_condition_and_return_exact() {
    assert_eq!(error_of("fn main() { if 42 { 1; } }").message, "if condition must be 'bool', got 'i64'");
    assert_eq!(error_of("fn main() { while 1 { } }").message, "while condition must be 'bool', got 'i64'");
    assert_eq!(
        error_of("fn main() { return 42; }").message,
        "return type mismatch: function returns 'void' but got 'i64'"
    );
}

#[test]
fn fault_struct_and_enum_exact() {
    assert_eq!(
        error_of("struct P { x: i64, y: i64 }\nfn main() { let p = P { x: 1 }; }").message,
        "missing field 'y' in struct 'P'"
    );
    assert_eq!(
        error_of("struct P { x: i64 }\nfn main() { let p = P { x: 1, z: 2 }; }").message,
        "struct 'P' has no field 'z'"
    );
    assert_eq!(
        error_of("enum C { Red, Green }\nfn main() { let c = C::Blue; }").message,
        "unknown variant 'C::Blue'"
    );
}

#[test]
fn fault_unknown_type_exact() {
    let src = "fn main() { let x: float = 1; }";
    let e = error_of(src);
    assert_eq!(e.message, "unknown type 'float'");
    assert_eq!(e.span.expect("span").start.column, column_of(src, "let"));
}

#[test]
fn fault_try_and_fail_messages_exact() {
    assert_eq!(
        error_of("fn f() -> i64 { let x = try parse_int(\"1\"); return x; } fn main() { }").message,
        "'try' can only be used in failable functions (-> T ! str)"
    );
    assert_eq!(
        error_of("fn g() -> i64 { return 1; } fn f() -> i64 ! str { let x = try g(); return x; } fn main() { }").message,
        "'try' used on non-failable function 'g'"
    );
    assert_eq!(
        error_of("fn f() -> i64 ! str { let x = try 1; return x; } fn main() { }").message,
        "'try' must be used with a function call"
    );
    assert_eq!(
        error_of("fn main() { fail \"no\"; }").message,
        "'fail' can only be used in failable functions (-> T ! str)"
    );
    assert_eq!(
        error_of("fn f() -> i64 ! str { fail 1; } fn main() { }").message,
        "'fail' expects a string message, got 'i64'"
    );
}

#[test]
fn fault_index_and_field_messages_exact() {
    assert_eq!(error_of("fn main() { let x = 1; let y = x[0]; }").message, "cannot index into non-array type 'i64'");
    assert_eq!(
        error_of("fn main() { let a = [1, 2]; let y = a[true]; }").message,
        "array index must be 'i64', got 'bool'"
    );
    assert_eq!(
        error_of("fn main() { let a = [1, true]; }").message,
        "array element 1 has type 'bool', expected 'i64'"
    );
    assert_eq!(error_of("fn main() { let x = 1; let y = x.f; }").message, "field access on non-struct type 'i64'");
    assert_eq!(
        error_of("struct P { x: i64 }\nfn main() { let p = P { x: true }; }").message,
        "field 'x' expected type 'i64', got 'bool'"
    );
}

#[test]
fn fault_assignment_messages_exact() {
    assert_eq!(
        error_of("fn main() { let x = 1; x = true; }").message,
        "type mismatch in assignment: 'x' has type 'i64' but got 'bool'"
    );
    assert_eq!(
        error_of("fn main() { let a = [1, 2]; a[0] = true; }").message,
        "type mismatch in index assignment: expected 'i64', got 'bool'"
    );
    assert_eq!(
        error_of("fn main() { let x = 1; x.f = 2; }").message,
        "field assignment on non-struct type 'i64'"
    );
    assert_eq!(error_of("fn main() { z = 1; }").message, "undeclared variable 'z'");
}

#[test]
fn fault_loops_and_tail_messages_exact() {
    assert_eq!(
        error_of("fn main() { for i in true..3 { } }").message,
        "for range start must be 'i64', got 'bool'"
    );
    assert_eq!(
        error_of("fn main() { for i in 0..\"a\" { } }").message,
        "for range end must be 'i64', got 'str'"
    );
    assert_eq!(
        error_of("fn f() -> i64 { true } fn main() { }").message,
        "implicit return type mismatch: function returns 'i64' but tail expression has type 'bool'"
    );
}

#[test]
fn fault_match_messages_exact() {
    assert_eq!(
        error_of("fn main() { match true { 1 => { } } }").message,
        "integer pattern in match on 'bool'"
    );
    assert_eq!(
        error_of("fn main() { match 1 { true => { } } }").message,
        "boolean pattern in match on 'i64'"
    );
    assert_eq!(
        error_of("enum C { Red }\nfn main() { match C::Red { C::Blue => { } } }").message,
        "unknown variant 'C::Blue' "
    );
    assert_eq!(
        error_of("enum C { Red }\nenum D { Red }\nfn main() { match C::Red { D::Red => { } } }").message,
        "enum pattern 'D::Red' in match on 'C'"
    );
}

#[test]
fn len_takes_a_string_or_an_array() {
    assert!(check_with("fn main() { let a = [1, 2, 3]; let n: i64 = len(a); print(n); }", &[]).is_ok());
    assert!(check_with("fn main() { let n: i64 = len(\"abc\"); }", &[]).is_ok());
    assert_eq!(error_of("fn main() { len(42); }").message, "argument 1 of 'len': expected 'str', got 'i64'");
    assert_eq!(error_of("fn main() { len(true); }").message, "argument 1 of 'len': expected 'str', got 'bool'");
    assert_eq!(
        error_of("fn main() { let a = [1]; len(a, a); }").message,
        "function 'len' takes 1 argument(s), got 2"
    );
}
