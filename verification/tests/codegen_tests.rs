use ferro::ast::pretty::nesting_depth;
use ferro::codegen::Codegen;
use ferro::lexer::Lexer;
use ferro::parser::Parser;

fn assembly(source: &str) -> Option<String> {
    let mut lexer = Lexer::new(source);
    let tokens = lexer.tokenize().expect("lexer error");
    let mut parser = Parser::new(tokens);
    let program = parser.parse_program().expect("parser error");
    Codegen::new().try_generate(&program)
}

#[test]
fn assembly_starts_with_the_text_section_and_main() {
    let out = assembly("fn main() { print(42); }").unwrap();
    assert!(out.starts_with(
        "    .section .text\n    .globl main\nmain:\n    pushq %rbp\n    movq %rsp, %rbp\n    subq $32, %rsp\n"
    ));
    assert!(out.contains("    movq $42, %rax\n"));
    assert!(out.contains(".Lmain_epilogue:\n    movq %rbp, %rsp\n    popq %rbp\n    ret\n"));
}

#[test]
fn frames_are_rounded_to_sixteen_bytes() {
    // one local: 8 + 32 = 40 bytes, rounded up to 48
    let out = assembly("fn main() { let x: i64 = 1; print(x); }").unwrap();
    assert!(out.contains("    subq $48, %rsp\n"));
    // two locals: 16 + 32 = 48 bytes, already aligned
    let out = assembly("fn main() { let x: i64 = 1; let y: i64 = 2; print(x + y); }").unwrap();
    assert!(out.contains("    subq $48, %rsp\n"));
    // three locals: 24 + 32 = 56 bytes, rounded up to 64
    let out = assembly("fn main() { let x: i64 = 1; let y: i64 = 2; let z: i64 = 3; print(x + y + z); }").unwrap();
    assert!(out.contains("    subq $64, %rsp\n"));
}

#[test]
fn private_functions_are_not_global() {
    let out = assembly("priv fn helper() -> i64 { return 1; }\nfn main() { print(helper()); }").unwrap();
    assert!(!out.contains(".globl helper"));
    assert!(out.contains("helper:\n"));
    assert!(out.contains("    .globl main\n"));
}

#[test]
fn string_literals_go_to_the_data_section() {
    let out = assembly("fn main() { print(\"hi\"); }").unwrap();
    assert!(out.contains("    .section .data\n"));
    assert!(out.contains("    .ascii \"hi\\0\"\n"));
    assert!(out.contains("    .ascii \"could not open file\\0\"\n"));
}

#[test]
fn generate_gives_the_same_text() {
    let source = "fn add(a: i64, b: i64) -> i64 { return a + b; }\nfn main() { print(add(10, 32)); }";
    let mut lexer = Lexer::new(source);
    let tokens = lexer.tokenize().unwrap();
    let program = Parser::new(tokens).parse_program().unwrap();
    let a = Codegen::new().generate(&program);
    assert_eq!(Some(a), assembly(source));
}

#[test]
fn nesting_depth_counts_nested_blocks() {
    let mut lexer = Lexer::new("fn main() { if true { while true { } } }\nfn f() { }");
    let program = Parser::new(lexer.tokenize().unwrap()).parse_program().unwrap();
    assert_eq!(nesting_depth(&program.functions), Some(2));
}

#[test]
fn a_binary_operation_saves_its_left_operand() {
    let out = assembly("fn main() { let x: i64 = 1 + 2 * 3; }").unwrap();
    assert!(out.contains(
        "    movq $1, %rax\n    pushq %rax\n    movq $2, %rax\n    pushq %rax\n    movq $3, %rax\n    movq %rax, %rcx\n    popq %rax\n    imulq %rcx, %rax\n    movq %rax, %rcx\n    popq %rax\n    addq %rcx, %rax\n    movq %rax, -8(%rbp)\n"
    ));
}

#[test]
fn comparisons_set_a_byte() {
    let out = assembly("fn main() { let b: bool = 1 < 2; }").unwrap();
    assert!(out.contains("    cmpq %rcx, %rax\n    setl %al\n    movzbq %al, %rax\n    movq %rax, -8(%rbp)\n"));
}

#[test]
fn string_plus_calls_the_concatenation_helper() {
    let out = assembly("fn main() { let s: str = \"a\" + \"b\"; }").unwrap();
    assert!(out.contains(
        "    leaq .Lstr_0(%rip), %rax\n    pushq %rax\n    leaq .Lstr_1(%rip), %rax\n    movq %rax, %rdx\n    popq %rcx\n    subq $32, %rsp\n    call __ferro_str_concat\n    addq $32, %rsp\n    movq %rax, -8(%rbp)\n"
    ));
    assert!(out.contains("__ferro_str_concat:\n    pushq %rbp\n    movq %rsp, %rbp\n    subq $48, %rsp\n"));
}

#[test]
fn helpers_follow_the_functions_and_precede_the_data() {
    let out = assembly("fn main() { }").unwrap();
    let main_at = out.find("main:").unwrap();
    let helper_at = out.find("__ferro_read_file:").unwrap();
    let data_at = out.find("    .section .data").unwrap();
    assert!(main_at < helper_at && helper_at < data_at);
    assert!(out.contains("    .ascii \"could not open file\\0\"\n"));
    assert!(out.contains("    .ascii \"w\\0\"\n"));
}

#[test]
fn an_if_jumps_to_its_else_label_when_the_condition_is_zero() {
    let out = assembly("fn main() { if true { } }").unwrap();
    assert!(out.contains(
        "    movq $1, %rax\n    testq %rax, %rax\n    je .Lelse_1\n    jmp .Lendif_2\n.Lelse_1:\n.Lendif_2:\n"
    ));
}

#[test]
fn a_while_tests_its_condition_at_the_top() {
    let out = assembly("fn main() { while false { } }").unwrap();
    assert!(out.contains(
        ".Lwhile_1:\n    movq $0, %rax\n    testq %rax, %rax\n    je .Lendwhile_2\n    jmp .Lwhile_1\n.Lendwhile_2:\n"
    ));
}

#[test]
fn break_and_continue_jump_to_the_innermost_loop() {
    let out = assembly("fn main() { while true { break; continue; } }").unwrap();
    assert!(out.contains("    je .Lendwhile_2\n    jmp .Lendwhile_2\n    jmp .Lwhile_1\n    jmp .Lwhile_1\n"));
}

#[test]
fn a_for_loop_keeps_its_variable_and_end_in_slots() {
    let out = assembly("fn main() { for i in 0..3 { } }").unwrap();
    assert!(out.contains(
        "    movq $0, %rax\n    movq %rax, -8(%rbp)\n    movq $3, %rax\n    movq %rax, -16(%rbp)\n.Lfor_1:\n    movq -8(%rbp), %rax\n    cmpq -16(%rbp), %rax\n    jge .Lendfor_3\n.Lforcont_2:\n    movq -8(%rbp), %rax\n    addq $1, %rax\n    movq %rax, -8(%rbp)\n    jmp .Lfor_1\n.Lendfor_3:\n"
    ));
}

#[test]
fn a_return_runs_deferred_expressions_last_first() {
    let out = assembly("fn f() -> i64 { defer 1; defer 2; return 7; }\nfn main() { print(f()); }").unwrap();
    assert!(out.contains(
        "    movq $7, %rax\n    subq $16, %rsp\n    movq %rax, (%rsp)\n    movq $2, %rax\n    movq $1, %rax\n    movq (%rsp), %rax\n    addq $16, %rsp\n    movq %rbp, %rsp\n    popq %rbp\n    ret\n"
    ));
}

#[test]
fn a_match_compares_the_pushed_subject_with_each_pattern() {
    let out = assembly("fn main() { match 2 { 1 => { } _ => { } } }").unwrap();
    assert!(out.contains(
        "    movq $2, %rax\n    pushq %rax\n    cmpq $1, (%rsp)\n    jne .Lskip_2\n    addq $8, %rsp\n    jmp .Lmatchend_1\n.Lskip_2:\n    addq $8, %rsp\n    jmp .Lmatchend_1\n    addq $8, %rsp\n.Lmatchend_1:\n"
    ));
}

#[test]
fn printing_an_integer_calls_printf_with_its_format() {
    let out = assembly("fn main() { print(42); }").unwrap();
    assert!(out.contains("    movq $42, %rax\n    movq %rax, %rdx\n    leaq .Lstr_0(%rip), %rcx\n    call printf\n"));
    assert!(out.contains(".Lstr_0:\n    .ascii \"%lld\\n\\0\"\n"));
}

#[test]
fn printing_a_bool_picks_true_or_false() {
    let out = assembly("fn main() { print(true); }").unwrap();
    assert!(out.contains(
        "    movq $1, %rax\n    testq %rax, %rax\n    je .Lpf_1\n    leaq .Lstr_0(%rip), %rcx\n    jmp .Lpe_2\n.Lpf_1:\n    leaq .Lstr_1(%rip), %rcx\n.Lpe_2:\n    call puts\n"
    ));
}

#[test]
fn parameters_are_stored_from_their_registers() {
    let out = assembly("fn add(a: i64, b: i64) -> i64 { return a + b; }\nfn main() { print(add(1, 2)); }").unwrap();
    assert!(out.contains(
        "    .globl add\nadd:\n    pushq %rbp\n    movq %rsp, %rbp\n    subq $48, %rsp\n    movq %rcx, -8(%rbp)\n    movq %rdx, -16(%rbp)\n    movq -8(%rbp), %rax\n    pushq %rax\n    movq -16(%rbp), %rax\n"
    ));
}

#[test]
fn a_call_pushes_its_arguments_and_pops_them_into_registers() {
    let out = assembly("fn f(a: i64, b: i64) { }\nfn main() { f(1, 2); }").unwrap();
    assert!(out.contains(
        "    movq $1, %rax\n    pushq %rax\n    movq $2, %rax\n    pushq %rax\n    popq %rdx\n    popq %rcx\n    call f\n"
    ));
}

#[test]
fn a_let_stores_a_call_result_in_its_slot() {
    let out = assembly("fn f() -> i64 { return 1; }\nfn main() { let x: i64 = f(); }").unwrap();
    assert!(out.contains("    call f\n    movq %rax, -8(%rbp)\n"));
}

#[test]
fn an_index_assignment_stores_through_the_array_base() {
    let out = assembly("fn main() { let mut a = [1, 2]; a[1] = 5; }").unwrap();
    assert!(out.contains(
        "    movq $5, %rax\n    pushq %rax\n    movq $1, %rax\n    movq %rax, %rcx\n    popq %rax\n    movq %rax, -16(%rbp,%rcx,8)\n"
    ));
}

#[test]
fn an_operation_on_a_call_result_saves_it_on_the_stack() {
    let out = assembly("fn f(a: i64) -> i64 { return a; }\nfn main() { print(f(1) + 2); }").unwrap();
    assert!(out.contains(
        "    movq $1, %rax\n    pushq %rax\n    popq %rcx\n    call f\n    pushq %rax\n    movq $2, %rax\n    movq %rax, %rcx\n    popq %rax\n    addq %rcx, %rax\n    movq %rax, %rdx\n"
    ));
}

#[test]
fn a_cast_to_bool_compares_with_zero() {
    let out = assembly("fn main() { let b: bool = 5 as bool; }").unwrap();
    assert!(out.contains("    movq $5, %rax\n    testq %rax, %rax\n    setne %al\n    movzbq %al, %rax\n    movq %rax, -8(%rbp)\n"));
}

#[test]
fn an_index_loads_from_the_array_slots() {
    let out = assembly("fn main() { let a = [1, 2]; let x: i64 = a[1]; }").unwrap();
    assert!(out.contains("    movq $1, %rax\n    movq -16(%rbp,%rax,8), %rax\n    movq %rax, -24(%rbp)\n"));
}

#[test]
fn a_try_returns_early_when_the_error_flag_is_set() {
    let out = assembly("fn f() -> i64 ! str { return 1; }\nfn g() -> i64 ! str { let x: i64 = try f(); return x; }").unwrap();
    assert!(out.contains(
        "    call f\n    testq %rdx, %rdx\n    je .Ltry_ok_1\n    movq %rbp, %rsp\n    popq %rbp\n    ret\n.Ltry_ok_1:\n    movq %rax, -8(%rbp)\n"
    ));
}

#[test]
fn built_ins_of_one_and_two_arguments_have_their_own_code() {
    let out = assembly("fn main() { let a: i64 = abs(0 - 3); let m: i64 = max(1, 2); }").unwrap();
    assert!(out.contains("    movq %rax, %rcx\n    negq %rcx\n    testq %rax, %rax\n    cmovlq %rcx, %rax\n    movq %rax, -8(%rbp)\n"));
    assert!(out.contains(
        "    movq $1, %rax\n    pushq %rax\n    movq $2, %rax\n    popq %rcx\n    cmpq %rax, %rcx\n    cmovgq %rcx, %rax\n    movq %rax, -16(%rbp)\n"
    ));
}

#[test]
fn len_of_a_local_array_is_its_length() {
    let source = "fn main() { let a = [1, 2, 3]; let n: i64 = len(a); }";
    let tokens = ferro::lexer::Lexer::new(source).tokenize().expect("lexer error");
    let program = ferro::parser::Parser::new(tokens).parse_program().expect("parser error");
    assert!(ferro::sema::checker::Checker::new().check_program(&program).is_ok());
    let out = assembly(source).unwrap();
    assert!(out.contains("    movq $3, %rax\n    movq %rax, -32(%rbp)\n"));
}

#[test]
fn an_array_let_fills_its_slots_in_order() {
    let out = assembly("fn main() { let a = [1, 2]; }").unwrap();
    assert!(out.contains("    movq $1, %rax\n    movq %rax, -16(%rbp)\n    movq $2, %rax\n    movq %rax, -8(%rbp)\n"));
}

#[test]
fn a_struct_let_stores_each_field_in_its_declared_slot() {
    let out = assembly("struct P { x: i64, y: i64 }\nfn main() { let p = P { y: 2, x: 1 }; }").unwrap();
    assert!(out.contains("    movq $2, %rax\n    movq %rax, -8(%rbp)\n    movq $1, %rax\n    movq %rax, -16(%rbp)\n"));
}

#[test]
fn each_string_literal_label_holds_its_text() {
    let out = assembly("fn main() { print(\"hello\"); let n: i64 = 7; print(n); print(\"bye\"); }").unwrap();
    assert!(out.contains("    leaq .Lstr_0(%rip), %rax\n    movq %rax, %rcx\n    call puts\n"));
    assert!(out.contains("    leaq .Lstr_1(%rip), %rcx\n    call printf\n"));
    assert!(out.contains("    leaq .Lstr_2(%rip), %rax\n"));
    assert!(out.contains(".Lstr_0:\n    .ascii \"hello\\0\"\n"));
    assert!(out.contains(".Lstr_1:\n    .ascii \"%lld\\n\\0\"\n"));
    assert!(out.contains(".Lstr_2:\n    .ascii \"bye\\0\"\n"));
}

#[test]
fn a_try_runs_the_deferred_expressions_latest_first_before_returning_the_error() {
    let out = assembly(
        "fn f() -> i64 ! str { return 1; }\nfn g() -> i64 ! str { defer 5; defer 6; let x: i64 = try f(); return x; }",
    )
    .unwrap();
    assert!(out.contains(
        "    call f\n    testq %rdx, %rdx\n    je .Ltry_ok_1\n    subq $16, %rsp\n    movq %rax, (%rsp)\n    movq $6, %rax\n    movq $5, %rax\n    movq (%rsp), %rax\n    addq $16, %rsp\n    movq $1, %rdx\n    movq %rbp, %rsp\n    popq %rbp\n    ret\n.Ltry_ok_1:\n"
    ));
}

#[test]
fn print_as_the_tail_of_a_block_prints_its_argument() {
    let out = assembly("fn main() { print(42) }").unwrap();
    assert!(out.contains("    movq $42, %rax\n    movq %rax, %rdx\n    leaq .Lstr_0(%rip), %rcx\n    call printf\n"));
    assert!(out.contains(".Lstr_0:\n    .ascii \"%lld\\n\\0\"\n"));
}
