use ferro::codegen::Codegen;
use ferro::lexer::token::TokenKind;
use ferro::lexer::Lexer;
use ferro::parser::Parser;
use ferro::sema::checker::Checker;

#[test]
fn law_comptime_values_agree_on_division() {
    let source = "comptime let D = 7 / 2;\ncomptime let M = 0 - 7 % 2;\nfn main() { print(D); print(M); }";
    let mut lexer = Lexer::new(source);
    let tokens = lexer.tokenize().expect("lexer error");
    let program = Parser::new(tokens).parse_program().expect("parser error");
    assert!(Checker::new().check_program(&program).is_ok());
    let out = Codegen::new().try_generate(&program).expect("generated");
    assert!(out.contains("    movq $3, %rax\n"));
    assert!(out.contains("    movq $-1, %rax\n"));
}

#[test]
fn law_token_spans_in_source_order() {
    let source = "fn main() {\n  let x = 42; // note\n  print(x);\n}\n";
    let tokens = Lexer::new(source).tokenize().expect("lexer error");
    let last = tokens.last().expect("a token");
    assert_eq!(last.kind, TokenKind::Eof);
    assert_eq!(last.span.start.offset, source.chars().count());
    for k in 0..tokens.len() - 1 {
        assert_ne!(tokens[k].kind, TokenKind::Eof);
        assert!(tokens[k].span.start.offset < tokens[k].span.end.offset);
        assert!(tokens[k].span.end.offset <= tokens[k + 1].span.start.offset);
    }
    for t in &tokens {
        let before: String = source.chars().take(t.span.start.offset).collect();
        let newlines = before.chars().filter(|c| *c == '\n').count();
        assert_eq!(t.span.start.line, 1 + newlines);
        let line_start = before.rfind('\n').map(|i| i + 1).unwrap_or(0);
        assert_eq!(t.span.start.column, before.chars().count() - before[..line_start].chars().count() + 1);
    }
}

#[test]
fn law_unicode_whitespace_separates_tokens() {
    let tokens = Lexer::new("let\u{3000}x\u{a0}=\u{2003}1;").tokenize().expect("lexer error");
    assert_eq!(tokens.len(), 6);
    assert_eq!(tokens[0].kind, TokenKind::Let);
    assert_eq!(tokens[5].kind, TokenKind::Eof);
}

#[test]
fn whitespace_agrees_with_std_on_every_char() {
    for u in 0u32..=0x10FFFF {
        if let Some(c) = char::from_u32(u) {
            assert_eq!(ferro::text::whitespace(c), c.is_whitespace(), "{:x}", u);
        }
    }
}

#[test]
fn law_two_character_operators_are_single_tokens() {
    let source = "a==b!=c<=d>=e&&f||g->h";
    let tokens = Lexer::new(source).tokenize().expect("lexer error");
    let kinds = [
        TokenKind::EqualEqual,
        TokenKind::BangEqual,
        TokenKind::LessEqual,
        TokenKind::GreaterEqual,
        TokenKind::AmpAmp,
        TokenKind::PipePipe,
        TokenKind::Arrow,
    ];
    assert_eq!(tokens.len(), 16);
    for (k, kind) in kinds.iter().enumerate() {
        let t = &tokens[2 * k + 1];
        assert_eq!(&t.kind, kind);
        assert_eq!(t.span.end.offset, t.span.start.offset + 2);
    }
}

#[test]
fn law_casts_allow_exactly_four_pairs() {
    let ok = [
        "fn main() { let s: str = 1 as str; }",
        "fn main() { let b: bool = 1 as bool; }",
        "fn main() { let i: i64 = true as i64; }",
        "fn main() { let i: i64 = \"7\" as i64; }",
    ];
    for src in ok {
        let tokens = Lexer::new(src).tokenize().expect("lexer error");
        let program = Parser::new(tokens).parse_program().expect("parser error");
        assert!(Checker::new().check_program(&program).is_ok(), "{}", src);
    }
    let refused = [
        ("fn main() { let x = 1 as i64; }", "cannot cast 'i64' to 'i64'"),
        ("fn main() { let x = true as str; }", "cannot cast 'bool' to 'str'"),
        ("fn main() { let x = 1 as float; }", "unknown cast target type 'float'"),
    ];
    for (src, message) in refused {
        let tokens = Lexer::new(src).tokenize().expect("lexer error");
        let program = Parser::new(tokens).parse_program().expect("parser error");
        let e = Checker::new().check_program(&program).expect_err("refused");
        assert_eq!(e.message, message);
    }
}

#[test]
fn law_assembly_layout() {
    let source = "priv fn helper() -> i64 { return 1; }\nfn main() { print(\"hi\"); print(helper()); }";
    let tokens = Lexer::new(source).tokenize().expect("lexer error");
    let program = Parser::new(tokens).parse_program().expect("parser error");
    let out = Codegen::new().try_generate(&program).expect("generated");
    assert!(out.starts_with("    .section .text\n"));
    assert!(!out.contains(".globl helper"));
    assert!(out.contains("\nhelper:\n    pushq %rbp\n"));
    assert!(out.contains("    .globl main\nmain:\n    pushq %rbp\n"));
    let data = out.find("    .section .data\n").expect("data section");
    assert!(out.find("\nhelper:\n").unwrap() < out.find("\nmain:\n").unwrap());
    assert!(out[data..].starts_with("    .section .data\n.Lstr_0:\n    .ascii \"hi\\0\"\n.Lstr_1:\n"));
    assert!(out.ends_with("    .ascii \"w\\0\"\n"));
}
