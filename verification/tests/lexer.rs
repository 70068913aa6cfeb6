use dippin_parser::lexer::{
    find_unquoted_hash, is_blank_or_comment, is_key_colon_line, line_indent, strip_comment, Lexer,
    TokenType,
};

#[test]
fn test_line_indent() {
    assert_eq!(line_indent("hello"), 0);
    assert_eq!(line_indent("  hello"), 2);
    assert_eq!(line_indent("    hello"), 4);
    assert_eq!(line_indent("\thello"), 1);
}

#[test]
fn test_is_blank_or_comment() {
    assert!(is_blank_or_comment(""));
    assert!(is_blank_or_comment("   "));
    assert!(is_blank_or_comment("# comment"));
    assert!(is_blank_or_comment("  # comment"));
    assert!(!is_blank_or_comment("hello"));
}

#[test]
fn test_is_key_colon_line() {
    assert!(is_key_colon_line("prompt:"));
    assert!(is_key_colon_line("command:"));
    assert!(!is_key_colon_line("prompt: hello"));
    assert!(!is_key_colon_line("hello"));
    assert!(!is_key_colon_line(":"));
}

#[test]
fn test_strip_comment() {
    assert_eq!(strip_comment("hello # comment"), "hello ");
    assert_eq!(strip_comment("hello"), "hello");
    assert_eq!(strip_comment("# comment"), "");
}

#[test]
fn test_basic_tokenization() {
    let input = "workflow Test\n  goal: test\n";
    let lexer = Lexer::new(input, "test.dip");
    let tokens: Vec<_> = lexer.tokens().iter().map(|t| &t.token_type).collect();
    assert!(tokens.contains(&&TokenType::Identifier));
    assert!(tokens.contains(&&TokenType::Indent));
    assert!(tokens.contains(&&TokenType::Outdent));
    assert!(tokens.contains(&&TokenType::Eof));
}

#[test]
fn test_arrow_tokenization() {
    let input = "Start -> End\n";
    let lexer = Lexer::new(input, "test.dip");
    let token_types: Vec<_> = lexer.tokens().iter().map(|t| &t.token_type).collect();
    assert!(token_types.contains(&&TokenType::Arrow));
}

#[test]
fn test_back_arrow_tokenization() {
    let input = "Join <- A, B\n";
    let lexer = Lexer::new(input, "test.dip");
    let token_types: Vec<_> = lexer.tokens().iter().map(|t| &t.token_type).collect();
    assert!(token_types.contains(&&TokenType::BackArrow));
    assert!(token_types.contains(&&TokenType::Comma));
}

#[test]
fn test_raw_block_collection() {
    let input = "prompt:\n  Hello world\n  Second line\n";
    let lexer = Lexer::new(input, "test.dip");
    let raw_blocks: Vec<_> = lexer
        .tokens()
        .iter()
        .filter(|t| t.token_type == TokenType::RawBlock)
        .collect();
    assert_eq!(raw_blocks.len(), 1);
    assert_eq!(raw_blocks[0].value, "Hello world\nSecond line");
}

#[test]
fn test_quoted_string() {
    let input = "label: \"Hello World\"\n";
    let lexer = Lexer::new(input, "test.dip");
    let literal = lexer
        .tokens()
        .iter()
        .find(|t| t.token_type == TokenType::Literal)
        .unwrap();
    assert_eq!(literal.value, "Hello World");
}

#[test]
fn test_operator_tokenization() {
    let input = "ctx.outcome == success\n";
    let lexer = Lexer::new(input, "test.dip");
    let ops: Vec<_> = lexer
        .tokens()
        .iter()
        .filter(|t| t.token_type == TokenType::Operator)
        .collect();
    assert_eq!(ops.len(), 1);
    assert_eq!(ops[0].value, "==");
}

#[test]
fn test_lexer_strips_bom() {
    let src = "\u{FEFF}workflow Foo\n";
    let mut lex = Lexer::new(src, "test.dip");
    let tok = lex.next_token();
    assert_eq!(tok.token_type, TokenType::Identifier);
    assert_eq!(tok.value, "workflow");
    assert!(
        lex.diagnostics().is_empty(),
        "BOM should be stripped silently, got {:?}",
        lex.diagnostics()
    );
}

#[test]
fn test_lexer_rejects_mixed_indent() {
    let src = "workflow Foo\n\t  goal: bar\n";
    let err = dippin_parser::parse(src, "test.dip").unwrap_err();
    assert!(
        err.diagnostics()
            .iter()
            .any(|d| matches!(d.kind, dippin_parser::DiagnosticKind::InvalidIndentation(_))),
        "expected InvalidIndentation diagnostic, got {:?}",
        err.diagnostics()
    );
}

#[test]
fn test_lexer_rejects_invalid_dedent() {
    let src = "workflow Foo\n    goal: bar\n  exit: x\n";
    let err = dippin_parser::parse(src, "test.dip").unwrap_err();
    assert!(
        err.diagnostics()
            .iter()
            .any(|d| matches!(d.kind, dippin_parser::DiagnosticKind::InvalidIndentation(_))),
        "expected InvalidIndentation diagnostic, got {:?}",
        err.diagnostics()
    );
}

#[test]
fn test_lexer_columns_are_char_offsets() {
    let src = "label \"é\" bar\n";
    let mut lex = Lexer::new(src, "t.dip");
    let t1 = lex.next_token();
    assert_eq!(t1.value, "label");
    assert_eq!(t1.location.column, 1);
    let t2 = lex.next_token();
    assert_eq!(t2.token_type, TokenType::Literal);
    assert_eq!(t2.location.column, 7);
    let t3 = lex.next_token();
    assert_eq!(t3.value, "bar");
    assert_eq!(
        t3.location.column, 11,
        "bar should be at char column 11, got {}",
        t3.location.column
    );
}

#[test]
fn test_lexer_columns_after_multiple_multibyte_tokens() {
    let src = "label \"é\" note \"ü\" tail\n";
    let mut lex = Lexer::new(src, "t.dip");
    let mut saw_tail = false;
    loop {
        let t = lex.next_token();
        if t.token_type == TokenType::Eof {
            break;
        }
        if t.value == "tail" {
            assert_eq!(
                t.location.column, 20,
                "tail should be at char column 20, got {}",
                t.location.column
            );
            saw_tail = true;
        }
    }
    assert!(saw_tail, "did not encounter tail token");
}

#[test]
fn test_find_unquoted_hash_utf8_safe() {
    let src = r#"label "a\é" # comment"#;
    let result = find_unquoted_hash(src);
    let expected = src.find("# comment").unwrap();
    assert_eq!(result, Some(expected));
}

#[test]
fn test_raw_value_text() {
    let input = "fidelity: summary:medium\nmodel: gpt-4\n";
    let lexer = Lexer::new(input, "test.dip");
    assert_eq!(lexer.raw_value_text(1), "summary:medium");
    assert_eq!(lexer.raw_value_text(2), "gpt-4");
}

#[test]
fn lexer_indents_balance_outdents() {
    let input = "a\n  b\n    c\n  d\ne\n";
    let lexer = Lexer::new(input, "t.dip");
    let indents = lexer.tokens().iter().filter(|t| t.token_type == TokenType::Indent).count();
    let outdents = lexer.tokens().iter().filter(|t| t.token_type == TokenType::Outdent).count();
    assert_eq!(indents, 2);
    assert_eq!(outdents, 2);
    assert_eq!(lexer.tokens().last().unwrap().token_type, TokenType::Eof);
}

#[test]
fn crlf_line_endings_read_like_newlines() {
    let src = "workflow Foo\r\n  start: A\r\n  exit: A\r\n  agent A\r\n    prompt: \"x\"\r\n    model: m\r\n";
    let wf = dippin_parser::parse(src, "test.dip").expect("CRLF should parse");
    assert_eq!(wf.name, "Foo");
    assert_eq!(wf.nodes.len(), 1);
    assert_eq!(wf.nodes[0].id, "A");
    assert_eq!(wf.nodes[0].source.line, 4);
}

#[test]
fn lone_cr_line_endings_read_like_newlines() {
    let src = "workflow Foo\r  start: A\r  exit: A\r  agent A\r    prompt: \"x\"\r    model: m\r";
    let wf = dippin_parser::parse(src, "test.dip").expect("CR-only should parse");
    assert_eq!(wf.name, "Foo");
    assert_eq!(wf.nodes.len(), 1);
    assert_eq!(wf.nodes[0].id, "A");
}

#[test]
fn exhausted_lexer_stays_exhausted() {
    let mut lexer = Lexer::new("workflow Foo\n  goal: bar\n", "test.dip");
    let mut guard = 0;
    loop {
        let t = lexer.next_token();
        guard += 1;
        assert!(guard < 100);
        if t.token_type == TokenType::Eof {
            break;
        }
    }
    for _ in 0..3 {
        let p = lexer.peek_token();
        assert_eq!(p.token_type, TokenType::Eof);
        assert_eq!(p.value, "");
        let t = lexer.next_token();
        assert_eq!(t.token_type, TokenType::Eof);
        assert_eq!(t.value, "");
    }
}

fn token_summary(src: &str) -> Vec<(String, String, usize, usize)> {
    let lexer = Lexer::new(src, "test.dip");
    lexer
        .tokens()
        .iter()
        .map(|t| (format!("{:?}", t.token_type), t.value.clone(), t.location.line, t.location.column))
        .collect()
}

#[test]
fn bom_crlf_and_cr_lex_like_lf() {
    let lf = "workflow Foo\n  goal: bar\n  agent A\n    prompt:\n      line one\n      line two\n";
    let crlf = format!("\u{feff}{}", lf.replace('\n', "\r\n"));
    let cr = lf.replace('\n', "\r");
    let base = token_summary(lf);
    assert_eq!(token_summary(&crlf), base);
    assert_eq!(token_summary(&cr), base);
}
