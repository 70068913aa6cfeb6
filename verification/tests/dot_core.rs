use dippin_parser::dot_core::{engine_name, parse_dippin, DotError, LayoutEngine};

#[test]
fn parse_dippin_reports_syntax_error() {
    let err = parse_dippin("workflow\n".to_string()).expect_err("should fail");
    let msg = format!("{:?}", err);
    assert!(msg.to_lowercase().contains("syntax") || msg.contains(":1:"),
            "error should include line:col info, got: {}", msg);
}

#[test]
fn parse_dippin_converts_and_locates_errors() {
    let src = "workflow F\n  start: A\n  exit: A\n  agent A\n    prompt: x\n    model: m\n    provider: p\n";
    let result = parse_dippin(src.to_string()).expect("should parse");
    assert!(result.dot_source.contains("digraph F {"));
    assert!(result.source_map.is_empty());
    match parse_dippin("workflow\n".to_string()) {
        Err(DotError::SyntaxError { message, line, column }) => {
            assert_eq!(line, 1);
            assert_eq!(column, 9);
            assert_eq!(message, "input.dip:1:9: expected identifier after `workflow`, got Newline");
        }
        _ => panic!("expected a syntax error"),
    }
}

#[test]
fn engine_names_and_error_text() {
    assert_eq!(engine_name(&LayoutEngine::Dot), "dot");
    assert_eq!(engine_name(&LayoutEngine::Sfdp), "sfdp");
    let e = DotError::SyntaxError { message: "bad".to_string(), line: 3, column: 7 };
    assert_eq!(e.to_string(), "Syntax error at 3:7: bad");
    assert_eq!(DotError::RenderError { message: "x".to_string() }.to_string(), "Render error: x");
}
