use dippin_parser::{parse, DiagnosticKind};

fn assert_kind(src: &str, predicate: impl Fn(&DiagnosticKind) -> bool) {
    let err = parse(src, "test.dip").expect_err("expected parse to fail");
    let diags = err.diagnostics();
    assert!(
        diags.iter().any(|d| predicate(&d.kind)),
        "expected matching diagnostic, got: {:?}",
        diags
    );
}

#[test]
fn test_unterminated_string() {
    assert_kind(
        "workflow F\n  start: A\n  exit: A\n  agent A\n    prompt: \"unterminated\n    model: m\n",
        |k| matches!(k, DiagnosticKind::UnterminatedString),
    );
}

#[test]
fn test_unknown_node_kind() {
    assert_kind(
        "workflow F\n  start: A\n  exit: A\n  wizard A\n    prompt: x\n",
        |k| matches!(k, DiagnosticKind::Other),
    );
}

#[test]
fn test_unknown_defaults_field() {
    assert_kind(
        "workflow F\n  start: A\n  exit: A\n  defaults\n    bogus: 1\n  agent A\n    prompt: x\n    model: m\n    provider: p\n",
        |k| matches!(k, DiagnosticKind::UnknownField { scope, .. } if scope == "defaults"),
    );
}

#[test]
fn test_unknown_agent_field() {
    assert_kind(
        "workflow F\n  start: A\n  exit: A\n  agent A\n    prompt: x\n    bogus: 1\n    model: m\n    provider: p\n",
        |k| matches!(k, DiagnosticKind::UnknownField { scope, .. } if scope == "agent"),
    );
}

#[test]
fn test_invalid_integer() {
    assert_kind(
        "workflow F\n  start: A\n  exit: A\n  defaults\n    max_retries: not_a_number\n  agent A\n    prompt: x\n    model: m\n    provider: p\n",
        |k| matches!(k, DiagnosticKind::InvalidInteger { .. }),
    );
}

#[test]
fn test_invalid_float() {
    assert_kind(
        "workflow F\n  start: A\n  exit: A\n  agent A\n    prompt: x\n    compaction_threshold: abc\n    model: m\n    provider: p\n",
        |k| matches!(k, DiagnosticKind::InvalidFloat { .. }),
    );
}

#[test]
fn test_invalid_duration() {
    assert_kind(
        "workflow F\n  start: A\n  exit: A\n  agent A\n    prompt: x\n    cmd_timeout: 30\n    model: m\n    provider: p\n",
        |k| matches!(k, DiagnosticKind::InvalidDuration { .. }),
    );
}

#[test]
fn test_invalid_bool() {
    assert_kind(
        "workflow F\n  start: A\n  exit: A\n  agent A\n    prompt: x\n    goal_gate: yes\n    model: m\n    provider: p\n",
        |k| matches!(k, DiagnosticKind::InvalidBool { .. }),
    );
}

#[test]
fn test_missing_workflow_identifier() {
    assert_kind(
        "workflow\n  start: A\n",
        |k| matches!(k, DiagnosticKind::MissingIdentifier { after } if after == "workflow"),
    );
}

#[test]
fn test_missing_agent_identifier() {
    assert_kind(
        "workflow F\n  start: A\n  exit: A\n  agent\n    prompt: x\n    model: m\n    provider: p\n",
        |k| matches!(k, DiagnosticKind::MissingIdentifier { after } if after == "agent"),
    );
}

#[test]
fn test_undefined_node_reference() {
    assert_kind(
        "workflow F\n  start: Missing\n  exit: A\n  agent A\n    prompt: x\n    model: m\n    provider: p\n",
        |k| matches!(k, DiagnosticKind::UndefinedNodeReference(_)),
    );
}

#[test]
fn test_duplicate_workflow() {
    assert_kind(
        "workflow F\n  start: A\n  exit: A\n  agent A\n    prompt: x\n    model: m\n    provider: p\nworkflow G\n  start: A\n  exit: A\n  agent A\n    prompt: x\n    model: m\n    provider: p\n",
        |k| matches!(k, DiagnosticKind::DuplicateWorkflow),
    );
}

#[test]
fn test_empty_file() {
    assert_kind("", |k| matches!(k, DiagnosticKind::EmptyWorkflow));
}

#[test]
fn test_whitespace_only_file() {
    assert_kind("   \n\n  \n", |k| matches!(k, DiagnosticKind::EmptyWorkflow));
}

#[test]
fn test_comments_only_file() {
    assert_kind("# just a comment\n# another\n", |k| matches!(k, DiagnosticKind::EmptyWorkflow));
}

#[test]
fn test_mixed_indentation() {
    assert_kind(
        "workflow F\n\t  start: A\n",
        |k| matches!(k, DiagnosticKind::InvalidIndentation(_)),
    );
}

#[test]
fn test_invalid_dedent() {
    assert_kind(
        "workflow F\n    start: A\n  exit: A\n",
        |k| matches!(k, DiagnosticKind::InvalidIndentation(_)),
    );
}

#[test]
fn test_oversize_input() {
    let big = "a".repeat(dippin_parser::MAX_INPUT_SIZE + 1);
    assert!(parse(&big, "big.dip").is_err());
}

#[test]
fn undefined_start_diagnostic_points_at_start_line() {
    let src = "workflow F\n  start: Missing\n  exit: A\n  agent A\n    prompt: x\n    model: m\n    provider: p\n";
    let err = parse(src, "test.dip").expect_err("expected validation failure");
    let diag = err
        .diagnostics()
        .iter()
        .find(|d| matches!(&d.kind, DiagnosticKind::UndefinedNodeReference(t) if t == "Missing"))
        .expect("undefined-node diagnostic for `Missing`");
    assert_eq!(
        diag.location.line, 2,
        "diagnostic should point at the `start:` line (2), got line {}",
        diag.location.line
    );
}

#[test]
fn undefined_exit_diagnostic_points_at_exit_line() {
    let src = "workflow F\n  start: A\n  exit: Missing\n  agent A\n    prompt: x\n    model: m\n    provider: p\n";
    let err = parse(src, "test.dip").expect_err("expected validation failure");
    let diag = err
        .diagnostics()
        .iter()
        .find(|d| matches!(&d.kind, DiagnosticKind::UndefinedNodeReference(t) if t == "Missing"))
        .expect("undefined-node diagnostic for `Missing`");
    assert_eq!(diag.location.line, 3, "should point at exit line, got {}", diag.location.line);
}

#[test]
fn undefined_restart_target_diagnostic_points_at_defaults_field_line() {
    let src = "workflow F\n  start: A\n  exit: A\n  defaults\n    restart_target: Missing\n  agent A\n    prompt: x\n    model: m\n    provider: p\n";
    let err = parse(src, "test.dip").expect_err("expected validation failure");
    let diag = err
        .diagnostics()
        .iter()
        .find(|d| matches!(&d.kind, DiagnosticKind::UndefinedNodeReference(t) if t == "Missing"))
        .expect("undefined-node diagnostic for `Missing`");
    assert_eq!(diag.location.line, 5, "should point at restart_target line, got {}", diag.location.line);
}

#[test]
fn diagnostic_messages_are_exact() {
    let src = "workflow F\n  start: A\n  exit: A\n  agent A\n    prompt: x\n    goal_gate: yes\n    max_turns: -1\n    bogus: 1\n  edges\n    A -> Nope\n";
    let err = parse(src, "t.dip").unwrap_err();
    let msgs: Vec<String> = err.diagnostics().iter().map(|d| d.render()).collect();
    assert!(msgs.contains(&"t.dip:6:5: error: `goal_gate` requires true or false, got `yes`".to_string()), "{:?}", msgs);
    assert!(msgs.contains(&"t.dip:7:5: error: invalid integer \"-1\" for max_turns".to_string()), "{:?}", msgs);
    assert!(msgs.contains(&"t.dip:8:5: error: unknown agent field `bogus`".to_string()), "{:?}", msgs);
    assert!(msgs.contains(&"t.dip:10:1: error: edge `to` references undefined node `Nope`".to_string()), "{:?}", msgs);
}

#[test]
fn diagnostics_come_parser_first_then_references() {
    let src = "workflow F\n  start: A\n  exit: A\n  agent A\n    prompt: x\n    colour: red\n  edges\n    A -> Z\n";
    let err = parse(src, "t.dip").unwrap_err();
    let ds = err.diagnostics();
    assert_eq!(ds.len(), 2);
    assert!(matches!(&ds[0].kind, DiagnosticKind::UnknownField { scope, name } if scope == "agent" && name == "colour"));
    assert_eq!(ds[0].location.line, 6);
    assert!(matches!(&ds[1].kind, DiagnosticKind::UndefinedNodeReference(t) if t == "Z"));
    assert_eq!(ds[1].location.line, 8);
    assert_eq!(ds[1].message, "edge `to` references undefined node `Z`");
}
