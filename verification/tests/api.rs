use dippin_parser::{parse, parse_to_dot, parse_to_dot_with_map, DiagnosticKind, ExportOptions, Error, MAX_INPUT_SIZE};

#[test]
fn test_oversize_input_rejected() {
    let big = "a".repeat(MAX_INPUT_SIZE + 1);
    assert!(parse(&big, "big.dip").is_err());
}

#[test]
fn test_parse_to_dot_minimal() {
    let input = r#"workflow Minimal
  goal: "Test workflow"
  start: Ask
  exit: Done

  human Ask
    mode: freeform

  agent Done
    prompt:
      Complete the task.

  edges
    Ask -> Done
"#;
    let dot = parse_to_dot(input, "test.dip").expect("should convert");
    assert!(dot.contains("digraph Minimal {"));
    assert!(dot.contains("Ask"));
    assert!(dot.contains("Done"));
    assert!(dot.contains("Ask -> Done"));
}

#[test]
fn test_parse_and_export_round_trip() {
    let input = r#"workflow MultiProvider
  goal: "Test workflow with multiple providers"
  start: Ask
  exit: Done

  human Ask
    mode: freeform

  agent Think
    label: "Think Step"
    model: large-model-4-6
    provider: anthropic
    prompt:
      Analyze the request.

  agent Generate
    label: "Generate Step"
    model: gpt-4.1-nano
    provider: openai
    prompt:
      Generate a response.

  agent Done
    prompt:
      Finish up.

  edges
    Ask -> Think
    Think -> Generate
    Generate -> Done
"#;
    let wf = parse(input, "test.dip").expect("should parse");
    assert_eq!(wf.name, "MultiProvider");
    assert_eq!(wf.nodes.len(), 4);
    assert_eq!(wf.edges.len(), 3);

    let dot = wf.to_dot(&ExportOptions::default());
    assert!(dot.contains("digraph MultiProvider {"));
    assert!(dot.contains("Think"));
    assert!(dot.contains("Generate"));
    assert!(dot.contains("Think -> Generate"));
}

#[test]
fn parse_to_dot_with_map_matches_parse_to_dot_output() {
    let src = "workflow F\n  start: A\n  exit: A\n  agent A\n    prompt: x\n    model: m\n    provider: p\n";
    let plain = parse_to_dot(src, "t.dip").unwrap();
    let with_map = parse_to_dot_with_map(src, "t.dip").unwrap();
    assert_eq!(with_map.dot_source, plain, "dot_source must equal parse_to_dot output");
    assert!(with_map.source_map.is_empty(), "scaffold must not emit entries yet");
}

#[test]
fn oversize_input_has_one_exact_diagnostic() {
    let big = "é".repeat(MAX_INPUT_SIZE / 2 + 1);
    let err = parse(&big, "big.dip").unwrap_err();
    let Error::Parse { file, diagnostics } = &err;
    assert_eq!(file, "big.dip");
    assert_eq!(diagnostics.len(), 1);
    assert_eq!(diagnostics[0].kind, DiagnosticKind::Other);
    assert_eq!(diagnostics[0].message, "input exceeds maximum size of 10485760 bytes");
    assert_eq!(diagnostics[0].location.line, 1);
    assert_eq!(diagnostics[0].location.column, 1);
    assert_eq!(diagnostics[0].render(), "big.dip:1:1: error: input exceeds maximum size of 10485760 bytes");
}

#[test]
fn successful_parse_resolves_every_reference() {
    let src = "workflow F\n  start: A\n  exit: B\n  defaults\n    restart_target: A\n  agent A\n    prompt: x\n  agent B\n    prompt: y\n  edges\n    A -> B\n";
    let wf = parse(src, "t.dip").unwrap();
    let ids: Vec<&str> = wf.nodes.iter().map(|n| n.id.as_str()).collect();
    assert!(ids.contains(&wf.start.as_str()));
    assert!(ids.contains(&wf.exit.as_str()));
    assert!(ids.contains(&wf.defaults.restart_target.as_str()));
    for e in &wf.edges {
        assert!(ids.contains(&e.from.as_str()) && ids.contains(&e.to.as_str()));
    }
}
