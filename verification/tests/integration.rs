use dippin_parser::{parse, NodeConfig};

#[test]
fn test_single_node_workflow() {
    let src = "workflow Solo\n  start: A\n  exit: A\n  agent A\n    prompt: x\n    model: m\n    provider: p\n";
    let wf = parse(src, "solo.dip").unwrap();
    assert_eq!(wf.nodes.len(), 1);
    assert!(wf.edges.is_empty());
}

#[test]
fn test_long_lines() {
    let prompt = "x".repeat(8192);
    let src = format!(
        "workflow Long\n  start: A\n  exit: A\n  agent A\n    prompt: \"{}\"\n    model: m\n    provider: p\n",
        prompt
    );
    let wf = parse(&src, "long.dip").unwrap();
    let NodeConfig::Agent(cfg) = &wf.nodes[0].config else {
        panic!("expected agent config");
    };
    assert_eq!(cfg.prompt.len(), 8192);
}

#[test]
fn test_trailing_whitespace_tolerated() {
    let src = "workflow F   \n  start: A\n  exit: A\n  agent A\n    prompt: x   \n    model: m\n    provider: p\n";
    let wf = parse(src, "ws.dip").unwrap();
    assert_eq!(wf.name, "F");
}
