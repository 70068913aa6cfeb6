use dippin_parser::export_dot::{dot_id, dot_quote};
use dippin_parser::parser::{parse_selector, split_comma, split_key_value, unquote_raw, parse_stylesheet_raw};
use dippin_parser::{NodeConfig, NodeKind, Parser, StyleSelector};

#[test]
fn test_parse_minimal_workflow() {
    let input = r#"workflow Minimal
  goal: "Test workflow"
  start: Ask
  exit: Done

  human Ask
    mode: freeform

  agent Done
    prompt:
      Complete the task.

  edges
    Ask -> Done
"#;
    let parser = Parser::new(input, "test.dip");
    let wf = parser.parse().expect("should parse");
    assert_eq!(wf.name, "Minimal");
    assert_eq!(wf.goal, "Test workflow");
    assert_eq!(wf.start, "Ask");
    assert_eq!(wf.exit, "Done");
    assert_eq!(wf.nodes.len(), 2);
    assert_eq!(wf.edges.len(), 1);

    let ask = wf.nodes.iter().find(|n| n.id == "Ask").unwrap();
    assert_eq!(ask.kind, NodeKind::Human);
    match &ask.config {
        NodeConfig::Human(cfg) => assert_eq!(cfg.mode, "freeform"),
        _ => panic!("expected HumanConfig"),
    }

    let done = wf.nodes.iter().find(|n| n.id == "Done").unwrap();
    assert_eq!(done.kind, NodeKind::Agent);
    match &done.config {
        NodeConfig::Agent(cfg) => assert_eq!(cfg.prompt, "Complete the task."),
        _ => panic!("expected AgentConfig"),
    }

    assert_eq!(wf.edges[0].from, "Ask");
    assert_eq!(wf.edges[0].to, "Done");
}

#[test]
fn test_parse_edge_with_condition() {
    let input = r#"workflow Test
  goal: test
  start: A
  exit: B

  agent A
    prompt: do stuff

  agent B
    prompt: done

  edges
    A -> B when ctx.outcome = success label: pass
"#;
    let parser = Parser::new(input, "test.dip");
    let wf = parser.parse().expect("should parse");
    assert_eq!(wf.edges.len(), 1);
    let edge = &wf.edges[0];
    assert!(edge.condition.is_some());
    assert_eq!(edge.condition.as_ref().unwrap().raw, "ctx.outcome = success");
    assert_eq!(edge.label, "pass");
}

#[test]
fn test_parse_edge_with_restart() {
    let input = r#"workflow Test
  goal: test
  start: A
  exit: B

  agent A
    prompt: do

  agent B
    prompt: done

  edges
    A -> B restart: true
"#;
    let parser = Parser::new(input, "test.dip");
    let wf = parser.parse().expect("should parse");
    assert!(wf.edges[0].restart);
}

#[test]
fn test_parse_parallel_and_fan_in() {
    let input = r#"workflow Test
  goal: test
  start: S
  exit: E

  agent S
    prompt: start

  parallel P -> A, B

  agent A
    prompt: a

  agent B
    prompt: b

  fan_in J <- A, B

  agent E
    prompt: end

  edges
    S -> P
    P -> A
    P -> B
    A -> J
    B -> J
    J -> E
"#;
    let parser = Parser::new(input, "test.dip");
    let wf = parser.parse().expect("should parse");

    let p = wf.nodes.iter().find(|n| n.id == "P").unwrap();
    assert_eq!(p.kind, NodeKind::Parallel);
    match &p.config {
        NodeConfig::Parallel(cfg) => {
            assert_eq!(cfg.targets, vec!["A", "B"]);
        }
        _ => panic!("expected ParallelConfig"),
    }

    let j = wf.nodes.iter().find(|n| n.id == "J").unwrap();
    assert_eq!(j.kind, NodeKind::FanIn);
    match &j.config {
        NodeConfig::FanIn(cfg) => {
            assert_eq!(cfg.sources, vec!["A", "B"]);
        }
        _ => panic!("expected FanInConfig"),
    }
}

#[test]
fn test_parse_defaults() {
    let input = r#"workflow Test
  goal: test
  start: A
  exit: A

  defaults
    max_retries: 3
    fidelity: summary:medium
    model: gpt-4

  agent A
    prompt: do

  edges
    A -> A
"#;
    let parser = Parser::new(input, "test.dip");
    let wf = parser.parse().expect("should parse");
    assert_eq!(wf.defaults.max_retries, 3);
    assert_eq!(wf.defaults.fidelity, "summary:medium");
    assert_eq!(wf.defaults.model, "gpt-4");
}

#[test]
fn test_parse_tool_node() {
    let input = r#"workflow Test
  goal: test
  start: T
  exit: T

  tool T
    label: "Run Tests"
    command:
      set -eu
      echo hello

  edges
    T -> T
"#;
    let parser = Parser::new(input, "test.dip");
    let wf = parser.parse().expect("should parse");
    let t = wf.nodes.iter().find(|n| n.id == "T").unwrap();
    assert_eq!(t.kind, NodeKind::Tool);
    assert_eq!(t.label, "Run Tests");
    match &t.config {
        NodeConfig::Tool(cfg) => {
            assert_eq!(cfg.command, "set -eu\necho hello");
        }
        _ => panic!("expected ToolConfig"),
    }
}

#[test]
fn test_parse_agent_with_model() {
    let input = r#"workflow Test
  goal: test
  start: A
  exit: A

  agent A
    label: "Test Agent"
    model: large-model-4-6
    provider: anthropic
    reasoning_effort: high
    goal_gate: true
    prompt:
      Do the thing.

  edges
    A -> A
"#;
    let parser = Parser::new(input, "test.dip");
    let wf = parser.parse().expect("should parse");
    let a = wf.nodes.iter().find(|n| n.id == "A").unwrap();
    match &a.config {
        NodeConfig::Agent(cfg) => {
            assert_eq!(cfg.model, "large-model-4-6");
            assert_eq!(cfg.provider, "anthropic");
            assert_eq!(cfg.reasoning_effort, "high");
            assert!(cfg.goal_gate);
            assert_eq!(cfg.prompt, "Do the thing.");
        }
        _ => panic!("expected AgentConfig"),
    }
}

#[test]
fn test_unquote_raw() {
    assert_eq!(unquote_raw("hello"), "hello");
    assert_eq!(unquote_raw("\"hello\""), "hello");
    assert_eq!(unquote_raw("\"he\\\"llo\""), "he\"llo");
    assert_eq!(unquote_raw(""), "");
}

#[test]
fn test_unquote_raw_only_handles_quote_and_backslash() {
    let result = unquote_raw(r#""line1\nline2""#);
    assert_eq!(result, r"line1\nline2");
}

#[test]
fn test_workflow_version_field() {
    let src = "workflow F\n  version: 1.0\n  start: A\n  exit: A\n  agent A\n    prompt: x\n    model: m\n    provider: p\n";
    let wf = dippin_parser::parse(src, "t.dip").unwrap();
    assert_eq!(wf.version, "1.0");
}

#[test]
fn test_unknown_edge_attribute_is_silent() {
    let src = "workflow F\n  start: A\n  exit: B\n  agent A\n    prompt: x\n    model: m\n    provider: p\n  agent B\n    prompt: y\n    model: m\n    provider: p\n  edges\n    A -> B foo: bar\n";
    dippin_parser::parse(src, "t.dip").expect("unknown edge attr should be ignored");
}

#[test]
fn test_split_comma() {
    assert_eq!(split_comma("a, b, c"), vec!["a", "b", "c"]);
    assert_eq!(split_comma("single"), vec!["single"]);
}

#[test]
fn helpers_split_key_value_and_selectors() {
    assert_eq!(split_key_value(" a : b:c "), Some(("a".to_string(), "b:c".to_string())));
    assert_eq!(split_key_value("no colon"), None);
    assert_eq!(parse_selector("*"), StyleSelector::Universal);
    assert_eq!(parse_selector(".fast"), StyleSelector::Class("fast".to_string()));
    assert_eq!(parse_selector("#A"), StyleSelector::Id("A".to_string()));
    assert_eq!(parse_selector("agent"), StyleSelector::Kind("agent".to_string()));
    assert_eq!(split_comma(""), vec![""]);
}

#[test]
fn stylesheet_rules_and_params() {
    let raw: Vec<char> = "* \n  model: m\n  model: n\n\n.fast\n  provider: p\nignored\n".chars().collect();
    let rules = parse_stylesheet_raw(&raw);
    assert_eq!(rules.len(), 3);
    assert_eq!(rules[0].selector, StyleSelector::Universal);
    assert_eq!(rules[0].properties.get("model").map(|s| s.as_str()), Some("n"));
    assert_eq!(rules[1].selector, StyleSelector::Class("fast".to_string()));
    assert_eq!(rules[1].properties.get("provider").map(|s| s.as_str()), Some("p"));
    assert!(rules[2].properties.is_empty());

    let src = "workflow F\n  start: A\n  exit: A\n  agent A\n    prompt: x\n    params:\n      a: \"1\"\n      b: two\n    cmd_timeout: 1m30s\n    max_turns: 7\n    compaction_threshold: 0.75\n";
    let wf = dippin_parser::parse(src, "t.dip").unwrap();
    match &wf.nodes[0].config {
        NodeConfig::Agent(cfg) => {
            assert_eq!(cfg.params.get("a").map(|s| s.as_str()), Some("1"));
            assert_eq!(cfg.params.get("b").map(|s| s.as_str()), Some("two"));
            assert_eq!(cfg.cmd_timeout.0, 90_000_000_000);
            assert_eq!(cfg.max_turns, 7);
            assert_eq!(cfg.compaction_threshold, "0.75");
        }
        _ => panic!("expected AgentConfig"),
    }
}

#[test]
fn parallel_block_and_branches() {
    let src = "workflow F\n  start: P\n  exit: P\n  parallel P\n    branch: A\n      model: m\n    branch: B\n  agent A\n    prompt: x\n  agent B\n    prompt: y\n";
    let wf = dippin_parser::parse(src, "t.dip").unwrap();
    let p = wf.nodes.iter().find(|n| n.id == "P").unwrap();
    match &p.config {
        NodeConfig::Parallel(cfg) => {
            assert_eq!(cfg.targets, vec!["A", "B"]);
            assert_eq!(cfg.branches[0].model, "m");
        }
        _ => panic!("expected ParallelConfig"),
    }
}

#[test]
fn step_and_edge_locations_name_the_file() {
    let input = "workflow W\n  start: A\n  exit: B\n\n  agent A\n    prompt: go\n\n  agent B\n    prompt: stop\n\n  edges\n    A -> B\n";
    let wf = Parser::new(input, "flows/review.dip").parse().expect("should parse");
    assert_eq!(wf.nodes.len(), 2);
    assert_eq!(wf.edges.len(), 1);
    for n in &wf.nodes {
        assert_eq!(n.source.file, "flows/review.dip");
    }
    assert_eq!(wf.edges[0].source.file, "flows/review.dip");
    assert_eq!(wf.edges[0].source.line, 12);
}

#[test]
fn unquote_undoes_dot_quoting() {
    for s in ["", "plain", "with space", "quote\"inside", "back\\slash", "esc\\n", "\\\\n", "9lives", "a_b1"] {
        assert_eq!(unquote_raw(&dot_quote(s)), s);
        assert_eq!(unquote_raw(&dot_id(s)), s);
    }
    assert_ne!(dot_id("a b"), dot_id("a  b"));
    assert_eq!(dot_id("a_b1"), "a_b1");
    assert!(dot_id("9lives").starts_with('"') && dot_id("9lives").ends_with('"'));
}
