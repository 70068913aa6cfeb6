use dippin_parser::export_dot::{
    dot_id, dot_quote, escape_newlines, is_simple_dot_id, lower_condition_namespaces, node_shape,
};
use dippin_parser::{
    export_dot, export_dot_with_map, parse_to_dot, parse_to_dot_with_options, AgentConfig,
    Condition, Duration, Edge, ExportOptions, FanInConfig, HumanConfig, Node, NodeConfig, NodeIO,
    NodeKind, ParallelConfig, RankDir, RetryConfig, SourceLocation, ToolConfig, Workflow,
};

#[test]
fn test_dot_id_simple() {
    assert_eq!(dot_id("hello"), "hello");
    assert_eq!(dot_id("Hello_World"), "Hello_World");
    assert_eq!(dot_id(""), "\"\"");
}

#[test]
fn test_dot_id_needs_quoting() {
    assert_eq!(dot_id("hello world"), "\"hello world\"");
    assert_eq!(dot_id("hello-world"), "\"hello-world\"");
    assert_eq!(dot_id("123abc"), "\"123abc\"");
}

#[test]
fn test_dot_quote() {
    assert_eq!(dot_quote("hello"), "\"hello\"");
    assert_eq!(dot_quote("he\"llo"), "\"he\\\"llo\"");
}

#[test]
fn test_escape_newlines() {
    assert_eq!(escape_newlines("line1\nline2"), "line1\\nline2");
}

#[test]
fn test_lower_condition_namespaces() {
    assert_eq!(
        lower_condition_namespaces("ctx.outcome = success"),
        "outcome = success"
    );
}

fn agent(id: &str, label: &str) -> Node {
    Node {
        id: id.to_string(),
        kind: NodeKind::Agent,
        label: label.to_string(),
        classes: Vec::new(),
        config: NodeConfig::Agent(AgentConfig::default()),
        retry: RetryConfig::default(),
        io: NodeIO::default(),
        source: SourceLocation::default(),
    }
}

#[test]
fn test_export_minimal_workflow() {
    let wf = Workflow {
        name: "Test".to_string(),
        start: "A".to_string(),
        exit: "B".to_string(),
        nodes: vec![agent("A", "Start"), agent("B", "End")],
        edges: vec![Edge {
            from: "A".to_string(),
            to: "B".to_string(),
            label: String::new(),
            condition: None,
            weight: 0,
            restart: false,
            source: SourceLocation::default(),
        }],
        ..Default::default()
    };

    let dot = export_dot(&wf, &ExportOptions::default());
    assert!(dot.contains("digraph Test {"));
    assert!(dot.contains("rankdir=TB;"));
    assert!(dot.contains("A [label=\"Start\", shape=\"Mdiamond\"]"));
    assert!(dot.contains("B [label=\"End\", shape=\"Msquare\"]"));
    assert!(dot.contains("A -> B;"));
}

#[test]
fn test_export_edge_with_condition() {
    let wf = Workflow {
        name: "Test".to_string(),
        start: "A".to_string(),
        exit: "B".to_string(),
        nodes: vec![agent("A", ""), agent("B", "")],
        edges: vec![Edge {
            from: "A".to_string(),
            to: "B".to_string(),
            label: "pass".to_string(),
            condition: Some(Condition {
                raw: "ctx.outcome = success".to_string(),
            }),
            weight: 0,
            restart: false,
            source: SourceLocation::default(),
        }],
        ..Default::default()
    };

    let dot = export_dot(&wf, &ExportOptions::default());
    assert!(dot.contains("condition="));
    assert!(dot.contains("outcome = success"));
    assert!(dot.contains("label=\"pass\""));
}

#[test]
fn test_export_node_shapes() {
    assert_eq!(node_shape(&NodeKind::Agent), "box");
    assert_eq!(node_shape(&NodeKind::Human), "hexagon");
    assert_eq!(node_shape(&NodeKind::Tool), "parallelogram");
    assert_eq!(node_shape(&NodeKind::Parallel), "component");
    assert_eq!(node_shape(&NodeKind::FanIn), "tripleoctagon");
    assert_eq!(node_shape(&NodeKind::Subgraph), "tab");
}

#[test]
fn test_dot_id_does_not_quote_dot_keywords() {
    assert_eq!(dot_id("node"), "node");
    assert_eq!(dot_id("edge"), "edge");
    assert_eq!(dot_id("subgraph"), "subgraph");
}

#[test]
fn test_export_with_execution_path() {
    let src = "workflow F\n  start: A\n  exit: B\n  agent A\n    prompt: x\n    model: m\n    provider: p\n  agent B\n    prompt: y\n    model: m\n    provider: p\n  edges\n    A -> B\n";
    let opts = ExportOptions {
        execution_path: vec!["A".into(), "B".into()],
        ..Default::default()
    };
    let dot = parse_to_dot_with_options(src, "t.dip", &opts).unwrap();
    assert!(dot.contains("[1]"), "expected [1] in: {}", dot);
    assert!(dot.contains("[2]"), "expected [2] in: {}", dot);
    assert!(dot.contains("fillcolor"));
}

#[test]
fn test_export_restart_edge() {
    let wf = Workflow {
        name: "Test".to_string(),
        nodes: Vec::new(),
        edges: vec![Edge {
            from: "A".to_string(),
            to: "B".to_string(),
            label: String::new(),
            condition: None,
            weight: 0,
            restart: true,
            source: SourceLocation::default(),
        }],
        ..Default::default()
    };

    let dot = export_dot(&wf, &ExportOptions::default());
    assert!(dot.contains("restart=\"true\""));
    assert!(dot.contains("style=\"dashed\""));
}

#[test]
fn export_exact_text_of_small_workflow() {
    let wf = Workflow {
        name: "Test".to_string(),
        start: "A".to_string(),
        exit: "B".to_string(),
        nodes: vec![agent("A", "Start"), agent("B", "End")],
        edges: vec![Edge {
            from: "A".to_string(),
            to: "B".to_string(),
            label: String::new(),
            condition: Some(Condition { raw: "ctx.ok".to_string() }),
            weight: 3,
            restart: false,
            source: SourceLocation::default(),
        }],
        ..Default::default()
    };
    let dot = wf.to_dot(&ExportOptions::default());
    assert_eq!(
        dot,
        "digraph Test {\n  rankdir=TB;\n  node [fontname=\"Helvetica\"];\n  edge [fontname=\"Helvetica\"];\n  A [label=\"Start\", shape=\"Mdiamond\"];\n  B [label=\"End\", shape=\"Msquare\"];\n\n  A -> B [condition=\"ok\", label=\"ok\", weight=\"3\"];\n}\n"
    );
}

#[test]
fn export_unnamed_workflow_and_rank_dirs() {
    let wf = Workflow::default();
    let mut opts = ExportOptions::default();
    assert_eq!(
        export_dot(&wf, &opts),
        "digraph workflow {\n  rankdir=TB;\n  node [fontname=\"Helvetica\"];\n  edge [fontname=\"Helvetica\"];\n\n}\n"
    );
    opts.rank_dir = RankDir::LeftRight;
    assert!(export_dot(&wf, &opts).contains("rankdir=LR;"));
    assert_eq!(RankDir::BottomTop.as_dot(), "BT");
    assert_eq!(RankDir::RightLeft.as_dot(), "RL");
    assert_eq!(RankDir::default(), RankDir::TopBottom);
}

#[test]
fn export_includes_config_attributes_with_prompts() {
    let mut cfg = AgentConfig::default();
    cfg.prompt = "line1\nline2".to_string();
    cfg.model = "m".to_string();
    cfg.provider = "p".to_string();
    cfg.goal_gate = true;
    let mut a = agent("A", "");
    a.config = NodeConfig::Agent(cfg);
    let mut tool = agent("T", "");
    tool.kind = NodeKind::Tool;
    tool.config = NodeConfig::Tool(ToolConfig {
        command: "make".to_string(),
        timeout: Duration(90_000_000_000),
        outputs: Vec::new(),
    });
    let mut human = agent("H", "");
    human.kind = NodeKind::Human;
    human.config = NodeConfig::Human(HumanConfig {
        mode: "freeform".to_string(),
        default: "yes".to_string(),
        prompt: String::new(),
        questions_key: String::new(),
        answers_key: String::new(),
    });
    let mut par = agent("P", "");
    par.kind = NodeKind::Parallel;
    par.config = NodeConfig::Parallel(ParallelConfig {
        targets: vec!["A".to_string(), "T".to_string()],
        branches: Vec::new(),
    });
    let mut join = agent("J", "");
    join.kind = NodeKind::FanIn;
    join.config = NodeConfig::FanIn(FanInConfig {
        sources: vec!["A".to_string(), "T".to_string()],
    });
    let wf = Workflow {
        name: "W".to_string(),
        nodes: vec![a, tool, human, par, join],
        ..Default::default()
    };
    let opts = ExportOptions {
        include_prompts: true,
        highlight_goal_gates: true,
        ..Default::default()
    };
    let dot = export_dot(&wf, &opts);
    assert!(dot.contains(
        "  A [fillcolor=\"#ffcccc\", label=\"A\", model=\"m\", prompt=\"line1\\nline2\", provider=\"p\", shape=\"box\", style=\"filled\"];\n"
    ));
    assert!(dot.contains("  T [label=\"T\", shape=\"parallelogram\", timeout=\"1m30s\", tool_command=\"make\"];\n"));
    assert!(dot.contains("  H [default=\"yes\", label=\"H\", mode=\"freeform\", shape=\"hexagon\"];\n"));
    assert!(dot.contains("  P [label=\"P\", shape=\"component\", targets=\"A,T\"];\n"));
    assert!(dot.contains("  J [label=\"J\", shape=\"tripleoctagon\", sources=\"A,T\"];\n"));
}

#[test]
fn dot_quote_keeps_dot_escapes_and_doubles_other_backslashes() {
    assert_eq!(dot_quote("a\\nb"), "\"a\\nb\"");
    assert_eq!(dot_quote("a\\xb"), "\"a\\\\xb\"");
    assert_eq!(dot_quote("end\\"), "\"end\\\\\"");
    assert!(is_simple_dot_id("_x1"));
    assert!(!is_simple_dot_id("é"));
    assert_eq!(dot_id("é"), "\"é\"");
    assert_eq!(lower_condition_namespaces("ctx.a && ctx.b"), "a && b");
}

#[test]
fn export_with_map_has_same_dot_and_no_entries() {
    let wf = Workflow::default();
    let opts = ExportOptions::default();
    let c = export_dot_with_map(&wf, &opts, "");
    assert_eq!(c.dot_source, export_dot(&wf, &opts));
    assert!(c.source_map.is_empty());
}

#[test]
fn parse_to_dot_marks_start_and_exit() {
    let src = "workflow F\n  start: A\n  exit: A\n  agent A\n    prompt: x\n    model: m\n    provider: p\n";
    let dot = parse_to_dot(src, "t.dip").unwrap();
    assert!(dot.contains("  A [label=\"A\", shape=\"Mdiamond\"];\n"));
}
