use dippin_parser::ir::default_node_config;
use dippin_parser::{NodeConfig, NodeKind};

#[test]
fn test_node_kind_from_str() {
    assert_eq!("agent".parse::<NodeKind>(), Ok(NodeKind::Agent));
    assert_eq!("human".parse::<NodeKind>(), Ok(NodeKind::Human));
    assert_eq!("tool".parse::<NodeKind>(), Ok(NodeKind::Tool));
    assert_eq!("parallel".parse::<NodeKind>(), Ok(NodeKind::Parallel));
    assert_eq!("fan_in".parse::<NodeKind>(), Ok(NodeKind::FanIn));
    assert_eq!("subgraph".parse::<NodeKind>(), Ok(NodeKind::Subgraph));
    assert!("unknown".parse::<NodeKind>().is_err());
}

#[test]
fn test_default_node_config() {
    match default_node_config(&NodeKind::Agent) {
        NodeConfig::Agent(cfg) => assert!(cfg.params.is_empty()),
        _ => panic!("expected AgentConfig"),
    }
    match default_node_config(&NodeKind::Human) {
        NodeConfig::Human(_) => {}
        _ => panic!("expected HumanConfig"),
    }
    match default_node_config(&NodeKind::Tool) {
        NodeConfig::Tool(_) => {}
        _ => panic!("expected ToolConfig"),
    }
}

#[test]
fn node_kind_error_message() {
    assert_eq!("wizard".parse::<NodeKind>(), Err("unknown node kind: wizard".to_string()));
    match default_node_config(&NodeKind::Agent) {
        NodeConfig::Agent(cfg) => assert_eq!(cfg.compaction_threshold, "0"),
        _ => panic!("expected AgentConfig"),
    }
}
