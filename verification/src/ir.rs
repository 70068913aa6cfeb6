//! The intermediate representation of a Dippin workflow, shared between the
//! parser and the DOT exporter.
use vstd::prelude::*;
use indexmap::IndexMap;
use std::hash::RandomState;
use crate::duration::Duration;

verus! {

#[verifier::external_type_specification]
#[verifier::external_body]
#[verifier::reject_recursive_types(K)]
#[verifier::reject_recursive_types(V)]
#[verifier::reject_recursive_types(S)]
pub struct ExIndexMap<K, V, S>(IndexMap<K, V, S>);

/// The entries of an insertion-ordered string map, in their order, each as its
/// key's and value's characters.
pub uninterp spec fn entries(m: IndexMap<String, String, RandomState>) -> Seq<(Seq<char>, Seq<char>)>;

/// The entries after inserting `(k, v)`: an entry with key `k` keeps its place
/// and takes the new value; otherwise the pair is added last.
pub open spec fn entries_insert(
    s: Seq<(Seq<char>, Seq<char>)>,
    k: Seq<char>,
    v: Seq<char>,
) -> Seq<(Seq<char>, Seq<char>)>
    decreases s.len(),
{
    if s.len() == 0 {
        seq![(k, v)]
    } else if s[0].0 == k {
        seq![(k, v)] + s.drop_first()
    } else {
        seq![s[0]] + entries_insert(s.drop_first(), k, v)
    }
}

/// `IndexMap::new`: a map with no entries.
#[verifier::external_body]
pub(crate) fn new_string_map() -> (m: IndexMap<String, String, RandomState>)
    ensures
        entries(m) == Seq::<(Seq<char>, Seq<char>)>::empty(),
{
    IndexMap::new()
}

/// `IndexMap::insert`: an existing equal key keeps its position and gets the
/// new value; a new key is appended last.
#[verifier::external_body]
pub(crate) fn string_map_insert(m: &mut IndexMap<String, String, RandomState>, k: String, v: String)
    ensures
        entries(*final(m)) == entries_insert(entries(*old(m)), k@, v@),
{
    m.insert(k, v);
}

} // verus!

verus! {

/// Position of a construct in a source file (1-based line and column).
#[derive(Debug, Clone, PartialEq, Eq)]
pub struct SourceLocation {
    pub file: String,
    pub line: usize,
    pub column: usize,
}

impl Default for SourceLocation {
    fn default() -> (r: Self)
        ensures
            r.file@ == Seq::<char>::empty(),
            r.line == 0,
            r.column == 0,
    {
        SourceLocation { file: String::new(), line: 0, column: 0 }
    }
}

/// Graph-level configuration that applies to every node unless overridden.
#[derive(Debug, Clone)]
pub struct WorkflowDefaults {
    pub model: String,
    pub provider: String,
    pub retry_policy: String,
    pub max_retries: u32,
    pub fidelity: String,
    pub max_restarts: u32,
    pub restart_target: String,
    pub cache_tools: bool,
    pub compaction: String,
    pub on_resume: String,
}

impl Default for WorkflowDefaults {
    fn default() -> (r: Self)
        ensures
            r.model@.len() == 0 && r.provider@.len() == 0 && r.retry_policy@.len() == 0,
            r.max_retries == 0 && r.max_restarts == 0 && !r.cache_tools,
            r.fidelity@.len() == 0 && r.restart_target@.len() == 0,
            r.compaction@.len() == 0 && r.on_resume@.len() == 0,
    {
        WorkflowDefaults {
            model: String::new(),
            provider: String::new(),
            retry_policy: String::new(),
            max_retries: 0,
            fidelity: String::new(),
            max_restarts: 0,
            restart_target: String::new(),
            cache_tools: false,
            compaction: String::new(),
            on_resume: String::new(),
        }
    }
}

/// The kind of a workflow step.
#[derive(Debug, Clone, Copy, PartialEq, Eq, Hash, Structural)]
pub enum NodeKind {
    Agent,
    Human,
    Tool,
    Parallel,
    FanIn,
    Subgraph,
}

/// Configuration of an LLM agent step.
#[derive(Debug)]
pub struct AgentConfig {
    pub prompt: String,
    pub system_prompt: String,
    pub model: String,
    pub provider: String,
    pub max_turns: u32,
    pub cmd_timeout: Duration,
    pub cache_tools: bool,
    pub compaction: String,
    /// The threshold as written in the source: a valid floating-point literal.
    pub compaction_threshold: String,
    pub reasoning_effort: String,
    pub fidelity: String,
    pub auto_status: bool,
    pub goal_gate: bool,
    pub response_format: String,
    pub response_schema: String,
    pub params: IndexMap<String, String>,
}


impl Default for AgentConfig {
    fn default() -> (r: Self)
        ensures
            r.prompt@.len() == 0 && r.system_prompt@.len() == 0 && r.model@.len() == 0,
            r.provider@.len() == 0 && r.max_turns == 0 && r.cmd_timeout.0 == 0,
            !r.cache_tools && r.compaction@.len() == 0 && r.compaction_threshold@ == seq!['0'],
            r.reasoning_effort@.len() == 0 && r.fidelity@.len() == 0,
            !r.auto_status && !r.goal_gate,
            r.response_format@.len() == 0 && r.response_schema@.len() == 0,
            entries(r.params).len() == 0,
    {
        let zero = vec!['0'];
        AgentConfig {
            prompt: String::new(),
            system_prompt: String::new(),
            model: String::new(),
            provider: String::new(),
            max_turns: 0,
            cmd_timeout: Duration(0),
            cache_tools: false,
            compaction: String::new(),
            compaction_threshold: crate::text::string_of(zero.as_slice()),
            reasoning_effort: String::new(),
            fidelity: String::new(),
            auto_status: false,
            goal_gate: false,
            response_format: String::new(),
            response_schema: String::new(),
            params: new_string_map(),
        }
    }
}

/// Configuration of a human gate step.
#[derive(Debug, Clone)]
pub struct HumanConfig {
    pub mode: String,
    pub default: String,
    pub prompt: String,
    pub questions_key: String,
    pub answers_key: String,
}

impl Default for HumanConfig {
    fn default() -> (r: Self)
        ensures
            r.mode@.len() == 0 && r.default@.len() == 0 && r.prompt@.len() == 0,
            r.questions_key@.len() == 0 && r.answers_key@.len() == 0,
    {
        HumanConfig {
            mode: String::new(),
            default: String::new(),
            prompt: String::new(),
            questions_key: String::new(),
            answers_key: String::new(),
        }
    }
}

/// Configuration of a shell command step.
#[derive(Debug, Clone)]
pub struct ToolConfig {
    pub command: String,
    pub timeout: Duration,
    pub outputs: Vec<String>,
}

impl Default for ToolConfig {
    fn default() -> (r: Self)
        ensures
            r.command@.len() == 0 && r.timeout.0 == 0 && r.outputs@.len() == 0,
    {
        ToolConfig { command: String::new(), timeout: Duration(0), outputs: Vec::new() }
    }
}

/// Configuration of a fan-out step.
#[derive(Debug, Clone)]
pub struct ParallelConfig {
    pub targets: Vec<String>,
    pub branches: Vec<BranchConfig>,
}

impl Default for ParallelConfig {
    fn default() -> (r: Self)
        ensures
            r.targets@.len() == 0 && r.branches@.len() == 0,
    {
        ParallelConfig { targets: Vec::new(), branches: Vec::new() }
    }
}

/// Per-branch configuration of a block-form parallel step.
#[derive(Debug, Clone)]
pub struct BranchConfig {
    pub target: String,
    pub model: String,
    pub provider: String,
    pub fidelity: String,
}

impl Default for BranchConfig {
    fn default() -> (r: Self)
        ensures
            r.target@.len() == 0 && r.model@.len() == 0 && r.provider@.len() == 0
                && r.fidelity@.len() == 0,
    {
        BranchConfig {
            target: String::new(),
            model: String::new(),
            provider: String::new(),
            fidelity: String::new(),
        }
    }
}

/// Configuration of a join step.
#[derive(Debug, Clone)]
pub struct FanInConfig {
    pub sources: Vec<String>,
}

impl Default for FanInConfig {
    fn default() -> (r: Self)
        ensures
            r.sources@.len() == 0,
    {
        FanInConfig { sources: Vec::new() }
    }
}

/// Configuration of an embedded sub-pipeline step.
#[derive(Debug)]
pub struct SubgraphConfig {
    pub ref_path: String,
    pub params: IndexMap<String, String>,
}

impl Default for SubgraphConfig {
    fn default() -> (r: Self)
        ensures
            r.ref_path@.len() == 0 && entries(r.params).len() == 0,
    {
        SubgraphConfig { ref_path: String::new(), params: new_string_map() }
    }
}

/// Kind-specific configuration of a step.
#[derive(Debug)]
pub enum NodeConfig {
    Agent(AgentConfig),
    Human(HumanConfig),
    Tool(ToolConfig),
    Parallel(ParallelConfig),
    FanIn(FanInConfig),
    Subgraph(SubgraphConfig),
}

/// Retry behaviour of a step.
#[derive(Debug, Clone)]
pub struct RetryConfig {
    pub policy: String,
    pub max_retries: u32,
    pub base_delay: Duration,
    pub retry_target: String,
    pub fallback_target: String,
}

impl Default for RetryConfig {
    fn default() -> (r: Self)
        ensures
            r.policy@.len() == 0 && r.max_retries == 0 && r.base_delay.0 == 0,
            r.retry_target@.len() == 0 && r.fallback_target@.len() == 0,
    {
        RetryConfig {
            policy: String::new(),
            max_retries: 0,
            base_delay: Duration(0),
            retry_target: String::new(),
            fallback_target: String::new(),
        }
    }
}

/// The context keys a step reads and writes.
#[derive(Debug, Clone)]
pub struct NodeIO {
    pub reads: Vec<String>,
    pub writes: Vec<String>,
}

impl Default for NodeIO {
    fn default() -> (r: Self)
        ensures
            r.reads@.len() == 0 && r.writes@.len() == 0,
    {
        NodeIO { reads: Vec::new(), writes: Vec::new() }
    }
}

/// A single step of the workflow.
#[derive(Debug)]
pub struct Node {
    pub id: String,
    pub kind: NodeKind,
    pub label: String,
    pub classes: Vec<String>,
    pub config: NodeConfig,
    pub retry: RetryConfig,
    pub io: NodeIO,
    pub source: SourceLocation,
}

/// A raw boolean expression guarding an edge.
#[derive(Debug, Clone)]
pub struct Condition {
    pub raw: String,
}

/// A connection between two steps.
#[derive(Debug, Clone)]
pub struct Edge {
    pub from: String,
    pub to: String,
    pub label: String,
    pub condition: Option<Condition>,
    pub weight: u32,
    pub restart: bool,
    pub source: SourceLocation,
}

/// What a stylesheet rule targets.
#[derive(Debug, Clone, PartialEq, Eq)]
pub enum StyleSelector {
    Universal,
    Class(String),
    Id(String),
    Kind(String),
}

/// A stylesheet rule: a selector and its properties in source order.
#[derive(Debug)]
pub struct StylesheetRule {
    pub selector: StyleSelector,
    pub properties: IndexMap<String, String>,
}

/// A complete workflow.
#[derive(Debug)]
pub struct Workflow {
    pub name: String,
    pub version: String,
    pub goal: String,
    pub start: String,
    pub exit: String,
    pub defaults: WorkflowDefaults,
    pub nodes: Vec<Node>,
    pub edges: Vec<Edge>,
    pub stylesheet: Vec<StylesheetRule>,
}

/// Whether every step and every edge of `w` was read from the file `f`.
pub open spec fn located_in(w: Workflow, f: Seq<char>) -> bool {
    &&& forall|i: int| 0 <= i < w.nodes@.len() ==> (#[trigger] w.nodes@[i]).source.file@ == f
    &&& forall|i: int| 0 <= i < w.edges@.len() ==> (#[trigger] w.edges@[i]).source.file@ == f
}

impl Default for Workflow {
    fn default() -> (r: Self)
        ensures
            r.name@.len() == 0 && r.version@.len() == 0 && r.goal@.len() == 0,
            r.start@.len() == 0 && r.exit@.len() == 0,
            r.defaults.restart_target@.len() == 0,
            r.defaults.model@.len() == 0 && r.defaults.provider@.len() == 0,
            r.defaults.retry_policy@.len() == 0 && r.defaults.fidelity@.len() == 0,
            r.defaults.compaction@.len() == 0 && r.defaults.on_resume@.len() == 0,
            r.defaults.max_retries == 0 && r.defaults.max_restarts == 0 && !r.defaults.cache_tools,
            r.nodes@.len() == 0 && r.edges@.len() == 0 && r.stylesheet@.len() == 0,
    {
        Workflow {
            name: String::new(),
            version: String::new(),
            goal: String::new(),
            start: String::new(),
            exit: String::new(),
            defaults: WorkflowDefaults::default(),
            nodes: Vec::new(),
            edges: Vec::new(),
            stylesheet: Vec::new(),
        }
    }
}

} // verus!

verus! {

/// The kind a keyword names, if it names one.
pub open spec fn kind_of_name(s: Seq<char>) -> Option<NodeKind> {
    if s == "agent"@ {
        Some(NodeKind::Agent)
    } else if s == "human"@ {
        Some(NodeKind::Human)
    } else if s == "tool"@ {
        Some(NodeKind::Tool)
    } else if s == "parallel"@ {
        Some(NodeKind::Parallel)
    } else if s == "fan_in"@ {
        Some(NodeKind::FanIn)
    } else if s == "subgraph"@ {
        Some(NodeKind::Subgraph)
    } else {
        None
    }
}

/// Reads a step keyword.
pub fn node_kind_from_name(s: &[char]) -> (r: Option<NodeKind>)
    ensures
        r == kind_of_name(s@),
{
    if crate::text::eq_lit(s, "agent") {
        Some(NodeKind::Agent)
    } else if crate::text::eq_lit(s, "human") {
        Some(NodeKind::Human)
    } else if crate::text::eq_lit(s, "tool") {
        Some(NodeKind::Tool)
    } else if crate::text::eq_lit(s, "parallel") {
        Some(NodeKind::Parallel)
    } else if crate::text::eq_lit(s, "fan_in") {
        Some(NodeKind::FanIn)
    } else if crate::text::eq_lit(s, "subgraph") {
        Some(NodeKind::Subgraph)
    } else {
        None
    }
}

/// The message for a word that names no step kind.
pub open spec fn unknown_kind_message(s: Seq<char>) -> Seq<char> {
    "unknown node kind: "@ + s
}

/// Reads a step keyword, with the message `unknown node kind: <word>` for
/// any other word.
pub fn node_kind_parse(s: &str) -> (r: Result<NodeKind, String>)
    ensures
        match r {
            Ok(k) => kind_of_name(s@) == Some(k),
            Err(m) => kind_of_name(s@) is None && m@ == unknown_kind_message(s@),
        },
{
    let cs = crate::text::chars_of(s);
    match node_kind_from_name(cs.as_slice()) {
        Some(k) => Ok(k),
        None => {
            let mut m: Vec<char> = Vec::new();
            crate::text::push_lit(&mut m, "unknown node kind: ");
            crate::text::push_chars(&mut m, cs.as_slice());
            Err(crate::text::string_of(m.as_slice()))
        },
    }
}

impl std::str::FromStr for NodeKind {
    type Err = String;

    fn from_str(s: &str) -> (r: Result<Self, Self::Err>)
        ensures
            match r {
                Ok(k) => kind_of_name(s@) == Some(k),
                Err(m) => kind_of_name(s@) is None && m@ == unknown_kind_message(s@),
            },
    {
        node_kind_parse(s)
    }
}

/// Whether `c` is the configuration that a freshly declared step of its kind
/// carries: every text empty, every count zero, every flag off, every list
/// and map empty (an agent's threshold reads `0`).
pub open spec fn is_default_config(c: NodeConfig) -> bool {
    match c {
        NodeConfig::Agent(r) => {
            &&& r.prompt@.len() == 0 && r.system_prompt@.len() == 0 && r.model@.len() == 0
            &&& r.provider@.len() == 0 && r.max_turns == 0 && r.cmd_timeout.0 == 0
            &&& !r.cache_tools && r.compaction@.len() == 0 && r.compaction_threshold@ == seq!['0']
            &&& r.reasoning_effort@.len() == 0 && r.fidelity@.len() == 0
            &&& !r.auto_status && !r.goal_gate
            &&& r.response_format@.len() == 0 && r.response_schema@.len() == 0
            &&& entries(r.params).len() == 0
        },
        NodeConfig::Human(r) => {
            &&& r.mode@.len() == 0 && r.default@.len() == 0 && r.prompt@.len() == 0
            &&& r.questions_key@.len() == 0 && r.answers_key@.len() == 0
        },
        NodeConfig::Tool(r) => r.command@.len() == 0 && r.timeout.0 == 0 && r.outputs@.len() == 0,
        NodeConfig::Parallel(r) => r.targets@.len() == 0 && r.branches@.len() == 0,
        NodeConfig::FanIn(r) => r.sources@.len() == 0,
        NodeConfig::Subgraph(r) => r.ref_path@.len() == 0 && entries(r.params).len() == 0,
    }
}

/// The kind whose configuration `c` is.
pub open spec fn config_kind(c: NodeConfig) -> NodeKind {
    match c {
        NodeConfig::Agent(_) => NodeKind::Agent,
        NodeConfig::Human(_) => NodeKind::Human,
        NodeConfig::Tool(_) => NodeKind::Tool,
        NodeConfig::Parallel(_) => NodeKind::Parallel,
        NodeConfig::FanIn(_) => NodeKind::FanIn,
        NodeConfig::Subgraph(_) => NodeKind::Subgraph,
    }
}

/// The fresh configuration for a step of kind `kind`.
pub fn default_node_config(kind: &NodeKind) -> (r: NodeConfig)
    ensures
        config_kind(r) == *kind,
        is_default_config(r),
{
    match kind {
        NodeKind::Agent => NodeConfig::Agent(AgentConfig::default()),
        NodeKind::Human => NodeConfig::Human(HumanConfig::default()),
        NodeKind::Tool => NodeConfig::Tool(ToolConfig::default()),
        NodeKind::Parallel => NodeConfig::Parallel(ParallelConfig::default()),
        NodeKind::FanIn => NodeConfig::FanIn(FanInConfig::default()),
        NodeKind::Subgraph => NodeConfig::Subgraph(SubgraphConfig::default()),
    }
}

} // verus!
