//! Graphviz DOT output for a workflow.
use vstd::prelude::*;
use crate::ir::{Workflow, Node, NodeKind, NodeConfig, Edge};
use crate::text::{chars_of, string_of, push_lit, push_chars, push_decimal, decimal, join_s};
use crate::duration::display_s;

verus! {

/// The direction in which Graphviz lays out the graph.
#[derive(Debug, Clone, Copy, PartialEq, Eq, Hash, Structural)]
pub enum RankDir {
    TopBottom,
    LeftRight,
    BottomTop,
    RightLeft,
}

/// The `rankdir` value of each direction.
pub open spec fn rank_dir_text(r: RankDir) -> Seq<char> {
    match r {
        RankDir::TopBottom => "TB"@,
        RankDir::LeftRight => "LR"@,
        RankDir::BottomTop => "BT"@,
        RankDir::RightLeft => "RL"@,
    }
}

impl RankDir {
    /// The `rankdir` attribute value: `TB`, `LR`, `BT` or `RL`.
    pub fn as_dot(&self) -> (r: &'static str)
        ensures
            r@ == rank_dir_text(*self),
    {
        match self {
            RankDir::TopBottom => "TB",
            RankDir::LeftRight => "LR",
            RankDir::BottomTop => "BT",
            RankDir::RightLeft => "RL",
        }
    }
}

impl Default for RankDir {
    fn default() -> (r: Self)
        ensures
            r == RankDir::TopBottom,
    {
        RankDir::TopBottom
    }
}

/// Options for the DOT output.
#[derive(Debug, Clone)]
pub struct ExportOptions {
    /// Add prompts, commands and the other step settings as node attributes.
    pub include_prompts: bool,
    /// Layout direction; top to bottom by default.
    pub rank_dir: RankDir,
    /// Fill the agents that are goal gates.
    pub highlight_goal_gates: bool,
    /// Step ids to mark, in order, as an execution path.
    pub execution_path: Vec<String>,
}

impl Default for ExportOptions {
    fn default() -> (r: Self)
        ensures
            !r.include_prompts,
            r.rank_dir == RankDir::TopBottom,
            !r.highlight_goal_gates,
            r.execution_path@.len() == 0,
    {
        ExportOptions {
            include_prompts: false,
            rank_dir: RankDir::TopBottom,
            highlight_goal_gates: false,
            execution_path: Vec::new(),
        }
    }
}

/// Characters that follow a backslash in a DOT escape kept as it is.
pub open spec fn is_dot_escape(c: char) -> bool {
    c == 'n' || c == 'l' || c == 'r'
}

pub fn is_dot_escape_char(ch: char) -> (r: bool)
    ensures
        r == is_dot_escape(ch),
{
    ch == 'n' || ch == 'l' || ch == 'r'
}

/// The inside of a quoted DOT string: `"` becomes `\"`, a backslash before
/// `n`, `l` or `r` stays an escape, any other backslash is doubled.
pub open spec fn quote_body(s: Seq<char>) -> Seq<char>
    decreases s.len(),
{
    if s.len() == 0 {
        Seq::empty()
    } else if s[0] == '"' {
        seq!['\\', '"'] + quote_body(s.drop_first())
    } else if s[0] == '\\' {
        if s.len() > 1 && is_dot_escape(s[1]) {
            seq!['\\', s[1]] + quote_body(s.skip(2))
        } else {
            seq!['\\', '\\'] + quote_body(s.drop_first())
        }
    } else {
        seq![s[0]] + quote_body(s.drop_first())
    }
}

/// `s` as a quoted DOT string.
pub open spec fn dot_quote_s(s: Seq<char>) -> Seq<char> {
    seq!['"'] + quote_body(s) + seq!['"']
}

/// Appends `s` as a quoted DOT string.
fn push_quoted(out: &mut Vec<char>, s: &[char])
    ensures
        final(out)@ == old(out)@ + dot_quote_s(s@),
{
    out.push('"');
    let ghost start = out@;
    let mut i: usize = 0;
    assert(s@.skip(0) =~= s@);
    while i < s.len()
        invariant
            i <= s@.len(),
            out@ + quote_body(s@.skip(i as int)) == start + quote_body(s@),
        decreases s@.len() - i,
    {
        let ghost rest = s@.skip(i as int);
        let ch = s[i];
        if ch == '"' {
            assert(rest.drop_first() =~= s@.skip(i + 1));
            out.push('\\');
            out.push('"');
            i += 1;
        } else if ch == '\\' {
            if i + 1 < s.len() && is_dot_escape_char(s[i + 1]) {
                assert(rest.skip(2) =~= s@.skip(i + 2));
                assert(rest[1] == s@[i + 1]);
                out.push('\\');
                out.push(s[i + 1]);
                i += 2;
            } else {
                assert(rest.drop_first() =~= s@.skip(i + 1));
                out.push('\\');
                out.push('\\');
                i += 1;
            }
        } else {
            assert(rest.drop_first() =~= s@.skip(i + 1));
            out.push(ch);
            i += 1;
        }
        assert(out@ + quote_body(s@.skip(i as int)) =~= start + quote_body(s@));
    }
    assert(s@.skip(i as int) =~= Seq::<char>::empty());
    assert(out@ =~= start + quote_body(s@));
    out.push('"');
}

/// Wraps `s` in double quotes, escaping quotes and stray backslashes.
pub fn dot_quote(s: &str) -> (r: String)
    ensures
        r@ == dot_quote_s(s@),
{
    let v = chars_of(s);
    let mut out: Vec<char> = Vec::new();
    push_quoted(&mut out, &v);
    assert(out@ =~= dot_quote_s(s@));
    string_of(&out)
}

pub open spec fn is_ascii_digit_s(c: char) -> bool {
    '0' <= c && c <= '9'
}

pub open spec fn is_ascii_alnum_s(c: char) -> bool {
    ('0' <= c && c <= '9') || ('a' <= c && c <= 'z') || ('A' <= c && c <= 'Z')
}

/// A DOT identifier that needs no quotes: ASCII letters, digits and `_`,
/// not starting with a digit.
pub open spec fn simple_id(s: Seq<char>) -> bool {
    &&& s.len() > 0
    &&& !is_ascii_digit_s(s[0])
    &&& forall|i: int| 0 <= i < s.len() ==> is_ascii_alnum_s(#[trigger] s[i]) || s[i] == '_'
}

fn is_simple_id_chars(s: &[char]) -> (r: bool)
    ensures
        r == simple_id(s@),
{
    if s.len() == 0 {
        return false;
    }
    if '0' <= s[0] && s[0] <= '9' {
        return false;
    }
    let mut i: usize = 0;
    while i < s.len()
        invariant
            i <= s@.len(),
            forall|j: int| 0 <= j < i ==> is_ascii_alnum_s(#[trigger] s@[j]) || s@[j] == '_',
        decreases s@.len() - i,
    {
        let c = s[i];
        if !(('0' <= c && c <= '9') || ('a' <= c && c <= 'z') || ('A' <= c && c <= 'Z') || c
            == '_') {
            return false;
        }
        i += 1;
    }
    true
}

/// Whether `s` can stand in DOT without quotes.
pub fn is_simple_dot_id(s: &str) -> (r: bool)
    ensures
        r == simple_id(s@),
{
    let v = chars_of(s);
    is_simple_id_chars(&v)
}

/// `s` as a DOT identifier: bare when simple, `""` when empty, quoted otherwise.
pub open spec fn dot_id_s(s: Seq<char>) -> Seq<char> {
    if s.len() == 0 {
        seq!['"', '"']
    } else if simple_id(s) {
        s
    } else {
        dot_quote_s(s)
    }
}

fn push_id(out: &mut Vec<char>, s: &[char])
    ensures
        final(out)@ == old(out)@ + dot_id_s(s@),
{
    if s.len() == 0 {
        out.push('"');
        out.push('"');
        assert(final(out)@ =~= old(out)@ + dot_id_s(s@));
    } else if is_simple_id_chars(s) {
        push_chars(out, s);
    } else {
        push_quoted(out, s);
    }
}

/// `s` as a DOT identifier.
pub fn dot_id(s: &str) -> (r: String)
    ensures
        r@ == dot_id_s(s@),
{
    let v = chars_of(s);
    let mut out: Vec<char> = Vec::new();
    push_id(&mut out, &v);
    assert(out@ =~= dot_id_s(s@));
    string_of(&out)
}

/// `s` with each newline written as the two characters `\n`.
pub open spec fn escape_nl_s(s: Seq<char>) -> Seq<char>
    decreases s.len(),
{
    if s.len() == 0 {
        Seq::empty()
    } else {
        (if s[0] == '\n' {
            seq!['\\', 'n']
        } else {
            seq![s[0]]
        }) + escape_nl_s(s.drop_first())
    }
}

fn push_escaped_newlines(out: &mut Vec<char>, s: &[char])
    ensures
        final(out)@ == old(out)@ + escape_nl_s(s@),
{
    let ghost start = out@;
    let mut i: usize = 0;
    assert(s@.skip(0) =~= s@);
    while i < s.len()
        invariant
            i <= s@.len(),
            out@ + escape_nl_s(s@.skip(i as int)) == start + escape_nl_s(s@),
        decreases s@.len() - i,
    {
        assert(s@.skip(i as int).drop_first() =~= s@.skip(i + 1));
        if s[i] == '\n' {
            out.push('\\');
            out.push('n');
        } else {
            out.push(s[i]);
        }
        i += 1;
        assert(out@ + escape_nl_s(s@.skip(i as int)) =~= start + escape_nl_s(s@));
    }
    assert(s@.skip(i as int) =~= Seq::<char>::empty());
    assert(out@ =~= start + escape_nl_s(s@));
}

/// Replaces each newline with the DOT escape `\n`.
pub fn escape_newlines(s: &str) -> (r: String)
    ensures
        r@ == escape_nl_s(s@),
{
    let v = chars_of(s);
    let mut out: Vec<char> = Vec::new();
    push_escaped_newlines(&mut out, &v);
    assert(out@ =~= escape_nl_s(s@));
    string_of(&out)
}

/// `s` with every `ctx.` removed, scanning from the left.
pub open spec fn lower_cond_s(s: Seq<char>) -> Seq<char>
    decreases s.len(),
{
    if s.len() == 0 {
        Seq::empty()
    } else if s.len() >= 4 && s.take(4) == "ctx."@ {
        lower_cond_s(s.skip(4))
    } else {
        seq![s[0]] + lower_cond_s(s.drop_first())
    }
}

fn push_lowered(out: &mut Vec<char>, s: &[char])
    ensures
        final(out)@ == old(out)@ + lower_cond_s(s@),
{
    let ghost start = out@;
    let mut i: usize = 0;
    assert(s@.skip(0) =~= s@);
    while i < s.len()
        invariant
            i <= s@.len(),
            out@ + lower_cond_s(s@.skip(i as int)) == start + lower_cond_s(s@),
        decreases s@.len() - i,
    {
        let ghost rest = s@.skip(i as int);
        proof {
            reveal_strlit("ctx.");
        }
        if crate::text::at_lit(s, i, "ctx.") {
            assert(rest.take(4) =~= s@.subrange(i as int, i + 4));
            assert(rest.skip(4) =~= s@.skip(i + 4));
            i += 4;
        } else {
            proof {
                if rest.len() >= 4 {
                    assert(rest.take(4) =~= s@.subrange(i as int, i + 4));
                }
            }
            assert(rest.drop_first() =~= s@.skip(i + 1));
            out.push(s[i]);
            i += 1;
            assert(out@ + lower_cond_s(s@.skip(i as int)) =~= start + lower_cond_s(s@));
        }
    }
    assert(s@.skip(i as int) =~= Seq::<char>::empty());
    assert(out@ =~= start + lower_cond_s(s@));
}

/// Drops the `ctx.` namespace from the variables of a condition.
pub fn lower_condition_namespaces(cond: &str) -> (r: String)
    ensures
        r@ == lower_cond_s(cond@),
{
    let v = chars_of(cond);
    let mut out: Vec<char> = Vec::new();
    push_lowered(&mut out, &v);
    assert(out@ =~= lower_cond_s(cond@));
    string_of(&out)
}

} // verus!

verus! {

// Positions of the attributes, in the order of their names, which is the
// order in which they are written.
pub const ATTR_CONDITION: usize = 0;
pub const ATTR_DEFAULT: usize = 1;
pub const ATTR_FILLCOLOR: usize = 2;
pub const ATTR_LABEL: usize = 3;
pub const ATTR_MODE: usize = 4;
pub const ATTR_MODEL: usize = 5;
pub const ATTR_PROMPT: usize = 6;
pub const ATTR_PROVIDER: usize = 7;
pub const ATTR_REF: usize = 8;
pub const ATTR_RESTART: usize = 9;
pub const ATTR_SHAPE: usize = 10;
pub const ATTR_SOURCES: usize = 11;
pub const ATTR_STYLE: usize = 12;
pub const ATTR_TARGETS: usize = 13;
pub const ATTR_TIMEOUT: usize = 14;
pub const ATTR_TOOL_COMMAND: usize = 15;
pub const ATTR_WEIGHT: usize = 16;
pub const ATTR_COUNT: usize = 17;

/// The name of the attribute at position `k`.
pub open spec fn attr_key(k: int) -> Seq<char> {
    if k == 0 {
        "condition"@
    } else if k == 1 {
        "default"@
    } else if k == 2 {
        "fillcolor"@
    } else if k == 3 {
        "label"@
    } else if k == 4 {
        "mode"@
    } else if k == 5 {
        "model"@
    } else if k == 6 {
        "prompt"@
    } else if k == 7 {
        "provider"@
    } else if k == 8 {
        "ref"@
    } else if k == 9 {
        "restart"@
    } else if k == 10 {
        "shape"@
    } else if k == 11 {
        "sources"@
    } else if k == 12 {
        "style"@
    } else if k == 13 {
        "targets"@
    } else if k == 14 {
        "timeout"@
    } else if k == 15 {
        "tool_command"@
    } else {
        "weight"@
    }
}

fn push_attr_key(out: &mut Vec<char>, k: usize)
    requires
        k < ATTR_COUNT,
    ensures
        final(out)@ == old(out)@ + attr_key(k as int),
{
    let name = if k == 0 {
        "condition"
    } else if k == 1 {
        "default"
    } else if k == 2 {
        "fillcolor"
    } else if k == 3 {
        "label"
    } else if k == 4 {
        "mode"
    } else if k == 5 {
        "model"
    } else if k == 6 {
        "prompt"
    } else if k == 7 {
        "provider"
    } else if k == 8 {
        "ref"
    } else if k == 9 {
        "restart"
    } else if k == 10 {
        "shape"
    } else if k == 11 {
        "sources"
    } else if k == 12 {
        "style"
    } else if k == 13 {
        "targets"
    } else if k == 14 {
        "timeout"
    } else if k == 15 {
        "tool_command"
    } else {
        "weight"
    };
    push_lit(out, name);
}

/// The values held in attribute slots.
pub open spec fn slot_views(v: Seq<Option<Vec<char>>>) -> Seq<Option<Seq<char>>> {
    v.map_values(
        |o: Option<Vec<char>>|
            match o {
                Some(x) => Some(x@),
                None => None,
            },
    )
}

/// `name="value"` for each attribute that is set, in slot order.
pub open spec fn attr_parts(slots: Seq<Option<Seq<char>>>) -> Seq<Seq<char>>
    decreases slots.len(),
{
    if slots.len() == 0 {
        Seq::empty()
    } else {
        let prev = attr_parts(slots.drop_last());
        match slots.last() {
            Some(v) => prev.push(attr_key(slots.len() - 1) + seq!['='] + dot_quote_s(v)),
            None => prev,
        }
    }
}

/// The bracketed attribute list, or nothing when no attribute is set.
pub open spec fn attrs_text(slots: Seq<Option<Seq<char>>>) -> Seq<char> {
    let p = attr_parts(slots);
    if p.len() == 0 {
        Seq::empty()
    } else {
        seq!['['] + join_s(p, ", "@) + seq![']']
    }
}

pub proof fn lemma_join_push(p: Seq<Seq<char>>, x: Seq<char>, sep: Seq<char>)
    ensures
        join_s(p.push(x), sep) == if p.len() == 0 {
            x
        } else {
            join_s(p, sep) + sep + x
        },
{
    assert(p.push(x).drop_last() =~= p);
}

/// Seventeen unset attribute slots.
fn empty_slots() -> (r: Vec<Option<Vec<char>>>)
    ensures
        r@.len() == ATTR_COUNT,
        forall|k: int| 0 <= k < ATTR_COUNT ==> (#[trigger] r@[k]) is None,
{
    let mut r: Vec<Option<Vec<char>>> = Vec::new();
    let mut i: usize = 0;
    while i < ATTR_COUNT
        invariant
            i <= ATTR_COUNT,
            r@.len() == i,
            forall|k: int| 0 <= k < i ==> (#[trigger] r@[k]) is None,
        decreases ATTR_COUNT - i,
    {
        r.push(None);
        i += 1;
    }
    r
}

/// Appends the bracketed attribute list of `slots`.
fn format_dot_attrs(out: &mut Vec<char>, slots: &Vec<Option<Vec<char>>>)
    requires
        slots@.len() == ATTR_COUNT,
    ensures
        final(out)@ == old(out)@ + attrs_text(slot_views(slots@)),
        attr_parts(slot_views(slots@)).len() == 0 ==> final(out)@ == old(out)@,
{
    let ghost sv = slot_views(slots@);
    let mut body: Vec<char> = Vec::new();
    let mut count: usize = 0;
    let mut i: usize = 0;
    assert(sv.take(0) =~= Seq::<Option<Seq<char>>>::empty());
    while i < ATTR_COUNT
        invariant
            sv == slot_views(slots@),
            slots@.len() == ATTR_COUNT,
            i <= ATTR_COUNT,
            count <= i,
            count == attr_parts(sv.take(i as int)).len(),
            body@ == join_s(attr_parts(sv.take(i as int)), ", "@),
        decreases ATTR_COUNT - i,
    {
        let ghost prev = attr_parts(sv.take(i as int));
        assert(sv.take(i + 1).drop_last() =~= sv.take(i as int));
        assert(sv.take(i + 1).last() == sv[i as int]);
        match &slots[i] {
            Some(v) => {
                let ghost item = attr_key(i as int) + seq!['='] + dot_quote_s(v@);
                proof {
                    lemma_join_push(prev, item, ", "@);
                }
                if count > 0 {
                    push_lit(&mut body, ", ");
                }
                let ghost before = body@;
                push_attr_key(&mut body, i);
                body.push('=');
                push_quoted(&mut body, v.as_slice());
                assert(body@ =~= before + item);
                count += 1;
            },
            None => {},
        }
        i += 1;
    }
    assert(sv.take(ATTR_COUNT as int) =~= sv);
    if count > 0 {
        out.push('[');
        push_chars(out, body.as_slice());
        out.push(']');
        assert(final(out)@ =~= old(out)@ + attrs_text(sv));
    } else {
        assert(old(out)@ + attrs_text(sv) =~= old(out)@);
    }
}

/// The text of each string.
pub open spec fn strs(v: Seq<String>) -> Seq<Seq<char>> {
    v.map_values(|s: String| s@)
}

/// Appends the strings of `v` joined with `sep`.
fn push_joined(out: &mut Vec<char>, v: &Vec<String>, sep: char)
    ensures
        final(out)@ == old(out)@ + join_s(strs(v@), seq![sep]),
{
    let ghost start = out@;
    let mut i: usize = 0;
    assert(strs(v@).take(0) =~= Seq::<Seq<char>>::empty());
    while i < v.len()
        invariant
            i <= v@.len(),
            out@ == start + join_s(strs(v@).take(i as int), seq![sep]),
        decreases v@.len() - i,
    {
        proof {
            lemma_join_push(strs(v@).take(i as int), v@[i as int]@, seq![sep]);
            assert(strs(v@).take(i + 1) =~= strs(v@).take(i as int).push(v@[i as int]@));
        }
        if i > 0 {
            out.push(sep);
        }
        let c = crate::text::string_chars(&v[i]);
        push_chars(out, c.as_slice());
        i += 1;
        assert(out@ =~= start + join_s(strs(v@).take(i as int), seq![sep]));
    }
    assert(strs(v@).take(i as int) =~= strs(v@));
}

/// The first position of `id` in `path` at or after `i`.
pub open spec fn pos_from(path: Seq<Seq<char>>, id: Seq<char>, i: nat) -> Option<nat>
    decreases path.len() - i,
{
    if i >= path.len() {
        None
    } else if path[i as int] == id {
        Some(i)
    } else {
        pos_from(path, id, i + 1)
    }
}

/// The first position of `id` in `path`.
pub open spec fn path_pos(path: Seq<Seq<char>>, id: Seq<char>) -> Option<nat> {
    pos_from(path, id, 0)
}

fn path_position(path: &Vec<String>, id: &[char]) -> (r: Option<usize>)
    ensures
        r matches Some(i) ==> path_pos(strs(path@), id@) == Some(i as nat) && i < path@.len(),
        r is None ==> path_pos(strs(path@), id@) is None,
{
    let mut i: usize = 0;
    while i < path.len()
        invariant
            i <= path@.len(),
            pos_from(strs(path@), id@, 0) == pos_from(strs(path@), id@, i as nat),
        decreases path@.len() - i,
    {
        let c = crate::text::string_chars(&path[i]);
        if crate::text::chars_eq(c.as_slice(), id) {
            return Some(i);
        }
        i += 1;
    }
    None
}

/// The shape of each kind of step.
pub open spec fn kind_shape(k: NodeKind) -> Seq<char> {
    match k {
        NodeKind::Agent => "box"@,
        NodeKind::Human => "hexagon"@,
        NodeKind::Tool => "parallelogram"@,
        NodeKind::Parallel => "component"@,
        NodeKind::FanIn => "tripleoctagon"@,
        NodeKind::Subgraph => "tab"@,
    }
}

/// The DOT shape of a kind of step.
pub fn node_shape(kind: &NodeKind) -> (r: &'static str)
    ensures
        r@ == kind_shape(*kind),
{
    match kind {
        NodeKind::Agent => "box",
        NodeKind::Human => "hexagon",
        NodeKind::Tool => "parallelogram",
        NodeKind::Parallel => "component",
        NodeKind::FanIn => "tripleoctagon",
        NodeKind::Subgraph => "tab",
    }
}

/// The start step is a diamond and the exit step a square; the others take
/// the shape of their kind.
pub open spec fn node_shape_s(n: Node, w: Workflow) -> Seq<char> {
    if n.id@ == w.start@ {
        "Mdiamond"@
    } else if n.id@ == w.exit@ {
        "Msquare"@
    } else {
        kind_shape(n.kind)
    }
}

fn resolve_node_shape(n: &Node, w: &Workflow) -> (r: &'static str)
    ensures
        r@ == node_shape_s(*n, *w),
{
    let id = crate::text::string_chars(&n.id);
    let start = crate::text::string_chars(&w.start);
    let exit = crate::text::string_chars(&w.exit);
    if crate::text::chars_eq(&id, &start) {
        "Mdiamond"
    } else if crate::text::chars_eq(&id, &exit) {
        "Msquare"
    } else {
        node_shape(&n.kind)
    }
}

/// A step's label (its id when it has none), prefixed with `[i] ` when it is
/// the `i`-th step of the execution path.
pub open spec fn node_label_s(n: Node, opts: ExportOptions) -> Seq<char> {
    let base = if n.label@.len() == 0 {
        n.id@
    } else {
        n.label@
    };
    match path_pos(strs(opts.execution_path@), n.id@) {
        Some(i) => "["@ + decimal(i + 1) + "] "@ + base,
        None => base,
    }
}

/// Whether the step is an agent marked as a goal gate and goal gates are
/// highlighted.
pub open spec fn goal_lit(n: Node, opts: ExportOptions) -> bool {
    opts.highlight_goal_gates && match n.config {
        NodeConfig::Agent(a) => a.goal_gate,
        _ => false,
    }
}

/// The attribute at position `k` that a step's settings give.
pub open spec fn config_slot(c: NodeConfig, k: int) -> Option<Seq<char>> {
    match c {
        NodeConfig::Agent(a) => if k == ATTR_PROMPT && a.prompt@.len() > 0 {
            Some(escape_nl_s(a.prompt@))
        } else if k == ATTR_MODEL && a.model@.len() > 0 {
            Some(a.model@)
        } else if k == ATTR_PROVIDER && a.provider@.len() > 0 {
            Some(a.provider@)
        } else {
            None
        },
        NodeConfig::Tool(t) => if k == ATTR_TOOL_COMMAND && t.command@.len() > 0 {
            Some(escape_nl_s(t.command@))
        } else if k == ATTR_TIMEOUT && t.timeout.0 != 0 {
            Some(display_s(t.timeout.0 as nat))
        } else {
            None
        },
        NodeConfig::Human(h) => if k == ATTR_MODE && h.mode@.len() > 0 {
            Some(h.mode@)
        } else if k == ATTR_DEFAULT && h.default@.len() > 0 {
            Some(h.default@)
        } else {
            None
        },
        NodeConfig::Subgraph(s) => if k == ATTR_REF && s.ref_path@.len() > 0 {
            Some(s.ref_path@)
        } else {
            None
        },
        NodeConfig::Parallel(p) => if k == ATTR_TARGETS && p.targets@.len() > 0 {
            Some(join_s(strs(p.targets@), seq![',']))
        } else {
            None
        },
        NodeConfig::FanIn(f) => if k == ATTR_SOURCES && f.sources@.len() > 0 {
            Some(join_s(strs(f.sources@), seq![',']))
        } else {
            None
        },
    }
}

/// The attribute at position `k` of a step's DOT statement.
pub open spec fn node_slot(n: Node, w: Workflow, opts: ExportOptions, k: int) -> Option<Seq<char>> {
    let on_path = path_pos(strs(opts.execution_path@), n.id@) is Some;
    if k == ATTR_SHAPE {
        Some(node_shape_s(n, w))
    } else if k == ATTR_LABEL {
        Some(node_label_s(n, opts))
    } else if k == ATTR_STYLE {
        if goal_lit(n, opts) {
            Some("filled"@)
        } else if on_path {
            Some("bold,filled"@)
        } else {
            None
        }
    } else if k == ATTR_FILLCOLOR {
        if goal_lit(n, opts) {
            Some("#ffcccc"@)
        } else if on_path {
            Some("#e0f0ff"@)
        } else {
            None
        }
    } else if opts.include_prompts {
        config_slot(n.config, k)
    } else {
        None
    }
}

pub open spec fn node_slots(n: Node, w: Workflow, opts: ExportOptions) -> Seq<Option<Seq<char>>> {
    Seq::new(ATTR_COUNT as nat, |k: int| node_slot(n, w, opts, k))
}

/// A step's DOT statement.
pub open spec fn node_line_s(n: Node, w: Workflow, opts: ExportOptions) -> Seq<char> {
    "  "@ + dot_id_s(n.id@) + seq![' '] + attrs_text(node_slots(n, w, opts)) + ";\n"@
}

} // verus!

verus! {

/// Sets slot `k` to `v`.
fn set_slot(slots: &mut Vec<Option<Vec<char>>>, k: usize, v: Vec<char>)
    requires
        k < old(slots)@.len(),
    ensures
        final(slots)@.len() == old(slots)@.len(),
        slot_views(final(slots)@) == slot_views(old(slots)@).update(k as int, Some(v@)),
{
    slots.set(k, Some(v));
    assert(slot_views(slots@) =~= slot_views(old(slots)@).update(k as int, Some(v@)));
}

/// The characters of `s` with newlines escaped.
fn escaped(s: &String) -> (r: Vec<char>)
    ensures
        r@ == escape_nl_s(s@),
{
    let c = crate::text::string_chars(s);
    let mut out: Vec<char> = Vec::new();
    push_escaped_newlines(&mut out, &c);
    assert(out@ =~= escape_nl_s(s@));
    out
}

/// Fills the slots that a step's settings give.
fn apply_config_attrs(slots: &mut Vec<Option<Vec<char>>>, cfg: &NodeConfig)
    requires
        old(slots)@.len() == ATTR_COUNT,
    ensures
        final(slots)@.len() == ATTR_COUNT,
        forall|k: int|
            0 <= k < ATTR_COUNT ==> #[trigger] slot_views(final(slots)@)[k] == match config_slot(
                *cfg,
                k,
            ) {
                Some(v) => Some(v),
                None => slot_views(old(slots)@)[k],
            },
{
    let ghost before = slot_views(slots@);
    match cfg {
        NodeConfig::Agent(c) => {
            if !c.prompt.as_str().is_empty() {
                set_slot(slots, ATTR_PROMPT, escaped(&c.prompt));
            }
            if !c.model.as_str().is_empty() {
                set_slot(slots, ATTR_MODEL, crate::text::string_chars(&c.model));
            }
            if !c.provider.as_str().is_empty() {
                set_slot(slots, ATTR_PROVIDER, crate::text::string_chars(&c.provider));
            }
        },
        NodeConfig::Tool(c) => {
            if !c.command.as_str().is_empty() {
                set_slot(slots, ATTR_TOOL_COMMAND, escaped(&c.command));
            }
            if !c.timeout.is_zero() {
                let t = c.timeout.to_string();
                set_slot(slots, ATTR_TIMEOUT, crate::text::string_chars(&t));
            }
        },
        NodeConfig::Human(c) => {
            if !c.mode.as_str().is_empty() {
                set_slot(slots, ATTR_MODE, crate::text::string_chars(&c.mode));
            }
            if !c.default.as_str().is_empty() {
                set_slot(slots, ATTR_DEFAULT, crate::text::string_chars(&c.default));
            }
        },
        NodeConfig::Subgraph(c) => {
            if !c.ref_path.as_str().is_empty() {
                set_slot(slots, ATTR_REF, crate::text::string_chars(&c.ref_path));
            }
        },
        NodeConfig::Parallel(c) => {
            if c.targets.len() > 0 {
                let mut v: Vec<char> = Vec::new();
                push_joined(&mut v, &c.targets, ',');
                assert(v@ =~= join_s(strs(c.targets@), seq![',']));
                set_slot(slots, ATTR_TARGETS, v);
            }
        },
        NodeConfig::FanIn(c) => {
            if c.sources.len() > 0 {
                let mut v: Vec<char> = Vec::new();
                push_joined(&mut v, &c.sources, ',');
                assert(v@ =~= join_s(strs(c.sources@), seq![',']));
                set_slot(slots, ATTR_SOURCES, v);
            }
        },
    }
}

/// Appends a step's DOT statement.
fn write_node_dot(out: &mut Vec<char>, n: &Node, w: &Workflow, opts: &ExportOptions)
    ensures
        final(out)@ == old(out)@ + node_line_s(*n, *w, *opts),
{
    let mut slots = empty_slots();
    let shape = resolve_node_shape(n, w);
    set_slot(&mut slots, ATTR_SHAPE, chars_of(shape));
    let id = crate::text::string_chars(&n.id);
    let base = if n.label.as_str().is_empty() {
        crate::text::string_chars(&n.id)
    } else {
        crate::text::string_chars(&n.label)
    };
    let pos = path_position(&opts.execution_path, &id);
    let label = match pos {
        Some(idx) => {
            let mut l: Vec<char> = Vec::new();
            l.push('[');
            push_decimal(&mut l, idx as u128 + 1);
            push_lit(&mut l, "] ");
            push_chars(&mut l, &base);
            proof {
                reveal_strlit("[");
                assert(l@ =~= "["@ + decimal(idx as nat + 1) + "] "@ + base@);
            }
            l
        },
        None => base,
    };
    set_slot(&mut slots, ATTR_LABEL, label);
    if pos.is_some() {
        set_slot(&mut slots, ATTR_STYLE, chars_of("bold,filled"));
        set_slot(&mut slots, ATTR_FILLCOLOR, chars_of("#e0f0ff"));
    }
    if opts.highlight_goal_gates {
        match &n.config {
            NodeConfig::Agent(cfg) => {
                if cfg.goal_gate {
                    set_slot(&mut slots, ATTR_STYLE, chars_of("filled"));
                    set_slot(&mut slots, ATTR_FILLCOLOR, chars_of("#ffcccc"));
                }
            },
            _ => {},
        }
    }
    let ghost mid = slot_views(slots@);
    assert(label@ == node_label_s(*n, *opts));
    assert forall|k: int| 0 <= k < ATTR_COUNT implies #[trigger] mid[k] == if k == ATTR_SHAPE
        || k == ATTR_LABEL || k == ATTR_STYLE || k == ATTR_FILLCOLOR {
        node_slot(*n, *w, *opts, k)
    } else {
        None::<Seq<char>>
    } by {}
    if opts.include_prompts {
        apply_config_attrs(&mut slots, &n.config);
    }
    assert(slot_views(slots@) =~= node_slots(*n, *w, *opts)) by {
        assert forall|k: int| 0 <= k < ATTR_COUNT implies #[trigger] slot_views(slots@)[k]
            == node_slots(*n, *w, *opts)[k] by {
            if opts.include_prompts {
                assert(slot_views(slots@)[k] == match config_slot(n.config, k) {
                    Some(v) => Some(v),
                    None => mid[k],
                });
            }
        }
    }
    push_lit(out, "  ");
    push_id(out, &id);
    out.push(' ');
    format_dot_attrs(out, &slots);
    push_lit(out, ";\n");
    assert(final(out)@ =~= old(out)@ + node_line_s(*n, *w, *opts));
}

} // verus!

verus! {

/// The lowered condition of an edge, when it has a non-empty one.
pub open spec fn cond_text(e: Edge) -> Option<Seq<char>> {
    match e.condition {
        Some(c) => if c.raw@.len() > 0 {
            Some(lower_cond_s(c.raw@))
        } else {
            None
        },
        None => None,
    }
}

/// The attribute at position `k` of an edge's DOT statement. A condition
/// also labels an edge that has no label of its own.
pub open spec fn edge_slot(e: Edge, k: int) -> Option<Seq<char>> {
    if k == ATTR_CONDITION {
        cond_text(e)
    } else if k == ATTR_LABEL {
        if e.label@.len() > 0 {
            Some(e.label@)
        } else {
            cond_text(e)
        }
    } else if k == ATTR_WEIGHT {
        if e.weight != 0 {
            Some(decimal(e.weight as nat))
        } else {
            None
        }
    } else if k == ATTR_RESTART {
        if e.restart {
            Some("true"@)
        } else {
            None
        }
    } else if k == ATTR_STYLE {
        if e.restart {
            Some("dashed"@)
        } else {
            None
        }
    } else {
        None
    }
}

pub open spec fn edge_slots(e: Edge) -> Seq<Option<Seq<char>>> {
    Seq::new(ATTR_COUNT as nat, |k: int| edge_slot(e, k))
}

/// An edge's DOT statement.
pub open spec fn edge_line_s(e: Edge) -> Seq<char> {
    "  "@ + dot_id_s(e.from@) + " -> "@ + dot_id_s(e.to@) + (if attr_parts(edge_slots(e)).len()
        > 0 {
        seq![' '] + attrs_text(edge_slots(e))
    } else {
        Seq::empty()
    }) + ";\n"@
}

/// The attribute slots of an edge's DOT statement.
fn edge_slot_values(e: &Edge) -> (slots: Vec<Option<Vec<char>>>)
    ensures
        slots@.len() == ATTR_COUNT,
        slot_views(slots@) == edge_slots(*e),
{
    let mut slots = empty_slots();
    if !e.label.as_str().is_empty() {
        set_slot(&mut slots, ATTR_LABEL, crate::text::string_chars(&e.label));
    }
    match &e.condition {
        Some(cond) => {
            if !cond.raw.as_str().is_empty() {
                let raw = crate::text::string_chars(&cond.raw);
                let mut lowered: Vec<char> = Vec::new();
                push_lowered(&mut lowered, &raw);
                assert(lowered@ =~= lower_cond_s(cond.raw@));
                if e.label.as_str().is_empty() {
                    set_slot(&mut slots, ATTR_LABEL, lowered.clone());
                }
                set_slot(&mut slots, ATTR_CONDITION, lowered);
            }
        },
        None => {},
    }
    if e.weight != 0 {
        let mut w: Vec<char> = Vec::new();
        push_decimal(&mut w, e.weight as u128);
        assert(w@ =~= decimal(e.weight as nat));
        set_slot(&mut slots, ATTR_WEIGHT, w);
    }
    if e.restart {
        set_slot(&mut slots, ATTR_RESTART, chars_of("true"));
        set_slot(&mut slots, ATTR_STYLE, chars_of("dashed"));
    }
    assert(slot_views(slots@) =~= edge_slots(*e));
    slots
}

/// Appends an edge's DOT statement.
fn write_edge_dot(out: &mut Vec<char>, e: &Edge)
    ensures
        final(out)@ == old(out)@ + edge_line_s(*e),
{
    let slots = edge_slot_values(e);
    push_lit(out, "  ");
    let from = crate::text::string_chars(&e.from);
    let to = crate::text::string_chars(&e.to);
    push_id(out, &from);
    push_lit(out, " -> ");
    push_id(out, &to);
    let ghost before = out@;
    let mut rest: Vec<char> = Vec::new();
    format_dot_attrs(&mut rest, &slots);
    if rest.len() > 0 {
        out.push(' ');
        push_chars(out, &rest);
    }
    proof {
        if attr_parts(edge_slots(*e)).len() > 0 {
            assert(rest@.len() > 0) by {
                reveal_strlit("[");
            }
        }
    }
    push_lit(out, ";\n");
    assert(final(out)@ =~= old(out)@ + edge_line_s(*e));
}

/// The name of the graph: the workflow's, or `workflow` when it has none.
pub open spec fn graph_name(w: Workflow) -> Seq<char> {
    if w.name@.len() == 0 {
        "workflow"@
    } else {
        w.name@
    }
}

/// The opening of the digraph and its global attributes.
pub open spec fn header_s(w: Workflow, opts: ExportOptions) -> Seq<char> {
    "digraph "@ + dot_id_s(graph_name(w)) + " {\n"@ + "  rankdir="@ + rank_dir_text(opts.rank_dir)
        + ";\n"@ + "  node [fontname=\"Helvetica\"];\n"@ + "  edge [fontname=\"Helvetica\"];\n"@
}

fn write_dot_header(out: &mut Vec<char>, w: &Workflow, opts: &ExportOptions)
    ensures
        final(out)@ == old(out)@ + header_s(*w, *opts),
{
    push_lit(out, "digraph ");
    let name = if w.name.as_str().is_empty() {
        chars_of("workflow")
    } else {
        crate::text::string_chars(&w.name)
    };
    push_id(out, &name);
    push_lit(out, " {\n");
    push_lit(out, "  rankdir=");
    push_lit(out, opts.rank_dir.as_dot());
    push_lit(out, ";\n");
    push_lit(out, "  node [fontname=\"Helvetica\"];\n");
    push_lit(out, "  edge [fontname=\"Helvetica\"];\n");
    assert(final(out)@ =~= old(out)@ + header_s(*w, *opts));
}

/// The pieces of `parts` one after the other.
pub open spec fn concat_s(parts: Seq<Seq<char>>) -> Seq<char>
    decreases parts.len(),
{
    if parts.len() == 0 {
        Seq::empty()
    } else {
        concat_s(parts.drop_last()) + parts.last()
    }
}

/// The statements of the steps, in order.
pub open spec fn node_lines(w: Workflow, opts: ExportOptions) -> Seq<Seq<char>> {
    Seq::new(w.nodes@.len(), |i: int| node_line_s(w.nodes@[i], w, opts))
}

/// The statements of the edges, in order.
pub open spec fn edge_lines(w: Workflow) -> Seq<Seq<char>> {
    Seq::new(w.edges@.len(), |i: int| edge_line_s(w.edges@[i]))
}

/// The DOT text of a workflow: the header, a statement per step, a blank
/// line, a statement per edge, and the closing brace.
pub open spec fn export_s(w: Workflow, opts: ExportOptions) -> Seq<char> {
    header_s(w, opts) + concat_s(node_lines(w, opts)) + seq!['\n'] + concat_s(edge_lines(w))
        + "}\n"@
}

/// Renders a workflow as DOT.
pub fn export_dot(w: &Workflow, opts: &ExportOptions) -> (r: String)
    ensures
        r@ == export_s(*w, *opts),
{
    let mut b: Vec<char> = Vec::new();
    write_dot_header(&mut b, w, opts);
    let ghost head = b@;
    let mut i: usize = 0;
    assert(node_lines(*w, *opts).take(0) =~= Seq::<Seq<char>>::empty());
    while i < w.nodes.len()
        invariant
            i <= w.nodes@.len(),
            b@ == head + concat_s(node_lines(*w, *opts).take(i as int)),
        decreases w.nodes@.len() - i,
    {
        assert(node_lines(*w, *opts).take(i + 1).drop_last() =~= node_lines(*w, *opts).take(
            i as int,
        ));
        write_node_dot(&mut b, &w.nodes[i], w, opts);
        i += 1;
        assert(b@ =~= head + concat_s(node_lines(*w, *opts).take(i as int)));
    }
    assert(node_lines(*w, *opts).take(i as int) =~= node_lines(*w, *opts));
    b.push('\n');
    let ghost mid = b@;
    let mut j: usize = 0;
    assert(edge_lines(*w).take(0) =~= Seq::<Seq<char>>::empty());
    while j < w.edges.len()
        invariant
            j <= w.edges@.len(),
            b@ == mid + concat_s(edge_lines(*w).take(j as int)),
        decreases w.edges@.len() - j,
    {
        assert(edge_lines(*w).take(j + 1).drop_last() =~= edge_lines(*w).take(j as int));
        write_edge_dot(&mut b, &w.edges[j]);
        j += 1;
        assert(b@ =~= mid + concat_s(edge_lines(*w).take(j as int)));
    }
    assert(edge_lines(*w).take(j as int) =~= edge_lines(*w));
    push_lit(&mut b, "}\n");
    assert(b@ =~= export_s(*w, *opts));
    string_of(&b)
}

impl Workflow {
    /// Renders this workflow as DOT.
    pub fn to_dot(&self, opts: &ExportOptions) -> (r: String)
        ensures
            r@ == export_s(*self, *opts),
    {
        export_dot(self, opts)
    }
}

/// Links a stretch of the DOT text, by byte offsets, to the stretch of the
/// Dippin source it came from.
#[derive(Debug, PartialEq, Eq)]
pub struct SourceMapEntry {
    pub dot_range: std::ops::Range<usize>,
    pub dip_range: std::ops::Range<usize>,
}

/// DOT text together with its source map.
#[derive(Debug)]
pub struct DippinConversion {
    pub dot_source: String,
    pub source_map: Vec<SourceMapEntry>,
}

/// Renders a workflow as DOT with a source map; the map has no entries yet.
pub fn export_dot_with_map(w: &Workflow, opts: &ExportOptions, dippin_source: &str) -> (r:
    DippinConversion)
    ensures
        r.dot_source@ == export_s(*w, *opts),
        r.source_map@.len() == 0,
{
    let dot_source = export_dot(w, opts);
    DippinConversion { dot_source, source_map: Vec::new() }
}

} // verus!

verus! {

proof fn lemma_pos_found(path: Seq<Seq<char>>, id: Seq<char>, i: nat, k: nat)
    requires
        i <= k < path.len(),
        path[k as int] == id,
    ensures
        pos_from(path, id, i) is Some,
    decreases k - i,
{
    if path[i as int] != id {
        lemma_pos_found(path, id, i + 1, k);
    }
}

proof fn lemma_attr_part_present(slots: Seq<Option<Seq<char>>>, k: int, v: Seq<char>)
    requires
        0 <= k < slots.len(),
        slots[k] == Some(v),
    ensures
        attr_parts(slots).contains(attr_key(k) + seq!['='] + dot_quote_s(v)),
    decreases slots.len(),
{
    let x = attr_key(k) + seq!['='] + dot_quote_s(v);
    if k == slots.len() - 1 {
        let p = attr_parts(slots.drop_last());
        assert(attr_parts(slots) == p.push(x));
        assert(p.push(x)[p.len() as int] == x);
    } else {
        let d = slots.drop_last();
        assert(d[k] == slots[k]);
        lemma_attr_part_present(d, k, v);
        let p = attr_parts(d);
        let j = choose|j: int| 0 <= j < p.len() && p[j] == x;
        match slots.last() {
            Some(u) => {
                assert(p.push(attr_key(slots.len() - 1) + seq!['='] + dot_quote_s(u))[j] == x);
            },
            None => {},
        }
    }
}

proof fn lemma_plain_quote_body(v: Seq<char>)
    requires
        forall|i: int| 0 <= i < v.len() ==> v[i] != '"' && v[i] != '\\',
    ensures
        quote_body(v) == v,
    decreases v.len(),
{
    if v.len() > 0 {
        let t = v.drop_first();
        assert forall|i: int| 0 <= i < t.len() implies t[i] != '"' && t[i] != '\\' by {
            assert(t[i] == v[i + 1]);
        }
        lemma_plain_quote_body(t);
        assert(v =~= seq![v[0]] + t);
    }
}

/// A step on the execution path that is not a highlighted goal gate is
/// drawn bold and filled: its DOT attributes hold `style="bold,filled"`
/// and `fillcolor="#e0f0ff"`.
pub proof fn lemma_path_step_style(n: Node, w: Workflow, opts: ExportOptions, k: int)
    requires
        0 <= k < opts.execution_path@.len(),
        opts.execution_path@[k]@ == n.id@,
        !(opts.highlight_goal_gates && (n.config matches NodeConfig::Agent(a) && a.goal_gate)),
    ensures
        attr_parts(node_slots(n, w, opts)).contains("style=\"bold,filled\""@),
        attr_parts(node_slots(n, w, opts)).contains("fillcolor=\"#e0f0ff\""@),
{
    let path = strs(opts.execution_path@);
    assert(path[k] == n.id@);
    lemma_pos_found(path, n.id@, 0, k as nat);
    assert(!goal_lit(n, opts));
    let slots = node_slots(n, w, opts);
    reveal_strlit("bold,filled");
    reveal_strlit("#e0f0ff");
    reveal_strlit("style");
    reveal_strlit("fillcolor");
    reveal_strlit("style=\"bold,filled\"");
    reveal_strlit("fillcolor=\"#e0f0ff\"");
    assert(slots[ATTR_STYLE as int] == Some("bold,filled"@));
    assert(slots[ATTR_FILLCOLOR as int] == Some("#e0f0ff"@));
    lemma_attr_part_present(slots, ATTR_STYLE as int, "bold,filled"@);
    lemma_attr_part_present(slots, ATTR_FILLCOLOR as int, "#e0f0ff"@);
    lemma_plain_quote_body("bold,filled"@);
    lemma_plain_quote_body("#e0f0ff"@);
    assert(attr_key(ATTR_STYLE as int) + seq!['='] + dot_quote_s("bold,filled"@) =~= "style=\"bold,filled\""@);
    assert(attr_key(ATTR_FILLCOLOR as int) + seq!['='] + dot_quote_s("#e0f0ff"@) =~= "fillcolor=\"#e0f0ff\""@);
}

} // verus!
