//! What the parser reads from a token stream: for each construct of the
//! language, where reading it ends, whether it was well formed, and what it
//! adds to the workflow's name, fields, steps and edges.
use vstd::prelude::*;
use crate::lexer::{TokView, TokenType, raw_value_s};
use crate::parser::{ttype_at, tvalue_at, step, sync_end, lemma_sync_end_ge, unquote_s, EdgeSpec, edge_specs, edges_block_s, lemma_edges_block_end};
use crate::validate::{refs_resolved, declared, ref_ok, edges_resolved, edge_checks, validate_lines_s, undefined_msg};
use crate::error::KindView;
use crate::export_dot::{strs, ExportOptions, export_s, node_line_s, node_slot, node_slots, node_lines, edge_line_s, edge_lines, edge_slots, cond_text, graph_name};
use crate::parser::{edge_spec_of, edge_attrs_of};
use crate::ir::{Edge, Workflow, WorkflowDefaults, Node, NodeKind, NodeConfig, StylesheetRule, AgentConfig, HumanConfig, ToolConfig, BranchConfig, RetryConfig, entries, kind_of_name, is_default_config, config_kind};
use crate::parser::{u32_text, rule_view, rules_from, float_text, split_comma_s, params_s};
use crate::duration::parse_duration_s;
use crate::text::split_s;

verus! {

/// The position of the first newline or end of input at or after `i`.
pub open spec fn line_stop(toks: Seq<TokView>, i: nat) -> nat
    decreases toks.len() - i,
{
    if i >= toks.len() || toks[i as int].0 == TokenType::Newline || toks[i as int].0
        == TokenType::Eof {
        i
    } else {
        line_stop(toks, i + 1)
    }
}

pub proof fn lemma_line_stop(toks: Seq<TokView>, i: nat)
    requires
        i <= toks.len(),
    ensures
        i <= line_stop(toks, i) <= toks.len(),
        ttype_at(toks, line_stop(toks, i)) == TokenType::Newline || ttype_at(toks, line_stop(toks, i))
            == TokenType::Eof,
    decreases toks.len() - i,
{
    if !(i >= toks.len() || toks[i as int].0 == TokenType::Newline || toks[i as int].0
        == TokenType::Eof) {
        lemma_line_stop(toks, i + 1);
    }
}

/// Where the value of a field that starts at `i` ends: a raw block right
/// there or on the next line, or else the rest of the line.
pub open spec fn field_value_end(toks: Seq<TokView>, i: nat) -> nat {
    if ttype_at(toks, i) == TokenType::RawBlock {
        i + 1
    } else if ttype_at(toks, i) == TokenType::Newline {
        if ttype_at(toks, i + 1) == TokenType::RawBlock {
            i + 2
        } else {
            i + 1
        }
    } else {
        line_stop(toks, i)
    }
}

/// The value of a field that starts at token `i`, on source line `line`: the
/// text of a raw block right there or on the next line, nothing when the line
/// ends without one, or else the text after the line's first colon, unquoted.
pub open spec fn field_value_s(toks: Seq<TokView>, ls: Seq<Seq<char>>, i: nat, line: nat) -> Seq<char> {
    if ttype_at(toks, i) == TokenType::RawBlock {
        tvalue_at(toks, i)
    } else if ttype_at(toks, i) == TokenType::Newline {
        if ttype_at(toks, i + 1) == TokenType::RawBlock {
            tvalue_at(toks, i + 1)
        } else {
            Seq::empty()
        }
    } else {
        unquote_s(raw_value_s(ls, line))
    }
}

pub proof fn lemma_field_value_end(toks: Seq<TokView>, i: nat)
    requires
        i <= toks.len(),
    ensures
        i <= field_value_end(toks, i) <= toks.len(),
{
    lemma_line_stop(toks, i);
}

/// Reading `key: value` whose key is at `i`: where it ends, and whether the
/// colon was there.
pub open spec fn field_end(toks: Seq<TokView>, i: nat) -> (nat, bool) {
    let k = step(toks, i);
    if ttype_at(toks, k) != TokenType::Colon {
        (step(toks, k), false)
    } else {
        (field_value_end(toks, k + 1), true)
    }
}

pub proof fn lemma_field_end(toks: Seq<TokView>, i: nat)
    requires
        i < toks.len(),
    ensures
        i < field_end(toks, i).0 <= toks.len(),
{
    let k = step(toks, i);
    if ttype_at(toks, k) == TokenType::Colon {
        lemma_field_value_end(toks, k + 1);
    }
}

/// Where a block of `key: value` lines that starts at `i` ends: at an outdent
/// or the end of input. Blank lines and stray tokens are skipped; after a
/// field that fails, reading resumes past the next newline.
pub open spec fn fields_end(toks: Seq<TokView>, i: nat) -> nat
    decreases toks.len() - i,
{
    let ty = ttype_at(toks, i);
    if i >= toks.len() || ty == TokenType::Outdent || ty == TokenType::Eof {
        i
    } else if ty == TokenType::Identifier {
        let (e, ok) = field_end(toks, i);
        proof {
            lemma_field_end(toks, i);
            lemma_sync_end_ge(toks, e);
        }
        fields_end(
            toks,
            if ok {
                e
            } else {
                sync_end(toks, e)
            },
        )
    } else {
        fields_end(toks, i + 1)
    }
}

pub proof fn lemma_fields_end(toks: Seq<TokView>, i: nat)
    requires
        i <= toks.len(),
    ensures
        i <= fields_end(toks, i) <= toks.len(),
    decreases toks.len() - i,
{
    let ty = ttype_at(toks, i);
    if !(i >= toks.len() || ty == TokenType::Outdent || ty == TokenType::Eof) {
        if ty == TokenType::Identifier {
            let (e, ok) = field_end(toks, i);
            lemma_field_end(toks, i);
            lemma_sync_end_ge(toks, e);
            lemma_fields_end(
                toks,
                if ok {
                    e
                } else {
                    sync_end(toks, e)
                },
            );
        } else {
            lemma_fields_end(toks, i + 1);
        }
    }
}

/// Where the rest of a comma-separated list ends, from the position after
/// an item: each comma is followed by one more item.
pub open spec fn comma_rest_end(toks: Seq<TokView>, q: nat) -> nat
    decreases toks.len() - q,
{
    if ttype_at(toks, q) == TokenType::Comma {
        comma_rest_end(toks, step(toks, q + 1))
    } else {
        q
    }
}

/// Where a comma-separated list that starts at `i` ends.
pub open spec fn comma_list_end(toks: Seq<TokView>, i: nat) -> nat {
    comma_rest_end(toks, step(toks, i))
}

pub proof fn lemma_comma_rest_end(toks: Seq<TokView>, q: nat)
    requires
        q <= toks.len(),
    ensures
        q <= comma_rest_end(toks, q) <= toks.len(),
    decreases toks.len() - q,
{
    if ttype_at(toks, q) == TokenType::Comma {
        lemma_comma_rest_end(toks, step(toks, q + 1));
    }
}

/// Reading `branch: target` at `i`, with an optional indented block of
/// fields: where it ends and whether it was well formed.
pub open spec fn one_branch_end(toks: Seq<TokView>, i: nat) -> (nat, bool) {
    let k = step(toks, i);
    if ttype_at(toks, k) != TokenType::Colon {
        (step(toks, k), false)
    } else {
        let q = step(toks, k + 1);
        let q2 = line_stop(toks, q);
        let q3 = if ttype_at(toks, q2) == TokenType::Newline {
            q2 + 1
        } else {
            q2
        };
        if ttype_at(toks, q3) != TokenType::Indent {
            (q3, true)
        } else {
            let b = fields_end(toks, q3 + 1);
            if ttype_at(toks, b) != TokenType::Outdent {
                (step(toks, b), false)
            } else {
                (b + 1, true)
            }
        }
    }
}

pub proof fn lemma_one_branch_end(toks: Seq<TokView>, i: nat)
    requires
        i < toks.len(),
    ensures
        i < one_branch_end(toks, i).0 <= toks.len(),
{
    let k = step(toks, i);
    if ttype_at(toks, k) == TokenType::Colon {
        let q = step(toks, k + 1);
        lemma_line_stop(toks, q);
        let q2 = line_stop(toks, q);
        let q3 = if ttype_at(toks, q2) == TokenType::Newline {
            q2 + 1
        } else {
            q2
        };
        if ttype_at(toks, q3) == TokenType::Indent {
            lemma_fields_end(toks, q3 + 1);
        }
    }
}

/// Where the `branch` entries of a parallel block that start at `i` end.
pub open spec fn branches_end(toks: Seq<TokView>, i: nat) -> nat
    decreases toks.len() - i,
{
    let ty = ttype_at(toks, i);
    if i >= toks.len() || ty == TokenType::Outdent || ty == TokenType::Eof {
        i
    } else if ty == TokenType::Identifier && tvalue_at(toks, i) == "branch"@ {
        let (e, ok) = one_branch_end(toks, i);
        proof {
            lemma_one_branch_end(toks, i);
            lemma_sync_end_ge(toks, e);
        }
        branches_end(
            toks,
            if ok {
                e
            } else {
                sync_end(toks, e)
            },
        )
    } else {
        branches_end(toks, i + 1)
    }
}

pub proof fn lemma_branches_end(toks: Seq<TokView>, i: nat)
    requires
        i <= toks.len(),
    ensures
        i <= branches_end(toks, i) <= toks.len(),
    decreases toks.len() - i,
{
    let ty = ttype_at(toks, i);
    if !(i >= toks.len() || ty == TokenType::Outdent || ty == TokenType::Eof) {
        if ty == TokenType::Identifier && tvalue_at(toks, i) == "branch"@ {
            let (e, ok) = one_branch_end(toks, i);
            lemma_one_branch_end(toks, i);
            lemma_sync_end_ge(toks, e);
            lemma_branches_end(
                toks,
                if ok {
                    e
                } else {
                    sync_end(toks, e)
                },
            );
        } else {
            lemma_branches_end(toks, i + 1);
        }
    }
}

} // verus!

verus! {

/// Reading a block keyword at `i` followed by a newline, an indented block of
/// `key: value` lines and an outdent: where it ends and whether it was well
/// formed.
pub open spec fn fields_block_end(toks: Seq<TokView>, i: nat) -> (nat, bool) {
    let i1 = step(toks, i);
    if ttype_at(toks, i1) != TokenType::Newline {
        (step(toks, i1), false)
    } else if ttype_at(toks, i1 + 1) != TokenType::Indent {
        (step(toks, i1 + 1), false)
    } else {
        let b = fields_end(toks, i1 + 2);
        if ttype_at(toks, b) != TokenType::Outdent {
            (step(toks, b), false)
        } else {
            (b + 1, true)
        }
    }
}

pub proof fn lemma_fields_block_end(toks: Seq<TokView>, i: nat)
    requires
        i < toks.len(),
    ensures
        i < fields_block_end(toks, i).0 <= toks.len(),
{
    let i1 = step(toks, i);
    if ttype_at(toks, i1) == TokenType::Newline && ttype_at(toks, i1 + 1) == TokenType::Indent {
        lemma_fields_end(toks, i1 + 2);
    }
}

} // verus!

verus! {

/// The workflow's defaults as values.
pub struct DefaultsView {
    pub model: Seq<char>,
    pub provider: Seq<char>,
    pub retry_policy: Seq<char>,
    pub max_retries: nat,
    pub fidelity: Seq<char>,
    pub max_restarts: nat,
    pub restart_target: Seq<char>,
    pub cache_tools: bool,
    pub compaction: Seq<char>,
    pub on_resume: Seq<char>,
}

pub open spec fn defaults_view(d: WorkflowDefaults) -> DefaultsView {
    DefaultsView {
        model: d.model@,
        provider: d.provider@,
        retry_policy: d.retry_policy@,
        max_retries: d.max_retries as nat,
        fidelity: d.fidelity@,
        max_restarts: d.max_restarts as nat,
        restart_target: d.restart_target@,
        cache_tools: d.cache_tools,
        compaction: d.compaction@,
        on_resume: d.on_resume@,
    }
}

/// A count as written, or 0 when the text is not one.
pub open spec fn count_or_zero(val: Seq<char>) -> nat {
    match u32_text(val) {
        Some(n) => n,
        None => 0,
    }
}

/// Setting the default named `key` to `val`; an unknown key changes nothing.
pub open spec fn apply_default_s(d: DefaultsView, key: Seq<char>, val: Seq<char>) -> DefaultsView {
    if key == "model"@ {
        DefaultsView { model: val, ..d }
    } else if key == "provider"@ {
        DefaultsView { provider: val, ..d }
    } else if key == "retry_policy"@ {
        DefaultsView { retry_policy: val, ..d }
    } else if key == "fidelity"@ {
        DefaultsView { fidelity: val, ..d }
    } else if key == "restart_target"@ {
        DefaultsView { restart_target: val, ..d }
    } else if key == "compaction"@ {
        DefaultsView { compaction: val, ..d }
    } else if key == "on_resume"@ {
        DefaultsView { on_resume: val, ..d }
    } else if key == "max_retries"@ {
        DefaultsView { max_retries: count_or_zero(val), ..d }
    } else if key == "max_restarts"@ {
        DefaultsView { max_restarts: count_or_zero(val), ..d }
    } else if key == "cache_tools"@ {
        DefaultsView { cache_tools: val == "true"@, ..d }
    } else {
        d
    }
}

/// Reading a block of `key: value` defaults from `i`, starting from `d`:
/// each field read in full sets its default.
pub open spec fn defaults_fields_s(toks: Seq<TokView>, ls: Seq<Seq<char>>, i: nat, d: DefaultsView) -> DefaultsView
    decreases toks.len() - i,
{
    let ty = ttype_at(toks, i);
    if i >= toks.len() || ty == TokenType::Outdent || ty == TokenType::Eof {
        d
    } else if ty == TokenType::Identifier {
        let k = i + 1;
        proof {
            lemma_field_end(toks, i);
            lemma_sync_end_ge(toks, step(toks, k));
        }
        if ttype_at(toks, k) != TokenType::Colon {
            defaults_fields_s(toks, ls, sync_end(toks, step(toks, k)), d)
        } else {
            let val = field_value_s(toks, ls, k + 1, tline_at(toks, i));
            defaults_fields_s(toks, ls, field_value_end(toks, k + 1), apply_default_s(d, tvalue_at(toks, i), val))
        }
    } else {
        defaults_fields_s(toks, ls, i + 1, d)
    }
}

/// The defaults after a `defaults` block whose keyword is at `i`: its fields
/// are read once the newline and the indent are there.
pub open spec fn defaults_block_s(toks: Seq<TokView>, ls: Seq<Seq<char>>, i: nat, d: DefaultsView) -> DefaultsView {
    let i1 = step(toks, i);
    if ttype_at(toks, i1) != TokenType::Newline || ttype_at(toks, i1 + 1) != TokenType::Indent {
        d
    } else {
        defaults_fields_s(toks, ls, i1 + 2, d)
    }
}

/// The rules of a `stylesheet:` whose keyword is at `i`, when the colon is
/// there: its value read as a stylesheet.
pub open spec fn stylesheet_s(toks: Seq<TokView>, ls: Seq<Seq<char>>, i: nat) -> Seq<((int, Seq<char>), Seq<(Seq<char>, Seq<char>)>)> {
    let k = step(toks, i);
    rules_from(split_s(field_value_s(toks, ls, k + 1, tline_at(toks, k + 1)), '\n'), 0)
}

/// What the parser builds that a reader of the workflow sees first: its
/// name, version, goal, start and exit, its steps (each by id and kind, in
/// order) and its edges.
pub struct WfView {
    pub name: Seq<char>,
    pub version: Seq<char>,
    pub goal: Seq<char>,
    pub start: Seq<char>,
    pub exit: Seq<char>,
    pub steps: Seq<NodeView>,
    pub edges: Seq<EdgeSpec>,
    pub defaults: DefaultsView,
    pub stylesheet: Seq<((int, Seq<char>), Seq<(Seq<char>, Seq<char>)>)>,
}

pub open spec fn steps_of(ns: Seq<Node>) -> Seq<NodeView> {
    ns.map_values(|n: Node| node_view(n))
}

pub open spec fn wf_view(w: Workflow) -> WfView {
    WfView {
        name: w.name@,
        version: w.version@,
        goal: w.goal@,
        start: w.start@,
        exit: w.exit@,
        steps: steps_of(w.nodes@),
        edges: edge_specs(w.edges@),
        defaults: defaults_view(w.defaults),
        stylesheet: w.stylesheet@.map_values(|x: StylesheetRule| rule_view(x)),
    }
}

/// The view of a workflow with nothing in it.
pub open spec fn empty_view() -> WfView {
    WfView {
        name: Seq::empty(),
        version: Seq::empty(),
        goal: Seq::empty(),
        start: Seq::empty(),
        exit: Seq::empty(),
        steps: Seq::empty(),
        edges: Seq::empty(),
        defaults: DefaultsView {
            model: Seq::empty(),
            provider: Seq::empty(),
            retry_policy: Seq::empty(),
            max_retries: 0,
            fidelity: Seq::empty(),
            max_restarts: 0,
            restart_target: Seq::empty(),
            cache_tools: false,
            compaction: Seq::empty(),
            on_resume: Seq::empty(),
        },
        stylesheet: Seq::empty(),
    }
}

pub open spec fn with_name(v: WfView, name: Seq<char>) -> WfView {
    WfView { name, ..v }
}

pub open spec fn with_step(v: WfView, n: NodeView) -> WfView {
    WfView { steps: v.steps.push(n), ..v }
}

pub open spec fn with_edges(v: WfView, es: Seq<EdgeSpec>) -> WfView {
    WfView { edges: v.edges + es, ..v }
}

pub open spec fn with_defaults(v: WfView, d: DefaultsView) -> WfView {
    WfView { defaults: d, ..v }
}

pub open spec fn with_stylesheet(v: WfView, ss: Seq<((int, Seq<char>), Seq<(Seq<char>, Seq<char>)>)>) -> WfView {
    WfView { stylesheet: ss, ..v }
}

/// Sets `goal`, `start`, `exit` or `version` to `val`.
pub open spec fn with_string_field(v: WfView, key: Seq<char>, val: Seq<char>) -> WfView {
    if key == "goal"@ {
        WfView { goal: val, ..v }
    } else if key == "start"@ {
        WfView { start: val, ..v }
    } else if key == "exit"@ {
        WfView { exit: val, ..v }
    } else if key == "version"@ {
        WfView { version: val, ..v }
    } else {
        v
    }
}

/// The column of token `i`.
pub open spec fn tcol_at(toks: Seq<TokView>, i: nat) -> nat {
    if i < toks.len() {
        toks[i as int].3
    } else {
        0
    }
}

/// The line of token `i`.
pub open spec fn tline_at(toks: Seq<TokView>, i: nat) -> nat {
    if i < toks.len() {
        toks[i as int].2
    } else {
        0
    }
}

/// Reading `goal:`, `start:`, `exit:` or `version:` whose key is at `i`.
pub open spec fn string_field_s(toks: Seq<TokView>, ls: Seq<Seq<char>>, i: nat, v: WfView) -> (WfView, nat, bool) {
    let k = step(toks, i);
    if ttype_at(toks, k) != TokenType::Colon {
        (v, step(toks, k), false)
    } else {
        let val = field_value_s(toks, ls, k + 1, tline_at(toks, i));
        (with_string_field(v, tvalue_at(toks, i), val), field_value_end(toks, k + 1), true)
    }
}

/// Reading `stylesheet:` and its value, whose keyword is at `i`: where it
/// ends and whether the colon was there.
pub open spec fn stylesheet_end(toks: Seq<TokView>, i: nat) -> (nat, bool) {
    let k = step(toks, i);
    if ttype_at(toks, k) != TokenType::Colon {
        (step(toks, k), false)
    } else {
        (field_value_end(toks, k + 1), true)
    }
}

/// Reading `parallel Id -> a, b` or `parallel Id` with a block of branches,
/// whose keyword is at `i`.
pub open spec fn parallel_s(toks: Seq<TokView>, ls: Seq<Seq<char>>, i: nat, v: WfView) -> (WfView, nat, bool) {
    let k = step(toks, i);
    if ttype_at(toks, k) != TokenType::Identifier {
        (v, step(toks, k), false)
    } else {
        let id = tvalue_at(toks, k);
        let p = k + 1;
        if ttype_at(toks, p) == TokenType::Arrow {
            let c = comma_list_end(toks, p + 1);
            let cfg = ConfigView::Parallel { targets: comma_values(toks, p + 1), branches: Seq::empty() };
            let v2 = with_step(v, new_node_view(id, NodeKind::Parallel, cfg, tline_at(toks, k), tcol_at(toks, k)));
            if ttype_at(toks, c) != TokenType::Newline {
                (v2, step(toks, c), false)
            } else {
                (v2, c + 1, true)
            }
        } else if ttype_at(toks, p) != TokenType::Newline {
            (v, step(toks, p), false)
        } else if ttype_at(toks, p + 1) != TokenType::Indent {
            (v, step(toks, p + 1), false)
        } else {
            let b = branches_end(toks, p + 2);
            if ttype_at(toks, b) != TokenType::Outdent {
                (v, step(toks, b), false)
            } else {
                let bs = branches_s(toks, ls, p + 2);
                let cfg = ConfigView::Parallel {
                    targets: bs.map_values(|x: BranchView| x.target),
                    branches: bs,
                };
                (with_step(v, new_node_view(id, NodeKind::Parallel, cfg, tline_at(toks, k), tcol_at(toks, k))), b + 1, true)
            }
        }
    }
}

/// Reading `fan_in Id <- a, b`, whose keyword is at `i`.
pub open spec fn fan_in_s(toks: Seq<TokView>, i: nat, v: WfView) -> (WfView, nat, bool) {
    let k = step(toks, i);
    if ttype_at(toks, k) != TokenType::Identifier {
        (v, step(toks, k), false)
    } else {
        let id = tvalue_at(toks, k);
        let p = k + 1;
        if ttype_at(toks, p) != TokenType::BackArrow {
            (v, step(toks, p), false)
        } else {
            let c = comma_list_end(toks, p + 1);
            let cfg = ConfigView::FanIn { sources: comma_values(toks, p + 1) };
            let v2 = with_step(v, new_node_view(id, NodeKind::FanIn, cfg, tline_at(toks, k), tcol_at(toks, k)));
            if ttype_at(toks, c) != TokenType::Newline {
                (v2, step(toks, c), false)
            } else {
                (v2, c + 1, true)
            }
        }
    }
}

/// Reading a step `<kind> Id` and its block of fields, whose keyword is at
/// `i`.
pub open spec fn node_s(toks: Seq<TokView>, ls: Seq<Seq<char>>, i: nat, kind: NodeKind, v: WfView) -> (WfView, nat, bool) {
    let k = step(toks, i);
    if ttype_at(toks, k) != TokenType::Identifier {
        (v, step(toks, k), false)
    } else {
        let id = tvalue_at(toks, k);
        let p = k + 1;
        if ttype_at(toks, p) != TokenType::Newline {
            (v, step(toks, p), false)
        } else if ttype_at(toks, p + 1) != TokenType::Indent {
            (v, step(toks, p + 1), false)
        } else {
            let b = fields_end(toks, p + 2);
            if ttype_at(toks, b) != TokenType::Outdent {
                (v, step(toks, b), false)
            } else {
                let n = node_fields_s(toks, ls, p + 2, new_node_view(id, kind, default_config_view(kind), tline_at(toks, p), tcol_at(toks, p)));
                (with_step(v, n), b + 1, true)
            }
        }
    }
}

/// Reading one statement of a workflow's body that starts with the
/// identifier at `i`.
pub open spec fn dispatch_s(toks: Seq<TokView>, ls: Seq<Seq<char>>, i: nat, v: WfView) -> (WfView, nat, bool) {
    let w = tvalue_at(toks, i);
    if w == "goal"@ || w == "start"@ || w == "exit"@ || w == "version"@ {
        string_field_s(toks, ls, i, v)
    } else if w == "defaults"@ {
        let (e, ok) = fields_block_end(toks, i);
        (with_defaults(v, defaults_block_s(toks, ls, i, v.defaults)), e, ok)
    } else if w == "edges"@ {
        let (es, e, ok) = edges_block_s(toks, i);
        (with_edges(v, es), e, ok)
    } else if w == "stylesheet"@ {
        let (e, ok) = stylesheet_end(toks, i);
        (
            if ok {
                with_stylesheet(v, stylesheet_s(toks, ls, i))
            } else {
                v
            },
            e,
            ok,
        )
    } else if w == "parallel"@ {
        parallel_s(toks, ls, i, v)
    } else if w == "fan_in"@ {
        fan_in_s(toks, i, v)
    } else {
        match kind_of_name(w) {
            Some(kind) => node_s(toks, ls, i, kind, v),
            None => (v, i + 1, true),
        }
    }
}

} // verus!

verus! {

/// Reading a statement that starts with an identifier always moves forward.
pub proof fn lemma_dispatch_end(toks: Seq<TokView>, ls: Seq<Seq<char>>, i: nat, v: WfView)
    requires
        i < toks.len(),
    ensures
        i < dispatch_s(toks, ls, i, v).1 <= toks.len(),
{
    let k = i + 1;
    if ttype_at(toks, k) == TokenType::Colon {
        lemma_field_value_end(toks, k + 1);
    }
    lemma_fields_block_end(toks, i);
    lemma_edges_block_end(toks, i);
    if ttype_at(toks, k) == TokenType::Identifier {
        let p = k + 1;
        if ttype_at(toks, p) == TokenType::Arrow || ttype_at(toks, p) == TokenType::BackArrow {
            lemma_comma_rest_end(toks, step(toks, p + 1));
        }
        if ttype_at(toks, p) == TokenType::Newline && ttype_at(toks, p + 1) == TokenType::Indent {
            lemma_branches_end(toks, p + 2);
            lemma_fields_end(toks, p + 2);
        }
    }
}

/// Reading a workflow's body from `i` up to its outdent (or the end of
/// input): the view it leaves and where it stops. Blank lines and stray
/// tokens are skipped; after a statement that fails, reading resumes past the
/// next newline.
pub open spec fn body_s(toks: Seq<TokView>, ls: Seq<Seq<char>>, i: nat, v: WfView) -> (WfView, nat)
    decreases toks.len() - i,
{
    let ty = ttype_at(toks, i);
    if i >= toks.len() || ty == TokenType::Outdent || ty == TokenType::Eof {
        (v, i)
    } else if ty == TokenType::Identifier {
        let (v2, e, ok) = dispatch_s(toks, ls, i, v);
        proof {
            lemma_dispatch_end(toks, ls, i, v);
            lemma_sync_end_ge(toks, e);
        }
        body_s(
            toks,
            ls,
            if ok {
                e
            } else {
                sync_end(toks, e)
            },
            v2,
        )
    } else {
        body_s(toks, ls, i + 1, v)
    }
}

pub proof fn lemma_body_end(toks: Seq<TokView>, ls: Seq<Seq<char>>, i: nat, v: WfView)
    requires
        i <= toks.len(),
    ensures
        i <= body_s(toks, ls, i, v).1 <= toks.len(),
    decreases toks.len() - i,
{
    let ty = ttype_at(toks, i);
    if !(i >= toks.len() || ty == TokenType::Outdent || ty == TokenType::Eof) {
        if ty == TokenType::Identifier {
            let (v2, e, ok) = dispatch_s(toks, ls, i, v);
            lemma_dispatch_end(toks, ls, i, v);
            lemma_sync_end_ge(toks, e);
            lemma_body_end(
                toks,
                ls,
                if ok {
                    e
                } else {
                    sync_end(toks, e)
                },
                v2,
            );
        } else {
            lemma_body_end(toks, ls, i + 1, v);
        }
    }
}

/// Reading `workflow Name` and its block, whose keyword is at `i`. The name
/// is taken as soon as it is read.
pub open spec fn workflow_s(toks: Seq<TokView>, ls: Seq<Seq<char>>, i: nat, v: WfView) -> (WfView, nat, bool) {
    let k = step(toks, i);
    if ttype_at(toks, k) != TokenType::Identifier {
        (v, step(toks, k), false)
    } else {
        let v1 = with_name(v, tvalue_at(toks, k));
        let p = k + 1;
        if ttype_at(toks, p) != TokenType::Newline {
            (v1, step(toks, p), false)
        } else if ttype_at(toks, p + 1) != TokenType::Indent {
            (v1, step(toks, p + 1), false)
        } else {
            let (v2, b) = body_s(toks, ls, p + 2, v1);
            if ttype_at(toks, b) != TokenType::Outdent {
                (v2, step(toks, b), false)
            } else {
                (v2, b + 1, true)
            }
        }
    }
}

pub proof fn lemma_workflow_end(toks: Seq<TokView>, ls: Seq<Seq<char>>, i: nat, v: WfView)
    requires
        i < toks.len(),
    ensures
        i < workflow_s(toks, ls, i, v).1 <= toks.len(),
{
    let k = step(toks, i);
    if ttype_at(toks, k) == TokenType::Identifier && ttype_at(toks, k + 1) == TokenType::Newline
        && ttype_at(toks, k + 2) == TokenType::Indent {
        let v1 = with_name(v, tvalue_at(toks, k));
        lemma_body_end(toks, ls, k + 3, v1);
    }
}

/// Reading the whole token stream from `i`: every `workflow` declaration
/// found outside a block is read in turn; anything else is skipped.
pub open spec fn top_s(toks: Seq<TokView>, ls: Seq<Seq<char>>, i: nat, v: WfView) -> WfView
    decreases toks.len() - i,
{
    if i >= toks.len() || ttype_at(toks, i) == TokenType::Eof {
        v
    } else if ttype_at(toks, i) == TokenType::Identifier && tvalue_at(toks, i) == "workflow"@ {
        let (v2, e, ok) = workflow_s(toks, ls, i, v);
        proof {
            lemma_workflow_end(toks, ls, i, v);
            lemma_sync_end_ge(toks, e);
        }
        top_s(
            toks,
            ls,
            if ok {
                e
            } else {
                sync_end(toks, e)
            },
            v2,
        )
    } else {
        top_s(toks, ls, i + 1, v)
    }
}

} // verus!

verus! {

/// A duration as written, in nanoseconds, or 0 when the text is not one.
pub open spec fn duration_or_zero(val: Seq<char>) -> nat {
    match parse_duration_s(val) {
        Ok(n) => n,
        Err(_) => 0,
    }
}

/// A floating-point value as written, or `0` when the text is not one.
pub open spec fn float_or_zero(val: Seq<char>) -> Seq<char> {
    if float_text(val) {
        val
    } else {
        seq!['0']
    }
}

pub struct AgentView {
    pub prompt: Seq<char>,
    pub system_prompt: Seq<char>,
    pub model: Seq<char>,
    pub provider: Seq<char>,
    pub max_turns: nat,
    pub cmd_timeout: nat,
    pub cache_tools: bool,
    pub compaction: Seq<char>,
    pub compaction_threshold: Seq<char>,
    pub reasoning_effort: Seq<char>,
    pub fidelity: Seq<char>,
    pub auto_status: bool,
    pub goal_gate: bool,
    pub response_format: Seq<char>,
    pub response_schema: Seq<char>,
    pub params: Seq<(Seq<char>, Seq<char>)>,
}

pub struct HumanView {
    pub mode: Seq<char>,
    pub default: Seq<char>,
    pub prompt: Seq<char>,
    pub questions_key: Seq<char>,
    pub answers_key: Seq<char>,
}

pub struct ToolView {
    pub command: Seq<char>,
    pub timeout: nat,
    pub outputs: Seq<Seq<char>>,
}

pub struct BranchView {
    pub target: Seq<char>,
    pub model: Seq<char>,
    pub provider: Seq<char>,
    pub fidelity: Seq<char>,
}

/// A step's configuration as values.
pub enum ConfigView {
    Agent(AgentView),
    Human(HumanView),
    Tool(ToolView),
    Parallel { targets: Seq<Seq<char>>, branches: Seq<BranchView> },
    FanIn { sources: Seq<Seq<char>> },
    Subgraph { ref_path: Seq<char>, params: Seq<(Seq<char>, Seq<char>)> },
}

pub struct RetryView {
    pub policy: Seq<char>,
    pub max_retries: nat,
    pub base_delay: nat,
    pub retry_target: Seq<char>,
    pub fallback_target: Seq<char>,
}

/// A step as values; its source location is left out.
pub struct NodeView {
    pub id: Seq<char>,
    pub kind: NodeKind,
    pub label: Seq<char>,
    pub classes: Seq<Seq<char>>,
    pub config: ConfigView,
    pub retry: RetryView,
    pub reads: Seq<Seq<char>>,
    pub writes: Seq<Seq<char>>,
    pub line: nat,
    pub column: nat,
}

pub open spec fn agent_view(c: AgentConfig) -> AgentView {
    AgentView {
        prompt: c.prompt@,
        system_prompt: c.system_prompt@,
        model: c.model@,
        provider: c.provider@,
        max_turns: c.max_turns as nat,
        cmd_timeout: c.cmd_timeout.0 as nat,
        cache_tools: c.cache_tools,
        compaction: c.compaction@,
        compaction_threshold: c.compaction_threshold@,
        reasoning_effort: c.reasoning_effort@,
        fidelity: c.fidelity@,
        auto_status: c.auto_status,
        goal_gate: c.goal_gate,
        response_format: c.response_format@,
        response_schema: c.response_schema@,
        params: entries(c.params),
    }
}

pub open spec fn human_view(c: HumanConfig) -> HumanView {
    HumanView {
        mode: c.mode@,
        default: c.default@,
        prompt: c.prompt@,
        questions_key: c.questions_key@,
        answers_key: c.answers_key@,
    }
}

pub open spec fn tool_view(c: ToolConfig) -> ToolView {
    ToolView { command: c.command@, timeout: c.timeout.0 as nat, outputs: strs(c.outputs@) }
}

pub open spec fn branch_view(b: BranchConfig) -> BranchView {
    BranchView { target: b.target@, model: b.model@, provider: b.provider@, fidelity: b.fidelity@ }
}

pub open spec fn config_view(c: NodeConfig) -> ConfigView {
    match c {
        NodeConfig::Agent(a) => ConfigView::Agent(agent_view(a)),
        NodeConfig::Human(h) => ConfigView::Human(human_view(h)),
        NodeConfig::Tool(t) => ConfigView::Tool(tool_view(t)),
        NodeConfig::Parallel(p) => ConfigView::Parallel {
            targets: strs(p.targets@),
            branches: p.branches@.map_values(|b: BranchConfig| branch_view(b)),
        },
        NodeConfig::FanIn(f) => ConfigView::FanIn { sources: strs(f.sources@) },
        NodeConfig::Subgraph(s) => ConfigView::Subgraph { ref_path: s.ref_path@, params: entries(s.params) },
    }
}

pub open spec fn retry_view(r: RetryConfig) -> RetryView {
    RetryView {
        policy: r.policy@,
        max_retries: r.max_retries as nat,
        base_delay: r.base_delay.0 as nat,
        retry_target: r.retry_target@,
        fallback_target: r.fallback_target@,
    }
}

pub open spec fn node_view(n: Node) -> NodeView {
    NodeView {
        id: n.id@,
        kind: n.kind,
        label: n.label@,
        classes: strs(n.classes@),
        config: config_view(n.config),
        retry: retry_view(n.retry),
        reads: strs(n.io.reads@),
        writes: strs(n.io.writes@),
        line: n.source.line as nat,
        column: n.source.column as nat,
    }
}

/// The configuration a step of `kind` starts with.
pub open spec fn default_config_view(kind: NodeKind) -> ConfigView {
    match kind {
        NodeKind::Agent => ConfigView::Agent(
            AgentView {
                prompt: Seq::empty(),
                system_prompt: Seq::empty(),
                model: Seq::empty(),
                provider: Seq::empty(),
                max_turns: 0,
                cmd_timeout: 0,
                cache_tools: false,
                compaction: Seq::empty(),
                compaction_threshold: seq!['0'],
                reasoning_effort: Seq::empty(),
                fidelity: Seq::empty(),
                auto_status: false,
                goal_gate: false,
                response_format: Seq::empty(),
                response_schema: Seq::empty(),
                params: Seq::empty(),
            },
        ),
        NodeKind::Human => ConfigView::Human(
            HumanView {
                mode: Seq::empty(),
                default: Seq::empty(),
                prompt: Seq::empty(),
                questions_key: Seq::empty(),
                answers_key: Seq::empty(),
            },
        ),
        NodeKind::Tool => ConfigView::Tool(ToolView { command: Seq::empty(), timeout: 0, outputs: Seq::empty() }),
        NodeKind::Parallel => ConfigView::Parallel { targets: Seq::empty(), branches: Seq::empty() },
        NodeKind::FanIn => ConfigView::FanIn { sources: Seq::empty() },
        NodeKind::Subgraph => ConfigView::Subgraph { ref_path: Seq::empty(), params: Seq::empty() },
    }
}

/// The retry settings a step starts with.
pub open spec fn default_retry_view() -> RetryView {
    RetryView {
        policy: Seq::empty(),
        max_retries: 0,
        base_delay: 0,
        retry_target: Seq::empty(),
        fallback_target: Seq::empty(),
    }
}

/// A step with id `id` and kind `kind`, declared at `line` and `column`,
/// before any of its fields is read.
pub open spec fn new_node_view(id: Seq<char>, kind: NodeKind, config: ConfigView, line: nat, column: nat) -> NodeView {
    NodeView {
        id,
        kind,
        label: Seq::empty(),
        classes: Seq::empty(),
        config,
        retry: default_retry_view(),
        reads: Seq::empty(),
        writes: Seq::empty(),
        line,
        column,
    }
}

/// Setting a field that every step has; `None` when `key` names none.
pub open spec fn apply_common_s(n: NodeView, key: Seq<char>, val: Seq<char>) -> Option<NodeView> {
    if key == "label"@ {
        Some(NodeView { label: val, ..n })
    } else if key == "class"@ {
        Some(NodeView { classes: split_comma_s(val), ..n })
    } else if key == "reads"@ {
        Some(NodeView { reads: split_comma_s(val), ..n })
    } else if key == "writes"@ {
        Some(NodeView { writes: split_comma_s(val), ..n })
    } else if key == "retry_policy"@ {
        Some(NodeView { retry: RetryView { policy: val, ..n.retry }, ..n })
    } else if key == "retry_target"@ {
        Some(NodeView { retry: RetryView { retry_target: val, ..n.retry }, ..n })
    } else if key == "fallback_target"@ {
        Some(NodeView { retry: RetryView { fallback_target: val, ..n.retry }, ..n })
    } else if key == "max_retries"@ {
        Some(NodeView { retry: RetryView { max_retries: count_or_zero(val), ..n.retry }, ..n })
    } else if key == "base_delay"@ {
        Some(NodeView { retry: RetryView { base_delay: duration_or_zero(val), ..n.retry }, ..n })
    } else {
        None
    }
}

/// Setting an agent field; `None` when `key` names none.
pub open spec fn apply_agent_s(a: AgentView, key: Seq<char>, val: Seq<char>) -> Option<AgentView> {
    if key == "prompt"@ {
        Some(AgentView { prompt: val, ..a })
    } else if key == "system_prompt"@ {
        Some(AgentView { system_prompt: val, ..a })
    } else if key == "model"@ {
        Some(AgentView { model: val, ..a })
    } else if key == "provider"@ {
        Some(AgentView { provider: val, ..a })
    } else if key == "reasoning_effort"@ {
        Some(AgentView { reasoning_effort: val, ..a })
    } else if key == "fidelity"@ {
        Some(AgentView { fidelity: val, ..a })
    } else if key == "response_format"@ {
        Some(AgentView { response_format: val, ..a })
    } else if key == "response_schema"@ {
        Some(AgentView { response_schema: val, ..a })
    } else if key == "compaction"@ {
        Some(AgentView { compaction: val, ..a })
    } else if key == "goal_gate"@ {
        Some(AgentView { goal_gate: val == "true"@, ..a })
    } else if key == "auto_status"@ {
        Some(AgentView { auto_status: val == "true"@, ..a })
    } else if key == "cache_tools"@ {
        Some(AgentView { cache_tools: val == "true"@, ..a })
    } else if key == "max_turns"@ {
        Some(AgentView { max_turns: count_or_zero(val), ..a })
    } else if key == "compaction_threshold"@ {
        Some(AgentView { compaction_threshold: float_or_zero(val), ..a })
    } else if key == "cmd_timeout"@ {
        Some(AgentView { cmd_timeout: duration_or_zero(val), ..a })
    } else if key == "params"@ {
        Some(AgentView { params: params_s(split_s(val, '\n')), ..a })
    } else {
        None
    }
}

/// Setting a human field; `None` when `key` names none.
pub open spec fn apply_human_s(h: HumanView, key: Seq<char>, val: Seq<char>) -> Option<HumanView> {
    if key == "mode"@ {
        Some(HumanView { mode: val, ..h })
    } else if key == "default"@ {
        Some(HumanView { default: val, ..h })
    } else if key == "prompt"@ {
        Some(HumanView { prompt: val, ..h })
    } else if key == "questions_key"@ {
        Some(HumanView { questions_key: val, ..h })
    } else if key == "answers_key"@ {
        Some(HumanView { answers_key: val, ..h })
    } else {
        None
    }
}

/// Setting a tool field; `None` when `key` names none.
pub open spec fn apply_tool_s(t: ToolView, key: Seq<char>, val: Seq<char>) -> Option<ToolView> {
    if key == "command"@ {
        Some(ToolView { command: val, ..t })
    } else if key == "timeout"@ {
        Some(ToolView { timeout: duration_or_zero(val), ..t })
    } else if key == "outputs"@ {
        Some(ToolView { outputs: split_comma_s(val), ..t })
    } else {
        None
    }
}

/// Setting a field of a step's own kind; a word that names none changes
/// nothing.
pub open spec fn apply_config_s(n: NodeView, key: Seq<char>, val: Seq<char>) -> NodeView {
    match n.config {
        ConfigView::Agent(a) => match apply_agent_s(a, key, val) {
            Some(a2) => NodeView { config: ConfigView::Agent(a2), ..n },
            None => n,
        },
        ConfigView::Human(h) => match apply_human_s(h, key, val) {
            Some(h2) => NodeView { config: ConfigView::Human(h2), ..n },
            None => n,
        },
        ConfigView::Tool(t) => match apply_tool_s(t, key, val) {
            Some(t2) => NodeView { config: ConfigView::Tool(t2), ..n },
            None => n,
        },
        ConfigView::Subgraph { ref_path, params } => if key == "ref"@ {
            NodeView { config: ConfigView::Subgraph { ref_path: val, params }, ..n }
        } else if key == "params"@ {
            NodeView { config: ConfigView::Subgraph { ref_path, params: params_s(split_s(val, '\n')) }, ..n }
        } else {
            n
        },
        _ => n,
    }
}

/// Setting one field of a step: a common field first, then one of its
/// kind.
pub open spec fn apply_node_s(n: NodeView, key: Seq<char>, val: Seq<char>) -> NodeView {
    match apply_common_s(n, key, val) {
        Some(n2) => n2,
        None => apply_config_s(n, key, val),
    }
}

} // verus!

verus! {

/// Reading a block of a step's `key: value` fields from `i`, starting from
/// `n`: each field read in full is applied.
pub open spec fn node_fields_s(toks: Seq<TokView>, ls: Seq<Seq<char>>, i: nat, n: NodeView) -> NodeView
    decreases toks.len() - i,
{
    let ty = ttype_at(toks, i);
    if i >= toks.len() || ty == TokenType::Outdent || ty == TokenType::Eof {
        n
    } else if ty == TokenType::Identifier {
        let k = i + 1;
        proof {
            lemma_field_end(toks, i);
            lemma_sync_end_ge(toks, step(toks, k));
        }
        if ttype_at(toks, k) != TokenType::Colon {
            node_fields_s(toks, ls, sync_end(toks, step(toks, k)), n)
        } else {
            let val = field_value_s(toks, ls, k + 1, tline_at(toks, i));
            node_fields_s(toks, ls, field_value_end(toks, k + 1), apply_node_s(n, tvalue_at(toks, i), val))
        }
    } else {
        node_fields_s(toks, ls, i + 1, n)
    }
}

/// The items of the rest of a comma-separated list, from the position after
/// an item: the token after each comma.
pub open spec fn comma_rest_values(toks: Seq<TokView>, q: nat) -> Seq<Seq<char>>
    decreases toks.len() - q,
{
    if ttype_at(toks, q) == TokenType::Comma {
        seq![tvalue_at(toks, q + 1)] + comma_rest_values(toks, step(toks, q + 1))
    } else {
        Seq::empty()
    }
}

/// The items of a comma-separated list that starts at `i`.
pub open spec fn comma_values(toks: Seq<TokView>, i: nat) -> Seq<Seq<char>> {
    seq![tvalue_at(toks, i)] + comma_rest_values(toks, step(toks, i))
}

/// Setting a branch field (`model`, `provider`, `fidelity`); `None` when
/// `key` names none.
pub open spec fn apply_branch_s(b: BranchView, key: Seq<char>, val: Seq<char>) -> Option<BranchView> {
    if key == "model"@ {
        Some(BranchView { model: val, ..b })
    } else if key == "provider"@ {
        Some(BranchView { provider: val, ..b })
    } else if key == "fidelity"@ {
        Some(BranchView { fidelity: val, ..b })
    } else {
        None
    }
}

/// Reading a block of branch fields from `i`, starting from `b`.
pub open spec fn branch_fields_s(toks: Seq<TokView>, ls: Seq<Seq<char>>, i: nat, b: BranchView) -> BranchView
    decreases toks.len() - i,
{
    let ty = ttype_at(toks, i);
    if i >= toks.len() || ty == TokenType::Outdent || ty == TokenType::Eof {
        b
    } else if ty == TokenType::Identifier {
        let k = i + 1;
        proof {
            lemma_field_end(toks, i);
            lemma_sync_end_ge(toks, step(toks, k));
        }
        if ttype_at(toks, k) != TokenType::Colon {
            branch_fields_s(toks, ls, sync_end(toks, step(toks, k)), b)
        } else {
            let val = field_value_s(toks, ls, k + 1, tline_at(toks, i));
            branch_fields_s(
                toks,
                ls,
                field_value_end(toks, k + 1),
                match apply_branch_s(b, tvalue_at(toks, i), val) {
                    Some(b2) => b2,
                    None => b,
                },
            )
        }
    } else {
        branch_fields_s(toks, ls, i + 1, b)
    }
}

/// The branch that `branch: target` at `i` (with its optional block of
/// fields) describes, when it is well formed.
pub open spec fn one_branch_s(toks: Seq<TokView>, ls: Seq<Seq<char>>, i: nat) -> BranchView {
    let k = step(toks, i);
    let b0 = BranchView {
        target: tvalue_at(toks, k + 1),
        model: Seq::empty(),
        provider: Seq::empty(),
        fidelity: Seq::empty(),
    };
    let q = step(toks, k + 1);
    let q2 = line_stop(toks, q);
    let q3 = if ttype_at(toks, q2) == TokenType::Newline {
        q2 + 1
    } else {
        q2
    };
    if ttype_at(toks, q3) != TokenType::Indent {
        b0
    } else {
        branch_fields_s(toks, ls, q3 + 1, b0)
    }
}

/// The branches of a parallel block read from `i`: one for each
/// well-formed `branch` entry.
pub open spec fn branches_s(toks: Seq<TokView>, ls: Seq<Seq<char>>, i: nat) -> Seq<BranchView>
    decreases toks.len() - i,
{
    let ty = ttype_at(toks, i);
    if i >= toks.len() || ty == TokenType::Outdent || ty == TokenType::Eof {
        Seq::empty()
    } else if ty == TokenType::Identifier && tvalue_at(toks, i) == "branch"@ {
        let (e, ok) = one_branch_end(toks, i);
        proof {
            lemma_one_branch_end(toks, i);
            lemma_sync_end_ge(toks, e);
        }
        if ok {
            seq![one_branch_s(toks, ls, i)] + branches_s(toks, ls, e)
        } else {
            branches_s(toks, ls, sync_end(toks, e))
        }
    } else {
        branches_s(toks, ls, i + 1)
    }
}

} // verus!

verus! {

/// A configuration at its defaults has the default view of its kind.
pub proof fn lemma_default_config_view(c: NodeConfig)
    requires
        is_default_config(c),
    ensures
        config_view(c) == default_config_view(config_kind(c)),
{
    match c {
        NodeConfig::Agent(a) => {
            assert(a.prompt@ =~= Seq::<char>::empty());
            assert(a.system_prompt@ =~= Seq::<char>::empty());
            assert(a.model@ =~= Seq::<char>::empty());
            assert(a.provider@ =~= Seq::<char>::empty());
            assert(a.compaction@ =~= Seq::<char>::empty());
            assert(a.reasoning_effort@ =~= Seq::<char>::empty());
            assert(a.fidelity@ =~= Seq::<char>::empty());
            assert(a.response_format@ =~= Seq::<char>::empty());
            assert(a.response_schema@ =~= Seq::<char>::empty());
            assert(entries(a.params) =~= Seq::empty());
        },
        NodeConfig::Human(h) => {
            assert(h.mode@ =~= Seq::<char>::empty());
            assert(h.default@ =~= Seq::<char>::empty());
            assert(h.prompt@ =~= Seq::<char>::empty());
            assert(h.questions_key@ =~= Seq::<char>::empty());
            assert(h.answers_key@ =~= Seq::<char>::empty());
        },
        NodeConfig::Tool(t) => {
            assert(t.command@ =~= Seq::<char>::empty());
            assert(strs(t.outputs@) =~= Seq::empty());
        },
        NodeConfig::Parallel(p) => {
            assert(strs(p.targets@) =~= Seq::empty());
            assert(p.branches@.map_values(|b: BranchConfig| branch_view(b)) =~= Seq::empty());
        },
        NodeConfig::FanIn(f) => {
            assert(strs(f.sources@) =~= Seq::empty());
        },
        NodeConfig::Subgraph(g) => {
            assert(g.ref_path@ =~= Seq::<char>::empty());
            assert(entries(g.params) =~= Seq::empty());
        },
    }
}

} // verus!

verus! {

/// A step just made, with its configuration and retry settings at their
/// defaults and no label, classes, reads or writes, has the view of a new
/// step.
pub proof fn lemma_fresh_node_view(n: Node)
    requires
        is_default_config(n.config),
        config_kind(n.config) == n.kind,
        n.label@.len() == 0,
        n.classes@.len() == 0,
        n.retry.policy@.len() == 0 && n.retry.max_retries == 0 && n.retry.base_delay.0 == 0,
        n.retry.retry_target@.len() == 0 && n.retry.fallback_target@.len() == 0,
        n.io.reads@.len() == 0 && n.io.writes@.len() == 0,
    ensures
        node_view(n) == new_node_view(
            n.id@,
            n.kind,
            default_config_view(n.kind),
            n.source.line as nat,
            n.source.column as nat,
        ),
{
    lemma_default_config_view(n.config);
    assert(n.label@ =~= Seq::<char>::empty());
    assert(strs(n.classes@) =~= Seq::empty());
    assert(strs(n.io.reads@) =~= Seq::empty());
    assert(strs(n.io.writes@) =~= Seq::empty());
    assert(n.retry.policy@ =~= Seq::<char>::empty());
    assert(n.retry.retry_target@ =~= Seq::<char>::empty());
    assert(n.retry.fallback_target@ =~= Seq::<char>::empty());
}

} // verus!

verus! {

/// A step built with no label, classes, reads or writes and default retry
/// settings has the view of a new step with its configuration.
pub proof fn lemma_plain_node_view(n: Node)
    requires
        n.label@.len() == 0,
        n.classes@.len() == 0,
        n.retry.policy@.len() == 0 && n.retry.max_retries == 0 && n.retry.base_delay.0 == 0,
        n.retry.retry_target@.len() == 0 && n.retry.fallback_target@.len() == 0,
        n.io.reads@.len() == 0 && n.io.writes@.len() == 0,
    ensures
        node_view(n) == new_node_view(
            n.id@,
            n.kind,
            config_view(n.config),
            n.source.line as nat,
            n.source.column as nat,
        ),
{
    assert(n.label@ =~= Seq::<char>::empty());
    assert(strs(n.classes@) =~= Seq::empty());
    assert(strs(n.io.reads@) =~= Seq::empty());
    assert(strs(n.io.writes@) =~= Seq::empty());
    assert(n.retry.policy@ =~= Seq::<char>::empty());
    assert(n.retry.retry_target@ =~= Seq::<char>::empty());
    assert(n.retry.fallback_target@ =~= Seq::<char>::empty());
}

} // verus!

verus! {

/// Whether the view declares a step with id `id`.
pub open spec fn declared_v(v: WfView, id: Seq<char>) -> bool {
    exists|i: int| 0 <= i < v.steps.len() && (#[trigger] v.steps[i]).id == id
}

pub open spec fn ref_ok_v(v: WfView, target: Seq<char>) -> bool {
    target.len() == 0 || declared_v(v, target)
}

/// Every reference in the view (start, exit, the default restart target,
/// both ends of every edge) is empty or names a declared step.
pub open spec fn resolved_v(v: WfView) -> bool {
    &&& ref_ok_v(v, v.start)
    &&& ref_ok_v(v, v.exit)
    &&& ref_ok_v(v, v.defaults.restart_target)
    &&& forall|i: int|
        0 <= i < v.edges.len() ==> ref_ok_v(v, (#[trigger] v.edges[i]).from) && ref_ok_v(v, v.edges[i].to)
}

/// A workflow's references resolve exactly when those of its view do.
pub proof fn lemma_resolved_view(w: Workflow)
    ensures
        refs_resolved(w) == resolved_v(wf_view(w)),
{
    let v = wf_view(w);
    assert forall|id: Seq<char>| declared(w, id) == declared_v(v, id) by {
        if declared(w, id) {
            let i = choose|i: int| 0 <= i < w.nodes@.len() && (#[trigger] w.nodes@[i]).id@ == id;
            assert(v.steps[i].id == id);
        }
        if declared_v(v, id) {
            let i = choose|i: int| 0 <= i < v.steps.len() && (#[trigger] v.steps[i]).id == id;
            assert(w.nodes@[i].id@ == id);
        }
    }
    assert(edges_resolved(w) == (forall|i: int|
        0 <= i < v.edges.len() ==> ref_ok_v(v, (#[trigger] v.edges[i]).from) && ref_ok_v(v, v.edges[i].to))) by {
        if edges_resolved(w) {
            assert forall|i: int| 0 <= i < v.edges.len() implies ref_ok_v(v, (#[trigger] v.edges[i]).from)
                && ref_ok_v(v, v.edges[i].to) by {
                assert(ref_ok(w, w.edges@[i].from@) && ref_ok(w, w.edges@[i].to@));
            }
        }
        if forall|i: int|
            0 <= i < v.edges.len() ==> ref_ok_v(v, (#[trigger] v.edges[i]).from) && ref_ok_v(v, v.edges[i].to) {
            assert forall|i: int| 0 <= i < w.edges@.len() implies ref_ok(w, (#[trigger] w.edges@[i]).from@)
                && ref_ok(w, w.edges@[i].to@) by {
                assert(ref_ok_v(v, v.edges[i].from) && ref_ok_v(v, v.edges[i].to));
            }
        }
    }
}

} // verus!

verus! {

/// The lines of the fields that set `start`, `exit` and the default restart
/// target, which the reference check reports at.
pub type RefLines = (nat, nat, nat);

/// The lines after `goal:`, `start:`, `exit:` or `version:` at `i`.
pub open spec fn string_field_lines(toks: Seq<TokView>, i: nat, l: RefLines) -> RefLines {
    let k = step(toks, i);
    let key = tvalue_at(toks, i);
    if ttype_at(toks, k) != TokenType::Colon {
        l
    } else if key == "goal"@ {
        l
    } else if key == "start"@ {
        (tline_at(toks, i), l.1, l.2)
    } else if key == "exit"@ {
        (l.0, tline_at(toks, i), l.2)
    } else {
        l
    }
}

/// The lines after a block of defaults from `i`.
pub open spec fn defaults_fields_lines(toks: Seq<TokView>, i: nat, l: RefLines) -> RefLines
    decreases toks.len() - i,
{
    let ty = ttype_at(toks, i);
    if i >= toks.len() || ty == TokenType::Outdent || ty == TokenType::Eof {
        l
    } else if ty == TokenType::Identifier {
        let k = i + 1;
        proof {
            lemma_field_end(toks, i);
            lemma_sync_end_ge(toks, step(toks, k));
        }
        if ttype_at(toks, k) != TokenType::Colon {
            defaults_fields_lines(toks, sync_end(toks, step(toks, k)), l)
        } else {
            defaults_fields_lines(
                toks,
                field_value_end(toks, k + 1),
                if tvalue_at(toks, i) == "restart_target"@ {
                    (l.0, l.1, tline_at(toks, i))
                } else {
                    l
                },
            )
        }
    } else {
        defaults_fields_lines(toks, i + 1, l)
    }
}

/// The lines after the statement of a workflow's body at `i`.
pub open spec fn dispatch_lines(toks: Seq<TokView>, i: nat, l: RefLines) -> RefLines {
    let w = tvalue_at(toks, i);
    if w == "goal"@ || w == "start"@ || w == "exit"@ || w == "version"@ {
        string_field_lines(toks, i, l)
    } else if w == "defaults"@ {
        let i1 = step(toks, i);
        if ttype_at(toks, i1) == TokenType::Newline && ttype_at(toks, i1 + 1) == TokenType::Indent {
            defaults_fields_lines(toks, i1 + 2, l)
        } else {
            l
        }
    } else {
        l
    }
}

/// The lines after a workflow's body from `i`.
pub open spec fn body_lines(toks: Seq<TokView>, ls: Seq<Seq<char>>, i: nat, v: WfView, l: RefLines) -> RefLines
    decreases toks.len() - i,
{
    let ty = ttype_at(toks, i);
    if i >= toks.len() || ty == TokenType::Outdent || ty == TokenType::Eof {
        l
    } else if ty == TokenType::Identifier {
        let (v2, e, ok) = dispatch_s(toks, ls, i, v);
        proof {
            lemma_dispatch_end(toks, ls, i, v);
            lemma_sync_end_ge(toks, e);
        }
        body_lines(
            toks,
            ls,
            if ok {
                e
            } else {
                sync_end(toks, e)
            },
            v2,
            dispatch_lines(toks, i, l),
        )
    } else {
        body_lines(toks, ls, i + 1, v, l)
    }
}

/// The lines after `workflow Name` and its block at `i`.
pub open spec fn workflow_lines(toks: Seq<TokView>, ls: Seq<Seq<char>>, i: nat, v: WfView, l: RefLines) -> RefLines {
    let k = step(toks, i);
    if ttype_at(toks, k) == TokenType::Identifier && ttype_at(toks, k + 1) == TokenType::Newline
        && ttype_at(toks, k + 2) == TokenType::Indent {
        body_lines(toks, ls, k + 3, with_name(v, tvalue_at(toks, k)), l)
    } else {
        l
    }
}

/// The lines after reading the whole token stream from `i`.
pub open spec fn top_lines(toks: Seq<TokView>, ls: Seq<Seq<char>>, i: nat, v: WfView, l: RefLines) -> RefLines
    decreases toks.len() - i,
{
    if i >= toks.len() || ttype_at(toks, i) == TokenType::Eof {
        l
    } else if ttype_at(toks, i) == TokenType::Identifier && tvalue_at(toks, i) == "workflow"@ {
        let (v2, e, ok) = workflow_s(toks, ls, i, v);
        proof {
            lemma_workflow_end(toks, ls, i, v);
            lemma_sync_end_ge(toks, e);
        }
        top_lines(
            toks,
            ls,
            if ok {
                e
            } else {
                sync_end(toks, e)
            },
            v2,
            workflow_lines(toks, ls, i, v, l),
        )
    } else {
        top_lines(toks, ls, i + 1, v, l)
    }
}

} // verus!

verus! {

/// The diagnostic of one reference in the view, if it names no declared
/// step.
pub open spec fn check_v(v: WfView, role: Seq<char>, target: Seq<char>, f: Seq<char>, line: nat) -> Seq<(KindView, Seq<char>, Seq<char>, nat, nat)> {
    if ref_ok_v(v, target) {
        Seq::empty()
    } else {
        seq![(KindView::UndefinedNodeReference(target), undefined_msg(role, target), f, line, 1)]
    }
}

/// The diagnostics of the first `n` edges of the view.
pub open spec fn edge_checks_v(v: WfView, f: Seq<char>, n: nat) -> Seq<(KindView, Seq<char>, Seq<char>, nat, nat)>
    decreases n,
{
    if n == 0 {
        Seq::empty()
    } else {
        let e = v.edges[n - 1];
        edge_checks_v(v, f, (n - 1) as nat) + check_v(v, "edge `from`"@, e.from, f, e.line) + check_v(
            v,
            "edge `to`"@,
            e.to,
            f,
            e.line,
        )
    }
}

/// What the reference check reports for the view, with `start`, `exit` and
/// the default restart target set on lines `l`.
pub open spec fn validate_v(v: WfView, f: Seq<char>, l: RefLines) -> Seq<(KindView, Seq<char>, Seq<char>, nat, nat)> {
    check_v(v, "workflow.start"@, v.start, f, l.0) + check_v(v, "workflow.exit"@, v.exit, f, l.1) + check_v(
        v,
        "defaults.restart_target"@,
        v.defaults.restart_target,
        f,
        l.2,
    ) + edge_checks_v(v, f, v.edges.len())
}

pub proof fn lemma_declared_view(w: Workflow, id: Seq<char>)
    ensures
        declared(w, id) == declared_v(wf_view(w), id),
{
    let v = wf_view(w);
    if declared(w, id) {
        let i = choose|i: int| 0 <= i < w.nodes@.len() && (#[trigger] w.nodes@[i]).id@ == id;
        assert(v.steps[i].id == id);
    }
    if declared_v(v, id) {
        let i = choose|i: int| 0 <= i < v.steps.len() && (#[trigger] v.steps[i]).id == id;
        assert(w.nodes@[i].id@ == id);
    }
}

pub proof fn lemma_edge_checks_view(w: Workflow, f: Seq<char>, n: nat)
    requires
        n <= w.edges@.len(),
    ensures
        edge_checks(w, f, n) == edge_checks_v(wf_view(w), f, n),
    decreases n,
{
    if n > 0 {
        lemma_edge_checks_view(w, f, (n - 1) as nat);
        let e = w.edges@[n - 1];
        lemma_declared_view(w, e.from@);
        lemma_declared_view(w, e.to@);
    }
}

/// The reference check of a workflow is that of its view.
pub proof fn lemma_validate_view(w: Workflow, f: Seq<char>, sl: nat, el: nat, rl: nat)
    ensures
        validate_lines_s(w, f, sl, el, rl) == validate_v(wf_view(w), f, (sl, el, rl)),
{
    lemma_declared_view(w, w.start@);
    lemma_declared_view(w, w.exit@);
    lemma_declared_view(w, w.defaults.restart_target@);
    lemma_edge_checks_view(w, f, w.edges@.len());
}

} // verus!

verus! {

/// The export options as far as the DOT text depends on them.
pub open spec fn same_options(o1: ExportOptions, o2: ExportOptions) -> bool {
    &&& o1.include_prompts == o2.include_prompts
    &&& o1.rank_dir == o2.rank_dir
    &&& o1.highlight_goal_gates == o2.highlight_goal_gates
    &&& strs(o1.execution_path@) == strs(o2.execution_path@)
}

/// Two steps with the same view give the same DOT statement.
pub proof fn lemma_node_line_view(n1: Node, n2: Node, w1: Workflow, w2: Workflow, o1: ExportOptions, o2: ExportOptions)
    requires
        node_view(n1) == node_view(n2),
        w1.start@ == w2.start@,
        w1.exit@ == w2.exit@,
        same_options(o1, o2),
    ensures
        node_line_s(n1, w1, o1) == node_line_s(n2, w2, o2),
{
    assert(n1.id@ == n2.id@ && n1.label@ == n2.label@ && n1.kind == n2.kind);
    assert(config_view(n1.config) == config_view(n2.config));
    assert forall|k: int| node_slot(n1, w1, o1, k) == node_slot(n2, w2, o2, k) by {
        match n1.config {
            NodeConfig::Agent(a1) => {
                let a2 = n2.config->Agent_0;
                assert(agent_view(a1) == agent_view(a2));
            },
            NodeConfig::Tool(t1) => {
                let t2 = n2.config->Tool_0;
                assert(tool_view(t1) == tool_view(t2));
            },
            NodeConfig::Human(h1) => {
                let h2 = n2.config->Human_0;
                assert(human_view(h1) == human_view(h2));
            },
            NodeConfig::Subgraph(g1) => {
                let g2 = n2.config->Subgraph_0;
                assert(g1.ref_path@ == g2.ref_path@);
            },
            NodeConfig::Parallel(p1) => {
                let p2 = n2.config->Parallel_0;
                assert(strs(p1.targets@) == strs(p2.targets@));
            },
            NodeConfig::FanIn(f1) => {
                let f2 = n2.config->FanIn_0;
                assert(strs(f1.sources@) == strs(f2.sources@));
            },
        }
    }
    assert(node_slots(n1, w1, o1) =~= node_slots(n2, w2, o2));
}

/// Two edges with the same view give the same DOT statement.
pub proof fn lemma_edge_line_view(e1: Edge, e2: Edge)
    requires
        edge_spec_of(e1) == edge_spec_of(e2),
    ensures
        edge_line_s(e1) == edge_line_s(e2),
{
    assert(e1.from@ == e2.from@ && e1.to@ == e2.to@);
    assert(edge_attrs_of(e1) == edge_attrs_of(e2));
    assert(cond_text(e1) == cond_text(e2));
    assert(edge_slots(e1) =~= edge_slots(e2));
}

/// The DOT text of a workflow depends only on its view and on the options'
/// settings.
pub proof fn lemma_export_view(w1: Workflow, w2: Workflow, o1: ExportOptions, o2: ExportOptions)
    requires
        wf_view(w1) == wf_view(w2),
        same_options(o1, o2),
    ensures
        export_s(w1, o1) == export_s(w2, o2),
{
    let v = wf_view(w1);
    assert(w1.nodes@.len() == v.steps.len() && w2.nodes@.len() == v.steps.len());
    assert forall|i: int| 0 <= i < w1.nodes@.len() implies node_line_s(w1.nodes@[i], w1, o1) == node_line_s(
        w2.nodes@[i],
        w2,
        o2,
    ) by {
        assert(wf_view(w1).steps[i] == wf_view(w2).steps[i]);
        lemma_node_line_view(w1.nodes@[i], w2.nodes@[i], w1, w2, o1, o2);
    }
    assert(node_lines(w1, o1) =~= node_lines(w2, o2));
    assert(w1.edges@.len() == v.edges.len() && w2.edges@.len() == v.edges.len());
    assert forall|i: int| 0 <= i < w1.edges@.len() implies edge_line_s(w1.edges@[i]) == edge_line_s(
        w2.edges@[i],
    ) by {
        assert(wf_view(w1).edges[i] == wf_view(w2).edges[i]);
        lemma_edge_line_view(w1.edges@[i], w2.edges@[i]);
    }
    assert(edge_lines(w1) =~= edge_lines(w2));
    assert(graph_name(w1) == graph_name(w2));
}

} // verus!
