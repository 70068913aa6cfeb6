//! Which diagnostics the parser records while it reads a token stream, for
//! each construct of the language, in the order it records them. Each is a
//! kind, a message, a file, a line and a column.
use vstd::prelude::*;
use crate::error::KindView;
use crate::lexer::{TokView, TokenType};
use crate::text::debug_text;
use crate::parser::{ttype_at, tvalue_at, step, sync_end, tt_name, u32_text, float_text, invalid_msg, unknown_field_msg, cond_end, edge_attrs_s, no_attrs, single_edge_s, edges_body_s, lemma_cond_end_ge, lemma_edge_attrs_end, lemma_single_edge_advances, lemma_sync_end_ge};
use crate::duration::parse_duration_s;
use crate::reading::{ConfigView, NodeView, apply_human_s, apply_common_s, apply_node_s, field_value_s, field_value_end, tline_at, lemma_field_end, line_stop, fields_end, tcol_at, one_branch_end, lemma_one_branch_end, comma_list_end, branches_end, new_node_view, default_config_view, WfView, dispatch_s, lemma_dispatch_end, with_name, body_s, workflow_s, lemma_workflow_end};
use crate::ir::{NodeKind, kind_of_name};

verus! {

pub type DiagView = (KindView, Seq<char>, Seq<char>, nat, nat);

/// Where token `i` stands (line, column); past the last token, `end`.
pub open spec fn tpos(toks: Seq<TokView>, i: nat, end: (nat, nat)) -> (nat, nat) {
    if i < toks.len() {
        (toks[i as int].2, toks[i as int].3)
    } else {
        end
    }
}

pub open spec fn diag_at(k: KindView, msg: Seq<char>, f: Seq<char>, p: (nat, nat)) -> DiagView {
    (k, msg, f, p.0, p.1)
}

/// Expecting a token of type `expected` at `i`.
pub open spec fn expect_d(toks: Seq<TokView>, i: nat, expected: TokenType, f: Seq<char>, end: (nat, nat)) -> Seq<DiagView> {
    let found = ttype_at(toks, i);
    if found == expected {
        Seq::empty()
    } else {
        seq![
            diag_at(
                KindView::UnexpectedToken(tt_name(expected), tt_name(found)),
                "expected "@ + tt_name(expected) + ", got "@ + tt_name(found),
                f,
                tpos(toks, i, end),
            ),
        ]
    }
}

/// Expecting an identifier at `i`, after `after`.
pub open spec fn ident_d(toks: Seq<TokView>, i: nat, after: Seq<char>, f: Seq<char>, end: (nat, nat)) -> Seq<DiagView> {
    let found = ttype_at(toks, i);
    if found == TokenType::Identifier {
        Seq::empty()
    } else {
        seq![
            diag_at(
                KindView::MissingIdentifier(after),
                "expected identifier after `"@ + after + "`, got "@ + tt_name(found),
                f,
                tpos(toks, i, end),
            ),
        ]
    }
}

pub open spec fn int_d(val: Seq<char>, key: Seq<char>, f: Seq<char>, p: (nat, nat)) -> Seq<DiagView> {
    if u32_text(val) is Some {
        Seq::empty()
    } else {
        seq![diag_at(KindView::InvalidInteger(val, key), invalid_msg("integer"@, val, key), f, p)]
    }
}

pub open spec fn bool_d(val: Seq<char>, key: Seq<char>, f: Seq<char>, p: (nat, nat)) -> Seq<DiagView> {
    if val == "true"@ || val == "false"@ {
        Seq::empty()
    } else {
        seq![
            diag_at(
                KindView::InvalidBool(val, key),
                "`"@ + key + "` requires true or false, got `"@ + val + "`"@,
                f,
                p,
            ),
        ]
    }
}

pub open spec fn float_d(val: Seq<char>, key: Seq<char>, f: Seq<char>, p: (nat, nat)) -> Seq<DiagView> {
    if float_text(val) {
        Seq::empty()
    } else {
        seq![diag_at(KindView::InvalidFloat(val, key), invalid_msg("float"@, val, key), f, p)]
    }
}

pub open spec fn duration_d(val: Seq<char>, key: Seq<char>, f: Seq<char>, p: (nat, nat)) -> Seq<DiagView> {
    if parse_duration_s(val) is Ok {
        Seq::empty()
    } else {
        seq![diag_at(KindView::InvalidDuration(val, key), invalid_msg("duration"@, val, key), f, p)]
    }
}

pub open spec fn unknown_d(scope: Seq<char>, name: Seq<char>, f: Seq<char>, p: (nat, nat)) -> Seq<DiagView> {
    seq![diag_at(KindView::UnknownField(scope, name), unknown_field_msg(scope, name), f, p)]
}

/// What setting default `key` to `val` records.
pub open spec fn default_field_d(key: Seq<char>, val: Seq<char>, f: Seq<char>, p: (nat, nat)) -> Seq<DiagView> {
    if key == "model"@ || key == "provider"@ || key == "retry_policy"@ || key == "fidelity"@ || key
        == "restart_target"@ || key == "compaction"@ || key == "on_resume"@ {
        Seq::empty()
    } else if key == "max_retries"@ || key == "max_restarts"@ {
        int_d(val, key, f, p)
    } else if key == "cache_tools"@ {
        bool_d(val, key, f, p)
    } else {
        seq![
            diag_at(
                KindView::UnknownField("defaults"@, key),
                "unknown defaults field "@ + debug_text(key),
                f,
                p,
            ),
        ]
    }
}

/// What setting a common field records.
pub open spec fn common_d(key: Seq<char>, val: Seq<char>, f: Seq<char>, p: (nat, nat)) -> Seq<DiagView> {
    if key == "label"@ || key == "class"@ || key == "reads"@ || key == "writes"@ || key
        == "retry_policy"@ || key == "retry_target"@ || key == "fallback_target"@ {
        Seq::empty()
    } else if key == "max_retries"@ {
        int_d(val, key, f, p)
    } else {
        duration_d(val, key, f, p)
    }
}

/// What setting a field of the step's own kind records.
pub open spec fn config_d(c: ConfigView, key: Seq<char>, val: Seq<char>, f: Seq<char>, p: (nat, nat)) -> Seq<DiagView> {
    match c {
        ConfigView::Agent(_) => if key == "prompt"@ || key == "system_prompt"@ || key == "model"@ || key
            == "provider"@ || key == "reasoning_effort"@ || key == "fidelity"@ || key
            == "response_format"@ || key == "response_schema"@ || key == "compaction"@ {
            Seq::empty()
        } else if key == "goal_gate"@ || key == "auto_status"@ || key == "cache_tools"@ {
            bool_d(val, key, f, p)
        } else if key == "max_turns"@ {
            int_d(val, key, f, p)
        } else if key == "compaction_threshold"@ {
            float_d(val, key, f, p)
        } else if key == "cmd_timeout"@ {
            duration_d(val, key, f, p)
        } else if key == "params"@ {
            Seq::empty()
        } else {
            unknown_d("agent"@, key, f, p)
        },
        ConfigView::Human(h) => if apply_human_s(h, key, val) is Some {
            Seq::empty()
        } else {
            unknown_d("human"@, key, f, p)
        },
        ConfigView::Tool(_) => if key == "command"@ {
            Seq::empty()
        } else if key == "timeout"@ {
            duration_d(val, key, f, p)
        } else if key == "outputs"@ {
            Seq::empty()
        } else {
            unknown_d("tool"@, key, f, p)
        },
        ConfigView::Subgraph { .. } => if key == "ref"@ || key == "params"@ {
            Seq::empty()
        } else {
            unknown_d("subgraph"@, key, f, p)
        },
        _ => Seq::empty(),
    }
}

/// What setting one field of a step records.
pub open spec fn node_field_d(n: NodeView, key: Seq<char>, val: Seq<char>, f: Seq<char>, p: (nat, nat)) -> Seq<DiagView> {
    if apply_common_s(n, key, val) is Some {
        common_d(key, val, f, p)
    } else {
        config_d(n.config, key, val, f, p)
    }
}

} // verus!

verus! {

/// Reading edge attributes from `i`.
pub open spec fn edge_attrs_d(toks: Seq<TokView>, i: nat, f: Seq<char>, end: (nat, nat)) -> Seq<DiagView>
    decreases toks.len() - i,
{
    if i >= toks.len() || toks[i as int].0 == TokenType::Newline || toks[i as int].0
        == TokenType::Eof {
        Seq::empty()
    } else {
        let v = toks[i as int].1;
        let j = i + 1;
        if v == "when"@ {
            proof {
                lemma_cond_end_ge(toks, j);
            }
            edge_attrs_d(toks, cond_end(toks, j), f, end)
        } else if v == "label"@ || v == "weight"@ || v == "restart"@ {
            if ttype_at(toks, j) != TokenType::Colon {
                expect_d(toks, j, TokenType::Colon, f, end)
            } else {
                let val = tvalue_at(toks, j + 1);
                let p = tpos(toks, j + 1, end);
                let vd = if v == "label"@ {
                    Seq::empty()
                } else if v == "weight"@ {
                    int_d(val, "weight"@, f, p)
                } else {
                    bool_d(val, "restart"@, f, p)
                };
                vd + edge_attrs_d(toks, step(toks, j + 1), f, end)
            }
        } else if ttype_at(toks, j) == TokenType::Colon {
            if ttype_at(toks, j + 1) == TokenType::Newline || ttype_at(toks, j + 1) == TokenType::Eof {
                edge_attrs_d(toks, j + 1, f, end)
            } else {
                edge_attrs_d(toks, j + 2, f, end)
            }
        } else {
            edge_attrs_d(toks, j, f, end)
        }
    }
}

/// Reading one edge line from `i`.
pub open spec fn single_edge_d(toks: Seq<TokView>, i: nat, f: Seq<char>, end: (nat, nat)) -> Seq<DiagView> {
    if ttype_at(toks, i) != TokenType::Identifier {
        ident_d(toks, i, "edge from"@, f, end)
    } else if ttype_at(toks, i + 1) != TokenType::Arrow {
        expect_d(toks, i + 1, TokenType::Arrow, f, end)
    } else if ttype_at(toks, i + 2) != TokenType::Identifier {
        ident_d(toks, i + 2, "->"@, f, end)
    } else {
        let (a, e, ok) = edge_attrs_s(toks, i + 3, no_attrs());
        edge_attrs_d(toks, i + 3, f, end) + if ok {
            expect_d(toks, e, TokenType::Newline, f, end)
        } else {
            Seq::empty()
        }
    }
}

/// Reading the lines of an `edges` block from `i`.
pub open spec fn edges_body_d(toks: Seq<TokView>, i: nat, f: Seq<char>, end: (nat, nat)) -> Seq<DiagView>
    decreases toks.len() - i,
{
    let ty = ttype_at(toks, i);
    if i >= toks.len() || ty == TokenType::Outdent || ty == TokenType::Eof {
        Seq::empty()
    } else if ty == TokenType::Newline {
        edges_body_d(toks, i + 1, f, end)
    } else {
        let (es, e, ok) = single_edge_s(toks, i);
        proof {
            lemma_single_edge_advances(toks, i);
            lemma_sync_end_ge(toks, e);
        }
        single_edge_d(toks, i, f, end) + edges_body_d(
            toks,
            if ok {
                e
            } else {
                sync_end(toks, e)
            },
            f,
            end,
        )
    }
}

/// Expecting a newline at `i1` and an indent after it, reading a block body
/// with `body`, then expecting an outdent at `body_end`.
pub open spec fn block_after_d(
    toks: Seq<TokView>,
    i1: nat,
    body: Seq<DiagView>,
    body_end: nat,
    f: Seq<char>,
    end: (nat, nat),
) -> Seq<DiagView> {
    if ttype_at(toks, i1) != TokenType::Newline {
        expect_d(toks, i1, TokenType::Newline, f, end)
    } else if ttype_at(toks, i1 + 1) != TokenType::Indent {
        expect_d(toks, i1 + 1, TokenType::Indent, f, end)
    } else {
        body + expect_d(toks, body_end, TokenType::Outdent, f, end)
    }
}

/// The same after the keyword at `i`.
pub open spec fn block_d(
    toks: Seq<TokView>,
    i: nat,
    body: Seq<DiagView>,
    body_end: nat,
    f: Seq<char>,
    end: (nat, nat),
) -> Seq<DiagView> {
    block_after_d(toks, step(toks, i), body, body_end, f, end)
}

/// Reading an `edges` block whose keyword is at `i`.
pub open spec fn edges_block_d(toks: Seq<TokView>, i: nat, f: Seq<char>, end: (nat, nat)) -> Seq<DiagView> {
    let i1 = step(toks, i);
    block_d(toks, i, edges_body_d(toks, i1 + 2, f, end), edges_body_s(toks, i1 + 2).1, f, end)
}

/// Reading a block of a step's fields from `i`, starting from `n`.
pub open spec fn node_fields_d(toks: Seq<TokView>, ls: Seq<Seq<char>>, i: nat, n: NodeView, f: Seq<char>, end: (nat, nat)) -> Seq<DiagView>
    decreases toks.len() - i,
{
    let ty = ttype_at(toks, i);
    if i >= toks.len() || ty == TokenType::Outdent || ty == TokenType::Eof {
        Seq::empty()
    } else if ty == TokenType::Identifier {
        let k = i + 1;
        proof {
            lemma_field_end(toks, i);
            lemma_sync_end_ge(toks, step(toks, k));
        }
        if ttype_at(toks, k) != TokenType::Colon {
            expect_d(toks, k, TokenType::Colon, f, end) + node_fields_d(toks, ls, sync_end(toks, step(toks, k)), n, f, end)
        } else {
            let key = tvalue_at(toks, i);
            let val = field_value_s(toks, ls, k + 1, tline_at(toks, i));
            node_field_d(n, key, val, f, tpos(toks, i, end)) + node_fields_d(
                toks,
                ls,
                field_value_end(toks, k + 1),
                apply_node_s(n, key, val),
                f,
                end,
            )
        }
    } else {
        node_fields_d(toks, ls, i + 1, n, f, end)
    }
}

/// Reading a block of defaults from `i`.
pub open spec fn defaults_fields_d(toks: Seq<TokView>, ls: Seq<Seq<char>>, i: nat, f: Seq<char>, end: (nat, nat)) -> Seq<DiagView>
    decreases toks.len() - i,
{
    let ty = ttype_at(toks, i);
    if i >= toks.len() || ty == TokenType::Outdent || ty == TokenType::Eof {
        Seq::empty()
    } else if ty == TokenType::Identifier {
        let k = i + 1;
        proof {
            lemma_field_end(toks, i);
            lemma_sync_end_ge(toks, step(toks, k));
        }
        if ttype_at(toks, k) != TokenType::Colon {
            expect_d(toks, k, TokenType::Colon, f, end) + defaults_fields_d(toks, ls, sync_end(toks, step(toks, k)), f, end)
        } else {
            let val = field_value_s(toks, ls, k + 1, tline_at(toks, i));
            default_field_d(tvalue_at(toks, i), val, f, tpos(toks, i, end)) + defaults_fields_d(
                toks,
                ls,
                field_value_end(toks, k + 1),
                f,
                end,
            )
        }
    } else {
        defaults_fields_d(toks, ls, i + 1, f, end)
    }
}

/// Reading a block of branch fields from `i`.
pub open spec fn branch_fields_d(toks: Seq<TokView>, ls: Seq<Seq<char>>, i: nat, f: Seq<char>, end: (nat, nat)) -> Seq<DiagView>
    decreases toks.len() - i,
{
    let ty = ttype_at(toks, i);
    if i >= toks.len() || ty == TokenType::Outdent || ty == TokenType::Eof {
        Seq::empty()
    } else if ty == TokenType::Identifier {
        let k = i + 1;
        proof {
            lemma_field_end(toks, i);
            lemma_sync_end_ge(toks, step(toks, k));
        }
        if ttype_at(toks, k) != TokenType::Colon {
            expect_d(toks, k, TokenType::Colon, f, end) + branch_fields_d(toks, ls, sync_end(toks, step(toks, k)), f, end)
        } else {
            let key = tvalue_at(toks, i);
            let kd = if key == "model"@ || key == "provider"@ || key == "fidelity"@ {
                Seq::empty()
            } else {
                unknown_d("branch"@, key, f, tpos(toks, i, end))
            };
            kd + branch_fields_d(toks, ls, field_value_end(toks, k + 1), f, end)
        }
    } else {
        branch_fields_d(toks, ls, i + 1, f, end)
    }
}

/// Reading `branch: target` at `i` with its optional block of fields.
pub open spec fn one_branch_d(toks: Seq<TokView>, ls: Seq<Seq<char>>, i: nat, f: Seq<char>, end: (nat, nat)) -> Seq<DiagView> {
    let k = step(toks, i);
    if ttype_at(toks, k) != TokenType::Colon {
        expect_d(toks, k, TokenType::Colon, f, end)
    } else {
        let q = step(toks, k + 1);
        let q2 = line_stop(toks, q);
        let q3 = if ttype_at(toks, q2) == TokenType::Newline {
            q2 + 1
        } else {
            q2
        };
        if ttype_at(toks, q3) != TokenType::Indent {
            Seq::empty()
        } else {
            branch_fields_d(toks, ls, q3 + 1, f, end) + expect_d(toks, fields_end(toks, q3 + 1), TokenType::Outdent, f, end)
        }
    }
}

/// Reading the `branch` entries of a parallel block from `i`.
pub open spec fn branches_d(toks: Seq<TokView>, ls: Seq<Seq<char>>, i: nat, f: Seq<char>, end: (nat, nat)) -> Seq<DiagView>
    decreases toks.len() - i,
{
    let ty = ttype_at(toks, i);
    if i >= toks.len() || ty == TokenType::Outdent || ty == TokenType::Eof {
        Seq::empty()
    } else if ty == TokenType::Identifier && tvalue_at(toks, i) == "branch"@ {
        let (e, ok) = one_branch_end(toks, i);
        proof {
            lemma_one_branch_end(toks, i);
            lemma_sync_end_ge(toks, e);
        }
        one_branch_d(toks, ls, i, f, end) + branches_d(
            toks,
            ls,
            if ok {
                e
            } else {
                sync_end(toks, e)
            },
            f,
            end,
        )
    } else {
        branches_d(toks, ls, i + 1, f, end)
    }
}

} // verus!

verus! {

/// Reading `parallel Id ...` whose keyword is at `i`.
pub open spec fn parallel_d(toks: Seq<TokView>, ls: Seq<Seq<char>>, i: nat, f: Seq<char>, end: (nat, nat)) -> Seq<DiagView> {
    let k = step(toks, i);
    if ttype_at(toks, k) != TokenType::Identifier {
        ident_d(toks, k, "parallel"@, f, end)
    } else if ttype_at(toks, k + 1) == TokenType::Arrow {
        expect_d(toks, comma_list_end(toks, k + 2), TokenType::Newline, f, end)
    } else {
        block_after_d(toks, k + 1, branches_d(toks, ls, k + 3, f, end), branches_end(toks, k + 3), f, end)
    }
}

/// Reading `fan_in Id <- ...` whose keyword is at `i`.
pub open spec fn fan_in_d(toks: Seq<TokView>, i: nat, f: Seq<char>, end: (nat, nat)) -> Seq<DiagView> {
    let k = step(toks, i);
    if ttype_at(toks, k) != TokenType::Identifier {
        ident_d(toks, k, "fan_in"@, f, end)
    } else if ttype_at(toks, k + 1) != TokenType::BackArrow {
        expect_d(toks, k + 1, TokenType::BackArrow, f, end)
    } else {
        expect_d(toks, comma_list_end(toks, k + 2), TokenType::Newline, f, end)
    }
}

/// Reading a step of `kind` whose keyword is at `i`.
pub open spec fn node_d(toks: Seq<TokView>, ls: Seq<Seq<char>>, i: nat, kind: NodeKind, f: Seq<char>, end: (nat, nat)) -> Seq<DiagView> {
    let k = step(toks, i);
    if ttype_at(toks, k) != TokenType::Identifier {
        ident_d(toks, k, tvalue_at(toks, i), f, end)
    } else {
        let n = new_node_view(
            tvalue_at(toks, k),
            kind,
            default_config_view(kind),
            tline_at(toks, k + 1),
            tcol_at(toks, k + 1),
        );
        block_after_d(toks, k + 1, node_fields_d(toks, ls, k + 3, n, f, end), fields_end(toks, k + 3), f, end)
    }
}

/// Reading the statement of a workflow's body at `i`.
pub open spec fn dispatch_d(toks: Seq<TokView>, ls: Seq<Seq<char>>, i: nat, f: Seq<char>, end: (nat, nat)) -> Seq<DiagView> {
    let w = tvalue_at(toks, i);
    if w == "goal"@ || w == "start"@ || w == "exit"@ || w == "version"@ {
        expect_d(toks, step(toks, i), TokenType::Colon, f, end)
    } else if w == "defaults"@ {
        let i1 = step(toks, i);
        block_d(toks, i, defaults_fields_d(toks, ls, i1 + 2, f, end), fields_end(toks, i1 + 2), f, end)
    } else if w == "edges"@ {
        edges_block_d(toks, i, f, end)
    } else if w == "stylesheet"@ {
        expect_d(toks, step(toks, i), TokenType::Colon, f, end)
    } else if w == "parallel"@ {
        parallel_d(toks, ls, i, f, end)
    } else if w == "fan_in"@ {
        fan_in_d(toks, i, f, end)
    } else {
        match kind_of_name(w) {
            Some(kind) => node_d(toks, ls, i, kind, f, end),
            None => seq![
                diag_at(KindView::Other, "unexpected top-level identifier: "@ + w, f, tpos(toks, i, end)),
            ],
        }
    }
}

/// Reading a workflow's body from `i`, starting from `v`.
pub open spec fn body_d(toks: Seq<TokView>, ls: Seq<Seq<char>>, i: nat, v: WfView, f: Seq<char>, end: (nat, nat)) -> Seq<DiagView>
    decreases toks.len() - i,
{
    let ty = ttype_at(toks, i);
    if i >= toks.len() || ty == TokenType::Outdent || ty == TokenType::Eof {
        Seq::empty()
    } else if ty == TokenType::Identifier {
        let (v2, e, ok) = dispatch_s(toks, ls, i, v);
        proof {
            lemma_dispatch_end(toks, ls, i, v);
            lemma_sync_end_ge(toks, e);
        }
        dispatch_d(toks, ls, i, f, end) + body_d(
            toks,
            ls,
            if ok {
                e
            } else {
                sync_end(toks, e)
            },
            v2,
            f,
            end,
        )
    } else {
        body_d(toks, ls, i + 1, v, f, end)
    }
}

/// Reading `workflow Name` and its block, whose keyword is at `i`; a
/// declaration after one that named the workflow is a duplicate.
pub open spec fn workflow_d(toks: Seq<TokView>, ls: Seq<Seq<char>>, i: nat, v: WfView, f: Seq<char>, end: (nat, nat)) -> Seq<DiagView> {
    let dup = if v.name.len() > 0 {
        seq![
            diag_at(KindView::DuplicateWorkflow, "duplicate workflow declaration"@, f, tpos(toks, i, end)),
        ]
    } else {
        Seq::empty()
    };
    let k = step(toks, i);
    dup + if ttype_at(toks, k) != TokenType::Identifier {
        ident_d(toks, k, "workflow"@, f, end)
    } else {
        let v1 = with_name(v, tvalue_at(toks, k));
        block_after_d(toks, k + 1, body_d(toks, ls, k + 3, v1, f, end), body_s(toks, ls, k + 3, v1).1, f, end)
    }
}

/// Reading the whole token stream from `i`, starting from `v`.
pub open spec fn top_d(toks: Seq<TokView>, ls: Seq<Seq<char>>, i: nat, v: WfView, f: Seq<char>, end: (nat, nat)) -> Seq<DiagView>
    decreases toks.len() - i,
{
    if i >= toks.len() || ttype_at(toks, i) == TokenType::Eof {
        Seq::empty()
    } else if ttype_at(toks, i) == TokenType::Identifier && tvalue_at(toks, i) == "workflow"@ {
        let (v2, e, ok) = workflow_s(toks, ls, i, v);
        proof {
            lemma_workflow_end(toks, ls, i, v);
            lemma_sync_end_ge(toks, e);
        }
        workflow_d(toks, ls, i, v, f, end) + top_d(
            toks,
            ls,
            if ok {
                e
            } else {
                sync_end(toks, e)
            },
            v2,
            f,
            end,
        )
    } else {
        top_d(toks, ls, i + 1, v, f, end)
    }
}

} // verus!
