//! A parser for the Dippin workflow language and an exporter of its
//! workflows to Graphviz DOT.
use vstd::prelude::*;

pub mod text;
pub mod duration;
pub mod ir;
pub mod error;
pub mod lexer;
pub mod export_dot;
pub mod parser;
pub mod reading;
pub mod diagnosing;
pub mod validate;
pub mod render;
pub mod dot_core;
pub mod plain;

pub use duration::Duration;
pub use error::{Diagnostic, DiagnosticKind, Error, Severity};
pub use export_dot::{ExportOptions, RankDir, DippinConversion, SourceMapEntry, export_dot, export_dot_with_map};
pub use ir::{
    AgentConfig, BranchConfig, Condition, Edge, FanInConfig, HumanConfig, Node, NodeConfig,
    NodeIO, NodeKind, ParallelConfig, RetryConfig, SourceLocation, StyleSelector, StylesheetRule,
    SubgraphConfig, ToolConfig, Workflow, WorkflowDefaults,
};
pub use parser::Parser;
use vstd::utf8::encode_utf8;
use crate::error::{KindView, dviews, all_errors};
use crate::lexer::diags_in;
use crate::ir::located_in;
use crate::validate::refs_resolved;
use crate::export_dot::export_s;
use crate::lexer::{finished_toks, lex_run, source_lines};
use crate::reading::{wf_view, top_s, empty_view, resolved_v, validate_v, top_lines};
use crate::parser::empty_workflow_d;
use crate::diagnosing::top_d;

verus! {

/// The largest source, in bytes, that `parse` accepts.
pub const MAX_INPUT_SIZE: usize = 10485760;

/// A text has at least as many UTF-8 bytes as characters.
pub proof fn lemma_chars_le_bytes(s: Seq<char>)
    ensures
        s.len() <= encode_utf8(s).len(),
    decreases s.len(),
{
    if s.len() > 0 {
        lemma_chars_le_bytes(s.drop_first());
    }
}

/// The message for a source over the size limit.
pub open spec fn oversize_msg() -> Seq<char> {
    "input exceeds maximum size of "@ + crate::text::decimal(MAX_INPUT_SIZE as nat) + " bytes"@
}

/// What a failed parse of a file named `filename` carries: at least one
/// diagnostic, each an error located in that file.
pub open spec fn parse_failure(e: Error, filename: Seq<char>) -> bool {
    match e {
        Error::Parse { file, diagnostics } => file@ == filename && diagnostics@.len() > 0
            && all_errors(diagnostics@) && diags_in(diagnostics@, filename),
    }
}

/// What a successful parse gives: a declared workflow whose references all
/// name declared steps.
pub open spec fn parse_success(w: Workflow) -> bool {
    refs_resolved(w) && (w.name@.len() > 0 || w.nodes@.len() > 0)
}

/// What a workflow parsed from `source` (as file `filename`) holds: its
/// name, version, goal, start, exit, defaults, stylesheet, steps and edges
/// are those read from the source's tokens.
pub open spec fn read_from(source: Seq<char>, filename: Seq<char>, w: Workflow) -> bool {
    wf_view(w) == top_s(finished_toks(lex_run(source, filename)), source_lines(source), 0, empty_view())
}

/// Whether reading `source` as file `filename` succeeds: the lexer and the
/// parser record no diagnostic, a workflow is declared (it has a name or a
/// step), and every reference names a declared step.
pub open spec fn parse_ok_s(source: Seq<char>, filename: Seq<char>) -> bool {
    let st = lex_run(source, filename);
    let toks = finished_toks(st);
    let ls = source_lines(source);
    let v = top_s(toks, ls, 0, empty_view());
    &&& st.diags.len() == 0
    &&& top_d(toks, ls, 0, empty_view(), filename, (st.line, 1)).len() == 0
    &&& (v.name.len() > 0 || v.steps.len() > 0)
    &&& resolved_v(v)
}

/// What reading `source` as file `filename` reports, in order: the
/// parser's diagnostics, `EmptyWorkflow` when no workflow is declared, the
/// lexer's diagnostics, and one `UndefinedNodeReference` per reference to an
/// undeclared step.
pub open spec fn parse_diags_s(source: Seq<char>, filename: Seq<char>) -> Seq<(KindView, Seq<char>, Seq<char>, nat, nat)> {
    let st = lex_run(source, filename);
    let toks = finished_toks(st);
    let ls = source_lines(source);
    let v = top_s(toks, ls, 0, empty_view());
    top_d(toks, ls, 0, empty_view(), filename, (st.line, 1)) + empty_workflow_d(v, filename) + st.diags
        + validate_v(v, filename, top_lines(toks, ls, 0, empty_view(), (1, 1, 1)))
}

/// What a failed parse of `source` as file `filename` reports: the size
/// error for a source over the limit, otherwise the diagnostics of reading
/// it.
pub open spec fn parse_error_diags(source: Seq<char>, filename: Seq<char>) -> Seq<(KindView, Seq<char>, Seq<char>, nat, nat)> {
    if encode_utf8(source).len() > MAX_INPUT_SIZE {
        seq![(KindView::Other, oversize_msg(), filename, 1nat, 1nat)]
    } else {
        parse_diags_s(source, filename)
    }
}

/// Export options left at their defaults.
pub open spec fn default_options(o: ExportOptions) -> bool {
    !o.include_prompts && o.rank_dir == RankDir::TopBottom && !o.highlight_goal_gates
        && o.execution_path@.len() == 0
}

/// Parses Dippin source into a workflow. A source of more than
/// `MAX_INPUT_SIZE` bytes is refused with a single diagnostic.
pub fn parse(source: &str, filename: &str) -> (r: Result<Workflow, Error>)
    ensures
        encode_utf8(source@).len() > MAX_INPUT_SIZE ==> (r matches Err(Error::Parse { file, diagnostics })
            && file@ == filename@ && dviews(diagnostics@) == seq![
            (KindView::Other, oversize_msg(), filename@, 1nat, 1nat),
        ]),
        r matches Ok(w) ==> parse_success(w) && read_from(source@, filename@, w),
        r matches Ok(w) ==> located_in(w, filename@),
        r matches Err(e) ==> parse_failure(e, filename@),
        (r is Ok) == (encode_utf8(source@).len() <= MAX_INPUT_SIZE && parse_ok_s(source@, filename@)),
        r matches Err(Error::Parse { file, diagnostics }) ==> dviews(diagnostics@) == parse_error_diags(
            source@,
            filename@,
        ),
{
    let bytes = source.as_bytes();
    if bytes.len() > MAX_INPUT_SIZE {
        let f = crate::text::chars_of(filename);
        let mut msg: Vec<char> = Vec::new();
        crate::text::push_lit(&mut msg, "input exceeds maximum size of ");
        crate::text::push_decimal(&mut msg, MAX_INPUT_SIZE as u128);
        crate::text::push_lit(&mut msg, " bytes");
        let d = crate::error::diag(DiagnosticKind::Other, &msg, &f, 1, 1);
        let mut diagnostics: Vec<Diagnostic> = Vec::new();
        diagnostics.push(d);
        assert(dviews(diagnostics@) =~= seq![(KindView::Other, oversize_msg(), filename@, 1nat, 1nat)]);
        return Err(Error::Parse { file: crate::text::string_of(&f), diagnostics });
    }
    proof {
        lemma_chars_le_bytes(source@);
    }
    let p = Parser::new(source, filename);
    p.parse()
}

/// The DOT text of a source is determined by the source: two workflows
/// read from the same source, exported with the default options, give the
/// same text. So `parse_to_dot` and `parse_to_dot_with_map` agree on every
/// source they accept.
pub proof fn lemma_dot_determined_by_source(
    source: Seq<char>,
    filename: Seq<char>,
    w1: Workflow,
    w2: Workflow,
    o1: ExportOptions,
    o2: ExportOptions,
)
    requires
        read_from(source, filename, w1),
        read_from(source, filename, w2),
        default_options(o1),
        default_options(o2),
    ensures
        export_s(w1, o1) == export_s(w2, o2),
{
    assert(crate::export_dot::strs(o1.execution_path@) =~= crate::export_dot::strs(o2.execution_path@));
    crate::reading::lemma_export_view(w1, w2, o1, o2);
}

/// Parses Dippin source and renders it as DOT with `opts`.
pub fn parse_to_dot_with_options(source: &str, filename: &str, opts: &ExportOptions) -> (r: Result<String, Error>)
    ensures
        (r is Ok) == (encode_utf8(source@).len() <= MAX_INPUT_SIZE && parse_ok_s(source@, filename@)),
        r matches Ok(d) ==> exists|w: Workflow|
            parse_success(w) && read_from(source@, filename@, w) && d@ == #[trigger] export_s(w, *opts),
        r matches Err(e) ==> parse_failure(e, filename@),
        r matches Err(Error::Parse { file, diagnostics }) ==> dviews(diagnostics@) == parse_error_diags(
            source@,
            filename@,
        ),
{
    match parse(source, filename) {
        Ok(wf) => {
            let d = wf.to_dot(opts);
            assert(parse_success(wf) && read_from(source@, filename@, wf) && d@ == export_s(wf, *opts));
            Ok(d)
        },
        Err(e) => Err(e),
    }
}

/// Parses Dippin source and renders it as DOT with the default options.
pub fn parse_to_dot(source: &str, filename: &str) -> (r: Result<String, Error>)
    ensures
        (r is Ok) == (encode_utf8(source@).len() <= MAX_INPUT_SIZE && parse_ok_s(source@, filename@)),
        r matches Ok(d) ==> exists|w: Workflow, o: ExportOptions|
            default_options(o) && parse_success(w) && read_from(source@, filename@, w) && d@
                == #[trigger] export_s(w, o),
        r matches Err(e) ==> parse_failure(e, filename@),
        r matches Err(Error::Parse { file, diagnostics }) ==> dviews(diagnostics@) == parse_error_diags(
            source@,
            filename@,
        ),
{
    let opts = ExportOptions::default();
    let r = parse_to_dot_with_options(source, filename, &opts);
    proof {
        if r is Ok {
            let d = r->Ok_0;
            let w = choose|w: Workflow|
                parse_success(w) && read_from(source@, filename@, w) && d@ == #[trigger] export_s(w, opts);
            assert(default_options(opts) && parse_success(w) && read_from(source@, filename@, w) && d@
                == export_s(w, opts));
        }
    }
    r
}

/// Parses Dippin source and renders it as DOT with the default options,
/// together with a source map (which has no entries yet).
pub fn parse_to_dot_with_map(source: &str, filename: &str) -> (r: Result<DippinConversion, Error>)
    ensures
        (r is Ok) == (encode_utf8(source@).len() <= MAX_INPUT_SIZE && parse_ok_s(source@, filename@)),
        r matches Ok(c) ==> c.source_map@.len() == 0 && exists|w: Workflow, o: ExportOptions|
            default_options(o) && parse_success(w) && read_from(source@, filename@, w)
                && c.dot_source@ == #[trigger] export_s(w, o),
        r matches Err(e) ==> parse_failure(e, filename@),
        r matches Err(Error::Parse { file, diagnostics }) ==> dviews(diagnostics@) == parse_error_diags(
            source@,
            filename@,
        ),
{
    match parse(source, filename) {
        Ok(wf) => {
            let opts = ExportOptions::default();
            let c = export_dot_with_map(&wf, &opts, source);
            assert(default_options(opts) && parse_success(wf) && read_from(source@, filename@, wf)
                && c.dot_source@ == export_s(wf, opts));
            Ok(c)
        },
        Err(e) => Err(e),
    }
}

} // verus!
