//! The check that every step a workflow refers to is declared.
use vstd::prelude::*;
use crate::ir::{Workflow, SourceLocation};
use crate::error::{Diagnostic, DiagnosticKind, KindView, dview, dviews, all_errors, diag};
use crate::lexer::diags_in;
use crate::text::{chars_of, string_chars, string_of, push_lit, push_chars, chars_eq};

verus! {

/// Whether a step with id `id` is declared.
pub open spec fn declared(wf: Workflow, id: Seq<char>) -> bool {
    exists|i: int| 0 <= i < wf.nodes@.len() && (#[trigger] wf.nodes@[i]).id@ == id
}

/// A reference is fine when it is empty or names a declared step.
pub open spec fn ref_ok(wf: Workflow, target: Seq<char>) -> bool {
    target.len() == 0 || declared(wf, target)
}

/// Every edge's ends name declared steps.
pub open spec fn edges_resolved(wf: Workflow) -> bool {
    forall|i: int|
        0 <= i < wf.edges@.len() ==> ref_ok(wf, (#[trigger] wf.edges@[i]).from@) && ref_ok(
            wf,
            wf.edges@[i].to@,
        )
}

/// Every reference of the workflow — start, exit, the default restart
/// target and both ends of every edge — is empty or names a declared step.
pub open spec fn refs_resolved(wf: Workflow) -> bool {
    &&& ref_ok(wf, wf.start@)
    &&& ref_ok(wf, wf.exit@)
    &&& ref_ok(wf, wf.defaults.restart_target@)
    &&& edges_resolved(wf)
}

/// `<role> references undefined node `<target>``.
pub open spec fn undefined_msg(role: Seq<char>, target: Seq<char>) -> Seq<char> {
    role + " references undefined node `"@ + target + "`"@
}

/// The diagnostic of one reference, if it names no declared step.
pub open spec fn check_s(wf: Workflow, role: Seq<char>, target: Seq<char>, file: Seq<char>, line: nat) -> Seq<(KindView, Seq<char>, Seq<char>, nat, nat)> {
    if ref_ok(wf, target) {
        Seq::empty()
    } else {
        seq![(KindView::UndefinedNodeReference(target), undefined_msg(role, target), file, line, 1)]
    }
}

/// The diagnostics of the first `n` edges, `from` before `to`, each at its
/// edge's line.
pub open spec fn edge_checks(wf: Workflow, file: Seq<char>, n: nat) -> Seq<(KindView, Seq<char>, Seq<char>, nat, nat)>
    decreases n,
{
    if n == 0 {
        Seq::empty()
    } else {
        let e = wf.edges@[n - 1];
        edge_checks(wf, file, (n - 1) as nat) + check_s(wf, "edge `from`"@, e.from@, file, e.source.line as nat)
            + check_s(wf, "edge `to`"@, e.to@, file, e.source.line as nat)
    }
}

/// What `validate` reports: start and exit (at line 1), then the edges.
pub open spec fn validate_s(wf: Workflow, file: Seq<char>) -> Seq<(KindView, Seq<char>, Seq<char>, nat, nat)> {
    check_s(wf, "workflow.start"@, wf.start@, file, 1) + check_s(wf, "workflow.exit"@, wf.exit@, file, 1)
        + edge_checks(wf, file, wf.edges@.len())
}

/// What the parser reports: start, exit and the default restart target,
/// each at the line that set it, then the edges.
pub open spec fn validate_lines_s(wf: Workflow, file: Seq<char>, start_line: nat, exit_line: nat, restart_line: nat) -> Seq<(KindView, Seq<char>, Seq<char>, nat, nat)> {
    check_s(wf, "workflow.start"@, wf.start@, file, start_line) + check_s(
        wf,
        "workflow.exit"@,
        wf.exit@,
        file,
        exit_line,
    ) + check_s(wf, "defaults.restart_target"@, wf.defaults.restart_target@, file, restart_line)
        + edge_checks(wf, file, wf.edges@.len())
}

pub proof fn lemma_edge_checks_empty(wf: Workflow, file: Seq<char>, n: nat)
    requires
        n <= wf.edges@.len(),
    ensures
        edge_checks(wf, file, n).len() == 0 <==> forall|i: int|
            0 <= i < n ==> ref_ok(wf, (#[trigger] wf.edges@[i]).from@) && ref_ok(wf, wf.edges@[i].to@),
    decreases n,
{
    if n > 0 {
        lemma_edge_checks_empty(wf, file, (n - 1) as nat);
    }
}

/// The reference check reports nothing exactly when every reference of the
/// workflow names a declared step (or is empty), whatever the lines.
pub proof fn lemma_validation_clean_iff_resolved(wf: Workflow, file: Seq<char>, start_line: nat, exit_line: nat, restart_line: nat)
    ensures
        validate_lines_s(wf, file, start_line, exit_line, restart_line).len() == 0 <==> refs_resolved(wf),
{
    lemma_edge_checks_empty(wf, file, wf.edges@.len());
}

/// Whether a step with id `id` is declared.
fn is_declared(wf: &Workflow, id: &[char]) -> (r: bool)
    ensures
        r == declared(*wf, id@),
{
    let mut i: usize = 0;
    while i < wf.nodes.len()
        invariant
            i <= wf.nodes@.len(),
            forall|j: int| 0 <= j < i ==> (#[trigger] wf.nodes@[j]).id@ != id@,
        decreases wf.nodes@.len() - i,
    {
        let n = string_chars(&wf.nodes[i].id);
        if chars_eq(&n, id) {
            return true;
        }
        i += 1;
    }
    false
}

/// Appends the diagnostic of one reference, if it names no declared step.
fn check(out: &mut Vec<Diagnostic>, wf: &Workflow, role: &str, target: &String, file: &[char], line: usize)
    ensures
        dviews(final(out)@) == dviews(old(out)@) + check_s(*wf, role@, target@, file@, line as nat),
        all_errors(old(out)@) ==> all_errors(final(out)@),
        diags_in(old(out)@, file@) ==> diags_in(final(out)@, file@),
{
    let t = string_chars(target);
    if t.len() == 0 || is_declared(wf, &t) {
        assert(dviews(out@) =~= dviews(out@) + check_s(*wf, role@, target@, file@, line as nat));
        return;
    }
    let mut msg = chars_of(role);
    push_lit(&mut msg, " references undefined node `");
    push_chars(&mut msg, &t);
    push_lit(&mut msg, "`");
    let d = diag(DiagnosticKind::UndefinedNodeReference(string_of(&t)), &msg, file, line, 1);
    let ghost before = out@;
    out.push(d);
    assert(dviews(out@) =~= dviews(before) + check_s(*wf, role@, target@, file@, line as nat));
}

fn check_edges(out: &mut Vec<Diagnostic>, wf: &Workflow, file: &[char])
    ensures
        dviews(final(out)@) == dviews(old(out)@) + edge_checks(*wf, file@, wf.edges@.len()),
        all_errors(old(out)@) ==> all_errors(final(out)@),
        diags_in(old(out)@, file@) ==> diags_in(final(out)@, file@),
{
    let ghost start = out@;
    let mut i: usize = 0;
    while i < wf.edges.len()
        invariant
            i <= wf.edges@.len(),
            dviews(out@) == dviews(start) + edge_checks(*wf, file@, i as nat),
            all_errors(start) ==> all_errors(out@),
            diags_in(start, file@) ==> diags_in(out@, file@),
        decreases wf.edges@.len() - i,
    {
        let ghost mid = out@;
        check(out, wf, "edge `from`", &wf.edges[i].from, file, wf.edges[i].source.line);
        check(out, wf, "edge `to`", &wf.edges[i].to, file, wf.edges[i].source.line);
        i += 1;
        assert(dviews(out@) =~= dviews(start) + edge_checks(*wf, file@, i as nat));
    }
}

/// Checks that start, exit and both ends of every edge name declared steps;
/// the diagnostics of start and exit point at line 1.
pub fn validate(wf: &Workflow, file: &str) -> (r: Vec<Diagnostic>)
    ensures
        dviews(r@) == validate_s(*wf, file@),
        all_errors(r@),
{
    let f = chars_of(file);
    let mut out: Vec<Diagnostic> = Vec::new();
    check(&mut out, wf, "workflow.start", &wf.start, &f, 1);
    check(&mut out, wf, "workflow.exit", &wf.exit, &f, 1);
    check_edges(&mut out, wf, &f);
    assert(dviews(out@) =~= validate_s(*wf, file@));
    out
}

/// Checks every reference of the workflow, each start, exit and default
/// restart target diagnostic at the line given for it.
pub fn validate_with_lines(wf: &Workflow, file: &[char], start_line: usize, exit_line: usize, restart_line: usize) -> (r: Vec<Diagnostic>)
    ensures
        dviews(r@) == validate_lines_s(*wf, file@, start_line as nat, exit_line as nat, restart_line as nat),
        all_errors(r@),
        diags_in(r@, file@),
{
    let mut out: Vec<Diagnostic> = Vec::new();
    check(&mut out, wf, "workflow.start", &wf.start, file, start_line);
    check(&mut out, wf, "workflow.exit", &wf.exit, file, exit_line);
    check(&mut out, wf, "defaults.restart_target", &wf.defaults.restart_target, file, restart_line);
    check_edges(&mut out, wf, file);
    assert(dviews(out@) =~= validate_lines_s(*wf, file@, start_line as nat, exit_line as nat, restart_line as nat));
    out
}

} // verus!
