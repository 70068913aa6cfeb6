//! The conversion and error types shared with the Graphviz front ends, and
//! the Dippin-to-DOT entry point they call.
use vstd::prelude::*;
use crate::error::{Diagnostic, Error, all_errors, rendered, dview};
use crate::lexer::diags_in;
use crate::text::{chars_of, string_of, string_chars, push_chars, push_lit, push_decimal, decimal};
use crate::export_dot::export_s;
use crate::{default_options, parse_success, parse_to_dot_with_map};

verus! {

/// A Graphviz layout engine.
#[derive(Debug, Clone, Copy, PartialEq, Eq, Structural)]
pub enum LayoutEngine {
    Dot,
    Neato,
    Fdp,
    Circo,
    Twopi,
    Sfdp,
}

/// The name Graphviz knows each engine by.
pub open spec fn engine_text(e: LayoutEngine) -> Seq<char> {
    match e {
        LayoutEngine::Dot => "dot"@,
        LayoutEngine::Neato => "neato"@,
        LayoutEngine::Fdp => "fdp"@,
        LayoutEngine::Circo => "circo"@,
        LayoutEngine::Twopi => "twopi"@,
        LayoutEngine::Sfdp => "sfdp"@,
    }
}

/// The Graphviz name of a layout engine.
pub fn engine_name(engine: &LayoutEngine) -> (r: &'static str)
    ensures
        r@ == engine_text(*engine),
{
    match engine {
        LayoutEngine::Dot => "dot",
        LayoutEngine::Neato => "neato",
        LayoutEngine::Fdp => "fdp",
        LayoutEngine::Circo => "circo",
        LayoutEngine::Twopi => "twopi",
        LayoutEngine::Sfdp => "sfdp",
    }
}

/// What can go wrong when reading, laying out or rendering a graph.
#[derive(Debug)]
pub enum DotError {
    SyntaxError { message: String, line: u32, column: u32 },
    LayoutError { message: String },
    RenderError { message: String },
}

/// How each error reads.
pub open spec fn dot_error_text(e: DotError) -> Seq<char> {
    match e {
        DotError::SyntaxError { message, line, column } => "Syntax error at "@ + decimal(line as nat)
            + ":"@ + decimal(column as nat) + ": "@ + message@,
        DotError::LayoutError { message } => "Layout error: "@ + message@,
        DotError::RenderError { message } => "Render error: "@ + message@,
    }
}

impl DotError {
    /// The error as text, such as `Syntax error at 3:7: ...`.
    pub fn to_string(&self) -> (r: String)
        ensures
            r@ == dot_error_text(*self),
    {
        let mut out: Vec<char> = Vec::new();
        match self {
            DotError::SyntaxError { message, line, column } => {
                push_lit(&mut out, "Syntax error at ");
                push_decimal(&mut out, *line as u128);
                push_lit(&mut out, ":");
                push_decimal(&mut out, *column as u128);
                push_lit(&mut out, ": ");
                let m = string_chars(message);
                push_chars(&mut out, &m);
            },
            DotError::LayoutError { message } => {
                push_lit(&mut out, "Layout error: ");
                let m = string_chars(message);
                push_chars(&mut out, &m);
            },
            DotError::RenderError { message } => {
                push_lit(&mut out, "Render error: ");
                let m = string_chars(message);
                push_chars(&mut out, &m);
            },
        }
        string_of(&out)
    }
}

/// Links a stretch of the DOT text to a stretch of the Dippin source, by
/// byte offsets.
#[derive(Debug, Clone, Copy)]
pub struct SourceMapEntry {
    pub dot_start: u32,
    pub dot_end: u32,
    pub dip_start: u32,
    pub dip_end: u32,
}

/// The DOT text of a Dippin source and its source map.
#[derive(Debug)]
pub struct DippinConversionResult {
    pub dot_source: String,
    pub source_map: Vec<SourceMapEntry>,
}

/// How the first diagnostic of a failed conversion reads: `file:line:column:
/// message`.
pub open spec fn diag_view_msg(d: (crate::error::KindView, Seq<char>, Seq<char>, nat, nat)) -> Seq<char> {
    d.2 + ":"@ + decimal(d.3) + ":"@ + decimal(d.4) + ": "@ + d.1
}

/// Converts Dippin source (named `input.dip`) to DOT with its source map;
/// a failure is a syntax error that carries the first diagnostic and its
/// position.
pub fn parse_dippin(source: String) -> (r: Result<DippinConversionResult, DotError>)
    ensures
        r matches Ok(c) ==> c.source_map@.len() == 0 && exists|w: crate::ir::Workflow, o: crate::export_dot::ExportOptions|
            default_options(o) && parse_success(w) && crate::read_from(source@, "input.dip"@, w)
                && c.dot_source@ == #[trigger] export_s(w, o),
        (r is Ok) == (vstd::utf8::encode_utf8(source@).len() <= crate::MAX_INPUT_SIZE && crate::parse_ok_s(
            source@,
            "input.dip"@,
        )),
        r is Err ==> (r matches Err(DotError::SyntaxError { message, line, column }) && {
            let d = crate::parse_error_diags(source@, "input.dip"@)[0];
            &&& message@ == diag_view_msg(d)
            &&& line == d.3 as u32
            &&& column == d.4 as u32
        }),
{
    match parse_to_dot_with_map(source.as_str(), "input.dip") {
        Ok(conv) => {
            let mut source_map: Vec<SourceMapEntry> = Vec::new();
            let mut i: usize = 0;
            while i < conv.source_map.len()
                invariant
                    i <= conv.source_map@.len(),
                    source_map@.len() == i,
                decreases conv.source_map@.len() - i,
            {
                let e = &conv.source_map[i];
                source_map.push(
                    SourceMapEntry {
                        dot_start: e.dot_range.start as u32,
                        dot_end: e.dot_range.end as u32,
                        dip_start: e.dip_range.start as u32,
                        dip_end: e.dip_range.end as u32,
                    },
                );
                i += 1;
            }
            Ok(DippinConversionResult { dot_source: conv.dot_source, source_map })
        },
        Err(e) => {
            let ds = e.diagnostics();
            proof {
                reveal_strlit("input.dip");
            }
            let d = &ds[0];
            let mut m = string_chars(&d.location.file);
            push_lit(&mut m, ":");
            push_decimal(&mut m, d.location.line as u128);
            push_lit(&mut m, ":");
            push_decimal(&mut m, d.location.column as u128);
            push_lit(&mut m, ": ");
            let msg = string_chars(&d.message);
            push_chars(&mut m, &msg);
            assert(m@ == diag_view_msg(dview(*d)));
            Err(
                DotError::SyntaxError {
                    message: string_of(&m),
                    line: d.location.line as u32,
                    column: d.location.column as u32,
                },
            )
        },
    }
}

} // verus!
