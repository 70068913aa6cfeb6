//! The recursive-descent parser that turns the lexer's tokens into a
//! workflow, and the field-value readers it uses.
use vstd::prelude::*;
use indexmap::IndexMap;
use std::hash::RandomState;
use crate::ir::{located_in, entries, entries_insert, new_string_map, string_map_insert, StyleSelector, StylesheetRule, SourceLocation, Workflow, Node, NodeKind, NodeConfig, AgentConfig, HumanConfig, ToolConfig, SubgraphConfig, ParallelConfig, FanInConfig, BranchConfig, RetryConfig, NodeIO, Edge, Condition, default_node_config, node_kind_from_name};
use crate::error::{Diagnostic, DiagnosticKind, Error, KindView, kview, dview, dviews, all_errors};
use crate::lexer::{Lexer, Token, TokenType, TokView, tview, tviews, toks_in, diags_in};
use crate::duration::Duration;
use crate::text::{debug_quote, debug_text, chars_of, string_of, string_chars, slice_of, find_char, find_s, lemma_find_s, trim, trim_s, trim_start, trim_start_s, split_char, split_s, views, push_chars, push_lit, is_ws, is_whitespace};
use crate::duration::{dval, is_digit, digit_val};
use crate::export_dot::strs;
use crate::diagnosing::{DiagView, tpos, expect_d, ident_d, int_d, bool_d, float_d, duration_d, unknown_d, default_field_d, common_d, config_d, node_field_d, edge_attrs_d, single_edge_d, edges_body_d, edges_block_d, block_d, node_fields_d, defaults_fields_d, branch_fields_d, one_branch_d, branches_d, block_after_d, parallel_d, fan_in_d, node_d, dispatch_d, body_d, workflow_d, top_d};
use crate::reading::{line_stop, lemma_line_stop, field_value_end, field_value_s, lemma_field_value_end, field_end, lemma_field_end, fields_end, lemma_fields_end, comma_rest_end, comma_list_end, lemma_comma_rest_end, one_branch_end, lemma_one_branch_end, branches_end, lemma_branches_end, fields_block_end, lemma_fields_block_end, WfView, wf_view, with_name, with_step, with_edges, with_string_field, tline_at, string_field_s, stylesheet_end, parallel_s, fan_in_s, node_s, dispatch_s, lemma_dispatch_end, RefLines, string_field_lines, defaults_fields_lines, dispatch_lines, body_lines, workflow_lines, top_lines, defaults_view, apply_default_s, new_node_view, default_config_view, lemma_default_config_view, default_retry_view, steps_of, NodeView, BranchView, lemma_fresh_node_view, lemma_plain_node_view, node_fields_s, comma_values, comma_rest_values, apply_branch_s, branch_fields_s, one_branch_s, branches_s, branch_view, node_view, agent_view, human_view, tool_view, apply_common_s, apply_agent_s, apply_human_s, apply_tool_s, apply_config_s, apply_node_s, duration_or_zero, ConfigView, with_defaults, with_stylesheet, defaults_fields_s, defaults_block_s, stylesheet_s, body_s, lemma_body_end, workflow_s, lemma_workflow_end, top_s};

verus! {

/// The text inside a quoted value with `\"` and `\\` unescaped; any other
/// backslash stays as it is.
pub open spec fn unescape_s(s: Seq<char>) -> Seq<char>
    decreases s.len(),
{
    if s.len() == 0 {
        Seq::empty()
    } else if s[0] == '\\' && s.len() > 1 && (s[1] == '"' || s[1] == '\\') {
        seq![s[1]] + unescape_s(s.skip(2))
    } else {
        seq![s[0]] + unescape_s(s.drop_first())
    }
}

/// A value with its surrounding double quotes removed and unescaped; a value
/// that is not quoted stays as it is.
pub open spec fn unquote_s(raw: Seq<char>) -> Seq<char> {
    if raw.len() >= 2 && raw[0] == '"' && raw.last() == '"' {
        unescape_s(raw.subrange(1, raw.len() - 1))
    } else {
        raw
    }
}

fn unquote_chars(raw: &[char]) -> (r: Vec<char>)
    ensures
        r@ == unquote_s(raw@),
{
    let n = raw.len();
    if n < 2 || raw[0] != '"' || raw[n - 1] != '"' {
        return slice_of(raw, 0, n);
    }
    let inner = slice_of(raw, 1, n - 1);
    let mut out: Vec<char> = Vec::new();
    let mut i: usize = 0;
    assert(inner@.skip(0) =~= inner@);
    while i < inner.len()
        invariant
            i <= inner@.len(),
            out@ + unescape_s(inner@.skip(i as int)) == unescape_s(inner@),
        decreases inner@.len() - i,
    {
        let ghost rest = inner@.skip(i as int);
        if inner[i] == '\\' && i + 1 < inner.len() && (inner[i + 1] == '"' || inner[i + 1] == '\\') {
            assert(rest.skip(2) =~= inner@.skip(i + 2));
            out.push(inner[i + 1]);
            i += 2;
        } else {
            assert(rest.drop_first() =~= inner@.skip(i + 1));
            out.push(inner[i]);
            i += 1;
        }
        assert(out@ + unescape_s(inner@.skip(i as int)) =~= unescape_s(inner@));
    }
    assert(inner@.skip(i as int) =~= Seq::<char>::empty());
    assert(out@ =~= unescape_s(inner@));
    out
}

/// Removes the double quotes around a value, unescaping only `\"` and `\\`.
pub fn unquote_raw(raw: &str) -> (r: String)
    ensures
        r@ == unquote_s(raw@),
{
    let v = chars_of(raw);
    let u = unquote_chars(&v);
    string_of(&u)
}

/// The trimmed pieces of a comma-separated list.
pub open spec fn split_comma_s(s: Seq<char>) -> Seq<Seq<char>> {
    split_s(s, ',').map_values(|p: Seq<char>| trim_s(p))
}

fn split_comma_chars(s: &[char]) -> (r: Vec<String>)
    ensures
        r@.map_values(|x: String| x@) == split_comma_s(s@),
{
    let parts = split_char(s, ',');
    let mut r: Vec<String> = Vec::new();
    let mut i: usize = 0;
    while i < parts.len()
        invariant
            i <= parts@.len(),
            views(parts@) == split_s(s@, ','),
            r@.len() == i,
            forall|j: int| 0 <= j < i ==> (#[trigger] r@[j])@ == trim_s(parts@[j]@),
        decreases parts@.len() - i,
    {
        let t = trim(parts[i].as_slice());
        r.push(string_of(&t));
        i += 1;
    }
    assert(r@.map_values(|x: String| x@) =~= split_comma_s(s@)) by {
        assert forall|j: int| 0 <= j < r@.len() implies r@.map_values(|x: String| x@)[j]
            == split_comma_s(s@)[j] by {
            assert(views(parts@)[j] == parts@[j]@);
        }
    }
    r
}

/// Splits a comma-separated list into its trimmed pieces.
pub fn split_comma(s: &str) -> (r: Vec<String>)
    ensures
        r@.map_values(|x: String| x@) == split_comma_s(s@),
{
    let v = chars_of(s);
    split_comma_chars(&v)
}

/// `key: value` split at the first colon, both sides trimmed.
pub open spec fn split_kv_s(line: Seq<char>) -> Option<(Seq<char>, Seq<char>)> {
    match find_s(line, ':') {
        Some(i) => Some((trim_s(line.take(i as int)), trim_s(line.skip(i as int + 1)))),
        None => None,
    }
}

fn split_kv_chars(line: &[char]) -> (r: Option<(Vec<char>, Vec<char>)>)
    ensures
        match split_kv_s(line@) {
            Some((k, v)) => r matches Some((rk, rv)) && rk@ == k && rv@ == v,
            None => r is None,
        },
{
    match find_char(line, ':') {
        Some(i) => {
            let n = line.len();
            let a = slice_of(line, 0, i);
            let b = slice_of(line, i + 1, n);
            assert(a@ =~= line@.take(i as int));
            assert(b@ =~= line@.skip(i as int + 1));
            Some((trim(&a), trim(&b)))
        },
        None => None,
    }
}

/// Splits `key: value` at the first colon.
pub fn split_key_value(line: &str) -> (r: Option<(String, String)>)
    ensures
        match split_kv_s(line@) {
            Some((k, v)) => r matches Some((rk, rv)) && rk@ == k && rv@ == v,
            None => r is None,
        },
{
    let v = chars_of(line);
    match split_kv_chars(&v) {
        Some((a, b)) => Some((string_of(&a), string_of(&b))),
        None => None,
    }
}

/// The entries of a `params` block: each non-blank line `key: value`, the
/// value unquoted, later keys replacing the values of earlier equal ones.
pub open spec fn params_s(lines: Seq<Seq<char>>) -> Seq<(Seq<char>, Seq<char>)>
    decreases lines.len(),
{
    if lines.len() == 0 {
        Seq::empty()
    } else {
        let prev = params_s(lines.drop_last());
        let l = trim_s(lines.last());
        if l.len() == 0 {
            prev
        } else {
            match split_kv_s(l) {
                Some((k, v)) => entries_insert(prev, k, unquote_s(v)),
                None => prev,
            }
        }
    }
}

/// Reads a block of `key: value` lines into an ordered map.
pub fn parse_params_block(raw: &[char]) -> (r: IndexMap<String, String, RandomState>)
    ensures
        entries(r) == params_s(split_s(raw@, '\n')),
{
    let lines = split_char(raw, '\n');
    let ghost ls = split_s(raw@, '\n');
    let mut m = new_string_map();
    let mut i: usize = 0;
    assert(ls.take(0) =~= Seq::<Seq<char>>::empty());
    while i < lines.len()
        invariant
            i <= lines@.len(),
            views(lines@) == ls,
            entries(m) == params_s(ls.take(i as int)),
        decreases lines@.len() - i,
    {
        assert(ls.take(i + 1).drop_last() =~= ls.take(i as int));
        assert(ls[i as int] == lines@[i as int]@);
        let t = trim(lines[i].as_slice());
        if t.len() > 0 {
            match split_kv_chars(&t) {
                Some((k, v)) => {
                    let u = unquote_chars(&v);
                    string_map_insert(&mut m, string_of(&k), string_of(&u));
                },
                None => {},
            }
        }
        i += 1;
    }
    assert(ls.take(i as int) =~= ls);
    m
}

/// A selector as (kind, text): 0 for `*`, 1 for a class, 2 for an id, 3 for
/// a kind of step.
pub open spec fn sel_view(s: StyleSelector) -> (int, Seq<char>) {
    match s {
        StyleSelector::Universal => (0, Seq::empty()),
        StyleSelector::Class(c) => (1, c@),
        StyleSelector::Id(i) => (2, i@),
        StyleSelector::Kind(k) => (3, k@),
    }
}

/// What a selector text selects: `*` everything, `.name` a class, `#name`
/// an id, anything else a kind of step.
pub open spec fn selector_s(s: Seq<char>) -> (int, Seq<char>) {
    if s == seq!['*'] {
        (0, Seq::empty())
    } else if s.len() > 0 && s[0] == '.' {
        (1, s.drop_first())
    } else if s.len() > 0 && s[0] == '#' {
        (2, s.drop_first())
    } else {
        (3, s)
    }
}

fn selector_of(s: &[char]) -> (r: StyleSelector)
    ensures
        sel_view(r) == selector_s(s@),
{
    let n = s.len();
    if n == 1 && s[0] == '*' {
        assert(s@ =~= seq!['*']);
        StyleSelector::Universal
    } else if n > 0 && s[0] == '.' {
        let rest = slice_of(s, 1, n);
        assert(rest@ =~= s@.drop_first());
        StyleSelector::Class(string_of(&rest))
    } else if n > 0 && s[0] == '#' {
        let rest = slice_of(s, 1, n);
        assert(rest@ =~= s@.drop_first());
        StyleSelector::Id(string_of(&rest))
    } else {
        proof {
            if s@ == seq!['*'] {
                assert(s@.len() == 1);
            }
        }
        StyleSelector::Kind(string_of(s))
    }
}

/// Reads a stylesheet selector.
pub fn parse_selector(s: &str) -> (r: StyleSelector)
    ensures
        sel_view(r) == selector_s(s@),
{
    let v = chars_of(s);
    selector_of(&v)
}

/// Whether a line is indented: it starts with whitespace.
pub open spec fn indented(l: Seq<char>) -> bool {
    l.len() > 0 && is_ws(l[0])
}

/// The properties of a rule read from line `j` on, starting from `acc`,
/// and the line where the rule ends: the next non-blank line that is not
/// indented.
pub open spec fn rule_props(lines: Seq<Seq<char>>, j: nat, acc: Seq<(Seq<char>, Seq<char>)>) -> (
    Seq<(Seq<char>, Seq<char>)>,
    nat,
)
    decreases lines.len() - j,
{
    if j >= lines.len() {
        (acc, j)
    } else {
        let l = lines[j as int];
        let t = trim_s(l);
        if t.len() == 0 {
            rule_props(lines, j + 1, acc)
        } else if !indented(l) {
            (acc, j)
        } else {
            match split_kv_s(t) {
                Some((k, v)) => rule_props(lines, j + 1, entries_insert(acc, k, v)),
                None => rule_props(lines, j + 1, acc),
            }
        }
    }
}

pub proof fn lemma_rule_props_end(lines: Seq<Seq<char>>, j: nat, acc: Seq<(Seq<char>, Seq<char>)>)
    ensures
        rule_props(lines, j, acc).1 >= j,
        j <= lines.len() ==> rule_props(lines, j, acc).1 <= lines.len(),
    decreases lines.len() - j,
{
    if j < lines.len() {
        let t = trim_s(lines[j as int]);
        if t.len() == 0 || indented(lines[j as int]) {
            match split_kv_s(t) {
                Some((k, v)) => {
                    lemma_rule_props_end(lines, j + 1, acc);
                    lemma_rule_props_end(lines, j + 1, entries_insert(acc, k, v));
                },
                None => lemma_rule_props_end(lines, j + 1, acc),
            }
        }
    }
}

/// The rules of a stylesheet read from line `i` on: a non-blank line that is
/// not indented is a selector, and the indented `key: value` lines after it
/// are its properties; other lines are skipped.
pub open spec fn rules_from(lines: Seq<Seq<char>>, i: nat) -> Seq<((int, Seq<char>), Seq<(Seq<char>, Seq<char>)>)>
    decreases lines.len() - i,
{
    if i >= lines.len() {
        Seq::empty()
    } else {
        let l = lines[i as int];
        let t = trim_s(l);
        if t.len() == 0 || indented(l) {
            rules_from(lines, i + 1)
        } else {
            let (props, j) = rule_props(lines, i + 1, Seq::empty());
            proof {
                lemma_rule_props_end(lines, i + 1, Seq::empty());
            }
            seq![(selector_s(t), props)] + rules_from(lines, j)
        }
    }
}

/// A rule as (selector, properties).
pub open spec fn rule_view(r: StylesheetRule) -> ((int, Seq<char>), Seq<(Seq<char>, Seq<char>)>) {
    (sel_view(r.selector), entries(r.properties))
}

/// Reads a stylesheet block into its rules.
pub fn parse_stylesheet_raw(raw: &[char]) -> (r: Vec<StylesheetRule>)
    ensures
        r@.map_values(|x: StylesheetRule| rule_view(x)) == rules_from(split_s(raw@, '\n'), 0),
{
    let lines = split_char(raw, '\n');
    let ghost ls = split_s(raw@, '\n');
    let mut rules: Vec<StylesheetRule> = Vec::new();
    let mut i: usize = 0;
    while i < lines.len()
        invariant
            i <= lines@.len(),
            views(lines@) == ls,
            rules@.map_values(|x: StylesheetRule| rule_view(x)) + rules_from(ls, i as nat)
                == rules_from(ls, 0),
        decreases lines@.len() - i,
    {
        assert(ls[i as int] == lines@[i as int]@);
        let trimmed = trim(lines[i].as_slice());
        if trimmed.len() == 0 || (lines[i].len() > 0 && is_whitespace(lines[i][0])) {
            i += 1;
        } else {
            let ghost i0 = i;
            let selector = selector_of(&trimmed);
            let mut properties = new_string_map();
            i += 1;
            let mut done = false;
            while i < lines.len() && !done
                invariant
                    i0 < i <= lines@.len(),
                    views(lines@) == ls,
                    rule_props(ls, i as nat, entries(properties)) == rule_props(
                        ls,
                        (i0 + 1) as nat,
                        Seq::empty(),
                    ),
                    done ==> rule_props(ls, i as nat, entries(properties)) == (
                        entries(properties),
                        i as nat,
                    ),
                decreases lines@.len() - i, if done { 0int } else { 1int },
            {
                assert(ls[i as int] == lines@[i as int]@);
                let line_trimmed = trim(lines[i].as_slice());
                if line_trimmed.len() == 0 {
                    i += 1;
                } else if !(lines[i].len() > 0 && is_whitespace(lines[i][0])) {
                    done = true;
                } else {
                    match split_kv_chars(&line_trimmed) {
                        Some((k, v)) => {
                            string_map_insert(&mut properties, string_of(&k), string_of(&v));
                        },
                        None => {},
                    }
                    i += 1;
                }
            }
            let ghost props = entries(properties);
            rules.push(StylesheetRule { selector, properties });
            assert(rules@.map_values(|x: StylesheetRule| rule_view(x)) + rules_from(ls, i as nat)
                =~= rules_from(ls, 0));
        }
    }
    rules
}

} // verus!

verus! {

/// Whether every character of `s` is an ASCII digit.
pub open spec fn all_digits(s: Seq<char>) -> bool {
    forall|i: int| 0 <= i < s.len() ==> is_digit(#[trigger] s[i])
}

/// The `u32` a text denotes as `str::parse::<u32>` reads it: an optional `+`,
/// then one or more decimal digits, with a value that fits.
pub open spec fn u32_text(s: Seq<char>) -> Option<nat> {
    let d = if s.len() > 0 && s[0] == '+' {
        s.drop_first()
    } else {
        s
    };
    if d.len() > 0 && all_digits(d) && dval(d) <= u32::MAX {
        Some(dval(d))
    } else {
        None
    }
}

/// Reads an unsigned 32-bit decimal number.
pub fn parse_u32_text(s: &[char]) -> (r: Option<u32>)
    ensures
        match u32_text(s@) {
            Some(n) => r == Some(n as u32),
            None => r is None,
        },
{
    let n = s.len();
    let start: usize = if n > 0 && s[0] == '+' {
        1
    } else {
        0
    };
    let d = slice_of(s, start, n);
    assert(d@ =~= (if s@.len() > 0 && s@[0] == '+' {
        s@.drop_first()
    } else {
        s@
    }));
    if d.len() == 0 {
        return None;
    }
    let mut acc: u64 = 0;
    let mut i: usize = 0;
    while i < d.len()
        invariant
            i <= d@.len(),
            d@ == (if s@.len() > 0 && s@[0] == '+' {
                s@.drop_first()
            } else {
                s@
            }),
            all_digits(d@.take(i as int)),
            acc <= u32::MAX,
            acc == dval(d@.take(i as int)),
        decreases d@.len() - i,
    {
        let c = d[i];
        if !('0' <= c && c <= '9') {
            assert(!is_digit(d@[i as int]));
            return None;
        }
        assert(d@.take(i + 1).drop_last() =~= d@.take(i as int));
        assert(d@.take(i + 1).last() == c);
        let next = acc * 10 + (c as u32 - 48) as u64;
        assert(dval(d@.take(i + 1)) == next);
        if next > 4294967295 {
            proof {
                lemma_dval_prefix_le(d@, i + 1);
            }
            return None;
        }
        acc = next;
        i += 1;
    }
    assert(d@.take(i as int) =~= d@);
    Some(acc as u32)
}

/// The value of a digit string is at least that of each of its prefixes.
pub proof fn lemma_dval_prefix_le(s: Seq<char>, k: int)
    requires
        0 <= k <= s.len(),
    ensures
        dval(s.take(k)) <= dval(s),
    decreases s.len() - k,
{
    if k < s.len() {
        lemma_dval_prefix_le(s, k + 1);
        assert(s.take(k + 1).drop_last() =~= s.take(k));
    } else {
        assert(s.take(k) =~= s);
    }
}

/// The position of the first non-digit at or after `p`, or the end.
pub open spec fn digits_end(s: Seq<char>, p: nat) -> nat
    decreases s.len() - p,
{
    if p >= s.len() || !is_digit(s[p as int]) {
        p
    } else {
        digits_end(s, p + 1)
    }
}

/// `s` in lower case, for ASCII letters.
pub open spec fn ascii_lower(s: Seq<char>) -> Seq<char> {
    s.map_values(|c: char| if 'A' <= c && c <= 'Z' { ((c as u8) + 32) as char } else { c })
}

/// Whether `s` is a decimal number with an optional exponent: digits with
/// an optional fraction (at least one digit in all), then optionally `e` or
/// `E`, an optional sign, and one or more digits.
pub open spec fn decimal_number(s: Seq<char>) -> bool {
    let i = digits_end(s, 0);
    let j = if i < s.len() && s[i as int] == '.' {
        digits_end(s, i + 1)
    } else {
        i
    };
    let frac = if i < s.len() && s[i as int] == '.' {
        j - (i + 1)
    } else {
        0
    };
    &&& (i > 0 || frac > 0)
    &&& (j == s.len() || ((s[j as int] == 'e' || s[j as int] == 'E') && {
        let k = if j + 1 < s.len() && (s[(j + 1) as int] == '+' || s[(j + 1) as int] == '-') {
            j + 2
        } else {
            j + 1
        };
        k < s.len() && digits_end(s, k as nat) == s.len()
    }))
}

/// Whether `str::parse::<f64>` accepts `s`: an optional sign, then `inf`,
/// `infinity` or `nan` in any case, or a decimal number.
pub open spec fn float_text(s: Seq<char>) -> bool {
    let b = if s.len() > 0 && (s[0] == '+' || s[0] == '-') {
        s.drop_first()
    } else {
        s
    };
    ascii_lower(b) == "inf"@ || ascii_lower(b) == "infinity"@ || ascii_lower(b) == "nan"@
        || decimal_number(b)
}

fn digits_end_exec(s: &[char], p: usize) -> (r: usize)
    requires
        p <= s@.len(),
    ensures
        r == digits_end(s@, p as nat),
        p <= r <= s@.len(),
{
    let mut i = p;
    while i < s.len() && '0' <= s[i] && s[i] <= '9'
        invariant
            p <= i <= s@.len(),
            digits_end(s@, p as nat) == digits_end(s@, i as nat),
        decreases s@.len() - i,
    {
        i += 1;
    }
    i
}

fn lower_ascii(s: &[char]) -> (r: Vec<char>)
    ensures
        r@ == ascii_lower(s@),
{
    let mut out: Vec<char> = Vec::new();
    let mut i: usize = 0;
    while i < s.len()
        invariant
            i <= s@.len(),
            out@ == ascii_lower(s@.take(i as int)),
        decreases s@.len() - i,
    {
        let c = s[i];
        let l = if 'A' <= c && c <= 'Z' {
            ((c as u8) + 32) as char
        } else {
            c
        };
        out.push(l);
        i += 1;
        assert(out@ =~= ascii_lower(s@.take(i as int)));
    }
    assert(s@.take(i as int) =~= s@);
    out
}

/// Whether `s` is a floating-point literal that `f64` accepts.
pub fn is_float_text(s: &[char]) -> (r: bool)
    ensures
        r == float_text(s@),
{
    let n = s.len();
    let start: usize = if n > 0 && (s[0] == '+' || s[0] == '-') {
        1
    } else {
        0
    };
    let b = slice_of(s, start, n);
    assert(b@ =~= (if s@.len() > 0 && (s@[0] == '+' || s@[0] == '-') {
        s@.drop_first()
    } else {
        s@
    }));
    let l = lower_ascii(&b);
    if crate::text::eq_lit(&l, "inf") || crate::text::eq_lit(&l, "infinity")
        || crate::text::eq_lit(&l, "nan") {
        return true;
    }
    let m = b.len();
    let i = digits_end_exec(&b, 0);
    let has_dot = i < m && b[i] == '.';
    let j = if has_dot {
        digits_end_exec(&b, i + 1)
    } else {
        i
    };
    let frac = if has_dot {
        j - (i + 1)
    } else {
        0
    };
    if !(i > 0 || frac > 0) {
        return false;
    }
    if j == m {
        return true;
    }
    if !(b[j] == 'e' || b[j] == 'E') {
        return false;
    }
    let k = if j + 1 < m && (b[j + 1] == '+' || b[j + 1] == '-') {
        j + 2
    } else {
        j + 1
    };
    k < m && digits_end_exec(&b, k) == m
}

} // verus!

verus! {

/// The name that `{:?}` gives each token type.
pub open spec fn tt_name(t: TokenType) -> Seq<char> {
    match t {
        TokenType::Error => "Error"@,
        TokenType::Eof => "Eof"@,
        TokenType::Newline => "Newline"@,
        TokenType::Indent => "Indent"@,
        TokenType::Outdent => "Outdent"@,
        TokenType::Keyword => "Keyword"@,
        TokenType::Identifier => "Identifier"@,
        TokenType::Operator => "Operator"@,
        TokenType::Literal => "Literal"@,
        TokenType::Colon => "Colon"@,
        TokenType::Comma => "Comma"@,
        TokenType::Arrow => "Arrow"@,
        TokenType::BackArrow => "BackArrow"@,
        TokenType::LParen => "LParen"@,
        TokenType::RParen => "RParen"@,
        TokenType::RawBlock => "RawBlock"@,
    }
}

fn token_type_name(t: TokenType) -> (r: &'static str)
    ensures
        r@ == tt_name(t),
{
    match t {
        TokenType::Error => "Error",
        TokenType::Eof => "Eof",
        TokenType::Newline => "Newline",
        TokenType::Indent => "Indent",
        TokenType::Outdent => "Outdent",
        TokenType::Keyword => "Keyword",
        TokenType::Identifier => "Identifier",
        TokenType::Operator => "Operator",
        TokenType::Literal => "Literal",
        TokenType::Colon => "Colon",
        TokenType::Comma => "Comma",
        TokenType::Arrow => "Arrow",
        TokenType::BackArrow => "BackArrow",
        TokenType::LParen => "LParen",
        TokenType::RParen => "RParen",
        TokenType::RawBlock => "RawBlock",
    }
}

/// The parser: the lexer it reads from, the diagnostics found so far, the
/// workflow being built, and the lines of the references checked at the end.
pub struct Parser {
    lexer: Lexer,
    diagnostics: Vec<Diagnostic>,
    workflow: Workflow,
    filename: String,
    start_line: usize,
    exit_line: usize,
    restart_target_line: usize,
}

/// The token the lexer hands out next.
pub(crate) open spec fn next_tok(lx: Lexer) -> Option<Token> {
    if lx.token_idx < lx.tokens@.len() {
        Some(lx.tokens@[lx.token_idx as int])
    } else {
        None
    }
}

/// The type of token `i`; past the last token, the end of input.
pub open spec fn ttype_at(toks: Seq<TokView>, i: nat) -> TokenType {
    if i < toks.len() {
        toks[i as int].0
    } else {
        TokenType::Eof
    }
}

/// The text of token `i`; past the last token, nothing.
pub open spec fn tvalue_at(toks: Seq<TokView>, i: nat) -> Seq<char> {
    if i < toks.len() {
        toks[i as int].1
    } else {
        Seq::empty()
    }
}

/// The position after reading the token at `i`: reading past the last
/// token does not move.
pub open spec fn step(toks: Seq<TokView>, i: nat) -> nat {
    if i < toks.len() {
        i + 1
    } else {
        i
    }
}

/// The position after skipping to the next newline (or end of input) and
/// past it.
pub open spec fn sync_end(toks: Seq<TokView>, i: nat) -> nat
    decreases toks.len() - i,
{
    if i >= toks.len() {
        i
    } else if toks[i as int].0 == TokenType::Newline || toks[i as int].0
        == TokenType::Eof {
        i + 1
    } else {
        sync_end(toks, i + 1)
    }
}

pub proof fn lemma_sync_end_ge(toks: Seq<TokView>, i: nat)
    ensures
        sync_end(toks, i) >= i,
        i < toks.len() ==> sync_end(toks, i) > i,
        i <= toks.len() ==> sync_end(toks, i) <= toks.len(),
    decreases toks.len() - i,
{
    if i < toks.len() && !(toks[i as int].0 == TokenType::Newline || toks[i as int].0
        == TokenType::Eof) {
        lemma_sync_end_ge(toks, i + 1);
    }
}

impl Parser {
    /// The parser's invariant: the lexer's position is within its tokens,
    /// and every token and diagnostic is an error located in this file.
    pub closed spec fn wf(&self) -> bool {
        &&& self.lexer.token_idx <= self.lexer.tokens@.len()
        &&& self.lexer.tokens@.len() > 0
        &&& self.lexer.tokens@.last().token_type == TokenType::Eof
        &&& self.lexer.filename@ == self.filename@
        &&& toks_in(self.lexer.tokens@, self.filename@)
        &&& all_errors(self.diagnostics@)
        &&& diags_in(self.diagnostics@, self.filename@)
        &&& all_errors(self.lexer.diagnostics@)
        &&& diags_in(self.lexer.diagnostics@, self.filename@)
        &&& located_in(self.workflow, self.filename@)
    }

    /// Only the position in the token stream, the diagnostics and the
    /// workflow change, and the position never moves back.
    pub closed spec fn moved(&self, next: &Parser) -> bool {
        &&& next.lexer.tokens == self.lexer.tokens
        &&& next.lexer.lines == self.lexer.lines
        &&& next.lexer.filename == self.lexer.filename
        &&& next.lexer.diagnostics == self.lexer.diagnostics
        &&& next.lexer.line == self.lexer.line
        &&& next.lexer.col == self.lexer.col
        &&& next.filename == self.filename
        &&& self.lexer.token_idx <= next.lexer.token_idx
    }

    /// The lines of the fields that set `start`, `exit` and the default
    /// restart target.
    pub closed spec fn ref_lines(&self) -> RefLines {
        (self.start_line as nat, self.exit_line as nat, self.restart_target_line as nat)
    }

    /// Where reading past the last token stands: the lexer's last position.
    pub closed spec fn end_pos(&self) -> (nat, nat) {
        (self.lexer.line as nat, self.lexer.col as nat)
    }

    /// Whether tokens remain before the end of input.
    pub closed spec fn has_tokens(&self) -> bool {
        self.lexer.token_idx < self.lexer.tokens@.len()
    }

    /// The position in the token stream.
    pub closed spec fn pos(&self) -> int {
        self.lexer.token_idx as int
    }

    /// The type of the token that comes next.
    pub closed spec fn peek_type(&self) -> TokenType {
        match next_tok(self.lexer) {
            Some(t) => t.token_type,
            None => TokenType::Eof,
        }
    }

    /// The next token, consumed.
    fn next(&mut self) -> (r: Token)
        requires
            old(self).wf(),
        ensures
            final(self).wf(),
            old(self).moved(&*final(self)),
            final(self).workflow == old(self).workflow,
            final(self).diagnostics == old(self).diagnostics,
            final(self).start_line == old(self).start_line,
            final(self).exit_line == old(self).exit_line,
            final(self).restart_target_line == old(self).restart_target_line,
            old(self).has_tokens() ==> final(self).pos() == old(self).pos() + 1,
            final(self).pos() == step(tviews(old(self).lexer.tokens@), old(self).pos() as nat),
            r.token_type == old(self).peek_type(),
            r.token_type == ttype_at(tviews(old(self).lexer.tokens@), old(self).pos() as nat),
            r.value@ == tvalue_at(tviews(old(self).lexer.tokens@), old(self).pos() as nat),
            r.location.file@ == old(self).filename@,
            (r.location.line as nat, r.location.column as nat) == tpos(
                tviews(old(self).lexer.tokens@),
                old(self).pos() as nat,
                old(self).end_pos(),
            ),
            old(self).has_tokens() ==> r == old(self).lexer.tokens@[old(self).lexer.token_idx as int],
    {
        proof {
            crate::lexer::lemma_lexer_fields(self.lexer);
        }
        let r = self.lexer.next_token();
        proof {
            crate::lexer::lemma_lexer_fields(self.lexer);
        }
        r
    }

    /// The next token, not consumed.
    fn peek(&self) -> (r: Token)
        requires
            self.wf(),
        ensures
            r.token_type == self.peek_type(),
            r.token_type == ttype_at(tviews(self.lexer.tokens@), self.pos() as nat),
            r.value@ == tvalue_at(tviews(self.lexer.tokens@), self.pos() as nat),
            r.location.file@ == self.filename@,
            r.token_type != TokenType::Eof ==> self.has_tokens(),
            self.has_tokens() ==> r == self.lexer.tokens@[self.lexer.token_idx as int],
    {
        proof {
            crate::lexer::lemma_lexer_fields(self.lexer);
        }
        self.lexer.peek_token()
    }

    /// Records an error at `loc`.
    fn push_diag(&mut self, kind: DiagnosticKind, msg: &[char], loc: &SourceLocation)
        requires
            old(self).wf(),
            loc.file@ == old(self).filename@,
        ensures
            final(self).wf(),
            old(self).moved(&*final(self)),
            final(self).pos() == old(self).pos(),
            final(self).workflow == old(self).workflow,
            final(self).start_line == old(self).start_line,
            final(self).exit_line == old(self).exit_line,
            final(self).restart_target_line == old(self).restart_target_line,
            final(self).diagnostics@.len() == old(self).diagnostics@.len() + 1,
            final(self).diagnostics@.drop_last() == old(self).diagnostics@,
            dview(final(self).diagnostics@.last()) == (
                kview(kind),
                msg@,
                loc.file@,
                loc.line as nat,
                loc.column as nat,
            ),
    {
        let f = string_chars(&loc.file);
        let d = crate::error::diag(kind, msg, &f, loc.line, loc.column);
        self.diagnostics.push(d);
        assert(self.diagnostics@.drop_last() =~= old(self).diagnostics@);
    }

    /// Consumes the next token, recording an error unless it has type
    /// `expected`.
    fn expect(&mut self, expected: TokenType) -> (r: Result<Token, ()>)
        requires
            old(self).wf(),
        ensures
            final(self).wf(),
            old(self).moved(&*final(self)),
            final(self).workflow == old(self).workflow,
            final(self).start_line == old(self).start_line,
            final(self).exit_line == old(self).exit_line,
            final(self).restart_target_line == old(self).restart_target_line,
            old(self).has_tokens() ==> final(self).pos() == old(self).pos() + 1,
            final(self).pos() == step(tviews(old(self).lexer.tokens@), old(self).pos() as nat),
            (r is Ok) == (old(self).peek_type() == expected),
            (r is Ok) == (ttype_at(tviews(old(self).lexer.tokens@), old(self).pos() as nat) == expected),
            r matches Ok(t) ==> t.token_type == expected && t.location.file@ == old(self).filename@,
            r matches Ok(t) ==> t.value@ == tvalue_at(tviews(old(self).lexer.tokens@), old(self).pos() as nat),
            r is Ok ==> final(self).diagnostics == old(self).diagnostics,
            r is Err ==> final(self).diagnostics@.len() == old(self).diagnostics@.len() + 1
                && kview(final(self).diagnostics@.last().kind) == KindView::UnexpectedToken(
                tt_name(expected),
                tt_name(old(self).peek_type()),
            ),
            dviews(final(self).diagnostics@) == dviews(old(self).diagnostics@) + expect_d(tviews(old(self).lexer.tokens@), old(self).pos() as nat, expected, old(self).filename@, old(self).end_pos()),
    {
        let tok = self.next();
        if tok.token_type != expected {
            let e = token_type_name(expected);
            let f = token_type_name(tok.token_type);
            let mut msg: Vec<char> = Vec::new();
            push_lit(&mut msg, "expected ");
            push_lit(&mut msg, e);
            push_lit(&mut msg, ", got ");
            push_lit(&mut msg, f);
            let kind = DiagnosticKind::UnexpectedToken {
                expected: string_of(&chars_of(e)),
                found: string_of(&chars_of(f)),
            };
            let ghost before = dviews(self.diagnostics@);
            self.push_diag(kind, &msg, &tok.location);
            assert(dviews(self.diagnostics@) =~= before + seq![dview(self.diagnostics@.last())]);
            return Err(());
        }
        Ok(tok)
    }

    /// Consumes the next token, recording an error unless it is an
    /// identifier; `after` names what it should follow.
    fn expect_identifier(&mut self, after: &[char]) -> (r: Result<Token, ()>)
        requires
            old(self).wf(),
        ensures
            final(self).wf(),
            old(self).moved(&*final(self)),
            final(self).workflow == old(self).workflow,
            final(self).start_line == old(self).start_line,
            final(self).exit_line == old(self).exit_line,
            final(self).restart_target_line == old(self).restart_target_line,
            old(self).has_tokens() ==> final(self).pos() == old(self).pos() + 1,
            final(self).pos() == step(tviews(old(self).lexer.tokens@), old(self).pos() as nat),
            (r is Ok) == (old(self).peek_type() == TokenType::Identifier),
            (r is Ok) == (ttype_at(tviews(old(self).lexer.tokens@), old(self).pos() as nat)
                == TokenType::Identifier),
            r matches Ok(t) ==> t.value@ == tvalue_at(tviews(old(self).lexer.tokens@), old(self).pos() as nat),
            r matches Ok(t) ==> t.token_type == TokenType::Identifier && t.location.file@
                == old(self).filename@,
            r is Ok ==> final(self).diagnostics == old(self).diagnostics,
            r is Err ==> final(self).diagnostics@.len() == old(self).diagnostics@.len() + 1
                && kview(final(self).diagnostics@.last().kind) == KindView::MissingIdentifier(
                after@,
            ),
            dviews(final(self).diagnostics@) == dviews(old(self).diagnostics@) + ident_d(tviews(old(self).lexer.tokens@), old(self).pos() as nat, after@, old(self).filename@, old(self).end_pos()),
    {
        let tok = self.next();
        if tok.token_type != TokenType::Identifier {
            let f = token_type_name(tok.token_type);
            let mut msg: Vec<char> = Vec::new();
            push_lit(&mut msg, "expected identifier after `");
            push_chars(&mut msg, after);
            push_lit(&mut msg, "`, got ");
            push_lit(&mut msg, f);
            let kind = DiagnosticKind::MissingIdentifier { after: string_of(after) };
            let ghost before = dviews(self.diagnostics@);
            self.push_diag(kind, &msg, &tok.location);
            assert(dviews(self.diagnostics@) =~= before + seq![dview(self.diagnostics@.last())]);
            return Err(());
        }
        Ok(tok)
    }

    /// Skips past the next newline, or to the end of input.
    fn sync_to_newline(&mut self)
        requires
            old(self).wf(),
        ensures
            final(self).wf(),
            old(self).moved(&*final(self)),
            final(self).workflow == old(self).workflow,
            final(self).diagnostics == old(self).diagnostics,
            final(self).start_line == old(self).start_line,
            final(self).exit_line == old(self).exit_line,
            final(self).restart_target_line == old(self).restart_target_line,
            old(self).has_tokens() ==> final(self).pos() > old(self).pos(),
            final(self).pos() == sync_end(tviews(old(self).lexer.tokens@), old(self).pos() as nat),
    {
        proof {
            lemma_sync_end_ge(tviews(old(self).lexer.tokens@), old(self).pos() as nat);
        }
        loop
            invariant
                self.wf(),
                old(self).moved(&*self),
                self.workflow == old(self).workflow,
                self.diagnostics == old(self).diagnostics,
                self.start_line == old(self).start_line,
                self.exit_line == old(self).exit_line,
                self.restart_target_line == old(self).restart_target_line,
                sync_end(tviews(self.lexer.tokens@), self.pos() as nat) == sync_end(
                    tviews(old(self).lexer.tokens@),
                    old(self).pos() as nat,
                ),
                old(self).has_tokens() ==> sync_end(tviews(self.lexer.tokens@), self.pos() as nat)
                    > old(self).pos(),
            decreases self.lexer.tokens@.len() - self.lexer.token_idx,
        {
            let tok = self.peek();
            let ghost before = self.pos();
            let ghost had = self.has_tokens();
            self.next();
            if tok.token_type == TokenType::Newline || tok.token_type == TokenType::Eof {
                assert(old(self).has_tokens() ==> self.pos() > old(self).pos());
                return;
            }
        }
    }
}

} // verus!

verus! {

/// The message `invalid <what> "<value>" for <field>`, the value as `{:?}`
/// writes it.
pub open spec fn invalid_msg(what: Seq<char>, val: Seq<char>, field: Seq<char>) -> Seq<char> {
    "invalid "@ + what + " "@ + debug_text(val) + " for "@ + field
}

fn invalid_message(what: &str, val: &[char], field: &[char]) -> (r: Vec<char>)
    ensures
        r@ == invalid_msg(what@, val@, field@),
{
    let mut m: Vec<char> = Vec::new();
    push_lit(&mut m, "invalid ");
    push_lit(&mut m, what);
    push_lit(&mut m, " ");
    let q = debug_quote(val);
    push_chars(&mut m, &q);
    push_lit(&mut m, " for ");
    push_chars(&mut m, field);
    assert(m@ =~= invalid_msg(what@, val@, field@));
    m
}

impl Parser {
    /// Skips to the next newline or the end of input, without consuming it.
    fn consume_until_newline(&mut self)
        requires
            old(self).wf(),
        ensures
            final(self).wf(),
            old(self).moved(&*final(self)),
            final(self).workflow == old(self).workflow,
            final(self).diagnostics == old(self).diagnostics,
            final(self).start_line == old(self).start_line,
            final(self).exit_line == old(self).exit_line,
            final(self).restart_target_line == old(self).restart_target_line,
            final(self).peek_type() == TokenType::Newline || final(self).peek_type()
                == TokenType::Eof,
            final(self).pos() == line_stop(tviews(old(self).lexer.tokens@), old(self).pos() as nat),
    {
        loop
            invariant
                self.wf(),
                old(self).moved(&*self),
                self.workflow == old(self).workflow,
                self.diagnostics == old(self).diagnostics,
                self.start_line == old(self).start_line,
                self.exit_line == old(self).exit_line,
                self.restart_target_line == old(self).restart_target_line,
                line_stop(tviews(self.lexer.tokens@), self.pos() as nat) == line_stop(
                    tviews(old(self).lexer.tokens@),
                    old(self).pos() as nat,
                ),
            decreases self.lexer.tokens@.len() - self.lexer.token_idx,
        {
            let t = self.peek();
            if t.token_type == TokenType::Newline || t.token_type == TokenType::Eof {
                return;
            }
            self.next();
        }
    }

    /// Reads the value after `key:` on line `line_num`: a raw block (right
    /// after the colon or on the following lines), or the rest of the line,
    /// unquoted.
    fn read_field_value(&mut self, line_num: usize) -> (r: Vec<char>)
        requires
            old(self).wf(),
        ensures
            final(self).wf(),
            old(self).moved(&*final(self)),
            final(self).workflow == old(self).workflow,
            final(self).diagnostics == old(self).diagnostics,
            final(self).start_line == old(self).start_line,
            final(self).exit_line == old(self).exit_line,
            final(self).restart_target_line == old(self).restart_target_line,
            r@ == field_value_s(
                tviews(old(self).lexer.tokens@),
                views(old(self).lexer.lines@),
                old(self).pos() as nat,
                line_num as nat,
            ),
            final(self).pos() == field_value_end(tviews(old(self).lexer.tokens@), old(self).pos() as nat),
    {
        if self.peek().token_type == TokenType::RawBlock {
            let t = self.next();
            return string_chars(&t.value);
        }
        if self.peek().token_type == TokenType::Newline {
            self.next();
            if self.peek().token_type == TokenType::RawBlock {
                let t = self.next();
                return string_chars(&t.value);
            }
            return Vec::new();
        }
        self.read_single_line_value(line_num)
    }

    /// The rest of line `line_num` after its first colon, unquoted; the
    /// tokens up to the newline are skipped.
    fn read_single_line_value(&mut self, line_num: usize) -> (r: Vec<char>)
        requires
            old(self).wf(),
        ensures
            final(self).wf(),
            old(self).moved(&*final(self)),
            final(self).workflow == old(self).workflow,
            final(self).diagnostics == old(self).diagnostics,
            final(self).start_line == old(self).start_line,
            final(self).exit_line == old(self).exit_line,
            final(self).restart_target_line == old(self).restart_target_line,
            r@ == unquote_s(crate::lexer::raw_value_s(views(old(self).lexer.lines@), line_num as nat)),
            final(self).pos() == line_stop(tviews(old(self).lexer.tokens@), old(self).pos() as nat),
    {
        proof {
            crate::lexer::lemma_lexer_fields(self.lexer);
        }
        let raw = self.lexer.raw_value_text(line_num);
        self.consume_until_newline();
        let rc = string_chars(&raw);
        unquote_chars(&rc)
    }

    /// A comma-separated list of token texts.
    fn parse_comma_list(&mut self) -> (r: Vec<String>)
        requires
            old(self).wf(),
        ensures
            final(self).wf(),
            old(self).moved(&*final(self)),
            final(self).workflow == old(self).workflow,
            final(self).diagnostics == old(self).diagnostics,
            final(self).start_line == old(self).start_line,
            final(self).exit_line == old(self).exit_line,
            final(self).restart_target_line == old(self).restart_target_line,
            old(self).has_tokens() ==> final(self).pos() > old(self).pos(),
            r@.len() >= 1,
            final(self).pos() == comma_list_end(tviews(old(self).lexer.tokens@), old(self).pos() as nat),
            strs(r@) == comma_values(tviews(old(self).lexer.tokens@), old(self).pos() as nat),
    {
        let mut list: Vec<String> = Vec::new();
        let first = self.next();
        list.push(first.value);
        while self.peek().token_type == TokenType::Comma
            invariant
                self.wf(),
                old(self).moved(&*self),
                self.workflow == old(self).workflow,
                self.diagnostics == old(self).diagnostics,
                self.start_line == old(self).start_line,
                self.exit_line == old(self).exit_line,
                self.restart_target_line == old(self).restart_target_line,
                old(self).has_tokens() ==> self.pos() > old(self).pos(),
                list@.len() >= 1,
                comma_rest_end(tviews(self.lexer.tokens@), self.pos() as nat) == comma_list_end(
                    tviews(old(self).lexer.tokens@),
                    old(self).pos() as nat,
                ),
                strs(list@) + comma_rest_values(tviews(self.lexer.tokens@), self.pos() as nat) == comma_values(
                    tviews(old(self).lexer.tokens@),
                    old(self).pos() as nat,
                ),
            decreases self.lexer.tokens@.len() - self.lexer.token_idx,
        {
            self.next();
            let t = self.next();
            list.push(t.value);
        }
        list
    }

    /// Reads an unsigned count, recording `InvalidInteger` and giving 0 when
    /// the text is not one.
    fn parse_int(&mut self, val: &[char], key: &[char], loc: &SourceLocation) -> (r: u32)
        requires
            old(self).wf(),
            loc.file@ == old(self).filename@,
        ensures
            final(self).wf(),
            old(self).moved(&*final(self)),
            final(self).pos() == old(self).pos(),
            final(self).workflow == old(self).workflow,
            final(self).start_line == old(self).start_line,
            final(self).exit_line == old(self).exit_line,
            final(self).restart_target_line == old(self).restart_target_line,
            match u32_text(val@) {
                Some(n) => r == n && final(self).diagnostics == old(self).diagnostics,
                None => r == 0 && final(self).diagnostics@ == old(self).diagnostics@.push(
                    final(self).diagnostics@.last(),
                ) && dview(final(self).diagnostics@.last()) == (
                    KindView::InvalidInteger(val@, key@),
                    invalid_msg("integer"@, val@, key@),
                    loc.file@,
                    loc.line as nat,
                    loc.column as nat,
                ),
            },
            dviews(final(self).diagnostics@) == dviews(old(self).diagnostics@) + int_d(val@, key@, loc.file@, (loc.line as nat, loc.column as nat)),
    {
        match parse_u32_text(val) {
            Some(n) => n,
            None => {
                let msg = invalid_message("integer", val, key);
                let kind = DiagnosticKind::InvalidInteger { value: string_of(val), field: string_of(key) };
                self.push_diag(kind, &msg, loc);
                assert(self.diagnostics@ =~= old(self).diagnostics@.push(self.diagnostics@.last()));
                0
            },
        }
    }

    /// Reads `true` or `false`, recording `InvalidBool` and giving `false`
    /// for any other text.
    fn parse_bool(&mut self, val: &[char], field: &[char], loc: &SourceLocation) -> (r: bool)
        requires
            old(self).wf(),
            loc.file@ == old(self).filename@,
        ensures
            final(self).wf(),
            old(self).moved(&*final(self)),
            final(self).pos() == old(self).pos(),
            final(self).workflow == old(self).workflow,
            final(self).start_line == old(self).start_line,
            final(self).exit_line == old(self).exit_line,
            final(self).restart_target_line == old(self).restart_target_line,
            r == (val@ == "true"@),
            (val@ == "true"@ || val@ == "false"@) ==> final(self).diagnostics == old(self).diagnostics,
            !(val@ == "true"@ || val@ == "false"@) ==> final(self).diagnostics@
                == old(self).diagnostics@.push(final(self).diagnostics@.last()) && dview(
                final(self).diagnostics@.last(),
            ) == (
                KindView::InvalidBool(val@, field@),
                "`"@ + field@ + "` requires true or false, got `"@ + val@ + "`"@,
                loc.file@,
                loc.line as nat,
                loc.column as nat,
            ),
            dviews(final(self).diagnostics@) == dviews(old(self).diagnostics@) + bool_d(val@, field@, loc.file@, (loc.line as nat, loc.column as nat)),
    {
        if crate::text::eq_lit(val, "true") {
            return true;
        }
        if crate::text::eq_lit(val, "false") {
            return false;
        }
        let mut msg: Vec<char> = Vec::new();
        push_lit(&mut msg, "`");
        push_chars(&mut msg, field);
        push_lit(&mut msg, "` requires true or false, got `");
        push_chars(&mut msg, val);
        push_lit(&mut msg, "`");
        let kind = DiagnosticKind::InvalidBool { value: string_of(val), field: string_of(field) };
        self.push_diag(kind, &msg, loc);
        assert(self.diagnostics@ =~= old(self).diagnostics@.push(self.diagnostics@.last()));
        assert(msg@ =~= "`"@ + field@ + "` requires true or false, got `"@ + val@ + "`"@);
        false
    }

    /// Checks a floating-point literal: the text itself when `f64` accepts
    /// it; otherwise `InvalidFloat` is recorded and the text is `0`.
    fn parse_float(&mut self, val: &[char], key: &[char], loc: &SourceLocation) -> (r: Vec<char>)
        requires
            old(self).wf(),
            loc.file@ == old(self).filename@,
        ensures
            final(self).wf(),
            old(self).moved(&*final(self)),
            final(self).pos() == old(self).pos(),
            final(self).workflow == old(self).workflow,
            final(self).start_line == old(self).start_line,
            final(self).exit_line == old(self).exit_line,
            final(self).restart_target_line == old(self).restart_target_line,
            float_text(val@) ==> r@ == val@ && final(self).diagnostics == old(self).diagnostics,
            !float_text(val@) ==> r@ == seq!['0'] && final(self).diagnostics@
                == old(self).diagnostics@.push(final(self).diagnostics@.last()) && dview(
                final(self).diagnostics@.last(),
            ) == (
                KindView::InvalidFloat(val@, key@),
                invalid_msg("float"@, val@, key@),
                loc.file@,
                loc.line as nat,
                loc.column as nat,
            ),
            dviews(final(self).diagnostics@) == dviews(old(self).diagnostics@) + float_d(val@, key@, loc.file@, (loc.line as nat, loc.column as nat)),
    {
        if is_float_text(val) {
            return slice_of(val, 0, val.len());
        }
        let msg = invalid_message("float", val, key);
        let kind = DiagnosticKind::InvalidFloat { value: string_of(val), field: string_of(key) };
        self.push_diag(kind, &msg, loc);
        assert(self.diagnostics@ =~= old(self).diagnostics@.push(self.diagnostics@.last()));
        let mut z: Vec<char> = Vec::new();
        z.push('0');
        z
    }

    /// Reads a duration, recording `InvalidDuration` and giving zero when the
    /// text is not one (a text of over two billion characters is not taken
    /// for one).
    fn parse_duration(&mut self, val: &[char], key: &[char], loc: &SourceLocation) -> (r: Duration)
        requires
            old(self).wf(),
            loc.file@ == old(self).filename@,
        ensures
            final(self).wf(),
            old(self).moved(&*final(self)),
            final(self).pos() == old(self).pos(),
            final(self).workflow == old(self).workflow,
            final(self).start_line == old(self).start_line,
            final(self).exit_line == old(self).exit_line,
            final(self).restart_target_line == old(self).restart_target_line,
            match crate::duration::parse_duration_s(val@) {
                Ok(n) => r.0 == n && final(self).diagnostics == old(self).diagnostics,
                Err(_) => r.0 == 0 && final(self).diagnostics@ == old(self).diagnostics@.push(
                    final(self).diagnostics@.last(),
                ) && dview(final(self).diagnostics@.last()) == (
                    KindView::InvalidDuration(val@, key@),
                    invalid_msg("duration"@, val@, key@),
                    loc.file@,
                    loc.line as nat,
                    loc.column as nat,
                ),
            },
            r.0 == duration_or_zero(val@),
            dviews(final(self).diagnostics@) == dviews(old(self).diagnostics@) + duration_d(val@, key@, loc.file@, (loc.line as nat, loc.column as nat)),
    {
        let s = string_of(val);
        match Duration::parse(s.as_str()) {
            Ok(d) => {
                return d;
            },
            Err(_) => {},
        }
        let msg = invalid_message("duration", val, key);
        let kind = DiagnosticKind::InvalidDuration { value: string_of(val), field: string_of(key) };
        self.push_diag(kind, &msg, loc);
        assert(self.diagnostics@ =~= old(self).diagnostics@.push(self.diagnostics@.last()));
        Duration(0)
    }
}

} // verus!

verus! {

/// The fields of a `defaults` block.
pub open spec fn default_key(k: Seq<char>) -> bool {
    k == "model"@ || k == "provider"@ || k == "retry_policy"@ || k == "fidelity"@ || k
        == "restart_target"@ || k == "compaction"@ || k == "on_resume"@ || k == "max_retries"@
        || k == "max_restarts"@ || k == "cache_tools"@
}

/// The message for a field that its block does not have.
pub open spec fn unknown_field_msg(scope: Seq<char>, name: Seq<char>) -> Seq<char> {
    "unknown "@ + scope + " field `"@ + name + "`"@
}

fn unknown_field_message(scope: &str, name: &[char]) -> (r: Vec<char>)
    ensures
        r@ == unknown_field_msg(scope@, name@),
{
    let mut m: Vec<char> = Vec::new();
    push_lit(&mut m, "unknown ");
    push_lit(&mut m, scope);
    push_lit(&mut m, " field `");
    push_chars(&mut m, name);
    push_lit(&mut m, "`");
    assert(m@ =~= unknown_field_msg(scope@, name@));
    m
}

impl Parser {
    /// Records an unknown field `name` of the block `scope`.
    fn unknown_field(&mut self, scope: &str, name: &[char], loc: &SourceLocation)
        requires
            old(self).wf(),
            loc.file@ == old(self).filename@,
        ensures
            final(self).wf(),
            old(self).moved(&*final(self)),
            final(self).pos() == old(self).pos(),
            final(self).workflow == old(self).workflow,
            final(self).start_line == old(self).start_line,
            final(self).exit_line == old(self).exit_line,
            final(self).restart_target_line == old(self).restart_target_line,
            final(self).diagnostics@ == old(self).diagnostics@.push(final(self).diagnostics@.last()),
            dview(final(self).diagnostics@.last()) == (
                KindView::UnknownField(scope@, name@),
                unknown_field_msg(scope@, name@),
                loc.file@,
                loc.line as nat,
                loc.column as nat,
            ),
            dviews(final(self).diagnostics@) == dviews(old(self).diagnostics@) + unknown_d(scope@, name@, loc.file@, (loc.line as nat, loc.column as nat)),
    {
        let msg = unknown_field_message(scope, name);
        let kind = DiagnosticKind::UnknownField { scope: string_of(&chars_of(scope)), name: string_of(name) };
        self.push_diag(kind, &msg, loc);
        assert(self.diagnostics@ =~= old(self).diagnostics@.push(self.diagnostics@.last()));
    }

    /// Applies one field of the `defaults` block; the line of
    /// `restart_target` is kept for the reference check.
    fn apply_default_field(&mut self, key: &[char], val: &[char], loc: &SourceLocation)
        requires
            old(self).wf(),
            loc.file@ == old(self).filename@,
        ensures
            final(self).wf(),
            old(self).moved(&*final(self)),
            final(self).pos() == old(self).pos(),
            final(self).start_line == old(self).start_line,
            final(self).exit_line == old(self).exit_line,
            key@ == "model"@ ==> final(self).workflow.defaults.model@ == val@,
            key@ == "provider"@ ==> final(self).workflow.defaults.provider@ == val@,
            key@ == "retry_policy"@ ==> final(self).workflow.defaults.retry_policy@ == val@,
            key@ == "fidelity"@ ==> final(self).workflow.defaults.fidelity@ == val@,
            key@ == "restart_target"@ ==> final(self).workflow.defaults.restart_target@ == val@
                && final(self).restart_target_line == loc.line,
            key@ == "compaction"@ ==> final(self).workflow.defaults.compaction@ == val@,
            key@ == "on_resume"@ ==> final(self).workflow.defaults.on_resume@ == val@,
            key@ == "max_retries"@ && u32_text(val@) is Some ==> final(self).workflow.defaults.max_retries
                == u32_text(val@)->0,
            key@ == "max_restarts"@ && u32_text(val@) is Some ==> final(self).workflow.defaults.max_restarts
                == u32_text(val@)->0,
            key@ == "cache_tools"@ ==> final(self).workflow.defaults.cache_tools == (val@ == "true"@),
            final(self).workflow.nodes == old(self).workflow.nodes,
            final(self).workflow.edges == old(self).workflow.edges,
            final(self).workflow.start == old(self).workflow.start,
            final(self).workflow.exit == old(self).workflow.exit,
            final(self).workflow.name == old(self).workflow.name,
            final(self).workflow.version == old(self).workflow.version,
            final(self).workflow.goal == old(self).workflow.goal,
            final(self).workflow.stylesheet == old(self).workflow.stylesheet,
            defaults_view(final(self).workflow.defaults) == apply_default_s(
                defaults_view(old(self).workflow.defaults),
                key@,
                val@,
            ),
            key@ != "restart_target"@ ==> final(self).workflow.defaults.restart_target
                == old(self).workflow.defaults.restart_target && final(self).restart_target_line
                == old(self).restart_target_line,
            !default_key(key@) ==> dview(final(self).diagnostics@.last()) == (
                KindView::UnknownField("defaults"@, key@),
                "unknown defaults field "@ + debug_text(key@),
                loc.file@,
                loc.line as nat,
                loc.column as nat,
            ) && final(self).diagnostics@ == old(self).diagnostics@.push(
                final(self).diagnostics@.last(),
            ),
            dviews(final(self).diagnostics@) == dviews(old(self).diagnostics@) + default_field_d(key@, val@, loc.file@, (loc.line as nat, loc.column as nat)),
    {
        proof {
            reveal_strlit("model");
            reveal_strlit("provider");
            reveal_strlit("retry_policy");
            reveal_strlit("fidelity");
            reveal_strlit("restart_target");
            reveal_strlit("compaction");
            reveal_strlit("on_resume");
            reveal_strlit("max_retries");
            reveal_strlit("max_restarts");
            reveal_strlit("cache_tools");
            assert("model"@.len() == 5 && "model"@[0] == 'm');
            assert("provider"@.len() == 8 && "provider"@[0] == 'p');
            assert("retry_policy"@.len() == 12 && "retry_policy"@[0] == 'r');
            assert("fidelity"@.len() == 8 && "fidelity"@[0] == 'f');
            assert("restart_target"@.len() == 14 && "restart_target"@[0] == 'r');
            assert("compaction"@.len() == 10 && "compaction"@[0] == 'c');
            assert("on_resume"@.len() == 9 && "on_resume"@[0] == 'o');
            assert("max_retries"@.len() == 11 && "max_retries"@[0] == 'm');
            assert("max_restarts"@.len() == 12 && "max_restarts"@[0] == 'm');
            assert("cache_tools"@.len() == 11 && "cache_tools"@[0] == 'c');
        }
        if crate::text::eq_lit(key, "model") {
            self.workflow.defaults.model = string_of(val);
            assert(key@ != "provider"@);
        } else if crate::text::eq_lit(key, "provider") {
            self.workflow.defaults.provider = string_of(val);
            assert(self.workflow.defaults.provider@ == val@);
        } else if crate::text::eq_lit(key, "retry_policy") {
            self.workflow.defaults.retry_policy = string_of(val);
        } else if crate::text::eq_lit(key, "fidelity") {
            self.workflow.defaults.fidelity = string_of(val);
        } else if crate::text::eq_lit(key, "restart_target") {
            self.workflow.defaults.restart_target = string_of(val);
            self.restart_target_line = loc.line;
        } else if crate::text::eq_lit(key, "compaction") {
            self.workflow.defaults.compaction = string_of(val);
        } else if crate::text::eq_lit(key, "on_resume") {
            self.workflow.defaults.on_resume = string_of(val);
        } else if crate::text::eq_lit(key, "max_retries") {
            let n = self.parse_int(val, key, loc);
            self.workflow.defaults.max_retries = n;
        } else if crate::text::eq_lit(key, "max_restarts") {
            let n = self.parse_int(val, key, loc);
            self.workflow.defaults.max_restarts = n;
        } else if crate::text::eq_lit(key, "cache_tools") {
            let b = self.parse_bool(val, key, loc);
            self.workflow.defaults.cache_tools = b;
        } else {
            let mut msg: Vec<char> = Vec::new();
            push_lit(&mut msg, "unknown defaults field ");
            let q = debug_quote(key);
            push_chars(&mut msg, &q);
            let kind = DiagnosticKind::UnknownField {
                scope: string_of(&chars_of("defaults")),
                name: string_of(key),
            };
            self.push_diag(kind, &msg, loc);
            assert(self.diagnostics@ =~= old(self).diagnostics@.push(self.diagnostics@.last()));
        }
    }
}

} // verus!

verus! {

/// The position of `k` among the agent fields `prompt`, `system_prompt`,
/// `model`, `provider`, `reasoning_effort`, `fidelity`, `response_format`,
/// `response_schema`, `compaction`, `goal_gate`, `auto_status`,
/// `cache_tools`, `max_turns`, `compaction_threshold`, `cmd_timeout`,
/// `params`; -1 for any other word.
pub open spec fn agent_field(k: Seq<char>) -> int {
    if k == "prompt"@ {
        0
    } else if k == "system_prompt"@ {
        1
    } else if k == "model"@ {
        2
    } else if k == "provider"@ {
        3
    } else if k == "reasoning_effort"@ {
        4
    } else if k == "fidelity"@ {
        5
    } else if k == "response_format"@ {
        6
    } else if k == "response_schema"@ {
        7
    } else if k == "compaction"@ {
        8
    } else if k == "goal_gate"@ {
        9
    } else if k == "auto_status"@ {
        10
    } else if k == "cache_tools"@ {
        11
    } else if k == "max_turns"@ {
        12
    } else if k == "compaction_threshold"@ {
        13
    } else if k == "cmd_timeout"@ {
        14
    } else if k == "params"@ {
        15
    } else {
        -1
    }
}

/// The position of `k` among the fields every step has: `label`, `class`,
/// `reads`, `writes`, `retry_policy`, `retry_target`, `fallback_target`,
/// `max_retries`, `base_delay`; -1 for any other word.
pub open spec fn common_field(k: Seq<char>) -> int {
    if k == "label"@ {
        0
    } else if k == "class"@ {
        1
    } else if k == "reads"@ {
        2
    } else if k == "writes"@ {
        3
    } else if k == "retry_policy"@ {
        4
    } else if k == "retry_target"@ {
        5
    } else if k == "fallback_target"@ {
        6
    } else if k == "max_retries"@ {
        7
    } else if k == "base_delay"@ {
        8
    } else {
        -1
    }
}

/// The position of `k` among the human fields `mode`, `default`, `prompt`,
/// `questions_key`, `answers_key`; -1 for any other word.
pub open spec fn human_field(k: Seq<char>) -> int {
    if k == "mode"@ {
        0
    } else if k == "default"@ {
        1
    } else if k == "prompt"@ {
        2
    } else if k == "questions_key"@ {
        3
    } else if k == "answers_key"@ {
        4
    } else {
        -1
    }
}

/// The position of `k` among the tool fields `command`, `timeout`,
/// `outputs`; -1 for any other word.
pub open spec fn tool_field(k: Seq<char>) -> int {
    if k == "command"@ {
        0
    } else if k == "timeout"@ {
        1
    } else if k == "outputs"@ {
        2
    } else {
        -1
    }
}

/// The position of `k` among the subgraph fields `ref`, `params`; -1 for
/// any other word.
pub open spec fn subgraph_field(k: Seq<char>) -> int {
    if k == "ref"@ {
        0
    } else if k == "params"@ {
        1
    } else {
        -1
    }
}

/// Applies a human field; false when the word names none.
pub fn apply_human_field(cfg: &mut HumanConfig, key: &[char], val: &[char]) -> (r: bool)
    ensures
        r == (human_field(key@) >= 0),
        human_field(key@) == 0 ==> final(cfg).mode@ == val@,
        human_field(key@) == 1 ==> final(cfg).default@ == val@,
        human_field(key@) == 2 ==> final(cfg).prompt@ == val@,
        human_field(key@) == 3 ==> final(cfg).questions_key@ == val@,
        human_field(key@) == 4 ==> final(cfg).answers_key@ == val@,
        human_field(key@) == -1 ==> *final(cfg) == *old(cfg),
        human_view(*final(cfg)) == match apply_human_s(human_view(*old(cfg)), key@, val@) {
            Some(h2) => h2,
            None => human_view(*old(cfg)),
        },
{
    if crate::text::eq_lit(key, "mode") {
        cfg.mode = string_of(val);
    } else if crate::text::eq_lit(key, "default") {
        cfg.default = string_of(val);
    } else if crate::text::eq_lit(key, "prompt") {
        cfg.prompt = string_of(val);
    } else if crate::text::eq_lit(key, "questions_key") {
        cfg.questions_key = string_of(val);
    } else if crate::text::eq_lit(key, "answers_key") {
        cfg.answers_key = string_of(val);
    } else {
        return false;
    }
    true
}

/// Applies a subgraph field; false when the word names none.
pub fn apply_subgraph_field(cfg: &mut SubgraphConfig, key: &[char], val: &[char]) -> (r: bool)
    ensures
        r == (subgraph_field(key@) >= 0),
        subgraph_field(key@) == 0 ==> final(cfg).ref_path@ == val@ && entries(final(cfg).params)
            == entries(old(cfg).params),
        subgraph_field(key@) == 1 ==> entries(final(cfg).params) == params_s(split_s(val@, '\n'))
            && final(cfg).ref_path == old(cfg).ref_path,
        subgraph_field(key@) == -1 ==> *final(cfg) == *old(cfg),
{
    if crate::text::eq_lit(key, "ref") {
        cfg.ref_path = string_of(val);
    } else if crate::text::eq_lit(key, "params") {
        cfg.params = parse_params_block(val);
    } else {
        return false;
    }
    true
}

impl Parser {
    /// Applies an agent field, recording an unknown one.
    fn apply_agent_field(&mut self, cfg: &mut AgentConfig, key: &[char], val: &[char], loc: &SourceLocation)
        requires
            old(self).wf(),
            loc.file@ == old(self).filename@,
        ensures
            final(self).wf(),
            old(self).moved(&*final(self)),
            final(self).pos() == old(self).pos(),
            final(self).workflow == old(self).workflow,
            final(self).start_line == old(self).start_line,
            final(self).exit_line == old(self).exit_line,
            final(self).restart_target_line == old(self).restart_target_line,
            agent_field(key@) == 0 ==> final(cfg).prompt@ == val@,
            agent_field(key@) == 1 ==> final(cfg).system_prompt@ == val@,
            agent_field(key@) == 2 ==> final(cfg).model@ == val@,
            agent_field(key@) == 3 ==> final(cfg).provider@ == val@,
            agent_field(key@) == 4 ==> final(cfg).reasoning_effort@ == val@,
            agent_field(key@) == 5 ==> final(cfg).fidelity@ == val@,
            agent_field(key@) == 6 ==> final(cfg).response_format@ == val@,
            agent_field(key@) == 7 ==> final(cfg).response_schema@ == val@,
            agent_field(key@) == 8 ==> final(cfg).compaction@ == val@,
            agent_field(key@) == 9 ==> final(cfg).goal_gate == (val@ == "true"@),
            agent_field(key@) == 10 ==> final(cfg).auto_status == (val@ == "true"@),
            agent_field(key@) == 11 ==> final(cfg).cache_tools == (val@ == "true"@),
            agent_field(key@) == 12 && u32_text(val@) is Some ==> final(cfg).max_turns == u32_text(
                val@,
            )->0,
            agent_field(key@) == 13 && float_text(val@) ==> final(cfg).compaction_threshold@ == val@,
            agent_field(key@) == 14 && crate::duration::parse_duration_s(
                val@,
            ) is Ok ==> final(cfg).cmd_timeout.0 == crate::duration::parse_duration_s(val@)->Ok_0,
            agent_field(key@) == 15 ==> entries(final(cfg).params) == params_s(split_s(val@, '\n')),
            agent_field(key@) == -1 ==> *final(cfg) == *old(cfg) && final(self).diagnostics@
                == old(self).diagnostics@.push(final(self).diagnostics@.last()) && dview(
                final(self).diagnostics@.last(),
            ) == (
                KindView::UnknownField("agent"@, key@),
                unknown_field_msg("agent"@, key@),
                loc.file@,
                loc.line as nat,
                loc.column as nat,
            ),
            agent_view(*final(cfg)) == match apply_agent_s(agent_view(*old(cfg)), key@, val@) {
                Some(a2) => a2,
                None => agent_view(*old(cfg)),
            },
            dviews(final(self).diagnostics@) == dviews(old(self).diagnostics@) + config_d(ConfigView::Agent(agent_view(*old(cfg))), key@, val@, loc.file@, (loc.line as nat, loc.column as nat)),
    {
        if crate::text::eq_lit(key, "prompt") {
            cfg.prompt = string_of(val);
        } else if crate::text::eq_lit(key, "system_prompt") {
            cfg.system_prompt = string_of(val);
        } else if crate::text::eq_lit(key, "model") {
            cfg.model = string_of(val);
        } else if crate::text::eq_lit(key, "provider") {
            cfg.provider = string_of(val);
        } else if crate::text::eq_lit(key, "reasoning_effort") {
            cfg.reasoning_effort = string_of(val);
        } else if crate::text::eq_lit(key, "fidelity") {
            cfg.fidelity = string_of(val);
        } else if crate::text::eq_lit(key, "response_format") {
            cfg.response_format = string_of(val);
        } else if crate::text::eq_lit(key, "response_schema") {
            cfg.response_schema = string_of(val);
        } else if crate::text::eq_lit(key, "compaction") {
            cfg.compaction = string_of(val);
        } else if crate::text::eq_lit(key, "goal_gate") {
            cfg.goal_gate = self.parse_bool(val, key, loc);
        } else if crate::text::eq_lit(key, "auto_status") {
            cfg.auto_status = self.parse_bool(val, key, loc);
        } else if crate::text::eq_lit(key, "cache_tools") {
            cfg.cache_tools = self.parse_bool(val, key, loc);
        } else if crate::text::eq_lit(key, "max_turns") {
            cfg.max_turns = self.parse_int(val, key, loc);
        } else if crate::text::eq_lit(key, "compaction_threshold") {
            let t = self.parse_float(val, key, loc);
            cfg.compaction_threshold = string_of(&t);
        } else if crate::text::eq_lit(key, "cmd_timeout") {
            cfg.cmd_timeout = self.parse_duration(val, key, loc);
        } else if crate::text::eq_lit(key, "params") {
            cfg.params = parse_params_block(val);
        } else {
            self.unknown_field("agent", key, loc);
        }
    }

    /// Applies a tool field, recording an unknown one.
    fn apply_tool_field(&mut self, cfg: &mut ToolConfig, key: &[char], val: &[char], loc: &SourceLocation)
        requires
            old(self).wf(),
            loc.file@ == old(self).filename@,
        ensures
            final(self).wf(),
            old(self).moved(&*final(self)),
            final(self).pos() == old(self).pos(),
            final(self).workflow == old(self).workflow,
            final(self).start_line == old(self).start_line,
            final(self).exit_line == old(self).exit_line,
            final(self).restart_target_line == old(self).restart_target_line,
            tool_field(key@) == 0 ==> final(cfg).command@ == val@,
            tool_field(key@) == 1 && crate::duration::parse_duration_s(
                val@,
            ) is Ok ==> final(cfg).timeout.0 == crate::duration::parse_duration_s(val@)->Ok_0,
            tool_field(key@) == 2 ==> final(cfg).outputs@.map_values(|x: String| x@) == split_comma_s(
                val@,
            ),
            tool_field(key@) == -1 ==> *final(cfg) == *old(cfg) && final(self).diagnostics@
                == old(self).diagnostics@.push(final(self).diagnostics@.last()) && dview(
                final(self).diagnostics@.last(),
            ) == (
                KindView::UnknownField("tool"@, key@),
                unknown_field_msg("tool"@, key@),
                loc.file@,
                loc.line as nat,
                loc.column as nat,
            ),
            tool_view(*final(cfg)) == match apply_tool_s(tool_view(*old(cfg)), key@, val@) {
                Some(t2) => t2,
                None => tool_view(*old(cfg)),
            },
            dviews(final(self).diagnostics@) == dviews(old(self).diagnostics@) + config_d(ConfigView::Tool(tool_view(*old(cfg))), key@, val@, loc.file@, (loc.line as nat, loc.column as nat)),
    {
        if crate::text::eq_lit(key, "command") {
            cfg.command = string_of(val);
        } else if crate::text::eq_lit(key, "timeout") {
            cfg.timeout = self.parse_duration(val, key, loc);
        } else if crate::text::eq_lit(key, "outputs") {
            cfg.outputs = split_comma_chars(val);
        } else {
            self.unknown_field("tool", key, loc);
        }
    }
}

} // verus!

verus! {

impl Parser {
    /// Applies a field that every step has; false when the word names none.
    fn try_apply_common_field(&mut self, node: &mut Node, key: &[char], val: &[char], loc: &SourceLocation) -> (r: bool)
        requires
            old(self).wf(),
            loc.file@ == old(self).filename@,
        ensures
            final(self).wf(),
            old(self).moved(&*final(self)),
            final(self).pos() == old(self).pos(),
            final(self).workflow == old(self).workflow,
            final(self).start_line == old(self).start_line,
            final(self).exit_line == old(self).exit_line,
            final(self).restart_target_line == old(self).restart_target_line,
            r == (common_field(key@) >= 0),
            !r ==> *final(node) == *old(node) && final(self).diagnostics == old(self).diagnostics,
            final(node).source == old(node).source,
            final(node).id == old(node).id,
            final(node).config == old(node).config,
            final(node).kind == old(node).kind,
            common_field(key@) == 0 ==> final(node).label@ == val@,
            common_field(key@) == 1 ==> final(node).classes@.map_values(|x: String| x@)
                == split_comma_s(val@),
            common_field(key@) == 2 ==> final(node).io.reads@.map_values(|x: String| x@)
                == split_comma_s(val@),
            common_field(key@) == 3 ==> final(node).io.writes@.map_values(|x: String| x@)
                == split_comma_s(val@),
            common_field(key@) == 4 ==> final(node).retry.policy@ == val@,
            common_field(key@) == 5 ==> final(node).retry.retry_target@ == val@,
            common_field(key@) == 6 ==> final(node).retry.fallback_target@ == val@,
            common_field(key@) == 7 && u32_text(val@) is Some ==> final(node).retry.max_retries
                == u32_text(val@)->0,
            common_field(key@) == 8 && crate::duration::parse_duration_s(
                val@,
            ) is Ok ==> final(node).retry.base_delay.0 == crate::duration::parse_duration_s(
                val@,
            )->Ok_0,
            node_view(*final(node)) == match apply_common_s(node_view(*old(node)), key@, val@) {
                Some(n2) => n2,
                None => node_view(*old(node)),
            },
            dviews(final(self).diagnostics@) == dviews(old(self).diagnostics@) + if common_field(key@) >= 0 {
                common_d(key@, val@, loc.file@, (loc.line as nat, loc.column as nat))
            } else {
                Seq::empty()
            },
    {
        if crate::text::eq_lit(key, "label") {
            node.label = string_of(val);
        } else if crate::text::eq_lit(key, "class") {
            node.classes = split_comma_chars(val);
        } else if crate::text::eq_lit(key, "reads") {
            node.io.reads = split_comma_chars(val);
        } else if crate::text::eq_lit(key, "writes") {
            node.io.writes = split_comma_chars(val);
        } else if crate::text::eq_lit(key, "retry_policy") {
            node.retry.policy = string_of(val);
        } else if crate::text::eq_lit(key, "retry_target") {
            node.retry.retry_target = string_of(val);
        } else if crate::text::eq_lit(key, "fallback_target") {
            node.retry.fallback_target = string_of(val);
        } else if crate::text::eq_lit(key, "max_retries") {
            node.retry.max_retries = self.parse_int(val, key, loc);
        } else if crate::text::eq_lit(key, "base_delay") {
            node.retry.base_delay = self.parse_duration(val, key, loc);
        } else {
            return false;
        }
        true
    }

    /// Applies a field of the step's own kind, recording an unknown one.
    fn apply_config_field(&mut self, node: &mut Node, key: &[char], val: &[char], loc: &SourceLocation)
        requires
            old(self).wf(),
            loc.file@ == old(self).filename@,
        ensures
            final(self).wf(),
            old(self).moved(&*final(self)),
            final(self).pos() == old(self).pos(),
            final(self).workflow == old(self).workflow,
            final(self).start_line == old(self).start_line,
            final(self).exit_line == old(self).exit_line,
            final(self).restart_target_line == old(self).restart_target_line,
            final(node).source == old(node).source,
            final(node).id == old(node).id,
            final(node).kind == old(node).kind,
            crate::ir::config_kind(final(node).config) == crate::ir::config_kind(old(node).config),
            node_view(*final(node)) == apply_config_s(node_view(*old(node)), key@, val@),
            dviews(final(self).diagnostics@) == dviews(old(self).diagnostics@) + config_d(node_view(*old(node)).config, key@, val@, loc.file@, (loc.line as nat, loc.column as nat)),
    {
        match &mut node.config {
            NodeConfig::Agent(cfg) => self.apply_agent_field(cfg, key, val, loc),
            NodeConfig::Human(cfg) => {
                if !apply_human_field(cfg, key, val) {
                    self.unknown_field("human", key, loc);
                }
            },
            NodeConfig::Tool(cfg) => self.apply_tool_field(cfg, key, val, loc),
            NodeConfig::Subgraph(cfg) => {
                if !apply_subgraph_field(cfg, key, val) {
                    self.unknown_field("subgraph", key, loc);
                }
            },
            _ => {},
        }
    }

    /// Applies one field of a step: a common field first, then one of its
    /// kind.
    fn apply_node_field(&mut self, node: &mut Node, key: &[char], val: &[char], loc: &SourceLocation)
        requires
            old(self).wf(),
            loc.file@ == old(self).filename@,
        ensures
            final(self).wf(),
            old(self).moved(&*final(self)),
            final(self).pos() == old(self).pos(),
            final(self).workflow == old(self).workflow,
            final(self).start_line == old(self).start_line,
            final(self).exit_line == old(self).exit_line,
            final(self).restart_target_line == old(self).restart_target_line,
            final(node).source == old(node).source,
            final(node).id == old(node).id,
            final(node).kind == old(node).kind,
            crate::ir::config_kind(final(node).config) == crate::ir::config_kind(old(node).config),
            node_view(*final(node)) == apply_node_s(node_view(*old(node)), key@, val@),
            dviews(final(self).diagnostics@) == dviews(old(self).diagnostics@) + node_field_d(node_view(*old(node)), key@, val@, loc.file@, (loc.line as nat, loc.column as nat)),
    {
        if self.try_apply_common_field(node, key, val, loc) {
            return;
        }
        self.apply_config_field(node, key, val, loc);
    }

    /// Reads one `key: value` field of a step.
    fn parse_node_field(&mut self, node: &mut Node) -> (r: Result<(), ()>)
        requires
            old(self).wf(),
        ensures
            final(self).wf(),
            old(self).moved(&*final(self)),
            old(self).has_tokens() ==> final(self).pos() > old(self).pos(),
            final(self).workflow == old(self).workflow,
            final(self).start_line == old(self).start_line,
            final(self).exit_line == old(self).exit_line,
            final(self).restart_target_line == old(self).restart_target_line,
            final(node).source == old(node).source,
            final(node).id == old(node).id,
            final(node).kind == old(node).kind,
            crate::ir::config_kind(final(node).config) == crate::ir::config_kind(old(node).config),
            final(self).pos() == field_end(tviews(old(self).lexer.tokens@), old(self).pos() as nat).0,
            (r is Ok) == field_end(tviews(old(self).lexer.tokens@), old(self).pos() as nat).1,
            node_view(*final(node)) == if ttype_at(tviews(old(self).lexer.tokens@), step(tviews(old(self).lexer.tokens@), old(self).pos() as nat)) == TokenType::Colon {
                apply_node_s(
                    node_view(*old(node)),
                    tvalue_at(tviews(old(self).lexer.tokens@), old(self).pos() as nat),
                    field_value_s(tviews(old(self).lexer.tokens@), views(old(self).lexer.lines@), step(tviews(old(self).lexer.tokens@), old(self).pos() as nat) + 1, tline_at(tviews(old(self).lexer.tokens@), old(self).pos() as nat)),
                )
            } else {
                node_view(*old(node))
            },
            dviews(final(self).diagnostics@) == dviews(old(self).diagnostics@) + if ttype_at(tviews(old(self).lexer.tokens@), step(tviews(old(self).lexer.tokens@), old(self).pos() as nat)) == TokenType::Colon {
                node_field_d(
                    node_view(*old(node)),
                    tvalue_at(tviews(old(self).lexer.tokens@), old(self).pos() as nat),
                    field_value_s(tviews(old(self).lexer.tokens@), views(old(self).lexer.lines@), step(tviews(old(self).lexer.tokens@), old(self).pos() as nat) + 1, tline_at(tviews(old(self).lexer.tokens@), old(self).pos() as nat)),
                    old(self).filename@,
                    tpos(tviews(old(self).lexer.tokens@), old(self).pos() as nat, old(self).end_pos()),
                )
            } else {
                expect_d(tviews(old(self).lexer.tokens@), step(tviews(old(self).lexer.tokens@), old(self).pos() as nat), TokenType::Colon, old(self).filename@, old(self).end_pos())
            },
    {
        let t = self.next();
        let key = string_chars(&t.value);
        self.expect(TokenType::Colon)?;
        let val = self.read_field_value(t.location.line);
        self.apply_node_field(node, &key, &val, &t.location);
        Ok(())
    }

    /// Reads the fields of a step up to the end of its block.
    fn parse_node_body(&mut self, node: &mut Node)
        requires
            old(self).wf(),
        ensures
            final(self).wf(),
            old(self).moved(&*final(self)),
            final(self).workflow == old(self).workflow,
            final(self).start_line == old(self).start_line,
            final(self).exit_line == old(self).exit_line,
            final(self).restart_target_line == old(self).restart_target_line,
            final(node).source == old(node).source,
            final(node).id == old(node).id,
            final(node).kind == old(node).kind,
            crate::ir::config_kind(final(node).config) == crate::ir::config_kind(old(node).config),
            final(self).pos() == fields_end(tviews(old(self).lexer.tokens@), old(self).pos() as nat),
            node_view(*final(node)) == node_fields_s(tviews(old(self).lexer.tokens@), views(old(self).lexer.lines@), old(self).pos() as nat, node_view(*old(node))),
            dviews(final(self).diagnostics@) == dviews(old(self).diagnostics@) + node_fields_d(tviews(old(self).lexer.tokens@), views(old(self).lexer.lines@), old(self).pos() as nat, node_view(*old(node)), old(self).filename@, old(self).end_pos()),
    {
        loop
            invariant
                self.wf(),
                old(self).moved(&*self),
                self.workflow == old(self).workflow,
                self.start_line == old(self).start_line,
                self.exit_line == old(self).exit_line,
                self.restart_target_line == old(self).restart_target_line,
                node.source == old(node).source,
                node.id == old(node).id,
                node.kind == old(node).kind,
                crate::ir::config_kind(node.config) == crate::ir::config_kind(old(node).config),
                fields_end(tviews(self.lexer.tokens@), self.pos() as nat) == fields_end(
                    tviews(old(self).lexer.tokens@),
                    old(self).pos() as nat,
                ),
                node_fields_s(tviews(self.lexer.tokens@), views(self.lexer.lines@), self.pos() as nat, node_view(*node))
                    == node_fields_s(tviews(old(self).lexer.tokens@), views(old(self).lexer.lines@), old(self).pos() as nat, node_view(*old(node))),
                dviews(self.diagnostics@) + node_fields_d(tviews(self.lexer.tokens@), views(self.lexer.lines@), self.pos() as nat, node_view(*node), self.filename@, self.end_pos()) == dviews(old(self).diagnostics@) + node_fields_d(tviews(old(self).lexer.tokens@), views(old(self).lexer.lines@), old(self).pos() as nat, node_view(*old(node)), old(self).filename@, old(self).end_pos()),
            decreases self.lexer.tokens@.len() - self.lexer.token_idx,
        {
            let t = self.peek();
            if t.token_type == TokenType::Outdent || t.token_type == TokenType::Eof {
                return;
            }
            if t.token_type == TokenType::Newline {
                self.next();
            } else if t.token_type == TokenType::Identifier {
                if self.parse_node_field(node).is_err() {
                    self.sync_to_newline();
                }
            } else {
                self.next();
            }
        }
    }
}

} // verus!

verus! {

/// Whether a token ends an edge condition: a newline, the end of input, or
/// one of the words `label`, `weight`, `restart`.
pub open spec fn ends_condition(t: TokView) -> bool {
    t.0 == TokenType::Newline || t.0 == TokenType::Eof || t.1 == "label"@ || t.1 == "weight"@ || t.1
        == "restart"@
}

/// The position of the first token from `i` on that ends a condition.
pub open spec fn cond_end(toks: Seq<TokView>, i: nat) -> nat
    decreases toks.len() - i,
{
    if i >= toks.len() || ends_condition(toks[i as int]) {
        i
    } else {
        cond_end(toks, i + 1)
    }
}

/// How a token is written back in a condition: a string literal in double
/// quotes, anything else as it is.
pub open spec fn cond_part(t: TokView) -> Seq<char> {
    if t.0 == TokenType::Literal {
        seq!['"'] + t.1 + seq!['"']
    } else {
        t.1
    }
}

/// The condition text of tokens `i..j`: their texts joined with spaces,
/// trimmed.
pub open spec fn cond_text_s(toks: Seq<TokView>, i: nat, j: nat) -> Seq<char> {
    trim_s(crate::text::join_s(Seq::new((j - i) as nat, |k: int| cond_part(toks[i + k])), seq![' ']))
}

impl Parser {
    /// Reads an edge condition: the tokens up to the end of the line or the
    /// next `label`, `weight` or `restart`.
    fn read_condition_raw(&mut self) -> (r: Vec<char>)
        requires
            old(self).wf(),
        ensures
            final(self).wf(),
            old(self).moved(&*final(self)),
            final(self).workflow == old(self).workflow,
            final(self).diagnostics == old(self).diagnostics,
            final(self).start_line == old(self).start_line,
            final(self).exit_line == old(self).exit_line,
            final(self).restart_target_line == old(self).restart_target_line,
            final(self).pos() == cond_end(tviews(old(self).lexer.tokens@), old(self).pos() as nat),
            r@ == cond_text_s(
                tviews(old(self).lexer.tokens@),
                old(self).pos() as nat,
                cond_end(tviews(old(self).lexer.tokens@), old(self).pos() as nat),
            ),
    {
        let ghost toks = tviews(self.lexer.tokens@);
        let ghost i0 = self.lexer.token_idx as nat;
        let mut joined: Vec<char> = Vec::new();
        let mut count: usize = 0;
        loop
            invariant
                self.wf(),
                old(self).moved(&*self),
                toks == tviews(self.lexer.tokens@),
                i0 == old(self).pos(),
                i0 <= self.lexer.token_idx,
                count == self.lexer.token_idx - i0,
                self.workflow == old(self).workflow,
                self.diagnostics == old(self).diagnostics,
                self.start_line == old(self).start_line,
                self.exit_line == old(self).exit_line,
                self.restart_target_line == old(self).restart_target_line,
                cond_end(toks, i0) == cond_end(toks, self.lexer.token_idx as nat),
                joined@ == crate::text::join_s(
                    Seq::new(count as nat, |k: int| cond_part(toks[i0 + k])),
                    seq![' '],
                ),
            decreases self.lexer.tokens@.len() - self.lexer.token_idx,
        {
            let ghost idx = self.lexer.token_idx as nat;
            let pk = self.peek();
            let v = string_chars(&pk.value);
            proof {
                reveal_strlit("label");
                reveal_strlit("weight");
                reveal_strlit("restart");
            }
            if pk.token_type == TokenType::Newline || pk.token_type == TokenType::Eof
                || crate::text::eq_lit(&v, "label") || crate::text::eq_lit(&v, "weight")
                || crate::text::eq_lit(&v, "restart") {
                proof {
                    if idx < toks.len() {
                        assert(tview(pk) == toks[idx as int]);
                    }
                }
                assert(Seq::new(count as nat, |k: int| cond_part(toks[i0 + k])) =~= Seq::new(
                    (cond_end(toks, i0) - i0) as nat,
                    |k: int| cond_part(toks[i0 + k]),
                ));
                let t = trim(&joined);
                return t;
            }
            let t = self.next();
            assert(tview(t) == toks[idx as int]);
            let ghost prev = Seq::new(count as nat, |k: int| cond_part(toks[i0 + k]));
            let ghost item = cond_part(toks[idx as int]);
            proof {
                crate::export_dot::lemma_join_push(prev, item, seq![' ']);
                assert(Seq::new((count + 1) as nat, |k: int| cond_part(toks[i0 + k])) =~= prev.push(
                    item,
                ));
            }
            if count > 0 {
                joined.push(' ');
            }
            if t.token_type == TokenType::Literal {
                joined.push('"');
                let tv = string_chars(&t.value);
                push_chars(&mut joined, &tv);
                joined.push('"');
            } else {
                let tv = string_chars(&t.value);
                push_chars(&mut joined, &tv);
            }
            count += 1;
            assert(joined@ =~= crate::text::join_s(
                Seq::new(count as nat, |k: int| cond_part(toks[i0 + k])),
                seq![' '],
            ));
        }
    }
}

} // verus!

verus! {

impl Parser {
    /// Reads a step declaration: `kind Id`, then its block of fields.
    fn parse_node(&mut self, kind: NodeKind) -> (r: Result<(), ()>)
        requires
            ttype_at(tviews(old(self).lexer.tokens@), old(self).pos() as nat) == TokenType::Identifier,
            old(self).wf(),
        ensures
            final(self).wf(),
            old(self).moved(&*final(self)),
            old(self).has_tokens() ==> final(self).pos() > old(self).pos(),
            final(self).start_line == old(self).start_line,
            final(self).exit_line == old(self).exit_line,
            final(self).restart_target_line == old(self).restart_target_line,
            ({
                let (v, e, ok) = node_s(
                    tviews(old(self).lexer.tokens@),
                    views(old(self).lexer.lines@),
                    old(self).pos() as nat,
                    kind,
                    wf_view(old(self).workflow),
                );
                &&& wf_view(final(self).workflow) == v
                &&& final(self).pos() == e
                &&& (r is Ok) == ok
            }),
            dviews(final(self).diagnostics@) == dviews(old(self).diagnostics@) + node_d(tviews(old(self).lexer.tokens@), views(old(self).lexer.lines@), old(self).pos() as nat, kind, old(self).filename@, old(self).end_pos()),
    {
        let kind_tok = self.next();
        let after = string_chars(&kind_tok.value);
        let id = self.expect_identifier(&after)?.value;
        let source = self.peek().location;
        let config = default_node_config(&kind);
        let mut node = Node {
            id,
            kind,
            label: String::new(),
            classes: Vec::new(),
            config,
            retry: RetryConfig::default(),
            io: NodeIO::default(),
            source,
        };
        proof {
            lemma_fresh_node_view(node);
        }
        self.expect(TokenType::Newline)?;
        self.expect(TokenType::Indent)?;
        self.parse_node_body(&mut node);
        self.expect(TokenType::Outdent)?;
        let ghost before = self.workflow.nodes@;
        let ghost nv = node_view(node);
        self.workflow.nodes.push(node);
        assert(steps_of(self.workflow.nodes@) =~= steps_of(before).push(nv));
        Ok(())
    }

    /// Reads `branch: target` and the optional block of its fields.
    fn parse_one_branch(&mut self) -> (r: Result<BranchConfig, ()>)
        requires
            old(self).wf(),
        ensures
            final(self).wf(),
            old(self).moved(&*final(self)),
            old(self).has_tokens() ==> final(self).pos() > old(self).pos(),
            final(self).workflow == old(self).workflow,
            final(self).start_line == old(self).start_line,
            final(self).exit_line == old(self).exit_line,
            final(self).restart_target_line == old(self).restart_target_line,
            final(self).pos() == one_branch_end(tviews(old(self).lexer.tokens@), old(self).pos() as nat).0,
            (r is Ok) == one_branch_end(tviews(old(self).lexer.tokens@), old(self).pos() as nat).1,
            r matches Ok(bc) ==> branch_view(bc) == one_branch_s(tviews(old(self).lexer.tokens@), views(old(self).lexer.lines@), old(self).pos() as nat),
            dviews(final(self).diagnostics@) == dviews(old(self).diagnostics@) + one_branch_d(tviews(old(self).lexer.tokens@), views(old(self).lexer.lines@), old(self).pos() as nat, old(self).filename@, old(self).end_pos()),
    {
        self.next();
        self.expect(TokenType::Colon)?;
        let target = self.next().value;
        let mut bc = BranchConfig { target, ..BranchConfig::default() };
        proof {
            assert(bc.model@ =~= Seq::<char>::empty());
            assert(bc.provider@ =~= Seq::<char>::empty());
            assert(bc.fidelity@ =~= Seq::<char>::empty());
        }
        self.consume_until_newline();
        if self.peek().token_type == TokenType::Newline {
            self.next();
        }
        if self.peek().token_type != TokenType::Indent {
            return Ok(bc);
        }
        self.expect(TokenType::Indent)?;
        self.parse_branch_fields(&mut bc);
        self.expect(TokenType::Outdent)?;
        Ok(bc)
    }

    /// Reads the fields of a branch up to the end of its block.
    fn parse_branch_fields(&mut self, bc: &mut BranchConfig)
        requires
            old(self).wf(),
        ensures
            final(self).wf(),
            old(self).moved(&*final(self)),
            final(self).workflow == old(self).workflow,
            final(self).start_line == old(self).start_line,
            final(self).exit_line == old(self).exit_line,
            final(self).restart_target_line == old(self).restart_target_line,
            final(self).pos() == fields_end(tviews(old(self).lexer.tokens@), old(self).pos() as nat),
            branch_view(*final(bc)) == branch_fields_s(tviews(old(self).lexer.tokens@), views(old(self).lexer.lines@), old(self).pos() as nat, branch_view(*old(bc))),
            dviews(final(self).diagnostics@) == dviews(old(self).diagnostics@) + branch_fields_d(tviews(old(self).lexer.tokens@), views(old(self).lexer.lines@), old(self).pos() as nat, old(self).filename@, old(self).end_pos()),
    {
        loop
            invariant
                self.wf(),
                old(self).moved(&*self),
                self.workflow == old(self).workflow,
                self.start_line == old(self).start_line,
                self.exit_line == old(self).exit_line,
                self.restart_target_line == old(self).restart_target_line,
                fields_end(tviews(self.lexer.tokens@), self.pos() as nat) == fields_end(
                    tviews(old(self).lexer.tokens@),
                    old(self).pos() as nat,
                ),
                branch_fields_s(tviews(self.lexer.tokens@), views(self.lexer.lines@), self.pos() as nat, branch_view(*bc))
                    == branch_fields_s(tviews(old(self).lexer.tokens@), views(old(self).lexer.lines@), old(self).pos() as nat, branch_view(*old(bc))),
                dviews(self.diagnostics@) + branch_fields_d(tviews(self.lexer.tokens@), views(self.lexer.lines@), self.pos() as nat, self.filename@, self.end_pos()) == dviews(old(self).diagnostics@) + branch_fields_d(tviews(old(self).lexer.tokens@), views(old(self).lexer.lines@), old(self).pos() as nat, old(self).filename@, old(self).end_pos()),
            decreases self.lexer.tokens@.len() - self.lexer.token_idx,
        {
            let t = self.peek();
            if t.token_type == TokenType::Outdent || t.token_type == TokenType::Eof {
                return;
            }
            if t.token_type == TokenType::Newline {
                self.next();
            } else if t.token_type == TokenType::Identifier {
                if self.parse_branch_field(bc).is_err() {
                    self.sync_to_newline();
                }
            } else {
                self.next();
            }
        }
    }

    /// Reads one field of a branch: `model`, `provider` or `fidelity`; any
    /// other is recorded as unknown.
    fn parse_branch_field(&mut self, bc: &mut BranchConfig) -> (r: Result<(), ()>)
        requires
            old(self).wf(),
        ensures
            final(self).wf(),
            old(self).moved(&*final(self)),
            old(self).has_tokens() ==> final(self).pos() > old(self).pos(),
            final(self).workflow == old(self).workflow,
            final(self).start_line == old(self).start_line,
            final(self).exit_line == old(self).exit_line,
            final(self).restart_target_line == old(self).restart_target_line,
            final(self).pos() == field_end(tviews(old(self).lexer.tokens@), old(self).pos() as nat).0,
            (r is Ok) == field_end(tviews(old(self).lexer.tokens@), old(self).pos() as nat).1,
            branch_view(*final(bc)) == if ttype_at(tviews(old(self).lexer.tokens@), step(tviews(old(self).lexer.tokens@), old(self).pos() as nat)) == TokenType::Colon {
                match apply_branch_s(
                    branch_view(*old(bc)),
                    tvalue_at(tviews(old(self).lexer.tokens@), old(self).pos() as nat),
                    field_value_s(tviews(old(self).lexer.tokens@), views(old(self).lexer.lines@), step(tviews(old(self).lexer.tokens@), old(self).pos() as nat) + 1, tline_at(tviews(old(self).lexer.tokens@), old(self).pos() as nat)),
                ) {
                    Some(b2) => b2,
                    None => branch_view(*old(bc)),
                }
            } else {
                branch_view(*old(bc))
            },
            dviews(final(self).diagnostics@) == dviews(old(self).diagnostics@) + if ttype_at(tviews(old(self).lexer.tokens@), step(tviews(old(self).lexer.tokens@), old(self).pos() as nat)) == TokenType::Colon {
                if tvalue_at(tviews(old(self).lexer.tokens@), old(self).pos() as nat) == "model"@ || tvalue_at(tviews(old(self).lexer.tokens@), old(self).pos() as nat) == "provider"@ || tvalue_at(tviews(old(self).lexer.tokens@), old(self).pos() as nat) == "fidelity"@ {
                    Seq::empty()
                } else {
                    unknown_d("branch"@, tvalue_at(tviews(old(self).lexer.tokens@), old(self).pos() as nat), old(self).filename@, tpos(tviews(old(self).lexer.tokens@), old(self).pos() as nat, old(self).end_pos()))
                }
            } else {
                expect_d(tviews(old(self).lexer.tokens@), step(tviews(old(self).lexer.tokens@), old(self).pos() as nat), TokenType::Colon, old(self).filename@, old(self).end_pos())
            },
    {
        let t = self.next();
        let key = string_chars(&t.value);
        self.expect(TokenType::Colon)?;
        let val = self.read_field_value(t.location.line);
        if crate::text::eq_lit(&key, "model") {
            bc.model = string_of(&val);
        } else if crate::text::eq_lit(&key, "provider") {
            bc.provider = string_of(&val);
        } else if crate::text::eq_lit(&key, "fidelity") {
            bc.fidelity = string_of(&val);
        } else {
            self.unknown_field("branch", &key, &t.location);
        }
        Ok(())
    }

    /// Reads the `branch` entries of a parallel block.
    fn parse_parallel_branches(&mut self) -> (r: Vec<BranchConfig>)
        requires
            old(self).wf(),
        ensures
            final(self).wf(),
            old(self).moved(&*final(self)),
            final(self).workflow == old(self).workflow,
            final(self).start_line == old(self).start_line,
            final(self).exit_line == old(self).exit_line,
            final(self).restart_target_line == old(self).restart_target_line,
            final(self).pos() == branches_end(tviews(old(self).lexer.tokens@), old(self).pos() as nat),
            r@.map_values(|b: BranchConfig| branch_view(b)) == branches_s(tviews(old(self).lexer.tokens@), views(old(self).lexer.lines@), old(self).pos() as nat),
            dviews(final(self).diagnostics@) == dviews(old(self).diagnostics@) + branches_d(tviews(old(self).lexer.tokens@), views(old(self).lexer.lines@), old(self).pos() as nat, old(self).filename@, old(self).end_pos()),
    {
        let mut branches: Vec<BranchConfig> = Vec::new();
        loop
            invariant
                self.wf(),
                old(self).moved(&*self),
                self.workflow == old(self).workflow,
                self.start_line == old(self).start_line,
                self.exit_line == old(self).exit_line,
                self.restart_target_line == old(self).restart_target_line,
                branches_end(tviews(self.lexer.tokens@), self.pos() as nat) == branches_end(
                    tviews(old(self).lexer.tokens@),
                    old(self).pos() as nat,
                ),
                branches@.map_values(|b: BranchConfig| branch_view(b)) + branches_s(
                    tviews(self.lexer.tokens@),
                    views(self.lexer.lines@),
                    self.pos() as nat,
                ) == branches_s(tviews(old(self).lexer.tokens@), views(old(self).lexer.lines@), old(self).pos() as nat),
                dviews(self.diagnostics@) + branches_d(tviews(self.lexer.tokens@), views(self.lexer.lines@), self.pos() as nat, self.filename@, self.end_pos()) == dviews(old(self).diagnostics@) + branches_d(tviews(old(self).lexer.tokens@), views(old(self).lexer.lines@), old(self).pos() as nat, old(self).filename@, old(self).end_pos()),
            decreases self.lexer.tokens@.len() - self.lexer.token_idx,
        {
            let t = self.peek();
            if t.token_type == TokenType::Outdent || t.token_type == TokenType::Eof {
                return branches;
            }
            let v = string_chars(&t.value);
            if t.token_type == TokenType::Newline {
                self.next();
            } else if t.token_type == TokenType::Identifier && crate::text::eq_lit(&v, "branch") {
                match self.parse_one_branch() {
                    Ok(bc) => branches.push(bc),
                    Err(()) => self.sync_to_newline(),
                }
            } else {
                self.next();
            }
        }
    }

    /// Reads `parallel Id -> a, b` or `parallel Id` with a block of branches.
    fn parse_parallel(&mut self) -> (r: Result<(), ()>)
        requires
            ttype_at(tviews(old(self).lexer.tokens@), old(self).pos() as nat) == TokenType::Identifier,
            old(self).wf(),
        ensures
            final(self).wf(),
            old(self).moved(&*final(self)),
            old(self).has_tokens() ==> final(self).pos() > old(self).pos(),
            final(self).start_line == old(self).start_line,
            final(self).exit_line == old(self).exit_line,
            final(self).restart_target_line == old(self).restart_target_line,
            ({
                let (v, e, ok) = parallel_s(
                    tviews(old(self).lexer.tokens@),
                    views(old(self).lexer.lines@),
                    old(self).pos() as nat,
                    wf_view(old(self).workflow),
                );
                &&& wf_view(final(self).workflow) == v
                &&& final(self).pos() == e
                &&& (r is Ok) == ok
            }),
            dviews(final(self).diagnostics@) == dviews(old(self).diagnostics@) + parallel_d(tviews(old(self).lexer.tokens@), views(old(self).lexer.lines@), old(self).pos() as nat, old(self).filename@, old(self).end_pos()),
    {
        self.next();
        let source = self.peek().location;
        let id = self.expect_identifier(&chars_of("parallel"))?.value;
        if self.peek().token_type == TokenType::Arrow {
            return self.parse_parallel_inline(id, source);
        }
        self.parse_parallel_block(id, source)
    }

    /// The inline form: `-> target, target`.
    fn parse_parallel_inline(&mut self, id: String, source: SourceLocation) -> (r: Result<(), ()>)
        requires
            ttype_at(tviews(old(self).lexer.tokens@), old(self).pos() as nat) == TokenType::Arrow,
            old(self).wf(),
            source.file@ == old(self).filename@,
        ensures
            final(self).wf(),
            old(self).moved(&*final(self)),
            final(self).start_line == old(self).start_line,
            final(self).exit_line == old(self).exit_line,
            final(self).restart_target_line == old(self).restart_target_line,
            ({
                let c = comma_list_end(tviews(old(self).lexer.tokens@), old(self).pos() as nat + 1);
                &&& wf_view(final(self).workflow) == with_step(
                    wf_view(old(self).workflow),
                    new_node_view(
                        id@,
                        NodeKind::Parallel,
                        ConfigView::Parallel {
                            targets: comma_values(tviews(old(self).lexer.tokens@), old(self).pos() as nat + 1),
                            branches: Seq::empty(),
                        },
                        source.line as nat,
                        source.column as nat,
                    ),
                )
                &&& final(self).pos() == if ttype_at(tviews(old(self).lexer.tokens@), c) == TokenType::Newline {
                    c + 1
                } else {
                    step(tviews(old(self).lexer.tokens@), c)
                }
                &&& (r is Ok) == (ttype_at(tviews(old(self).lexer.tokens@), c) == TokenType::Newline)
            }),
            dviews(final(self).diagnostics@) == dviews(old(self).diagnostics@) + expect_d(tviews(old(self).lexer.tokens@), comma_list_end(tviews(old(self).lexer.tokens@), old(self).pos() as nat + 1), TokenType::Newline, old(self).filename@, old(self).end_pos()),
    {
        self.expect(TokenType::Arrow)?;
        let targets = self.parse_comma_list();
        let ghost before = self.workflow.nodes@;
        let node = Node {
            id,
            kind: NodeKind::Parallel,
            label: String::new(),
            classes: Vec::new(),
            config: NodeConfig::Parallel(ParallelConfig { targets, branches: Vec::new() }),
            retry: RetryConfig::default(),
            io: NodeIO::default(),
            source,
        };
        proof {
            lemma_plain_node_view(node);
            assert(node.config->Parallel_0.branches@.map_values(|b: BranchConfig| branch_view(b)) =~= Seq::empty());
        }
        let ghost nv = node_view(node);
        self.workflow.nodes.push(node);
        assert(steps_of(self.workflow.nodes@) =~= steps_of(before).push(nv));
        self.expect(TokenType::Newline)?;
        Ok(())
    }

    /// The block form: one `branch` entry per target.
    fn parse_parallel_block(&mut self, id: String, source: SourceLocation) -> (r: Result<(), ()>)
        requires
            old(self).wf(),
            source.file@ == old(self).filename@,
        ensures
            final(self).wf(),
            old(self).moved(&*final(self)),
            final(self).start_line == old(self).start_line,
            final(self).exit_line == old(self).exit_line,
            final(self).restart_target_line == old(self).restart_target_line,
            ({
                let p = old(self).pos() as nat;
                let toks = tviews(old(self).lexer.tokens@);
                if ttype_at(toks, p) != TokenType::Newline {
                    &&& wf_view(final(self).workflow) == wf_view(old(self).workflow)
                    &&& final(self).pos() == step(toks, p)
                    &&& r is Err
                } else if ttype_at(toks, p + 1) != TokenType::Indent {
                    &&& wf_view(final(self).workflow) == wf_view(old(self).workflow)
                    &&& final(self).pos() == step(toks, p + 1)
                    &&& r is Err
                } else {
                    let b = branches_end(toks, p + 2);
                    if ttype_at(toks, b) != TokenType::Outdent {
                        &&& wf_view(final(self).workflow) == wf_view(old(self).workflow)
                        &&& final(self).pos() == step(toks, b)
                        &&& r is Err
                    } else {
                        &&& wf_view(final(self).workflow) == with_step(
                            wf_view(old(self).workflow),
                            new_node_view(
                                id@,
                                NodeKind::Parallel,
                                ConfigView::Parallel {
                                    targets: branches_s(toks, views(old(self).lexer.lines@), p + 2).map_values(
                                        |x: BranchView| x.target,
                                    ),
                                    branches: branches_s(toks, views(old(self).lexer.lines@), p + 2),
                                },
                                source.line as nat,
                                source.column as nat,
                            ),
                        )
                        &&& final(self).pos() == b + 1
                        &&& r is Ok
                    }
                }
            }),
            dviews(final(self).diagnostics@) == dviews(old(self).diagnostics@) + block_after_d(tviews(old(self).lexer.tokens@), old(self).pos() as nat, branches_d(tviews(old(self).lexer.tokens@), views(old(self).lexer.lines@), old(self).pos() as nat + 2, old(self).filename@, old(self).end_pos()), branches_end(tviews(old(self).lexer.tokens@), old(self).pos() as nat + 2), old(self).filename@, old(self).end_pos()),
    {
        self.expect(TokenType::Newline)?;
        self.expect(TokenType::Indent)?;
        let branches = self.parse_parallel_branches();
        self.expect(TokenType::Outdent)?;
        let mut targets: Vec<String> = Vec::new();
        let mut i: usize = 0;
        while i < branches.len()
            invariant
                i <= branches@.len(),
                targets@.len() == i,
                forall|j: int| 0 <= j < i ==> (#[trigger] targets@[j])@ == branches@[j].target@,
            decreases branches@.len() - i,
        {
            let t = string_chars(&branches[i].target);
            targets.push(string_of(&t));
            i += 1;
        }
        let ghost before = self.workflow.nodes@;
        let node = Node {
            id,
            kind: NodeKind::Parallel,
            label: String::new(),
            classes: Vec::new(),
            config: NodeConfig::Parallel(ParallelConfig { targets, branches }),
            retry: RetryConfig::default(),
            io: NodeIO::default(),
            source,
        };
        proof {
            lemma_plain_node_view(node);
            assert(strs(node.config->Parallel_0.targets@) =~= node.config->Parallel_0.branches@.map_values(
                |b: BranchConfig| branch_view(b),
            ).map_values(|x: BranchView| x.target));
        }
        let ghost nv = node_view(node);
        self.workflow.nodes.push(node);
        assert(steps_of(self.workflow.nodes@) =~= steps_of(before).push(nv));
        Ok(())
    }

    /// Reads `fan_in Id <- source, source`.
    fn parse_fan_in(&mut self) -> (r: Result<(), ()>)
        requires
            ttype_at(tviews(old(self).lexer.tokens@), old(self).pos() as nat) == TokenType::Identifier,
            old(self).wf(),
        ensures
            final(self).wf(),
            old(self).moved(&*final(self)),
            old(self).has_tokens() ==> final(self).pos() > old(self).pos(),
            final(self).start_line == old(self).start_line,
            final(self).exit_line == old(self).exit_line,
            final(self).restart_target_line == old(self).restart_target_line,
            ({
                let (v, e, ok) = fan_in_s(tviews(old(self).lexer.tokens@), old(self).pos() as nat, wf_view(old(self).workflow));
                &&& wf_view(final(self).workflow) == v
                &&& final(self).pos() == e
                &&& (r is Ok) == ok
            }),
            dviews(final(self).diagnostics@) == dviews(old(self).diagnostics@) + fan_in_d(tviews(old(self).lexer.tokens@), old(self).pos() as nat, old(self).filename@, old(self).end_pos()),
    {
        self.next();
        let source = self.peek().location;
        let id = self.expect_identifier(&chars_of("fan_in"))?.value;
        self.expect(TokenType::BackArrow)?;
        let sources = self.parse_comma_list();
        let ghost before = self.workflow.nodes@;
        let node = Node {
            id,
            kind: NodeKind::FanIn,
            label: String::new(),
            classes: Vec::new(),
            config: NodeConfig::FanIn(FanInConfig { sources }),
            retry: RetryConfig::default(),
            io: NodeIO::default(),
            source,
        };
        proof {
            lemma_plain_node_view(node);
        }
        let ghost nv = node_view(node);
        self.workflow.nodes.push(node);
        assert(steps_of(self.workflow.nodes@) =~= steps_of(before).push(nv));
        self.expect(TokenType::Newline)?;
        Ok(())
    }
}

} // verus!

verus! {

/// What the attributes of an edge set: its label, its condition's text, its
/// weight and whether it restarts.
pub struct EdgeAttrs {
    pub label: Seq<char>,
    pub cond: Option<Seq<char>>,
    pub weight: nat,
    pub restart: bool,
}

/// The attributes that an edge carries.
pub open spec fn edge_attrs_of(e: Edge) -> EdgeAttrs {
    EdgeAttrs {
        label: e.label@,
        cond: match e.condition {
            Some(c) => Some(c.raw@),
            None => None,
        },
        weight: e.weight as nat,
        restart: e.restart,
    }
}

pub proof fn lemma_cond_end_ge(toks: Seq<TokView>, i: nat)
    ensures
        cond_end(toks, i) >= i,
        i <= toks.len() ==> cond_end(toks, i) <= toks.len(),
    decreases toks.len() - i,
{
    if !(i >= toks.len() || ends_condition(toks[i as int])) {
        lemma_cond_end_ge(toks, i + 1);
    }
}

/// Reading edge attributes from token `i` on, starting from `a`: the
/// attributes set, the position where reading stops (a newline or the end of
/// input), and whether it succeeded. `label`, `weight` and `restart` need a
/// colon; the token after it is their value. `when` takes the condition up to
/// the next attribute word or the end of the line. Any other word is skipped,
/// with a colon and a value if they follow.
pub open spec fn edge_attrs_s(toks: Seq<TokView>, i: nat, a: EdgeAttrs) -> (EdgeAttrs, nat, bool)
    decreases toks.len() - i,
{
    if i >= toks.len() || toks[i as int].0 == TokenType::Newline || toks[i as int].0
        == TokenType::Eof {
        (a, i, true)
    } else {
        let v = toks[i as int].1;
        let j = i + 1;
        if v == "when"@ {
            let e = cond_end(toks, j);
            proof {
                lemma_cond_end_ge(toks, j);
            }
            edge_attrs_s(
                toks,
                e,
                EdgeAttrs {
                    label: a.label,
                    cond: Some(cond_text_s(toks, j, e)),
                    weight: a.weight,
                    restart: a.restart,
                },
            )
        } else if v == "label"@ || v == "weight"@ || v == "restart"@ {
            if ttype_at(toks, j) != TokenType::Colon {
                (a, step(toks, j), false)
            } else {
                let val = tvalue_at(toks, j + 1);
                let a2 = if v == "label"@ {
                    EdgeAttrs { label: val, cond: a.cond, weight: a.weight, restart: a.restart }
                } else if v == "weight"@ {
                    EdgeAttrs {
                        label: a.label,
                        cond: a.cond,
                        weight: match u32_text(val) {
                            Some(n) => n,
                            None => 0,
                        },
                        restart: a.restart,
                    }
                } else {
                    EdgeAttrs { label: a.label, cond: a.cond, weight: a.weight, restart: val == "true"@ }
                };
                edge_attrs_s(toks, step(toks, j + 1), a2)
            }
        } else if ttype_at(toks, j) == TokenType::Colon {
            if ttype_at(toks, j + 1) == TokenType::Newline || ttype_at(toks, j + 1) == TokenType::Eof {
                edge_attrs_s(toks, j + 1, a)
            } else {
                edge_attrs_s(toks, j + 2, a)
            }
        } else {
            edge_attrs_s(toks, j, a)
        }
    }
}

/// What an edge says: where it goes from and to, and its attributes.
pub struct EdgeSpec {
    pub from: Seq<char>,
    pub to: Seq<char>,
    pub attrs: EdgeAttrs,
    pub line: nat,
    pub column: nat,
}

pub open spec fn edge_spec_of(e: Edge) -> EdgeSpec {
    EdgeSpec {
        from: e.from@,
        to: e.to@,
        attrs: edge_attrs_of(e),
        line: e.source.line as nat,
        column: e.source.column as nat,
    }
}

pub open spec fn edge_specs(es: Seq<Edge>) -> Seq<EdgeSpec> {
    es.map_values(|e: Edge| edge_spec_of(e))
}

/// An edge before its attributes are read: no label, no condition, weight
/// zero, no restart.
pub open spec fn no_attrs() -> EdgeAttrs {
    EdgeAttrs { label: Seq::empty(), cond: None, weight: 0, restart: false }
}

/// Reading one edge line `from -> to <attributes>` from token `i`: the edge
/// it adds (once its attributes are read), the position after, and whether
/// the line ended as it should.
pub open spec fn single_edge_s(toks: Seq<TokView>, i: nat) -> (Option<EdgeSpec>, nat, bool) {
    if ttype_at(toks, i) != TokenType::Identifier {
        (None, step(toks, i), false)
    } else if ttype_at(toks, i + 1) != TokenType::Arrow {
        (None, step(toks, i + 1), false)
    } else if ttype_at(toks, i + 2) != TokenType::Identifier {
        (None, step(toks, i + 2), false)
    } else {
        let (a, e, ok) = edge_attrs_s(toks, i + 3, no_attrs());
        let es = EdgeSpec {
            from: tvalue_at(toks, i),
            to: tvalue_at(toks, i + 2),
            attrs: a,
            line: crate::reading::tline_at(toks, i),
            column: crate::reading::tcol_at(toks, i),
        };
        if !ok {
            (None, e, false)
        } else if ttype_at(toks, e) != TokenType::Newline {
            (Some(es), step(toks, e), false)
        } else {
            (Some(es), e + 1, true)
        }
    }
}

pub proof fn lemma_edge_attrs_end(toks: Seq<TokView>, i: nat, a: EdgeAttrs)
    requires
        i <= toks.len(),
    ensures
        i <= edge_attrs_s(toks, i, a).1 <= toks.len(),
    decreases toks.len() - i,
{
    if !(i >= toks.len() || toks[i as int].0 == TokenType::Newline || toks[i as int].0
        == TokenType::Eof) {
        let v = toks[i as int].1;
        let j = i + 1;
        if v == "when"@ {
            let e = cond_end(toks, j);
            lemma_cond_end_ge(toks, j);
            lemma_edge_attrs_end(
                toks,
                e,
                EdgeAttrs {
                    label: a.label,
                    cond: Some(cond_text_s(toks, j, e)),
                    weight: a.weight,
                    restart: a.restart,
                },
            );
        } else if v == "label"@ || v == "weight"@ || v == "restart"@ {
            if ttype_at(toks, j) == TokenType::Colon {
                let val = tvalue_at(toks, j + 1);
                let a2 = if v == "label"@ {
                    EdgeAttrs { label: val, cond: a.cond, weight: a.weight, restart: a.restart }
                } else if v == "weight"@ {
                    EdgeAttrs {
                        label: a.label,
                        cond: a.cond,
                        weight: match u32_text(val) {
                            Some(n) => n,
                            None => 0,
                        },
                        restart: a.restart,
                    }
                } else {
                    EdgeAttrs { label: a.label, cond: a.cond, weight: a.weight, restart: val == "true"@ }
                };
                lemma_edge_attrs_end(toks, step(toks, j + 1), a2);
            }
        } else if ttype_at(toks, j) == TokenType::Colon {
            if ttype_at(toks, j + 1) == TokenType::Newline || ttype_at(toks, j + 1) == TokenType::Eof {
                lemma_edge_attrs_end(toks, j + 1, a);
            } else {
                lemma_edge_attrs_end(toks, j + 2, a);
            }
        } else {
            lemma_edge_attrs_end(toks, j, a);
        }
    }
}

/// Reading an edge line always moves forward while tokens remain.
pub proof fn lemma_single_edge_advances(toks: Seq<TokView>, i: nat)
    requires
        i < toks.len(),
    ensures
        i < single_edge_s(toks, i).1 <= toks.len(),
{
    if ttype_at(toks, i) == TokenType::Identifier && ttype_at(toks, i + 1) == TokenType::Arrow
        && ttype_at(toks, i + 2) == TokenType::Identifier {
        lemma_edge_attrs_end(toks, i + 3, no_attrs());
    }
}

/// Reading the lines of an `edges` block from token `i`: the edges they
/// add, in order, and the position where the block ends (an outdent or the
/// end of input). Blank lines are skipped; after a line that fails, reading
/// resumes past the next newline.
pub open spec fn edges_body_s(toks: Seq<TokView>, i: nat) -> (Seq<EdgeSpec>, nat)
    decreases toks.len() - i,
{
    let ty = ttype_at(toks, i);
    if i >= toks.len() || ty == TokenType::Outdent || ty == TokenType::Eof {
        (Seq::empty(), i)
    } else if ty == TokenType::Newline {
        edges_body_s(toks, i + 1)
    } else {
        let (es, e, ok) = single_edge_s(toks, i);
        let p = if ok {
            e
        } else {
            sync_end(toks, e)
        };
        proof {
            lemma_single_edge_advances(toks, i);
            lemma_sync_end_ge(toks, e);
        }
        let (rest, q) = edges_body_s(toks, p);
        (
            match es {
                Some(x) => seq![x] + rest,
                None => rest,
            },
            q,
        )
    }
}

pub proof fn lemma_edges_body_end(toks: Seq<TokView>, i: nat)
    requires
        i <= toks.len(),
    ensures
        i <= edges_body_s(toks, i).1 <= toks.len(),
    decreases toks.len() - i,
{
    let ty = ttype_at(toks, i);
    if !(i >= toks.len() || ty == TokenType::Outdent || ty == TokenType::Eof) {
        if ty == TokenType::Newline {
            lemma_edges_body_end(toks, i + 1);
        } else {
            let (es, e, ok) = single_edge_s(toks, i);
            lemma_single_edge_advances(toks, i);
            lemma_sync_end_ge(toks, e);
            lemma_edges_body_end(
                toks,
                if ok {
                    e
                } else {
                    sync_end(toks, e)
                },
            );
        }
    }
}

pub proof fn lemma_edges_block_end(toks: Seq<TokView>, i: nat)
    requires
        i < toks.len(),
    ensures
        i < edges_block_s(toks, i).1 <= toks.len(),
{
    let i1 = step(toks, i);
    if ttype_at(toks, i1) == TokenType::Newline && ttype_at(toks, i1 + 1) == TokenType::Indent {
        lemma_edges_body_end(toks, i1 + 2);
    }
}

/// Reading an `edges` block whose keyword is at token `i`: its edges, the
/// position after it, and whether it was well formed (a newline, an indented
/// body, an outdent).
pub open spec fn edges_block_s(toks: Seq<TokView>, i: nat) -> (Seq<EdgeSpec>, nat, bool) {
    let i1 = step(toks, i);
    if ttype_at(toks, i1) != TokenType::Newline {
        (Seq::empty(), step(toks, i1), false)
    } else if ttype_at(toks, i1 + 1) != TokenType::Indent {
        (Seq::empty(), step(toks, i1 + 1), false)
    } else {
        let (es, e) = edges_body_s(toks, i1 + 2);
        if ttype_at(toks, e) != TokenType::Outdent {
            (es, step(toks, e), false)
        } else {
            (es, e + 1, true)
        }
    }
}

/// The workflows agree but for their edges.
pub open spec fn same_but_edges(a: Workflow, b: Workflow) -> bool {
    &&& a.name == b.name
    &&& a.version == b.version
    &&& a.goal == b.goal
    &&& a.start == b.start
    &&& a.exit == b.exit
    &&& a.defaults == b.defaults
    &&& a.nodes == b.nodes
    &&& a.stylesheet == b.stylesheet
}

impl Parser {
    /// Reads the attributes after an edge: `when <condition>`,
    /// `label: <text>`, `weight: <count>`, `restart: <bool>`; unknown
    /// attributes and their values are skipped.
    fn parse_edge_attributes(&mut self, edge: &mut Edge) -> (r: Result<(), ()>)
        requires
            old(self).wf(),
        ensures
            final(self).wf(),
            old(self).moved(&*final(self)),
            final(self).workflow == old(self).workflow,
            final(self).start_line == old(self).start_line,
            final(self).exit_line == old(self).exit_line,
            final(self).restart_target_line == old(self).restart_target_line,
            final(edge).from == old(edge).from,
            final(edge).to == old(edge).to,
            final(edge).source == old(edge).source,
            ({
                let (a, end, ok) = edge_attrs_s(
                    tviews(old(self).lexer.tokens@),
                    old(self).pos() as nat,
                    edge_attrs_of(*old(edge)),
                );
                &&& edge_attrs_of(*final(edge)) == a
                &&& final(self).pos() == end
                &&& (r is Ok) == ok
            }),
            dviews(final(self).diagnostics@) == dviews(old(self).diagnostics@) + edge_attrs_d(tviews(old(self).lexer.tokens@), old(self).pos() as nat, old(self).filename@, old(self).end_pos()),
    {
        let ghost toks = tviews(self.lexer.tokens@);
        let ghost goal = edge_attrs_s(toks, self.pos() as nat, edge_attrs_of(*edge));
        loop
            invariant
                self.wf(),
                old(self).moved(&*self),
                self.workflow == old(self).workflow,
                self.start_line == old(self).start_line,
                self.exit_line == old(self).exit_line,
                self.restart_target_line == old(self).restart_target_line,
                edge.from == old(edge).from,
                edge.to == old(edge).to,
                edge.source == old(edge).source,
                toks == tviews(self.lexer.tokens@),
                goal == edge_attrs_s(tviews(old(self).lexer.tokens@), old(self).pos() as nat, edge_attrs_of(*old(edge))),
                edge_attrs_s(toks, self.pos() as nat, edge_attrs_of(*edge)) == goal,
                dviews(self.diagnostics@) + edge_attrs_d(tviews(self.lexer.tokens@), self.pos() as nat, self.filename@, self.end_pos()) == dviews(old(self).diagnostics@) + edge_attrs_d(tviews(old(self).lexer.tokens@), old(self).pos() as nat, old(self).filename@, old(self).end_pos()),
            decreases self.lexer.tokens@.len() - self.lexer.token_idx,
        {
            let ghost i = self.pos() as nat;
            let ghost a0 = edge_attrs_of(*edge);
            let t = self.peek();
            if t.token_type == TokenType::Newline || t.token_type == TokenType::Eof {
                return Ok(());
            }
            let attr = self.next();
            let a = string_chars(&attr.value);
            if crate::text::eq_lit(&a, "when") {
                let raw = self.read_condition_raw();
                edge.condition = Some(Condition { raw: string_of(&raw) });
            } else if crate::text::eq_lit(&a, "label") {
                self.expect(TokenType::Colon)?;
                edge.label = self.next().value;
            } else if crate::text::eq_lit(&a, "weight") {
                self.expect(TokenType::Colon)?;
                let wt = self.next();
                let wv = string_chars(&wt.value);
                edge.weight = self.parse_int(&wv, &chars_of("weight"), &wt.location);
            } else if crate::text::eq_lit(&a, "restart") {
                self.expect(TokenType::Colon)?;
                let rt = self.next();
                let rv = string_chars(&rt.value);
                edge.restart = self.parse_bool(&rv, &chars_of("restart"), &rt.location);
            } else if self.peek().token_type == TokenType::Colon {
                self.next();
                let p = self.peek();
                if !(p.token_type == TokenType::Newline || p.token_type == TokenType::Eof) {
                    self.next();
                }
            }
        }
    }

    /// Reads one edge, `from -> to` with its attributes.
    fn parse_single_edge(&mut self) -> (r: Result<(), ()>)
        requires
            old(self).wf(),
        ensures
            final(self).wf(),
            old(self).moved(&*final(self)),
            old(self).has_tokens() ==> final(self).pos() > old(self).pos(),
            final(self).start_line == old(self).start_line,
            final(self).exit_line == old(self).exit_line,
            final(self).restart_target_line == old(self).restart_target_line,
            same_but_edges(final(self).workflow, old(self).workflow),
            ({
                let toks = tviews(old(self).lexer.tokens@);
                let i = old(self).pos() as nat;
                let (es, end, ok) = single_edge_s(toks, i);
                &&& final(self).pos() == end
                &&& (r is Ok) == ok
                &&& match es {
                    Some(x) => {
                        &&& final(self).workflow.edges@ == old(self).workflow.edges@.push(
                            final(self).workflow.edges@.last(),
                        )
                        &&& edge_spec_of(final(self).workflow.edges@.last()) == x
                        &&& final(self).workflow.edges@.last().source == old(self).lexer.tokens@[i as int].location
                    },
                    None => final(self).workflow.edges == old(self).workflow.edges,
                }
            }),
            dviews(final(self).diagnostics@) == dviews(old(self).diagnostics@) + single_edge_d(tviews(old(self).lexer.tokens@), old(self).pos() as nat, old(self).filename@, old(self).end_pos()),
    {
        let source = self.peek().location;
        let from = self.expect_identifier(&chars_of("edge from"))?.value;
        self.expect(TokenType::Arrow)?;
        let to = self.expect_identifier(&chars_of("->"))?.value;
        let mut edge = Edge {
            from,
            to,
            label: String::new(),
            condition: None,
            weight: 0,
            restart: false,
            source,
        };
        self.parse_edge_attributes(&mut edge)?;
        self.workflow.edges.push(edge);
        self.expect(TokenType::Newline)?;
        Ok(())
    }

    /// Reads the edges of an `edges` block.
    fn parse_edges_body(&mut self)
        requires
            old(self).wf(),
        ensures
            final(self).wf(),
            old(self).moved(&*final(self)),
            final(self).start_line == old(self).start_line,
            final(self).exit_line == old(self).exit_line,
            final(self).restart_target_line == old(self).restart_target_line,
            same_but_edges(final(self).workflow, old(self).workflow),
            ({
                let (es, end) = edges_body_s(tviews(old(self).lexer.tokens@), old(self).pos() as nat);
                &&& edge_specs(final(self).workflow.edges@) == edge_specs(old(self).workflow.edges@)
                    + es
                &&& final(self).pos() == end
            }),
            dviews(final(self).diagnostics@) == dviews(old(self).diagnostics@) + edges_body_d(tviews(old(self).lexer.tokens@), old(self).pos() as nat, old(self).filename@, old(self).end_pos()),
    {
        let ghost toks = tviews(self.lexer.tokens@);
        let ghost goal = edges_body_s(toks, self.pos() as nat);
        let ghost before = edge_specs(self.workflow.edges@);
        loop
            invariant
                self.wf(),
                old(self).moved(&*self),
                self.start_line == old(self).start_line,
                self.exit_line == old(self).exit_line,
                self.restart_target_line == old(self).restart_target_line,
                same_but_edges(self.workflow, old(self).workflow),
                toks == tviews(self.lexer.tokens@),
                goal == edges_body_s(tviews(old(self).lexer.tokens@), old(self).pos() as nat),
                before == edge_specs(old(self).workflow.edges@),
                before + goal.0 == edge_specs(self.workflow.edges@) + edges_body_s(
                    toks,
                    self.pos() as nat,
                ).0,
                edges_body_s(toks, self.pos() as nat).1 == goal.1,
                dviews(self.diagnostics@) + edges_body_d(tviews(self.lexer.tokens@), self.pos() as nat, self.filename@, self.end_pos()) == dviews(old(self).diagnostics@) + edges_body_d(tviews(old(self).lexer.tokens@), old(self).pos() as nat, old(self).filename@, old(self).end_pos()),
            decreases self.lexer.tokens@.len() - self.lexer.token_idx,
        {
            let ghost i = self.pos() as nat;
            let ghost cur = edge_specs(self.workflow.edges@);
            let t = self.peek();
            if t.token_type == TokenType::Outdent || t.token_type == TokenType::Eof {
                assert(cur + Seq::<EdgeSpec>::empty() =~= cur);
                return;
            }
            if t.token_type == TokenType::Newline {
                self.next();
            } else {
                let ghost old_edges = self.workflow.edges@;
                let ok = self.parse_single_edge().is_ok();
                let ghost (es, e, okk) = single_edge_s(toks, i);
                proof {
                    match es {
                        Some(x) => {
                            assert(edge_specs(self.workflow.edges@) =~= edge_specs(old_edges).push(x));
                        },
                        None => {},
                    }
                }
                if !ok {
                    self.sync_to_newline();
                }
                proof {
                    let (rest, q) = edges_body_s(toks, self.pos() as nat);
                    match es {
                        Some(x) => {
                            assert(cur.push(x) + rest =~= cur + (seq![x] + rest));
                        },
                        None => {},
                    }
                }
            }
        }
    }

    /// Reads an `edges` block.
    fn parse_edges(&mut self) -> (r: Result<(), ()>)
        requires
            old(self).wf(),
        ensures
            final(self).wf(),
            old(self).moved(&*final(self)),
            old(self).has_tokens() ==> final(self).pos() > old(self).pos(),
            final(self).start_line == old(self).start_line,
            final(self).exit_line == old(self).exit_line,
            final(self).restart_target_line == old(self).restart_target_line,
            same_but_edges(final(self).workflow, old(self).workflow),
            ({
                let (es, end, ok) = edges_block_s(tviews(old(self).lexer.tokens@), old(self).pos() as nat);
                &&& edge_specs(final(self).workflow.edges@) == edge_specs(old(self).workflow.edges@)
                    + es
                &&& final(self).pos() == end
                &&& (r is Ok) == ok
            }),
            wf_view(final(self).workflow) == with_edges(wf_view(old(self).workflow), edges_block_s(tviews(old(self).lexer.tokens@), old(self).pos() as nat).0),
            dviews(final(self).diagnostics@) == dviews(old(self).diagnostics@) + edges_block_d(tviews(old(self).lexer.tokens@), old(self).pos() as nat, old(self).filename@, old(self).end_pos()),
    {
        self.next();
        self.expect(TokenType::Newline)?;
        self.expect(TokenType::Indent)?;
        self.parse_edges_body();
        self.expect(TokenType::Outdent)?;
        Ok(())
    }

    /// Reads one `key: value` field of the `defaults` block.
    fn parse_defaults_field(&mut self) -> (r: Result<(), ()>)
        requires
            old(self).wf(),
        ensures
            final(self).wf(),
            old(self).moved(&*final(self)),
            old(self).has_tokens() ==> final(self).pos() > old(self).pos(),
            final(self).start_line == old(self).start_line,
            final(self).exit_line == old(self).exit_line,
            final(self).pos() == field_end(tviews(old(self).lexer.tokens@), old(self).pos() as nat).0,
            (r is Ok) == field_end(tviews(old(self).lexer.tokens@), old(self).pos() as nat).1,
            wf_view(final(self).workflow) == with_defaults(wf_view(old(self).workflow), if ttype_at(tviews(old(self).lexer.tokens@), step(tviews(old(self).lexer.tokens@), old(self).pos() as nat)) == TokenType::Colon {
                    apply_default_s(
                        wf_view(old(self).workflow).defaults,
                        tvalue_at(tviews(old(self).lexer.tokens@), old(self).pos() as nat),
                        field_value_s(tviews(old(self).lexer.tokens@), views(old(self).lexer.lines@), step(tviews(old(self).lexer.tokens@), old(self).pos() as nat) + 1, tline_at(tviews(old(self).lexer.tokens@), old(self).pos() as nat)),
                    )
                } else {
                    wf_view(old(self).workflow).defaults
                }),
            dviews(final(self).diagnostics@) == dviews(old(self).diagnostics@) + if ttype_at(tviews(old(self).lexer.tokens@), step(tviews(old(self).lexer.tokens@), old(self).pos() as nat)) == TokenType::Colon {
                default_field_d(
                    tvalue_at(tviews(old(self).lexer.tokens@), old(self).pos() as nat),
                    field_value_s(tviews(old(self).lexer.tokens@), views(old(self).lexer.lines@), step(tviews(old(self).lexer.tokens@), old(self).pos() as nat) + 1, tline_at(tviews(old(self).lexer.tokens@), old(self).pos() as nat)),
                    old(self).filename@,
                    tpos(tviews(old(self).lexer.tokens@), old(self).pos() as nat, old(self).end_pos()),
                )
            } else {
                expect_d(tviews(old(self).lexer.tokens@), step(tviews(old(self).lexer.tokens@), old(self).pos() as nat), TokenType::Colon, old(self).filename@, old(self).end_pos())
            },
            final(self).ref_lines() == if ttype_at(tviews(old(self).lexer.tokens@), step(tviews(old(self).lexer.tokens@), old(self).pos() as nat)) == TokenType::Colon && tvalue_at(tviews(old(self).lexer.tokens@), old(self).pos() as nat) == "restart_target"@ {
                (old(self).ref_lines().0, old(self).ref_lines().1, tline_at(tviews(old(self).lexer.tokens@), old(self).pos() as nat))
            } else {
                old(self).ref_lines()
            },
    {
        let t = self.next();
        let key = string_chars(&t.value);
        self.expect(TokenType::Colon)?;
        let val = self.read_field_value(t.location.line);
        self.apply_default_field(&key, &val, &t.location);
        Ok(())
    }

    /// Reads the fields of the `defaults` block.
    fn parse_defaults_body(&mut self)
        requires
            old(self).wf(),
        ensures
            final(self).wf(),
            old(self).moved(&*final(self)),
            final(self).start_line == old(self).start_line,
            final(self).exit_line == old(self).exit_line,
            final(self).pos() == fields_end(tviews(old(self).lexer.tokens@), old(self).pos() as nat),
            wf_view(final(self).workflow) == with_defaults(wf_view(old(self).workflow), defaults_fields_s(tviews(old(self).lexer.tokens@), views(old(self).lexer.lines@), old(self).pos() as nat, wf_view(old(self).workflow).defaults)),
            dviews(final(self).diagnostics@) == dviews(old(self).diagnostics@) + defaults_fields_d(tviews(old(self).lexer.tokens@), views(old(self).lexer.lines@), old(self).pos() as nat, old(self).filename@, old(self).end_pos()),
            final(self).ref_lines() == defaults_fields_lines(tviews(old(self).lexer.tokens@), old(self).pos() as nat, old(self).ref_lines()),
    {
        loop
            invariant
                self.wf(),
                old(self).moved(&*self),
                self.start_line == old(self).start_line,
                self.exit_line == old(self).exit_line,
                fields_end(tviews(self.lexer.tokens@), self.pos() as nat) == fields_end(
                    tviews(old(self).lexer.tokens@),
                    old(self).pos() as nat,
                ),
                wf_view(self.workflow) == with_defaults(wf_view(old(self).workflow), wf_view(self.workflow).defaults),
                defaults_fields_s(tviews(self.lexer.tokens@), views(self.lexer.lines@), self.pos() as nat, wf_view(self.workflow).defaults)
                    == defaults_fields_s(tviews(old(self).lexer.tokens@), views(old(self).lexer.lines@), old(self).pos() as nat, wf_view(old(self).workflow).defaults),
                dviews(self.diagnostics@) + defaults_fields_d(tviews(self.lexer.tokens@), views(self.lexer.lines@), self.pos() as nat, self.filename@, self.end_pos()) == dviews(old(self).diagnostics@) + defaults_fields_d(tviews(old(self).lexer.tokens@), views(old(self).lexer.lines@), old(self).pos() as nat, old(self).filename@, old(self).end_pos()),
                defaults_fields_lines(tviews(self.lexer.tokens@), self.pos() as nat, self.ref_lines()) == defaults_fields_lines(tviews(old(self).lexer.tokens@), old(self).pos() as nat, old(self).ref_lines()),
            decreases self.lexer.tokens@.len() - self.lexer.token_idx,
        {
            let t = self.peek();
            if t.token_type == TokenType::Outdent || t.token_type == TokenType::Eof {
                return;
            }
            if t.token_type == TokenType::Newline {
                self.next();
            } else if t.token_type == TokenType::Identifier {
                if self.parse_defaults_field().is_err() {
                    self.sync_to_newline();
                }
            } else {
                self.next();
            }
        }
    }

    /// Reads the `defaults` block.
    fn parse_defaults(&mut self) -> (r: Result<(), ()>)
        requires
            old(self).wf(),
        ensures
            final(self).wf(),
            old(self).moved(&*final(self)),
            old(self).has_tokens() ==> final(self).pos() > old(self).pos(),
            final(self).start_line == old(self).start_line,
            final(self).exit_line == old(self).exit_line,
            final(self).pos() == fields_block_end(tviews(old(self).lexer.tokens@), old(self).pos() as nat).0,
            (r is Ok) == fields_block_end(tviews(old(self).lexer.tokens@), old(self).pos() as nat).1,
            wf_view(final(self).workflow) == with_defaults(wf_view(old(self).workflow), defaults_block_s(tviews(old(self).lexer.tokens@), views(old(self).lexer.lines@), old(self).pos() as nat, wf_view(old(self).workflow).defaults)),
            dviews(final(self).diagnostics@) == dviews(old(self).diagnostics@) + block_d(tviews(old(self).lexer.tokens@), old(self).pos() as nat, defaults_fields_d(tviews(old(self).lexer.tokens@), views(old(self).lexer.lines@), step(tviews(old(self).lexer.tokens@), old(self).pos() as nat) + 2, old(self).filename@, old(self).end_pos()), fields_end(tviews(old(self).lexer.tokens@), step(tviews(old(self).lexer.tokens@), old(self).pos() as nat) + 2), old(self).filename@, old(self).end_pos()),
            final(self).ref_lines() == if ttype_at(tviews(old(self).lexer.tokens@), step(tviews(old(self).lexer.tokens@), old(self).pos() as nat)) == TokenType::Newline && ttype_at(tviews(old(self).lexer.tokens@), step(tviews(old(self).lexer.tokens@), old(self).pos() as nat) + 1) == TokenType::Indent {
                defaults_fields_lines(tviews(old(self).lexer.tokens@), step(tviews(old(self).lexer.tokens@), old(self).pos() as nat) + 2, old(self).ref_lines())
            } else {
                old(self).ref_lines()
            },
    {
        self.next();
        self.expect(TokenType::Newline)?;
        self.expect(TokenType::Indent)?;
        self.parse_defaults_body();
        self.expect(TokenType::Outdent)?;
        Ok(())
    }

    /// Reads `stylesheet:` and its block of rules.
    fn parse_stylesheet(&mut self) -> (r: Result<(), ()>)
        requires
            old(self).wf(),
        ensures
            final(self).wf(),
            old(self).moved(&*final(self)),
            old(self).has_tokens() ==> final(self).pos() > old(self).pos(),
            final(self).start_line == old(self).start_line,
            final(self).exit_line == old(self).exit_line,
            final(self).restart_target_line == old(self).restart_target_line,
            wf_view(final(self).workflow) == if stylesheet_end(tviews(old(self).lexer.tokens@), old(self).pos() as nat).1 {
                with_stylesheet(wf_view(old(self).workflow), stylesheet_s(tviews(old(self).lexer.tokens@), views(old(self).lexer.lines@), old(self).pos() as nat))
            } else {
                wf_view(old(self).workflow)
            },
            final(self).pos() == stylesheet_end(tviews(old(self).lexer.tokens@), old(self).pos() as nat).0,
            (r is Ok) == stylesheet_end(tviews(old(self).lexer.tokens@), old(self).pos() as nat).1,
            dviews(final(self).diagnostics@) == dviews(old(self).diagnostics@) + expect_d(tviews(old(self).lexer.tokens@), step(tviews(old(self).lexer.tokens@), old(self).pos() as nat), TokenType::Colon, old(self).filename@, old(self).end_pos()),
    {
        self.next();
        self.expect(TokenType::Colon)?;
        let line = self.peek().location.line;
        let val = self.read_field_value(line);
        self.workflow.stylesheet = parse_stylesheet_raw(&val);
        Ok(())
    }

    /// Reads `goal:`, `start:`, `exit:` or `version:`; the lines of `start`
    /// and `exit` are kept for the reference check.
    fn parse_workflow_string_field(&mut self) -> (r: Result<(), ()>)
        requires
            old(self).wf(),
        ensures
            final(self).wf(),
            old(self).moved(&*final(self)),
            old(self).has_tokens() ==> final(self).pos() > old(self).pos(),
            final(self).restart_target_line == old(self).restart_target_line,
            ({
                let (v, e, ok) = string_field_s(tviews(old(self).lexer.tokens@), views(old(self).lexer.lines@), old(self).pos() as nat, wf_view(old(self).workflow));
                &&& wf_view(final(self).workflow) == v
                &&& final(self).pos() == e
                &&& (r is Ok) == ok
            }),
            dviews(final(self).diagnostics@) == dviews(old(self).diagnostics@) + expect_d(tviews(old(self).lexer.tokens@), step(tviews(old(self).lexer.tokens@), old(self).pos() as nat), TokenType::Colon, old(self).filename@, old(self).end_pos()),
            final(self).ref_lines() == string_field_lines(tviews(old(self).lexer.tokens@), old(self).pos() as nat, old(self).ref_lines()),
    {
        let t = self.next();
        let field = string_chars(&t.value);
        let line = t.location.line;
        self.expect(TokenType::Colon)?;
        let val = self.read_field_value(line);
        if crate::text::eq_lit(&field, "goal") {
            self.workflow.goal = string_of(&val);
        } else if crate::text::eq_lit(&field, "start") {
            self.workflow.start = string_of(&val);
            self.start_line = line;
        } else if crate::text::eq_lit(&field, "exit") {
            self.workflow.exit = string_of(&val);
            self.exit_line = line;
        } else if crate::text::eq_lit(&field, "version") {
            self.workflow.version = string_of(&val);
        }
        Ok(())
    }

    /// An identifier that is no block of the workflow: a step of a known
    /// kind, or an error.
    fn dispatch_workflow_default(&mut self, value: &[char]) -> (r: Result<(), ()>)
        requires
            ttype_at(tviews(old(self).lexer.tokens@), old(self).pos() as nat) == TokenType::Identifier,
            value@ == tvalue_at(tviews(old(self).lexer.tokens@), old(self).pos() as nat),
            old(self).wf(),
        ensures
            final(self).wf(),
            old(self).moved(&*final(self)),
            old(self).has_tokens() ==> final(self).pos() > old(self).pos(),
            final(self).start_line == old(self).start_line,
            final(self).exit_line == old(self).exit_line,
            final(self).restart_target_line == old(self).restart_target_line,
            match crate::ir::kind_of_name(value@) {
                Some(kind) => {
                    let (v, e, ok) = node_s(
                        tviews(old(self).lexer.tokens@),
                        views(old(self).lexer.lines@),
                        old(self).pos() as nat,
                        kind,
                        wf_view(old(self).workflow),
                    );
                    &&& wf_view(final(self).workflow) == v
                    &&& final(self).pos() == e
                    &&& (r is Ok) == ok
                },
                None => {
                    &&& wf_view(final(self).workflow) == wf_view(old(self).workflow)
                    &&& final(self).pos() == old(self).pos() as nat + 1
                    &&& r is Ok
                },
            },
            dviews(final(self).diagnostics@) == dviews(old(self).diagnostics@) + match crate::ir::kind_of_name(value@) {
                Some(kind) => node_d(tviews(old(self).lexer.tokens@), views(old(self).lexer.lines@), old(self).pos() as nat, kind, old(self).filename@, old(self).end_pos()),
                None => seq![
                    (KindView::Other, "unexpected top-level identifier: "@ + value@, old(self).filename@, tpos(tviews(old(self).lexer.tokens@), old(self).pos() as nat, old(self).end_pos()).0, tpos(tviews(old(self).lexer.tokens@), old(self).pos() as nat, old(self).end_pos()).1),
                ],
            },
    {
        match node_kind_from_name(value) {
            Some(kind) => self.parse_node(kind),
            None => {
                let t = self.peek();
                let mut msg: Vec<char> = Vec::new();
                push_lit(&mut msg, "unexpected top-level identifier: ");
                push_chars(&mut msg, value);
                self.push_diag(DiagnosticKind::Other, &msg, &t.location);
                self.next();
                Ok(())
            },
        }
    }

    /// Sends an identifier of the workflow body to the reader of its block.
    fn dispatch_workflow_field(&mut self, value: &[char]) -> (r: Result<(), ()>)
        requires
            ttype_at(tviews(old(self).lexer.tokens@), old(self).pos() as nat) == TokenType::Identifier,
            value@ == tvalue_at(tviews(old(self).lexer.tokens@), old(self).pos() as nat),
            old(self).wf(),
        ensures
            final(self).wf(),
            old(self).moved(&*final(self)),
            old(self).has_tokens() ==> final(self).pos() > old(self).pos(),
            ({
                let (v, e, ok) = dispatch_s(tviews(old(self).lexer.tokens@), views(old(self).lexer.lines@), old(self).pos() as nat, wf_view(old(self).workflow));
                &&& wf_view(final(self).workflow) == v
                &&& final(self).pos() == e
                &&& (r is Ok) == ok
            }),
            dviews(final(self).diagnostics@) == dviews(old(self).diagnostics@) + dispatch_d(tviews(old(self).lexer.tokens@), views(old(self).lexer.lines@), old(self).pos() as nat, old(self).filename@, old(self).end_pos()),
            final(self).ref_lines() == dispatch_lines(tviews(old(self).lexer.tokens@), old(self).pos() as nat, old(self).ref_lines()),
    {
        if crate::text::eq_lit(value, "goal") || crate::text::eq_lit(value, "start")
            || crate::text::eq_lit(value, "exit") || crate::text::eq_lit(value, "version") {
            self.parse_workflow_string_field()
        } else if crate::text::eq_lit(value, "defaults") {
            self.parse_defaults()
        } else if crate::text::eq_lit(value, "edges") {
            self.parse_edges()
        } else if crate::text::eq_lit(value, "stylesheet") {
            self.parse_stylesheet()
        } else if crate::text::eq_lit(value, "parallel") {
            self.parse_parallel()
        } else if crate::text::eq_lit(value, "fan_in") {
            self.parse_fan_in()
        } else {
            self.dispatch_workflow_default(value)
        }
    }

    /// Reads the body of the workflow up to the end of its block.
    fn parse_workflow_body(&mut self)
        requires
            old(self).wf(),
        ensures
            final(self).wf(),
            old(self).moved(&*final(self)),
            ({
                let (v, e) = body_s(tviews(old(self).lexer.tokens@), views(old(self).lexer.lines@), old(self).pos() as nat, wf_view(old(self).workflow));
                &&& wf_view(final(self).workflow) == v
                &&& final(self).pos() == e
            }),
            dviews(final(self).diagnostics@) == dviews(old(self).diagnostics@) + body_d(tviews(old(self).lexer.tokens@), views(old(self).lexer.lines@), old(self).pos() as nat, wf_view(old(self).workflow), old(self).filename@, old(self).end_pos()),
            final(self).ref_lines() == body_lines(tviews(old(self).lexer.tokens@), views(old(self).lexer.lines@), old(self).pos() as nat, wf_view(old(self).workflow), old(self).ref_lines()),
    {
        let ghost toks = tviews(self.lexer.tokens@);
        let ghost ls = views(self.lexer.lines@);
        let ghost goal = body_s(toks, ls, self.pos() as nat, wf_view(self.workflow));
        loop
            invariant
                self.wf(),
                old(self).moved(&*self),
                toks == tviews(self.lexer.tokens@),
                ls == views(self.lexer.lines@),
                goal == body_s(tviews(old(self).lexer.tokens@), views(old(self).lexer.lines@), old(self).pos() as nat, wf_view(old(self).workflow)),
                body_s(toks, ls, self.pos() as nat, wf_view(self.workflow)) == goal,
                dviews(self.diagnostics@) + body_d(tviews(self.lexer.tokens@), views(self.lexer.lines@), self.pos() as nat, wf_view(self.workflow), self.filename@, self.end_pos()) == dviews(old(self).diagnostics@) + body_d(tviews(old(self).lexer.tokens@), views(old(self).lexer.lines@), old(self).pos() as nat, wf_view(old(self).workflow), old(self).filename@, old(self).end_pos()),
                body_lines(tviews(self.lexer.tokens@), views(self.lexer.lines@), self.pos() as nat, wf_view(self.workflow), self.ref_lines()) == body_lines(tviews(old(self).lexer.tokens@), views(old(self).lexer.lines@), old(self).pos() as nat, wf_view(old(self).workflow), old(self).ref_lines()),
            decreases self.lexer.tokens@.len() - self.lexer.token_idx,
        {
            let t = self.peek();
            if t.token_type == TokenType::Outdent || t.token_type == TokenType::Eof {
                return;
            }
            if t.token_type == TokenType::Newline {
                self.next();
            } else if t.token_type == TokenType::Identifier {
                let v = string_chars(&t.value);
                if self.dispatch_workflow_field(&v).is_err() {
                    self.sync_to_newline();
                }
            } else {
                self.next();
            }
        }
    }

    /// Reads `workflow Name` and its block; a second declaration is
    /// recorded as `DuplicateWorkflow`.
    fn parse_workflow(&mut self) -> (r: Result<(), ()>)
        requires
            old(self).wf(),
        ensures
            final(self).wf(),
            old(self).moved(&*final(self)),
            old(self).has_tokens() ==> final(self).pos() > old(self).pos(),
            ({
                let (v, e, ok) = workflow_s(tviews(old(self).lexer.tokens@), views(old(self).lexer.lines@), old(self).pos() as nat, wf_view(old(self).workflow));
                &&& wf_view(final(self).workflow) == v
                &&& final(self).pos() == e
                &&& (r is Ok) == ok
            }),
            dviews(final(self).diagnostics@) == dviews(old(self).diagnostics@) + workflow_d(tviews(old(self).lexer.tokens@), views(old(self).lexer.lines@), old(self).pos() as nat, wf_view(old(self).workflow), old(self).filename@, old(self).end_pos()),
            final(self).ref_lines() == workflow_lines(tviews(old(self).lexer.tokens@), views(old(self).lexer.lines@), old(self).pos() as nat, wf_view(old(self).workflow), old(self).ref_lines()),
    {
        let kw = self.next();
        if !self.workflow.name.as_str().is_empty() {
            let msg = chars_of("duplicate workflow declaration");
            self.push_diag(DiagnosticKind::DuplicateWorkflow, &msg, &kw.location);
        }
        let name = self.expect_identifier(&chars_of("workflow"))?.value;
        self.workflow.name = name;
        self.expect(TokenType::Newline)?;
        self.expect(TokenType::Indent)?;
        self.parse_workflow_body();
        self.expect(TokenType::Outdent)?;
        Ok(())
    }

    /// Reads the whole token stream, looking for workflow declarations.
    fn parse_top_level(&mut self)
        requires
            old(self).wf(),
        ensures
            final(self).wf(),
            old(self).moved(&*final(self)),
            wf_view(final(self).workflow) == top_s(tviews(old(self).lexer.tokens@), views(old(self).lexer.lines@), old(self).pos() as nat, wf_view(old(self).workflow)),
            dviews(final(self).diagnostics@) == dviews(old(self).diagnostics@) + top_d(tviews(old(self).lexer.tokens@), views(old(self).lexer.lines@), old(self).pos() as nat, wf_view(old(self).workflow), old(self).filename@, old(self).end_pos()),
            final(self).ref_lines() == top_lines(tviews(old(self).lexer.tokens@), views(old(self).lexer.lines@), old(self).pos() as nat, wf_view(old(self).workflow), old(self).ref_lines()),
    {
        let ghost toks = tviews(self.lexer.tokens@);
        let ghost ls = views(self.lexer.lines@);
        let ghost goal = top_s(toks, ls, self.pos() as nat, wf_view(self.workflow));
        loop
            invariant
                self.wf(),
                old(self).moved(&*self),
                toks == tviews(self.lexer.tokens@),
                ls == views(self.lexer.lines@),
                goal == top_s(tviews(old(self).lexer.tokens@), views(old(self).lexer.lines@), old(self).pos() as nat, wf_view(old(self).workflow)),
                top_s(toks, ls, self.pos() as nat, wf_view(self.workflow)) == goal,
                dviews(self.diagnostics@) + top_d(tviews(self.lexer.tokens@), views(self.lexer.lines@), self.pos() as nat, wf_view(self.workflow), self.filename@, self.end_pos()) == dviews(old(self).diagnostics@) + top_d(tviews(old(self).lexer.tokens@), views(old(self).lexer.lines@), old(self).pos() as nat, wf_view(old(self).workflow), old(self).filename@, old(self).end_pos()),
                top_lines(tviews(self.lexer.tokens@), views(self.lexer.lines@), self.pos() as nat, wf_view(self.workflow), self.ref_lines()) == top_lines(tviews(old(self).lexer.tokens@), views(old(self).lexer.lines@), old(self).pos() as nat, wf_view(old(self).workflow), old(self).ref_lines()),
            decreases self.lexer.tokens@.len() - self.lexer.token_idx,
        {
            let t = self.peek();
            if t.token_type == TokenType::Eof {
                return;
            }
            let v = string_chars(&t.value);
            if t.token_type == TokenType::Newline {
                self.next();
            } else if t.token_type == TokenType::Identifier && crate::text::eq_lit(&v, "workflow") {
                if self.parse_workflow().is_err() {
                    self.sync_to_newline();
                }
            } else {
                self.next();
            }
        }
    }
}

} // verus!

verus! {

/// The diagnostic for a source that declares no workflow: no name and no
/// step.
pub open spec fn empty_workflow_d(v: WfView, f: Seq<char>) -> Seq<DiagView> {
    if v.name.len() > 0 || v.steps.len() > 0 {
        Seq::empty()
    } else {
        seq![(KindView::EmptyWorkflow, "no workflow declared"@, f, 1nat, 1nat)]
    }
}

impl Parser {
    /// The name of the file being parsed.
    pub closed spec fn file_name(&self) -> Seq<char> {
        self.filename@
    }

    /// The diagnostics the lexer found.
    pub closed spec fn lex_diagnostics(&self) -> Seq<Diagnostic> {
        self.lexer.diagnostics@
    }

    /// The diagnostics the parser has recorded.
    pub closed spec fn parse_diagnostics(&self) -> Seq<Diagnostic> {
        self.diagnostics@
    }

    /// The tokens the lexer produced, each as (type, text, line, column).
    pub closed spec fn tokens(&self) -> Seq<TokView> {
        tviews(self.lexer.tokens@)
    }

    /// The lines of the source.
    pub closed spec fn source_lines(&self) -> Seq<Seq<char>> {
        views(self.lexer.lines@)
    }

    /// What has been built so far: the workflow's name, fields, steps and
    /// edges.
    pub closed spec fn built(&self) -> WfView {
        wf_view(self.workflow)
    }

    /// A parser over `input`, which `filename` names in diagnostics.
    pub fn new(input: &str, filename: &str) -> (r: Self)
        requires
            input@.len() + 3 < usize::MAX,
        ensures
            r.wf(),
            r.file_name() == filename@,
            r.pos() == 0,
            r.built() == crate::reading::empty_view(),
            r.parse_diagnostics().len() == 0,
            r.ref_lines() == (1nat, 1nat, 1nat),
            r.source_lines() == crate::lexer::source_lines(input@),
            r.tokens() == crate::lexer::finished_toks(crate::lexer::lex_run(input@, filename@)),
            r.end_pos() == (crate::lexer::lex_run(input@, filename@).line, 1nat),
            dviews(r.lex_diagnostics()) == crate::lexer::lex_run(input@, filename@).diags,
    {
        let lexer = Lexer::new(input, filename);
        proof {
            crate::lexer::lemma_lexer_fields(lexer);
        }
        let f = chars_of(filename);
        let workflow = Workflow::default();
        proof {
            assert(workflow.name@ =~= Seq::<char>::empty());
            assert(workflow.version@ =~= Seq::<char>::empty());
            assert(workflow.goal@ =~= Seq::<char>::empty());
            assert(workflow.start@ =~= Seq::<char>::empty());
            assert(workflow.exit@ =~= Seq::<char>::empty());
            assert(crate::reading::steps_of(workflow.nodes@) =~= Seq::empty());
            assert(edge_specs(workflow.edges@) =~= Seq::empty());
            assert(workflow.stylesheet@.map_values(|x: StylesheetRule| rule_view(x)) =~= Seq::empty());
            let d = workflow.defaults;
            assert(d.model@ =~= Seq::<char>::empty() && d.provider@ =~= Seq::<char>::empty());
            assert(d.retry_policy@ =~= Seq::<char>::empty() && d.fidelity@ =~= Seq::<char>::empty());
            assert(d.restart_target@ =~= Seq::<char>::empty() && d.compaction@ =~= Seq::<char>::empty());
            assert(d.on_resume@ =~= Seq::<char>::empty());
        }
        Parser {
            lexer,
            diagnostics: Vec::new(),
            workflow,
            filename: string_of(&f),
            start_line: 1,
            exit_line: 1,
            restart_target_line: 1,
        }
    }

    /// Parses the input into a workflow, or returns every diagnostic found:
    /// those of the parser, an `EmptyWorkflow` when no workflow was
    /// declared, those of the lexer, and one `UndefinedNodeReference` per
    /// reference to an undeclared step.
    pub fn parse(self) -> (r: Result<Workflow, Error>)
        requires
            self.wf(),
        ensures
            r matches Ok(w) ==> crate::validate::refs_resolved(w) && (w.name@.len() > 0
                || w.nodes@.len() > 0),
            r matches Err(Error::Parse { file, diagnostics }) ==> file@ == self.file_name()
                && diagnostics@.len() > 0 && all_errors(diagnostics@) && diags_in(
                diagnostics@,
                self.file_name(),
            ),
            self.lex_diagnostics().len() > 0 ==> r is Err,
            r matches Ok(w) ==> located_in(w, self.file_name()),
            r matches Ok(w) ==> wf_view(w) == top_s(
                self.tokens(),
                self.source_lines(),
                self.pos() as nat,
                self.built(),
            ),
            ({
                let v = top_s(self.tokens(), self.source_lines(), self.pos() as nat, self.built());
                let td = top_d(
                    self.tokens(),
                    self.source_lines(),
                    self.pos() as nat,
                    self.built(),
                    self.file_name(),
                    self.end_pos(),
                );
                (r is Ok) == (self.parse_diagnostics().len() == 0 && td.len() == 0 && (v.name.len() > 0
                    || v.steps.len() > 0) && self.lex_diagnostics().len() == 0
                    && crate::reading::resolved_v(v))
            }),
            r matches Err(Error::Parse { file, diagnostics }) ==> dviews(diagnostics@) == dviews(
                self.parse_diagnostics(),
            ) + top_d(
                self.tokens(),
                self.source_lines(),
                self.pos() as nat,
                self.built(),
                self.file_name(),
                self.end_pos(),
            ) + empty_workflow_d(
                top_s(self.tokens(), self.source_lines(), self.pos() as nat, self.built()),
                self.file_name(),
            ) + dviews(self.lex_diagnostics()) + crate::reading::validate_v(
                top_s(self.tokens(), self.source_lines(), self.pos() as nat, self.built()),
                self.file_name(),
                top_lines(self.tokens(), self.source_lines(), self.pos() as nat, self.built(), self.ref_lines()),
            ),
    {
        let mut p = self;
        p.parse_top_level();
        let fname = string_chars(&p.filename);
        if p.workflow.name.as_str().is_empty() && p.workflow.nodes.len() == 0 {
            let msg = chars_of("no workflow declared");
            let loc = SourceLocation { file: string_of(&fname), line: 1, column: 1 };
            let ghost d0 = dviews(p.diagnostics@);
            p.push_diag(DiagnosticKind::EmptyWorkflow, &msg, &loc);
            assert(dviews(p.diagnostics@) =~= d0 + seq![dview(p.diagnostics@.last())]);
        }
        let mut lexd = p.lexer.into_diagnostics();
        let ghost before = p.diagnostics@;
        let ghost lexd0 = lexd@;
        p.diagnostics.append(&mut lexd);
        assert(dviews(p.diagnostics@) =~= dviews(before) + dviews(lexd0));
        assert forall|k: int| 0 <= k < p.diagnostics@.len() implies (#[trigger] p.diagnostics@[k]).severity
            == crate::error::Severity::Error && p.diagnostics@[k].location.file@ == p.filename@ by {
            if k >= before.len() {
                assert(p.diagnostics@[k] == self.lexer.diagnostics@[k - before.len()]);
            }
        }
        let mut vd = crate::validate::validate_with_lines(
            &p.workflow,
            &fname,
            p.start_line,
            p.exit_line,
            p.restart_target_line,
        );
        proof {
            crate::reading::lemma_resolved_view(p.workflow);
            crate::validate::lemma_validation_clean_iff_resolved(
                p.workflow,
                fname@,
                p.start_line as nat,
                p.exit_line as nat,
                p.restart_target_line as nat,
            );
            if vd@.len() == 0 {
                assert(dviews(vd@).len() == 0);
            } else {
                assert(dviews(vd@).len() > 0);
            }
        }
        let ghost mid = p.diagnostics@;
        let ghost vds = vd@;
        p.diagnostics.append(&mut vd);
        proof {
            assert(dviews(p.diagnostics@) =~= dviews(mid) + dviews(vds));
            crate::reading::lemma_validate_view(
                p.workflow,
                fname@,
                p.start_line as nat,
                p.exit_line as nat,
                p.restart_target_line as nat,
            );
        }
        assert forall|k: int| 0 <= k < p.diagnostics@.len() implies (#[trigger] p.diagnostics@[k]).severity
            == crate::error::Severity::Error && p.diagnostics@[k].location.file@ == p.filename@ by {
            if k >= mid.len() {
                assert(p.diagnostics@[k] == vds[k - mid.len()]);
            } else {
                assert(p.diagnostics@[k] == mid[k]);
            }
        }
        if p.diagnostics.len() > 0 {
            return Err(Error::Parse { file: p.filename, diagnostics: p.diagnostics });
        }
        Ok(p.workflow)
    }
}

} // verus!

verus! {

proof fn lemma_quote_body_len(s: Seq<char>)
    ensures
        crate::export_dot::quote_body(s).len() >= s.len(),
    decreases s.len(),
{
    if s.len() > 0 {
        if s[0] == '\\' && s.len() > 1 && crate::export_dot::is_dot_escape(s[1]) {
            lemma_quote_body_len(s.skip(2));
        } else {
            lemma_quote_body_len(s.drop_first());
        }
    }
}

/// Unescaping the inside of a quoted DOT string gives back the text.
proof fn lemma_unescape_quote_body(s: Seq<char>)
    ensures
        unescape_s(crate::export_dot::quote_body(s)) == s,
    decreases s.len(),
{
    let q = crate::export_dot::quote_body(s);
    if s.len() > 0 {
        let t = s.drop_first();
        if s[0] == '"' {
            lemma_unescape_quote_body(t);
            assert(q.skip(2) =~= crate::export_dot::quote_body(t));
            assert(s =~= seq!['"'] + t);
        } else if s[0] == '\\' {
            if s.len() > 1 && crate::export_dot::is_dot_escape(s[1]) {
                let u = s.skip(2);
                lemma_unescape_quote_body(u);
                let q1 = q.drop_first();
                assert(q1 =~= seq![s[1]] + crate::export_dot::quote_body(u));
                assert(q1.drop_first() =~= crate::export_dot::quote_body(u));
                assert(unescape_s(q1) == seq![s[1]] + u);
                assert(s =~= seq!['\\', s[1]] + u);
            } else {
                lemma_unescape_quote_body(t);
                assert(q.skip(2) =~= crate::export_dot::quote_body(t));
                assert(s =~= seq!['\\'] + t);
            }
        } else {
            lemma_unescape_quote_body(t);
            assert(q.drop_first() =~= crate::export_dot::quote_body(t));
            assert(s =~= seq![s[0]] + t);
        }
    }
}

/// `unquote_raw` undoes `dot_quote` and `dot_id`; `dot_id` leaves a text as
/// it is exactly when it is a simple identifier, and quotes it otherwise.
pub proof fn lemma_unquote_undoes_quoting(s: Seq<char>)
    ensures
        unquote_s(crate::export_dot::dot_quote_s(s)) == s,
        unquote_s(crate::export_dot::dot_id_s(s)) == s,
        (crate::export_dot::dot_id_s(s) == s) == crate::export_dot::simple_id(s),
        !crate::export_dot::simple_id(s) ==> ({
            let d = crate::export_dot::dot_id_s(s);
            d.len() >= 2 && d[0] == '"' && d.last() == '"'
        }),
{
    let q = crate::export_dot::dot_quote_s(s);
    let b = crate::export_dot::quote_body(s);
    lemma_unescape_quote_body(s);
    lemma_quote_body_len(s);
    assert(q.subrange(1, q.len() - 1) =~= b);
    if s.len() == 0 {
        assert(unescape_s(Seq::<char>::empty()) =~= Seq::<char>::empty());
        assert(seq!['"', '"'].subrange(1, 1) =~= Seq::<char>::empty());
    } else if crate::export_dot::simple_id(s) {
        assert(crate::export_dot::is_ascii_alnum_s(s[0]) || s[0] == '_');
    } else {
        assert(q.len() == b.len() + 2);
    }
}

/// Two different texts never get the same DOT identifier.
pub proof fn lemma_dot_id_injective(s1: Seq<char>, s2: Seq<char>)
    requires
        crate::export_dot::dot_id_s(s1) == crate::export_dot::dot_id_s(s2),
    ensures
        s1 == s2,
{
    lemma_unquote_undoes_quoting(s1);
    lemma_unquote_undoes_quoting(s2);
}

} // verus!

verus! {

/// An edge line `X -> Y weight: N`, with `N` a decimal numeral of a value
/// that fits in 32 bits, gives an edge from `X` to `Y` of weight `N`.
pub proof fn lemma_edge_weight_read(toks: Seq<TokView>, i: nat, n: nat)
    requires
        i + 6 < toks.len(),
        toks[i as int].0 == TokenType::Identifier,
        toks[i + 1int].0 == TokenType::Arrow,
        toks[i + 2int].0 == TokenType::Identifier,
        toks[i + 3int].0 == TokenType::Identifier,
        toks[i + 3int].1 == "weight"@,
        toks[i + 4int].0 == TokenType::Colon,
        toks[i + 5int].0 != TokenType::Newline && toks[i + 5int].0 != TokenType::Eof,
        toks[i + 5int].1 == crate::text::decimal(n),
        n <= u32::MAX,
        toks[i + 6int].0 == TokenType::Newline,
    ensures
        single_edge_s(toks, i).2,
        single_edge_s(toks, i).0 matches Some(es) && es.from == toks[i as int].1 && es.to
            == toks[i + 2int].1 && es.attrs.weight == n,
{
    crate::duration::lemma_decimal_digits(n);
    let d = crate::text::decimal(n);
    assert(d[0] != '+') by {
        assert(is_digit(d[0]));
    }
    assert(all_digits(d));
    assert(u32_text(d) == Some(n));
    reveal_strlit("weight");
    reveal_strlit("when");
    reveal_strlit("label");
    assert("weight"@ != "when"@) by {
        assert("weight"@[1] != "when"@[1]);
    }
    assert("weight"@ != "label"@) by {
        assert("weight"@.len() != "label"@.len());
    }
    let a2 = EdgeAttrs { label: Seq::empty(), cond: None, weight: n, restart: false };
    assert(step(toks, i + 5) == i + 6);
    assert(edge_attrs_s(toks, i + 6, a2) == (a2, i + 6, true));
    assert(edge_attrs_s(toks, i + 3, no_attrs()) == (a2, (i + 6) as nat, true));
}

} // verus!
