//! Indentation-aware tokenizer for the Dippin workflow language. It works on
//! characters: every column it reports is a 1-based character offset.
use vstd::prelude::*;
use crate::error::{Diagnostic, DiagnosticKind, KindView, kview, dview, dviews, all_errors, diag};
use crate::ir::SourceLocation;
use crate::text::{debug_text, debug_quote, chars_of, string_of, trim, trim_s, trim_end, trim_end_s, is_ws, is_whitespace, slice_of, find_char, find_s, lemma_find_s, push_chars, push_lit, push_decimal, decimal, split_s, split_acc, split_char, views, join_s};
use vstd::utf8::{encode_utf8, encode_scalar};

verus! {

/// A space or a tab: the characters that make up indentation.
pub open spec fn is_blank(c: char) -> bool {
    c == ' ' || c == '\t'
}

/// The number of leading spaces and tabs of `s`.
pub open spec fn lead_ws(s: Seq<char>) -> nat
    decreases s.len(),
{
    if s.len() > 0 && is_blank(s[0]) {
        1 + lead_ws(s.drop_first())
    } else {
        0
    }
}

pub proof fn lemma_lead_ws(s: Seq<char>)
    ensures
        lead_ws(s) <= s.len(),
        forall|j: int| 0 <= j < lead_ws(s) ==> is_blank(#[trigger] s[j]),
        lead_ws(s) < s.len() ==> !is_blank(s[lead_ws(s) as int]),
    decreases s.len(),
{
    if s.len() > 0 && is_blank(s[0]) {
        lemma_lead_ws(s.drop_first());
        assert forall|j: int| 0 <= j < lead_ws(s) implies is_blank(#[trigger] s[j]) by {
            if j > 0 {
                assert(s[j] == s.drop_first()[j - 1]);
            }
        }
        if lead_ws(s) < s.len() {
            assert(s[lead_ws(s) as int] == s.drop_first()[lead_ws(s.drop_first()) as int]);
        }
    }
}

/// Counting leading blanks from position `i` on.
pub proof fn lemma_lead_ws_from(s: Seq<char>, i: int)
    requires
        0 <= i <= s.len(),
        forall|j: int| 0 <= j < i ==> is_blank(#[trigger] s[j]),
    ensures
        lead_ws(s) == i + lead_ws(s.subrange(i, s.len() as int)),
    decreases i,
{
    if i > 0 {
        assert(is_blank(s[0]));
        assert forall|j: int| 0 <= j < i - 1 implies is_blank(#[trigger] s.drop_first()[j]) by {
            assert(s.drop_first()[j] == s[j + 1]);
        }
        lemma_lead_ws_from(s.drop_first(), i - 1);
        assert(s.drop_first().subrange(i - 1, s.drop_first().len() as int) =~= s.subrange(
            i,
            s.len() as int,
        ));
    } else {
        assert(s.subrange(0, s.len() as int) =~= s);
    }
}

/// The number of leading blanks of a character sequence.
pub fn indent_width(s: &[char]) -> (r: usize)
    ensures
        r == lead_ws(s@),
{
    let mut i: usize = 0;
    while i < s.len() && (s[i] == ' ' || s[i] == '\t')
        invariant
            0 <= i <= s@.len(),
            forall|j: int| 0 <= j < i ==> is_blank(#[trigger] s@[j]),
        decreases s@.len() - i,
    {
        i += 1;
    }
    proof {
        lemma_lead_ws_from(s@, i as int);
        let rest = s@.subrange(i as int, s@.len() as int);
        if rest.len() > 0 {
            assert(rest[0] == s@[i as int]);
        }
    }
    i
}

/// The number of leading spaces and tabs of a line.
pub fn line_indent(line: &str) -> (r: usize)
    ensures
        r == lead_ws(line@),
{
    let cs = chars_of(line);
    indent_width(cs.as_slice())
}

/// Whether a line is empty, blank, or a comment (its first non-space
/// character is `#`).
pub open spec fn blank_or_comment(s: Seq<char>) -> bool {
    trim_s(s).len() == 0 || trim_s(s)[0] == '#'
}

pub fn is_blank_or_comment_chars(s: &[char]) -> (r: bool)
    ensures
        r == blank_or_comment(s@),
{
    let t = trim(s);
    t.len() == 0 || t[0] == '#'
}

/// Whether a line is empty, blank, or a comment.
pub fn is_blank_or_comment(line: &str) -> (r: bool)
    ensures
        r == blank_or_comment(line@),
{
    let cs = chars_of(line);
    is_blank_or_comment_chars(cs.as_slice())
}

/// Scanning from position `i`, in or out of a double-quoted string, the
/// position of the first `#` outside quotes. Inside quotes a backslash hides
/// the character after it.
pub open spec fn hash_from(s: Seq<char>, i: nat, in_quote: bool) -> Option<nat>
    decreases s.len() - i,
{
    if i >= s.len() {
        None
    } else if in_quote {
        if s[i as int] == '\\' {
            if i + 1 < s.len() {
                hash_from(s, i + 2, true)
            } else {
                None
            }
        } else if s[i as int] == '"' {
            hash_from(s, i + 1, false)
        } else {
            hash_from(s, i + 1, true)
        }
    } else if s[i as int] == '"' {
        hash_from(s, i + 1, true)
    } else if s[i as int] == '#' {
        Some(i)
    } else {
        hash_from(s, i + 1, false)
    }
}

/// The position of the first unquoted `#`, counted in characters.
pub fn unquoted_hash(s: &[char]) -> (r: Option<usize>)
    ensures
        r matches Some(i) ==> i < s@.len(),
        r matches Some(i) ==> hash_from(s@, 0, false) == Some(i as nat),
        r is None ==> hash_from(s@, 0, false) is None,
{
    let mut i: usize = 0;
    let mut q = false;
    while i < s.len()
        invariant
            0 <= i,
            hash_from(s@, 0, false) == hash_from(s@, i as nat, q),
        decreases s@.len() - i,
    {
        if q {
            if s[i] == '\\' {
                if i + 1 < s.len() {
                    i = i + 2;
                } else {
                    return None;
                }
            } else {
                if s[i] == '"' {
                    q = false;
                }
                i = i + 1;
            }
        } else if s[i] == '"' {
            q = true;
            i = i + 1;
        } else if s[i] == '#' {
            return Some(i);
        } else {
            i = i + 1;
        }
    }
    None
}

/// The number of bytes `s` takes in UTF-8.
pub open spec fn byte_len(s: Seq<char>) -> nat {
    encode_utf8(s).len()
}

pub proof fn lemma_encode_concat(a: Seq<char>, b: Seq<char>)
    ensures
        encode_utf8(a + b) =~= encode_utf8(a) + encode_utf8(b),
    decreases a.len(),
{
    if a.len() > 0 {
        assert((a + b)[0] == a[0]);
        assert((a + b).drop_first() =~= a.drop_first() + b);
        lemma_encode_concat(a.drop_first(), b);
    } else {
        assert(a + b =~= b);
    }
}

pub proof fn lemma_encode_one(c: char)
    ensures
        encode_utf8(seq![c]) =~= encode_scalar(c as u32),
{
    assert(seq![c].drop_first() =~= Seq::<char>::empty());
    assert(encode_utf8(Seq::<char>::empty()) =~= Seq::<u8>::empty());
}

/// The byte offset of the first unquoted `#` of a line.
pub fn find_unquoted_hash(line: &str) -> (r: Option<usize>)
    ensures
        r matches Some(b) ==> exists|i: nat|
            hash_from(line@, 0, false) == Some(i) && b == byte_len(#[trigger] line@.take(i as int)),
        r is None ==> hash_from(line@, 0, false) is None,
{
    let cs = chars_of(line);
    let total = line.as_bytes().len();
    match unquoted_hash(cs.as_slice()) {
        None => None,
        Some(i) => {
            proof {
                assert(hash_from(cs@, 0, false) == Some(i as nat));
                if i >= cs@.len() {
                    assert(hash_from(cs@, i as nat, false) is None);
                }
            }
            let mut b: usize = 0;
            let mut k: usize = 0;
            while k < i
                invariant
                    k <= i <= cs@.len(),
                    cs@ == line@,
                    total == byte_len(line@),
                    b == byte_len(cs@.take(k as int)),
                decreases i - k,
            {
                let c = cs[k];
                let u = c as u32;
                let w: usize = if u < 0x80 {
                    1
                } else if u < 0x800 {
                    2
                } else if u < 0x10000 {
                    3
                } else {
                    4
                };
                proof {
                    vstd::utf8::char_is_scalar(c);
                    assert(cs@.take(k + 1) =~= cs@.take(k as int) + seq![c]);
                    lemma_encode_concat(cs@.take(k as int), seq![c]);
                    lemma_encode_one(c);
                    assert(encode_scalar(u).len() == w);
                    assert(cs@ =~= cs@.take(k + 1) + cs@.skip(k + 1));
                    lemma_encode_concat(cs@.take(k + 1), cs@.skip(k + 1));
                }
                b = b + w;
                k += 1;
            }
            Some(b)
        },
    }
}


/// Whether the `#` at position `idx` starts a comment: it is the first
/// non-blank character, or a space or tab stands before it.
pub open spec fn strippable(s: Seq<char>, idx: nat) -> bool {
    idx == lead_ws(s) || (idx > 0 && idx <= s.len() && is_blank(s[idx - 1]))
}

/// Whether the `#` at `idx` starts a comment.
pub fn is_strippable_hash(line: &[char], idx: usize) -> (r: bool)
    ensures
        r == strippable(line@, idx as nat),
{
    if idx == indent_width(line) {
        return true;
    }
    idx > 0 && idx <= line.len() && (line[idx - 1] == ' ' || line[idx - 1] == '\t')
}

/// A line without trailing whitespace and without a trailing comment.
pub open spec fn strip_comment_s(s: Seq<char>) -> Seq<char> {
    let t = trim_end_s(s);
    match hash_from(t, 0, false) {
        Some(i) => if strippable(t, i) && i <= t.len() {
            t.take(i as int)
        } else {
            t
        },
        None => t,
    }
}

pub fn strip_comment_chars(line: &[char]) -> (r: Vec<char>)
    ensures
        r@ == strip_comment_s(line@),
{
    let t = trim_end(line);
    match unquoted_hash(t.as_slice()) {
        Some(i) => {
            if is_strippable_hash(t.as_slice(), i) && i <= t.len() {
                slice_of(t.as_slice(), 0, i)
            } else {
                t
            }
        },
        None => t,
    }
}

/// A line without trailing whitespace and without a trailing comment.
pub fn strip_comment(line: &str) -> (r: String)
    ensures
        r@ == strip_comment_s(line@),
{
    let cs = chars_of(line);
    let r = strip_comment_chars(cs.as_slice());
    string_of(r.as_slice())
}

/// An ASCII letter or digit.
pub open spec fn alnum(c: char) -> bool {
    let u = c as u32;
    (48 <= u && u <= 57) || (65 <= u && u <= 90) || (97 <= u && u <= 122)
}

pub fn is_alpha_num(c: char) -> (r: bool)
    ensures
        r == alnum(c),
{
    let u = c as u32;
    (48 <= u && u <= 57) || (65 <= u && u <= 90) || (97 <= u && u <= 122)
}

/// A character of a field key: an ASCII letter or digit, or `_`.
pub open spec fn ident_rune(c: char) -> bool {
    alnum(c) || c == '_'
}

pub fn is_ident_rune(c: char) -> (r: bool)
    ensures
        r == ident_rune(c),
{
    is_alpha_num(c) || c == '_'
}

/// A character that may continue an identifier word: an ASCII letter or
/// digit, `_`, `-`, `.` or `/`.
pub open spec fn word_char(c: char) -> bool {
    alnum(c) || c == '_' || c == '-' || c == '.' || c == '/'
}

pub fn is_ident_word_char(c: char) -> (r: bool)
    ensures
        r == word_char(c),
{
    is_alpha_num(c) || c == '_' || c == '-' || c == '.' || c == '/'
}

/// A character that starts an operator.
pub open spec fn op_char(c: char) -> bool {
    c == '=' || c == '!' || c == '<' || c == '>'
}

pub fn is_operator_char(c: char) -> (r: bool)
    ensures
        r == op_char(c),
{
    c == '=' || c == '!' || c == '<' || c == '>'
}

/// Whether a line's content is a key followed by a colon and nothing else:
/// `prompt:`.
pub open spec fn key_colon_line(s: Seq<char>) -> bool {
    match find_s(s, ':') {
        Some(i) => i != 0 && (forall|j: int| 0 <= j < i ==> ident_rune(#[trigger] s[j])) && trim_s(
            s.skip(i as int + 1),
        ).len() == 0,
        None => false,
    }
}

pub fn is_key_colon_chars(content: &[char]) -> (r: bool)
    ensures
        r == key_colon_line(content@),
{
    proof {
        lemma_find_s(content@, ':');
    }
    match find_char(content, ':') {
        None => false,
        Some(ci) => {
            if ci == 0 {
                return false;
            }
            let mut j: usize = 0;
            while j < ci
                invariant
                    0 <= j <= ci < content@.len(),
                    ci < content.len(),
                    find_s(content@, ':') == Some(ci as nat),
                    forall|k: int| 0 <= k < j ==> ident_rune(#[trigger] content@[k]),
                decreases ci - j,
            {
                if !is_ident_rune(content[j]) {
                    assert(!ident_rune(content@[j as int]));
                    return false;
                }
                j += 1;
            }
            assert(ci < content@.len());
            let after = slice_of(content, ci + 1, content.len());
            assert(after@ =~= content@.skip(ci + 1));
            let t = trim(after.as_slice());
            t.len() == 0
        },
    }
}

/// Whether a line's content is `key:` and nothing else.
pub fn is_key_colon_line(content: &str) -> (r: bool)
    ensures
        r == key_colon_line(content@),
{
    let cs = chars_of(content);
    is_key_colon_chars(cs.as_slice())
}

/// `s` without trailing carriage returns.
pub open spec fn trim_end_cr(s: Seq<char>) -> Seq<char>
    decreases s.len(),
{
    if s.len() > 0 && s.last() == '\r' {
        trim_end_cr(s.drop_last())
    } else {
        s
    }
}

/// A block line with up to `indent` leading blanks removed (and trailing
/// carriage returns dropped first).
pub open spec fn strip_indent_s(s: Seq<char>, indent: nat) -> Seq<char> {
    let t = trim_end_cr(s);
    let k = if lead_ws(t) < indent {
        lead_ws(t)
    } else {
        indent
    };
    t.skip(k as int)
}

pub fn strip_indent_prefix(line: &[char], indent: usize) -> (r: Vec<char>)
    ensures
        r@ == strip_indent_s(line@, indent as nat),
{
    let mut end: usize = line.len();
    assert(line@.subrange(0, end as int) =~= line@);
    while end > 0 && line[end - 1] == '\r'
        invariant
            end <= line@.len(),
            trim_end_cr(line@) == trim_end_cr(line@.subrange(0, end as int)),
        decreases end,
    {
        assert(line@.subrange(0, end as int).drop_last() =~= line@.subrange(0, end - 1));
        end -= 1;
    }
    let t = slice_of(line, 0, end);
    let w = indent_width(t.as_slice());
    let k = if w < indent {
        w
    } else {
        indent
    };
    proof {
        lemma_lead_ws(t@);
    }
    slice_of(t.as_slice(), k, t.len())
}

/// `lines` without its trailing blank lines.
pub open spec fn drop_blank_tail(lines: Seq<Seq<char>>) -> Seq<Seq<char>>
    decreases lines.len(),
{
    if lines.len() > 0 && trim_s(lines.last()).len() == 0 {
        drop_blank_tail(lines.drop_last())
    } else {
        lines
    }
}

/// The lines without trailing blank ones, joined with newlines.
pub fn trim_trailing_blank_lines(lines: &Vec<Vec<char>>) -> (r: Vec<char>)
    ensures
        r@ == join_s(drop_blank_tail(views(lines@)), seq!['\n']),
{
    let mut end: usize = lines.len();
    assert(views(lines@).subrange(0, end as int) =~= views(lines@));
    while end > 0 && trim(lines[end - 1].as_slice()).len() == 0
        invariant
            end <= lines@.len(),
            drop_blank_tail(views(lines@)) == drop_blank_tail(views(lines@).subrange(0, end as int)),
        decreases end,
    {
        assert(views(lines@).subrange(0, end as int).drop_last() =~= views(lines@).subrange(
            0,
            end - 1,
        ));
        end -= 1;
    }
    let ghost kept = views(lines@).subrange(0, end as int);
    let mut out: Vec<char> = Vec::new();
    let mut i: usize = 0;
    while i < end
        invariant
            end <= lines@.len(),
            i <= end,
            kept == views(lines@).subrange(0, end as int),
            out@ == join_s(kept.subrange(0, i as int), seq!['\n']),
        decreases end - i,
    {
        assert(kept.subrange(0, i + 1).drop_last() =~= kept.subrange(0, i as int));
        if i > 0 {
            out.push('\n');
        } else {
            assert(kept.subrange(0, 1) =~= seq![kept[0]]);
        }
        push_chars(&mut out, lines[i].as_slice());
        i += 1;
    }
    assert(kept.subrange(0, end as int) =~= kept);
    out
}

/// The position after the blanks that start at `i`.
pub open spec fn skip_ws_s(s: Seq<char>, i: nat) -> nat {
    i + lead_ws(s.skip(i as int))
}

pub fn skip_whitespace(line: &[char], i: usize) -> (r: usize)
    requires
        i <= line@.len(),
    ensures
        r == skip_ws_s(line@, i as nat),
        i <= r <= line@.len(),
{
    let mut j: usize = i;
    while j < line.len() && (line[j] == ' ' || line[j] == '\t')
        invariant
            i <= j <= line@.len(),
            forall|k: int| i <= k < j ==> is_blank(#[trigger] line@[k]),
        decreases line@.len() - j,
    {
        j += 1;
    }
    proof {
        let rest = line@.skip(i as int);
        assert forall|k: int| 0 <= k < j - i implies is_blank(#[trigger] rest[k]) by {
            assert(rest[k] == line@[i + k]);
        }
        lemma_lead_ws_from(rest, j - i);
        let rr = rest.subrange(j - i, rest.len() as int);
        if rr.len() > 0 {
            assert(rr[0] == line@[j as int]);
        }
    }
    j
}

/// Reading a double-quoted string's contents from position `i`: the text
/// read (a backslash takes the character after it literally), the position
/// after the closing quote (or the end), and whether a closing quote came.
pub open spec fn quoted(s: Seq<char>, i: nat, acc: Seq<char>) -> (Seq<char>, nat, bool)
    decreases s.len() - i,
{
    if i >= s.len() {
        (acc, s.len(), false)
    } else if s[i as int] == '"' {
        (acc, i + 1, true)
    } else if s[i as int] == '\\' {
        if i + 1 < s.len() {
            quoted(s, i + 2, acc.push(s[i as int + 1]))
        } else {
            (acc, s.len(), false)
        }
    } else {
        quoted(s, i + 1, acc.push(s[i as int]))
    }
}

pub proof fn lemma_quoted_end(s: Seq<char>, i: nat, acc: Seq<char>)
    ensures
        i < s.len() ==> i < quoted(s, i, acc).1,
        quoted(s, i, acc).1 <= s.len() || quoted(s, i, acc).1 == i,
        i <= s.len() ==> quoted(s, i, acc).1 <= s.len(),
    decreases s.len() - i,
{
    if i < s.len() && s[i as int] != '"' {
        if s[i as int] == '\\' {
            if i + 1 < s.len() {
                lemma_quoted_end(s, i + 2, acc.push(s[i as int + 1]));
            }
        } else {
            lemma_quoted_end(s, i + 1, acc.push(s[i as int]));
        }
    }
}

pub fn read_quoted_content(line: &[char], start: usize) -> (r: (Vec<char>, usize, bool))
    requires
        start <= line@.len(),
    ensures
        (r.0@, r.1 as nat, r.2) == quoted(line@, start as nat, Seq::empty()),
{
    let mut content: Vec<char> = Vec::new();
    let mut i: usize = start;
    while i < line.len()
        invariant
            start <= i <= line@.len(),
            quoted(line@, start as nat, Seq::empty()) == quoted(line@, i as nat, content@),
        decreases line@.len() - i,
    {
        let c = line[i];
        if c == '"' {
            return (content, i + 1, true);
        }
        if c == '\\' {
            if i + 1 < line.len() {
                content.push(line[i + 1]);
                i = i + 2;
            } else {
                return (content, line.len(), false);
            }
        } else {
            content.push(c);
            i = i + 1;
        }
    }
    (content, line.len(), false)
}

/// A single-line value: kept as is when empty or when it starts with `#` or
/// a quote; otherwise its trailing comment is stripped and it is trimmed.
pub open spec fn maybe_strip_s(v: Seq<char>) -> Seq<char> {
    if v.len() == 0 || v[0] == '#' || v[0] == '"' {
        v
    } else {
        trim_s(strip_comment_s(v))
    }
}

pub fn maybe_strip_comment(val: &[char]) -> (r: Vec<char>)
    ensures
        r@ == maybe_strip_s(val@),
{
    if val.len() == 0 || val[0] == '#' || val[0] == '"' {
        return slice_of(val, 0, val.len());
    }
    let s = strip_comment_chars(val);
    trim(s.as_slice())
}


/// The kinds of token the lexer produces.
#[derive(Debug, Clone, Copy, PartialEq, Eq, Structural)]
pub enum TokenType {
    Error,
    Eof,
    Newline,
    Indent,
    Outdent,
    Keyword,
    Identifier,
    Operator,
    Literal,
    Colon,
    Comma,
    Arrow,
    BackArrow,
    LParen,
    RParen,
    RawBlock,
}

/// A token: its type, its text, and where it starts.
#[derive(Debug, Clone)]
pub struct Token {
    pub token_type: TokenType,
    pub value: String,
    pub location: SourceLocation,
}

/// A token's type, text, line and column.
pub type TokView = (TokenType, Seq<char>, nat, nat);

/// A token as (type, text, line, column).
pub open spec fn tview(t: Token) -> (TokenType, Seq<char>, nat, nat) {
    (t.token_type, t.value@, t.location.line as nat, t.location.column as nat)
}

pub open spec fn tviews(s: Seq<Token>) -> Seq<(TokenType, Seq<char>, nat, nat)> {
    s.map_values(|t: Token| tview(t))
}

impl Token {
    /// An identical copy of the token.
    pub fn duplicate(&self) -> (r: Token)
        ensures
            r == *self,
    {
        Token {
            token_type: self.token_type,
            value: self.value.clone(),
            location: SourceLocation {
                file: self.location.file.clone(),
                line: self.location.line,
                column: self.location.column,
            },
        }
    }
}

/// Builds a token.
pub fn make_token(token_type: TokenType, value: &[char], file: &String, line: usize, column: usize) -> (r: Token)
    ensures
        tview(r) == (token_type, value@, line as nat, column as nat),
        r.location.file == *file,
{
    Token {
        token_type,
        value: string_of(value),
        location: SourceLocation { file: file.clone(), line, column },
    }
}

/// Whether the two characters at `i` form `==`, `!=`, `<=` or `>=`.
pub open spec fn two_char_op(s: Seq<char>, i: nat) -> bool {
    i + 1 < s.len() && s[i as int + 1] == '=' && (s[i as int] == '=' || s[i as int] == '!'
        || s[i as int] == '<' || s[i as int] == '>')
}

/// The type of the token that starts at `i`, or none for a character that
/// starts no token.
pub open spec fn tok_type_at(s: Seq<char>, i: nat) -> Option<TokenType> {
    let c = s[i as int];
    if c == ':' {
        Some(TokenType::Colon)
    } else if c == ',' {
        Some(TokenType::Comma)
    } else if c == '(' {
        Some(TokenType::LParen)
    } else if c == ')' {
        Some(TokenType::RParen)
    } else if c == '-' && i + 1 < s.len() && s[i as int + 1] == '>' {
        Some(TokenType::Arrow)
    } else if c == '<' && i + 1 < s.len() && s[i as int + 1] == '-' {
        Some(TokenType::BackArrow)
    } else if op_char(c) {
        Some(TokenType::Operator)
    } else if c == '"' {
        Some(TokenType::Literal)
    } else if alnum(c) {
        Some(TokenType::Identifier)
    } else {
        None
    }
}

/// The end of the identifier word that continues at `j`.
pub open spec fn ident_end(s: Seq<char>, j: nat) -> nat
    decreases s.len() - j,
{
    if j < s.len() && word_char(s[j as int]) {
        ident_end(s, j + 1)
    } else {
        j
    }
}

pub proof fn lemma_ident_end(s: Seq<char>, j: nat)
    requires
        j <= s.len(),
    ensures
        j <= ident_end(s, j) <= s.len(),
    decreases s.len() - j,
{
    if j < s.len() && word_char(s[j as int]) {
        lemma_ident_end(s, j + 1);
    }
}

/// Where the token (or the unknown character) that starts at `i` ends.
pub open spec fn tok_end(s: Seq<char>, i: nat) -> nat {
    match tok_type_at(s, i) {
        Some(TokenType::Arrow) => i + 2,
        Some(TokenType::BackArrow) => i + 2,
        Some(TokenType::Operator) => if two_char_op(s, i) {
            i + 2
        } else {
            i + 1
        },
        Some(TokenType::Literal) => quoted(s, i + 1, Seq::empty()).1,
        Some(TokenType::Identifier) => ident_end(s, i + 1),
        _ => i + 1,
    }
}

/// The text of the token that starts at `i`: a string literal's contents,
/// otherwise the characters it spans.
pub open spec fn tok_value(s: Seq<char>, i: nat) -> Seq<char> {
    match tok_type_at(s, i) {
        Some(TokenType::Literal) => quoted(s, i + 1, Seq::empty()).0,
        _ => s.subrange(i as int, tok_end(s, i) as int),
    }
}

pub proof fn lemma_tok_end(s: Seq<char>, i: nat)
    requires
        i < s.len(),
    ensures
        i < tok_end(s, i) <= s.len(),
{
    match tok_type_at(s, i) {
        Some(TokenType::Literal) => lemma_quoted_end(s, i + 1, Seq::empty()),
        Some(TokenType::Identifier) => lemma_ident_end(s, i + 1),
        _ => {},
    }
}

/// The tokens of a line's content from position `i` on, each as (type, text,
/// line, column), where the content starts `indent` characters into line
/// number `line`.
pub open spec fn line_toks(s: Seq<char>, i: nat, line: nat, indent: nat) -> Seq<(TokenType, Seq<char>, nat, nat)>
    decreases s.len() - i,
{
    let j = skip_ws_s(s, i);
    if i > s.len() || j >= s.len() {
        Seq::empty()
    } else {
        proof {
            lemma_tok_end(s, j);
        }
        let rest = line_toks(s, tok_end(s, j), line, indent);
        match tok_type_at(s, j) {
            Some(t) => seq![(t, tok_value(s, j), line, indent + j + 1)] + rest,
            None => rest,
        }
    }
}

/// The problems found in a line's content from position `i` on, each as
/// (kind, message, line, column): a string literal that is never closed, or a
/// character that starts no token.
pub open spec fn line_problems(s: Seq<char>, i: nat, line: nat, indent: nat) -> Seq<(KindView, Seq<char>, nat, nat)>
    decreases s.len() - i,
{
    let j = skip_ws_s(s, i);
    if i > s.len() || j >= s.len() {
        Seq::empty()
    } else {
        proof {
            lemma_tok_end(s, j);
        }
        let rest = line_problems(s, tok_end(s, j), line, indent);
        match tok_type_at(s, j) {
            Some(TokenType::Literal) => if quoted(s, j + 1, Seq::empty()).2 {
                rest
            } else {
                seq![(KindView::UnterminatedString, "unterminated string literal"@, line, indent + j + 1)] + rest
            },
            None => seq![(KindView::UnknownCharacter(s.subrange(j as int, j as int + 1)), "unknown character "@ + debug_text(s.subrange(j as int, j as int + 1)), line, indent + j + 1)] + rest,
            _ => rest,
        }
    }
}

/// The effect of a token on the indentation depth.
pub open spec fn delta(t: Token) -> int {
    if t.token_type == TokenType::Indent {
        1
    } else if t.token_type == TokenType::Outdent {
        -1
    } else {
        0
    }
}

/// Indent tokens minus outdent tokens.
pub open spec fn depth(s: Seq<Token>) -> int
    decreases s.len(),
{
    if s.len() == 0 {
        0
    } else {
        depth(s.drop_last()) + delta(s.last())
    }
}

/// No prefix of the stream closes more blocks than it opened.
pub open spec fn prefix_ok(s: Seq<Token>) -> bool {
    forall|k: int| 0 <= k <= s.len() ==> depth(#[trigger] s.take(k)) >= 0
}

pub proof fn lemma_push_token(s: Seq<Token>, t: Token)
    requires
        prefix_ok(s),
        depth(s) + delta(t) >= 0,
    ensures
        prefix_ok(s.push(t)),
        depth(s.push(t)) == depth(s) + delta(t),
{
    let s2 = s.push(t);
    assert(s2.drop_last() =~= s);
    assert forall|k: int| 0 <= k <= s2.len() implies depth(#[trigger] s2.take(k)) >= 0 by {
        if k <= s.len() {
            assert(s2.take(k) =~= s.take(k));
        } else {
            assert(s2.take(k) =~= s2);
        }
    }
}

/// A well-formed indentation stack: it starts at column 0 and strictly rises.
pub open spec fn stack_ok(st: Seq<usize>) -> bool {
    &&& st.len() >= 1
    &&& st[0] == 0
    &&& forall|i: int, j: int| 0 <= i < j < st.len() ==> st[i] < st[j]
}

/// `a` begins with `b`.
pub open spec fn extends<T>(a: Seq<T>, b: Seq<T>) -> bool {
    b.len() <= a.len() && forall|k: int| 0 <= k < b.len() ==> #[trigger] a[k] == b[k]
}

pub proof fn lemma_extends_trans<T>(a: Seq<T>, b: Seq<T>, c: Seq<T>)
    requires
        extends(a, b),
        extends(b, c),
    ensures
        extends(a, c),
{
}

/// Every token names the file `f`.
pub open spec fn toks_in(s: Seq<Token>, f: Seq<char>) -> bool {
    forall|i: int| 0 <= i < s.len() ==> (#[trigger] s[i]).location.file@ == f
}

/// Every diagnostic names the file `f`.
pub open spec fn diags_in(s: Seq<Diagnostic>, f: Seq<char>) -> bool {
    forall|i: int| 0 <= i < s.len() ==> (#[trigger] s[i]).location.file@ == f
}

/// No token of `s` marks the end of input.
pub open spec fn no_eof(s: Seq<Token>) -> bool {
    forall|i: int| 0 <= i < s.len() ==> (#[trigger] s[i]).token_type != TokenType::Eof
}

/// How many entries of the indentation stack survive a line indented by
/// `indent`: the entries above it are popped, the bottom one never.
pub open spec fn keep_count(st: Seq<usize>, indent: nat) -> nat
    decreases st.len(),
{
    if st.len() > 1 && indent < st.last() {
        keep_count(st.drop_last(), indent)
    } else {
        st.len()
    }
}

/// `n` tokens of type `t` with empty text at (`line`, `col`).
pub open spec fn repeat_tok(n: nat, t: TokenType, line: nat, col: nat) -> Seq<(TokenType, Seq<char>, nat, nat)> {
    Seq::new(n, |k: int| (t, Seq::<char>::empty(), line, col))
}

/// The message detail for a dedent that lands between enclosing blocks.
pub open spec fn dedent_detail(indent: nat) -> Seq<char> {
    "dedent to column "@ + decimal(indent) + " does not match any enclosing block"@
}

/// Every line, and the number of lines, is short enough that positions one
/// or two past them still fit a machine word.
pub open spec fn lines_fit(ls: Seq<Seq<char>>) -> bool {
    &&& ls.len() + 2 < usize::MAX
    &&& forall|k: int| 0 <= k < ls.len() ==> (#[trigger] ls[k]).len() + 2 < usize::MAX
}

/// An indentation-aware lexer over the lines of one source file.
pub struct Lexer {
    pub(crate) lines: Vec<Vec<char>>,
    pub(crate) line: usize,
    pub(crate) col: usize,
    pub(crate) indent_stack: Vec<usize>,
    pub(crate) tokens: Vec<Token>,
    pub(crate) token_idx: usize,
    pub(crate) filename: String,
    pub(crate) diagnostics: Vec<Diagnostic>,
}

/// The lexer while it is still reading its source: the same state, before
/// the token stream is finished.
struct Scanner {
    lines: Vec<Vec<char>>,
    line: usize,
    col: usize,
    indent_stack: Vec<usize>,
    tokens: Vec<Token>,
    token_idx: usize,
    filename: String,
    diagnostics: Vec<Diagnostic>,
}

impl Lexer {
    /// The tokens of the whole source.
    pub closed spec fn token_list(&self) -> Vec<Token> {
        self.tokens
    }

    /// The position of the next token to hand out.
    pub closed spec fn position(&self) -> usize {
        self.token_idx
    }

    /// The lines of the source.
    pub closed spec fn line_list(&self) -> Vec<Vec<char>> {
        self.lines
    }

    /// The name of the source file.
    pub closed spec fn file_name(&self) -> String {
        self.filename
    }

    /// The diagnostics found while lexing.
    pub closed spec fn diagnostic_list(&self) -> Vec<Diagnostic> {
        self.diagnostics
    }

    /// The line on which lexing ended.
    pub closed spec fn end_line(&self) -> usize {
        self.line
    }

    /// The column on which lexing ended.
    pub closed spec fn end_column(&self) -> usize {
        self.col
    }

    /// The indents of the blocks still open.
    pub closed spec fn indent_levels(&self) -> Vec<usize> {
        self.indent_stack
    }

    /// A finished token stream: one end-of-input token, last, and a
    /// position within the stream.
    pub closed spec fn well_formed(&self) -> bool {
        &&& self.tokens@.len() > 0
        &&& self.tokens@.last().token_type == TokenType::Eof
        &&& no_eof(self.tokens@.drop_last())
        &&& self.token_idx <= self.tokens@.len()
    }

    /// What holds of every lexer at every moment: the position is within the
    /// tokens, and an end-of-input token can only be the last one.
    #[verifier::type_invariant]
    pub(crate) open spec fn eof_only_last(&self) -> bool {
        &&& self.token_idx <= self.tokens@.len()
        &&& no_eof(self.tokens@.drop_last())
    }

    /// Every token has been handed out.
    pub closed spec fn exhausted(&self) -> bool {
        self.token_idx >= self.tokens@.len()
    }

}

impl Scanner {
    /// The lexing invariant: a well-formed indentation stack whose height
    /// matches the open blocks of the token stream, and every token and
    /// diagnostic in this file.
    pub closed spec fn inv(&self) -> bool {
        &&& stack_ok(self.indent_stack@)
        &&& depth(self.tokens@) == self.indent_stack@.len() - 1
        &&& prefix_ok(self.tokens@)
        &&& toks_in(self.tokens@, self.filename@)
        &&& diags_in(self.diagnostics@, self.filename@)
        &&& all_errors(self.diagnostics@)
        &&& lines_fit(views(self.lines@))
        &&& no_eof(self.tokens@)
    }

    /// Appends a token that opens or closes no block.
    fn push_plain(&mut self, token_type: TokenType, value: &[char], line: usize, column: usize)
        requires
            old(self).inv(),
            token_type != TokenType::Indent && token_type != TokenType::Outdent,
            token_type != TokenType::Eof,
        ensures
            final(self).inv(),
            tviews(final(self).tokens@) == tviews(old(self).tokens@).push(
                (token_type, value@, line as nat, column as nat),
            ),
            final(self).tokens@.last().token_type == token_type,
            final(self).tokens@.drop_last() == old(self).tokens@,
            extends(final(self).tokens@, old(self).tokens@),
            final(self).indent_stack == old(self).indent_stack,
            final(self).diagnostics == old(self).diagnostics,
            final(self).lines == old(self).lines,
            final(self).filename == old(self).filename,
            final(self).line == old(self).line,
            final(self).col == old(self).col,
            final(self).token_idx == old(self).token_idx,
    {
        let t = make_token(token_type, value, &self.filename, line, column);
        proof {
            lemma_push_token(self.tokens@, t);
        }
        self.tokens.push(t);
        proof {
            assert(tviews(self.tokens@) =~= tviews(old(self).tokens@).push(
                (token_type, value@, line as nat, column as nat),
            ));
            assert(self.tokens@.drop_last() =~= old(self).tokens@);
            assert(self.tokens@.take(old(self).tokens@.len() as int) =~= old(self).tokens@);
        }
    }

    /// Records an error diagnostic.
    fn push_diag(&mut self, kind: DiagnosticKind, message: &[char], line: usize, column: usize)
        requires
            old(self).inv(),
        ensures
            extends(final(self).diagnostics@, old(self).diagnostics@),
            final(self).inv(),
            dviews(final(self).diagnostics@) == dviews(old(self).diagnostics@).push(
                (kview(kind), message@, old(self).filename@, line as nat, column as nat),
            ),
            final(self).tokens == old(self).tokens,
            final(self).indent_stack == old(self).indent_stack,
            final(self).lines == old(self).lines,
            final(self).filename == old(self).filename,
            final(self).line == old(self).line,
            final(self).col == old(self).col,
            final(self).token_idx == old(self).token_idx,
    {
        let f = chars_of(self.filename.as_str());
        let d = diag(kind, message, f.as_slice(), line, column);
        self.diagnostics.push(d);
        proof {
            assert(dviews(self.diagnostics@) =~= dviews(old(self).diagnostics@).push(
                (kview(kind), message@, old(self).filename@, line as nat, column as nat),
            ));
        }
    }

    /// Emits an indent token when `indent` is deeper than the current block,
    /// otherwise an outdent token for each block it closes; a dedent that
    /// lands between enclosing blocks is diagnosed.
    fn emit_indent_tokens(&mut self, indent: usize)
        requires
            old(self).inv(),
        ensures
            extends(final(self).diagnostics@, old(self).diagnostics@),
            final(self).inv(),
            final(self).lines == old(self).lines,
            final(self).filename == old(self).filename,
            final(self).line == old(self).line,
            final(self).col == old(self).col,
            final(self).token_idx == old(self).token_idx,
            extends(final(self).tokens@, old(self).tokens@),
            ({
                let st = old(self).indent_stack@;
                let line = old(self).line as nat;
                if indent > st.last() {
                    &&& final(self).indent_stack@ == st.push(indent)
                    &&& tviews(final(self).tokens@) == tviews(old(self).tokens@).push(
                        (TokenType::Indent, Seq::<char>::empty(), line, 1),
                    )
                    &&& final(self).diagnostics == old(self).diagnostics
                } else {
                    let keep = keep_count(st, indent as nat);
                    &&& final(self).indent_stack@ == st.take(keep as int)
                    &&& tviews(final(self).tokens@) == tviews(old(self).tokens@) + repeat_tok(
                        (st.len() - keep) as nat,
                        TokenType::Outdent,
                        line,
                        1,
                    )
                    &&& if st[keep - 1] == indent {
                        final(self).diagnostics == old(self).diagnostics
                    } else {
                        dviews(final(self).diagnostics@) == dviews(old(self).diagnostics@).push(
                            (
                                KindView::InvalidIndentation(dedent_detail(indent as nat)),
                                "invalid dedent"@,
                                old(self).filename@,
                                line,
                                1,
                            ),
                        )
                    }
                }
            }),
    {
        let top = self.indent_stack[self.indent_stack.len() - 1];
        if indent > top {
            self.indent_stack.push(indent);
            let empty: Vec<char> = Vec::new();
            let t = make_token(TokenType::Indent, empty.as_slice(), &self.filename, self.line, 1);
            proof {
                lemma_push_token(self.tokens@, t);
                let st = self.indent_stack@;
                assert forall|i: int, j: int| 0 <= i < j < st.len() implies st[i] < st[j] by {
                    if j == st.len() - 1 && i < j {
                        assert(old(self).indent_stack@[i] <= top);
                    }
                }
            }
            self.tokens.push(t);
            proof {
                assert(tviews(self.tokens@) =~= tviews(old(self).tokens@).push(
                    (TokenType::Indent, Seq::<char>::empty(), old(self).line as nat, 1),
                ));
            }
            return;
        }
        let ghost st = old(self).indent_stack@;
        let ghost keep = keep_count(st, indent as nat);
        proof {
            lemma_keep_count(st, indent as nat);
        }
        while indent < self.indent_stack[self.indent_stack.len() - 1] && self.indent_stack.len() > 1
            invariant
                self.inv(),
                self.lines == old(self).lines,
                self.filename == old(self).filename,
                self.line == old(self).line,
                self.col == old(self).col,
                self.token_idx == old(self).token_idx,
                self.diagnostics == old(self).diagnostics,
                extends(self.diagnostics@, old(self).diagnostics@),
                st == old(self).indent_stack@,
                keep == keep_count(st, indent as nat),
                1 <= keep <= self.indent_stack@.len() <= st.len(),
                self.indent_stack@ == st.take(self.indent_stack@.len() as int),
                keep_count(self.indent_stack@, indent as nat) == keep,
                extends(self.tokens@, old(self).tokens@),
                tviews(self.tokens@) == tviews(old(self).tokens@) + repeat_tok(
                    (st.len() - self.indent_stack@.len()) as nat,
                    TokenType::Outdent,
                    old(self).line as nat,
                    1,
                ),
            decreases self.indent_stack@.len(),
        {
            let ghost before = self.indent_stack@;
            let ghost old_toks = self.tokens@;
            self.indent_stack.pop();
            let empty: Vec<char> = Vec::new();
            let t = make_token(TokenType::Outdent, empty.as_slice(), &self.filename, self.line, 1);
            proof {
                lemma_keep_count(before, indent as nat);
                lemma_push_token(self.tokens@, t);
                assert(self.indent_stack@ =~= before.drop_last());
                assert(self.indent_stack@ =~= st.take(self.indent_stack@.len() as int));
            }
            self.tokens.push(t);
            proof {
                let n = (st.len() - before.len()) as nat;
                assert(tviews(self.tokens@) =~= tviews(old_toks).push(tview(t)));
                assert(repeat_tok(n + 1, TokenType::Outdent, old(self).line as nat, 1) =~= repeat_tok(
                    n,
                    TokenType::Outdent,
                    old(self).line as nat,
                    1,
                ).push(tview(t)));
                assert(tviews(self.tokens@) =~= tviews(old(self).tokens@) + repeat_tok(
                    (st.len() - self.indent_stack@.len()) as nat,
                    TokenType::Outdent,
                    old(self).line as nat,
                    1,
                ));

            }
        }
        proof {
            assert(keep_count(self.indent_stack@, indent as nat) == self.indent_stack@.len());
        }
        if indent != self.indent_stack[self.indent_stack.len() - 1] {
            let mut detail: Vec<char> = Vec::new();
            push_lit(&mut detail, "dedent to column ");
            push_decimal(&mut detail, indent as u128);
            push_lit(&mut detail, " does not match any enclosing block");
            let msg = chars_of("invalid dedent");
            let line = self.line;
            self.push_diag(
                DiagnosticKind::InvalidIndentation(string_of(detail.as_slice())),
                msg.as_slice(),
                line,
                1,
            );
        }
    }
}

pub proof fn lemma_keep_count(st: Seq<usize>, indent: nat)
    requires
        stack_ok(st),
    ensures
        1 <= keep_count(st, indent) <= st.len(),
        keep_count(st, indent) == st.len() ==> !(st.len() > 1 && indent < st.last()),
        keep_count(st, indent) < st.len() ==> keep_count(st.drop_last(), indent) == keep_count(
            st,
            indent,
        ) && st.len() > 1 && indent < st.last(),
        stack_ok(st.take(keep_count(st, indent) as int)),
    decreases st.len(),
{
    if st.len() > 1 && indent < st.last() {
        assert(stack_ok(st.drop_last()));
        lemma_keep_count(st.drop_last(), indent);
        assert(st.drop_last().take(keep_count(st, indent) as int) =~= st.take(
            keep_count(st, indent) as int,
        ));
    } else {
        assert(st.take(st.len() as int) =~= st);
    }
}


impl Scanner {
    /// Pushes `:`, `,`, `(` or `)` as its own token.
    fn try_lex_punctuation(&mut self, line: &[char], i: usize, column: usize) -> (r: Option<usize>)
        requires
            old(self).inv(),
            i < line@.len(),
        ensures
            extends(final(self).tokens@, old(self).tokens@),
            final(self).inv(),
            final(self).diagnostics == old(self).diagnostics,
            final(self).indent_stack == old(self).indent_stack,
            final(self).lines == old(self).lines,
            final(self).filename == old(self).filename,
            final(self).line == old(self).line,
            final(self).col == old(self).col,
            final(self).token_idx == old(self).token_idx,
            ({
                let c = line@[i as int];
                if c == ':' || c == ',' || c == '(' || c == ')' {
                    &&& r == Some((i + 1) as usize)
                    &&& tviews(final(self).tokens@) == tviews(old(self).tokens@).push(
                        (tok_type_at(line@, i as nat)->0, line@.subrange(i as int, i + 1), old(self).line as nat, column as nat),
                    )
                } else {
                    r is None && final(self).tokens == old(self).tokens
                }
            }),
    {
        let n = line.len();
        assert(n == line@.len());
        let c = line[i];
        let tt = if c == ':' {
            TokenType::Colon
        } else if c == ',' {
            TokenType::Comma
        } else if c == '(' {
            TokenType::LParen
        } else if c == ')' {
            TokenType::RParen
        } else {
            return None;
        };
        let v = slice_of(line, i, i + 1);
        let ln = self.line;
        self.push_plain(tt, v.as_slice(), ln, column);
        Some(i + 1)
    }

    /// Pushes `->` or `<-`.
    fn try_lex_arrow(&mut self, line: &[char], i: usize, column: usize) -> (r: Option<usize>)
        requires
            old(self).inv(),
            i < line@.len(),
        ensures
            extends(final(self).tokens@, old(self).tokens@),
            final(self).inv(),
            final(self).diagnostics == old(self).diagnostics,
            final(self).indent_stack == old(self).indent_stack,
            final(self).lines == old(self).lines,
            final(self).filename == old(self).filename,
            final(self).line == old(self).line,
            final(self).col == old(self).col,
            final(self).token_idx == old(self).token_idx,
            ({
                let c = line@[i as int];
                if (c == '-' && i + 1 < line@.len() && line@[i + 1] == '>') || (c == '<' && i + 1
                    < line@.len() && line@[i + 1] == '-') {
                    &&& r == Some((i + 2) as usize)
                    &&& tviews(final(self).tokens@) == tviews(old(self).tokens@).push(
                        (
                            if c == '-' {
                                TokenType::Arrow
                            } else {
                                TokenType::BackArrow
                            },
                            line@.subrange(i as int, i + 2),
                            old(self).line as nat,
                            column as nat,
                        ),
                    )
                } else {
                    r is None && final(self).tokens == old(self).tokens
                }
            }),
    {
        let n = line.len();
        assert(n == line@.len());
        if i + 1 < line.len() && line[i] == '-' && line[i + 1] == '>' {
            let v = slice_of(line, i, i + 2);
            let ln = self.line;
            self.push_plain(TokenType::Arrow, v.as_slice(), ln, column);
            return Some(i + 2);
        }
        if i + 1 < line.len() && line[i] == '<' && line[i + 1] == '-' {
            let v = slice_of(line, i, i + 2);
            let ln = self.line;
            self.push_plain(TokenType::BackArrow, v.as_slice(), ln, column);
            return Some(i + 2);
        }
        None
    }

    /// Pushes `==`, `!=`, `<=`, `>=`, `=`, `!`, `<` or `>`.
    fn try_lex_operator(&mut self, line: &[char], i: usize, column: usize) -> (r: Option<usize>)
        requires
            old(self).inv(),
            i < line@.len(),
        ensures
            extends(final(self).tokens@, old(self).tokens@),
            final(self).inv(),
            final(self).diagnostics == old(self).diagnostics,
            final(self).indent_stack == old(self).indent_stack,
            final(self).lines == old(self).lines,
            final(self).filename == old(self).filename,
            final(self).line == old(self).line,
            final(self).col == old(self).col,
            final(self).token_idx == old(self).token_idx,
            ({
                let c = line@[i as int];
                let e: nat = if two_char_op(line@, i as nat) {
                    i as nat + 2
                } else {
                    i as nat + 1
                };
                if op_char(c) {
                    &&& r == Some(e as usize)
                    &&& tviews(final(self).tokens@) == tviews(old(self).tokens@).push(
                        (TokenType::Operator, line@.subrange(i as int, e as int), old(self).line as nat, column as nat),
                    )
                } else {
                    r is None && final(self).tokens == old(self).tokens
                }
            }),
    {
        let n = line.len();
        assert(n == line@.len());
        let c = line[i];
        if !is_operator_char(c) {
            return None;
        }
        let ln = self.line;
        if i + 1 < line.len() && line[i + 1] == '=' {
            let v = slice_of(line, i, i + 2);
            self.push_plain(TokenType::Operator, v.as_slice(), ln, column);
            return Some(i + 2);
        }
        let v = slice_of(line, i, i + 1);
        self.push_plain(TokenType::Operator, v.as_slice(), ln, column);
        Some(i + 1)
    }

    /// Pushes a double-quoted string literal's contents; an unclosed one is
    /// diagnosed and still pushed.
    fn try_lex_quoted_string(&mut self, line: &[char], i: usize, column: usize) -> (r: Option<usize>)
        requires
            old(self).inv(),
            i < line@.len(),
        ensures
            extends(final(self).diagnostics@, old(self).diagnostics@),
            extends(final(self).tokens@, old(self).tokens@),
            final(self).inv(),
            final(self).indent_stack == old(self).indent_stack,
            final(self).lines == old(self).lines,
            final(self).filename == old(self).filename,
            final(self).line == old(self).line,
            final(self).col == old(self).col,
            final(self).token_idx == old(self).token_idx,
            ({
                let q = quoted(line@, i as nat + 1, Seq::empty());
                if line@[i as int] == '"' {
                    &&& r == Some(q.1 as usize)
                    &&& tviews(final(self).tokens@) == tviews(old(self).tokens@).push(
                        (TokenType::Literal, q.0, old(self).line as nat, column as nat),
                    )
                    &&& if q.2 {
                        final(self).diagnostics == old(self).diagnostics
                    } else {
                        dviews(final(self).diagnostics@) == dviews(old(self).diagnostics@).push(
                            (KindView::UnterminatedString, "unterminated string literal"@, old(self).filename@, old(self).line as nat, column as nat),
                        )
                    }
                } else {
                    r is None && final(self).tokens == old(self).tokens && final(self).diagnostics
                        == old(self).diagnostics
                }
            }),
    {
        let n = line.len();
        assert(n == line@.len());
        if line[i] != '"' {
            return None;
        }
        let (content, new_i, terminated) = read_quoted_content(line, i + 1);
        let ln = self.line;
        if !terminated {
            let m = chars_of("unterminated string literal");
            self.push_diag(DiagnosticKind::UnterminatedString, m.as_slice(), ln, column);
        }
        self.push_plain(TokenType::Literal, content.as_slice(), ln, column);
        Some(new_i)
    }

    /// Pushes an identifier: an ASCII letter or digit followed by letters,
    /// digits, `_`, `-`, `.` or `/`.
    fn try_lex_identifier(&mut self, line: &[char], i: usize, column: usize) -> (r: Option<usize>)
        requires
            old(self).inv(),
            i < line@.len(),
        ensures
            extends(final(self).tokens@, old(self).tokens@),
            final(self).inv(),
            final(self).diagnostics == old(self).diagnostics,
            final(self).indent_stack == old(self).indent_stack,
            final(self).lines == old(self).lines,
            final(self).filename == old(self).filename,
            final(self).line == old(self).line,
            final(self).col == old(self).col,
            final(self).token_idx == old(self).token_idx,
            ({
                let e = ident_end(line@, i as nat + 1);
                if alnum(line@[i as int]) {
                    &&& r == Some(e as usize)
                    &&& tviews(final(self).tokens@) == tviews(old(self).tokens@).push(
                        (TokenType::Identifier, line@.subrange(i as int, e as int), old(self).line as nat, column as nat),
                    )
                } else {
                    r is None && final(self).tokens == old(self).tokens
                }
            }),
    {
        let n = line.len();
        assert(n == line@.len());
        if !is_alpha_num(line[i]) {
            return None;
        }
        let mut j: usize = i + 1;
        while j < line.len() && is_ident_word_char(line[j])
            invariant
                i < j <= line@.len(),
                ident_end(line@, i as nat + 1) == ident_end(line@, j as nat),
            decreases line@.len() - j,
        {
            j += 1;
        }
        let v = slice_of(line, i, j);
        let ln = self.line;
        self.push_plain(TokenType::Identifier, v.as_slice(), ln, column);
        Some(j)
    }

    /// Lexes the token (or diagnoses the unknown character) at position `i`.
    fn lex_one_token(&mut self, line: &[char], i: usize, column: usize) -> (r: usize)
        requires
            old(self).inv(),
            i < line@.len(),
        ensures
            extends(final(self).diagnostics@, old(self).diagnostics@),
            extends(final(self).tokens@, old(self).tokens@),
            final(self).inv(),
            final(self).indent_stack == old(self).indent_stack,
            final(self).lines == old(self).lines,
            final(self).filename == old(self).filename,
            final(self).line == old(self).line,
            final(self).col == old(self).col,
            final(self).token_idx == old(self).token_idx,
            r == tok_end(line@, i as nat),
            tviews(final(self).tokens@) == tviews(old(self).tokens@) + match tok_type_at(line@, i as nat) {
                Some(t) => seq![(t, tok_value(line@, i as nat), old(self).line as nat, column as nat)],
                None => Seq::empty(),
            },
            dviews(final(self).diagnostics@) == dviews(old(self).diagnostics@) + match tok_type_at(line@, i as nat) {
                Some(TokenType::Literal) => if quoted(line@, i as nat + 1, Seq::empty()).2 {
                    Seq::empty()
                } else {
                    seq![(KindView::UnterminatedString, "unterminated string literal"@, old(self).filename@, old(self).line as nat, column as nat)]
                },
                None => seq![(KindView::UnknownCharacter(line@.subrange(i as int, i + 1)), "unknown character "@ + debug_text(line@.subrange(i as int, i + 1)), old(self).filename@, old(self).line as nat, column as nat)],
                _ => Seq::empty(),
            },
    {
        let n = line.len();
        assert(n == line@.len());
        proof {
            lemma_quoted_end(line@, i as nat + 1, Seq::empty());
            lemma_ident_end(line@, i as nat + 1);
        }
        if let Some(n) = self.try_lex_punctuation(line, i, column) {
            assert(tviews(self.tokens@) =~= tviews(old(self).tokens@) + seq![(tok_type_at(line@, i as nat)->0, tok_value(line@, i as nat), old(self).line as nat, column as nat)]);
            assert(dviews(self.diagnostics@) =~= dviews(old(self).diagnostics@) + Seq::empty());
            return n;
        }
        if let Some(n) = self.try_lex_arrow(line, i, column) {
            assert(tviews(self.tokens@) =~= tviews(old(self).tokens@) + seq![(tok_type_at(line@, i as nat)->0, tok_value(line@, i as nat), old(self).line as nat, column as nat)]);
            assert(dviews(self.diagnostics@) =~= dviews(old(self).diagnostics@) + Seq::empty());
            return n;
        }
        if let Some(n) = self.try_lex_operator(line, i, column) {
            assert(tviews(self.tokens@) =~= tviews(old(self).tokens@) + seq![(tok_type_at(line@, i as nat)->0, tok_value(line@, i as nat), old(self).line as nat, column as nat)]);
            assert(dviews(self.diagnostics@) =~= dviews(old(self).diagnostics@) + Seq::empty());
            return n;
        }
        if let Some(n) = self.try_lex_quoted_string(line, i, column) {
            assert(tviews(self.tokens@) =~= tviews(old(self).tokens@) + seq![(tok_type_at(line@, i as nat)->0, tok_value(line@, i as nat), old(self).line as nat, column as nat)]);
            proof {
                if quoted(line@, i as nat + 1, Seq::empty()).2 {
                    assert(dviews(self.diagnostics@) =~= dviews(old(self).diagnostics@) + Seq::empty());
                } else {
                    assert(dviews(self.diagnostics@) =~= dviews(old(self).diagnostics@) + seq![(KindView::UnterminatedString, "unterminated string literal"@, old(self).filename@, old(self).line as nat, column as nat)]);
                }
            }
            return n;
        }
        if let Some(n) = self.try_lex_identifier(line, i, column) {
            assert(tviews(self.tokens@) =~= tviews(old(self).tokens@) + seq![(tok_type_at(line@, i as nat)->0, tok_value(line@, i as nat), old(self).line as nat, column as nat)]);
            assert(dviews(self.diagnostics@) =~= dviews(old(self).diagnostics@) + Seq::empty());
            return n;
        }
        let ch = slice_of(line, i, i + 1);
        let mut msg: Vec<char> = Vec::new();
        push_lit(&mut msg, "unknown character ");
        let dq = debug_quote(ch.as_slice());
        push_chars(&mut msg, dq.as_slice());
        let ln = self.line;
        self.push_diag(DiagnosticKind::UnknownCharacter(string_of(ch.as_slice())), msg.as_slice(), ln, column);
        assert(tviews(self.tokens@) =~= tviews(old(self).tokens@) + Seq::empty());
        assert(dviews(self.diagnostics@) =~= dviews(old(self).diagnostics@) + seq![(KindView::UnknownCharacter(line@.subrange(i as int, i + 1)), "unknown character "@ + debug_text(line@.subrange(i as int, i + 1)), old(self).filename@, old(self).line as nat, column as nat)]);
        i + 1
    }
}


/// Problems with their file added.
pub open spec fn add_file(ps: Seq<(KindView, Seq<char>, nat, nat)>, f: Seq<char>) -> Seq<(KindView, Seq<char>, Seq<char>, nat, nat)> {
    ps.map_values(|p: (KindView, Seq<char>, nat, nat)| (p.0, p.1, f, p.2, p.3))
}

/// Whether a line's indentation mixes tabs and spaces.
pub open spec fn mixed_indent(s: Seq<char>) -> bool {
    (exists|j: int| 0 <= j < lead_ws(s) && #[trigger] s[j] == '\t') && (exists|j: int|
        0 <= j < lead_ws(s) && #[trigger] s[j] == ' ')
}

/// The first line from `k` on that is neither blank nor a comment.
pub open spec fn next_content(ls: Seq<Seq<char>>, k: nat) -> nat
    decreases ls.len() - k,
{
    if k >= ls.len() {
        k
    } else if !blank_or_comment(ls[k as int]) {
        k
    } else {
        next_content(ls, k + 1)
    }
}

/// The first line from `k` on that is not blank and is indented at most
/// `indent`: where a block indented deeper than `indent` ends.
pub open spec fn block_end(ls: Seq<Seq<char>>, k: nat, indent: nat) -> nat
    decreases ls.len() - k,
{
    if k >= ls.len() {
        k
    } else if trim_s(trim_end_s(ls[k as int])).len() == 0 {
        block_end(ls, k + 1, indent)
    } else if lead_ws(trim_end_s(ls[k as int])) <= indent {
        k
    } else {
        block_end(ls, k + 1, indent)
    }
}

/// The text of a block: its lines with `indent` leading blanks removed,
/// trailing blank lines dropped, joined with newlines.
pub open spec fn raw_block(ls: Seq<Seq<char>>, start: nat, end: nat, indent: nat) -> Seq<char> {
    let e = if end < ls.len() {
        end
    } else {
        ls.len()
    };
    join_s(
        drop_blank_tail(
            ls.subrange(start as int, e as int).map_values(|l: Seq<char>| strip_indent_s(l, indent)),
        ),
        seq!['\n'],
    )
}

pub proof fn lemma_next_content(ls: Seq<Seq<char>>, k: nat)
    ensures
        k <= next_content(ls, k),
        k <= ls.len() ==> next_content(ls, k) <= ls.len(),
    decreases ls.len() - k,
{
    if k < ls.len() && blank_or_comment(ls[k as int]) {
        lemma_next_content(ls, k + 1);
    }
}

pub proof fn lemma_block_end(ls: Seq<Seq<char>>, k: nat, indent: nat)
    ensures
        k <= block_end(ls, k, indent),
        k <= ls.len() ==> block_end(ls, k, indent) <= ls.len(),
    decreases ls.len() - k,
{
    if k < ls.len() {
        if trim_s(trim_end_s(ls[k as int])).len() == 0 || lead_ws(trim_end_s(ls[k as int])) > indent {
            lemma_block_end(ls, k + 1, indent);
        }
    }
}

impl Scanner {
    /// Lexes a line's content (the part after its indentation of `indent`
    /// characters).
    fn lex_line(&mut self, line: &[char], indent: usize)
        requires
            old(self).inv(),
            indent + line@.len() + 2 < usize::MAX,
        ensures
            extends(final(self).diagnostics@, old(self).diagnostics@),
            final(self).inv(),
            final(self).indent_stack == old(self).indent_stack,
            final(self).lines == old(self).lines,
            final(self).filename == old(self).filename,
            final(self).line == old(self).line,
            final(self).col == old(self).col,
            final(self).token_idx == old(self).token_idx,
            extends(final(self).tokens@, old(self).tokens@),
            tviews(final(self).tokens@) == tviews(old(self).tokens@) + line_toks(line@, 0, old(self).line as nat, indent as nat),
            dviews(final(self).diagnostics@) == dviews(old(self).diagnostics@) + add_file(line_problems(line@, 0, old(self).line as nat, indent as nat), old(self).filename@),
    {
        let mut i: usize = 0;
        while i < line.len()
            invariant
                self.inv(),
                i <= line@.len(),
                indent + line@.len() + 2 < usize::MAX,
                self.indent_stack == old(self).indent_stack,
                self.lines == old(self).lines,
                self.filename == old(self).filename,
                self.line == old(self).line,
                self.col == old(self).col,
                self.token_idx == old(self).token_idx,
                extends(self.tokens@, old(self).tokens@),
                extends(self.diagnostics@, old(self).diagnostics@),
                tviews(self.tokens@) + line_toks(line@, i as nat, old(self).line as nat, indent as nat) == tviews(old(self).tokens@) + line_toks(line@, 0, old(self).line as nat, indent as nat),
                dviews(self.diagnostics@) + add_file(line_problems(line@, i as nat, old(self).line as nat, indent as nat), old(self).filename@) == dviews(old(self).diagnostics@) + add_file(line_problems(line@, 0, old(self).line as nat, indent as nat), old(self).filename@),
            decreases line@.len() - i,
        {
            let j = skip_whitespace(line, i);
            if j >= line.len() {
                proof {
                    let ln = old(self).line as nat;
                    assert(line_toks(line@, i as nat, ln, indent as nat) =~= Seq::empty());
                    assert(line_problems(line@, i as nat, ln, indent as nat) =~= Seq::empty());
                    assert(line@.skip(line@.len() as int) =~= Seq::<char>::empty());
                    assert(line_toks(line@, line@.len(), ln, indent as nat) =~= Seq::empty());
                    assert(line_problems(line@, line@.len(), ln, indent as nat) =~= Seq::empty());
                }
                i = line.len();
                continue;
            }
            let ghost t0 = self.tokens@;
            let ghost d0 = self.diagnostics@;
            let column = indent + j + 1;
            let next = self.lex_one_token(line, j, column);
            proof {
                lemma_tok_end(line@, j as nat);
                let ln = old(self).line as nat;
                let rest_t = line_toks(line@, next as nat, ln, indent as nat);
                let rest_p = line_problems(line@, next as nat, ln, indent as nat);
                match tok_type_at(line@, j as nat) {
                    Some(t) => {
                        assert(line_toks(line@, i as nat, ln, indent as nat) == seq![(t, tok_value(line@, j as nat), ln, (indent + j + 1) as nat)] + rest_t);
                    },
                    None => {
                        assert(line_toks(line@, i as nat, ln, indent as nat) == rest_t);
                    },
                }
                lemma_extends_trans(self.tokens@, t0, old(self).tokens@);
                let f = old(self).filename@;
                match tok_type_at(line@, j as nat) {
                    Some(TokenType::Literal) => {
                        if quoted(line@, j as nat + 1, Seq::empty()).2 {
                            assert(line_problems(line@, i as nat, ln, indent as nat) == rest_p);
                        } else {
                            let p = (KindView::UnterminatedString, "unterminated string literal"@, ln, (indent + j + 1) as nat);
                            assert(line_problems(line@, i as nat, ln, indent as nat) == seq![p] + rest_p);
                            assert(add_file(seq![p] + rest_p, f) =~= seq![(p.0, p.1, f, p.2, p.3)] + add_file(rest_p, f));
                        }
                    },
                    None => {
                        let ch = line@.subrange(j as int, j as int + 1);
                        let p = (KindView::UnknownCharacter(ch), "unknown character "@ + debug_text(ch), ln, (indent + j + 1) as nat);
                        assert(line_problems(line@, i as nat, ln, indent as nat) == seq![p] + rest_p);
                        assert(add_file(seq![p] + rest_p, f) =~= seq![(p.0, p.1, f, p.2, p.3)] + add_file(rest_p, f));
                    },
                    _ => {
                        assert(line_problems(line@, i as nat, ln, indent as nat) == rest_p);
                    },
                }
            }
            i = next;
        }
        proof {
            if i >= line@.len() {
                let ln = old(self).line as nat;
                assert(line@.skip(i as int) =~= Seq::<char>::empty());
                assert(line_toks(line@, i as nat, ln, indent as nat) =~= Seq::empty());
                assert(line_problems(line@, i as nat, ln, indent as nat) =~= Seq::empty());
                assert(tviews(self.tokens@) + Seq::empty() =~= tviews(self.tokens@));
                assert(add_file(Seq::empty(), old(self).filename@) =~= Seq::empty());
                assert(dviews(self.diagnostics@) + Seq::empty() =~= dviews(self.diagnostics@));
            }
        }
    }
}


impl Scanner {
    /// Diagnoses a line whose indentation mixes tabs and spaces.
    fn check_indent_consistency(&mut self, line: &[char], line_num: usize)
        requires
            old(self).inv(),
        ensures
            extends(final(self).diagnostics@, old(self).diagnostics@),
            final(self).inv(),
            final(self).tokens == old(self).tokens,
            final(self).indent_stack == old(self).indent_stack,
            final(self).lines == old(self).lines,
            final(self).filename == old(self).filename,
            final(self).line == old(self).line,
            final(self).col == old(self).col,
            final(self).token_idx == old(self).token_idx,
            if mixed_indent(line@) {
                dviews(final(self).diagnostics@) == dviews(old(self).diagnostics@).push(
                    (
                        KindView::InvalidIndentation("mixed tabs and spaces"@),
                        "indentation mixes tabs and spaces; use one or the other consistently"@,
                        old(self).filename@,
                        line_num as nat,
                        1,
                    ),
                )
            } else {
                final(self).diagnostics == old(self).diagnostics
            },
    {
        let w = indent_width(line);
        proof {
            lemma_lead_ws(line@);
        }
        let mut has_tab = false;
        let mut has_space = false;
        let mut k: usize = 0;
        while k < w
            invariant
                w == lead_ws(line@),
                w <= line@.len(),
                k <= w,
                has_tab <==> exists|j: int| 0 <= j < k && #[trigger] line@[j] == '\t',
                has_space <==> exists|j: int| 0 <= j < k && #[trigger] line@[j] == ' ',
            decreases w - k,
        {
            if line[k] == '\t' {
                has_tab = true;
            }
            if line[k] == ' ' {
                has_space = true;
            }
            k += 1;
        }
        if has_tab && has_space {
            let detail = chars_of("mixed tabs and spaces");
            let msg = chars_of("indentation mixes tabs and spaces; use one or the other consistently");
            self.push_diag(
                DiagnosticKind::InvalidIndentation(string_of(detail.as_slice())),
                msg.as_slice(),
                line_num,
                1,
            );
        }
    }

    /// The first line from `idx` on that is neither blank nor a comment.
    fn find_next_content_line(&self, idx: usize) -> (r: usize)
        requires
            idx <= self.lines@.len(),
        ensures
            r == next_content(views(self.lines@), idx as nat),
            idx <= r <= self.lines@.len(),
    {
        let mut k = idx;
        while k < self.lines.len()
            invariant
                idx <= k <= self.lines@.len(),
                next_content(views(self.lines@), idx as nat) == next_content(views(self.lines@), k as nat),
            decreases self.lines@.len() - k,
        {
            if !is_blank_or_comment_chars(self.lines[k].as_slice()) {
                return k;
            }
            k += 1;
        }
        k
    }

    /// Where a block deeper than `indent` that starts at `start` ends.
    fn find_block_end(&self, start: usize, indent: usize) -> (r: usize)
        requires
            start <= self.lines@.len(),
        ensures
            r == block_end(views(self.lines@), start as nat, indent as nat),
            start <= r <= self.lines@.len(),
    {
        let mut k = start;
        while k < self.lines.len()
            invariant
                start <= k <= self.lines@.len(),
                block_end(views(self.lines@), start as nat, indent as nat) == block_end(views(self.lines@), k as nat, indent as nat),
            decreases self.lines@.len() - k,
        {
            let bl = trim_end(self.lines[k].as_slice());
            let t = trim(bl.as_slice());
            if t.len() == 0 {
                k += 1;
            } else if indent_width(bl.as_slice()) <= indent {
                return k;
            } else {
                k += 1;
            }
        }
        k
    }

    /// The text of the block of lines `start..end`, dedented by `indent`.
    fn extract_raw_block(&self, start: usize, end: usize, indent: usize) -> (r: Vec<char>)
        requires
            start <= end,
            start <= self.lines@.len(),
        ensures
            r@ == raw_block(views(self.lines@), start as nat, end as nat, indent as nat),
    {
        let e = if end < self.lines.len() {
            end
        } else {
            self.lines.len()
        };
        let ghost ls = views(self.lines@);
        let mut stripped: Vec<Vec<char>> = Vec::new();
        let mut k = start;
        while k < e
            invariant
                start <= k <= e <= self.lines@.len(),
                ls == views(self.lines@),
                views(stripped@) == ls.subrange(start as int, k as int).map_values(|l: Seq<char>| strip_indent_s(l, indent as nat)),
            decreases e - k,
        {
            let ghost before = views(stripped@);
            let x = strip_indent_prefix(self.lines[k].as_slice(), indent);
            assert(ls[k as int] == self.lines@[k as int]@);
            stripped.push(x);
            assert(views(stripped@) =~= before.push(x@));
            assert(views(stripped@) =~= ls.subrange(start as int, k + 1).map_values(|l: Seq<char>| strip_indent_s(l, indent as nat)));
            k += 1;
        }
        trim_trailing_blank_lines(&stripped)
    }

    /// After a `key:` line at index `i`, gathers a following block indented
    /// deeper than `indent` into one raw-block token.
    fn try_collect_block(&mut self, i: usize, indent: usize) -> (r: Option<usize>)
        requires
            old(self).inv(),
            i < old(self).lines@.len(),
        ensures
            final(self).inv(),
            final(self).diagnostics == old(self).diagnostics,
            final(self).indent_stack == old(self).indent_stack,
            final(self).lines == old(self).lines,
            final(self).filename == old(self).filename,
            final(self).line == old(self).line,
            final(self).col == old(self).col,
            final(self).token_idx == old(self).token_idx,
            extends(final(self).tokens@, old(self).tokens@),
            ({
                let ls = views(old(self).lines@);
                let next = next_content(ls, i as nat + 1);
                if next >= ls.len() || lead_ws(ls[next as int]) <= indent {
                    r is None && final(self).tokens == old(self).tokens
                } else {
                    let ni = lead_ws(ls[next as int]);
                    let be = block_end(ls, next, indent as nat);
                    &&& r == Some(be as usize)
                    &&& i < be
                    &&& tviews(final(self).tokens@) == tviews(old(self).tokens@) + seq![
                        (TokenType::Newline, Seq::<char>::empty(), old(self).line as nat, 1nat),
                        (TokenType::RawBlock, raw_block(ls, next, be, ni), next + 1, ni + 1),
                        (TokenType::Newline, Seq::<char>::empty(), (be + 1) as nat, 1nat),
                    ]
                }
            }),
    {
        let next = self.find_next_content_line(i + 1);
        if next >= self.lines.len() {
            return None;
        }
        let next_indent = indent_width(self.lines[next].as_slice());
        if next_indent <= indent {
            return None;
        }
        let be = self.find_block_end(next, indent);
        proof {
            lemma_next_content(views(self.lines@), i as nat + 1);
            lemma_lead_ws(views(self.lines@)[next as int]);
            assert(views(self.lines@)[next as int] == self.lines@[next as int]@);
            assert(lines_fit(views(self.lines@)));
            assert(views(self.lines@)[next as int].len() + 2 < usize::MAX);
            lemma_block_end(views(self.lines@), next as nat, indent as nat);
        }
        let raw = self.extract_raw_block(next, be, next_indent);
        let ln = self.line;
        let empty: Vec<char> = Vec::new();
        self.push_plain(TokenType::Newline, empty.as_slice(), ln, 1);
        self.push_plain(TokenType::RawBlock, raw.as_slice(), next + 1, next_indent + 1);
        self.push_plain(TokenType::Newline, empty.as_slice(), be + 1, 1);
        proof {
            assert(tviews(self.tokens@) =~= tviews(old(self).tokens@) + seq![
                (TokenType::Newline, Seq::<char>::empty(), old(self).line as nat, 1nat),
                (TokenType::RawBlock, raw@, (next + 1) as nat, (next_indent + 1) as nat),
                (TokenType::Newline, Seq::<char>::empty(), (be + 1) as nat, 1nat),
            ]);
        }
        Some(be)
    }
}


/// The part of a source line that is lexed: without trailing whitespace and
/// without a trailing comment.
pub open spec fn lexed_part(l: Seq<char>) -> Seq<char> {
    strip_comment_s(trim_end_s(l))
}

/// Whether a source line produces no tokens at all: it is blank, a comment,
/// or nothing but a comment remains of it.
pub open spec fn skipped_line(l: Seq<char>) -> bool {
    blank_or_comment(trim_end_s(l)) || trim_s(lexed_part(l)).len() == 0
}

/// The lexer's progress as values: the tokens and diagnostics so far, the
/// indents of the open blocks, and the current line.
pub struct LexState {
    pub toks: Seq<(TokenType, Seq<char>, nat, nat)>,
    pub diags: Seq<(KindView, Seq<char>, Seq<char>, nat, nat)>,
    pub stack: Seq<usize>,
    pub line: nat,
}

spec fn lex_state(lx: Scanner) -> LexState {
    LexState {
        toks: tviews(lx.tokens@),
        diags: dviews(lx.diagnostics@),
        stack: lx.indent_stack@,
        line: lx.line as nat,
    }
}

/// Opening or closing blocks for a line indented by `indent`: one indent
/// token for a deeper line; otherwise one outdent token for each block it
/// closes, and an error when it lands between two enclosing blocks.
pub open spec fn indent_s(st: LexState, indent: usize, f: Seq<char>) -> LexState {
    let s = st.stack;
    if indent > s.last() {
        LexState {
            toks: st.toks.push((TokenType::Indent, Seq::<char>::empty(), st.line, 1)),
            diags: st.diags,
            stack: s.push(indent),
            line: st.line,
        }
    } else {
        let keep = keep_count(s, indent as nat);
        LexState {
            toks: st.toks + repeat_tok((s.len() - keep) as nat, TokenType::Outdent, st.line, 1),
            diags: if s[keep - 1] == indent {
                st.diags
            } else {
                st.diags.push(
                    (
                        KindView::InvalidIndentation(dedent_detail(indent as nat)),
                        "invalid dedent"@,
                        f,
                        st.line,
                        1,
                    ),
                )
            },
            stack: s.take(keep as int),
            line: st.line,
        }
    }
}

/// Lexing source line `i` (counted from 0) of `ls` in file `f`: the state
/// after it, and, when the line opened a raw block, the line to go on from.
pub open spec fn line_s(ls: Seq<Seq<char>>, i: nat, st: LexState, f: Seq<char>) -> (LexState, Option<nat>) {
    let l = ls[i as int];
    let ln = i + 1;
    let st0 = LexState { toks: st.toks, diags: st.diags, stack: st.stack, line: ln };
    if skipped_line(l) {
        (st0, None)
    } else {
        let trimmed = lexed_part(l);
        let st1 = if mixed_indent(trimmed) {
            LexState {
                toks: st0.toks,
                diags: st0.diags.push(
                    (
                        KindView::InvalidIndentation("mixed tabs and spaces"@),
                        "indentation mixes tabs and spaces; use one or the other consistently"@,
                        f,
                        ln,
                        1,
                    ),
                ),
                stack: st0.stack,
                line: ln,
            }
        } else {
            st0
        };
        let indent = lead_ws(trimmed);
        let content = trimmed.skip(indent as int);
        let st2 = indent_s(st1, indent as usize, f);
        if key_colon_line(content) {
            let ke = find_s(content, ':')->0;
            let head = st2.toks + seq![
                (TokenType::Identifier, content.take(ke as int), ln, indent + 1),
                (TokenType::Colon, ":"@, ln, indent + ke + 1),
            ];
            let next = next_content(ls, i + 1);
            if next >= ls.len() || lead_ws(ls[next as int]) <= indent {
                (
                    LexState {
                        toks: head.push((TokenType::Newline, Seq::<char>::empty(), ln, l.len() + 1)),
                        diags: st2.diags,
                        stack: st2.stack,
                        line: ln,
                    },
                    None,
                )
            } else {
                let ni = lead_ws(ls[next as int]);
                let be = block_end(ls, next, indent);
                (
                    LexState {
                        toks: head + seq![
                            (TokenType::Newline, Seq::<char>::empty(), ln, 1nat),
                            (TokenType::RawBlock, raw_block(ls, next, be, ni), next + 1, ni + 1),
                            (TokenType::Newline, Seq::<char>::empty(), be + 1, 1nat),
                        ],
                        diags: st2.diags,
                        stack: st2.stack,
                        line: ln,
                    },
                    Some(be),
                )
            }
        } else {
            (
                LexState {
                    toks: st2.toks + line_toks(content, 0, ln, indent) + seq![
                        (TokenType::Newline, Seq::<char>::empty(), ln, l.len() + 1),
                    ],
                    diags: st2.diags + add_file(line_problems(content, 0, ln, indent), f),
                    stack: st2.stack,
                    line: ln,
                },
                None,
            )
        }
    }
}

/// A line that opens a raw block hands on a later line, never past the end.
pub proof fn lemma_line_next(ls: Seq<Seq<char>>, i: nat, st: LexState, f: Seq<char>)
    requires
        i < ls.len(),
    ensures
        line_s(ls, i, st, f).1 matches Some(k) ==> i < k <= ls.len(),
{
    lemma_next_content(ls, i + 1);
    let next = next_content(ls, i + 1);
    let trimmed = lexed_part(ls[i as int]);
    lemma_block_end(ls, next, lead_ws(trimmed));
}

/// Lexing the lines of `ls` from line `i` on.
pub open spec fn lines_s(ls: Seq<Seq<char>>, i: nat, st: LexState, f: Seq<char>) -> LexState
    decreases ls.len() - i,
{
    if i >= ls.len() {
        st
    } else {
        let (st2, r) = line_s(ls, i, st, f);
        proof {
            lemma_line_next(ls, i, st, f);
        }
        lines_s(
            ls,
            match r {
                Some(k) => k,
                None => i + 1,
            },
            st2,
            f,
        )
    }
}

/// The state before the first line: nothing read, the outermost block open
/// at indent 0, on line 1.
pub open spec fn lex_start() -> LexState {
    LexState { toks: Seq::empty(), diags: Seq::empty(), stack: seq![0usize], line: 1 }
}

/// The tokens of a lexed state, completed: the blocks still open are closed
/// and the end of input is marked, on the last line read.
pub open spec fn finished_toks(st: LexState) -> Seq<(TokenType, Seq<char>, nat, nat)> {
    st.toks + repeat_tok((st.stack.len() - 1) as nat, TokenType::Outdent, st.line, 1) + seq![
        (TokenType::Eof, Seq::<char>::empty(), st.line, 1nat),
    ]
}

/// Lexing all of `input` as file `f`, up to its last line.
pub open spec fn lex_run(input: Seq<char>, f: Seq<char>) -> LexState {
    lines_s(source_lines(input), 0, lex_start(), f)
}

impl Scanner {
    /// Lexes a `key:` line: the key, the colon, then either the indented block
    /// that follows as one raw-block token or just a newline.
    fn lex_key_colon_block(&mut self, i: usize, indent: usize, content: &[char], line: &[char]) -> (r: Option<usize>)
        requires
            old(self).inv(),
            i < old(self).lines@.len(),
            key_colon_line(content@),
            indent + content@.len() + 2 < usize::MAX,
            line@.len() + 2 < usize::MAX,
        ensures
            final(self).inv(),
            final(self).diagnostics == old(self).diagnostics,
            final(self).indent_stack == old(self).indent_stack,
            final(self).lines == old(self).lines,
            final(self).filename == old(self).filename,
            final(self).line == old(self).line,
            final(self).col == old(self).col,
            final(self).token_idx == old(self).token_idx,
            extends(final(self).tokens@, old(self).tokens@),
            r matches Some(k) ==> i < k <= old(self).lines@.len(),
            ({
                let ke = find_s(content@, ':')->0;
                let ls = views(old(self).lines@);
                let ln = old(self).line as nat;
                let head = tviews(old(self).tokens@) + seq![
                    (TokenType::Identifier, content@.take(ke as int), ln, indent as nat + 1),
                    (TokenType::Colon, ":"@, ln, (indent + ke + 1) as nat),
                ];
                let next = next_content(ls, i as nat + 1);
                if next >= ls.len() || lead_ws(ls[next as int]) <= indent {
                    r is None && tviews(final(self).tokens@) == head.push(
                        (TokenType::Newline, Seq::<char>::empty(), ln, line@.len() + 1),
                    )
                } else {
                    let ni = lead_ws(ls[next as int]);
                    let be = block_end(ls, next, indent as nat);
                    &&& r == Some(be as usize)
                    &&& tviews(final(self).tokens@) == head + seq![
                        (TokenType::Newline, Seq::<char>::empty(), ln, 1nat),
                        (TokenType::RawBlock, raw_block(ls, next, be, ni), (next + 1) as nat, (ni + 1) as nat),
                        (TokenType::Newline, Seq::<char>::empty(), (be + 1) as nat, 1nat),
                    ]
                }
            }),
    {
        proof {
            lemma_find_s(content@, ':');
        }
        let ke = match find_char(content, ':') {
            Some(k) => k,
            None => 0,
        };
        let key = slice_of(content, 0, ke);
        let ln = self.line;
        self.push_plain(TokenType::Identifier, key.as_slice(), ln, indent + 1);
        let colon = chars_of(":");
        self.push_plain(TokenType::Colon, colon.as_slice(), ln, indent + ke + 1);
        let ghost mid = self.tokens@;
        proof {
            assert(tviews(mid) =~= tviews(old(self).tokens@) + seq![
                (TokenType::Identifier, content@.take(ke as int), ln as nat, indent as nat + 1),
                (TokenType::Colon, ":"@, ln as nat, (indent + ke + 1) as nat),
            ]);
        }
        if let Some(bend) = self.try_collect_block(i, indent) {
            proof {
                let ls = views(old(self).lines@);
                let next = next_content(ls, i as nat + 1);
                let ni = lead_ws(ls[next as int]);
                let be = block_end(ls, next, indent as nat);
                lemma_next_content(ls, i as nat + 1);
                lemma_block_end(ls, next, indent as nat);
                assert(tviews(self.tokens@) =~= tviews(mid) + seq![
                    (TokenType::Newline, Seq::<char>::empty(), ln as nat, 1nat),
                    (TokenType::RawBlock, raw_block(ls, next, be, ni), (next + 1) as nat, (ni + 1) as nat),
                    (TokenType::Newline, Seq::<char>::empty(), (be + 1) as nat, 1nat),
                ]);
            }
            return Some(bend);
        }
        let empty: Vec<char> = Vec::new();
        self.push_plain(TokenType::Newline, empty.as_slice(), ln, line.len() + 1);
        None
    }

    /// Lexes source line `i`. Returns the index of the line after a raw block
    /// when the line opened one.
    fn lex_one_line(&mut self, i: usize) -> (r: Option<usize>)
        requires
            old(self).inv(),
            i < old(self).lines@.len(),
        ensures
            ({
                let (st2, r2) = line_s(views(old(self).lines@), i as nat, lex_state(*old(self)), old(self).filename@);
                &&& lex_state(*final(self)) == st2
                &&& match r2 {
                    Some(k) => r == Some(k as usize),
                    None => r is None,
                }
            }),
            final(self).inv(),
            final(self).lines == old(self).lines,
            final(self).filename == old(self).filename,
            final(self).line == i + 1,
            final(self).col == 1,
            final(self).token_idx == old(self).token_idx,
            extends(final(self).tokens@, old(self).tokens@),
            extends(final(self).diagnostics@, old(self).diagnostics@),
            r matches Some(k) ==> i < k <= old(self).lines@.len(),
            skipped_line(old(self).lines@[i as int]@) ==> r is None && final(self).tokens
                == old(self).tokens && final(self).diagnostics == old(self).diagnostics
                && final(self).indent_stack == old(self).indent_stack,
    {
        let line = slice_of(self.lines[i].as_slice(), 0, self.lines[i].len());
        assert(line@ =~= self.lines@[i as int]@);
        assert(views(self.lines@)[i as int] == line@);
        self.line = i + 1;
        self.col = 1;
        let t1 = trim_end(line.as_slice());
        if is_blank_or_comment_chars(t1.as_slice()) {
            return None;
        }
        let trimmed = strip_comment_chars(t1.as_slice());
        let tt = trim(trimmed.as_slice());
        if tt.len() == 0 {
            return None;
        }
        proof {
            lemma_trim_end_len(line@);
            lemma_strip_comment_len(t1@);
        }
        self.check_indent_consistency(trimmed.as_slice(), i + 1);
        let indent = indent_width(trimmed.as_slice());
        proof {
            lemma_lead_ws(trimmed@);
        }
        let content = slice_of(trimmed.as_slice(), indent, trimmed.len());
        self.emit_indent_tokens(indent);
        if is_key_colon_chars(content.as_slice()) {
            return self.lex_key_colon_block(i, indent, content.as_slice(), line.as_slice());
        }
        let ghost before = tviews(self.tokens@);
        self.lex_line(content.as_slice(), indent);
        let ghost lexed = tviews(self.tokens@);
        let empty: Vec<char> = Vec::new();
        let ln = self.line;
        self.push_plain(TokenType::Newline, empty.as_slice(), ln, line.len() + 1);
        proof {
            let nl = (TokenType::Newline, Seq::<char>::empty(), ln as nat, line@.len() + 1);
            assert(lexed.push(nl) =~= lexed + seq![nl]);
        }
        None
    }
}

pub proof fn lemma_trim_end_len(s: Seq<char>)
    ensures
        trim_end_s(s).len() <= s.len(),
    decreases s.len(),
{
    if s.len() > 0 && is_ws(s.last()) {
        lemma_trim_end_len(s.drop_last());
    }
}

pub proof fn lemma_strip_comment_len(s: Seq<char>)
    ensures
        strip_comment_s(s).len() <= s.len(),
{
    lemma_trim_end_len(s);
}


/// `s` without a leading byte-order mark.
pub open spec fn strip_bom(s: Seq<char>) -> Seq<char> {
    if s.len() > 0 && s[0] == '\u{feff}' {
        s.drop_first()
    } else {
        s
    }
}

/// `s` with every `\r\n` and every remaining `\r` turned into `\n`.
pub open spec fn normalize_nl(s: Seq<char>) -> Seq<char>
    decreases s.len(),
{
    if s.len() == 0 {
        Seq::empty()
    } else if s[0] == '\r' {
        if s.len() > 1 && s[1] == '\n' {
            seq!['\n'] + normalize_nl(s.skip(2))
        } else {
            seq!['\n'] + normalize_nl(s.drop_first())
        }
    } else {
        seq![s[0]] + normalize_nl(s.drop_first())
    }
}

/// The lines of a source text: without a byte-order mark, with line endings
/// normalized, split at each newline.
pub open spec fn source_lines(input: Seq<char>) -> Seq<Seq<char>> {
    split_s(normalize_nl(strip_bom(input)), '\n')
}

pub proof fn lemma_normalize_len(s: Seq<char>)
    ensures
        normalize_nl(s).len() <= s.len(),
    decreases s.len(),
{
    if s.len() > 0 {
        if s[0] == '\r' && s.len() > 1 && s[1] == '\n' {
            lemma_normalize_len(s.skip(2));
        } else {
            lemma_normalize_len(s.drop_first());
        }
    }
}

pub proof fn lemma_split_len(s: Seq<char>, c: char, cur: Seq<char>)
    ensures
        split_acc(s, c, cur).len() <= s.len() + 1,
        forall|k: int| 0 <= k < split_acc(s, c, cur).len() ==> (#[trigger] split_acc(s, c, cur)[k]).len() <= cur.len() + s.len(),
    decreases s.len(),
{
    if s.len() > 0 {
        if s[0] == c {
            lemma_split_len(s.drop_first(), c, Seq::empty());
            let r = split_acc(s, c, cur);
            let t = split_acc(s.drop_first(), c, Seq::empty());
            assert forall|k: int| 0 <= k < r.len() implies (#[trigger] r[k]).len() <= cur.len() + s.len() by {
                if k > 0 {
                    assert(r[k] == t[k - 1]);
                }
            }
        } else {
            lemma_split_len(s.drop_first(), c, cur.push(s[0]));
        }
    }
}

/// Normalizes line endings.
fn normalize_newlines(s: &[char]) -> (r: Vec<char>)
    ensures
        r@ == normalize_nl(s@),
{
    let mut out: Vec<char> = Vec::new();
    let mut i: usize = 0;
    assert(s@.skip(0) =~= s@);
    while i < s.len()
        invariant
            i <= s@.len(),
            out@ + normalize_nl(s@.skip(i as int)) == normalize_nl(s@),
        decreases s@.len() - i,
    {
        let ghost rest = s@.skip(i as int);
        if s[i] == '\r' {
            out.push('\n');
            if i + 1 < s.len() && s[i + 1] == '\n' {
                assert(rest.skip(2) =~= s@.skip(i + 2));
                i = i + 2;
            } else {
                assert(rest.drop_first() =~= s@.skip(i + 1));
                i = i + 1;
            }
        } else {
            out.push(s[i]);
            assert(rest.drop_first() =~= s@.skip(i + 1));
            i = i + 1;
        }
    }
    assert(s@.skip(i as int) =~= Seq::<char>::empty());
    assert(out@ + Seq::<char>::empty() =~= out@);
    out
}

/// The text of the value after the first colon of a 1-based source line.
pub open spec fn raw_value_s(ls: Seq<Seq<char>>, n: nat) -> Seq<char> {
    if n < 1 || n > ls.len() {
        Seq::empty()
    } else {
        let l = trim_end_s(ls[n - 1]);
        match find_s(l, ':') {
            Some(ci) => maybe_strip_s(trim_s(l.skip(ci as int + 1))),
            None => Seq::empty(),
        }
    }
}

impl Scanner {
    /// Closes every open block at the end of input.
    fn emit_remaining_outdents(&mut self)
        requires
            old(self).inv(),
        ensures
            final(self).inv(),
            final(self).indent_stack@.len() == 1,
            final(self).lines == old(self).lines,
            final(self).filename == old(self).filename,
            final(self).line == old(self).line,
            final(self).col == old(self).col,
            final(self).token_idx == old(self).token_idx,
            final(self).diagnostics == old(self).diagnostics,
            extends(final(self).tokens@, old(self).tokens@),
            tviews(final(self).tokens@) == tviews(old(self).tokens@) + repeat_tok(
                (old(self).indent_stack@.len() - 1) as nat,
                TokenType::Outdent,
                old(self).line as nat,
                1,
            ),
    {
        while self.indent_stack.len() > 1
            invariant
                self.inv(),
                self.lines == old(self).lines,
                self.filename == old(self).filename,
                self.line == old(self).line,
                self.col == old(self).col,
                self.token_idx == old(self).token_idx,
                self.diagnostics == old(self).diagnostics,
                extends(self.tokens@, old(self).tokens@),
                self.indent_stack@.len() <= old(self).indent_stack@.len(),
                tviews(self.tokens@) == tviews(old(self).tokens@) + repeat_tok(
                    (old(self).indent_stack@.len() - self.indent_stack@.len()) as nat,
                    TokenType::Outdent,
                    old(self).line as nat,
                    1,
                ),
            decreases self.indent_stack@.len(),
        {
            let ghost before = self.indent_stack@;
            let ghost t0 = self.tokens@;
            self.indent_stack.pop();
            let empty: Vec<char> = Vec::new();
            let t = make_token(TokenType::Outdent, empty.as_slice(), &self.filename, self.line, 1);
            proof {
                lemma_push_token(self.tokens@, t);
                assert(self.indent_stack@ =~= before.drop_last());
            }
            self.tokens.push(t);
            proof {
                let n = (old(self).indent_stack@.len() - before.len()) as nat;
                assert(tviews(self.tokens@) =~= tviews(t0).push(tview(t)));
                assert(repeat_tok(n + 1, TokenType::Outdent, old(self).line as nat, 1) =~= repeat_tok(
                    n,
                    TokenType::Outdent,
                    old(self).line as nat,
                    1,
                ).push(tview(t)));
            }
        }
    }

    /// Lexes every line, closes the open blocks and ends the stream.
    fn lex(&mut self)
        requires
            old(self).inv(),
            old(self).tokens@.len() == 0,
        ensures
            final(self).lines == old(self).lines,
            final(self).filename == old(self).filename,
            final(self).token_idx == old(self).token_idx,
            final(self).tokens@.len() > 0,
            final(self).tokens@.last().token_type == TokenType::Eof,
            no_eof(final(self).tokens@.drop_last()),
            depth(final(self).tokens@) == 0,
            prefix_ok(final(self).tokens@),
            toks_in(final(self).tokens@, final(self).filename@),
            diags_in(final(self).diagnostics@, final(self).filename@),
            all_errors(final(self).diagnostics@),
            extends(final(self).diagnostics@, old(self).diagnostics@),
            ({
                let st = lines_s(views(old(self).lines@), 0, lex_state(*old(self)), old(self).filename@);
                &&& tviews(final(self).tokens@) == finished_toks(st)
                &&& dviews(final(self).diagnostics@) == st.diags
                &&& final(self).line == st.line
            }),
            old(self).col == 1 ==> final(self).col == 1,
    {
        let ghost ls = views(self.lines@);
        let ghost f = self.filename@;
        let ghost goal = lines_s(ls, 0, lex_state(*self), f);
        let mut i: usize = 0;
        while i < self.lines.len()
            invariant
                self.inv(),
                i <= self.lines@.len(),
                self.lines == old(self).lines,
                self.filename == old(self).filename,
                self.token_idx == old(self).token_idx,
                extends(self.diagnostics@, old(self).diagnostics@),
                ls == views(self.lines@),
                f == self.filename@,
                goal == lines_s(views(old(self).lines@), 0, lex_state(*old(self)), old(self).filename@),
                lines_s(ls, i as nat, lex_state(*self), f) == goal,
                old(self).col == 1 ==> self.col == 1,
            decreases self.lines@.len() - i,
        {
            let ghost st_before = lex_state(*self);
            let ghost i0 = i as nat;
            proof {
                lemma_line_next(ls, i0, st_before, f);
            }
            match self.lex_one_line(i) {
                Some(k) => {
                    i = k;
                },
                None => {
                    i += 1;
                },
            }
            assert(lines_s(ls, i0, st_before, f) == lines_s(ls, i as nat, lex_state(*self), f));
        }
        let ghost st = lex_state(*self);
        self.emit_remaining_outdents();
        let empty: Vec<char> = Vec::new();
        let t = make_token(TokenType::Eof, empty.as_slice(), &self.filename, self.line, 1);
        proof {
            lemma_push_token(self.tokens@, t);
        }
        let ghost t0 = self.tokens@;
        self.tokens.push(t);
        assert(self.tokens@.drop_last() =~= t0);
        proof {
            assert(tviews(self.tokens@) =~= tviews(t0).push(tview(t)));
            assert(tviews(self.tokens@) =~= finished_toks(st));
        }
    }

}

impl Lexer {
    /// Tokenizes `input`. A leading byte-order mark is dropped and `\r\n` and
    /// `\r` line endings count as `\n`. The token stream ends with exactly one
    /// end-of-input token, and its indent and outdent tokens balance: no prefix
    /// closes more blocks than it opened, and the whole stream closes all.
    pub fn new(input: &str, filename: &str) -> (r: Self)
        requires
            input@.len() + 3 < usize::MAX,
        ensures
            views(r.line_list()@) == source_lines(input@),
            r.file_name()@ == filename@,
            r.position() == 0,
            r.token_list()@.len() > 0,
            r.token_list()@.last().token_type == TokenType::Eof,
            no_eof(r.token_list()@.drop_last()),
            depth(r.token_list()@) == 0,
            prefix_ok(r.token_list()@),
            toks_in(r.token_list()@, filename@),
            diags_in(r.diagnostic_list()@, filename@),
            all_errors(r.diagnostic_list()@),
            tviews(r.token_list()@) == finished_toks(lex_run(input@, filename@)),
            dviews(r.diagnostic_list()@) == lex_run(input@, filename@).diags,
            r.end_line() == lex_run(input@, filename@).line,
            r.end_column() == 1,
            r.well_formed(),
    {
        let cs = chars_of(input);
        let start: usize = if cs.len() > 0 && cs[0] == '\u{feff}' {
            1
        } else {
            0
        };
        let body = slice_of(cs.as_slice(), start, cs.len());
        assert(body@ =~= strip_bom(input@));
        let norm = normalize_newlines(body.as_slice());
        let lines = split_char(norm.as_slice(), '\n');
        proof {
            lemma_normalize_len(body@);
            lemma_split_len(norm@, '\n', Seq::empty());
            let ls = views(lines@);
            assert forall|k: int| 0 <= k < ls.len() implies (#[trigger] ls[k]).len() + 2 < usize::MAX by {
                assert(ls[k] == split_acc(norm@, '\n', Seq::empty())[k]);
            }
        }
        let mut stack: Vec<usize> = Vec::new();
        stack.push(0);
        let mut lexer = Scanner {
            lines,
            line: 1,
            col: 1,
            indent_stack: stack,
            tokens: Vec::new(),
            token_idx: 0,
            filename: string_of(chars_of(filename).as_slice()),
            diagnostics: Vec::new(),
        };
        proof {
            assert(lexer.tokens@.take(0) =~= lexer.tokens@);
            assert(tviews(lexer.tokens@) =~= Seq::empty());
            assert(dviews(lexer.diagnostics@) =~= Seq::empty());
            assert(lexer.indent_stack@ =~= seq![0usize]);
            assert(lex_state(lexer) == lex_start());
        }
        lexer.lex();
        Lexer {
            lines: lexer.lines,
            line: lexer.line,
            col: lexer.col,
            indent_stack: lexer.indent_stack,
            tokens: lexer.tokens,
            token_idx: lexer.token_idx,
            filename: lexer.filename,
            diagnostics: lexer.diagnostics,
        }
    }

    /// The next token, consumed; past the end, an end-of-input token at the
    /// lexer's last position.
    pub fn next_token(&mut self) -> (r: Token)
        ensures
            final(self).line_list() == old(self).line_list(),
            final(self).token_list() == old(self).token_list(),
            final(self).file_name() == old(self).file_name(),
            final(self).diagnostic_list() == old(self).diagnostic_list(),
            final(self).end_line() == old(self).end_line(),
            final(self).end_column() == old(self).end_column(),
            final(self).indent_levels() == old(self).indent_levels(),
            if old(self).position() < old(self).token_list()@.len() {
                r == old(self).token_list()@[old(self).position() as int] && final(self).position()
                    == old(self).position() + 1
            } else {
                &&& final(self).position() == old(self).position()
                &&& tview(r) == (TokenType::Eof, Seq::<char>::empty(), old(self).end_line() as nat, old(self).end_column() as nat)
                &&& r.location.file == old(self).file_name()
            },
            old(self).well_formed() ==> final(self).well_formed(),
            old(self).exhausted() ==> final(self).exhausted() && r.token_type == TokenType::Eof
                && r.value@ == Seq::<char>::empty(),
            r.token_type == TokenType::Eof ==> final(self).exhausted(),
    {
        proof {
            use_type_invariant(&*self);
        }
        if self.token_idx >= self.tokens.len() {
            let empty: Vec<char> = Vec::new();
            return make_token(TokenType::Eof, empty.as_slice(), &self.filename, self.line, self.col);
        }
        proof {
            if self.token_idx + 1 < self.tokens@.len() {
                assert(self.tokens@.drop_last()[self.token_idx as int] == self.tokens@[self.token_idx as int]);
            }
        }
        let t = self.tokens[self.token_idx].duplicate();
        self.token_idx += 1;
        t
    }

    /// The next token, not consumed.
    pub fn peek_token(&self) -> (r: Token)
        ensures
            if self.position() < self.token_list()@.len() {
                r == self.token_list()@[self.position() as int]
            } else {
                &&& tview(r) == (TokenType::Eof, Seq::<char>::empty(), self.end_line() as nat, self.end_column() as nat)
                &&& r.location.file == self.file_name()
            },
            self.exhausted() ==> r.token_type == TokenType::Eof && r.value@ == Seq::<char>::empty(),
    {
        if self.token_idx >= self.tokens.len() {
            let empty: Vec<char> = Vec::new();
            return make_token(TokenType::Eof, empty.as_slice(), &self.filename, self.line, self.col);
        }
        self.tokens[self.token_idx].duplicate()
    }

    /// The tokens of the whole source, end-of-input token included.
    pub fn tokens(&self) -> (r: &[Token])
        ensures
            r@ == self.token_list()@,
    {
        self.tokens.as_slice()
    }

    /// The diagnostics found while lexing.
    pub fn diagnostics(&self) -> (r: &[Diagnostic])
        ensures
            r@ == self.diagnostic_list()@,
    {
        self.diagnostics.as_slice()
    }

    /// Takes the lexer apart, handing back the diagnostics it found.
    pub(crate) fn into_diagnostics(self) -> (r: Vec<Diagnostic>)
        ensures
            r == self.diagnostics,
    {
        self.diagnostics
    }

    /// The value text after the first colon of 1-based line `line_num`, for
    /// single-line values such as `fidelity: summary:medium`.
    pub fn raw_value_text(&self, line_num: usize) -> (r: String)
        ensures
            r@ == raw_value_s(views(self.line_list()@), line_num as nat),
    {
        if line_num < 1 || line_num > self.lines.len() {
            return String::new();
        }
        assert(views(self.lines@)[line_num - 1] == self.lines@[line_num - 1]@);
        let l = trim_end(self.lines[line_num - 1].as_slice());
        proof {
            lemma_find_s(l@, ':');
        }
        match find_char(l.as_slice(), ':') {
            Some(ci) => {
                assert(ci < l.len());
                let after = slice_of(l.as_slice(), ci + 1, l.len());
                assert(after@ =~= l@.skip(ci as int + 1));
                let t = trim(after.as_slice());
                let v = maybe_strip_comment(t.as_slice());
                string_of(v.as_slice())
            },
            None => String::new(),
        }
    }
}

} // verus!

verus! {

/// Whether `s` holds no carriage return.
pub open spec fn no_cr(s: Seq<char>) -> bool {
    forall|i: int| 0 <= i < s.len() ==> s[i] != '\r'
}

/// `s` with each `\n` written as `\r\n`.
pub open spec fn crlf_s(s: Seq<char>) -> Seq<char>
    decreases s.len(),
{
    if s.len() == 0 {
        Seq::empty()
    } else if s[0] == '\n' {
        seq!['\r', '\n'] + crlf_s(s.drop_first())
    } else {
        seq![s[0]] + crlf_s(s.drop_first())
    }
}

/// `s` with each `\n` written as `\r`.
pub open spec fn cr_s(s: Seq<char>) -> Seq<char>
    decreases s.len(),
{
    if s.len() == 0 {
        Seq::empty()
    } else if s[0] == '\n' {
        seq!['\r'] + cr_s(s.drop_first())
    } else {
        seq![s[0]] + cr_s(s.drop_first())
    }
}

proof fn lemma_normalize_endings(s: Seq<char>)
    requires
        no_cr(s),
    ensures
        normalize_nl(s) == s,
        normalize_nl(crlf_s(s)) == s,
        normalize_nl(cr_s(s)) == s,
        s.len() > 0 ==> crlf_s(s).len() > 0 && cr_s(s).len() > 0,
        s.len() > 0 ==> crlf_s(s)[0] == (if s[0] == '\n' { '\r' } else { s[0] }),
        s.len() > 0 ==> cr_s(s)[0] == (if s[0] == '\n' { '\r' } else { s[0] }),
    decreases s.len(),
{
    if s.len() > 0 {
        let t = s.drop_first();
        assert(no_cr(t)) by {
            assert forall|i: int| 0 <= i < t.len() implies t[i] != '\r' by {
                assert(t[i] == s[i + 1]);
            }
        }
        lemma_normalize_endings(t);
        assert(s =~= seq![s[0]] + t);
        let x = crlf_s(s);
        let y = cr_s(s);
        if s[0] == '\n' {
            assert(x[0] == '\r' && x[1] == '\n');
            assert(x.skip(2) =~= crlf_s(t));
            assert(y[0] == '\r');
            assert(y.drop_first() =~= cr_s(t));
            if y.len() > 1 {
                assert(y[1] == cr_s(t)[0]);
            }
        } else {
            assert(x.drop_first() =~= crlf_s(t));
            assert(y.drop_first() =~= cr_s(t));
        }
    }
}

/// A leading byte-order mark and `\r\n` or lone `\r` line endings give the
/// same lines as `\n` endings, so the lexer reads all three sources alike.
pub proof fn lemma_line_endings(s: Seq<char>, f: Seq<char>)
    requires
        no_cr(s),
        s.len() == 0 || s[0] != '\u{feff}',
    ensures
        source_lines(seq!['\u{feff}'] + crlf_s(s)) == source_lines(s),
        source_lines(cr_s(s)) == source_lines(s),
        lex_run(seq!['\u{feff}'] + crlf_s(s), f) == lex_run(s, f),
        lex_run(cr_s(s), f) == lex_run(s, f),
{
    lemma_normalize_endings(s);
    assert((seq!['\u{feff}'] + crlf_s(s)).drop_first() =~= crlf_s(s));
    assert(strip_bom(seq!['\u{feff}'] + crlf_s(s)) == crlf_s(s));
    assert(strip_bom(crlf_s(s)) == crlf_s(s));
    assert(strip_bom(cr_s(s)) == cr_s(s));
    assert(strip_bom(s) == s);
}

/// Each accessor of a lexer is the field it names.
pub(crate) proof fn lemma_lexer_fields(l: Lexer)
    ensures
        l.token_list() == l.tokens,
        l.position() == l.token_idx,
        l.line_list() == l.lines,
        l.file_name() == l.filename,
        l.diagnostic_list() == l.diagnostics,
        l.end_line() == l.line,
        l.end_column() == l.col,
        l.indent_levels() == l.indent_stack,
{
}

} // verus!

verus! {

/// Where the next token starts at `j`, a comparison `<=`, `>=`, `==` or
/// `!=` is one operator token holding both characters, and lexing goes on
/// after them.
pub proof fn lemma_comparison_operator_token(s: Seq<char>, i: nat, j: nat, line: nat, indent: nat)
    requires
        i <= j,
        j + 1 < s.len(),
        skip_ws_s(s, i) == j,
        s[j as int] == '<' || s[j as int] == '>' || s[j as int] == '=' || s[j as int] == '!',
        s[j + 1int] == '=',
    ensures
        line_toks(s, i, line, indent) == seq![
            (TokenType::Operator, seq![s[j as int], '='], line, indent + j + 1),
        ] + line_toks(s, j + 2, line, indent),
{
    assert(s.subrange(j as int, j + 2int) =~= seq![s[j as int], '=']);
}

} // verus!
