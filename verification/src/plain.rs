//! The line structure of Graphviz's `plain` output: tokens, records and
//! the errors of malformed lines. The numbers stay as text; turning them
//! into floating-point values is left to the caller.
use vstd::prelude::*;
use crate::text::{is_ws, is_whitespace, chars_of, string_of, string_chars, slice_of, split_char, split_s, views, trim, trim_s, push_lit, push_chars, push_decimal, decimal};

verus! {

/// The position of the first whitespace character of `s`, or its length.
pub open spec fn word_end(s: Seq<char>) -> nat
    decreases s.len(),
{
    if s.len() == 0 || is_ws(s[0]) {
        0
    } else {
        1 + word_end(s.drop_first())
    }
}

/// The rest of a quoted token after its opening quote: its text, up to the
/// closing quote, with `\x` read as `x`, and what follows the closing quote.
pub open spec fn quoted_tok(s: Seq<char>) -> (Seq<char>, Seq<char>)
    decreases s.len(),
{
    if s.len() == 0 {
        (Seq::empty(), Seq::empty())
    } else if s[0] == '"' {
        (Seq::empty(), s.drop_first())
    } else if s[0] == '\\' {
        if s.len() > 1 {
            let (t, r) = quoted_tok(s.skip(2));
            (seq![s[1]] + t, r)
        } else {
            (seq!['\\'], Seq::empty())
        }
    } else {
        let (t, r) = quoted_tok(s.drop_first());
        (seq![s[0]] + t, r)
    }
}

pub proof fn lemma_quoted_shorter(s: Seq<char>)
    ensures
        quoted_tok(s).1.len() <= s.len(),
    decreases s.len(),
{
    if s.len() > 0 && s[0] != '"' {
        if s[0] == '\\' {
            if s.len() > 1 {
                lemma_quoted_shorter(s.skip(2));
            }
        } else {
            lemma_quoted_shorter(s.drop_first());
        }
    }
}

pub proof fn lemma_word_end(s: Seq<char>)
    ensures
        word_end(s) <= s.len(),
    decreases s.len(),
{
    if s.len() > 0 && !is_ws(s[0]) {
        lemma_word_end(s.drop_first());
    }
}

/// The tokens of a line: words separated by whitespace, and double-quoted
/// strings.
pub open spec fn tok_s(s: Seq<char>) -> Seq<Seq<char>>
    decreases s.len(),
{
    if s.len() == 0 {
        Seq::empty()
    } else if is_ws(s[0]) {
        tok_s(s.drop_first())
    } else if s[0] == '"' {
        let (t, rest) = quoted_tok(s.drop_first());
        proof {
            lemma_quoted_shorter(s.drop_first());
        }
        seq![t] + tok_s(rest)
    } else {
        let k = word_end(s);
        proof {
            lemma_word_end(s);
        }
        seq![s.take(k as int)] + tok_s(s.skip(k as int))
    }
}

/// Reads the token that starts with a quote at `start`: its text and the
/// position after it.
fn read_quoted(s: &[char], start: usize) -> (r: (Vec<char>, usize))
    requires
        start < s@.len(),
        s@[start as int] == '"',
    ensures
        start < r.1 <= s@.len(),
        (r.0@, s@.skip(r.1 as int)) == quoted_tok(s@.skip(start + 1)),
{
    let mut token: Vec<char> = Vec::new();
    let n = s.len();
    assert(start < n);
    let mut i = start + 1;
    assert(s@.skip(i as int) =~= s@.skip(start + 1));
    while i < s.len()
        invariant
            start + 1 <= i <= s@.len(),
            token@ + quoted_tok(s@.skip(i as int)).0 == quoted_tok(s@.skip(start + 1)).0,
            quoted_tok(s@.skip(i as int)).1 == quoted_tok(s@.skip(start + 1)).1,
        decreases s@.len() - i,
    {
        let ghost rest = s@.skip(i as int);
        let ghost before = token@;
        let c = s[i];
        if c == '"' {
            assert(rest.drop_first() =~= s@.skip(i + 1));
            assert(token@ + Seq::<char>::empty() =~= token@);
            return (token, i + 1);
        }
        if c == '\\' {
            if i + 1 < s.len() {
                assert(rest.skip(2) =~= s@.skip(i + 2));
                token.push(s[i + 1]);
                i += 2;
                assert(token@ + quoted_tok(s@.skip(i as int)).0 =~= before + quoted_tok(rest).0);
            } else {
                token.push('\\');
                i += 1;
                assert(s@.skip(i as int) =~= Seq::<char>::empty());
                assert(token@ + quoted_tok(s@.skip(i as int)).0 =~= before + quoted_tok(rest).0);
            }
        } else {
            assert(rest.drop_first() =~= s@.skip(i + 1));
            token.push(c);
            i += 1;
            assert(token@ + quoted_tok(s@.skip(i as int)).0 =~= before + quoted_tok(rest).0);
        }
    }
    assert(s@.skip(i as int) =~= Seq::<char>::empty());
    assert(token@ + Seq::<char>::empty() =~= token@);
    (token, i)
}

} // verus!

verus! {

fn tokenize_chars(line: &[char]) -> (r: Vec<Vec<char>>)
    ensures
        views(r@) == tok_s(line@),
{
    let mut tokens: Vec<Vec<char>> = Vec::new();
    let mut i: usize = 0;
    assert(line@.skip(0) =~= line@);
    while i < line.len()
        invariant
            i <= line@.len(),
            views(tokens@) + tok_s(line@.skip(i as int)) == tok_s(line@),
        decreases line@.len() - i,
    {
        let ghost rest = line@.skip(i as int);
        let ghost before = views(tokens@);
        let c = line[i];
        if is_whitespace(c) {
            assert(rest.drop_first() =~= line@.skip(i + 1));
            i += 1;
        } else if c == '"' {
            let (t, next) = read_quoted(line, i);
            assert(line@.skip(i + 1) =~= rest.drop_first());
            tokens.push(t);
            assert(views(tokens@) =~= before.push(t@));
            i = next;
            assert(views(tokens@) + tok_s(line@.skip(i as int)) =~= before + tok_s(rest));
        } else {
            let mut j = i + 1;
            while j < line.len() && !is_whitespace(line[j])
                invariant
                    i < j <= line@.len(),
                    forall|k: int| i <= k < j ==> !is_ws(#[trigger] line@[k]),
                decreases line@.len() - j,
            {
                j += 1;
            }
            proof {
                lemma_word_end_at(rest, (j - i) as nat);
            }
            let t = slice_of(line, i, j);
            assert(t@ =~= rest.take((j - i) as int));
            assert(rest.skip((j - i) as int) =~= line@.skip(j as int));
            tokens.push(t);
            assert(views(tokens@) =~= before.push(t@));
            i = j;
            assert(views(tokens@) + tok_s(line@.skip(i as int)) =~= before + tok_s(rest));
        }
    }
    assert(line@.skip(i as int) =~= Seq::<char>::empty());
    assert(views(tokens@) + Seq::<Seq<char>>::empty() =~= views(tokens@));
    tokens
}

pub proof fn lemma_word_end_at(s: Seq<char>, k: nat)
    requires
        k <= s.len(),
        forall|j: int| 0 <= j < k ==> !is_ws(#[trigger] s[j]),
        k == s.len() || is_ws(s[k as int]),
    ensures
        word_end(s) == k,
    decreases k,
{
    if k > 0 {
        assert forall|j: int| 0 <= j < k - 1 implies !is_ws(#[trigger] s.drop_first()[j]) by {
            assert(s.drop_first()[j] == s[j + 1]);
        }
        if k < s.len() {
            assert(s.drop_first()[k - 1] == s[k as int]);
        }
        lemma_word_end_at(s.drop_first(), (k - 1) as nat);
    }
}

/// Splits a line into its tokens: words separated by whitespace, and
/// double-quoted strings in which a backslash takes the next character as it
/// is.
pub fn tokenize(line: &str) -> (r: Vec<String>)
    ensures
        r@.map_values(|x: String| x@) == tok_s(line@),
{
    let v = chars_of(line);
    let toks = tokenize_chars(&v);
    let mut r: Vec<String> = Vec::new();
    let mut i: usize = 0;
    while i < toks.len()
        invariant
            i <= toks@.len(),
            views(toks@) == tok_s(line@),
            r@.len() == i,
            forall|j: int| 0 <= j < i ==> (#[trigger] r@[j])@ == toks@[j]@,
        decreases toks@.len() - i,
    {
        r.push(string_of(&toks[i]));
        i += 1;
    }
    assert(r@.map_values(|x: String| x@) =~= tok_s(line@)) by {
        assert forall|j: int| 0 <= j < r@.len() implies r@.map_values(|x: String| x@)[j] == tok_s(line@)[j] by {
            assert(views(toks@)[j] == toks@[j]@);
        }
    }
    r
}

} // verus!

verus! {

/// One record of a `plain` layout, its numbers as written.
#[derive(Debug)]
pub enum PlainRecord {
    /// `graph <scale> <width> <height>`
    Graph { scale: String, width: String, height: String },
    /// `node <name> <x> <y> <width> <height> <label> ...`
    Node { name: String, x: String, y: String, width: String, height: String, label: String },
    /// `edge <from> <to> <n> <x1> <y1> ... <xn> <yn> [<label>] <style> <color>`
    Edge { from: String, to: String, points: Vec<(String, String)>, label: Option<String> },
}

/// Why a line of a `plain` layout cannot be read.
#[derive(Debug)]
pub enum PlainLineError {
    /// A line of the wrong form, with its message.
    Message(String),
    /// An edge whose point count is not an unsigned number, with that text.
    PointCount(String),
}

/// A record with its texts as character sequences.
pub enum RecView {
    Graph(Seq<char>, Seq<char>, Seq<char>),
    Node(Seq<char>, Seq<char>, Seq<char>, Seq<char>, Seq<char>, Seq<char>),
    Edge(Seq<char>, Seq<char>, Seq<(Seq<char>, Seq<char>)>, Option<Seq<char>>),
}

pub enum ErrView {
    Message(Seq<char>),
    PointCount(Seq<char>),
}

/// What one line contributes.
pub enum LineView {
    Skip,
    Stop,
    Record(RecView),
    Fail(ErrView),
}

pub open spec fn rec_view(r: PlainRecord) -> RecView {
    match r {
        PlainRecord::Graph { scale, width, height } => RecView::Graph(scale@, width@, height@),
        PlainRecord::Node { name, x, y, width, height, label } => RecView::Node(
            name@,
            x@,
            y@,
            width@,
            height@,
            label@,
        ),
        PlainRecord::Edge { from, to, points, label } => RecView::Edge(
            from@,
            to@,
            points@.map_values(|p: (String, String)| (p.0@, p.1@)),
            match label {
                Some(l) => Some(l@),
                None => None,
            },
        ),
    }
}

pub open spec fn err_view(e: PlainLineError) -> ErrView {
    match e {
        PlainLineError::Message(m) => ErrView::Message(m@),
        PlainLineError::PointCount(t) => ErrView::PointCount(t@),
    }
}

/// The `usize` a text denotes as `str::parse::<usize>` reads it.
pub open spec fn usize_text(s: Seq<char>) -> Option<nat> {
    let d = if s.len() > 0 && s[0] == '+' {
        s.drop_first()
    } else {
        s
    };
    if d.len() > 0 && crate::parser::all_digits(d) && crate::duration::dval(d) <= usize::MAX {
        Some(crate::duration::dval(d))
    } else {
        None
    }
}

/// The edge styles that tell a label is absent.
pub open spec fn style_keyword(s: Seq<char>) -> bool {
    s == "solid"@ || s == "dashed"@ || s == "dotted"@ || s == "bold"@ || s == "invis"@
}

/// What a line with tokens `t` contributes.
pub open spec fn line_s(t: Seq<Seq<char>>) -> LineView {
    if t.len() == 0 {
        LineView::Skip
    } else if t[0] == "graph"@ {
        if t.len() < 4 {
            LineView::Fail(ErrView::Message("graph line requires scale, width, height"@))
        } else {
            LineView::Record(RecView::Graph(t[1], t[2], t[3]))
        }
    } else if t[0] == "node"@ {
        if t.len() < 7 {
            LineView::Fail(ErrView::Message("node line requires name, x, y, width, height, label"@))
        } else {
            LineView::Record(RecView::Node(t[1], t[2], t[3], t[4], t[5], t[6]))
        }
    } else if t[0] == "edge"@ {
        if t.len() < 4 {
            LineView::Fail(ErrView::Message("edge line requires from, to, point count"@))
        } else {
            match usize_text(t[3]) {
                None => LineView::Fail(ErrView::PointCount(t[3])),
                Some(n) => if t.len() < 4 + 2 * n {
                    LineView::Fail(
                        ErrView::Message(
                            "edge line claims "@ + decimal(n) + " points but not enough tokens"@,
                        ),
                    )
                } else {
                    let points = Seq::new(n, |i: int| (t[4 + 2 * i], t[5 + 2 * i]));
                    let label = if t.len() > 4 + 2 * n && !style_keyword(t[(4 + 2 * n) as int]) {
                        Some(t[(4 + 2 * n) as int])
                    } else {
                        None
                    };
                    LineView::Record(RecView::Edge(t[1], t[2], points, label))
                },
            }
        }
    } else if t[0] == "stop"@ {
        LineView::Stop
    } else {
        LineView::Fail(ErrView::Message("unknown line type '"@ + t[0] + "'"@))
    }
}

/// The records of lines `i..` and the error that ends them, if any: reading
/// stops at `stop`, at the end, or at the first malformed line.
pub open spec fn records_from(lines: Seq<Seq<char>>, i: nat) -> (Seq<RecView>, Option<ErrView>)
    decreases lines.len() - i,
{
    if i >= lines.len() {
        (Seq::empty(), None)
    } else {
        match line_s(tok_s(trim_s(lines[i as int]))) {
            LineView::Skip => records_from(lines, i + 1),
            LineView::Stop => (Seq::empty(), None),
            LineView::Fail(e) => (Seq::empty(), Some(e)),
            LineView::Record(r) => {
                let (rs, e) = records_from(lines, i + 1);
                (seq![r] + rs, e)
            },
        }
    }
}

fn parse_usize_text(s: &[char]) -> (r: Option<usize>)
    ensures
        match usize_text(s@) {
            Some(n) => r == Some(n as usize),
            None => r is None,
        },
{
    let n = s.len();
    let start: usize = if n > 0 && s[0] == '+' {
        1
    } else {
        0
    };
    let d = slice_of(s, start, n);
    if d.len() == 0 {
        return None;
    }
    let mut acc: usize = 0;
    let mut i: usize = 0;
    while i < d.len()
        invariant
            i <= d@.len(),
            d@ == (if s@.len() > 0 && s@[0] == '+' {
                s@.drop_first()
            } else {
                s@
            }),
            crate::parser::all_digits(d@.take(i as int)),
            acc == crate::duration::dval(d@.take(i as int)),
        decreases d@.len() - i,
    {
        let c = d[i];
        if !('0' <= c && c <= '9') {
            assert(!crate::duration::is_digit(d@[i as int]));
            return None;
        }
        assert(d@.take(i + 1).drop_last() =~= d@.take(i as int));
        assert(d@.take(i + 1).last() == c);
        let dig = (c as u32 - 48) as usize;
        assert(crate::duration::dval(d@.take(i + 1)) == acc * 10 + dig);
        if acc > (usize::MAX - dig) / 10 {
            proof {
                crate::parser::lemma_dval_prefix_le(d@, i + 1);
                assert(acc * 10 + dig > usize::MAX) by (nonlinear_arith)
                    requires
                        acc > (usize::MAX - dig) / 10,
                        dig <= 9,
                ;
            }
            return None;
        }
        assert(acc * 10 + dig <= usize::MAX) by (nonlinear_arith)
            requires
                acc <= (usize::MAX - dig) / 10,
                dig <= 9,
        ;
        acc = acc * 10 + dig;
        i += 1;
    }
    assert(d@.take(i as int) =~= d@);
    Some(acc)
}

fn message(text: &str) -> (r: PlainLineError)
    ensures
        err_view(r) == ErrView::Message(text@),
{
    PlainLineError::Message(string_of(&chars_of(text)))
}

/// Reads one line's tokens.
fn read_line(t: &Vec<Vec<char>>) -> (r: (Option<PlainRecord>, Option<PlainLineError>, bool))
    ensures
        match line_s(views(t@)) {
            LineView::Skip => r.0 is None && r.1 is None && !r.2,
            LineView::Stop => r.0 is None && r.1 is None && r.2,
            LineView::Record(v) => (r.0 matches Some(rec) && rec_view(rec) == v) && r.1 is None && !r.2,
            LineView::Fail(e) => r.0 is None && (r.1 matches Some(err) && err_view(err) == e),
        },
{
    let ghost tv = views(t@);
    if t.len() == 0 {
        return (None, None, false);
    }
    assert(tv[0] == t@[0]@);
    if crate::text::eq_lit(&t[0], "graph") {
        if t.len() < 4 {
            return (None, Some(message("graph line requires scale, width, height")), false);
        }
        assert(tv[1] == t@[1]@ && tv[2] == t@[2]@ && tv[3] == t@[3]@);
        let r = PlainRecord::Graph { scale: string_of(&t[1]), width: string_of(&t[2]), height: string_of(&t[3]) };
        return (Some(r), None, false);
    }
    if crate::text::eq_lit(&t[0], "node") {
        if t.len() < 7 {
            return (None, Some(message("node line requires name, x, y, width, height, label")), false);
        }
        assert(tv[1] == t@[1]@ && tv[2] == t@[2]@ && tv[3] == t@[3]@);
        assert(tv[4] == t@[4]@ && tv[5] == t@[5]@ && tv[6] == t@[6]@);
        let r = PlainRecord::Node {
            name: string_of(&t[1]),
            x: string_of(&t[2]),
            y: string_of(&t[3]),
            width: string_of(&t[4]),
            height: string_of(&t[5]),
            label: string_of(&t[6]),
        };
        return (Some(r), None, false);
    }
    if crate::text::eq_lit(&t[0], "edge") {
        if t.len() < 4 {
            return (None, Some(message("edge line requires from, to, point count")), false);
        }
        assert(tv[1] == t@[1]@ && tv[2] == t@[2]@ && tv[3] == t@[3]@);
        let n = match parse_usize_text(&t[3]) {
            Some(n) => n,
            None => {
                return (None, Some(PlainLineError::PointCount(string_of(&t[3]))), false);
            },
        };
        if n > (t.len() - 4) / 2 {
            let mut m = chars_of("edge line claims ");
            push_decimal(&mut m, n as u128);
            push_lit(&mut m, " points but not enough tokens");
            assert(t@.len() < 4 + 2 * n);
            return (None, Some(PlainLineError::Message(string_of(&m))), false);
        }
        let mut points: Vec<(String, String)> = Vec::new();
        let tl = t.len();
        let mut i: usize = 0;
        while i < n
            invariant
                i <= n,
                tl == t@.len(),
                4 + 2 * n <= tl,
                tv == views(t@),
                points@.len() == i,
                forall|j: int| 0 <= j < i ==> (#[trigger] points@[j]).0@ == tv[4 + 2 * j] && points@[j].1@ == tv[5 + 2 * j],
            decreases n - i,
        {
            assert(tv[4 + 2 * i] == t@[4 + 2 * i]@ && tv[5 + 2 * i] == t@[5 + 2 * i]@);
            points.push((string_of(&t[4 + 2 * i]), string_of(&t[5 + 2 * i])));
            i += 1;
        }
        let end = 4 + 2 * n;
        let label = if t.len() > end {
            assert(tv[end as int] == t@[end as int]@);
            let c = &t[end];
            if crate::text::eq_lit(c, "solid") || crate::text::eq_lit(c, "dashed") || crate::text::eq_lit(c, "dotted")
                || crate::text::eq_lit(c, "bold") || crate::text::eq_lit(c, "invis") {
                None
            } else {
                Some(string_of(c))
            }
        } else {
            None
        };
        let ghost pv = points@.map_values(|p: (String, String)| (p.0@, p.1@));
        assert(pv =~= Seq::new(n as nat, |j: int| (tv[4 + 2 * j], tv[5 + 2 * j])));
        let r = PlainRecord::Edge { from: string_of(&t[1]), to: string_of(&t[2]), points, label };
        return (Some(r), None, false);
    }
    if crate::text::eq_lit(&t[0], "stop") {
        return (None, None, true);
    }
    let mut m = chars_of("unknown line type '");
    push_chars(&mut m, &t[0]);
    push_lit(&mut m, "'");
    (None, Some(PlainLineError::Message(string_of(&m))), false)
}

/// Reads the records of a `plain` layout up to `stop`, the end of the text
/// or the first malformed line, whose error comes along.
pub fn parse_plain_records(input: &str) -> (r: (Vec<PlainRecord>, Option<PlainLineError>))
    ensures
        (r.0@.map_values(|x: PlainRecord| rec_view(x)), match r.1 {
            Some(e) => Some(err_view(e)),
            None => None,
        }) == records_from(split_s(input@, '\n'), 0),
{
    let v = chars_of(input);
    let lines = split_char(&v, '\n');
    let ghost ls = split_s(input@, '\n');
    let mut records: Vec<PlainRecord> = Vec::new();
    let mut i: usize = 0;
    while i < lines.len()
        invariant
            i <= lines@.len(),
            views(lines@) == ls,
            ls == split_s(input@, '\n'),
            ({
                let (rs, e) = records_from(ls, i as nat);
                (records@.map_values(|x: PlainRecord| rec_view(x)) + rs, e) == records_from(ls, 0)
            }),
        decreases lines@.len() - i,
    {
        assert(ls[i as int] == lines@[i as int]@);
        let line = trim(&lines[i]);
        let toks = tokenize_chars(&line);
        let (rec, err, stop) = read_line(&toks);
        let ghost before = records@.map_values(|x: PlainRecord| rec_view(x));
        assert(views(toks@) == tok_s(trim_s(ls[i as int])));
        match err {
            Some(e) => {
                assert(records_from(ls, i as nat) == (Seq::<RecView>::empty(), Some(err_view(e))));
                assert(before + Seq::<RecView>::empty() =~= before);
                return (records, Some(e));
            },
            None => {},
        }
        if stop {
            assert(records_from(ls, i as nat) == (Seq::<RecView>::empty(), None::<ErrView>));
            assert(before + Seq::<RecView>::empty() =~= before);
            return (records, None);
        }
        match rec {
            Some(x) => {
                records.push(x);
                assert(records@.map_values(|x: PlainRecord| rec_view(x)) =~= before.push(rec_view(x)));
                let ghost (rs, e2) = records_from(ls, (i + 1) as nat);
                assert(before.push(rec_view(x)) + rs =~= before + (seq![rec_view(x)] + rs));
            },
            None => {},
        }
        i += 1;
    }
    assert(records@.map_values(|x: PlainRecord| rec_view(x)) + Seq::<RecView>::empty() =~= records@.map_values(|x: PlainRecord| rec_view(x)));
    (records, None)
}

} // verus!

verus! {

/// An edge line whose token after its points is one of Graphviz's style
/// words (`solid`, `dashed`, `dotted`, `bold`, `invis`) carries no label;
/// any other token there is the label, and with no token there is none.
pub proof fn lemma_edge_label_after_points(t: Seq<Seq<char>>, n: nat)
    requires
        t.len() >= 4,
        t[0] == "edge"@,
        usize_text(t[3]) == Some(n),
        4 + 2 * n <= t.len(),
    ensures
        line_s(t) matches LineView::Record(RecView::Edge(from, to, pts, label)) && from == t[1]
            && to == t[2] && pts.len() == n && label == if t.len() == 4 + 2 * n {
            None
        } else {
            let x = t[(4 + 2 * n) as int];
            if x == "solid"@ || x == "dashed"@ || x == "dotted"@ || x == "bold"@ || x == "invis"@ {
                None
            } else {
                Some(x)
            }
        },
{
    reveal_strlit("edge");
    reveal_strlit("graph");
    reveal_strlit("node");
    assert("edge"@ != "graph"@) by {
        assert("edge"@.len() != "graph"@.len());
    }
    assert("edge"@ != "node"@) by {
        assert("edge"@[0] != "node"@[0]);
    }
}

} // verus!
