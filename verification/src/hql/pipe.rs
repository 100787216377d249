//! The HQL pipeline text: stages split on `|` outside quotes, and each
//! stage read into an operator.

use vstd::prelude::*;

use crate::error::{Error, Result};
use crate::text::{
    chars_of, copy_range, debug_quoted, debug_str, i64_text, is_lit, is_whitespace, is_ws,
    parse_i64, parse_i64_spec, push_all, split_on, split_spec, string_of, strings_view, trim,
    trim_spec, views_of,
};

verus! {

/// Scanner state while splitting a pipeline: finished stages, the stage
/// being read, the open quote, and whether the next character is escaped.
pub struct SplitState {
    pub stages: Seq<Seq<char>>,
    pub buf: Seq<char>,
    pub quote: Option<char>,
    pub esc: bool,
}

pub open spec fn is_quote_char(c: char) -> bool {
    c == '"' || c == '\''
}

/// One character of the pipeline: inside quotes everything is kept (a
/// backslash keeps the next character too, so an escaped quote does not
/// close); outside, `|` ends a stage.
pub open spec fn split_step(st: SplitState, ch: char) -> SplitState {
    if st.esc {
        SplitState { buf: st.buf.push(ch), esc: false, ..st }
    } else if st.quote is Some {
        if st.quote == Some(ch) {
            SplitState { buf: st.buf.push(ch), quote: None, ..st }
        } else if ch == '\\' {
            SplitState { buf: st.buf.push(ch), esc: true, ..st }
        } else {
            SplitState { buf: st.buf.push(ch), ..st }
        }
    } else if is_quote_char(ch) {
        SplitState { buf: st.buf.push(ch), quote: Some(ch), ..st }
    } else if ch == '|' {
        SplitState { stages: st.stages.push(trim_spec(st.buf)), buf: Seq::empty(), ..st }
    } else {
        SplitState { buf: st.buf.push(ch), ..st }
    }
}

pub open spec fn split_scan(s: Seq<char>) -> SplitState
    decreases s.len(),
{
    if s.len() == 0 {
        SplitState { stages: Seq::empty(), buf: Seq::empty(), quote: None, esc: false }
    } else {
        split_step(split_scan(s.drop_last()), s.last())
    }
}

/// The stages of a pipeline, trimmed; a blank last stage is dropped.
pub open spec fn split_pipeline_spec(s: Seq<char>) -> Seq<Seq<char>> {
    let st = split_scan(s);
    if trim_spec(st.buf).len() > 0 {
        st.stages.push(trim_spec(st.buf))
    } else {
        st.stages
    }
}

/// Quote-aware `|` split. The shell is not the parser.
pub fn split_pipeline(pipeline: &str) -> (r: Vec<String>)
    ensures
        strings_view(r@) == split_pipeline_spec(pipeline@),
{
    let s = chars_of(pipeline);
    let mut stages: Vec<String> = Vec::new();
    let mut buf: Vec<char> = Vec::new();
    let mut quote: Option<char> = None;
    let mut esc = false;
    let mut i: usize = 0;
    assert(s@.take(0) =~= Seq::<char>::empty());
    assert(strings_view(stages@) =~= Seq::<Seq<char>>::empty());
    while i < s.len()
        invariant
            i <= s@.len(),
            split_scan(s@.take(i as int)) == (SplitState {
                stages: strings_view(stages@),
                buf: buf@,
                quote,
                esc,
            }),
        decreases s.len() - i,
    {
        let ch = s[i];
        assert(s@.take(i + 1).drop_last() =~= s@.take(i as int));
        assert(s@.take(i + 1).last() == ch);
        if esc {
            buf.push(ch);
            esc = false;
        } else if quote.is_some() {
            buf.push(ch);
            if quote == Some(ch) {
                quote = None;
            } else if ch == '\\' {
                esc = true;
            }
        } else if ch == '"' || ch == '\'' {
            buf.push(ch);
            quote = Some(ch);
        } else if ch == '|' {
            let t = trim(&buf);
            let ghost before = strings_view(stages@);
            let st = string_of(&t);
            stages.push(st);
            assert(strings_view(stages@) =~= before.push(t@));
            buf = Vec::new();
        } else {
            buf.push(ch);
        }
        i = i + 1;
    }
    assert(s@.take(s@.len() as int) =~= s@);
    let tail = trim(&buf);
    if tail.len() > 0 {
        let ghost before = strings_view(stages@);
        let st = string_of(&tail);
        stages.push(st);
        assert(strings_view(stages@) =~= before.push(tail@));
    }
    stages
}

/// Scanner state while reading `traverse` arguments.
pub struct ArgState {
    pub tokens: Seq<Seq<char>>,
    pub buf: Seq<char>,
    pub quote: Option<char>,
}

/// One character of an argument list: quotes group and are dropped;
/// white space outside quotes separates.
pub open spec fn arg_step(st: ArgState, ch: char) -> ArgState {
    if st.quote is Some {
        if st.quote == Some(ch) {
            ArgState { quote: None, ..st }
        } else {
            ArgState { buf: st.buf.push(ch), ..st }
        }
    } else if is_quote_char(ch) {
        ArgState { quote: Some(ch), ..st }
    } else if is_ws(ch) {
        if st.buf.len() > 0 {
            ArgState { tokens: st.tokens.push(st.buf), buf: Seq::empty(), ..st }
        } else {
            st
        }
    } else {
        ArgState { buf: st.buf.push(ch), ..st }
    }
}

pub open spec fn arg_scan(s: Seq<char>) -> ArgState
    decreases s.len(),
{
    if s.len() == 0 {
        ArgState { tokens: Seq::empty(), buf: Seq::empty(), quote: None }
    } else {
        arg_step(arg_scan(s.drop_last()), s.last())
    }
}

pub open spec fn tokenize_args_spec(s: Seq<char>) -> Seq<Seq<char>> {
    let st = arg_scan(s);
    if st.buf.len() > 0 {
        st.tokens.push(st.buf)
    } else {
        st.tokens
    }
}

/// Space-separated arguments; quotes group and are dropped.
pub fn tokenize_args(text: &[char]) -> (r: Vec<Vec<char>>)
    ensures
        views_of(r@) == tokenize_args_spec(text@),
{
    let s = text;
    let mut tokens: Vec<Vec<char>> = Vec::new();
    let mut buf: Vec<char> = Vec::new();
    let mut quote: Option<char> = None;
    let mut i: usize = 0;
    assert(s@.take(0) =~= Seq::<char>::empty());
    assert(views_of(tokens@) =~= Seq::<Seq<char>>::empty());
    while i < s.len()
        invariant
            i <= s@.len(),
            arg_scan(s@.take(i as int)) == (ArgState { tokens: views_of(tokens@), buf: buf@, quote }),
        decreases s.len() - i,
    {
        let ch = s[i];
        assert(s@.take(i + 1).drop_last() =~= s@.take(i as int));
        assert(s@.take(i + 1).last() == ch);
        if quote.is_some() {
            if quote == Some(ch) {
                quote = None;
            } else {
                buf.push(ch);
            }
        } else if ch == '"' || ch == '\'' {
            quote = Some(ch);
        } else if is_whitespace(ch) {
            if buf.len() > 0 {
                let ghost before = views_of(tokens@);
                let piece = buf;
                tokens.push(piece);
                assert(views_of(tokens@) =~= before.push(piece@));
                buf = Vec::new();
            }
        } else {
            buf.push(ch);
        }
        i = i + 1;
    }
    assert(s@.take(s@.len() as int) =~= s@);
    if buf.len() > 0 {
        let ghost before = views_of(tokens@);
        let piece = buf;
        tokens.push(piece);
        assert(views_of(tokens@) =~= before.push(piece@));
    }
    tokens
}

/// A trimmed argument without one pair of matching outer quotes.
pub open spec fn unquote_spec(s: Seq<char>) -> Seq<char> {
    let t = trim_spec(s);
    if t.len() >= 2 && is_quote_char(t[0]) && t[t.len() - 1] == t[0] {
        t.subrange(1, t.len() - 1)
    } else {
        t
    }
}

pub fn unquote_chars(text: &[char]) -> (r: Vec<char>)
    ensures
        r@ == unquote_spec(text@),
{
    let t = trim(text);
    let n = t.len();
    if n >= 2 && (t[0] == '\'' || t[0] == '"') && t[n - 1] == t[0] {
        copy_range(&t, 1, n - 1)
    } else {
        t
    }
}

/// A trimmed argument without one pair of matching outer quotes.
pub fn unquote_arg(text: &str) -> (r: String)
    ensures
        r@ == unquote_spec(text@),
{
    let c = chars_of(text);
    let u = unquote_chars(&c);
    string_of(&u)
}

/// The non-blank pieces, trimmed.
pub open spec fn nonblank_trimmed(parts: Seq<Seq<char>>) -> Seq<Seq<char>>
    decreases parts.len(),
{
    if parts.len() == 0 {
        Seq::empty()
    } else {
        let prev = nonblank_trimmed(parts.drop_last());
        let t = trim_spec(parts.last());
        if t.len() > 0 {
            prev.push(t)
        } else {
            prev
        }
    }
}

/// Comma-separated field names, trimmed, blanks dropped.
pub open spec fn split_fields_spec(s: Seq<char>) -> Seq<Seq<char>> {
    nonblank_trimmed(split_spec(s, ','))
}

pub fn split_fields_chars(text: &[char]) -> (r: Vec<String>)
    ensures
        strings_view(r@) == split_fields_spec(text@),
{
    let parts = split_on(text, ',');
    let ghost ps = views_of(parts@);
    let mut out: Vec<String> = Vec::new();
    let mut i: usize = 0;
    assert(ps.take(0) =~= Seq::<Seq<char>>::empty());
    assert(strings_view(out@) =~= Seq::<Seq<char>>::empty());
    while i < parts.len()
        invariant
            i <= parts@.len() == ps.len(),
            ps == views_of(parts@),
            strings_view(out@) == nonblank_trimmed(ps.take(i as int)),
        decreases parts.len() - i,
    {
        let t = trim(&parts[i]);
        assert(ps.take(i + 1).drop_last() =~= ps.take(i as int));
        assert(ps.take(i + 1).last() == parts@[i as int]@);
        if t.len() > 0 {
            let ghost before = strings_view(out@);
            let st = string_of(&t);
            out.push(st);
            assert(strings_view(out@) =~= before.push(t@));
        }
        i = i + 1;
    }
    assert(ps.take(ps.len() as int) =~= ps);
    out
}

/// Comma-separated field names, trimmed, blanks dropped.
pub fn split_fields(text: &str) -> (r: Vec<String>)
    ensures
        strings_view(r@) == split_fields_spec(text@),
{
    let c = chars_of(text);
    split_fields_chars(&c)
}

pub open spec fn optional_name_spec(rest: Seq<char>) -> Option<Seq<char>> {
    if rest.len() == 0 {
        None
    } else {
        Some(unquote_spec(rest))
    }
}

pub fn optional_name(rest: &[char]) -> (r: Option<String>)
    ensures
        crate::hql::row::opt_view(r) == optional_name_spec(rest@),
{
    if rest.len() == 0 {
        None
    } else {
        let u = unquote_chars(rest);
        Some(string_of(&u))
    }
}

/// `traverse` arguments from token `i` on: `--edge NAME` and `--hops N`
/// (default 1), each taking the next token; the edge is required.
pub open spec fn traverse_args(
    t: Seq<Seq<char>>,
    i: int,
    edge: Option<Seq<char>>,
    hops: i64,
) -> core::result::Result<(Seq<char>, i64), Seq<char>>
    decreases t.len() - i,
{
    if i < 0 || i >= t.len() {
        match edge {
            Some(e) => Ok((e, hops)),
            None => Err("traverse requires --edge"@),
        }
    } else if t[i] == "--edge"@ && i + 1 < t.len() {
        traverse_args(t, i + 2, Some(unquote_spec(t[i + 1])), hops)
    } else if t[i] == "--hops"@ && i + 1 < t.len() {
        match parse_i64_spec(t[i + 1]) {
            Some(h) => traverse_args(t, i + 2, edge, h),
            None => Err("invalid --hops "@ + t[i + 1]),
        }
    } else {
        Err("unknown traverse argument "@ + debug_str(t[i]))
    }
}

pub open spec fn parse_traverse_spec(rest: Seq<char>) -> core::result::Result<(Seq<char>, i64), Seq<char>> {
    traverse_args(tokenize_args_spec(rest), 0, None, 1)
}

fn invalid(msg: &str) -> (r: Error)
    ensures
        r matches Error::Invalid(m) && m@ == msg@,
{
    let c = chars_of(msg);
    Error::Invalid(string_of(&c))
}

fn invalid_with(msg: &str, arg: &[char]) -> (r: Error)
    ensures
        r matches Error::Invalid(m) && m@ == msg@ + arg@,
{
    let mut c = chars_of(msg);
    push_all(&mut c, arg);
    Error::Invalid(string_of(&c))
}

fn invalid_quoted(msg: &str, arg: &[char]) -> (r: Error)
    ensures
        r matches Error::Invalid(m) && m@ == msg@ + debug_str(arg@),
{
    let q = debug_quoted(arg);
    let qc = chars_of(q.as_str());
    invalid_with(msg, &qc)
}

/// `traverse` arguments: the edge type and the number of hops.
pub fn parse_traverse(rest: &[char]) -> (r: Result<(String, i64)>)
    ensures
        match parse_traverse_spec(rest@) {
            Ok((e, h)) => r matches Ok((x, y)) && x@ == e && y == h,
            Err(m) => crate::error::is_invalid_with(r, m),
        },
{
    let tokens = tokenize_args(rest);
    let ghost t = views_of(tokens@);
    let mut edge: Option<Vec<char>> = None;
    let mut hops: i64 = 1;
    let mut i: usize = 0;
    while i < tokens.len()
        invariant
            i <= tokens@.len() == t.len(),
            t == views_of(tokens@),
            t == tokenize_args_spec(rest@),
            parse_traverse_spec(rest@) == traverse_args(
                t,
                i as int,
                match edge {
                    Some(e) => Some(e@),
                    None => None,
                },
                hops,
            ),
        decreases tokens.len() - i,
    {
        assert(t[i as int] == tokens@[i as int]@);
        let is_edge = is_lit(&tokens[i], "--edge");
        let is_hops = is_lit(&tokens[i], "--hops");
        if is_edge && i + 1 < tokens.len() {
            assert(t[i + 1] == tokens@[i + 1]@);
            edge = Some(unquote_chars(&tokens[i + 1]));
            i = i + 2;
            continue;
        }
        if is_hops && i + 1 < tokens.len() {
            assert(t[i + 1] == tokens@[i + 1]@);
            match parse_i64(&tokens[i + 1]) {
                Some(h) => {
                    hops = h;
                },
                None => {
                    return Err(invalid_with("invalid --hops ", &tokens[i + 1]));
                },
            }
            i = i + 2;
            continue;
        }
        return Err(invalid_quoted("unknown traverse argument ", &tokens[i]));
    }
    match edge {
        Some(e) => Ok((string_of(&e), hops)),
        None => Err(invalid("traverse requires --edge")),
    }
}


} // verus!
