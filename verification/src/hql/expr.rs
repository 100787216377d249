//! HQL v0 filter expressions: `==` `!=` `^=` `!^=` joined by `and` / `&&`,
//! with a `null` literal.

use vstd::prelude::*;

use crate::error::{Error, Result};
use crate::hql::row::{display_m, get_m, opt_view, CellM, Row, RowM, Value};
use crate::text::{
    chars_eq, chars_of, copy_range, debug_str, debug_quoted, is_lit, is_prefix, is_whitespace,
    is_ws, occurs_at, occurs_at_exec, starts_with, string_of, strings_view,
};

verus! {

#[derive(Debug)]
pub enum FilterExpr {
    Comparison(Comparison),
    And(Vec<Comparison>),
}

#[derive(Debug)]
pub struct Comparison {
    pub field: String,
    pub op: String,
    pub value: Option<String>,
}

pub struct ComparisonM {
    pub field: Seq<char>,
    pub op: Seq<char>,
    pub value: Option<Seq<char>>,
}

pub enum FilterM {
    Comparison(ComparisonM),
    And(Seq<ComparisonM>),
}

impl View for Comparison {
    type V = ComparisonM;

    open spec fn view(&self) -> ComparisonM {
        ComparisonM { field: self.field@, op: self.op@, value: opt_view(self.value) }
    }
}

pub open spec fn comparisons_m(v: Seq<Comparison>) -> Seq<ComparisonM> {
    v.map_values(|c: Comparison| c@)
}

impl View for FilterExpr {
    type V = FilterM;

    open spec fn view(&self) -> FilterM {
        match self {
            FilterExpr::Comparison(c) => FilterM::Comparison(c@),
            FilterExpr::And(parts) => FilterM::And(comparisons_m(parts@)),
        }
    }
}

/// How a comparison judges a cell. Text compares by the cell's display form;
/// `== null` holds of null and the empty string, `!= null` of anything else;
/// prefix tests against `null` never hold.
pub open spec fn compare_m(left: CellM, op: Seq<char>, right: Option<Seq<char>>) -> bool {
    let is_null = left is Null;
    let empty_str = left == CellM::Str(Seq::empty());
    let text = display_m(left);
    if op == "=="@ {
        match right {
            None => is_null || empty_str,
            Some(r) => !is_null && text == r,
        }
    } else if op == "!="@ {
        match right {
            None => !is_null && !empty_str,
            Some(r) => is_null || text != r,
        }
    } else if op == "^="@ {
        match right {
            None => false,
            Some(r) => !is_null && is_prefix(r, text),
        }
    } else if op == "!^="@ {
        match right {
            None => false,
            Some(r) => is_null || !is_prefix(r, text),
        }
    } else {
        false
    }
}

/// What each operator asks of a row, against a literal `v`: `^= v` holds
/// exactly when the field's cell is not null and its text begins with `v`
/// (its first `v.len()` characters are those of `v`, so a text that holds
/// `v` only further on fails it); `!^= v` holds exactly when `^= v` fails;
/// `== v` exactly when the cell is not null and its text is `v`; `!= v`
/// exactly when the cell is null or its text is not `v`. Against `null`:
/// `== null` holds exactly of a null cell or an empty string, `!= null` of
/// anything else, and the prefix tests never hold.
pub proof fn law_comparison_meaning(c: ComparisonM, row: RowM)
    ensures
        c.value is None ==> ({
            let cell = get_m(row, c.field);
            let blank = cell is Null || cell == CellM::Str(Seq::empty());
            &&& c.op == "=="@ ==> (comparison_holds(c, row) <==> blank)
            &&& c.op == "!="@ ==> (comparison_holds(c, row) <==> !blank)
            &&& (c.op == "^="@ || c.op == "!^="@) ==> !comparison_holds(c, row)
        }),
        c.value is Some ==> ({
            let cell = get_m(row, c.field);
            let t = display_m(cell);
            let v = c.value->0;
            let starts = !(cell is Null) && v.len() <= t.len() && (forall|i: int|
                0 <= i < v.len() ==> t[i] == v[i]);
            &&& c.op == "^="@ ==> (comparison_holds(c, row) <==> starts)
            &&& c.op == "!^="@ ==> (comparison_holds(c, row) <==> !starts)
            &&& c.op == "=="@ ==> (comparison_holds(c, row) <==> (!(cell is Null) && t == v))
            &&& c.op == "!="@ ==> (comparison_holds(c, row) <==> (cell is Null || t != v))
        }),
{
    reveal_strlit("==");
    reveal_strlit("!=");
    reveal_strlit("^=");
    reveal_strlit("!^=");
    assert("=="@ != "!="@) by {
        assert("=="@[0] != "!="@[0]);
    }
    assert("=="@ != "^="@) by {
        assert("=="@[0] != "^="@[0]);
    }
    assert("!="@ != "^="@) by {
        assert("!="@[0] != "^="@[0]);
    }
    assert("=="@ != "!^="@) by {
        assert("=="@.len() != "!^="@.len());
    }
    assert("!="@ != "!^="@) by {
        assert("!="@.len() != "!^="@.len());
    }
    assert("^="@ != "!^="@) by {
        assert("^="@.len() != "!^="@.len());
    }
    let cell = get_m(row, c.field);
    let t = display_m(cell);
    let v = c.value->0;
    if c.value is Some && v.len() <= t.len() {
        if forall|i: int| 0 <= i < v.len() ==> t[i] == v[i] {
            assert(t.subrange(0, v.len() as int) =~= v);
        }
        if t.subrange(0, v.len() as int) == v {
            assert forall|i: int| 0 <= i < v.len() implies t[i] == v[i] by {
                assert(t.subrange(0, v.len() as int)[i] == t[i]);
            }
        }
    }
}

pub open spec fn comparison_holds(c: ComparisonM, row: RowM) -> bool {
    compare_m(get_m(row, c.field), c.op, c.value)
}

pub open spec fn filter_eval_m(f: FilterM, row: RowM) -> bool {
    match f {
        FilterM::Comparison(c) => comparison_holds(c, row),
        FilterM::And(parts) => forall|i: int| 0 <= i < parts.len() ==> comparison_holds(#[trigger] parts[i], row),
    }
}

/// Equality and inequality against the same literal always disagree, and so
/// do a prefix test and its negation: a row passes exactly one of each pair.
pub proof fn lemma_negated_operators_complement(left: CellM, right: Option<Seq<char>>)
    ensures
        compare_m(left, "=="@, right) != compare_m(left, "!="@, right),
        right is Some ==> compare_m(left, "^="@, right) != compare_m(left, "!^="@, right),
{
    reveal_strlit("==");
    reveal_strlit("!=");
    reveal_strlit("^=");
    reveal_strlit("!^=");
    assert("=="@ != "!="@) by {
        assert("=="@[0] != "!="@[0]);
    }
    assert("=="@ != "^="@) by {
        assert("=="@[0] != "^="@[0]);
    }
    assert("!="@ != "^="@) by {
        assert("!="@[0] != "^="@[0]);
    }
    assert("=="@ != "!^="@) by {
        assert("=="@.len() != "!^="@.len());
    }
    assert("!="@ != "!^="@) by {
        assert("!="@.len() != "!^="@.len());
    }
    assert("^="@ != "!^="@) by {
        assert("^="@.len() != "!^="@.len());
    }
}

fn compare(left: &Value, op: &[char], right: &Option<String>) -> (r: bool)
    ensures
        r == compare_m(left@, op@, opt_view(*right)),
{
    let is_null = left.is_null();
    let empty_str = match left {
        Value::Str(s) => {
            let c = chars_of(s.as_str());
            c.len() == 0
        },
        _ => false,
    };
    assert(empty_str == (left@ == CellM::Str(Seq::empty()))) by {
        if let Value::Str(s) = left {
            if s@.len() == 0 {
                assert(s@ =~= Seq::<char>::empty());
            }
        }
    }
    let text = chars_of(left.py_str().as_str());
    if is_lit(op, "==") {
        match right {
            None => is_null || empty_str,
            Some(r) => {
                let rc = chars_of(r.as_str());
                !is_null && chars_eq(&text, &rc)
            },
        }
    } else if is_lit(op, "!=") {
        match right {
            None => !is_null && !empty_str,
            Some(r) => {
                let rc = chars_of(r.as_str());
                is_null || !chars_eq(&text, &rc)
            },
        }
    } else if is_lit(op, "^=") {
        match right {
            None => false,
            Some(r) => {
                let rc = chars_of(r.as_str());
                !is_null && starts_with(&text, &rc)
            },
        }
    } else if is_lit(op, "!^=") {
        match right {
            None => false,
            Some(r) => {
                let rc = chars_of(r.as_str());
                is_null || !starts_with(&text, &rc)
            },
        }
    } else {
        false
    }
}

impl Comparison {
    pub fn eval(&self, row: &Row) -> (r: bool)
        ensures
            r == comparison_holds(self@, row@),
    {
        let left = row.get(self.field.as_str());
        let op = chars_of(self.op.as_str());
        compare(&left, &op, &self.value)
    }
}

impl FilterExpr {
    pub fn eval(&self, row: &Row) -> (r: bool)
        ensures
            r == filter_eval_m(self@, row@),
    {
        match self {
            FilterExpr::Comparison(c) => c.eval(row),
            FilterExpr::And(parts) => {
                let mut i: usize = 0;
                while i < parts.len()
                    invariant
                        i <= parts@.len(),
                        *self == FilterExpr::And(*parts),
                        forall|k: int| 0 <= k < i ==> comparison_holds(#[trigger] comparisons_m(parts@)[k], row@),
                    decreases parts.len() - i,
                {
                    if !parts[i].eval(row) {
                        assert(comparisons_m(parts@)[i as int] == parts@[i as int]@);
                        assert(!comparison_holds(comparisons_m(parts@)[i as int], row@));
                        assert(self@ == FilterM::And(comparisons_m(parts@)));
                        let ghost ps = comparisons_m(parts@);
                        assert(0 <= i < ps.len());
                        assert(!comparison_holds(ps[i as int], row@));
                        assert(!(forall|k: int| 0 <= k < ps.len() ==> comparison_holds(#[trigger] ps[k], row@)));
                        assert(!filter_eval_m(FilterM::And(ps), row@));
                        assert(!filter_eval_m(self@, row@));
                        return false;
                    }
                    assert(comparisons_m(parts@)[i as int] == parts@[i as int]@);
                    i = i + 1;
                }
                true
            },
        }
    }
}

/// The comparison operator that starts at `i`, longest-first as the
/// operator table lists them.
pub open spec fn op_at(s: Seq<char>, i: int) -> Option<Seq<char>> {
    if occurs_at(s, i, "!^="@) {
        Some("!^="@)
    } else if occurs_at(s, i, "=="@) {
        Some("=="@)
    } else if occurs_at(s, i, "!="@) {
        Some("!="@)
    } else if occurs_at(s, i, "^="@) {
        Some("^="@)
    } else {
        None
    }
}

/// How many characters the operator at `i` spans.
pub open spec fn op_width(s: Seq<char>, i: int) -> int {
    if occurs_at(s, i, "!^="@) {
        3
    } else {
        2
    }
}

/// An operator or `&&` starts at `i`.
pub open spec fn starts_op(s: Seq<char>, i: int) -> bool {
    occurs_at(s, i, "&&"@) || op_at(s, i) is Some
}

/// Where a bare word that starts at `i` ends: at white space, an operator,
/// or the end of the text.
pub open spec fn word_end(s: Seq<char>, i: int) -> int
    decreases s.len() - i,
{
    if 0 <= i < s.len() && !is_ws(s[i]) && !starts_op(s, i) {
        word_end(s, i + 1)
    } else {
        i
    }
}

pub proof fn lemma_word_end(s: Seq<char>, i: int)
    requires
        0 <= i <= s.len(),
    ensures
        i <= word_end(s, i) <= s.len(),
    decreases s.len() - i,
{
    if 0 <= i < s.len() && !is_ws(s[i]) && !starts_op(s, i) {
        lemma_word_end(s, i + 1);
    }
}

/// The body of a quoted string whose first character is at `i`, with `\x`
/// read as `x`, and the index of the closing quote `q`; `None` when the
/// quote is not closed.
pub open spec fn quoted(s: Seq<char>, i: int, q: char) -> Option<(Seq<char>, int)>
    decreases s.len() - i,
{
    if i < 0 || i >= s.len() {
        None
    } else if s[i] == q {
        Some((Seq::empty(), i))
    } else if s[i] == '\\' && i + 1 < s.len() {
        match quoted(s, i + 2, q) {
            Some((c, e)) => Some((seq![s[i + 1]] + c, e)),
            None => None,
        }
    } else {
        match quoted(s, i + 1, q) {
            Some((c, e)) => Some((seq![s[i]] + c, e)),
            None => None,
        }
    }
}

pub proof fn lemma_quoted_end(s: Seq<char>, i: int, q: char)
    ensures
        quoted(s, i, q) matches Some((c, e)) ==> i <= e < s.len(),
    decreases s.len() - i,
{
    if 0 <= i < s.len() && s[i] != q {
        if s[i] == '\\' && i + 1 < s.len() {
            lemma_quoted_end(s, i + 2, q);
        } else {
            lemma_quoted_end(s, i + 1, q);
        }
    }
}

pub open spec fn prepend(t: Seq<char>, r: Option<Seq<Seq<char>>>) -> Option<Seq<Seq<char>>> {
    match r {
        Some(rest) => Some(seq![t] + rest),
        None => None,
    }
}

pub open spec fn prepend_all(p: Seq<Seq<char>>, r: Option<Seq<Seq<char>>>) -> Option<
    Seq<Seq<char>>,
> {
    match r {
        Some(rest) => Some(p + rest),
        None => None,
    }
}

/// The tokens of a filter from position `i` on: white space separates;
/// `&&` and the comparison operators are tokens of their own; a quoted
/// string is one token without its quotes; anything else runs to the next
/// space or operator. `None` when a quote is left open.
pub open spec fn tok(s: Seq<char>, i: int) -> Option<Seq<Seq<char>>>
    decreases s.len() - i,
{
    if i < 0 || i >= s.len() {
        Some(Seq::empty())
    } else if is_ws(s[i]) {
        tok(s, i + 1)
    } else if occurs_at(s, i, "&&"@) {
        proof {
            reveal_strlit("&&");
        }
        prepend("&&"@, tok(s, i + 2))
    } else if op_at(s, i) is Some {
        proof {
            reveal_strlit("!^=");
            reveal_strlit("==");
            reveal_strlit("!=");
            reveal_strlit("^=");
        }
        prepend(op_at(s, i)->0, tok(s, i + op_width(s, i)))
    } else if s[i] == '"' || s[i] == '\'' {
        match quoted(s, i + 1, s[i]) {
            Some((c, e)) => if e > i {
                proof {
                    lemma_quoted_end(s, i + 1, s[i]);
                }
                prepend(c, tok(s, e + 1))
            } else {
                None
            },
            None => None,
        }
    } else {
        let e = word_end(s, i);
        proof {
            lemma_word_end(s, i);
        }
        if e > i {
            prepend(s.subrange(i, e), tok(s, e))
        } else {
            None
        }
    }
}

fn op_at_exec(s: &[char], i: usize) -> (r: Option<&'static str>)
    ensures
        match r {
            Some(op) => op_at(s@, i as int) == Some(op@) && op@.len() == op_width(s@, i as int),
            None => op_at(s@, i as int) is None,
        },
{
    proof {
        reveal_strlit("!^=");
        reveal_strlit("==");
        reveal_strlit("!=");
        reveal_strlit("^=");
    }
    let a = chars_of("!^=");
    if occurs_at_exec(s, i, &a) {
        return Some("!^=");
    }
    let b = chars_of("==");
    if occurs_at_exec(s, i, &b) {
        return Some("==");
    }
    let c = chars_of("!=");
    if occurs_at_exec(s, i, &c) {
        return Some("!=");
    }
    let d = chars_of("^=");
    if occurs_at_exec(s, i, &d) {
        return Some("^=");
    }
    None
}

fn starts_op_at(s: &[char], i: usize) -> (r: bool)
    ensures
        r == starts_op(s@, i as int),
{
    let amp = chars_of("&&");
    occurs_at_exec(s, i, &amp) || op_at_exec(s, i).is_some()
}

/// The tokens of a filter expression.
pub fn tokenize(expr: &str) -> (r: Result<Vec<String>>)
    ensures
        match tok(expr@, 0) {
            Some(t) => r matches Ok(v) && strings_view(v@) == t,
            None => crate::error::is_invalid_with(r, "unterminated string"@),
        },
{
    let s = chars_of(expr);
    let n = s.len();
    let mut tokens: Vec<String> = Vec::new();
    let mut i: usize = 0;
    assert(tok(s@, 0) == prepend_all(strings_view(tokens@), tok(s@, 0))) by {
        assert(strings_view(tokens@) =~= Seq::<Seq<char>>::empty());
        match tok(s@, 0) {
            Some(t) => assert(Seq::<Seq<char>>::empty() + t =~= t),
            None => {},
        }
    }
    while i < n
        invariant
            i <= n == s@.len(),
            s@ == expr@,
            tok(s@, 0) == prepend_all(strings_view(tokens@), tok(s@, i as int)),
        decreases n - i,
    {
        let ghost pre = strings_view(tokens@);
        let ch = s[i];
        if is_whitespace(ch) {
            i = i + 1;
            continue;
        }
        let amp = chars_of("&&");
        proof {
            reveal_strlit("&&");
        }
        if occurs_at_exec(&s, i, &amp) {
            let t = string_of(&amp);
            tokens.push(t);
            proof {
                assert(strings_view(tokens@) =~= pre.push("&&"@));
                match tok(s@, i + 2) {
                    Some(rest) => assert(pre + (seq!["&&"@] + rest) =~= pre.push("&&"@) + rest),
                    None => {},
                }
            }
            i = i + 2;
            continue;
        }
        match op_at_exec(&s, i) {
            Some(op) => {
                let oc = chars_of(op);
                let t = string_of(&oc);
                tokens.push(t);
                proof {
                    assert(oc@.len() == op_width(s@, i as int));
                    assert(occurs_at(s@, i as int, op@));
                    assert(strings_view(tokens@) =~= pre.push(op@));
                    match tok(s@, i + oc@.len()) {
                        Some(rest) => assert(pre + (seq![op@] + rest) =~= pre.push(op@) + rest),
                        None => {},
                    }
                }
                i = i + oc.len();
                continue;
            },
            None => {},
        }
        if ch == '"' || ch == '\'' {
            let quote = ch;
            let mut j: usize = i + 1;
            let mut buf: Vec<char> = Vec::new();
            proof {
                assert(buf@ + Seq::<char>::empty() =~= Seq::<char>::empty());
                match quoted(s@, i + 1, quote) {
                    Some((c, e)) => assert(buf@ + c =~= c),
                    None => {},
                }
            }
            while j < n && s[j] != quote
                invariant
                    i < j <= n == s@.len(),
                    quoted(s@, i + 1, quote) == (match quoted(s@, j as int, quote) {
                        Some((c, e)) => Some((buf@ + c, e)),
                        None => None,
                    }),
                decreases n - j,
            {
                if s[j] == '\\' && j + 1 < n {
                    let x = s[j + 1];
                    let ghost before = buf@;
                    buf.push(x);
                    proof {
                        match quoted(s@, j + 2, quote) {
                            Some((c, e)) => assert(before + (seq![x] + c) =~= buf@ + c),
                            None => {},
                        }
                    }
                    j = j + 2;
                    continue;
                }
                let x = s[j];
                let ghost before = buf@;
                buf.push(x);
                proof {
                    match quoted(s@, j + 1, quote) {
                        Some((c, e)) => assert(before + (seq![x] + c) =~= buf@ + c),
                        None => {},
                    }
                }
                j = j + 1;
            }
            if j >= n {
                assert(tok(s@, i as int) is None);
                return Err(Error::Invalid(string_of(&chars_of("unterminated string"))));
            }
            proof {
                assert(quoted(s@, j as int, quote) == Some((Seq::<char>::empty(), j as int)));
                assert(buf@ + Seq::<char>::empty() =~= buf@);
            }
            let t = string_of(&buf);
            tokens.push(t);
            proof {
                assert(strings_view(tokens@) =~= pre.push(buf@));
                match tok(s@, j + 1) {
                    Some(rest) => assert(pre + (seq![buf@] + rest) =~= pre.push(buf@) + rest),
                    None => {},
                }
            }
            i = j + 1;
            continue;
        }
        let start = i;
        let mut j: usize = i;
        while j < n && !is_whitespace(s[j]) && !starts_op_at(&s, j)
            invariant
                start <= j <= n == s@.len(),
                word_end(s@, start as int) == word_end(s@, j as int),
            decreases n - j,
        {
            j = j + 1;
        }
        proof {
            assert(word_end(s@, start as int) == j);
            assert(j > start) by {
                assert(!starts_op(s@, start as int));
                assert(word_end(s@, start as int) == word_end(s@, start + 1));
                lemma_word_end(s@, start + 1);
            }
        }
        let word = copy_range(&s, start, j);
        let t = string_of(&word);
        tokens.push(t);
        proof {
            assert(strings_view(tokens@) =~= pre.push(word@));
            match tok(s@, j as int) {
                Some(rest) => assert(pre + (seq![word@] + rest) =~= pre.push(word@) + rest),
                None => {},
            }
        }
        i = j;
    }
    proof {
        assert(tok(s@, n as int) == Some(Seq::<Seq<char>>::empty()));
        assert(strings_view(tokens@) + Seq::<Seq<char>>::empty() =~= strings_view(tokens@));
    }
    Ok(tokens)
}


/// One of the comparison operators.
pub open spec fn is_op(t: Seq<char>) -> bool {
    t == "!^="@ || t == "=="@ || t == "!="@ || t == "^="@
}

/// The comparison that the first three tokens spell: field, operator,
/// value (`null` reads as no value).
pub open spec fn comparison_of(t: Seq<Seq<char>>) -> core::result::Result<ComparisonM, Seq<char>> {
    if t.len() < 3 {
        Err("expected field OP value"@)
    } else if !is_op(t[1]) {
        Err("unknown operator "@ + debug_str(t[1]))
    } else {
        Ok(
            ComparisonM {
                field: t[0],
                op: t[1],
                value: if t[2] == "null"@ {
                    None
                } else {
                    Some(t[2])
                },
            },
        )
    }
}

/// The comparisons that follow the first one, each after `and` or `&&`.
pub open spec fn conjuncts(t: Seq<Seq<char>>) -> core::result::Result<Seq<ComparisonM>, Seq<char>>
    decreases t.len(),
{
    if t.len() == 0 {
        Ok(Seq::empty())
    } else if t[0] != "and"@ && t[0] != "&&"@ {
        Err("expected 'and' or '&&', got "@ + debug_str(t[0]))
    } else {
        match comparison_of(t.skip(1)) {
            Err(e) => Err(e),
            Ok(c) => match conjuncts(t.skip(4)) {
                Err(e) => Err(e),
                Ok(rest) => Ok(seq![c] + rest),
            },
        }
    }
}

/// What a filter expression parses to, or the message it is refused with.
pub open spec fn parse_filter_spec(s: Seq<char>) -> core::result::Result<FilterM, Seq<char>> {
    match tok(s, 0) {
        None => Err("unterminated string"@),
        Some(t) => if t.len() == 0 {
            Err("empty filter"@)
        } else {
            match comparison_of(t) {
                Err(e) => Err(e),
                Ok(c) => match conjuncts(t.skip(3)) {
                    Err(e) => Err(e),
                    Ok(rest) => if rest.len() == 0 {
                        Ok(FilterM::Comparison(c))
                    } else {
                        Ok(FilterM::And(seq![c] + rest))
                    },
                },
            }
        },
    }
}

fn invalid(msg: &str) -> (r: Error)
    ensures
        r matches Error::Invalid(m) && m@ == msg@,
{
    let c = chars_of(msg);
    Error::Invalid(string_of(&c))
}

fn invalid_quoted(msg: &str, arg: &[char]) -> (r: Error)
    ensures
        r matches Error::Invalid(m) && m@ == msg@ + debug_str(arg@),
{
    let mut c = chars_of(msg);
    let q = debug_quoted(arg);
    let qc = chars_of(q.as_str());
    crate::text::push_all(&mut c, &qc);
    Error::Invalid(string_of(&c))
}

fn parse_comparison(tokens: &Vec<String>, at: usize) -> (r: Result<Comparison>)
    requires
        at <= tokens@.len(),
    ensures
        match comparison_of(strings_view(tokens@).skip(at as int)) {
            Ok(c) => r matches Ok(x) && x@ == c,
            Err(m) => crate::error::is_invalid_with(r, m),
        },
{
    let ghost t = strings_view(tokens@).skip(at as int);
    if tokens.len() - at < 3 {
        return Err(invalid("expected field OP value"));
    }
    assert(t[0] == tokens@[at as int]@);
    assert(t[1] == tokens@[at + 1]@);
    assert(t[2] == tokens@[at + 2]@);
    let op = chars_of(tokens[at + 1].as_str());
    let known = is_lit(&op, "!^=") || is_lit(&op, "==") || is_lit(&op, "!=") || is_lit(&op, "^=");
    if !known {
        return Err(invalid_quoted("unknown operator ", &op));
    }
    let raw = chars_of(tokens[at + 2].as_str());
    let value = if is_lit(&raw, "null") {
        None
    } else {
        Some(tokens[at + 2].clone())
    };
    Ok(Comparison { field: tokens[at].clone(), op: tokens[at + 1].clone(), value })
}

/// Parse a filter: comparisons joined by `and` / `&&`.
pub fn parse_filter(expr: &str) -> (r: Result<FilterExpr>)
    ensures
        match parse_filter_spec(expr@) {
            Ok(f) => r matches Ok(x) && x@ == f,
            Err(m) => crate::error::is_invalid_with(r, m),
        },
{
    let tokens = tokenize(expr)?;
    let ghost t = strings_view(tokens@);
    if tokens.len() == 0 {
        return Err(invalid("empty filter"));
    }
    let first = parse_comparison(&tokens, 0)?;
    assert(t.skip(0) =~= t);
    let mut parts: Vec<Comparison> = Vec::new();
    parts.push(first);
    let mut pos: usize = 3;
    assert(comparisons_m(parts@).skip(1) =~= Seq::<ComparisonM>::empty());
    while pos < tokens.len()
        invariant
            3 <= pos <= tokens@.len(),
            t == strings_view(tokens@),
            tok(expr@, 0) == Some(t),
            t.len() > 0,
            comparison_of(t) == Ok::<ComparisonM, Seq<char>>(first@),
            parts@.len() >= 1,
            comparisons_m(parts@)[0] == first@,
            conjuncts(t.skip(3)) == (match conjuncts(t.skip(pos as int)) {
                Ok(rest) => Ok(comparisons_m(parts@).skip(1) + rest),
                Err(e) => Err(e),
            }),
        decreases tokens.len() - pos,
    {
        let ghost u = t.skip(pos as int);
        assert(u[0] == tokens@[pos as int]@);
        let join = chars_of(tokens[pos].as_str());
        if !(is_lit(&join, "and") || is_lit(&join, "&&")) {
            return Err(invalid_quoted("expected 'and' or '&&', got ", &join));
        }
        assert(u.skip(1) =~= t.skip(pos + 1));
        let c = parse_comparison(&tokens, pos + 1)?;
        let ghost before = comparisons_m(parts@);
        parts.push(c);
        assert(comparisons_m(parts@) =~= before.push(c@));
        assert(u.skip(4) =~= t.skip(pos + 4));
        proof {
            match conjuncts(t.skip(pos + 4)) {
                Ok(rest) => {
                    assert(comparisons_m(parts@).skip(1) + rest =~= before.skip(1) + (seq![c@]
                        + rest));
                },
                Err(e) => {},
            }
        }
        pos = pos + 4;
    }
    proof {
        if pos > tokens@.len() {
            assert(false);
        }
        assert(t.skip(pos as int) =~= Seq::<Seq<char>>::empty());
        assert(comparisons_m(parts@).skip(1) + Seq::<ComparisonM>::empty() =~= comparisons_m(
            parts@,
        ).skip(1));
    }
    if parts.len() == 1 {
        assert(comparisons_m(parts@).skip(1) =~= Seq::<ComparisonM>::empty());
        let c = parts.pop().unwrap();
        Ok(FilterExpr::Comparison(c))
    } else {
        proof {
            assert(seq![first@] + comparisons_m(parts@).skip(1) =~= comparisons_m(parts@));
        }
        Ok(FilterExpr::And(parts))
    }
}

} // verus!
