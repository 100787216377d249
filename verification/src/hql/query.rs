//! The `Query` builder: operators added one by one or read from a pipeline.

use vstd::prelude::*;

use crate::error::{Error, Result};
use crate::hql::pipe::{
    optional_name_spec, parse_traverse_spec, split_fields, split_fields_chars, split_fields_spec,
    split_pipeline, split_pipeline_spec, unquote_chars, unquote_spec,
};
use crate::hql::row::opt_view;
use crate::text::{
    chars_of, copy_range, debug_quoted, debug_str, is_lit, parse_i64, parse_i64_spec, push_all,
    string_of, strings_view, trim, trim_spec,
};

verus! {

/// One pipeline operator.
#[derive(Debug)]
pub enum Op {
    Vault(String),
    Agent(String),
    /// `state` (all named desired states in scope) or `state NAME`.
    State(Option<String>),
    /// `history` / `history NAME`: causal events of the same selection.
    History(Option<String>),
    Search(String),
    Traverse { edge: String, hops: i64 },
    Filter(String),
    Select(Vec<String>),
    Limit(i64),
}

pub enum OpM {
    Vault(Seq<char>),
    Agent(Seq<char>),
    State(Option<Seq<char>>),
    History(Option<Seq<char>>),
    Search(Seq<char>),
    Traverse { edge: Seq<char>, hops: i64 },
    Filter(Seq<char>),
    Select(Seq<Seq<char>>),
    Limit(i64),
}

impl View for Op {
    type V = OpM;

    open spec fn view(&self) -> OpM {
        match self {
            Op::Vault(s) => OpM::Vault(s@),
            Op::Agent(s) => OpM::Agent(s@),
            Op::State(o) => OpM::State(opt_view(*o)),
            Op::History(o) => OpM::History(opt_view(*o)),
            Op::Search(s) => OpM::Search(s@),
            Op::Traverse { edge, hops } => OpM::Traverse { edge: edge@, hops: *hops },
            Op::Filter(s) => OpM::Filter(s@),
            Op::Select(v) => OpM::Select(strings_view(v@)),
            Op::Limit(n) => OpM::Limit(*n),
        }
    }
}

pub open spec fn ops_m(v: Seq<Op>) -> Seq<OpM> {
    v.map_values(|o: Op| o@)
}

/// Index of the first `c` in `s`.
pub open spec fn first_index(s: Seq<char>, c: char) -> Option<int>
    decreases s.len(),
{
    if s.len() == 0 {
        None
    } else if s[0] == c {
        Some(0)
    } else {
        match first_index(s.drop_first(), c) {
            Some(k) => Some(k + 1),
            None => None,
        }
    }
}

/// A stage's operator name: the text before its first space.
pub open spec fn stage_name(st: Seq<char>) -> Seq<char> {
    match first_index(st, ' ') {
        Some(k) => st.take(k),
        None => st,
    }
}

/// A stage's argument: the text after its first space, trimmed.
pub open spec fn stage_rest(st: Seq<char>) -> Seq<char> {
    match first_index(st, ' ') {
        Some(k) => trim_spec(st.skip(k + 1)),
        None => Seq::empty(),
    }
}

/// The operator one stage reads as (`None` for a blank stage), or the
/// message it is refused with.
pub open spec fn stage_spec(stage: Seq<char>) -> core::result::Result<Option<OpM>, Seq<char>> {
    let st = trim_spec(stage);
    let name = stage_name(st);
    let rest = stage_rest(st);
    if st.len() == 0 {
        Ok(None)
    } else if name == "vault"@ {
        Ok(Some(OpM::Vault(unquote_spec(rest))))
    } else if name == "agent"@ {
        if rest.len() == 0 {
            Err("agent requires a name"@)
        } else {
            Ok(Some(OpM::Agent(unquote_spec(rest))))
        }
    } else if name == "state"@ {
        Ok(Some(OpM::State(optional_name_spec(rest))))
    } else if name == "history"@ {
        Ok(Some(OpM::History(optional_name_spec(rest))))
    } else if name == "search"@ {
        Ok(Some(OpM::Search(unquote_spec(rest))))
    } else if name == "traverse"@ {
        match parse_traverse_spec(rest) {
            Ok((e, h)) => Ok(Some(OpM::Traverse { edge: e, hops: h })),
            Err(m) => Err(m),
        }
    } else if name == "filter"@ {
        Ok(Some(OpM::Filter(rest)))
    } else if name == "select"@ {
        Ok(Some(OpM::Select(split_fields_spec(rest))))
    } else if name == "limit"@ {
        match parse_i64_spec(rest) {
            Some(n) => Ok(Some(OpM::Limit(n))),
            None => Err("limit needs an integer, got "@ + debug_str(rest)),
        }
    } else {
        Err("unknown operator "@ + debug_str(name))
    }
}

/// The operators a list of stages reads as; the first refused stage decides
/// the error.
pub open spec fn stages_spec(stages: Seq<Seq<char>>) -> core::result::Result<Seq<OpM>, Seq<char>>
    decreases stages.len(),
{
    if stages.len() == 0 {
        Ok(Seq::empty())
    } else {
        match stages_spec(stages.drop_last()) {
            Err(e) => Err(e),
            Ok(ops) => match stage_spec(stages.last()) {
                Err(e) => Err(e),
                Ok(None) => Ok(ops),
                Ok(Some(o)) => Ok(ops.push(o)),
            },
        }
    }
}

/// The operators a pipeline reads as.
pub open spec fn pipeline_spec(p: Seq<char>) -> core::result::Result<Seq<OpM>, Seq<char>> {
    stages_spec(split_pipeline_spec(p))
}

/// A read-only query: the operators to run, in order, over a snapshot of
/// the store.
#[derive(Debug)]
pub struct Query {
    pub ops: Vec<Op>,
}

impl View for Query {
    type V = Seq<OpM>;

    open spec fn view(&self) -> Seq<OpM> {
        ops_m(self.ops@)
    }
}


/// Index of the first `c` in `s`.
pub fn find_char(s: &[char], c: char) -> (r: Option<usize>)
    ensures
        match r {
            Some(k) => first_index(s@, c) == Some(k as int) && k < s@.len(),
            None => first_index(s@, c) is None,
        },
{
    let mut i: usize = 0;
    assert(s@.skip(0) =~= s@);
    while i < s.len()
        invariant
            i <= s@.len(),
            first_index(s@, c) == (match first_index(s@.skip(i as int), c) {
                Some(k) => Some(k + i),
                None => None,
            }),
        decreases s.len() - i,
    {
        assert(s@.skip(i as int)[0] == s@[i as int]);
        if s[i] == c {
            return Some(i);
        }
        assert(s@.skip(i as int).drop_first() =~= s@.skip(i + 1));
        i = i + 1;
    }
    None
}

fn invalid(msg: &str) -> (r: Error)
    ensures
        r matches Error::Invalid(m) && m@ == msg@,
{
    let c = chars_of(msg);
    Error::Invalid(string_of(&c))
}

fn invalid_quoted(msg: &str, arg: &[char]) -> (r: Error)
    ensures
        r matches Error::Invalid(m) && m@ == msg@ + debug_str(arg@),
{
    let mut c = chars_of(msg);
    let q = debug_quoted(arg);
    let qc = chars_of(q.as_str());
    push_all(&mut c, &qc);
    Error::Invalid(string_of(&c))
}

/// Read one stage of a pipeline.
pub fn parse_stage(stage: &[char]) -> (r: Result<Option<Op>>)
    ensures
        match stage_spec(stage@) {
            Ok(None) => r matches Ok(None),
            Ok(Some(o)) => r matches Ok(Some(x)) && x@ == o,
            Err(m) => crate::error::is_invalid_with(r, m),
        },
{
    let st = trim(stage);
    if st.len() == 0 {
        return Ok(None);
    }
    let (name, rest): (Vec<char>, Vec<char>) = match find_char(&st, ' ') {
        Some(k) => {
            let n = copy_range(&st, 0, k);
            let tail = copy_range(&st, k + 1, st.len());
            assert(n@ =~= st@.take(k as int));
            assert(tail@ =~= st@.skip(k + 1));
            (n, trim(&tail))
        },
        None => (st, Vec::new()),
    };
    assert(name@ == stage_name(trim_spec(stage@)));
    assert(rest@ == stage_rest(trim_spec(stage@)));
    if is_lit(&name, "vault") {
        let u = unquote_chars(&rest);
        Ok(Some(Op::Vault(string_of(&u))))
    } else if is_lit(&name, "agent") {
        if rest.len() == 0 {
            return Err(invalid("agent requires a name"));
        }
        let u = unquote_chars(&rest);
        Ok(Some(Op::Agent(string_of(&u))))
    } else if is_lit(&name, "state") {
        Ok(Some(Op::State(crate::hql::pipe::optional_name(&rest))))
    } else if is_lit(&name, "history") {
        Ok(Some(Op::History(crate::hql::pipe::optional_name(&rest))))
    } else if is_lit(&name, "search") {
        let u = unquote_chars(&rest);
        Ok(Some(Op::Search(string_of(&u))))
    } else if is_lit(&name, "traverse") {
        let (edge, hops) = crate::hql::pipe::parse_traverse(&rest)?;
        Ok(Some(Op::Traverse { edge, hops }))
    } else if is_lit(&name, "filter") {
        Ok(Some(Op::Filter(string_of(&rest))))
    } else if is_lit(&name, "select") {
        Ok(Some(Op::Select(split_fields_chars(&rest))))
    } else if is_lit(&name, "limit") {
        match parse_i64(&rest) {
            Some(n) => Ok(Some(Op::Limit(n))),
            None => Err(invalid_quoted("limit needs an integer, got ", &rest)),
        }
    } else {
        Err(invalid_quoted("unknown operator ", &name))
    }
}

/// The fields of a `select` given as several arguments: each argument may
/// hold several comma-separated names.
pub open spec fn select_fields_spec(fields: Seq<Seq<char>>) -> Seq<Seq<char>>
    decreases fields.len(),
{
    if fields.len() == 0 {
        Seq::empty()
    } else {
        select_fields_spec(fields.drop_last()) + split_fields_spec(fields.last())
    }
}

pub open spec fn strs_view(v: Seq<&str>) -> Seq<Seq<char>> {
    v.map_values(|s: &str| s@)
}

impl Query {
    /// A query with no operators yet.
    pub fn new() -> (q: Query)
        ensures
            q@ == Seq::<OpM>::empty(),
    {
        let q = Query { ops: Vec::new() };
        assert(q@ =~= Seq::<OpM>::empty());
        q
    }

    fn with(self, op: Op) -> (q: Query)
        ensures
            q@ == self@.push(op@),
    {
        let mut ops = self.ops;
        let ghost before = ops@;
        ops.push(op);
        let q = Query { ops };
        assert(q@ =~= ops_m(before).push(op@));
        q
    }

    pub fn vault(self, name: &str) -> (q: Query)
        ensures
            q@ == self@.push(OpM::Vault(name@)),
    {
        let c = chars_of(name);
        self.with(Op::Vault(string_of(&c)))
    }

    pub fn agent(self, name: &str) -> (q: Query)
        ensures
            q@ == self@.push(OpM::Agent(name@)),
    {
        let c = chars_of(name);
        self.with(Op::Agent(string_of(&c)))
    }

    /// Every named desired state in scope (see `state_named` for one).
    pub fn state(self) -> (q: Query)
        ensures
            q@ == self@.push(OpM::State(None)),
    {
        self.with(Op::State(None))
    }

    pub fn state_named(self, name: &str) -> (q: Query)
        ensures
            q@ == self@.push(OpM::State(Some(name@))),
    {
        let c = chars_of(name);
        self.with(Op::State(Some(string_of(&c))))
    }

    pub fn history(self) -> (q: Query)
        ensures
            q@ == self@.push(OpM::History(None)),
    {
        self.with(Op::History(None))
    }

    pub fn history_named(self, name: &str) -> (q: Query)
        ensures
            q@ == self@.push(OpM::History(Some(name@))),
    {
        let c = chars_of(name);
        self.with(Op::History(Some(string_of(&c))))
    }

    pub fn search(self, text: &str) -> (q: Query)
        ensures
            q@ == self@.push(OpM::Search(text@)),
    {
        let c = chars_of(text);
        self.with(Op::Search(string_of(&c)))
    }

    pub fn traverse(self, edge: &str, hops: i64) -> (q: Query)
        ensures
            q@ == self@.push(OpM::Traverse { edge: edge@, hops }),
    {
        let c = chars_of(edge);
        self.with(Op::Traverse { edge: string_of(&c), hops })
    }

    pub fn filter(self, expr: &str) -> (q: Query)
        ensures
            q@ == self@.push(OpM::Filter(expr@)),
    {
        let c = chars_of(expr);
        self.with(Op::Filter(string_of(&c)))
    }

    /// `select`: each argument may name several comma-separated fields.
    pub fn select(self, fields: &[&str]) -> (q: Query)
        ensures
            q@ == self@.push(OpM::Select(select_fields_spec(strs_view(fields@)))),
    {
        let ghost fs = strs_view(fields@);
        let mut parsed: Vec<String> = Vec::new();
        let mut i: usize = 0;
        assert(fs.take(0) =~= Seq::<Seq<char>>::empty());
        assert(strings_view(parsed@) =~= Seq::<Seq<char>>::empty());
        while i < fields.len()
            invariant
                i <= fields@.len() == fs.len(),
                fs == strs_view(fields@),
                strings_view(parsed@) == select_fields_spec(fs.take(i as int)),
            decreases fields.len() - i,
        {
            let more = split_fields(fields[i]);
            let ghost before = strings_view(parsed@);
            let mut k: usize = 0;
            while k < more.len()
                invariant
                    k <= more@.len(),
                    strings_view(parsed@) == before + strings_view(more@).take(k as int),
                decreases more.len() - k,
            {
                let x = more[k].clone();
                let ghost b2 = strings_view(parsed@);
                parsed.push(x);
                assert(strings_view(parsed@) =~= b2.push(x@));
                assert(strings_view(more@).take(k + 1) =~= strings_view(more@).take(k as int).push(
                    more@[k as int]@,
                ));
                k = k + 1;
            }
            assert(strings_view(more@).take(more@.len() as int) =~= strings_view(more@));
            assert(fs.take(i + 1).drop_last() =~= fs.take(i as int));
            assert(fs.take(i + 1).last() == fields@[i as int]@);
            i = i + 1;
        }
        assert(fs.take(fs.len() as int) =~= fs);
        self.with(Op::Select(parsed))
    }

    pub fn limit(self, n: i64) -> (q: Query)
        ensures
            q@ == self@.push(OpM::Limit(n)),
    {
        self.with(Op::Limit(n))
    }

    /// Add the operators of a pipeline; the first stage that does not parse
    /// refuses the whole pipeline.
    pub fn pipe(self, pipeline: &str) -> (r: Result<Query>)
        ensures
            match pipeline_spec(pipeline@) {
                Ok(ops) => r matches Ok(q) && q@ == self@ + ops,
                Err(m) => crate::error::is_invalid_with(r, m),
            },
    {
        let stages = split_pipeline(pipeline);
        let ghost st = strings_view(stages@);
        let mut q = self;
        let mut i: usize = 0;
        assert(st.take(0) =~= Seq::<Seq<char>>::empty());
        assert(self@ + Seq::<OpM>::empty() =~= self@);
        while i < stages.len()
            invariant
                i <= stages@.len() == st.len(),
                st == strings_view(stages@),
                st == split_pipeline_spec(pipeline@),
                stages_spec(st.take(i as int)) matches Ok(ops) && q@ == self@ + ops,
            decreases stages.len() - i,
        {
            let c = chars_of(stages[i].as_str());
            assert(st.take(i + 1).drop_last() =~= st.take(i as int));
            assert(st.take(i + 1).last() == c@);
            let ghost prev = stages_spec(st.take(i as int))->Ok_0;
            match parse_stage(&c) {
                Ok(Some(op)) => {
                    q = q.with(op);
                    assert(self@ + prev.push(op@) =~= (self@ + prev).push(op@));
                },
                Ok(None) => {},
                Err(e) => {
                    proof {
                        lemma_stages_error_sticks(st, i + 1);
                    }
                    return Err(e);
                },
            }
            i = i + 1;
        }
        assert(st.take(st.len() as int) =~= st);
        Ok(q)
    }
}

/// Once a prefix of the stages is refused, so is every longer prefix.
proof fn lemma_stages_error_sticks(st: Seq<Seq<char>>, k: int)
    requires
        0 <= k <= st.len(),
        stages_spec(st.take(k)) is Err,
    ensures
        stages_spec(st) == stages_spec(st.take(k)),
    decreases st.len() - k,
{
    if k == st.len() {
        assert(st.take(k) =~= st);
    } else {
        assert(st.take(k + 1).drop_last() =~= st.take(k));
        lemma_stages_error_sticks(st, k + 1);
    }
}

/// A pipeline with a refused stage is refused: an unknown operator (such as
/// `causal`) or a malformed argument anywhere rejects the whole query, with
/// the message of the first refused stage.
pub proof fn law_refused_stage_refuses_pipeline(stages: Seq<Seq<char>>, k: int)
    requires
        0 <= k < stages.len(),
        stage_spec(stages[k]) is Err,
    ensures
        stages_spec(stages) is Err,
{
    assert(stages.take(k + 1).drop_last() =~= stages.take(k));
    assert(stages.take(k + 1).last() == stages[k]);
    assert(stages_spec(stages.take(k + 1)) is Err);
    lemma_stages_error_sticks(stages, k + 1);
}

} // verus!
