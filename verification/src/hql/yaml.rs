//! `nodes.extra` as text: a YAML document rendered the way the Python twin
//! renders it (`[a, b]`, `{k: v}`), and the extra map built from it.

use vstd::prelude::*;

use crate::hql::row::{extra_m, ExtraMap};
use crate::text::{chars_of, i64_text, int_text, nat_text, push_all, string_of, u64_text};

verus! {

/// A parsed YAML value. Numbers that fit `i64` are `Int`, larger unsigned
/// ones `UInt`; any other number is `Float`, carrying the text it renders to.
#[derive(Debug)]
pub enum Yaml {
    Null,
    Bool(bool),
    Int(i64),
    UInt(u64),
    Float(String),
    Str(String),
    List(Vec<Yaml>),
    Mapping(Vec<(Yaml, Yaml)>),
    Tagged(Box<Yaml>),
}

/// Flow-style text of a YAML value.
pub open spec fn flow(y: Yaml) -> Seq<char>
    decreases y,
{
    match y {
        Yaml::Null => "null"@,
        Yaml::Bool(b) => if b {
            "true"@
        } else {
            "false"@
        },
        Yaml::Int(i) => int_text(i as int),
        Yaml::UInt(u) => nat_text(u as nat),
        Yaml::Float(t) => t@,
        Yaml::Str(s) => s@,
        Yaml::List(items) => seq!['['] + flow_list(items@) + seq![']'],
        Yaml::Mapping(pairs) => seq!['{'] + flow_pairs(pairs@) + seq!['}'],
        Yaml::Tagged(inner) => flow(*inner),
    }
}

/// Items joined by `, `.
pub open spec fn flow_list(s: Seq<Yaml>) -> Seq<char>
    decreases s,
{
    if s.len() == 0 {
        Seq::empty()
    } else if s.len() == 1 {
        flow(s[0])
    } else {
        flow_list(s.drop_last()) + ", "@ + flow(s[s.len() - 1])
    }
}

/// `key: value` pairs joined by `, `.
pub open spec fn flow_pairs(s: Seq<(Yaml, Yaml)>) -> Seq<char>
    decreases s,
{
    if s.len() == 0 {
        Seq::empty()
    } else if s.len() == 1 {
        flow(s[0].0) + ": "@ + flow(s[0].1)
    } else {
        flow_pairs(s.drop_last()) + ", "@ + flow(s[s.len() - 1].0) + ": "@ + flow(
            s[s.len() - 1].1,
        )
    }
}

fn push_lit(out: &mut Vec<char>, lit: &str)
    ensures
        final(out)@ == old(out)@ + lit@,
{
    let c = chars_of(lit);
    push_all(out, &c);
}

/// Flow-style text of `y`: `[a, b]`, `{k: v}`, scalars as themselves.
pub fn yaml_flow(y: &Yaml) -> (r: Vec<char>)
    ensures
        r@ == flow(*y),
    decreases y,
{
    match y {
        Yaml::Null => chars_of("null"),
        Yaml::Bool(b) => if *b {
            chars_of("true")
        } else {
            chars_of("false")
        },
        Yaml::Int(i) => i64_text(*i),
        Yaml::UInt(u) => u64_text(*u),
        Yaml::Float(t) => chars_of(t.as_str()),
        Yaml::Str(s) => chars_of(s.as_str()),
        Yaml::List(items) => {
            let mut out: Vec<char> = Vec::new();
            out.push('[');
            let mut i: usize = 0;
            while i < items.len()
                invariant
                    i <= items@.len(),
                    out@ == seq!['['] + flow_list(items@.take(i as int)),
                    *y == Yaml::List(*items),
                decreases items.len() - i,
            {
                let ghost before = out@;
                if i > 0 {
                    push_lit(&mut out, ", ");
                }
                proof {
                    assert(decreases_to!(*y => (*y)->List_0));
                    assert(decreases_to!(*items => items@));
                    assert(decreases_to!(items@ => items@[i as int]));
                }
                let part = yaml_flow(&items[i]);
                push_all(&mut out, &part);
                proof {
                    let t = items@.take(i + 1);
                    assert(t.drop_last() =~= items@.take(i as int));
                    assert(t[t.len() - 1] == items@[i as int]);
                    if i == 0 {
                        assert(items@.take(0) =~= Seq::<Yaml>::empty());
                        assert(out@ =~= seq!['['] + flow_list(t));
                    } else {
                        assert(out@ =~= seq!['['] + flow_list(t));
                    }
                }
                i = i + 1;
            }
            assert(items@.take(items@.len() as int) =~= items@);
            out.push(']');
            out
        },
        Yaml::Mapping(pairs) => {
            let mut out: Vec<char> = Vec::new();
            out.push('{');
            let mut i: usize = 0;
            while i < pairs.len()
                invariant
                    i <= pairs@.len(),
                    out@ == seq!['{'] + flow_pairs(pairs@.take(i as int)),
                    *y == Yaml::Mapping(*pairs),
                decreases pairs.len() - i,
            {
                if i > 0 {
                    push_lit(&mut out, ", ");
                }
                proof {
                    assert(decreases_to!(*y => (*y)->Mapping_0));
                    assert(decreases_to!(*pairs => pairs@));
                    assert(decreases_to!(pairs@ => pairs@[i as int]));
                    assert(decreases_to!(pairs@[i as int] => pairs@[i as int].0));
                    assert(decreases_to!(pairs@[i as int] => pairs@[i as int].1));
                }
                let k = yaml_flow(&pairs[i].0);
                push_all(&mut out, &k);
                push_lit(&mut out, ": ");
                let v = yaml_flow(&pairs[i].1);
                push_all(&mut out, &v);
                proof {
                    let t = pairs@.take(i + 1);
                    assert(t.drop_last() =~= pairs@.take(i as int));
                    assert(t[t.len() - 1] == pairs@[i as int]);
                    assert(out@ =~= seq!['{'] + flow_pairs(t));
                }
                i = i + 1;
            }
            assert(pairs@.take(pairs@.len() as int) =~= pairs@);
            out.push('}');
            out
        },
        Yaml::Tagged(inner) => {
            let v: &Yaml = inner;
            yaml_flow(v)
        },
    }
}

/// Text form of a YAML value; `None` only for null.
pub open spec fn text_m(y: Yaml) -> Option<Seq<char>> {
    match y {
        Yaml::Null => None,
        _ => Some(flow(y)),
    }
}

/// Text form of a YAML value; `None` only for null.
pub fn yaml_text(y: &Yaml) -> (r: Option<String>)
    ensures
        crate::hql::row::opt_view(r) == text_m(*y),
{
    match y {
        Yaml::Null => None,
        _ => {
            let v = yaml_flow(y);
            Some(string_of(&v))
        },
    }
}

/// The extra-map entry for one YAML key / value pair: a null key reads as
/// `null`.
pub open spec fn entry_m(p: (Yaml, Yaml)) -> (Seq<char>, Option<Seq<char>>) {
    let key = match text_m(p.0) {
        Some(k) => k,
        None => "null"@,
    };
    (key, text_m(p.1))
}

/// The extra map of a document: a mapping's entries, latest first, so a
/// lookup finds the value that a later duplicate key wrote; any other
/// document gives an empty map.
pub open spec fn extra_of_m(doc: Yaml) -> Seq<(Seq<char>, Option<Seq<char>>)> {
    match doc {
        Yaml::Mapping(pairs) => Seq::new(
            pairs@.len(),
            |i: int| entry_m(pairs@[pairs@.len() - 1 - i]),
        ),
        _ => Seq::empty(),
    }
}

/// `nodes.extra` as a map: every value renders to text (scalars as
/// themselves, sequences and mappings in flow style); a null value is `None`.
/// A document that is not a mapping gives an empty map.
pub fn extra_map_of(doc: &Yaml) -> (r: ExtraMap)
    ensures
        extra_m(r@) == extra_of_m(*doc),
{
    let mut out: ExtraMap = Vec::new();
    match doc {
        Yaml::Mapping(pairs) => {
            let n = pairs.len();
            let mut j: usize = 0;
            while j < n
                invariant
                    j <= n == pairs@.len(),
                    extra_m(out@) =~= Seq::new(
                        j as nat,
                        |i: int| entry_m(pairs@[pairs@.len() - 1 - i]),
                    ),
                decreases n - j,
            {
                let p = &pairs[n - 1 - j];
                let key = match yaml_text(&p.0) {
                    Some(k) => k,
                    None => {
                        let c = chars_of("null");
                        string_of(&c)
                    },
                };
                let val = yaml_text(&p.1);
                let ghost before = out@;
                out.push((key, val));
                assert(extra_m(out@) =~= extra_m(before).push((key@, crate::hql::row::opt_view(val))));
                j = j + 1;
            }
            out
        },
        _ => {
            assert(extra_m(out@) =~= Seq::empty());
            out
        },
    }
}

/// `nodes.extra` as a map, from its parsed YAML document: `None` stands for
/// text that is not YAML, which gives an empty map, as does any document
/// that is not a mapping.
pub fn parse_extra(doc: Option<&Yaml>) -> (r: ExtraMap)
    ensures
        extra_m(r@) == match doc {
            Some(y) => extra_of_m(*y),
            None => Seq::empty(),
        },
{
    match doc {
        Some(y) => extra_map_of(y),
        None => {
            let out: ExtraMap = Vec::new();
            assert(extra_m(out@) =~= Seq::empty());
            out
        },
    }
}

} // verus!
