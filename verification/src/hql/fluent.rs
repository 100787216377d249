//! The fluent builders and the pipe text agree: a query built by `vault`,
//! `agent`, `state`, `history` and `select` reads the same as the pipeline
//! that names the same stages, for names without `|` or quotes.

use vstd::prelude::*;

use crate::hql::pipe::{
    is_quote_char, nonblank_trimmed, optional_name_spec, split_fields_spec, split_pipeline_spec,
    split_scan, unquote_spec, SplitState,
};
use crate::hql::query::{
    first_index, pipeline_spec, select_fields_spec, stage_name, stage_rest, stage_spec, stages_spec,
    OpM,
};
use crate::text::{is_ws, join_m, split_spec, trim_end_spec, trim_spec, trim_start_spec};

verus! {

/// A name or field that reads as itself in a stage: not empty, no white
/// space at either end, and no `|`, quote or `sep` in it.
pub open spec fn plain(a: Seq<char>, sep: char) -> bool {
    &&& a.len() > 0
    &&& !is_ws(a[0])
    &&& !is_ws(a.last())
    &&& forall|i: int| 0 <= i < a.len() ==> a[i] != '|' && a[i] != sep && !is_quote_char(#[trigger] a[i])
}

/// Whether `s` holds no quote character.
pub open spec fn quote_free(s: Seq<char>) -> bool {
    forall|i: int| 0 <= i < s.len() ==> !is_quote_char(#[trigger] s[i])
}

/// Appending text without the separator extends the last piece.
proof fn lemma_split_append(x: Seq<char>, y: Seq<char>, sep: char)
    requires
        forall|i: int| 0 <= i < y.len() ==> y[i] != sep,
    ensures
        split_spec(x + y, sep) == split_spec(x, sep).update(
            split_spec(x, sep).len() - 1,
            split_spec(x, sep).last() + y,
        ),
    decreases y.len(),
{
    crate::text::lemma_split_nonempty(x, sep);
    if y.len() == 0 {
        assert(x + y =~= x);
        assert(split_spec(x, sep).last() + y =~= split_spec(x, sep).last());
        assert(split_spec(x, sep).update(split_spec(x, sep).len() - 1, split_spec(x, sep).last())
            =~= split_spec(x, sep));
    } else {
        let yd = y.drop_last();
        lemma_split_append(x, yd, sep);
        assert((x + y).drop_last() =~= x + yd);
        assert((x + y).last() == y.last());
        let r = split_spec(x + yd, sep);
        let sx = split_spec(x, sep);
        assert(r.len() == sx.len());
        assert(r.last() == sx.last() + yd);
        assert(sx.last() + yd + seq![y.last()] =~= sx.last() + y);
        assert(r.last().push(y.last()) =~= sx.last() + y);
        assert(r =~= sx.update(sx.len() - 1, sx.last() + yd));
        assert(r.update(r.len() - 1, r.last().push(y.last())) =~= sx.update(sx.len() - 1, sx.last() + y));
    }
}

/// A piece of a joined text: a stage between the padding of its neighbours'
/// separators.
pub open spec fn padded_piece(st: Seq<Seq<char>>, k: int, pre: Seq<char>, post: Seq<char>) -> Seq<char> {
    (if k > 0 {
        post
    } else {
        Seq::empty()
    }) + st[k] + (if k < st.len() - 1 {
        pre
    } else {
        Seq::empty()
    })
}

/// Splitting `st` joined by `pre + sep + post` on `sep` gives each stage
/// with the padding around it.
proof fn lemma_split_join(st: Seq<Seq<char>>, pre: Seq<char>, post: Seq<char>, sep: char)
    requires
        st.len() > 0,
        forall|k: int, i: int| 0 <= k < st.len() && 0 <= i < st[k].len() ==> #[trigger] st[k][i] != sep,
        forall|i: int| 0 <= i < pre.len() ==> pre[i] != sep,
        forall|i: int| 0 <= i < post.len() ==> post[i] != sep,
    ensures
        split_spec(join_m(st, pre + seq![sep] + post), sep) =~= Seq::new(
            st.len(),
            |k: int| padded_piece(st, k, pre, post),
        ),
    decreases st.len(),
{
    let joint = pre + seq![sep] + post;
    if st.len() == 1 {
        assert(forall|i: int| 0 <= i < st[0].len() ==> st[0][i] != sep);
        lemma_split_append(Seq::empty(), st[0], sep);
        assert(Seq::<char>::empty() + st[0] =~= st[0]);
        assert(split_spec(Seq::<char>::empty(), sep) =~= seq![Seq::<char>::empty()]);
        assert(padded_piece(st, 0, pre, post) =~= st[0]);
    } else {
        let dl = st.drop_last();
        assert forall|k: int, i: int| 0 <= k < dl.len() && 0 <= i < dl[k].len() implies #[trigger] dl[k][i] != sep by {
            assert(dl[k] == st[k]);
        }
        lemma_split_join(dl, pre, post, sep);
        let head = join_m(dl, joint);
        let r0 = split_spec(head, sep);
        assert(join_m(st, joint) == head + joint + st.last());
        lemma_split_append(head, pre, sep);
        let w = head + pre;
        let r1 = split_spec(w, sep);
        crate::text::lemma_split_nonempty(w, sep);
        assert((w + seq![sep]).drop_last() =~= w);
        let r2 = split_spec(w + seq![sep], sep);
        assert(r2 == r1.push(Seq::<char>::empty()));
        let last = st.last();
        assert(forall|i: int| 0 <= i < last.len() ==> last[i] != sep) by {
            assert forall|i: int| 0 <= i < last.len() implies last[i] != sep by {
                assert(st[st.len() - 1][i] == last[i]);
            }
        }
        assert forall|i: int| 0 <= i < (post + last).len() implies (post + last)[i] != sep by {
            if i < post.len() {
                assert((post + last)[i] == post[i]);
            } else {
                assert((post + last)[i] == last[i - post.len()]);
            }
        }
        lemma_split_append(w + seq![sep], post + last, sep);
        assert(w + seq![sep] + (post + last) =~= join_m(st, joint));
        let n = st.len();
        assert forall|k: int| 0 <= k < n implies #[trigger] split_spec(join_m(st, joint), sep)[k]
            == padded_piece(st, k, pre, post) by {
            if k < n - 1 {
                assert(dl[k] == st[k]);
                if k < n - 2 {
                    assert(padded_piece(dl, k, pre, post) =~= padded_piece(st, k, pre, post));
                } else {
                    assert(padded_piece(dl, k, pre, post) + pre =~= padded_piece(st, k, pre, post));
                }
            } else {
                assert(Seq::<char>::empty() + (post + last) =~= padded_piece(st, k, pre, post));
            }
        }
    }
}

/// Text that is all white space.
pub open spec fn all_ws(s: Seq<char>) -> bool {
    forall|i: int| 0 <= i < s.len() ==> is_ws(#[trigger] s[i])
}

proof fn lemma_trim_start_pad(p: Seq<char>, a: Seq<char>)
    requires
        all_ws(p),
        a.len() > 0,
        !is_ws(a[0]),
    ensures
        trim_start_spec(p + a) == a,
    decreases p.len(),
{
    if p.len() == 0 {
        assert(p + a =~= a);
    } else {
        assert((p + a).drop_first() =~= p.drop_first() + a);
        lemma_trim_start_pad(p.drop_first(), a);
    }
}

proof fn lemma_trim_end_pad(a: Seq<char>, q: Seq<char>)
    requires
        all_ws(q),
        a.len() > 0,
        !is_ws(a.last()),
    ensures
        trim_end_spec(a + q) == a,
    decreases q.len(),
{
    if q.len() == 0 {
        assert(a + q =~= a);
    } else {
        assert((a + q).drop_last() =~= a + q.drop_last());
        lemma_trim_end_pad(a, q.drop_last());
    }
}

/// A plain stage padded with white space trims back to itself.
proof fn lemma_trim_pad(p: Seq<char>, a: Seq<char>, q: Seq<char>)
    requires
        all_ws(p),
        all_ws(q),
        a.len() > 0,
        !is_ws(a[0]),
        !is_ws(a.last()),
    ensures
        trim_spec(p + a + q) == a,
{
    lemma_trim_start_pad(p, a + q);
    assert(p + a + q =~= p + (a + q));
    lemma_trim_end_pad(a, q);
}

/// Scanning text without quotes: the stages so far are the trimmed pieces
/// before the last `|`, and the text after it is the stage being read.
proof fn lemma_scan_quote_free(s: Seq<char>)
    requires
        quote_free(s),
    ensures
        split_scan(s) == (SplitState {
            stages: split_spec(s, '|').drop_last().map_values(|x: Seq<char>| trim_spec(x)),
            buf: split_spec(s, '|').last(),
            quote: None,
            esc: false,
        }),
    decreases s.len(),
{
    crate::text::lemma_split_nonempty(s, '|');
    if s.len() == 0 {
        assert(split_spec(s, '|').drop_last().map_values(|x: Seq<char>| trim_spec(x)) =~= Seq::<
            Seq<char>,
        >::empty());
    } else {
        let dl = s.drop_last();
        assert(quote_free(dl)) by {
            assert forall|i: int| 0 <= i < dl.len() implies !is_quote_char(#[trigger] dl[i]) by {
                assert(dl[i] == s[i]);
            }
        }
        lemma_scan_quote_free(dl);
        crate::text::lemma_split_nonempty(dl, '|');
        let r = split_spec(dl, '|');
        assert(!is_quote_char(s[s.len() - 1]));
        if s.last() == '|' {
            assert(r.push(Seq::<char>::empty()).drop_last() =~= r);
            assert(r.drop_last().map_values(|x: Seq<char>| trim_spec(x)).push(trim_spec(r.last()))
                =~= r.map_values(|x: Seq<char>| trim_spec(x)));
        } else {
            let u = r.update(r.len() - 1, r.last().push(s.last()));
            assert(u.drop_last() =~= r.drop_last());
        }
    }
}

/// A pipeline of plain stages joined by ` | ` splits back into the stages.
pub proof fn lemma_split_plain_stages(st: Seq<Seq<char>>)
    requires
        st.len() > 0,
        forall|k: int| 0 <= k < st.len() ==> plain(#[trigger] st[k], '|'),
    ensures
        split_pipeline_spec(join_m(st, " | "@)) == st,
{
    reveal_strlit(" | ");
    let pre = seq![' '];
    let post = seq![' '];
    assert(" | "@ =~= pre + seq!['|'] + post);
    assert forall|k: int, i: int| 0 <= k < st.len() && 0 <= i < st[k].len() implies #[trigger] st[k][i] != '|' by {
        assert(plain(st[k], '|'));
    }
    lemma_split_join(st, pre, post, '|');
    let p = join_m(st, " | "@);
    let pieces = split_spec(p, '|');
    assert(quote_free(p)) by {
        lemma_join_quote_free(st, " | "@);
    }
    lemma_scan_quote_free(p);
    assert(all_ws(pre) && all_ws(post) && all_ws(Seq::<char>::empty()));
    assert forall|k: int| 0 <= k < st.len() implies trim_spec(#[trigger] pieces[k]) == st[k] by {
        assert(plain(st[k], '|'));
        let l: Seq<char> = if k > 0 { post } else { Seq::empty() };
        let r: Seq<char> = if k < st.len() - 1 { pre } else { Seq::empty() };
        lemma_trim_pad(l, st[k], r);
    }
    let sc = split_scan(p);
    assert(sc.stages =~= st.drop_last());
    assert(trim_spec(sc.buf) == st.last());
    assert(st.drop_last().push(st.last()) =~= st);
}

proof fn lemma_join_quote_free(st: Seq<Seq<char>>, sep: Seq<char>)
    requires
        quote_free(sep),
        forall|k: int| 0 <= k < st.len() ==> plain(#[trigger] st[k], '|'),
    ensures
        quote_free(join_m(st, sep)),
    decreases st.len(),
{
    if st.len() == 1 {
        assert(plain(st[0], '|'));
    } else if st.len() > 1 {
        let dl = st.drop_last();
        assert forall|k: int| 0 <= k < dl.len() implies plain(#[trigger] dl[k], '|') by {
            assert(dl[k] == st[k]);
        }
        lemma_join_quote_free(dl, sep);
        let h = join_m(dl, sep);
        let last = st.last();
        assert(plain(st[st.len() - 1], '|'));
        let j = h + sep + last;
        assert forall|i: int| 0 <= i < j.len() implies !is_quote_char(#[trigger] j[i]) by {
            if i < h.len() {
                assert(j[i] == h[i]);
            } else if i < h.len() + sep.len() {
                assert(j[i] == sep[i - h.len()]);
            } else {
                assert(j[i] == last[i - h.len() - sep.len()]);
            }
        }
    }
}

proof fn lemma_first_index_after(p: Seq<char>, c: char, rest: Seq<char>)
    requires
        forall|i: int| 0 <= i < p.len() ==> p[i] != c,
    ensures
        first_index(p + seq![c] + rest, c) == Some(p.len() as int),
    decreases p.len(),
{
    if p.len() == 0 {
        assert((p + seq![c] + rest)[0] == c);
    } else {
        assert((p + seq![c] + rest).drop_first() =~= p.drop_first() + seq![c] + rest);
        lemma_first_index_after(p.drop_first(), c, rest);
    }
}

proof fn lemma_first_index_none(s: Seq<char>, c: char)
    requires
        forall|i: int| 0 <= i < s.len() ==> s[i] != c,
    ensures
        first_index(s, c) is None,
    decreases s.len(),
{
    if s.len() > 0 {
        lemma_first_index_none(s.drop_first(), c);
    }
}

/// Trimmed pieces of plain fields, each padded on the left, give the
/// fields back.
proof fn lemma_nonblank_pieces(fields: Seq<Seq<char>>, post: Seq<char>)
    requires
        all_ws(post),
        forall|k: int| 0 <= k < fields.len() ==> plain(#[trigger] fields[k], ','),
    ensures
        nonblank_trimmed(
            Seq::new(fields.len(), |k: int| padded_piece(fields, k, Seq::<char>::empty(), post)),
        ) =~= fields,
    decreases fields.len(),
{
    let n = fields.len();
    let pieces = Seq::new(n, |k: int| padded_piece(fields, k, Seq::<char>::empty(), post));
    if n > 0 {
        let dl = fields.drop_last();
        assert forall|k: int| 0 <= k < dl.len() implies plain(#[trigger] dl[k], ',') by {
            assert(dl[k] == fields[k]);
        }
        lemma_nonblank_pieces(dl, post);
        assert(pieces.drop_last() =~= Seq::new(
            dl.len(),
            |k: int| padded_piece(dl, k, Seq::<char>::empty(), post),
        ));
        let l: Seq<char> = if n > 1 { post } else { Seq::empty() };
        assert(plain(fields[n - 1], ','));
        assert(all_ws(Seq::<char>::empty()));
        lemma_trim_pad(l, fields[n - 1], Seq::empty());
        assert(pieces.last() =~= l + fields[n - 1] + Seq::<char>::empty());
        assert(dl.push(fields[n - 1]) =~= fields);
    }
}

/// Plain fields joined by `, ` read back as the same fields, as the pipe
/// text and as the arguments of `select`.
proof fn lemma_select_fields(fields: Seq<Seq<char>>)
    requires
        fields.len() > 0,
        forall|k: int| 0 <= k < fields.len() ==> plain(#[trigger] fields[k], ','),
    ensures
        split_fields_spec(join_m(fields, ", "@)) == fields,
        select_fields_spec(fields) == fields,
    decreases fields.len(),
{
    reveal_strlit(", ");
    let post = seq![' '];
    assert(", "@ =~= Seq::<char>::empty() + seq![','] + post);
    assert forall|k: int, i: int| 0 <= k < fields.len() && 0 <= i < fields[k].len() implies #[trigger] fields[k][i] != ',' by {
        assert(plain(fields[k], ','));
    }
    lemma_split_join(fields, Seq::empty(), post, ',');
    assert(all_ws(post));
    lemma_nonblank_pieces(fields, post);
    lemma_select_each(fields);
}

proof fn lemma_select_each(fields: Seq<Seq<char>>)
    requires
        forall|k: int| 0 <= k < fields.len() ==> plain(#[trigger] fields[k], ','),
    ensures
        select_fields_spec(fields) == fields,
    decreases fields.len(),
{
    if fields.len() > 0 {
        let dl = fields.drop_last();
        assert forall|k: int| 0 <= k < dl.len() implies plain(#[trigger] dl[k], ',') by {
            assert(dl[k] == fields[k]);
        }
        lemma_select_each(dl);
        let f = fields.last();
        assert(plain(fields[fields.len() - 1], ','));
        let one = seq![f];
        assert forall|k: int, i: int| 0 <= k < one.len() && 0 <= i < one[k].len() implies #[trigger] one[k][i] != ',' by {
        }
        lemma_split_join(one, Seq::empty(), Seq::empty(), ',');
        assert(join_m(one, seq![',']) == f);
        assert(Seq::<char>::empty() + seq![','] + Seq::<char>::empty() =~= seq![',']);
        assert(padded_piece(one, 0, Seq::empty(), Seq::empty()) =~= f);
        assert(all_ws(Seq::<char>::empty()));
        lemma_nonblank_pieces(one, Seq::empty());
        assert(Seq::new(1, |k: int| padded_piece(one, k, Seq::<char>::empty(), Seq::<char>::empty())) =~= split_spec(f, ','));
        assert(dl + one =~= fields);
    }
}

/// `w a` reads as the stage `w` with the argument `a`.
proof fn lemma_stage_parts(w: Seq<char>, a: Seq<char>)
    requires
        w.len() > 0,
        forall|i: int| 0 <= i < w.len() ==> !is_ws(#[trigger] w[i]) && w[i] != ' ',
        plain(a, '|'),
    ensures
        trim_spec(w + seq![' '] + a) == w + seq![' '] + a,
        stage_name(w + seq![' '] + a) == w,
        stage_rest(w + seq![' '] + a) == a,
        unquote_spec(a) == a,
{
    let st = w + seq![' '] + a;
    assert(all_ws(Seq::<char>::empty()));
    assert(st[0] == w[0]);
    assert(st.last() == a.last());
    lemma_trim_pad(Seq::empty(), st, Seq::empty());
    assert(Seq::<char>::empty() + st + Seq::<char>::empty() =~= st);
    lemma_first_index_after(w, ' ', a);
    assert(st.take(w.len() as int) =~= w);
    assert(st.skip(w.len() as int + 1) =~= a);
    lemma_trim_pad(Seq::empty(), a, Seq::empty());
    assert(Seq::<char>::empty() + a + Seq::<char>::empty() =~= a);
    assert(!is_quote_char(a[0]));
}

/// A stage: an operator word, a space, and its argument.
pub open spec fn stage_text(word: Seq<char>, arg: Seq<char>) -> Seq<char> {
    word + seq![' '] + arg
}

proof fn lemma_join_plain(fields: Seq<Seq<char>>)
    requires
        fields.len() > 0,
        forall|k: int| 0 <= k < fields.len() ==> plain(#[trigger] fields[k], ','),
    ensures
        plain(join_m(fields, ", "@), '|'),
        join_m(fields, ", "@)[0] == fields[0][0],
    decreases fields.len(),
{
    reveal_strlit(", ");
    let j = join_m(fields, ", "@);
    assert(plain(fields[0], ','));
    if fields.len() == 1 {
    } else {
        let dl = fields.drop_last();
        assert forall|k: int| 0 <= k < dl.len() implies plain(#[trigger] dl[k], ',') by {
            assert(dl[k] == fields[k]);
        }
        lemma_join_plain(dl);
        let h = join_m(dl, ", "@);
        let last = fields.last();
        assert(plain(fields[fields.len() - 1], ','));
        assert(j == h + ", "@ + last);
        assert(dl[0] == fields[0]);
        assert forall|i: int| 0 <= i < j.len() implies j[i] != '|' && j[i] != '|' && !is_quote_char(#[trigger] j[i]) by {
            if i < h.len() {
                assert(j[i] == h[i]);
            } else if i < h.len() + 2 {
                assert(j[i] == ", "@[i - h.len()]);
            } else {
                assert(j[i] == last[i - h.len() - 2]);
            }
        }
        assert(j.last() == last.last());
    }
}

proof fn lemma_word_plain(w: Seq<char>, a: Seq<char>)
    requires
        w.len() > 0,
        forall|i: int| 0 <= i < w.len() ==> !is_ws(#[trigger] w[i]) && w[i] != ' ' && w[i] != '|'
            && !is_quote_char(w[i]),
        plain(a, '|'),
    ensures
        plain(stage_text(w, a), '|'),
{
    let st = stage_text(w, a);
    assert(st[0] == w[0]);
    assert(st.last() == a.last());
    assert forall|i: int| 0 <= i < st.len() implies st[i] != '|' && st[i] != '|' && !is_quote_char(#[trigger] st[i]) by {
        if i < w.len() {
            assert(st[i] == w[i]);
        } else if i == w.len() {
            assert(st[i] == ' ');
        } else {
            assert(st[i] == a[i - w.len() - 1]);
        }
    }
}

/// The operator word read from a bare stage.
proof fn lemma_bare_stage(w: Seq<char>)
    requires
        w.len() > 0,
        forall|i: int| 0 <= i < w.len() ==> !is_ws(#[trigger] w[i]) && w[i] != ' ' && w[i] != '|'
            && !is_quote_char(w[i]),
    ensures
        plain(w, '|'),
        trim_spec(w) == w,
        stage_name(w) == w,
        stage_rest(w) == Seq::<char>::empty(),
{
    assert(all_ws(Seq::<char>::empty()));
    lemma_trim_pad(Seq::empty(), w, Seq::empty());
    assert(Seq::<char>::empty() + w + Seq::<char>::empty() =~= w);
    lemma_first_index_none(w, ' ');
}

/// The pipe text `vault A | agent B | state | select F1, F2, ..` (or
/// `history` in place of `state`).
pub open spec fn fluent_pipeline(a: Seq<char>, b: Seq<char>, cool: bool, fields: Seq<Seq<char>>) -> Seq<char> {
    join_m(
        seq![
            stage_text("vault"@, a),
            stage_text("agent"@, b),
            if cool {
                "history"@
            } else {
                "state"@
            },
            stage_text("select"@, join_m(fields, ", "@)),
        ],
        " | "@,
    )
}

/// The fluent builders and the pipe text agree: `vault(a).agent(b).state()`
/// (or `.history()`) then `.select(fields)` builds exactly the operators that
/// `pipe` reads from `vault a | agent b | state | select f1, f2, ..`, for
/// names and fields without `|`, quotes, commas or white space at their
/// ends.
pub proof fn law_fluent_matches_pipe(a: Seq<char>, b: Seq<char>, cool: bool, fields: Seq<Seq<char>>)
    requires
        plain(a, '|'),
        plain(b, '|'),
        fields.len() > 0,
        forall|k: int| 0 <= k < fields.len() ==> plain(#[trigger] fields[k], ','),
    ensures
        pipeline_spec(fluent_pipeline(a, b, cool, fields)) == Ok::<Seq<OpM>, Seq<char>>(
            seq![
                OpM::Vault(a),
                OpM::Agent(b),
                if cool {
                    OpM::History(None)
                } else {
                    OpM::State(None)
                },
                OpM::Select(select_fields_spec(fields)),
            ],
        ),
{
    reveal_strlit("vault");
    reveal_strlit("agent");
    reveal_strlit("state");
    reveal_strlit("history");
    reveal_strlit("search");
    reveal_strlit("traverse");
    reveal_strlit("filter");
    reveal_strlit("select");
    reveal_strlit("limit");
    let third: Seq<char> = if cool { "history"@ } else { "state"@ };
    let j = join_m(fields, ", "@);
    lemma_join_plain(fields);
    lemma_select_fields(fields);
    let s1 = stage_text("vault"@, a);
    let s2 = stage_text("agent"@, b);
    let s4 = stage_text("select"@, j);
    lemma_word_plain("vault"@, a);
    lemma_word_plain("agent"@, b);
    lemma_word_plain("select"@, j);
    lemma_bare_stage(third);
    lemma_stage_parts("vault"@, a);
    lemma_stage_parts("agent"@, b);
    lemma_stage_parts("select"@, j);
    let st = seq![s1, s2, third, s4];
    assert(forall|k: int| 0 <= k < st.len() ==> plain(#[trigger] st[k], '|')) by {
        assert forall|k: int| 0 <= k < st.len() implies plain(#[trigger] st[k], '|') by {
            if k == 0 {
                assert(st[k] == s1);
            } else if k == 1 {
                assert(st[k] == s2);
            } else if k == 2 {
                assert(st[k] == third);
            } else {
                assert(st[k] == s4);
            }
        }
    }
    lemma_split_plain_stages(st);
    assert("vault"@ != "agent"@) by {
        assert("vault"@[0] != "agent"@[0]);
    }
    assert("select"@ != "search"@) by {
        assert("select"@[2] != "search"@[2]);
    }
    assert("select"@ != "filter"@) by {
        assert("select"@[0] != "filter"@[0]);
    }
    assert("state"@ != "vault"@ && "state"@ != "agent"@) by {
        assert("state"@[0] != "vault"@[0] && "state"@[0] != "agent"@[0]);
    }
    assert("history"@ != "vault"@ && "history"@ != "agent"@ && "history"@ != "state"@) by {
        assert("history"@[0] != "vault"@[0] && "history"@[0] != "agent"@[0]);
        assert("history"@.len() != "state"@.len());
    }
    assert(stage_spec(s1) == Ok::<Option<OpM>, Seq<char>>(Some(OpM::Vault(a))));
    assert(stage_spec(s2) == Ok::<Option<OpM>, Seq<char>>(Some(OpM::Agent(b))));
    assert(optional_name_spec(Seq::<char>::empty()) is None);
    assert(stage_spec(third) == Ok::<Option<OpM>, Seq<char>>(Some(
        if cool {
            OpM::History(None)
        } else {
            OpM::State(None)
        },
    )));
    assert(stage_spec(s4) == Ok::<Option<OpM>, Seq<char>>(Some(OpM::Select(fields))));
    assert(st.drop_last() =~= seq![s1, s2, third]);
    assert(seq![s1, s2, third].drop_last() =~= seq![s1, s2]);
    assert(seq![s1, s2].drop_last() =~= seq![s1]);
    assert(seq![s1].drop_last() =~= Seq::<Seq<char>>::empty());
    let op3 = if cool {
        OpM::History(None)
    } else {
        OpM::State(None)
    };
    assert(stages_spec(Seq::<Seq<char>>::empty()) == Ok::<Seq<OpM>, Seq<char>>(Seq::empty()));
    assert(seq![s1].last() == s1);
    assert(Seq::<OpM>::empty().push(OpM::Vault(a)) =~= seq![OpM::Vault(a)]);
    assert(stages_spec(seq![s1]) == Ok::<Seq<OpM>, Seq<char>>(seq![OpM::Vault(a)]));
    assert(seq![s1, s2].last() == s2);
    assert(seq![OpM::Vault(a)].push(OpM::Agent(b)) =~= seq![OpM::Vault(a), OpM::Agent(b)]);
    assert(stages_spec(seq![s1, s2]) == Ok::<Seq<OpM>, Seq<char>>(seq![OpM::Vault(a), OpM::Agent(b)]));
    assert(seq![s1, s2, third].last() == third);
    assert(seq![OpM::Vault(a), OpM::Agent(b)].push(op3) =~= seq![OpM::Vault(a), OpM::Agent(b), op3]);
    assert(stages_spec(seq![s1, s2, third]) == Ok::<Seq<OpM>, Seq<char>>(
        seq![OpM::Vault(a), OpM::Agent(b), op3],
    ));
    assert(st.last() == s4);
    assert(seq![OpM::Vault(a), OpM::Agent(b), op3].push(OpM::Select(fields)) =~= seq![
        OpM::Vault(a),
        OpM::Agent(b),
        op3,
        OpM::Select(select_fields_spec(fields)),
    ]);
    assert(stages_spec(st) == Ok::<Seq<OpM>, Seq<char>>(
        seq![OpM::Vault(a), OpM::Agent(b), op3, OpM::Select(select_fields_spec(fields))],
    ));
    assert(fluent_pipeline(a, b, cool, fields) == join_m(st, " | "@));
}

} // verus!
