//! `hedron hql` surface: flag parsing and the tsv / table / json renderings.

use vstd::prelude::*;

use crate::error::{Error, Result};
use crate::hql::ops::rows_m;
use crate::hql::row::{default_m, display_m, get_m, strs_m, CellM, Row, RowM, Value};
use crate::text::{
    byte_len, chars_of, clamp_usize, debug_quoted, debug_str, hex_char, hex_digit, int_text, i64_text,
    is_lit, join, join_m, push_all, string_of, strings_view, utf8_len, views_of,
};

verus! {

#[derive(Debug)]
pub enum OutputFormat {
    Tsv,
    Table,
    Json,
}

impl OutputFormat {
    /// `tsv`, `table` or `json`.
    pub fn parse(raw: &str) -> (r: Result<OutputFormat>)
        ensures
            raw@ == "tsv"@ ==> r matches Ok(OutputFormat::Tsv),
            raw@ == "table"@ ==> r matches Ok(OutputFormat::Table),
            raw@ == "json"@ ==> r matches Ok(OutputFormat::Json),
            raw@ != "tsv"@ && raw@ != "table"@ && raw@ != "json"@ ==> crate::error::is_invalid_with(
                r,
                "unknown format "@ + debug_str(raw@) + " (expected tsv, table, or json)"@,
            ),
    {
        proof {
            reveal_strlit("tsv");
            reveal_strlit("table");
            reveal_strlit("json");
            assert("table"@ != "tsv"@) by {
                assert("table"@.len() != "tsv"@.len());
            }
            assert("json"@ != "tsv"@) by {
                assert("json"@.len() != "tsv"@.len());
            }
            assert("json"@ != "table"@) by {
                assert("json"@.len() != "table"@.len());
            }
        }
        let c = chars_of(raw);
        if is_lit(&c, "tsv") {
            Ok(OutputFormat::Tsv)
        } else if is_lit(&c, "table") {
            Ok(OutputFormat::Table)
        } else if is_lit(&c, "json") {
            Ok(OutputFormat::Json)
        } else {
            let mut m = chars_of("unknown format ");
            let q = debug_quoted(&c);
            let qc = chars_of(q.as_str());
            push_all(&mut m, &qc);
            let tail = chars_of(" (expected tsv, table, or json)");
            push_all(&mut m, &tail);
            Err(Error::Invalid(string_of(&m)))
        }
    }
}

/// Output columns: the first row's selection, else its kind's defaults.
pub open spec fn fields_m(rows: Seq<RowM>) -> Seq<Seq<char>> {
    if rows.len() == 0 {
        Seq::empty()
    } else {
        match rows[0] {
            RowM::Selected { columns, .. } => columns.map_values(|c: (Seq<char>, CellM)| c.0),
            _ => default_m(rows[0]),
        }
    }
}

/// Output columns: the first row's selection, else its kind's defaults.
pub fn fields_of(rows: &[Row]) -> (r: Vec<String>)
    ensures
        strings_view(r@) == fields_m(rows@.map_values(|x: Row| x@)),
{
    if rows.len() == 0 {
        let v: Vec<String> = Vec::new();
        assert(strings_view(v@) =~= Seq::<Seq<char>>::empty());
        return v;
    }
    assert(rows@.map_values(|x: Row| x@)[0] == rows@[0]@);
    match rows[0].selected_fields() {
        Some(v) => v,
        None => {
            let d = rows[0].default_fields();
            let mut v: Vec<String> = Vec::new();
            let mut i: usize = 0;
            while i < d.len()
                invariant
                    i <= d@.len(),
                    strings_view(v@) == strs_m(d@).take(i as int),
                decreases d.len() - i,
            {
                let c = chars_of(d[i]);
                let x = string_of(&c);
                let ghost before = strings_view(v@);
                v.push(x);
                assert(strings_view(v@) =~= before.push(x@));
                assert(strs_m(d@).take(i + 1) =~= strs_m(d@).take(i as int).push(d@[i as int]@));
                i = i + 1;
            }
            assert(strs_m(d@).take(d@.len() as int) =~= strs_m(d@));
            v
        },
    }
}

/// The text a row shows in column `f`.
pub open spec fn cell_text(r: RowM, f: Seq<char>) -> Seq<char> {
    display_m(get_m(r, f))
}

pub open spec fn row_cells(r: RowM, fields: Seq<Seq<char>>) -> Seq<Seq<char>> {
    fields.map_values(|f: Seq<char>| cell_text(r, f))
}

fn cells_of(row: &Row, fields: &Vec<String>) -> (r: Vec<Vec<char>>)
    ensures
        views_of(r@) == row_cells(row@, strings_view(fields@)),
{
    let ghost fs = strings_view(fields@);
    let mut out: Vec<Vec<char>> = Vec::new();
    let mut i: usize = 0;
    while i < fields.len()
        invariant
            i <= fields@.len() == fs.len(),
            fs == strings_view(fields@),
            views_of(out@) == row_cells(row@, fs.take(i as int)),
        decreases fields.len() - i,
    {
        let v = row.get(fields[i].as_str());
        let t = chars_of(v.to_display().as_str());
        let ghost before = views_of(out@);
        let ghost tv = t@;
        out.push(t);
        assert(views_of(out@) =~= before.push(tv));
        assert(fs.take(i + 1) =~= fs.take(i as int).push(fs[i as int]));
        assert(views_of(out@) =~= row_cells(row@, fs.take(i + 1)));
        i = i + 1;
    }
    assert(fs.take(fs.len() as int) =~= fs);
    out
}

fn field_chars(fields: &Vec<String>) -> (r: Vec<Vec<char>>)
    ensures
        views_of(r@) == strings_view(fields@),
{
    let mut out: Vec<Vec<char>> = Vec::new();
    let mut i: usize = 0;
    while i < fields.len()
        invariant
            i <= fields@.len(),
            views_of(out@) == strings_view(fields@).take(i as int),
        decreases fields.len() - i,
    {
        let t = chars_of(fields[i].as_str());
        let ghost before = views_of(out@);
        let ghost tv = t@;
        out.push(t);
        assert(views_of(out@) =~= before.push(tv));
        assert(strings_view(fields@).take(i + 1) =~= strings_view(fields@).take(i as int).push(
            fields@[i as int]@,
        ));
        i = i + 1;
    }
    assert(strings_view(fields@).take(fields@.len() as int) =~= strings_view(fields@));
    out
}

/// Tab-separated lines, one per row.
pub open spec fn tsv_lines(rows: Seq<RowM>, fields: Seq<Seq<char>>) -> Seq<char>
    decreases rows.len(),
{
    if rows.len() == 0 {
        Seq::empty()
    } else {
        tsv_lines(rows.drop_last(), fields) + join_m(row_cells(rows.last(), fields), seq!['\t'])
            + seq!['\n']
    }
}

/// TSV: a header line of the fields, then one line per row; nothing when
/// there are no fields.
pub open spec fn tsv_m(fields: Seq<Seq<char>>, rows: Seq<RowM>) -> Seq<char> {
    if fields.len() == 0 {
        Seq::empty()
    } else {
        join_m(fields, seq!['\t']) + seq!['\n'] + tsv_lines(rows, fields)
    }
}

pub fn render_tsv(fields: &Vec<String>, rows: &[Row]) -> (r: Vec<char>)
    ensures
        r@ == tsv_m(strings_view(fields@), rows@.map_values(|x: Row| x@)),
{
    let ghost fs = strings_view(fields@);
    let ghost rs = rows@.map_values(|x: Row| x@);
    let mut out: Vec<char> = Vec::new();
    if fields.len() == 0 {
        return out;
    }
    let tab: Vec<char> = vec!['\t'];
    assert(tab@ =~= seq!['\t']);
    let header = field_chars(fields);
    let h = join(&header, &tab);
    push_all(&mut out, &h);
    out.push('\n');
    let ghost head = out@;
    let mut i: usize = 0;
    assert(rs.take(0) =~= Seq::<RowM>::empty());
    assert(out@ =~= head + tsv_lines(rs.take(0), fs));
    while i < rows.len()
        invariant
            i <= rows@.len() == rs.len(),
            rs == rows@.map_values(|x: Row| x@),
            fs == strings_view(fields@),
            tab@ == seq!['\t'],
            head == join_m(fs, seq!['\t']) + seq!['\n'],
            out@ == head + tsv_lines(rs.take(i as int), fs),
        decreases rows.len() - i,
    {
        let cells = cells_of(&rows[i], fields);
        let line = join(&cells, &tab);
        push_all(&mut out, &line);
        out.push('\n');
        assert(rs.take(i + 1).drop_last() =~= rs.take(i as int));
        assert(rs.take(i + 1).last() == rows@[i as int]@);
        assert(out@ =~= head + tsv_lines(rs.take(i + 1), fs));
        i = i + 1;
    }
    assert(rs.take(rs.len() as int) =~= rs);
    out
}

/// The widest cell of column `f` over the rows, in UTF-8 bytes.
pub open spec fn col_width(rows: Seq<RowM>, f: Seq<char>) -> nat
    decreases rows.len(),
{
    if rows.len() == 0 {
        0
    } else {
        let prev = col_width(rows.drop_last(), f);
        let w = clamp_usize(utf8_len(cell_text(rows.last(), f)));
        if w > prev {
            w
        } else {
            prev
        }
    }
}

/// The width of a table column: its header or its widest cell.
pub open spec fn width_m(rows: Seq<RowM>, f: Seq<char>) -> nat {
    let h = clamp_usize(utf8_len(f));
    let c = col_width(rows, f);
    if c > h {
        c
    } else {
        h
    }
}

/// `v` padded with spaces to `w` bytes.
pub open spec fn pad_m(v: Seq<char>, w: nat) -> Seq<char> {
    let n = clamp_usize(utf8_len(v));
    if n >= w {
        v
    } else {
        v + Seq::new((w - n) as nat, |i: int| ' ')
    }
}

/// `value` padded with spaces to `width` bytes.
pub fn pad_right(value: &str, width: usize) -> (r: String)
    ensures
        r@ == pad_m(value@, width as nat),
{
    let c = chars_of(value);
    let p = pad_chars(&c, width);
    string_of(&p)
}

fn pad_chars(v: &[char], width: usize) -> (r: Vec<char>)
    ensures
        r@ == pad_m(v@, width as nat),
{
    let n = byte_len(v);
    let mut out: Vec<char> = Vec::new();
    push_all(&mut out, v);
    assert(out@ =~= v@);
    if n >= width {
        return out;
    }
    let mut k: usize = 0;
    while k < width - n
        invariant
            n < width,
            k <= width - n,
            out@ == v@ + Seq::new(k as nat, |i: int| ' '),
        decreases width - n - k,
    {
        out.push(' ');
        assert(out@ =~= v@ + Seq::new((k + 1) as nat, |i: int| ' '));
        k = k + 1;
    }
    out
}

/// Table lines, padded to the column widths and joined by two spaces.
pub open spec fn padded(cells: Seq<Seq<char>>, ws: Seq<nat>) -> Seq<Seq<char>> {
    Seq::new(cells.len(), |i: int| pad_m(cells[i], ws[i]))
}

pub open spec fn widths_m(rows: Seq<RowM>, fields: Seq<Seq<char>>) -> Seq<nat> {
    fields.map_values(|f: Seq<char>| width_m(rows, f))
}

pub open spec fn table_lines(
    rows: Seq<RowM>,
    fields: Seq<Seq<char>>,
    ws: Seq<nat>,
) -> Seq<char>
    decreases rows.len(),
{
    if rows.len() == 0 {
        Seq::empty()
    } else {
        table_lines(rows.drop_last(), fields, ws) + join_m(
            padded(row_cells(rows.last(), fields), ws),
            "  "@,
        ) + seq!['\n']
    }
}

/// Table: padded header and rows; nothing when there are no fields.
pub open spec fn table_m(fields: Seq<Seq<char>>, rows: Seq<RowM>) -> Seq<char> {
    if fields.len() == 0 {
        Seq::empty()
    } else {
        let ws = widths_m(rows, fields);
        join_m(padded(fields, ws), "  "@) + seq!['\n'] + table_lines(rows, fields, ws)
    }
}

fn column_width(rows: &[Row], f: &String) -> (r: usize)
    ensures
        r == width_m(rows@.map_values(|x: Row| x@), f@),
{
    let ghost rs = rows@.map_values(|x: Row| x@);
    let fc = chars_of(f.as_str());
    let mut w: usize = 0;
    let mut i: usize = 0;
    assert(rs.take(0) =~= Seq::<RowM>::empty());
    while i < rows.len()
        invariant
            i <= rows@.len() == rs.len(),
            rs == rows@.map_values(|x: Row| x@),
            w == col_width(rs.take(i as int), f@),
        decreases rows.len() - i,
    {
        let v = rows[i].get(f.as_str());
        let t = chars_of(v.to_display().as_str());
        let n = byte_len(&t);
        assert(rs.take(i + 1).drop_last() =~= rs.take(i as int));
        assert(rs.take(i + 1).last() == rows@[i as int]@);
        if n > w {
            w = n;
        }
        i = i + 1;
    }
    assert(rs.take(rs.len() as int) =~= rs);
    let h = byte_len(&fc);
    if w > h {
        w
    } else {
        h
    }
}

fn pad_all(cells: &Vec<Vec<char>>, ws: &Vec<usize>) -> (r: Vec<Vec<char>>)
    requires
        cells@.len() == ws@.len(),
    ensures
        views_of(r@) == padded(views_of(cells@), ws@.map_values(|w: usize| w as nat)),
{
    let ghost wn = ws@.map_values(|w: usize| w as nat);
    let mut out: Vec<Vec<char>> = Vec::new();
    let mut i: usize = 0;
    while i < cells.len()
        invariant
            i <= cells@.len() == ws@.len(),
            wn == ws@.map_values(|w: usize| w as nat),
            views_of(out@) =~= Seq::new(
                i as nat,
                |k: int| pad_m(views_of(cells@)[k], wn[k]),
            ),
        decreases cells.len() - i,
    {
        let p = pad_chars(&cells[i], ws[i]);
        let ghost before = views_of(out@);
        let ghost pv = p@;
        out.push(p);
        assert(views_of(out@) =~= before.push(pv));
        i = i + 1;
    }
    out
}

pub fn render_table(fields: &Vec<String>, rows: &[Row]) -> (r: Vec<char>)
    ensures
        r@ == table_m(strings_view(fields@), rows@.map_values(|x: Row| x@)),
{
    let ghost fs = strings_view(fields@);
    let ghost rs = rows@.map_values(|x: Row| x@);
    let mut out: Vec<char> = Vec::new();
    if fields.len() == 0 {
        return out;
    }
    let mut ws: Vec<usize> = Vec::new();
    let mut i: usize = 0;
    while i < fields.len()
        invariant
            i <= fields@.len() == fs.len(),
            fs == strings_view(fields@),
            rs == rows@.map_values(|x: Row| x@),
            ws@.map_values(|w: usize| w as nat) =~= widths_m(rs, fs).take(i as int),
        decreases fields.len() - i,
    {
        let w = column_width(rows, &fields[i]);
        let ghost before = ws@.map_values(|w: usize| w as nat);
        ws.push(w);
        assert(ws@.map_values(|w: usize| w as nat) =~= before.push(w as nat));
        assert(fs[i as int] == fields@[i as int]@);
        assert(widths_m(rs, fs).take(i + 1) =~= widths_m(rs, fs).take(i as int).push(
            width_m(rs, fs[i as int]),
        ));
        i = i + 1;
    }
    let ghost wn = ws@.map_values(|w: usize| w as nat);
    assert(wn =~= widths_m(rs, fs));
    let sep: Vec<char> = vec![' ', ' '];
    proof {
        reveal_strlit("  ");
    }
    assert(sep@ =~= "  "@);
    let header = field_chars(fields);
    assert(views_of(header@).len() == header@.len());
    let hp = pad_all(&header, &ws);
    let h = join(&hp, &sep);
    push_all(&mut out, &h);
    out.push('\n');
    let ghost head = out@;
    let mut j: usize = 0;
    assert(rs.take(0) =~= Seq::<RowM>::empty());
    assert(out@ =~= head + table_lines(rs.take(0), fs, wn));
    while j < rows.len()
        invariant
            j <= rows@.len() == rs.len(),
            rs == rows@.map_values(|x: Row| x@),
            fs == strings_view(fields@),
            ws@.len() == fields@.len(),
            wn == ws@.map_values(|w: usize| w as nat),
            sep@ == "  "@,
            out@ == head + table_lines(rs.take(j as int), fs, wn),
        decreases rows.len() - j,
    {
        let cells = cells_of(&rows[j], fields);
        assert(views_of(cells@).len() == cells@.len());
        assert(cells@.len() == fields@.len());
        let cp = pad_all(&cells, &ws);
        let line = join(&cp, &sep);
        push_all(&mut out, &line);
        out.push('\n');
        assert(rs.take(j + 1).drop_last() =~= rs.take(j as int));
        assert(rs.take(j + 1).last() == rows@[j as int]@);
        assert(out@ =~= head + table_lines(rs.take(j + 1), fs, wn));
        j = j + 1;
    }
    assert(rs.take(rs.len() as int) =~= rs);
    out
}


/// `\uXXXX` for a UTF-16 code unit, lowercase hex.
pub open spec fn u_escape(u: int) -> Seq<char> {
    seq![
        '\\',
        'u',
        hex_digit((u / 4096) % 16),
        hex_digit((u / 256) % 16),
        hex_digit((u / 16) % 16),
        hex_digit(u % 16),
    ]
}

/// How one character appears inside a JSON string: quote, backslash and
/// control characters escaped; anything above ASCII as its UTF-16 code
/// units in `\u` escapes.
pub open spec fn esc_m(c: char) -> Seq<char> {
    let n = c as u32;
    if c == '"' {
        seq!['\\', '"']
    } else if c == '\\' {
        seq!['\\', '\\']
    } else if n == 0x08 {
        seq!['\\', 'b']
    } else if n == 0x0c {
        seq!['\\', 'f']
    } else if c == '\n' {
        seq!['\\', 'n']
    } else if c == '\r' {
        seq!['\\', 'r']
    } else if c == '\t' {
        seq!['\\', 't']
    } else if n < 0x20 {
        u_escape(n as int)
    } else if n > 0x7f {
        if n < 0x10000 {
            u_escape(n as int)
        } else {
            u_escape(0xD800 + (n - 0x10000) / 1024) + u_escape(0xDC00 + (n - 0x10000) % 1024)
        }
    } else {
        seq![c]
    }
}

pub open spec fn escape_all(s: Seq<char>) -> Seq<char>
    decreases s.len(),
{
    if s.len() == 0 {
        Seq::empty()
    } else {
        escape_all(s.drop_last()) + esc_m(s.last())
    }
}

/// A JSON string literal for `s`.
pub open spec fn json_str_m(s: Seq<char>) -> Seq<char> {
    seq!['"'] + escape_all(s) + seq!['"']
}

fn push_u_escape(out: &mut Vec<char>, u: u32)
    requires
        u < 0x10000,
    ensures
        final(out)@ == old(out)@ + u_escape(u as int),
{
    out.push('\\');
    out.push('u');
    out.push(hex_char((u / 4096) % 16));
    out.push(hex_char((u / 256) % 16));
    out.push(hex_char((u / 16) % 16));
    out.push(hex_char(u % 16));
    assert(out@ =~= old(out)@ + u_escape(u as int));
}

fn push_escaped(out: &mut Vec<char>, c: char)
    ensures
        final(out)@ == old(out)@ + esc_m(c),
{
    let n = c as u32;
    if c == '"' {
        out.push('\\');
        out.push('"');
    } else if c == '\\' {
        out.push('\\');
        out.push('\\');
    } else if n == 0x08 {
        out.push('\\');
        out.push('b');
    } else if n == 0x0c {
        out.push('\\');
        out.push('f');
    } else if c == '\n' {
        out.push('\\');
        out.push('n');
    } else if c == '\r' {
        out.push('\\');
        out.push('r');
    } else if c == '\t' {
        out.push('\\');
        out.push('t');
    } else if n < 0x20 {
        push_u_escape(out, n);
        return;
    } else if n > 0x7f {
        if n < 0x10000 {
            push_u_escape(out, n);
        } else {
            assert(n <= 0x10FFFF);
            push_u_escape(out, 0xD800 + (n - 0x10000) / 1024);
            push_u_escape(out, 0xDC00 + (n - 0x10000) % 1024);
        }
        return;
    } else {
        out.push(c);
    }
    assert(out@ =~= old(out)@ + esc_m(c));
}

fn json_chars(s: &[char], out: &mut Vec<char>)
    ensures
        final(out)@ == old(out)@ + json_str_m(s@),
{
    out.push('"');
    let mut i: usize = 0;
    assert(s@.take(0) =~= Seq::<char>::empty());
    while i < s.len()
        invariant
            i <= s@.len(),
            out@ == old(out)@ + seq!['"'] + escape_all(s@.take(i as int)),
        decreases s.len() - i,
    {
        push_escaped(out, s[i]);
        assert(s@.take(i + 1).drop_last() =~= s@.take(i as int));
        assert(s@.take(i + 1).last() == s@[i as int]);
        assert(out@ =~= old(out)@ + seq!['"'] + escape_all(s@.take(i + 1)));
        i = i + 1;
    }
    assert(s@.take(s@.len() as int) =~= s@);
    out.push('"');
    assert(out@ =~= old(out)@ + json_str_m(s@));
}

/// A JSON string literal for `s`.
pub fn json_string(s: &str) -> (r: String)
    ensures
        r@ == json_str_m(s@),
{
    let c = chars_of(s);
    let mut out: Vec<char> = Vec::new();
    json_chars(&c, &mut out);
    assert(out@ =~= json_str_m(s@));
    string_of(&out)
}

/// A JSON value for a cell: `null`, a string, a number.
pub open spec fn json_val_m(v: CellM) -> Seq<char> {
    match v {
        CellM::Null => "null"@,
        CellM::Str(s) => json_str_m(s),
        CellM::Int(n) => int_text(n as int),
        CellM::Float(t) => t,
    }
}

fn json_value(v: &Value, out: &mut Vec<char>)
    ensures
        final(out)@ == old(out)@ + json_val_m(v@),
{
    match v {
        Value::Null => {
            let c = chars_of("null");
            push_all(out, &c);
        },
        Value::Str(s) => {
            let c = chars_of(s.as_str());
            json_chars(&c, out);
        },
        Value::Int(n) => {
            let c = i64_text(*n);
            push_all(out, &c);
        },
        Value::Float(t) => {
            let c = chars_of(t.as_str());
            push_all(out, &c);
        },
    }
}

pub open spec fn json_pairs(r: RowM, fields: Seq<Seq<char>>) -> Seq<Seq<char>> {
    fields.map_values(|f: Seq<char>| json_str_m(f) + ": "@ + json_val_m(get_m(r, f)))
}

/// One JSON object per row, keyed by the fields in order.
pub open spec fn json_obj_m(r: RowM, fields: Seq<Seq<char>>) -> Seq<char> {
    seq!['{'] + join_m(json_pairs(r, fields), ", "@) + seq!['}']
}

/// JSON: an array of objects, then a newline.
pub open spec fn json_m(fields: Seq<Seq<char>>, rows: Seq<RowM>) -> Seq<char> {
    seq!['['] + join_m(rows.map_values(|r: RowM| json_obj_m(r, fields)), ", "@) + seq![']', '\n']
}

fn json_object(row: &Row, fields: &Vec<String>) -> (r: Vec<char>)
    ensures
        r@ == json_obj_m(row@, strings_view(fields@)),
{
    let ghost fs = strings_view(fields@);
    let mut pairs: Vec<Vec<char>> = Vec::new();
    let mut i: usize = 0;
    while i < fields.len()
        invariant
            i <= fields@.len() == fs.len(),
            fs == strings_view(fields@),
            views_of(pairs@) == json_pairs(row@, fs.take(i as int)),
        decreases fields.len() - i,
    {
        let mut p: Vec<char> = Vec::new();
        let fc = chars_of(fields[i].as_str());
        json_chars(&fc, &mut p);
        let colon = chars_of(": ");
        push_all(&mut p, &colon);
        let v = row.get(fields[i].as_str());
        json_value(&v, &mut p);
        let ghost before = views_of(pairs@);
        let ghost pv = p@;
        pairs.push(p);
        assert(views_of(pairs@) =~= before.push(pv));
        assert(fs.take(i + 1) =~= fs.take(i as int).push(fs[i as int]));
        assert(views_of(pairs@) =~= json_pairs(row@, fs.take(i + 1)));
        i = i + 1;
    }
    assert(fs.take(fs.len() as int) =~= fs);
    let sep = chars_of(", ");
    let body = join(&pairs, &sep);
    let mut out: Vec<char> = Vec::new();
    out.push('{');
    push_all(&mut out, &body);
    out.push('}');
    assert(out@ =~= json_obj_m(row@, fs));
    out
}

pub fn render_json(fields: &Vec<String>, rows: &[Row]) -> (r: Vec<char>)
    ensures
        r@ == json_m(strings_view(fields@), rows@.map_values(|x: Row| x@)),
{
    let ghost fs = strings_view(fields@);
    let ghost rs = rows@.map_values(|x: Row| x@);
    let mut objs: Vec<Vec<char>> = Vec::new();
    let mut i: usize = 0;
    while i < rows.len()
        invariant
            i <= rows@.len() == rs.len(),
            rs == rows@.map_values(|x: Row| x@),
            fs == strings_view(fields@),
            views_of(objs@) == rs.take(i as int).map_values(|r: RowM| json_obj_m(r, fs)),
        decreases rows.len() - i,
    {
        let o = json_object(&rows[i], fields);
        let ghost before = views_of(objs@);
        let ghost ov = o@;
        objs.push(o);
        assert(views_of(objs@) =~= before.push(ov));
        assert(rs.take(i + 1) =~= rs.take(i as int).push(rows@[i as int]@));
        assert(views_of(objs@) =~= rs.take(i + 1).map_values(|r: RowM| json_obj_m(r, fs)));
        i = i + 1;
    }
    assert(rs.take(rs.len() as int) =~= rs);
    let sep = chars_of(", ");
    let body = join(&objs, &sep);
    let mut out: Vec<char> = Vec::new();
    out.push('[');
    push_all(&mut out, &body);
    out.push(']');
    out.push('\n');
    assert(out@ =~= json_m(fs, rs));
    out
}

/// The text `hedron hql` writes for the rows in a format; the columns are
/// those of `fields_of`.
pub open spec fn output_m(format: OutputFormat, rows: Seq<RowM>) -> Seq<char> {
    let fields = fields_m(rows);
    match format {
        OutputFormat::Json => json_m(fields, rows),
        OutputFormat::Table => table_m(fields, rows),
        OutputFormat::Tsv => tsv_m(fields, rows),
    }
}

/// The formatted rows, ready to be written.
pub fn render_output(format: &OutputFormat, rows: &[Row]) -> (r: String)
    ensures
        r@ == output_m(*format, rows@.map_values(|x: Row| x@)),
{
    let fields = fields_of(rows);
    let out = match format {
        OutputFormat::Json => render_json(&fields, rows),
        OutputFormat::Table => render_table(&fields, rows),
        OutputFormat::Tsv => render_tsv(&fields, rows),
    };
    string_of(&out)
}

/// `hedron hql` flags: the store file, the output format, the pipeline.
#[derive(Debug)]
pub struct HqlArgs {
    pub db: String,
    pub format: OutputFormat,
    pub pipeline: String,
}

/// The value after the flag at `i`.
pub fn need_value<'a>(raw: &'a [String], i: usize, flag: &str) -> (r: Result<&'a str>)
    ensures
        i + 1 < raw@.len() ==> (r matches Ok(v) && v@ == raw@[i + 1]@),
        i + 1 >= raw@.len() ==> crate::error::is_invalid_with(r, flag@ + " needs a value"@),
{
    if i < raw.len() && raw.len() - i > 1 {
        Ok(raw[i + 1].as_str())
    } else {
        let mut m = chars_of(flag);
        let tail = chars_of(" needs a value");
        push_all(&mut m, &tail);
        Err(Error::Invalid(string_of(&m)))
    }
}

/// What the flags of `hedron hql` parse to, from argument `i` on.
pub open spec fn hql_args_from(
    raw: Seq<Seq<char>>,
    i: int,
    db: Option<Seq<char>>,
    format: OutputFormat,
    pipeline: Seq<Seq<char>>,
) -> core::result::Result<(Seq<char>, OutputFormat, Seq<char>), Seq<char>>
    decreases raw.len() - i,
{
    if i < 0 || i >= raw.len() {
        match db {
            None => Err("--db FILE is required"@),
            Some(d) => if pipeline.len() == 0 {
                Err("PIPELINE is required"@)
            } else {
                Ok((d, format, join_m(pipeline, seq![' '])))
            },
        }
    } else if raw[i] == "--db"@ {
        if i + 1 < raw.len() {
            hql_args_from(raw, i + 2, Some(raw[i + 1]), format, pipeline)
        } else {
            Err("--db needs a value"@)
        }
    } else if raw[i] == "--format"@ {
        if i + 1 < raw.len() {
            let v = raw[i + 1];
            if v == "tsv"@ {
                hql_args_from(raw, i + 2, db, OutputFormat::Tsv, pipeline)
            } else if v == "table"@ {
                hql_args_from(raw, i + 2, db, OutputFormat::Table, pipeline)
            } else if v == "json"@ {
                hql_args_from(raw, i + 2, db, OutputFormat::Json, pipeline)
            } else {
                Err("unknown format "@ + debug_str(v) + " (expected tsv, table, or json)"@)
            }
        } else {
            Err("--format needs a value"@)
        }
    } else if raw[i].len() > 0 && raw[i][0] == '-' {
        Err("unknown argument "@ + raw[i])
    } else {
        hql_args_from(raw, i + 1, db, format, pipeline.push(raw[i]))
    }
}

/// Parse `--db FILE [--format tsv|table|json] PIPELINE...`; the pipeline
/// words are joined by spaces.
pub fn parse_hql_args(raw: &Vec<String>) -> (r: Result<HqlArgs>)
    ensures
        match hql_args_from(strings_view(raw@), 0, None, OutputFormat::Tsv, Seq::empty()) {
            Ok((d, f, p)) => r matches Ok(a) && a.db@ == d && a.format == f && a.pipeline@ == p,
            Err(m) => crate::error::is_invalid_with(r, m),
        },
{
    let ghost rv = strings_view(raw@);
    let mut db: Option<String> = None;
    let mut format = OutputFormat::Tsv;
    let mut pipeline: Vec<Vec<char>> = Vec::new();
    let mut i: usize = 0;
    assert(views_of(pipeline@) =~= Seq::<Seq<char>>::empty());
    while i < raw.len()
        invariant
            i <= raw@.len() + 1,
            rv == strings_view(raw@),
            hql_args_from(rv, 0, None, OutputFormat::Tsv, Seq::empty()) == hql_args_from(
                rv,
                i as int,
                crate::hql::row::opt_view(db),
                format,
                views_of(pipeline@),
            ),
        decreases raw.len() - i,
    {
        let a = chars_of(raw[i].as_str());
        assert(rv[i as int] == a@);
        if is_lit(&a, "--db") {
            let v = match need_value(raw.as_slice(), i, "--db") {
                Ok(v) => v,
                Err(e) => {
                    proof {
                        reveal_strlit("--db");
                        reveal_strlit(" needs a value");
                        reveal_strlit("--db needs a value");
                        assert("--db"@ + " needs a value"@ =~= "--db needs a value"@);
                    }
                    return Err(e);
                },
            };
            assert(rv[i + 1] == v@);
            let vc = chars_of(v);
            db = Some(string_of(&vc));
            i = i + 2;
        } else if is_lit(&a, "--format") {
            let v = match need_value(raw.as_slice(), i, "--format") {
                Ok(v) => v,
                Err(e) => {
                    proof {
                        reveal_strlit("--format");
                        reveal_strlit(" needs a value");
                        reveal_strlit("--format needs a value");
                        assert("--format"@ + " needs a value"@ =~= "--format needs a value"@);
                    }
                    return Err(e);
                },
            };
            assert(rv[i + 1] == v@);
            format = OutputFormat::parse(v)?;
            i = i + 2;
        } else if a.len() > 0 && a[0] == '-' {
            let mut m = chars_of("unknown argument ");
            push_all(&mut m, &a);
            return Err(Error::Invalid(string_of(&m)));
        } else {
            let ghost before = views_of(pipeline@);
            let ghost av = a@;
            pipeline.push(a);
            assert(views_of(pipeline@) =~= before.push(av));
            i = i + 1;
        }
    }
    let d = match db {
        Some(d) => d,
        None => {
            let m = chars_of("--db FILE is required");
            return Err(Error::Invalid(string_of(&m)));
        },
    };
    if pipeline.len() == 0 {
        let m = chars_of("PIPELINE is required");
        return Err(Error::Invalid(string_of(&m)));
    }
    let space: Vec<char> = vec![' '];
    assert(space@ =~= seq![' ']);
    let p = join(&pipeline, &space);
    Ok(HqlArgs { db: d, format, pipeline: string_of(&p) })
}

} // verus!
