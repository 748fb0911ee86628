//! Delimited text: fields are separated by `sep`, rows end with a line
//! feed, and a field holding `sep`, a quote or a line break is quoted with
//! inner quotes doubled. Also the export text and per-team file names.

use vstd::prelude::*;
use crate::text::{chars_of, contains, push_all, replace_all, replace_vec, string_of};
use crate::config::options::{format_sep, AppOptions, PageKind};

verus! {

/* ---------------- writing ---------------- */

/// The field must be quoted.
pub open spec fn needs_quotes_spec(f: Seq<char>, sep: char) -> bool {
    f.contains(sep) || f.contains('"') || f.contains('\n') || f.contains('\r')
}

/// A field as written.
pub open spec fn field_text(f: Seq<char>, sep: char) -> Seq<char> {
    if needs_quotes_spec(f, sep) {
        seq!['"'] + replace_all(f, seq!['"'], seq!['"', '"']) + seq!['"']
    } else {
        f
    }
}

/// Fields `row[k..]` as written, separated by `sep`, then the line feed.
pub open spec fn fields_text(row: Seq<Seq<char>>, sep: char, k: int) -> Seq<char>
    decreases row.len() - k,
{
    if k < 0 || k >= row.len() {
        seq!['\n']
    } else {
        field_text(row[k], sep) + (if k + 1 < row.len() { seq![sep] } else { Seq::empty() }) + fields_text(row, sep, k + 1)
    }
}

/// A row as written.
pub open spec fn row_text(row: Seq<Seq<char>>, sep: char) -> Seq<char> {
    fields_text(row, sep, 0)
}

/// Rows as written, one after the other.
pub open spec fn rows_text(rows: Seq<Seq<Seq<char>>>, sep: char) -> Seq<char>
    decreases rows.len(),
{
    if rows.len() == 0 {
        Seq::empty()
    } else {
        row_text(rows[0], sep) + rows_text(rows.drop_first(), sep)
    }
}

pub fn has_char(s: &[char], c: char) -> (b: bool)
    ensures
        b == s@.contains(c),
{
    let mut i: usize = 0;
    while i < s.len()
        invariant
            i <= s@.len(),
            forall|k: int| 0 <= k < i ==> s@[k] != c,
        decreases s@.len() - i,
    {
        if s[i] == c {
            assert(s@[i as int] == c);
            return true;
        }
        i = i + 1;
    }
    false
}

/// Whether `field` must be quoted when written with `sep`.
pub fn needs_quotes(field: &str, sep: char) -> (b: bool)
    ensures
        b == needs_quotes_spec(field@, sep),
{
    let f = chars_of(field);
    has_char(&f, sep) || has_char(&f, '"') || has_char(&f, '\n') || has_char(&f, '\r')
}

pub fn field_text_vec(f: &[char], sep: char) -> (v: Vec<char>)
    ensures
        v@ == field_text(f@, sep),
{
    if has_char(f, sep) || has_char(f, '"') || has_char(f, '\n') || has_char(f, '\r') {
        let mut q: Vec<char> = Vec::new();
        q.push('"');
        let mut qq: Vec<char> = Vec::new();
        qq.push('"');
        qq.push('"');
        let mut v: Vec<char> = Vec::new();
        v.push('"');
        let esc = replace_vec(f, &q, &qq);
        assert(q@ =~= seq!['"']);
        assert(qq@ =~= seq!['"', '"']);
        push_all(&mut v, &esc);
        v.push('"');
        assert(v@ =~= seq!['"'] + esc@ + seq!['"']);
        v
    } else {
        let v = crate::text::sub_vec(f, 0, f.len());
        assert(f@.subrange(0, f@.len() as int) =~= f@);
        v
    }
}

/// Append the text of one row to `out`.
pub fn push_row(out: &mut Vec<char>, row: &[String], sep: char)
    ensures
        final(out)@ == old(out)@ + row_text(row.deep_view(), sep),
{
    let ghost full = old(out)@ + row_text(row.deep_view(), sep);
    let mut k: usize = 0;
    while k < row.len()
        invariant
            k <= row@.len(),
            full == old(out)@ + row_text(row.deep_view(), sep),
            full == out@ + fields_text(row.deep_view(), sep, k as int),
        decreases row@.len() - k,
    {
        let f = chars_of(row[k].as_str());
        assert(row.deep_view()[k as int] == row@[k as int]@);
        let ghost before = out@;
        push_all(out, &field_text_vec(&f, sep));
        if k + 1 < row.len() {
            out.push(sep);
        }
        assert(out@ + fields_text(row.deep_view(), sep, k + 1) =~= before + fields_text(row.deep_view(), sep, k as int));
        k = k + 1;
    }
    out.push('\n');
    assert(fields_text(row.deep_view(), sep, k as int) =~= seq!['\n']);
}

/// Append the text of one row, fields separated by `sep`, to `out`.
pub fn write_row(out: &mut String, row: &[String], sep: char)
    ensures
        final(out)@ == old(out)@ + row_text(row.deep_view(), sep),
{
    let mut v: Vec<char> = Vec::new();
    push_row(&mut v, row, sep);
    assert(v@ =~= row_text(row.deep_view(), sep));
    let mut i: usize = 0;
    while i < v.len()
        invariant
            i <= v@.len(),
            out@ == old(out)@ + v@.take(i as int),
        decreases v@.len() - i,
    {
        out.push(v[i]);
        assert(v@.take(i + 1) =~= v@.take(i as int).push(v@[i as int]));
        i = i + 1;
    }
    assert(v@.take(i as int) =~= v@);
}

/// Text of `rows`, each written with `sep`.
pub fn rows_text_vec(rows: &[Vec<String>], sep: char) -> (v: Vec<char>)
    ensures
        v@ == rows_text(rows.deep_view(), sep),
{
    let mut v: Vec<char> = Vec::new();
    let mut i: usize = 0;
    assert(rows.deep_view().skip(0) =~= rows.deep_view());
    while i < rows.len()
        invariant
            i <= rows@.len(),
            rows_text(rows.deep_view(), sep) == v@ + rows_text(rows.deep_view().skip(i as int), sep),
        decreases rows@.len() - i,
    {
        let ghost before = v@;
        assert(rows.deep_view()[i as int] == rows@[i as int].deep_view());
        let r = rows[i].as_slice();
        assert(r.deep_view() =~= rows@[i as int].deep_view());
        push_row(&mut v, r, sep);
        assert(rows.deep_view().skip(i as int).drop_first() =~= rows.deep_view().skip(i + 1));
        assert(rows.deep_view().skip(i as int)[0] == rows.deep_view()[i as int]);
        i = i + 1;
    }
    assert(rows.deep_view().skip(i as int) =~= Seq::<Seq<Seq<char>>>::empty());
    v
}

/* ---------------- reading ---------------- */

/// Reader state: finished rows, the row and field in progress, and whether
/// a quoted part is open.
pub struct ParseState {
    pub rows: Seq<Seq<Seq<char>>>,
    pub row: Seq<Seq<char>>,
    pub field: Seq<char>,
    pub in_q: bool,
}

/// A row made of one empty field is a blank line.
pub open spec fn is_blank_row(r: Seq<Seq<char>>) -> bool {
    r.len() == 1 && r[0].len() == 0
}

/// The field in progress ends the row in progress; a blank line is dropped.
pub open spec fn end_line(st: ParseState) -> ParseState {
    let r = st.row.push(st.field);
    ParseState {
        rows: if !is_blank_row(r) { st.rows.push(r) } else { st.rows },
        row: Seq::empty(),
        field: Seq::empty(),
        in_q: st.in_q,
    }
}

/// Rows read from `s` in state `st`: `"` opens or closes a quoted part (a
/// doubled `"` inside one is a quote), `sep` ends a field, and a line feed,
/// carriage return or CR LF ends a row, all outside quotes; at the end the
/// last row is kept unless it is blank.
pub open spec fn parse_seq(s: Seq<char>, sep: char, st: ParseState) -> Seq<Seq<Seq<char>>>
    decreases s.len(),
{
    if s.len() == 0 {
        end_line(st).rows
    } else {
        let c = s[0];
        if c == '"' {
            if st.in_q {
                if s.len() > 1 && s[1] == '"' {
                    parse_seq(s.skip(2), sep, ParseState { field: st.field.push('"'), ..st })
                } else {
                    parse_seq(s.skip(1), sep, ParseState { in_q: false, ..st })
                }
            } else {
                parse_seq(s.skip(1), sep, ParseState { in_q: true, ..st })
            }
        } else if c == sep && !st.in_q {
            parse_seq(s.skip(1), sep, ParseState { row: st.row.push(st.field), field: Seq::empty(), ..st })
        } else if (c == '\n' || c == '\r') && !st.in_q {
            let k = if c == '\r' && s.len() > 1 && s[1] == '\n' { 2int } else { 1int };
            parse_seq(s.skip(k), sep, end_line(st))
        } else {
            parse_seq(s.skip(1), sep, ParseState { field: st.field.push(c), ..st })
        }
    }
}

pub open spec fn parse_start() -> ParseState {
    ParseState { rows: Seq::empty(), row: Seq::empty(), field: Seq::empty(), in_q: false }
}

/// Rows of a delimited text.
pub open spec fn parse_rows_spec(text: Seq<char>, sep: char) -> Seq<Seq<Seq<char>>> {
    parse_seq(text, sep, parse_start())
}

fn take_vec(v: &mut Vec<char>) -> (r: Vec<char>)
    ensures
        r@ == old(v)@,
        final(v)@ == Seq::<char>::empty(),
{
    let mut r: Vec<char> = Vec::new();
    std::mem::swap(&mut r, v);
    r
}

/// Rows of the delimited `text` with separator `sep` (quotes and CR LF understood).
pub fn parse_rows(text: &str, sep: char) -> (r: Vec<Vec<String>>)
    ensures
        r.deep_view() == parse_rows_spec(text@, sep),
{
    let t = chars_of(text);
    let mut rows: Vec<Vec<Vec<char>>> = Vec::new();
    let mut row: Vec<Vec<char>> = Vec::new();
    let mut field: Vec<char> = Vec::new();
    let mut in_q = false;
    let mut i: usize = 0;
    let n = t.len();
    assert(t@.skip(0) =~= t@);
    assert(rows.deep_view() =~= Seq::<Seq<Seq<char>>>::empty());
    assert(row.deep_view() =~= Seq::<Seq<char>>::empty());
    assert(field@ =~= Seq::<char>::empty());
    while i < n
        invariant
            i <= n,
            n == t@.len(),
            parse_rows_spec(text@, sep) == parse_seq(
                t@.skip(i as int),
                sep,
                ParseState { rows: rows.deep_view(), row: row.deep_view(), field: field@, in_q },
            ),
            t@ == text@,
        decreases n - i,
    {
        let ghost s = t@.skip(i as int);
        let c = t[i];
        assert(s[0] == c);
        if c == '"' {
            if in_q {
                if i + 1 < n && t[i + 1] == '"' {
                    assert(s[1] == t@[i + 1]);
                    assert(s.skip(2) =~= t@.skip(i + 2));
                    field.push('"');
                    i = i + 2;
                } else {
                    assert(s.skip(1) =~= t@.skip(i + 1));
                    in_q = false;
                    i = i + 1;
                }
            } else {
                assert(s.skip(1) =~= t@.skip(i + 1));
                in_q = true;
                i = i + 1;
            }
        } else if c == sep && !in_q {
            assert(s.skip(1) =~= t@.skip(i + 1));
            let f = take_vec(&mut field);
            let ghost rv = row.deep_view();
            crate::text::push_text(&mut row, f);
            i = i + 1;
        } else if (c == '\n' || c == '\r') && !in_q {
            let k: usize = if c == '\r' && i + 1 < n && t[i + 1] == '\n' { 2 } else { 1 };
            proof {
                if c == '\r' && i + 1 < n {
                    assert(s[1] == t@[i + 1]);
                }
            }
            assert(s.skip(k as int) =~= t@.skip(i + k));
            let f = take_vec(&mut field);
            crate::text::push_text(&mut row, f);
            let blank = row.len() == 1 && row[0].len() == 0;
            proof {
                if row@.len() == 1 {
                    assert(row.deep_view()[0] == row@[0]@);
                }
            }
            if !blank {
                let mut r: Vec<Vec<char>> = Vec::new();
                std::mem::swap(&mut r, &mut row);
                let ghost prev = rows.deep_view();
                let ghost rv = r.deep_view();
                rows.push(r);
                assert(rows.deep_view() =~= prev.push(rv));
            } else {
                row = Vec::new();
            }
            assert(row.deep_view() =~= Seq::<Seq<char>>::empty());
            i = i + k;
        } else {
            assert(s.skip(1) =~= t@.skip(i + 1));
            field.push(c);
            i = i + 1;
        }
    }
    assert(t@.skip(i as int) =~= Seq::<char>::empty());
    crate::text::push_text(&mut row, field);
    let blank = row.len() == 1 && row[0].len() == 0;
    proof {
        if row@.len() == 1 {
            assert(row.deep_view()[0] == row@[0]@);
        }
    }
    if !blank {
        let ghost prev = rows.deep_view();
        let ghost rv = row.deep_view();
        rows.push(row);
        assert(rows.deep_view() =~= prev.push(rv));
    }
    crate::text::rows_of(&rows)
}

/* ---------------- what is written reads back ---------------- */

/// A separator that never clashes with quoting or line ends.
pub open spec fn valid_sep(sep: char) -> bool {
    sep != '"' && sep != '\n' && sep != '\r'
}

/// A row that survives a write and a read: at least one field, and not a
/// single empty field (which reads as a blank line).
pub open spec fn storable_row(r: Seq<Seq<char>>) -> bool {
    r.len() > 0 && !is_blank_row(r)
}

proof fn lemma_plain_field(f: Seq<char>, rest: Seq<char>, sep: char, st: ParseState)
    requires
        !needs_quotes_spec(f, sep),
        !st.in_q,
    ensures
        parse_seq(f + rest, sep, st) == parse_seq(rest, sep, ParseState { field: st.field + f, ..st }),
    decreases f.len(),
{
    if f.len() == 0 {
        assert(f + rest =~= rest);
        assert(st.field + f =~= st.field);
    } else {
        let s = f + rest;
        let t = f.drop_first();
        assert(s[0] == f[0]);
        assert(f.contains(f[0]));
        assert(s.skip(1) =~= t + rest);
        assert(!needs_quotes_spec(t, sep)) by {
            assert forall|x: char| t.contains(x) implies f.contains(x) by {
                let k = choose|k: int| 0 <= k < t.len() && t[k] == x;
                assert(f[k + 1] == x);
            }
        }
        let st1 = ParseState { field: st.field.push(f[0]), ..st };
        lemma_plain_field(t, rest, sep, st1);
        assert(st.field.push(f[0]) + t =~= st.field + f);
    }
}

proof fn lemma_quoted_inner(f: Seq<char>, rest: Seq<char>, sep: char, st: ParseState)
    requires
        st.in_q,
        rest.len() == 0 || rest[0] != '"',
    ensures
        parse_seq(replace_all(f, seq!['"'], seq!['"', '"']) + seq!['"'] + rest, sep, st) == parse_seq(
            rest,
            sep,
            ParseState { field: st.field + f, in_q: false, ..st },
        ),
    decreases f.len(),
{
    let q = seq!['"'];
    let qq = seq!['"', '"'];
    if f.len() == 0 {
        let s = replace_all(f, q, qq) + q + rest;
        assert(replace_all(f, q, qq) =~= Seq::<char>::empty());
        assert(s =~= q + rest);
        assert(s[0] == '"');
        assert(s.skip(1) =~= rest);
        assert(st.field + f =~= st.field);
    } else {
        assert(f.subrange(0, 1) =~= seq![f[0]]);
        if f[0] == '"' {
            assert(match_at_quote(f));
            let t = f.skip(1);
            assert(replace_all(f, q, qq) == qq + replace_all(t, q, qq));
            let s = replace_all(f, q, qq) + q + rest;
            assert(s =~= qq + (replace_all(t, q, qq) + q + rest));
            assert(s[0] == '"' && s[1] == '"');
            assert(s.skip(2) =~= replace_all(t, q, qq) + q + rest);
            let st1 = ParseState { field: st.field.push('"'), ..st };
            lemma_quoted_inner(t, rest, sep, st1);
            assert(st.field.push('"') + t =~= st.field + f);
        } else {
            let t = f.drop_first();
            assert(f.subrange(0, 1)[0] != q[0]);
            assert(!crate::text::match_at(f, q, 0));
            assert(replace_all(f, q, qq) == seq![f[0]] + replace_all(t, q, qq));
            let s = replace_all(f, q, qq) + q + rest;
            assert(s =~= seq![f[0]] + (replace_all(t, q, qq) + q + rest));
            assert(s[0] == f[0]);
            assert(s.skip(1) =~= replace_all(t, q, qq) + q + rest);
            let st1 = ParseState { field: st.field.push(f[0]), ..st };
            lemma_quoted_inner(t, rest, sep, st1);
            assert(st.field.push(f[0]) + t =~= st.field + f);
        }
    }
}

spec fn match_at_quote(f: Seq<char>) -> bool {
    crate::text::match_at(f, seq!['"'], 0)
}

proof fn lemma_field(f: Seq<char>, rest: Seq<char>, sep: char, st: ParseState)
    requires
        valid_sep(sep),
        !st.in_q,
        rest.len() > 0,
        rest[0] == sep || rest[0] == '\n' || rest[0] == '\r',
    ensures
        parse_seq(field_text(f, sep) + rest, sep, st) == parse_seq(rest, sep, ParseState { field: st.field + f, ..st }),
{
    if needs_quotes_spec(f, sep) {
        let q = seq!['"'];
        let e = replace_all(f, q, seq!['"', '"']);
        let s = field_text(f, sep) + rest;
        assert(s =~= q + (e + q + rest));
        assert(s[0] == '"');
        assert(s.skip(1) =~= e + q + rest);
        let st1 = ParseState { in_q: true, ..st };
        lemma_quoted_inner(f, rest, sep, st1);
    } else {
        lemma_plain_field(f, rest, sep, st);
    }
}

proof fn lemma_fields(row: Seq<Seq<char>>, sep: char, k: int, rest: Seq<char>, st: ParseState)
    requires
        valid_sep(sep),
        0 <= k < row.len(),
        !st.in_q,
        st.field == Seq::<char>::empty(),
        st.row == row.take(k),
    ensures
        parse_seq(fields_text(row, sep, k) + rest, sep, st) == parse_seq(
            rest,
            sep,
            ParseState {
                rows: if !is_blank_row(row) { st.rows.push(row) } else { st.rows },
                row: Seq::empty(),
                field: Seq::empty(),
                in_q: false,
            },
        ),
    decreases row.len() - k,
{
    let ft = field_text(row[k], sep);
    let st1 = ParseState { field: st.field + row[k], ..st };
    assert(st.field + row[k] =~= row[k]);
    assert(row.take(k).push(row[k]) =~= row.take(k + 1));
    if k + 1 < row.len() {
        let tail = seq![sep] + (fields_text(row, sep, k + 1) + rest);
        assert(fields_text(row, sep, k) + rest =~= ft + tail);
        lemma_field(row[k], tail, sep, st);
        assert(tail[0] == sep);
        assert(tail.skip(1) =~= fields_text(row, sep, k + 1) + rest);
        let st2 = ParseState { row: st1.row.push(st1.field), field: Seq::empty(), ..st1 };
        lemma_fields(row, sep, k + 1, rest, st2);
    } else {
        let tail = seq!['\n'] + rest;
        assert(fields_text(row, sep, k + 1) =~= seq!['\n']);
        assert(fields_text(row, sep, k) + rest =~= ft + tail);
        lemma_field(row[k], tail, sep, st);
        assert(tail[0] == '\n');
        assert(tail.skip(1) =~= rest);
        assert(row.take(k + 1) =~= row);
    }
}

proof fn lemma_rows(rows: Seq<Seq<Seq<char>>>, sep: char, done: Seq<Seq<Seq<char>>>)
    requires
        valid_sep(sep),
        forall|i: int| 0 <= i < rows.len() ==> #[trigger] storable_row(rows[i]),
    ensures
        parse_seq(
            rows_text(rows, sep),
            sep,
            ParseState { rows: done, row: Seq::empty(), field: Seq::empty(), in_q: false },
        ) == done + rows,
    decreases rows.len(),
{
    let st = ParseState { rows: done, row: Seq::empty(), field: Seq::empty(), in_q: false };
    if rows.len() == 0 {
        assert(seq![Seq::<char>::empty()][0].len() == 0);
        assert(Seq::<Seq<char>>::empty().push(Seq::<char>::empty()) =~= seq![Seq::<char>::empty()]);
        assert(done + rows =~= done);
    } else {
        assert(storable_row(rows[0]));
        assert(rows[0].take(0) =~= Seq::<Seq<char>>::empty());
        lemma_fields(rows[0], sep, 0, rows_text(rows.drop_first(), sep), st);
        assert forall|i: int| 0 <= i < rows.drop_first().len() implies #[trigger] storable_row(rows.drop_first()[i]) by {
            assert(rows.drop_first()[i] == rows[i + 1]);
        }
        lemma_rows(rows.drop_first(), sep, done.push(rows[0]));
        assert(done.push(rows[0]) + rows.drop_first() =~= done + rows);
    }
}

/// Rows written with a separator other than a quote or a line break read
/// back as they were, when each has a field and is not a lone empty field.
pub proof fn written_rows_read_back(rows: Seq<Seq<Seq<char>>>, sep: char)
    requires
        valid_sep(sep),
        forall|i: int| 0 <= i < rows.len() ==> #[trigger] storable_row(rows[i]),
    ensures
        parse_rows_spec(rows_text(rows, sep), sep) == rows,
{
    lemma_rows(rows, sep, Seq::empty());
    assert(Seq::<Seq<Seq<char>>>::empty() + rows =~= rows);
}

/* ---------------- other line ends and blank lines ---------------- */

/// A line end: CR LF or a line feed.
pub open spec fn line_end(crlf: bool) -> Seq<char> {
    if crlf { seq!['\r', '\n'] } else { seq!['\n'] }
}

/// Fields `row[k..]` as written, separated by `sep`, without the line end.
pub open spec fn fields_body(row: Seq<Seq<char>>, sep: char, k: int) -> Seq<char>
    decreases row.len() - k,
{
    if k < 0 || k >= row.len() {
        Seq::empty()
    } else {
        field_text(row[k], sep) + (if k + 1 < row.len() { seq![sep] } else { Seq::empty() }) + fields_body(row, sep, k + 1)
    }
}

/// `n` blank lines.
pub open spec fn blank_lines(n: nat, crlf: bool) -> Seq<char>
    decreases n,
{
    if n == 0 {
        Seq::empty()
    } else {
        line_end(crlf) + blank_lines((n - 1) as nat, crlf)
    }
}

/// Rows as written, each after `blanks[i]` blank lines and ended by CR LF
/// where `crlf[i]` holds, else by a line feed.
pub open spec fn spaced_rows_text(rows: Seq<Seq<Seq<char>>>, sep: char, crlf: Seq<bool>, blanks: Seq<nat>) -> Seq<char>
    decreases rows.len(),
{
    if rows.len() == 0 || crlf.len() == 0 || blanks.len() == 0 {
        Seq::empty()
    } else {
        blank_lines(blanks[0], crlf[0]) + fields_body(rows[0], sep, 0) + line_end(crlf[0]) + spaced_rows_text(
            rows.drop_first(),
            sep,
            crlf.drop_first(),
            blanks.drop_first(),
        )
    }
}

pub open spec fn line_start(done: Seq<Seq<Seq<char>>>) -> ParseState {
    ParseState { rows: done, row: Seq::empty(), field: Seq::empty(), in_q: false }
}

proof fn lemma_line_end(end: Seq<char>, crlf: bool, rest: Seq<char>, sep: char, st: ParseState)
    requires
        valid_sep(sep),
        end == line_end(crlf),
        !st.in_q,
    ensures
        parse_seq(end + rest, sep, st) == parse_seq(rest, sep, end_line(st)),
{
    let s = end + rest;
    assert(s[0] == end[0]);
    if crlf {
        assert(s[1] == '\n');
        assert(s.skip(2) =~= rest);
    } else {
        assert(s.skip(1) =~= rest);
    }
}

proof fn lemma_fields_body(row: Seq<Seq<char>>, sep: char, k: int, crlf: bool, rest: Seq<char>, st: ParseState)
    requires
        valid_sep(sep),
        0 <= k < row.len(),
        !st.in_q,
        st.field == Seq::<char>::empty(),
        st.row == row.take(k),
    ensures
        parse_seq(fields_body(row, sep, k) + line_end(crlf) + rest, sep, st) == parse_seq(
            rest,
            sep,
            ParseState {
                rows: if !is_blank_row(row) { st.rows.push(row) } else { st.rows },
                row: Seq::empty(),
                field: Seq::empty(),
                in_q: false,
            },
        ),
    decreases row.len() - k,
{
    let ft = field_text(row[k], sep);
    let end = line_end(crlf);
    let st1 = ParseState { field: st.field + row[k], ..st };
    assert(st.field + row[k] =~= row[k]);
    assert(row.take(k).push(row[k]) =~= row.take(k + 1));
    if k + 1 < row.len() {
        let tail = seq![sep] + (fields_body(row, sep, k + 1) + end + rest);
        assert(fields_body(row, sep, k) + end + rest =~= ft + tail);
        lemma_field(row[k], tail, sep, st);
        assert(tail[0] == sep);
        assert(tail.skip(1) =~= fields_body(row, sep, k + 1) + end + rest);
        let st2 = ParseState { row: st1.row.push(st1.field), field: Seq::empty(), ..st1 };
        lemma_fields_body(row, sep, k + 1, crlf, rest, st2);
    } else {
        let tail = end + rest;
        assert(fields_body(row, sep, k + 1) =~= Seq::<char>::empty());
        assert(fields_body(row, sep, k) + end + rest =~= ft + tail);
        assert(tail[0] == end[0]);
        lemma_field(row[k], tail, sep, st);
        lemma_line_end(end, crlf, rest, sep, st1);
        assert(row.take(k + 1) =~= row);
    }
}

proof fn lemma_blank_lines(n: nat, crlf: bool, rest: Seq<char>, sep: char, done: Seq<Seq<Seq<char>>>)
    requires
        valid_sep(sep),
    ensures
        parse_seq(blank_lines(n, crlf) + rest, sep, line_start(done)) == parse_seq(rest, sep, line_start(done)),
    decreases n,
{
    if n == 0 {
        assert(blank_lines(n, crlf) + rest =~= rest);
    } else {
        let m = (n - 1) as nat;
        assert(blank_lines(n, crlf) + rest =~= line_end(crlf) + (blank_lines(m, crlf) + rest));
        lemma_line_end(line_end(crlf), crlf, blank_lines(m, crlf) + rest, sep, line_start(done));
        let r = Seq::<Seq<char>>::empty().push(Seq::<char>::empty());
        assert(is_blank_row(r));
        assert(end_line(line_start(done)) == line_start(done));
        lemma_blank_lines(m, crlf, rest, sep, done);
    }
}

proof fn lemma_spaced_rows(rows: Seq<Seq<Seq<char>>>, sep: char, crlf: Seq<bool>, blanks: Seq<nat>, done: Seq<Seq<Seq<char>>>)
    requires
        valid_sep(sep),
        forall|i: int| 0 <= i < rows.len() ==> #[trigger] storable_row(rows[i]),
        crlf.len() == rows.len(),
        blanks.len() == rows.len(),
    ensures
        parse_seq(spaced_rows_text(rows, sep, crlf, blanks), sep, line_start(done)) == done + rows,
    decreases rows.len(),
{
    if rows.len() == 0 {
        let r = Seq::<Seq<char>>::empty().push(Seq::<char>::empty());
        assert(is_blank_row(r));
        assert(done + rows =~= done);
    } else {
        let later = spaced_rows_text(rows.drop_first(), sep, crlf.drop_first(), blanks.drop_first());
        let line = fields_body(rows[0], sep, 0) + line_end(crlf[0]) + later;
        assert(spaced_rows_text(rows, sep, crlf, blanks) =~= blank_lines(blanks[0], crlf[0]) + line);
        lemma_blank_lines(blanks[0], crlf[0], line, sep, done);
        assert(storable_row(rows[0]));
        assert(rows[0].take(0) =~= Seq::<Seq<char>>::empty());
        lemma_fields_body(rows[0], sep, 0, crlf[0], later, line_start(done));
        assert forall|i: int| 0 <= i < rows.drop_first().len() implies #[trigger] storable_row(rows.drop_first()[i]) by {
            assert(rows.drop_first()[i] == rows[i + 1]);
        }
        lemma_spaced_rows(rows.drop_first(), sep, crlf.drop_first(), blanks.drop_first(), done.push(rows[0]));
        assert(done.push(rows[0]) + rows.drop_first() =~= done + rows);
    }
}

/// Written rows read back the same whatever their line ends (line feed or
/// CR LF, chosen row by row) and however many blank lines stand before
/// each row.
pub proof fn rows_read_back_with_any_line_ends(
    rows: Seq<Seq<Seq<char>>>,
    sep: char,
    crlf: Seq<bool>,
    blanks: Seq<nat>,
)
    requires
        valid_sep(sep),
        forall|i: int| 0 <= i < rows.len() ==> #[trigger] storable_row(rows[i]),
        crlf.len() == rows.len(),
        blanks.len() == rows.len(),
    ensures
        parse_rows_spec(spaced_rows_text(rows, sep, crlf, blanks), sep) == rows,
{
    lemma_spaced_rows(rows, sep, crlf, blanks, Seq::empty());
    assert(Seq::<Seq<Seq<char>>>::empty() + rows =~= rows);
}

proof fn lemma_replace_char_concat(a: Seq<char>, b: Seq<char>, c: char, r: Seq<char>)
    ensures
        replace_all(a + b, seq![c], r) == replace_all(a, seq![c], r) + replace_all(b, seq![c], r),
    decreases a.len(),
{
    let p = seq![c];
    if a.len() == 0 {
        assert(a + b =~= b);
        assert(replace_all(a, p, r) =~= Seq::<char>::empty());
        assert(Seq::<char>::empty() + replace_all(b, p, r) =~= replace_all(b, p, r));
    } else {
        let s = a + b;
        assert(s[0] == a[0]);
        assert(s.subrange(0, 1) =~= seq![s[0]]);
        assert(a.subrange(0, 1) =~= seq![a[0]]);
        assert(s.skip(1) =~= a.drop_first() + b);
        assert(a.skip(1) =~= a.drop_first());
        lemma_replace_char_concat(a.drop_first(), b, c, r);
        if a[0] == c {
            assert(crate::text::match_at(s, p, 0));
            assert(crate::text::match_at(a, p, 0));
            assert(r + (replace_all(a.drop_first(), p, r) + replace_all(b, p, r)) =~= (r + replace_all(a.drop_first(), p, r))
                + replace_all(b, p, r));
        } else {
            assert(s.subrange(0, 1)[0] != p[0]);
            assert(a.subrange(0, 1)[0] != p[0]);
            assert(!crate::text::match_at(s, p, 0));
            assert(!crate::text::match_at(a, p, 0));
            assert(seq![a[0]] + (replace_all(a.drop_first(), p, r) + replace_all(b, p, r)) =~= (seq![a[0]] + replace_all(
                a.drop_first(),
                p,
                r,
            )) + replace_all(b, p, r));
        }
    }
}

proof fn lemma_replace_char_absent(a: Seq<char>, c: char, r: Seq<char>)
    requires
        !a.contains(c),
    ensures
        replace_all(a, seq![c], r) == a,
    decreases a.len(),
{
    if a.len() > 0 {
        let p = seq![c];
        assert(a.subrange(0, 1) =~= seq![a[0]]);
        assert(a[0] != c);
        assert(a.subrange(0, 1)[0] != p[0]);
        assert(!crate::text::match_at(a, p, 0));
        assert(!a.drop_first().contains(c)) by {
            if a.drop_first().contains(c) {
                let k = choose|k: int| 0 <= k < a.drop_first().len() && a.drop_first()[k] == c;
                assert(a[k + 1] == c);
            }
        }
        lemma_replace_char_absent(a.drop_first(), c, r);
        assert(a =~= seq![a[0]] + a.drop_first());
    }
}

proof fn lemma_replace_keeps_out(a: Seq<char>, x: char, c: char, r: Seq<char>)
    requires
        !a.contains(c),
        !r.contains(c),
    ensures
        !replace_all(a, seq![x], r).contains(c),
    decreases a.len(),
{
    if a.len() > 0 {
        let p = seq![x];
        assert(!a.drop_first().contains(c)) by {
            if a.drop_first().contains(c) {
                let k = choose|k: int| 0 <= k < a.drop_first().len() && a.drop_first()[k] == c;
                assert(a[k + 1] == c);
            }
        }
        assert(a.skip(1) =~= a.drop_first());
        lemma_replace_keeps_out(a.drop_first(), x, c, r);
        let t = replace_all(a.drop_first(), p, r);
        let out = replace_all(a, p, r);
        if crate::text::match_at(a, p, 0) {
            assert(out == r + t);
        } else {
            assert(out == seq![a[0]] + t);
            assert(a[0] != c);
        }
        if out.contains(c) {
            let k = choose|k: int| 0 <= k < out.len() && out[k] == c;
            if crate::text::match_at(a, p, 0) {
                if k < r.len() {
                    assert(r[k] == c);
                } else {
                    assert(t[k - r.len()] == c);
                }
            } else {
                if k > 0 {
                    assert(t[k - 1] == c);
                }
            }
        }
    }
}

proof fn lemma_body_no_newline(row: Seq<Seq<char>>, sep: char, k: int)
    requires
        valid_sep(sep),
        forall|i: int| 0 <= i < row.len() ==> !(#[trigger] row[i]).contains('\n'),
    ensures
        !fields_body(row, sep, k).contains('\n'),
    decreases row.len() - k,
{
    if 0 <= k < row.len() {
        lemma_body_no_newline(row, sep, k + 1);
        let f = row[k];
        let ft = field_text(f, sep);
        assert(!f.contains('\n'));
        if needs_quotes_spec(f, sep) {
            lemma_replace_keeps_out(f, '"', '\n', seq!['"', '"']);
            let e = replace_all(f, seq!['"'], seq!['"', '"']);
            assert(!ft.contains('\n')) by {
                if ft.contains('\n') {
                    let j = choose|j: int| 0 <= j < ft.len() && ft[j] == '\n';
                    if j > 0 && j <= e.len() {
                        assert(ft[j] == e[j - 1]);
                    }
                }
            }
        }
        let mid: Seq<char> = if k + 1 < row.len() { seq![sep] } else { Seq::empty() };
        let rest = fields_body(row, sep, k + 1);
        let b = fields_body(row, sep, k);
        assert(b == ft + mid + rest);
        if b.contains('\n') {
            let j = choose|j: int| 0 <= j < b.len() && b[j] == '\n';
            if j < ft.len() {
                assert(ft[j] == '\n');
            } else if j < ft.len() + mid.len() {
                assert(mid[j - ft.len()] == '\n');
            } else {
                assert(rest[j - ft.len() - mid.len()] == '\n');
            }
        }
    }
}

proof fn lemma_fields_text_body(row: Seq<Seq<char>>, sep: char, k: int)
    ensures
        fields_text(row, sep, k) == fields_body(row, sep, k) + seq!['\n'],
    decreases row.len() - k,
{
    if k < 0 || k >= row.len() {
        assert(fields_body(row, sep, k) + seq!['\n'] =~= seq!['\n']);
    } else {
        lemma_fields_text_body(row, sep, k + 1);
        let mid: Seq<char> = if k + 1 < row.len() { seq![sep] } else { Seq::empty() };
        assert(field_text(row[k], sep) + mid + (fields_body(row, sep, k + 1) + seq!['\n']) =~= (field_text(row[k], sep)
            + mid + fields_body(row, sep, k + 1)) + seq!['\n']);
    }
}

/// All rows ended by CR LF, with no blank lines.
pub open spec fn all_crlf(n: nat) -> Seq<bool> {
    Seq::new(n, |i: int| true)
}

pub open spec fn no_blanks(n: nat) -> Seq<nat> {
    Seq::new(n, |i: int| 0nat)
}

proof fn lemma_crlf_text(rows: Seq<Seq<Seq<char>>>, sep: char)
    requires
        valid_sep(sep),
        forall|i: int, j: int| 0 <= i < rows.len() && 0 <= j < rows[i].len() ==> !(#[trigger] rows[i][j]).contains('\n'),
    ensures
        replace_all(rows_text(rows, sep), seq!['\n'], seq!['\r', '\n']) == spaced_rows_text(
            rows,
            sep,
            all_crlf(rows.len()),
            no_blanks(rows.len()),
        ),
    decreases rows.len(),
{
    let nl = seq!['\n'];
    let crnl = seq!['\r', '\n'];
    if rows.len() > 0 {
        let rest = rows.drop_first();
        assert forall|i: int, j: int| 0 <= i < rest.len() && 0 <= j < rest[i].len() implies !(#[trigger] rest[i][j]).contains(
            '\n',
        ) by {
            assert(rest[i] == rows[i + 1]);
        }
        lemma_crlf_text(rest, sep);
        lemma_fields_text_body(rows[0], sep, 0);
        assert forall|i: int| 0 <= i < rows[0].len() implies !(#[trigger] rows[0][i]).contains('\n') by {}
        lemma_body_no_newline(rows[0], sep, 0);
        let body = fields_body(rows[0], sep, 0);
        lemma_replace_char_concat(body + nl, rows_text(rest, sep), '\n', crnl);
        lemma_replace_char_concat(body, nl, '\n', crnl);
        lemma_replace_char_absent(body, '\n', crnl);
        assert(nl.subrange(0, 1) =~= nl);
        assert(crate::text::match_at(nl, nl, 0));
        assert(nl.skip(1) =~= Seq::<char>::empty());
        assert(replace_all(Seq::<char>::empty(), nl, crnl) =~= Seq::<char>::empty());
        assert(replace_all(nl, nl, crnl) == crnl + replace_all(nl.skip(1), nl, crnl));
        assert(replace_all(nl, nl, crnl) =~= crnl);
        assert(all_crlf(rows.len()).drop_first() =~= all_crlf(rest.len()));
        assert(no_blanks(rows.len()).drop_first() =~= no_blanks(rest.len()));
        assert(blank_lines(0, true) =~= Seq::<char>::empty());
        assert(rows_text(rows, sep) == row_text(rows[0], sep) + rows_text(rest, sep));
        assert(spaced_rows_text(rows, sep, all_crlf(rows.len()), no_blanks(rows.len())) =~= body + crnl
            + spaced_rows_text(rest, sep, all_crlf(rest.len()), no_blanks(rest.len())));
    } else {
        assert(replace_all(Seq::<char>::empty(), nl, crnl) =~= Seq::<char>::empty());
    }
}

/// With no line break in any cell, written rows read back the same when
/// every line feed of the text is turned into CR LF.
pub proof fn crlf_rows_read_back(rows: Seq<Seq<Seq<char>>>, sep: char)
    requires
        valid_sep(sep),
        forall|i: int| 0 <= i < rows.len() ==> #[trigger] storable_row(rows[i]),
        forall|i: int, j: int| 0 <= i < rows.len() && 0 <= j < rows[i].len() ==> !(#[trigger] rows[i][j]).contains('\n'),
    ensures
        parse_rows_spec(replace_all(rows_text(rows, sep), seq!['\n'], seq!['\r', '\n']), sep) == rows,
{
    lemma_crlf_text(rows, sep);
    rows_read_back_with_any_line_ends(rows, sep, all_crlf(rows.len()), no_blanks(rows.len()));
}

/* ---------------- export text ---------------- */

/// A row as exported: with `strip`, the second cell loses one leading `#`.
pub open spec fn export_row(r: Seq<Seq<char>>, strip: bool) -> Seq<Seq<char>> {
    if strip && r.len() > 1 {
        r.update(1, crate::tokens::drop_prefix(r[1], seq!['#']))
    } else {
        r
    }
}

/// Text of an export: the header row when asked for and present, then the
/// rows; for the players page without `#` the number cell loses its `#`.
pub open spec fn export_text(o: AppOptions, headers: Option<Seq<Seq<char>>>, rows: Seq<Seq<Seq<char>>>) -> Seq<char> {
    let sep = format_sep(o.export.format);
    let strip = o.scrape.page == PageKind::Players && !o.export.keep_hash;
    let head = match headers {
        Some(h) => if o.export.include_headers { row_text(h, sep) } else { Seq::empty() },
        None => Seq::empty(),
    };
    head + rows_text(rows.map_values(|r: Seq<Seq<char>>| export_row(r, strip)), sep)
}

fn export_row_vec(r: &Vec<String>, strip: bool) -> (v: Vec<String>)
    ensures
        v.deep_view() == export_row(r.deep_view(), strip),
{
    let mut v: Vec<String> = Vec::new();
    let mut i: usize = 0;
    let n = r.len();
    let ghost target = export_row(r.deep_view(), strip);
    while i < n
        invariant
            i <= n,
            n == r@.len(),
            target == export_row(r.deep_view(), strip),
            target.len() == n,
            v.deep_view() == target.take(i as int),
        decreases n - i,
    {
        assert(r.deep_view()[i as int] == r@[i as int]@);
        let cell = if strip && n > 1 && i == 1 {
            let hash: Vec<char> = vec!['#'];
            assert(hash@ =~= seq!['#']);
            let c = crate::tokens::drop_prefix_vec(chars_of(r[i].as_str()), hash.as_slice());
            string_of(&c)
        } else {
            string_of(&chars_of(r[i].as_str()))
        };
        assert(cell@ == target[i as int]);
        let ghost prev = v.deep_view();
        v.push(cell);
        assert(v.deep_view() =~= prev.push(target[i as int]));
        assert(target.take(i + 1) =~= target.take(i as int).push(target[i as int]));
        i = i + 1;
    }
    assert(target.take(i as int) =~= target);
    v
}

/// Text of an export with the options `o`.
pub fn to_export_string(o: &AppOptions, headers: &Option<Vec<String>>, rows: &[Vec<String>]) -> (s: String)
    ensures
        s@ == export_text(*o, crate::text::opt_texts(*headers), rows.deep_view()),
{
    let sep = match o.export.delimiter() {
        Some(c) => c,
        None => ',',
    };
    let strip = o.scrape.page == PageKind::Players && !o.export.keep_hash;
    let mut v: Vec<char> = Vec::new();
    if o.export.include_headers {
        match headers {
            Some(h) => {
                push_row(&mut v, h.as_slice(), sep);
            },
            None => {},
        }
    }
    let ghost head = v@;
    let mut out_rows: Vec<Vec<String>> = Vec::new();
    let mut i: usize = 0;
    while i < rows.len()
        invariant
            i <= rows@.len(),
            out_rows.deep_view() == rows.deep_view().take(i as int).map_values(|r: Seq<Seq<char>>| export_row(r, strip)),
        decreases rows@.len() - i,
    {
        assert(rows.deep_view()[i as int] == rows@[i as int].deep_view());
        let er = export_row_vec(&rows[i], strip);
        let ghost prev = out_rows.deep_view();
        let ghost ev = er.deep_view();
        out_rows.push(er);
        assert(out_rows.deep_view() =~= prev.push(ev));
        assert(rows.deep_view().take(i + 1).map_values(|r: Seq<Seq<char>>| export_row(r, strip)) =~= rows.deep_view().take(
            i as int,
        ).map_values(|r: Seq<Seq<char>>| export_row(r, strip)).push(export_row(rows.deep_view()[i as int], strip)));
        i = i + 1;
    }
    assert(rows.deep_view().take(i as int) =~= rows.deep_view());
    let sl = out_rows.as_slice();
    assert(sl.deep_view() =~= out_rows.deep_view());
    let body = rows_text_vec(sl, sep);
    push_all(&mut v, &body);
    string_of(&v)
}

/* ---------------- file names of a per-team export ---------------- */

/// How often `stem` was used before (its first entry in `seen`, else 0).
pub open spec fn seen_count(seen: Seq<(Seq<char>, usize)>, stem: Seq<char>) -> nat
    decreases seen.len(),
{
    if seen.len() == 0 {
        0
    } else if seen[0].0 == stem {
        seen[0].1 as nat
    } else {
        seen_count(seen.drop_first(), stem)
    }
}

/// File name for the `count`-th use of `stem`: `stem.ext`, then `stem (2).ext`, `stem (3).ext`, ...
pub open spec fn numbered_name(stem: Seq<char>, count: nat, ext: Seq<char>) -> Seq<char> {
    if count == 0 {
        stem + seq!['.'] + ext
    } else {
        stem + " ("@ + crate::text::decimal(count + 1) + ")."@ + ext
    }
}

fn seen_index(seen: &Vec<(String, usize)>, stem: &str) -> (r: Option<usize>)
    ensures
        match r {
            Some(k) => k < seen@.len() && seen.deep_view()[k as int].0 == stem@
                && seen_count(seen.deep_view(), stem@) == seen@[k as int].1 as nat
                && forall|j: int| 0 <= j < k ==> #[trigger] seen.deep_view()[j].0 != stem@,
            None => seen_count(seen.deep_view(), stem@) == 0 && forall|j: int| 0 <= j < seen@.len() ==> #[trigger] seen.deep_view()[j].0 != stem@,
        },
{
    let sv = chars_of(stem);
    let mut k: usize = 0;
    assert(seen.deep_view().skip(0) =~= seen.deep_view());
    while k < seen.len()
        invariant
            k <= seen@.len(),
            sv@ == stem@,
            seen_count(seen.deep_view(), stem@) == seen_count(seen.deep_view().skip(k as int), stem@),
            forall|j: int| 0 <= j < k ==> #[trigger] seen.deep_view()[j].0 != stem@,
        decreases seen@.len() - k,
    {
        assert(seen.deep_view()[k as int] == (seen@[k as int].0@, seen@[k as int].1));
        assert(seen.deep_view().skip(k as int)[0] == seen.deep_view()[k as int]);
        assert(seen.deep_view().skip(k as int).drop_first() =~= seen.deep_view().skip(k + 1));
        if crate::text::seq_eq(&chars_of(seen[k].0.as_str()), &sv) {
            return Some(k);
        }
        k = k + 1;
    }
    assert(seen.deep_view().skip(k as int) =~= Seq::<(Seq<char>, usize)>::empty());
    None
}

proof fn lemma_seen_count_update(seen: Seq<(Seq<char>, usize)>, stem: Seq<char>, k: int, c: usize)
    requires
        0 <= k < seen.len(),
        seen[k].0 == stem,
        forall|j: int| 0 <= j < k ==> #[trigger] seen[j].0 != stem,
    ensures
        seen_count(seen.update(k, (stem, c)), stem) == c as nat,
        forall|other: Seq<char>| other != stem ==> #[trigger] seen_count(seen.update(k, (stem, c)), other) == seen_count(seen, other),
    decreases k,
{
    let u = seen.update(k, (stem, c));
    if k > 0 {
        assert(seen[0].0 != stem);
        lemma_seen_count_update(seen.drop_first(), stem, k - 1, c);
        assert(u.drop_first() =~= seen.drop_first().update(k - 1, (stem, c)));
        assert(u[0] == seen[0]);
        assert forall|other: Seq<char>| other != stem implies #[trigger] seen_count(u, other) == seen_count(seen, other) by {
            assert(seen_count(seen.drop_first().update(k - 1, (stem, c)), other) == seen_count(seen.drop_first(), other));
        }
    } else {
        assert(u.drop_first() =~= seen.drop_first());
        assert(u[0] == (stem, c));
    }
}

proof fn lemma_seen_count_push(seen: Seq<(Seq<char>, usize)>, stem: Seq<char>, c: usize)
    requires
        forall|j: int| 0 <= j < seen.len() ==> #[trigger] seen[j].0 != stem,
    ensures
        seen_count(seen.push((stem, c)), stem) == c as nat,
        forall|other: Seq<char>| other != stem ==> #[trigger] seen_count(seen.push((stem, c)), other) == seen_count(seen, other),
    decreases seen.len(),
{
    let u = seen.push((stem, c));
    if seen.len() > 0 {
        assert(seen[0].0 != stem);
        assert forall|j: int| 0 <= j < seen.drop_first().len() implies #[trigger] seen.drop_first()[j].0 != stem by {
            assert(seen.drop_first()[j] == seen[j + 1]);
        }
        lemma_seen_count_push(seen.drop_first(), stem, c);
        assert(u.drop_first() =~= seen.drop_first().push((stem, c)));
        assert(u[0] == seen[0]);
        assert forall|other: Seq<char>| other != stem implies #[trigger] seen_count(u, other) == seen_count(seen, other) by {
            assert(seen_count(seen.drop_first().push((stem, c)), other) == seen_count(seen.drop_first(), other));
        }
    } else {
        assert(u.drop_first() =~= seen);
        assert(u[0] == (stem, c));
    }
}

/// No stem is counted twice.
pub open spec fn distinct_stems(seen: Seq<(Seq<char>, usize)>) -> bool {
    forall|i: int, j: int| 0 <= i < j < seen.len() ==> (#[trigger] seen[i]).0 != (#[trigger] seen[j]).0
}

/// Path of the next file for `stem` in `dir`: the first use gives
/// `stem.ext`, later ones `stem (2).ext`, `stem (3).ext`, ...; `seen`
/// counts the uses within one export.
pub fn resolve_team_filename(dir: &str, stem: &str, seen: &mut Vec<(String, usize)>, ext: &str) -> (r: String)
    requires
        seen_count(old(seen).deep_view(), stem@) < usize::MAX,
    ensures
        r@ == crate::base::paths::join_spec(dir@, numbered_name(stem@, seen_count(old(seen).deep_view(), stem@), ext@)),
        seen_count(final(seen).deep_view(), stem@) == seen_count(old(seen).deep_view(), stem@) + 1,
        forall|other: Seq<char>| other != stem@ ==> #[trigger] seen_count(final(seen).deep_view(), other) == seen_count(old(seen).deep_view(), other),
        distinct_stems(old(seen).deep_view()) ==> distinct_stems(final(seen).deep_view()),
{
    let idx = seen_index(seen, stem);
    let count: usize = match idx {
        Some(k) => seen[k].1,
        None => 0,
    };
    let mut name = chars_of(stem);
    if count == 0 {
        name.push('.');
        push_all(&mut name, &chars_of(ext));
    } else {
        push_all(&mut name, &chars_of(" ("));
        push_all(&mut name, &crate::text::decimal_vec(count as u64 + 1));
        push_all(&mut name, &chars_of(")."));
        push_all(&mut name, &chars_of(ext));
    }
    let ghost old_seen = seen.deep_view();
    match idx {
        Some(k) => {
            seen.set(k, (stem.to_string(), count + 1));
            assert(seen.deep_view() =~= old_seen.update(k as int, (stem@, (count + 1) as usize)));
            proof {
                lemma_seen_count_update(old_seen, stem@, k as int, (count + 1) as usize);
                let nw = seen.deep_view();
                assert forall|i: int| 0 <= i < nw.len() implies (#[trigger] nw[i]).0 == old_seen[i].0 by {}
            }
        },
        None => {
            seen.push((stem.to_string(), 1));
            assert(seen.deep_view() =~= old_seen.push((stem@, 1usize)));
            proof {
                lemma_seen_count_push(old_seen, stem@, 1);
                let nw = seen.deep_view();
                if distinct_stems(old_seen) {
                    assert forall|i: int, j: int| 0 <= i < j < nw.len() implies (#[trigger] nw[i]).0 != (#[trigger] nw[j]).0 by {
                        if j < old_seen.len() {
                            assert(nw[i] == old_seen[i] && nw[j] == old_seen[j]);
                        } else {
                            assert(nw[i] == old_seen[i]);
                            assert(old_seen[i].0 != stem@);
                        }
                    }
                }
            }
        },
    }
    let n = string_of(&name);
    crate::base::paths::join_path(dir, n.as_str())
}

/* ---------------- per-team export ---------------- */

/// A team's name and its rows.
pub type TeamGroup = (Seq<char>, Seq<Seq<Seq<char>>>);

/// Position of the group of team `name`.
pub open spec fn group_index(groups: Seq<TeamGroup>, name: Seq<char>) -> Option<int>
    decreases groups.len(),
{
    if groups.len() == 0 {
        None
    } else {
        match group_index(groups.drop_last(), name) {
            Some(k) => Some(k),
            None => if groups.last().0 == name { Some(groups.len() - 1) } else { None },
        }
    }
}

/// The rows grouped by the team named in column `col`, teams in the order
/// they first occur, rows in their order; rows without that column are left
/// out.
pub open spec fn team_groups(rows: Seq<Seq<Seq<char>>>, col: int) -> Seq<TeamGroup>
    decreases rows.len(),
{
    if rows.len() == 0 {
        Seq::empty()
    } else {
        let g = team_groups(rows.drop_last(), col);
        let r = rows.last();
        if 0 <= col < r.len() {
            match group_index(g, r[col]) {
                Some(k) => g.update(k, (g[k].0, g[k].1.push(r))),
                None => g.push((r[col], seq![r])),
            }
        } else {
            g
        }
    }
}

/// The file stem of a team's group.
pub open spec fn group_stem(g: TeamGroup) -> Seq<char> {
    crate::base::sanitize::sanitize_team_filename_spec(g.0, 0)
}

/// How many of the groups have the file stem `stem`.
pub open spec fn stem_uses(groups: Seq<TeamGroup>, stem: Seq<char>) -> nat
    decreases groups.len(),
{
    if groups.len() == 0 {
        0
    } else {
        stem_uses(groups.drop_last(), stem) + if group_stem(groups.last()) == stem { 1nat } else { 0nat }
    }
}

/// Path and text of the file of group `i` in a per-team export.
pub open spec fn team_file(o: AppOptions, headers: Option<Seq<Seq<char>>>, groups: Seq<TeamGroup>, i: int) -> (Seq<char>, Seq<char>) {
    let stem = group_stem(groups[i]);
    (
        crate::base::paths::join_spec(
            crate::config::options::out_path_spec(o.export),
            numbered_name(stem, stem_uses(groups.take(i), stem), crate::config::options::format_ext(o.export.format)),
        ),
        export_text(o, headers, groups[i].1),
    )
}

fn group_index_exec(groups: &Vec<(Vec<char>, Vec<Vec<String>>)>, name: &[char]) -> (r: Option<usize>)
    ensures
        match r {
            Some(k) => k < groups@.len() && group_index(groups.deep_view(), name@) == Some(k as int),
            None => group_index(groups.deep_view(), name@) is None,
        },
{
    let ghost gv = groups.deep_view();
    let mut i: usize = 0;
    while i < groups.len()
        invariant
            i <= groups@.len(),
            gv == groups.deep_view(),
            group_index(gv.take(i as int), name@) is None,
        decreases groups@.len() - i,
    {
        assert(gv.take(i + 1).drop_last() =~= gv.take(i as int));
        assert(gv[i as int].0 == groups@[i as int].0@);
        if crate::text::seq_eq(&groups[i].0, name) {
            proof { lemma_group_index_prefix(gv, name@, i + 1); }
            return Some(i);
        }
        i = i + 1;
    }
    assert(gv.take(i as int) =~= gv);
    None
}

proof fn lemma_group_index_prefix(groups: Seq<TeamGroup>, name: Seq<char>, j: int)
    requires
        0 < j <= groups.len(),
        group_index(groups.take(j), name) is Some,
    ensures
        group_index(groups, name) == group_index(groups.take(j), name),
    decreases groups.len() - j,
{
    if j < groups.len() {
        assert(groups.take(j + 1).drop_last() =~= groups.take(j));
        lemma_group_index_prefix(groups, name, j + 1);
    } else {
        assert(groups.take(j) =~= groups);
    }
}

/// The rows grouped by team (see `team_groups`).
pub fn group_by_team(rows: &[Vec<String>], team_col: usize) -> (g: Vec<(Vec<char>, Vec<Vec<String>>)>)
    ensures
        g.deep_view() == team_groups(rows.deep_view(), team_col as int),
{
    let ghost rv = rows.deep_view();
    let mut groups: Vec<(Vec<char>, Vec<Vec<String>>)> = Vec::new();
    let mut i: usize = 0;
    assert(groups.deep_view() =~= team_groups(rv.take(0), team_col as int));
    while i < rows.len()
        invariant
            i <= rv.len(),
            rv == rows.deep_view(),
            groups.deep_view() == team_groups(rv.take(i as int), team_col as int),
        decreases rv.len() - i,
    {
        assert(rv.take(i + 1).drop_last() =~= rv.take(i as int));
        assert(rv.take(i + 1).last() == rv[i as int]);
        assert(rv[i as int] == rows@[i as int].deep_view());
        if team_col < rows[i].len() {
            assert(rv[i as int][team_col as int] == rows@[i as int]@[team_col as int]@);
            let name = chars_of(rows[i][team_col].as_str());
            let row = crate::data::copy_row(&rows[i]);
            let ghost before = groups.deep_view();
            match group_index_exec(&groups, &name) {
                Some(k) => {
                    let mut g = groups.remove(k);
                    let ghost gv = g.1.deep_view();
                    g.1.push(row);
                    assert(g.1.deep_view() =~= gv.push(rv[i as int]));
                    groups.insert(k, g);
                    assert(groups.deep_view() =~= before.update(k as int, (before[k as int].0, before[k as int].1.push(rv[i as int]))));
                },
                None => {
                    let mut rs: Vec<Vec<String>> = Vec::new();
                    rs.push(row);
                    let item = (name, rs);
                    assert(item.0.deep_view() =~= item.0@);
                    assert(item.1.deep_view() =~= seq![rv[i as int]]);
                    groups.push(item);
                    assert(groups.deep_view() =~= before.push((rv[i as int][team_col as int], seq![rv[i as int]])));
                },
            }
        }
        i = i + 1;
    }
    assert(rv.take(i as int) =~= rv);
    groups
}

proof fn lemma_stem_uses_bound(groups: Seq<TeamGroup>, stem: Seq<char>)
    ensures
        stem_uses(groups, stem) <= groups.len(),
    decreases groups.len(),
{
    if groups.len() > 0 {
        lemma_stem_uses_bound(groups.drop_last(), stem);
    }
}

/// The files of a per-team export, one per team named in column
/// `team_col` (see `team_file`): path and text, in the order the teams first
/// occur.
pub fn team_export_files(o: &AppOptions, headers: &Option<Vec<String>>, rows: &[Vec<String>], team_col: usize) -> (v: Vec<(String, String)>)
    ensures
        v@.len() == team_groups(rows.deep_view(), team_col as int).len(),
        forall|i: int| 0 <= i < v@.len() ==> (#[trigger] v@[i].0@, v@[i].1@) == team_file(
            *o,
            crate::text::opt_texts(*headers),
            team_groups(rows.deep_view(), team_col as int),
            i,
        ),
{
    let groups = group_by_team(rows, team_col);
    let ghost gv = groups.deep_view();
    let dir = o.export.out_path();
    let ext = o.export.format.ext();
    let mut seen: Vec<(String, usize)> = Vec::new();
    let mut out: Vec<(String, String)> = Vec::new();
    let n = groups.len();
    let mut i: usize = 0;
    while i < n
        invariant
            i <= n,
            n == groups@.len(),
            gv == groups.deep_view(),
            gv == team_groups(rows.deep_view(), team_col as int),
            dir@ == crate::config::options::out_path_spec(o.export),
            ext@ == crate::config::options::format_ext(o.export.format),
            forall|t: Seq<char>| #[trigger] seen_count(seen.deep_view(), t) == stem_uses(gv.take(i as int), t),
            out@.len() == i,
            forall|k: int| 0 <= k < i ==> (#[trigger] out@[k].0@, out@[k].1@) == team_file(
                *o,
                crate::text::opt_texts(*headers),
                gv,
                k,
            ),
        decreases n - i,
    {
        assert(gv[i as int] == (groups@[i as int].0@, groups@[i as int].1.deep_view()));
        let name = string_of(&groups[i].0);
        let stem = crate::base::sanitize::sanitize_team_filename(name.as_str(), 0);
        assert(stem@ == group_stem(gv[i as int]));
        proof {
            lemma_stem_uses_bound(gv.take(i as int), stem@);
        }
        let path = resolve_team_filename(dir.as_str(), stem.as_str(), &mut seen, ext);
        let text = to_export_string(o, headers, groups[i].1.as_slice());
        proof {
            assert(gv.take(i + 1).drop_last() =~= gv.take(i as int));
            assert(gv.take(i + 1).last() == gv[i as int]);
        }
        out.push((path, text));
        i = i + 1;
    }
    out
}

/* ---------------- distinct file names ---------------- */

proof fn lemma_stem_uses_step(groups: Seq<TeamGroup>, stem: Seq<char>, i: int)
    requires
        0 <= i < groups.len(),
    ensures
        stem_uses(groups.take(i + 1), stem) == stem_uses(groups.take(i), stem) + if group_stem(groups[i]) == stem {
            1nat
        } else {
            0nat
        },
{
    assert(groups.take(i + 1).drop_last() =~= groups.take(i));
    assert(groups.take(i + 1).last() == groups[i]);
}

proof fn lemma_stem_uses_grows(groups: Seq<TeamGroup>, stem: Seq<char>, i: int, j: int)
    requires
        0 <= i <= j <= groups.len(),
    ensures
        stem_uses(groups.take(i), stem) <= stem_uses(groups.take(j), stem),
    decreases j - i,
{
    if i < j {
        lemma_stem_uses_grows(groups, stem, i, j - 1);
        lemma_stem_uses_step(groups, stem, j - 1);
    }
}

proof fn lemma_decimal_injective(a: nat, b: nat)
    requires
        crate::text::decimal(a) == crate::text::decimal(b),
    ensures
        a == b,
{
    crate::store::lemma_decimal_value(a);
    crate::store::lemma_decimal_value(b);
}

/// Numbered names of stems made of file name characters are equal only for
/// the same stem and the same count.
proof fn lemma_numbered_name_injective(s1: Seq<char>, k1: nat, s2: Seq<char>, k2: nat, e: Seq<char>)
    requires
        forall|k: int| 0 <= k < s1.len() ==> crate::base::sanitize::is_filename_char(#[trigger] s1[k]),
        forall|k: int| 0 <= k < s2.len() ==> crate::base::sanitize::is_filename_char(#[trigger] s2[k]),
        numbered_name(s1, k1, e) == numbered_name(s2, k2, e),
    ensures
        s1 == s2,
        k1 == k2,
{
    reveal_strlit(" (");
    reveal_strlit(").");
    let n = numbered_name(s1, k1, e);
    assert(n[s1.len() as int] == (if k1 == 0 { '.' } else { ' ' }));
    assert(n[s2.len() as int] == (if k2 == 0 { '.' } else { ' ' }));
    if s1.len() < s2.len() {
        assert(n[s1.len() as int] == s2[s1.len() as int]);
        assert(false);
    }
    if s2.len() < s1.len() {
        assert(n[s2.len() as int] == s1[s2.len() as int]);
        assert(false);
    }
    assert(s1 =~= n.take(s1.len() as int));
    assert(s2 =~= n.take(s2.len() as int));
    if k1 != 0 && k2 != 0 {
        let d1 = crate::text::decimal(k1 + 1);
        let d2 = crate::text::decimal(k2 + 1);
        crate::store::lemma_decimal_value(k1 + 1);
        crate::store::lemma_decimal_value(k2 + 1);
        let base: int = s1.len() as int + 2;
        assert(forall|k: int| 0 <= k < d1.len() ==> n[base + k] == #[trigger] d1[k]);
        assert(forall|k: int| 0 <= k < d2.len() ==> n[base + k] == #[trigger] d2[k]);
        assert(n[base + d1.len() as int] == ')');
        assert(n[base + d2.len() as int] == ')');
        if d1.len() < d2.len() {
            assert(crate::text::is_digit(d2[d1.len() as int]));
            assert(false);
        }
        if d2.len() < d1.len() {
            assert(crate::text::is_digit(d1[d2.len() as int]));
            assert(false);
        }
        assert(d1 =~= d2);
        lemma_decimal_injective(k1 + 1, k2 + 1);
    }
}

/// Within one per-team export no two files get the same path.
pub proof fn team_files_are_distinct(o: AppOptions, headers: Option<Seq<Seq<char>>>, rows: Seq<Seq<Seq<char>>>, team_col: int)
    ensures
        ({
            let groups = team_groups(rows, team_col);
            forall|i: int, j: int| 0 <= i < j < groups.len() ==> (#[trigger] team_file(o, headers, groups, i)).0
                != (#[trigger] team_file(o, headers, groups, j)).0
        }),
{
    let groups = team_groups(rows, team_col);
    let dir = crate::config::options::out_path_spec(o.export);
    let ext = crate::config::options::format_ext(o.export.format);
    assert forall|i: int, j: int| 0 <= i < j < groups.len() implies (#[trigger] team_file(o, headers, groups, i)).0
        != (#[trigger] team_file(o, headers, groups, j)).0 by {
        let si = group_stem(groups[i]);
        let sj = group_stem(groups[j]);
        let ki = stem_uses(groups.take(i), si);
        let kj = stem_uses(groups.take(j), sj);
        let ni = numbered_name(si, ki, ext);
        let nj = numbered_name(sj, kj, ext);
        crate::base::sanitize::lemma_sanitized_stem(groups[i].0, 0);
        crate::base::sanitize::lemma_sanitized_stem(groups[j].0, 0);
        if team_file(o, headers, groups, i).0 == team_file(o, headers, groups, j).0 {
            assert(ni[0] == si[0] && nj[0] == sj[0]);
            assert(crate::base::sanitize::is_filename_char(si[0]));
            assert(crate::base::sanitize::is_filename_char(sj[0]));
            let pi = crate::base::paths::join_spec(dir, ni);
            let pj = crate::base::paths::join_spec(dir, nj);
            let pre = if dir.len() == 0 || dir.last() == '/' { dir } else { dir + seq!['/'] };
            assert(pi == pre + ni);
            assert(pj == pre + nj);
            assert(ni =~= pi.skip(pre.len() as int));
            assert(nj =~= pj.skip(pre.len() as int));
            lemma_numbered_name_injective(si, ki, sj, kj, ext);
            lemma_stem_uses_step(groups, si, i);
            lemma_stem_uses_grows(groups, si, i + 1, j);
            assert(false);
        }
    }
}

} // verus!
