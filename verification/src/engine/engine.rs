//! Reading a table of a fetched page by its description.

use vstd::prelude::*;
use crate::text::{
    chars_of, contains, contains_exec, decimal, decimal_vec, find_char, find_char_from, lemma_find_char_from,
    lower_seq, lower_vec, push_all, push_text, replace_all, replace_vec, rows_of, string_of, strings_of,
    sub_vec, trim, trim_vec,
};
use crate::base::html::{lemma_tag_block, slice_between_spec, tag_block, tag_block_spec, td_cells, td_cells_from};
use crate::base::sanitize::{
    normalize_ws_spec, normalize_ws_vec, sanitize_team_filename_spec, sanitize_team_filename_vec,
    strip_brackets_spec, strip_brackets_vec,
};
use crate::scrape::players::{between_text, min_int, read_headers, site_headers_from};
use crate::specs::players::{first_cell_team_name, first_cell_team_name_vec};
use crate::engine::types::{HeaderMode, Locator, OutputBundle, RowSelector, TableSpec};

verus! {

/// The page path for team `id`: every `{id}` of the template replaced by
/// the id; the template as it is without an id.
pub open spec fn build_path_spec(tmpl: Seq<char>, id: Option<u32>) -> Seq<char> {
    match id {
        Some(i) => replace_all(tmpl, "{id}"@, decimal(i as nat)),
        None => tmpl,
    }
}

/// The page path of a table for team `id` (see `build_path_spec`).
pub fn build_path(spec: &TableSpec, id: Option<u32>) -> (r: String)
    ensures
        r@ == build_path_spec(spec.path_tmpl@, id),
{
    match id {
        Some(i) => {
            let pat = chars_of("{id}");
            proof {
                reveal_strlit("{id}");
            }
            string_of(&replace_vec(&chars_of(spec.path_tmpl), &pat, &decimal_vec(i as u64)))
        },
        None => string_of(&chars_of(spec.path_tmpl)),
    }
}

/// `class="c"`.
pub open spec fn class_attr(c: Seq<char>) -> Seq<char> {
    "class=\""@ + c + "\""@
}

/// The opening of a row (its first 200 characters, lowercased) carries
/// one of the classes.
pub open spec fn row_has_class(tr: Seq<char>, classes: Seq<Seq<char>>) -> bool {
    let pre = lower_seq(tr.take(min_int(tr.len() as int, 200)));
    exists|k: int| 0 <= k < classes.len() && contains(pre, #[trigger] class_attr(classes[k]))
}

/// A fused first cell `"Name #27 Race"` split into name, number (with its
/// `#`) and race; the whole cell as the name when it has no `#` or nothing
/// follows the number.
pub open spec fn split_fused_spec(f: Seq<char>) -> (Seq<char>, Seq<char>, Seq<char>) {
    match find_char_from(f, '#', 0) {
        None => (trim(f), Seq::empty(), Seq::empty()),
        Some(h) => {
            // `rest` starts with the `#`.
            let rest = trim(f.skip(h));
            match find_char_from(rest, ' ', 0) {
                None => (trim(f), Seq::empty(), Seq::empty()),
                Some(sp) => (
                    trim(f.take(h)),
                    seq!['#'] + (if sp >= 1 { rest.subrange(1, sp) } else { Seq::empty() }),
                    trim(rest.skip(sp + 1)),
                ),
            }
        },
    }
}

/// One kept row: with `split`, the fused first cell (bracket tags removed)
/// becomes name, number and race, the team is inserted at `ins` when asked,
/// then the other cells follow; without it, the cells as they are.
pub open spec fn engine_row(cells: Seq<Seq<char>>, team: Seq<char>, split: bool, ins: Option<usize>) -> Seq<Seq<char>> {
    if split {
        let p = split_fused_spec(strip_brackets_spec(cells[0]));
        let base = seq![normalize_ws_spec(p.0), p.1, normalize_ws_spec(p.2)];
        let lead = match ins {
            Some(i) => base.insert(i as int, team),
            None => base,
        };
        lead + cells.drop_first()
    } else {
        cells
    }
}

/// The kept rows of the table from position `pos` on.
pub open spec fn engine_rows_from(
    table: Seq<char>,
    classes: Seq<Seq<char>>,
    team: Seq<char>,
    split: bool,
    ins: Option<usize>,
    pos: int,
) -> Seq<Seq<Seq<char>>>
    decreases table.len() - pos,
{
    match tag_block_spec(table, "<tr"@, "</tr>"@, pos) {
        None => Seq::empty(),
        Some((a, b)) => {
            proof {
                lemma_tag_block(table, "<tr"@, "</tr>"@, pos);
            }
            let tr = table.subrange(a, b);
            let cells = td_cells_from(tr, 0);
            if row_has_class(tr, classes) && cells.len() > 0 {
                seq![engine_row(cells, team, split, ins)] + engine_rows_from(table, classes, team, split, ins, b)
            } else {
                engine_rows_from(table, classes, team, split, ins, b)
            }
        },
    }
}

/// The column names: the fixed ones, then the site's (without its first
/// when asked and there are several); none without fixed names.
pub open spec fn engine_headers(ops: Seq<Seq<char>>, drop_first: bool, site: Seq<Seq<char>>) -> Option<Seq<Seq<char>>> {
    if ops.len() > 0 {
        Some(ops + if drop_first && site.len() > 1 { site.drop_first() } else { site })
    } else {
        None
    }
}

pub open spec fn texts_view(items: Seq<&'static str>) -> Seq<Seq<char>> {
    items.map_values(|s: &'static str| s@)
}

/// The opening pattern of the table, `<tag class=value`.
pub open spec fn table_open(tag: Seq<char>, value: Seq<char>) -> Seq<char> {
    "<"@ + tag + " class="@ + value
}

/// The closing pattern of the table, `</tag>`.
pub open spec fn table_close(tag: Seq<char>) -> Seq<char> {
    "</"@ + tag + ">"@
}

/// The team named by the table, else `Team <id>`, else `Team`.
pub open spec fn engine_team(table: Seq<char>, id: Option<u32>) -> Seq<char> {
    match first_cell_team_name(table) {
        Some(n) => n,
        None => match id {
            Some(i) => "Team "@ + decimal(i as nat),
            None => "Team"@,
        },
    }
}

/// What reading the table described by `spec` from `doc` gives.
pub open spec fn extract_spec(spec: TableSpec, id: Option<u32>, doc: Seq<char>) -> Result<
    (Seq<char>, Option<Seq<Seq<char>>>, Seq<Seq<Seq<char>>>),
    Seq<char>,
> {
    match spec.locator {
        Locator::FirstTableWithHeader(_) => Err("Locator not implemented"@),
        Locator::TagWithAttr { tag, attr: _, value_sub } => match slice_between_spec(
            doc,
            table_open(tag@, value_sub@),
            table_close(tag@),
        ) {
            None => Err("table not found"@),
            Some(table) => {
                let team = engine_team(table, id);
                let site = match spec.header_mode {
                    HeaderMode::ConsecutiveTh => site_headers_from(table, 0),
                    HeaderMode::NoHeaders => Seq::empty(),
                };
                let classes = match spec.row_selector {
                    RowSelector::TrClassAny(l) => texts_view(l@),
                };
                Ok((
                    sanitize_team_filename_spec(team, match id { Some(i) => i, None => 0 }),
                    engine_headers(texts_view(spec.header_ops@), spec.drop_first_header, site),
                    engine_rows_from(table, classes, team, spec.split_fused_first_cell, spec.insert_team_at, 0),
                ))
            },
        },
    }
}

/// Where the first cell is split, the team may be inserted among its three
/// parts (at position 3 at most); without a split no team is inserted.
pub open spec fn insert_ok(spec: TableSpec) -> bool {
    spec.split_fused_first_cell ==> match spec.insert_team_at {
        Some(i) => i <= 3,
        None => true,
    }
}

fn texts_vec(items: &[&'static str]) -> (v: Vec<Vec<char>>)
    ensures
        v.deep_view() == texts_view(items@),
{
    let mut v: Vec<Vec<char>> = Vec::new();
    let mut i: usize = 0;
    while i < items.len()
        invariant
            i <= items@.len(),
            v.deep_view() == texts_view(items@).take(i as int),
        decreases items@.len() - i,
    {
        push_text(&mut v, chars_of(items[i]));
        assert(texts_view(items@).take(i + 1) =~= texts_view(items@).take(i as int).push(items@[i as int]@));
        i = i + 1;
    }
    assert(texts_view(items@).take(i as int) =~= texts_view(items@));
    v
}

fn split_fused_vec(f: &[char]) -> (r: (Vec<char>, Vec<char>, Vec<char>))
    ensures
        (r.0@, r.1@, r.2@) == split_fused_spec(f@),
{
    proof {
        lemma_find_char_from(f@, '#', 0);
    }
    match find_char(f, '#', 0) {
        None => (trim_vec(f), Vec::new(), Vec::new()),
        Some(h) => {
            let rest = trim_vec(&sub_vec(f, h, f.len()));
            assert(f@.subrange(h as int, f@.len() as int) =~= f@.skip(h as int));
            proof {
                lemma_find_char_from(rest@, ' ', 0);
            }
            match find_char(&rest, ' ', 0) {
                None => (trim_vec(f), Vec::new(), Vec::new()),
                Some(sp) => {
                    let name = trim_vec(&sub_vec(f, 0, h));
                    assert(f@.subrange(0, h as int) =~= f@.take(h as int));
                    let rl = rest.len();
                    let mut num: Vec<char> = Vec::new();
                    num.push('#');
                    if sp >= 1 {
                        push_all(&mut num, &sub_vec(&rest, 1, sp));
                    }
                    assert(num@ =~= seq!['#'] + (if sp >= 1 { rest@.subrange(1, sp as int) } else { Seq::empty() }));
                    let race = trim_vec(&sub_vec(&rest, sp + 1, rl));
                    assert(rest@.subrange(sp + 1, rest@.len() as int) =~= rest@.skip(sp + 1));
                    (name, num, race)
                },
            }
        },
    }
}

fn row_has_class_exec(tr: &[char], classes: &Vec<Vec<char>>) -> (b: bool)
    ensures
        b == row_has_class(tr@, classes.deep_view()),
{
    let n = if tr.len() < 200 { tr.len() } else { 200 };
    let pre = lower_vec(&sub_vec(tr, 0, n));
    assert(tr@.subrange(0, n as int) =~= tr@.take(min_int(tr@.len() as int, 200)));
    let mut k: usize = 0;
    while k < classes.len()
        invariant
            k <= classes@.len(),
            pre@ == lower_seq(tr@.take(min_int(tr@.len() as int, 200))),
            forall|j: int| 0 <= j < k ==> !contains(pre@, #[trigger] class_attr(classes.deep_view()[j])),
        decreases classes@.len() - k,
    {
        let mut pat = chars_of("class=\"");
        push_all(&mut pat, &classes[k]);
        push_all(&mut pat, &chars_of("\""));
        assert(classes.deep_view()[k as int] == classes@[k as int]@);
        assert(pat@ == class_attr(classes.deep_view()[k as int]));
        if contains_exec(&pre, &pat) {
            return true;
        }
        k = k + 1;
    }
    false
}

fn engine_row_exec(cells: &Vec<Vec<char>>, team: &[char], split: bool, ins: Option<usize>) -> (r: Vec<Vec<char>>)
    requires
        cells@.len() > 0,
        split ==> (ins matches Some(i) ==> i <= 3),
    ensures
        r.deep_view() == engine_row(cells.deep_view(), team@, split, ins),
{
    let ghost cv = cells.deep_view();
    let mut row: Vec<Vec<char>> = Vec::new();
    let mut i: usize = 0;
    if split {
        assert(cells@[0].deep_view() =~= cells@[0]@);
        let (name, num, race) = split_fused_vec(&strip_brackets_vec(&cells[0]));
        push_text(&mut row, normalize_ws_vec(&name));
        push_text(&mut row, num);
        push_text(&mut row, normalize_ws_vec(&race));
        match ins {
            Some(at) => {
                let t = sub_vec(team, 0, team.len());
                assert(team@.subrange(0, team@.len() as int) =~= team@);
                let ghost before = row.deep_view();
                assert(t.deep_view() =~= t@);
                row.insert(at, t);
                assert(row.deep_view() =~= before.insert(at as int, team@));
            },
            None => {},
        }
        i = 1;
    }
    let ghost head = row.deep_view();
    assert(cv.subrange(i as int, i as int) =~= Seq::<Seq<char>>::empty());
    while i < cells.len()
        invariant
            i <= cells@.len(),
            split ==> 1 <= i,
            cv == cells.deep_view(),
            row.deep_view() == head + cv.subrange(if split { 1 } else { 0 }, i as int),
        decreases cells@.len() - i,
    {
        let c = sub_vec(&cells[i], 0, cells[i].len());
        assert(c@ =~= cells@[i as int]@);
        assert(cells@[i as int].deep_view() =~= cells@[i as int]@);
        push_text(&mut row, c);
        assert(cv.subrange(if split { 1 } else { 0 }, i + 1) =~= cv.subrange(if split { 1 } else { 0 }, i as int).push(cv[i as int]));
        i = i + 1;
    }
    proof {
        if split {
            let p = split_fused_spec(strip_brackets_spec(cv[0]));
            let base = seq![normalize_ws_spec(p.0), p.1, normalize_ws_spec(p.2)];
            match ins {
                Some(at) => assert(head =~= base.insert(at as int, team@)),
                None => assert(head =~= base),
            }
            assert(cv.subrange(1, i as int) =~= cv.drop_first());
        } else {
            assert(head =~= Seq::<Seq<char>>::empty());
            assert(cv.subrange(0, i as int) =~= cv);
        }
    }
    row
}

fn engine_rows(table: &[char], classes: &Vec<Vec<char>>, team: &[char], split: bool, ins: Option<usize>) -> (v: Vec<Vec<Vec<char>>>)
    requires
        split ==> (ins matches Some(i) ==> i <= 3),
    ensures
        v.deep_view() == engine_rows_from(table@, classes.deep_view(), team@, split, ins, 0),
{
    let o = chars_of("<tr");
    let c = chars_of("</tr>");
    let ghost cl = classes.deep_view();
    let mut out: Vec<Vec<Vec<char>>> = Vec::new();
    let mut pos: usize = 0;
    loop
        invariant
            pos <= table@.len(),
            o@ == "<tr"@,
            c@ == "</tr>"@,
            split ==> (ins matches Some(i) ==> i <= 3),
            cl == classes.deep_view(),
            engine_rows_from(table@, cl, team@, split, ins, 0) == out.deep_view() + engine_rows_from(
                table@,
                cl,
                team@,
                split,
                ins,
                pos as int,
            ),
        decreases table@.len() - pos,
    {
        match tag_block(table, &o, &c, pos) {
            None => {
                assert(out.deep_view() + engine_rows_from(table@, cl, team@, split, ins, pos as int) =~= out.deep_view());
                return out;
            },
            Some((a, b)) => {
                let tr = sub_vec(table, a, b);
                if row_has_class_exec(&tr, classes) {
                    let cells = td_cells(&tr);
                    if cells.len() > 0 {
                        let row = engine_row_exec(&cells, team, split, ins);
                        let ghost prev = out.deep_view();
                        out.push(row);
                        assert(out.deep_view() =~= prev.push(row.deep_view()));
                        assert(prev + engine_rows_from(table@, cl, team@, split, ins, pos as int) =~= out.deep_view()
                            + engine_rows_from(table@, cl, team@, split, ins, b as int));
                    }
                }
                pos = b;
            },
        }
    }
}

/// Read the table described by `spec` from the page `html_doc` fetched for
/// team `id` (see `extract_spec`).
pub fn extract(spec: &TableSpec, id: Option<u32>, html_doc: &str) -> (r: Result<OutputBundle, String>)
    requires
        insert_ok(*spec),
    ensures
        match extract_spec(*spec, id, html_doc@) {
            Ok((stem, headers, rows)) => r matches Ok(b) && b.filename_stem@ == stem && crate::text::opt_texts(b.headers)
                == headers && b.rows.deep_view() == rows,
            Err(e) => r matches Err(m) && m@ == e,
        },
{
    let (tag, value_sub) = match &spec.locator {
        Locator::FirstTableWithHeader(_) => {
            return Err(string_of(&chars_of("Locator not implemented")));
        },
        Locator::TagWithAttr { tag, attr: _, value_sub } => (*tag, *value_sub),
    };
    let mut open = chars_of("<");
    push_all(&mut open, &chars_of(tag));
    push_all(&mut open, &chars_of(" class="));
    push_all(&mut open, &chars_of(value_sub));
    let mut close = chars_of("</");
    push_all(&mut close, &chars_of(tag));
    push_all(&mut close, &chars_of(">"));
    let doc = chars_of(html_doc);
    let os = string_of(&open);
    let cs = string_of(&close);
    let table = match between_text(&doc, os.as_str(), cs.as_str()) {
        None => {
            return Err(string_of(&chars_of("table not found")));
        },
        Some(t) => t,
    };
    let team = match first_cell_team_name_vec(&table) {
        Some(n) => n,
        None => match id {
            Some(i) => {
                let mut v = chars_of("Team ");
                push_all(&mut v, &decimal_vec(i as u64));
                v
            },
            None => chars_of("Team"),
        },
    };
    let site: Vec<Vec<char>> = match spec.header_mode {
        HeaderMode::ConsecutiveTh => read_headers(&table),
        HeaderMode::NoHeaders => Vec::new(),
    };
    let ghost sv = site.deep_view();
    let headers = if spec.header_ops.len() > 0 {
        let mut h = texts_vec(spec.header_ops);
        let ghost ops = h.deep_view();
        let start: usize = if spec.drop_first_header && site.len() > 1 { 1 } else { 0 };
        let mut k: usize = start;
        while k < site.len()
            invariant
                start <= k <= site@.len(),
                sv == site.deep_view(),
                h.deep_view() == ops + sv.subrange(start as int, k as int),
            decreases site@.len() - k,
        {
            let t = sub_vec(&site[k], 0, site[k].len());
            assert(t@ =~= site@[k as int]@);
            assert(sv[k as int] == site@[k as int]@);
            push_text(&mut h, t);
            assert(sv.subrange(start as int, k + 1) =~= sv.subrange(start as int, k as int).push(sv[k as int]));
            k = k + 1;
        }
        assert(sv.subrange(start as int, k as int) =~= (if spec.drop_first_header && sv.len() > 1 { sv.drop_first() } else { sv }));
        Some(strings_of(&h))
    } else {
        None
    };
    let classes = match spec.row_selector {
        RowSelector::TrClassAny(l) => texts_vec(l),
    };
    let rows = engine_rows(&table, &classes, &team, spec.split_fused_first_cell, spec.insert_team_at);
    let fid: u32 = match id {
        Some(i) => i,
        None => 0,
    };
    let stem = sanitize_team_filename_vec(&team, fid);
    Ok(OutputBundle { filename_stem: string_of(&stem), headers, rows: rows_of(&rows) })
}

} // verus!
