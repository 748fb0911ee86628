//! Team list of the front page (`index.php`): `(id, full name)` from the
//! league table's `namecheck` cells, or, when the table gives nothing, the
//! short names of the `mega-links` menu; sorted by id, one row per id.

use vstd::prelude::*;
use crate::text::{
    chars_of, contains, contains_exec, decimal, decimal_vec, find, find_char, find_char_from, find_from,
    is_ascii_letter, is_ascii_ws, is_ascii_ws_char, leading_digits, lemma_find_char_from, lemma_find_from,
    lower_seq, lower_vec, parse_u32, parse_u32_spec, seq_eq, sub_vec, take_digits, trim, trim_start,
    trim_start_vec, trim_vec,
};
use crate::base::html::{strip_tags_spec, strip_tags_vec, tag_block, tag_block_spec};

verus! {

/// Header and rows of the team list.
pub struct TeamsBundle {
    pub headers: Option<Vec<String>>,
    pub rows: Vec<Vec<String>>,
}

/* ---------------- tags ---------------- */

pub open spec fn is_name_char(c: char) -> bool {
    is_ascii_letter(c) || c == '/'
}

/// End of the run of letters and `/` that starts at `k`.
pub open spec fn name_run(t: Seq<char>, k: int) -> int
    decreases t.len() - k,
{
    if 0 <= k < t.len() && is_name_char(t[k]) { name_run(t, k + 1) } else { k }
}

/// Whether a tag's text names a closing tag, and the tag's name.
pub open spec fn tag_name_of(tt: Seq<char>) -> (bool, Seq<char>) {
    let tag_name = tt.take(name_run(tt, 0));
    if tag_name.len() > 0 && tag_name[0] == '/' { (true, tag_name.drop_first()) } else { (false, tag_name) }
}

/* ---------------- href ---------------- */

/// End of an unquoted attribute value: the first ASCII whitespace (or `>`
/// when `stop_gt`) at or after `k`.
pub open spec fn unquoted_end(v: Seq<char>, k: int, stop_gt: bool) -> int
    decreases v.len() - k,
{
    if 0 <= k < v.len() && !(is_ascii_ws(v[k]) || (stop_gt && v[k] == '>')) {
        unquoted_end(v, k + 1, stop_gt)
    } else {
        k
    }
}

/// Value of the first `href=` (any case) in a tag's text: up to the
/// matching quote when quoted, else up to the end of the unquoted value.
pub open spec fn href_value(open: Seq<char>, stop_gt: bool) -> Option<Seq<char>> {
    match find_from(lower_seq(open), "href="@, 0) {
        None => None,
        Some(hp) => {
            let val = trim_start(open.skip(hp + 5));
            if val.len() > 0 && (val[0] == '"' || val[0] == '\'') {
                let end = match find_char_from(val, val[0], 1) {
                    Some(e) => e,
                    None => val.len() as int,
                };
                Some(val.subrange(1, end))
            } else {
                Some(val.take(unquoted_end(val, 0, stop_gt)))
            }
        },
    }
}

/// Team id of a link value: the digits after `team.php?i=` (any case).
pub open spec fn team_id_in(hv: Seq<char>) -> Option<u32> {
    match find_from(lower_seq(hv), "team.php?i="@, 0) {
        None => None,
        Some(ix) => {
            let d = leading_digits(hv.skip(ix + 11));
            if d.len() > 0 { parse_u32_spec(d) } else { None }
        },
    }
}

pub open spec fn href_team_id(open: Seq<char>, stop_gt: bool) -> Option<u32> {
    match href_value(open, stop_gt) {
        Some(hv) => team_id_in(hv),
        None => None,
    }
}

/* ---------------- league table ---------------- */

/// Team of a `namecheck` cell: the first link's id and its text (tags
/// removed, trimmed), when both are there and the text is not empty.
pub open spec fn cell_team(inner: Seq<char>) -> Option<(u32, Seq<char>)> {
    match find_from(lower_seq(inner), "<a"@, 0) {
        None => None,
        Some(a_pos) => {
            let opener_end = match find_char_from(inner, '>', a_pos) {
                Some(e) => e,
                None => a_pos,
            };
            let after_gt = opener_end + 1;
            match (
                href_team_id(inner.subrange(a_pos, opener_end + 1), true),
                find_from(lower_seq(inner.skip(after_gt)), "</a>"@, 0),
            ) {
                (Some(id), Some(cr)) => {
                    let name = trim(strip_tags_spec(inner.subrange(after_gt, after_gt + cr)));
                    if name.len() > 0 { Some((id, name)) } else { None }
                },
                _ => None,
            }
        },
    }
}

pub open spec fn opt_one<A>(o: Option<A>) -> Seq<A> {
    match o {
        Some(x) => seq![x],
        None => Seq::empty(),
    }
}

/// The cell block of the `namecheck` cell whose opening tag is at `lt`
/// (closing `>` at `gt`), if the tag is such a cell.
pub open spec fn name_cell_end(tb: Seq<char>, lt: int, gt: int) -> Option<int> {
    let tt = trim(tb.subrange(lt + 1, gt));
    let (is_close, name) = tag_name_of(tt);
    if !is_close && lower_seq(name) == "td"@ && contains(lower_seq(tt.skip(name.len() as int)), "namecheck"@) {
        match tag_block_spec(tb, "<td"@, "</td>"@, lt) {
            Some((_, te)) => Some(te),
            None => None,
        }
    } else {
        None
    }
}

pub proof fn lemma_name_cell_end(tb: Seq<char>, lt: int, gt: int)
    requires
        0 <= lt < gt < tb.len(),
        tb[lt] == '<',
        find_char_from(tb, '>', lt + 1) == Some(gt),
    ensures
        name_cell_end(tb, lt, gt) matches Some(te) ==> gt + 1 <= te - 5 && te <= tb.len(),
{
    reveal_strlit("</td>");
    crate::base::html::lemma_tag_block(tb, "<td"@, "</td>"@, lt);
    lemma_find_char_from(tb, '>', lt + 1);
    if let Some((st, te)) = tag_block_spec(tb, "<td"@, "</td>"@, lt) {
        crate::text::lemma_find_ci_from(tb, "<td"@, lt);
        let g = find_char_from(tb, '>', st).unwrap();
        lemma_find_char_from(tb, '>', st);
        crate::text::lemma_find_ci_from(tb, "</td>"@, g + 1);
        assert(g >= gt) by {
            if g < gt {
                assert(g >= lt + 1);
                assert(tb[g] != '>');
            }
        }
    }
}

/// Teams of the league table from position `i` on.
pub open spec fn league_from(tb: Seq<char>, i: int) -> Seq<(u32, Seq<char>)>
    decreases tb.len() - i,
{
    if i < 0 || i >= tb.len() {
        Seq::empty()
    } else {
        match find_char_from(tb, '<', i) {
            None => Seq::empty(),
            Some(lt) => {
                if lt + 1 >= tb.len() {
                    Seq::empty()
                } else {
                    match find_char_from(tb, '>', lt + 1) {
                        None => Seq::empty(),
                        Some(gt) => {
                            proof {
                                lemma_find_char_from(tb, '<', i);
                                lemma_find_char_from(tb, '>', lt + 1);
                                lemma_name_cell_end(tb, lt, gt);
                            }
                            match name_cell_end(tb, lt, gt) {
                                Some(te) => opt_one(cell_team(tb.subrange(gt + 1, te - 5))) + league_from(tb, te),
                                None => league_from(tb, gt + 1),
                            }
                        },
                    }
                }
            },
        }
    }
}

/// Teams of the first `<table>` block of the page.
pub open spec fn league_table_teams(doc: Seq<char>) -> Seq<(u32, Seq<char>)> {
    match tag_block_spec(doc, "<table"@, "</table>"@, 0) {
        None => Seq::empty(),
        Some((ts, te)) => league_from(doc.subrange(ts, te), 0),
    }
}

/* ---------------- mega menu ---------------- */

/// Teams of the `mega-links` menu lists from position `i` on; `in_mega`
/// tells whether such a list is open.
pub open spec fn mega_from(doc: Seq<char>, i: int, in_mega: bool) -> Seq<(u32, Seq<char>)>
    decreases doc.len() - i,
{
    if i < 0 || i >= doc.len() {
        Seq::empty()
    } else {
        match find_char_from(doc, '<', i) {
            None => Seq::empty(),
            Some(lt) => {
                if lt + 1 >= doc.len() {
                    Seq::empty()
                } else {
                    proof {
            reveal_strlit("</a>");
        }
        let is_end = doc[lt + 1] == '/';
                    match find_char_from(doc, '>', lt + 1) {
                        None => Seq::empty(),
                        Some(gt) => {
                            proof {
                                lemma_find_char_from(doc, '<', i);
                                lemma_find_char_from(doc, '>', lt + 1);
                            }
                            let tt = trim(doc.subrange(lt + 1, gt));
                            let (is_close, name) = tag_name_of(tt);
                            let rest = tt.skip(name.len() as int);
                            if !is_close && !is_end && lower_seq(name) == "ul"@ {
                                mega_from(doc, gt + 1, contains(lower_seq(rest), "mega-links"@))
                            } else if is_close && lower_seq(name) == "ul"@ {
                                mega_from(doc, gt + 1, false)
                            } else if in_mega && !is_close && !is_end && lower_seq(name) == "a"@ {
                                let after_gt = gt + 1;
                                match (href_team_id(rest, false), find_from(lower_seq(doc.skip(after_gt)), "</a>"@, 0)) {
                                    (Some(id), Some(cr)) => {
                                        proof {
                                            reveal_strlit("</a>");
                                            lemma_find_from(lower_seq(doc.skip(after_gt)), "</a>"@, 0);
                                        }
                                        seq![(id, trim(strip_tags_spec(doc.subrange(after_gt, after_gt + cr))))]
                                            + mega_from(doc, after_gt + cr + 4, in_mega)
                                    },
                                    _ => mega_from(doc, gt + 1, in_mega),
                                }
                            } else {
                                mega_from(doc, gt + 1, in_mega)
                            }
                        },
                    }
                }
            },
        }
    }
}

/// Teams found on the page: the league table's, or the menu's when the
/// table gives none.
pub open spec fn page_teams(doc: Seq<char>) -> Seq<(u32, Seq<char>)> {
    let l = league_table_teams(doc);
    if l.len() > 0 { l } else { mega_from(doc, 0, false) }
}

/* ---------------- tidy: sorted by id, first of each id ---------------- */

/// `rows[k]` is the first row with its id.
pub open spec fn first_with_id(rows: Seq<(u32, Seq<char>)>, k: int) -> bool {
    forall|j: int| 0 <= j < k ==> #[trigger] rows[j].0 != rows[k].0
}

/// Ids strictly increase along `out`.
pub open spec fn ids_increasing(out: Seq<(u32, Seq<char>)>) -> bool {
    forall|a: int, b: int| 0 <= a < b < out.len() ==> #[trigger] out[a].0 < #[trigger] out[b].0
}

/// Some row of `out` has id `id`.
#[verifier::opaque]
pub open spec fn has_id(out: Seq<(u32, Seq<char>)>, id: u32) -> bool {
    exists|j: int| 0 <= j < out.len() && #[trigger] out[j].0 == id
}

/// `t` is the first row of `rows` with its id.
#[verifier::opaque]
pub open spec fn is_first_row(rows: Seq<(u32, Seq<char>)>, t: (u32, Seq<char>)) -> bool {
    exists|k: int| 0 <= k < rows.len() && #[trigger] rows[k] == t && first_with_id(rows, k)
}

/// `out` holds, in increasing id order, the first row of `rows` for each id.
pub open spec fn is_tidy_of(out: Seq<(u32, Seq<char>)>, rows: Seq<(u32, Seq<char>)>) -> bool {
    &&& ids_increasing(out)
    &&& forall|k: int| 0 <= k < rows.len() ==> #[trigger] has_id(out, rows[k].0)
    &&& forall|j: int| 0 <= j < out.len() ==> #[trigger] is_first_row(rows, out[j])
}

/// The team table: an `Id` column with the decimal id and a `Team` column.
pub open spec fn team_row(t: (u32, Seq<char>)) -> Seq<Seq<char>> {
    seq![decimal(t.0 as nat), t.1]
}

/* ---------------- exec ---------------- */

fn tag_name_vec(tt: &[char]) -> (r: (bool, Vec<char>))
    ensures
        (r.0, r.1@) == tag_name_of(tt@),
{
    let mut k: usize = 0;
    while k < tt.len() && (('a' <= tt[k] && tt[k] <= 'z') || ('A' <= tt[k] && tt[k] <= 'Z') || tt[k] == '/')
        invariant
            k <= tt@.len(),
            name_run(tt@, 0) == name_run(tt@, k as int),
        decreases tt@.len() - k,
    {
        k = k + 1;
    }
    let tag_name = sub_vec(tt, 0, k);
    assert(tt@.subrange(0, k as int) =~= tt@.take(k as int));
    if tag_name.len() > 0 && tag_name[0] == '/' {
        let n = sub_vec(&tag_name, 1, tag_name.len());
        assert(tag_name@.subrange(1, tag_name@.len() as int) =~= tag_name@.drop_first());
        (true, n)
    } else {
        (false, tag_name)
    }
}

fn href_value_vec(open: &[char], stop_gt: bool) -> (r: Option<Vec<char>>)
    ensures
        crate::text::opt_chars(r) == href_value(open@, stop_gt),
{
    let lo = lower_vec(open);
    let p = chars_of("href=");
    proof {
        reveal_strlit("href=");
        lemma_find_from(lo@, p@, 0);
    }
    let ol = open.len();
    let hp = match find(&lo, &p, 0) {
        None => return None,
        Some(x) => x,
    };
    let val = trim_start_vec(&sub_vec(open, hp + 5, ol));
    assert(open@.subrange(hp + 5, ol as int) =~= open@.skip(hp + 5));
    if val.len() > 0 && (val[0] == '"' || val[0] == '\'') {
        let q = val[0];
        proof {
            lemma_find_char_from(val@, q, 1);
        }
        let end = match find_char(&val, q, 1) {
            Some(e) => e,
            None => val.len(),
        };
        Some(sub_vec(&val, 1, end))
    } else {
        let k = unquoted_end_vec(&val, stop_gt);
        let v = sub_vec(&val, 0, k);
        assert(val@.subrange(0, k as int) =~= val@.take(k as int));
        Some(v)
    }
}

/// End of the unquoted value at the start of `val` (see `unquoted_end`).
pub fn unquoted_end_vec(val: &[char], stop_gt: bool) -> (k: usize)
    ensures
        k as int == unquoted_end(val@, 0, stop_gt),
        k <= val@.len(),
{
    let mut k: usize = 0;
    while k < val.len() && !(is_ascii_ws_char(val[k]) || (stop_gt && val[k] == '>'))
        invariant
            k <= val@.len(),
            unquoted_end(val@, 0, stop_gt) == unquoted_end(val@, k as int, stop_gt),
        decreases val@.len() - k,
    {
        k = k + 1;
    }
    k
}

fn team_id_vec(hv: &[char]) -> (r: Option<u32>)
    ensures
        r == team_id_in(hv@),
{
    let lo = lower_vec(hv);
    let p = chars_of("team.php?i=");
    proof {
        reveal_strlit("team.php?i=");
        lemma_find_from(lo@, p@, 0);
    }
    let hl = hv.len();
    match find(&lo, &p, 0) {
        None => None,
        Some(ix) => {
            let d = take_digits(hv, ix + 11);
            if d.len() > 0 {
                parse_u32(&d)
            } else {
                None
            }
        },
    }
}

fn href_team_id_vec(open: &[char], stop_gt: bool) -> (r: Option<u32>)
    ensures
        r == href_team_id(open@, stop_gt),
{
    match href_value_vec(open, stop_gt) {
        Some(hv) => team_id_vec(&hv),
        None => None,
    }
}

fn cell_team_vec(inner: &[char]) -> (r: Option<(u32, Vec<char>)>)
    ensures
        match r {
            Some((id, n)) => cell_team(inner@) == Some((id, n@)),
            None => cell_team(inner@) is None,
        },
{
    let lo = lower_vec(inner);
    let pa = chars_of("<a");
    proof {
        reveal_strlit("<a");
        lemma_find_from(lo@, pa@, 0);
    }
    let il = inner.len();
    let a_pos = match find(&lo, &pa, 0) {
        None => return None,
        Some(x) => x,
    };
    proof {
        lemma_find_char_from(inner@, '>', a_pos as int);
    }
    let opener_end = match find_char(inner, '>', a_pos) {
        Some(e) => e,
        None => a_pos,
    };
    let id = href_team_id_vec(&sub_vec(inner, a_pos, opener_end + 1), true);
    let after_gt = opener_end + 1;
    let tail = lower_vec(&sub_vec(inner, after_gt, il));
    assert(inner@.subrange(after_gt as int, il as int) =~= inner@.skip(after_gt as int));
    let pc = chars_of("</a>");
    proof {
        lemma_find_from(tail@, pc@, 0);
    }
    match (id, find(&tail, &pc, 0)) {
        (Some(id), Some(cr)) => {
            let name = trim_vec(&strip_tags_vec(&sub_vec(inner, after_gt, after_gt + cr)));
            if name.len() > 0 {
                Some((id, name))
            } else {
                None
            }
        },
        _ => None,
    }
}

fn name_cell_end_vec(tb: &[char], lt: usize, gt: usize) -> (r: Option<usize>)
    requires
        lt < gt <= tb@.len(),
    ensures
        match r {
            Some(te) => name_cell_end(tb@, lt as int, gt as int) == Some(te as int),
            None => name_cell_end(tb@, lt as int, gt as int) is None,
        },
{
    let tt = trim_vec(&sub_vec(tb, lt + 1, gt));
    let (is_close, name) = tag_name_vec(&tt);
    if is_close {
        return None;
    }
    let ln = lower_vec(&name);
    let td = chars_of("td");
    if !seq_eq(&ln, &td) {
        return None;
    }
    proof {
        lemma_tag_name_len(tt@);
    }
    let rest = lower_vec(&sub_vec(&tt, name.len(), tt.len()));
    assert(tt@.subrange(name@.len() as int, tt@.len() as int) =~= tt@.skip(name@.len() as int));
    if !contains_exec(&rest, &chars_of("namecheck")) {
        return None;
    }
    match tag_block(tb, &chars_of("<td"), &chars_of("</td>"), lt) {
        Some((_, te)) => Some(te),
        None => None,
    }
}

proof fn lemma_tag_name_len(tt: Seq<char>)
    ensures
        tag_name_of(tt).1.len() <= tt.len(),
{
    lemma_name_run(tt, 0);
}

proof fn lemma_name_run(t: Seq<char>, k: int)
    requires
        0 <= k <= t.len(),
    ensures
        k <= name_run(t, k) <= t.len(),
    decreases t.len() - k,
{
    if k < t.len() && is_name_char(t[k]) {
        lemma_name_run(t, k + 1);
    }
}

fn league_scan(tb: &[char]) -> (v: Vec<(u32, Vec<char>)>)
    ensures
        v.deep_view() == league_from(tb@, 0),
{
    let mut out: Vec<(u32, Vec<char>)> = Vec::new();
    let mut i: usize = 0;
    let n = tb.len();
    while i < n
        invariant
            i <= n,
            n == tb@.len(),
            league_from(tb@, 0) == out.deep_view() + league_from(tb@, i as int),
        decreases n - i,
    {
        proof {
            lemma_find_char_from(tb@, '<', i as int);
        }
        let lt = match find_char(tb, '<', i) {
            None => {
                assert(out.deep_view() + league_from(tb@, i as int) =~= out.deep_view());
                return out;
            },
            Some(x) => x,
        };
        if lt + 1 >= n {
            assert(out.deep_view() + league_from(tb@, i as int) =~= out.deep_view());
            return out;
        }
        proof {
            lemma_find_char_from(tb@, '>', lt + 1);
        }
        let gt = match find_char(tb, '>', lt + 1) {
            None => {
                assert(out.deep_view() + league_from(tb@, i as int) =~= out.deep_view());
                return out;
            },
            Some(x) => x,
        };
        proof {
            lemma_name_cell_end(tb@, lt as int, gt as int);
        }
        match name_cell_end_vec(tb, lt, gt) {
            Some(te) => {
                let ghost prev = out.deep_view();
                match cell_team_vec(&sub_vec(tb, gt + 1, te - 5)) {
                    Some(t) => {
                        assert(t.1.deep_view() =~= t.1@);
                        let ghost tv = t.deep_view();
                        out.push(t);
                        assert(out.deep_view() =~= prev.push(tv));
                        assert(prev + league_from(tb@, i as int) =~= out.deep_view() + league_from(tb@, te as int));
                    },
                    None => {
                        assert(opt_one(cell_team(tb@.subrange(gt + 1, te - 5))) =~= Seq::<(u32, Seq<char>)>::empty());
                        assert(prev + league_from(tb@, i as int) =~= out.deep_view() + league_from(tb@, te as int));
                    },
                }
                i = te;
            },
            None => {
                i = gt + 1;
            },
        }
    }
    assert(out.deep_view() + league_from(tb@, i as int) =~= out.deep_view());
    out
}

fn mega_scan(doc: &[char]) -> (v: Vec<(u32, Vec<char>)>)
    ensures
        v.deep_view() == mega_from(doc@, 0, false),
{
    let mut out: Vec<(u32, Vec<char>)> = Vec::new();
    let mut i: usize = 0;
    let mut in_mega = false;
    let n = doc.len();
    let pc = chars_of("</a>");
    proof {
        reveal_strlit("</a>");
    }
    while i < n
        invariant
            i <= n,
            n == doc@.len(),
            pc@ == "</a>"@,
            mega_from(doc@, 0, false) == out.deep_view() + mega_from(doc@, i as int, in_mega),
        decreases n - i,
    {
        proof {
            lemma_find_char_from(doc@, '<', i as int);
        }
        let lt = match find_char(doc, '<', i) {
            None => {
                assert(out.deep_view() + mega_from(doc@, i as int, in_mega) =~= out.deep_view());
                return out;
            },
            Some(x) => x,
        };
        if lt + 1 >= n {
            assert(out.deep_view() + mega_from(doc@, i as int, in_mega) =~= out.deep_view());
            return out;
        }
        proof {
            reveal_strlit("</a>");
        }
        let is_end = doc[lt + 1] == '/';
        proof {
            lemma_find_char_from(doc@, '>', lt + 1);
        }
        let gt = match find_char(doc, '>', lt + 1) {
            None => {
                assert(out.deep_view() + mega_from(doc@, i as int, in_mega) =~= out.deep_view());
                return out;
            },
            Some(x) => x,
        };
        let tt = trim_vec(&sub_vec(doc, lt + 1, gt));
        let (is_close, name) = tag_name_vec(&tt);
        proof {
            lemma_tag_name_len(tt@);
        }
        let rest = sub_vec(&tt, name.len(), tt.len());
        assert(tt@.subrange(name@.len() as int, tt@.len() as int) =~= tt@.skip(name@.len() as int));
        let ln = lower_vec(&name);
        let is_ul = seq_eq(&ln, &chars_of("ul"));
        let is_a = seq_eq(&ln, &chars_of("a"));
        if !is_close && !is_end && is_ul {
            in_mega = contains_exec(&lower_vec(&rest), &chars_of("mega-links"));
            i = gt + 1;
        } else if is_close && is_ul {
            in_mega = false;
            i = gt + 1;
        } else if in_mega && !is_close && !is_end && is_a {
            let id = href_team_id_vec(&rest, false);
            let after_gt = gt + 1;
            let tail = lower_vec(&sub_vec(doc, after_gt, n));
            assert(doc@.subrange(after_gt as int, n as int) =~= doc@.skip(after_gt as int));
            proof {
                lemma_find_from(tail@, pc@, 0);
            }
            match (id, find(&tail, &pc, 0)) {
                (Some(id), Some(cr)) => {
                    assert(tail@.len() == n - after_gt);
                    let nm = trim_vec(&strip_tags_vec(&sub_vec(doc, after_gt, after_gt + cr)));
                    let ghost prev = out.deep_view();
                    let ghost nv = nm@;
                    assert(nm.deep_view() =~= nm@);
                    let t = (id, nm);
                    assert(t.deep_view() == (id, nv));
                    out.push(t);
                    assert(out.deep_view() =~= prev.push((id, nv)));
                    assert(prev + mega_from(doc@, i as int, in_mega) =~= out.deep_view() + mega_from(
                        doc@,
                        after_gt + cr + 4,
                        in_mega,
                    ));
                    i = after_gt + cr + 4;
                },
                _ => {
                    i = gt + 1;
                },
            }
        } else {
            i = gt + 1;
        }
    }
    assert(out.deep_view() + mega_from(doc@, i as int, in_mega) =~= out.deep_view());
    out
}

proof fn lemma_first_take(rv: Seq<(u32, Seq<char>)>, i: int, k: int)
    requires
        0 <= k < i <= rv.len(),
    ensures
        first_with_id(rv.take(i), k) == first_with_id(rv, k),
{
    assert(rv.take(i)[k] == rv[k]);
    assert forall|j: int| 0 <= j < k implies #[trigger] rv.take(i)[j] == rv[j] by {}
    if first_with_id(rv, k) {
        assert forall|j: int| 0 <= j < k implies #[trigger] rv.take(i)[j].0 != rv.take(i)[k].0 by {
            assert(rv.take(i)[j] == rv[j]);
        }
    }
    if first_with_id(rv.take(i), k) {
        assert forall|j: int| 0 <= j < k implies #[trigger] rv[j].0 != rv[k].0 by {
            assert(rv.take(i)[j] == rv[j]);
        }
    }
}

/// The row at `i` has an id already kept: nothing changes.
proof fn lemma_tidy_keep(ov: Seq<(u32, Seq<char>)>, rv: Seq<(u32, Seq<char>)>, i: int, p: int)
    requires
        is_tidy_of(ov, rv.take(i)),
        0 <= i < rv.len(),
        0 <= p < ov.len(),
        ov[p].0 == rv[i].0,
    ensures
        is_tidy_of(ov, rv.take(i + 1)),
{
    let t0 = rv.take(i);
    let t1 = rv.take(i + 1);
    assert forall|k: int| 0 <= k < t1.len() implies #[trigger] has_id(ov, t1[k].0) by {
        if k == i {
            reveal(has_id);
            assert(ov[p].0 == t1[k].0);
        } else {
            assert(t1[k] == t0[k]);
            assert(has_id(ov, t0[k].0));
        }
    }
    assert forall|j: int| 0 <= j < ov.len() implies #[trigger] is_first_row(t1, ov[j]) by {
        assert(is_first_row(t0, ov[j]));
        reveal(is_first_row);
        let k = choose|k: int| 0 <= k < t0.len() && #[trigger] t0[k] == ov[j] && first_with_id(t0, k);
        lemma_first_take(rv, i, k);
        lemma_first_take(rv, i + 1, k);
        assert(t1[k] == rv[k]);
        assert(t0[k] == rv[k]);
    }
}

/// The row at `i` has a new id: it goes in at `p`, the first place whose id is larger.
proof fn lemma_tidy_insert(ov: Seq<(u32, Seq<char>)>, rv: Seq<(u32, Seq<char>)>, i: int, p: int)
    requires
        is_tidy_of(ov, rv.take(i)),
        0 <= i < rv.len(),
        0 <= p <= ov.len(),
        forall|a: int| 0 <= a < p ==> #[trigger] ov[a].0 < rv[i].0,
        p < ov.len() ==> ov[p].0 > rv[i].0,
    ensures
        is_tidy_of(ov.insert(p, rv[i]), rv.take(i + 1)),
{
    let t0 = rv.take(i);
    let t1 = rv.take(i + 1);
    let nv = ov.insert(p, rv[i]);
    assert(first_with_id(rv, i)) by {
        assert forall|j: int| 0 <= j < i implies #[trigger] rv[j].0 != rv[i].0 by {
            assert(t0[j] == rv[j]);
            assert(has_id(ov, t0[j].0));
            reveal(has_id);
            let q = choose|q: int| 0 <= q < ov.len() && #[trigger] ov[q].0 == t0[j].0;
            if q > p {
                assert(ov[p].0 < ov[q].0);
            }
        }
    }
    lemma_first_take(rv, i + 1, i);
    assert(ids_increasing(nv)) by {
        assert forall|a: int, b: int| 0 <= a < b < nv.len() implies #[trigger] nv[a].0 < #[trigger] nv[b].0 by {
            if a < p && b < p {
            } else if a < p && b == p {
            } else if a < p && b > p {
                assert(nv[b] == ov[b - 1]);
                if b - 1 > a {
                    assert(ov[a].0 < ov[b - 1].0);
                }
            } else if a == p {
                assert(nv[b] == ov[b - 1]);
                if b - 1 > p {
                    assert(ov[p].0 < ov[b - 1].0);
                }
            } else {
                assert(nv[a] == ov[a - 1]);
                assert(nv[b] == ov[b - 1]);
            }
        }
    }
    assert forall|k: int| 0 <= k < t1.len() implies #[trigger] has_id(nv, t1[k].0) by {
        reveal(has_id);
        if k == i {
            assert(nv[p].0 == t1[k].0);
        } else {
            assert(t1[k] == t0[k]);
            assert(has_id(ov, t0[k].0));
            let q = choose|q: int| 0 <= q < ov.len() && #[trigger] ov[q].0 == t0[k].0;
            if q < p {
                assert(nv[q] == ov[q]);
            } else {
                assert(nv[q + 1] == ov[q]);
            }
        }
    }
    assert forall|j: int| 0 <= j < nv.len() implies #[trigger] is_first_row(t1, nv[j]) by {
        reveal(is_first_row);
        if j == p {
            assert(t1[i] == rv[i]);
        } else {
            let q = if j < p { j } else { j - 1 };
            assert(nv[j] == ov[q]);
            assert(is_first_row(t0, ov[q]));
            let k = choose|k: int| 0 <= k < t0.len() && #[trigger] t0[k] == ov[q] && first_with_id(t0, k);
            lemma_first_take(rv, i, k);
            lemma_first_take(rv, i + 1, k);
            assert(t1[k] == rv[k]);
            assert(t0[k] == rv[k]);
        }
    }
}

/// Rows of `rows` sorted by id, keeping the first row of each id.
fn tidy(rows: Vec<(u32, Vec<char>)>) -> (out: Vec<(u32, Vec<char>)>)
    ensures
        is_tidy_of(out.deep_view(), rows.deep_view()),
{
    let ghost rv = rows.deep_view();
    let mut out: Vec<(u32, Vec<char>)> = Vec::new();
    let mut i: usize = 0;
    assert(is_tidy_of(out.deep_view(), rv.take(0)));
    while i < rows.len()
        invariant
            i <= rows@.len(),
            rv == rows.deep_view(),
            is_tidy_of(out.deep_view(), rv.take(i as int)),
        decreases rows@.len() - i,
    {
        let id = rows[i].0;
        assert(rv[i as int] == rows@[i as int].deep_view());
        let ghost ov = out.deep_view();
        let mut p: usize = 0;
        while p < out.len() && out[p].0 < id
            invariant
                p <= out@.len(),
                ov == out.deep_view(),
                forall|a: int| 0 <= a < p ==> #[trigger] ov[a].0 < id,
            decreases out@.len() - p,
        {
            assert(ov[p as int].0 == out@[p as int].0);
            p = p + 1;
        }
        if p < out.len() && out[p].0 == id {
            assert(ov[p as int].0 == out@[p as int].0);
            proof {
                lemma_tidy_keep(ov, rv, i as int, p as int);
            }
        } else {
            proof {
                if p < out@.len() {
                    assert(ov[p as int].0 == out@[p as int].0);
                }
                lemma_tidy_insert(ov, rv, i as int, p as int);
            }
            let t = (rows[i].0, sub_vec(rows[i].1.as_slice(), 0, rows[i].1.len()));
            assert(t.1@ =~= rows@[i as int].1@);
            assert(t.deep_view() == rv[i as int]) by {
                assert(t.1.deep_view() =~= t.1@);
                assert(rows@[i as int].1.deep_view() =~= rows@[i as int].1@);
            }
            out.insert(p, t);
            assert(out.deep_view() =~= ov.insert(p as int, rv[i as int]));
        }
        i = i + 1;
    }
    assert(rv.take(i as int) =~= rv);
    out
}

fn team_rows(t: &Vec<(u32, Vec<char>)>) -> (r: Vec<Vec<String>>)
    ensures
        r.deep_view() == t.deep_view().map_values(|x: (u32, Seq<char>)| team_row(x)),
{
    let mut r: Vec<Vec<String>> = Vec::new();
    let mut i: usize = 0;
    while i < t.len()
        invariant
            i <= t@.len(),
            r.deep_view() == t.deep_view().take(i as int).map_values(|x: (u32, Seq<char>)| team_row(x)),
        decreases t@.len() - i,
    {
        let mut row: Vec<String> = Vec::new();
        let idv = decimal_vec(t[i].0 as u64);
        row.push(crate::text::string_of(&idv));
        row.push(crate::text::string_of(t[i].1.as_slice()));
        assert(t.deep_view()[i as int] == (t@[i as int].0, t@[i as int].1@));
        assert(row.deep_view() =~= team_row(t.deep_view()[i as int]));
        let ghost prev = r.deep_view();
        let ghost rowv = row.deep_view();
        r.push(row);
        assert(r.deep_view() =~= prev.push(rowv));
        assert(t.deep_view().take(i + 1).map_values(|x: (u32, Seq<char>)| team_row(x)) =~= t.deep_view().take(
            i as int,
        ).map_values(|x: (u32, Seq<char>)| team_row(x)).push(team_row(t.deep_view()[i as int])));
        i = i + 1;
    }
    assert(t.deep_view().take(i as int) =~= t.deep_view());
    r
}

/// The team list of the front page `html_doc` (the caller fetches
/// `/index.php`): headers `Id`, `Team`; one row per id in increasing order,
/// each the first one found for its id.
pub fn fetch(html_doc: &str) -> (r: TeamsBundle)
    ensures
        crate::text::opt_texts(r.headers) == Some(seq!["Id"@, "Team"@]),
        exists|t: Seq<(u32, Seq<char>)>| #[trigger] is_tidy_of(t, page_teams(html_doc@)) && r.rows.deep_view() == t.map_values(
            |x: (u32, Seq<char>)| team_row(x),
        ),
{
    let doc = chars_of(html_doc);
    let league = match tag_block(&doc, &chars_of("<table"), &chars_of("</table>"), 0) {
        None => Vec::new(),
        Some((ts, te)) => league_scan(&sub_vec(&doc, ts, te)),
    };
    assert(league.deep_view() == league_table_teams(doc@)) by {
        reveal_strlit("<table");
        reveal_strlit("</table>");
    }
    let found = if league.len() > 0 { league } else { mega_scan(&doc) };
    assert(found.deep_view() == page_teams(doc@));
    let sorted = tidy(found);
    let rows = team_rows(&sorted);
    assert(is_tidy_of(sorted.deep_view(), page_teams(html_doc@)));
    let mut h: Vec<String> = Vec::new();
    h.push("Id".to_string());
    h.push("Team".to_string());
    assert(h.deep_view() =~= seq!["Id"@, "Team"@]);
    TeamsBundle { headers: Some(h), rows }
}

/* ---------------- laws ---------------- */

/// A team link reads back as its id: `team.php?i=` followed by the decimal
/// digits of `n` (and then anything but another digit) gives `n`.
pub proof fn team_link_reads_back(n: u32, rest: Seq<char>)
    requires
        rest.len() == 0 || !crate::text::is_digit(rest[0]),
    ensures
        team_id_in("team.php?i="@ + decimal(n as nat) + rest) == Some(n),
{
    reveal_strlit("team.php?i=");
    let p = "team.php?i="@;
    let hv = p + decimal(n as nat) + rest;
    let lv = lower_seq(hv);
    assert(lv.subrange(0, 11) =~= p) by {
        assert forall|i: int| 0 <= i < 11 implies lv.subrange(0, 11)[i] == p[i] by {
            assert(hv[i] == p[i]);
        }
    }
    assert(crate::text::match_at(lv, p, 0));
    crate::scrape::reader_agreement::lemma_find_first(lv, p, 0);
    crate::store::lemma_decimal_value(n as nat);
    assert(hv.skip(11) =~= decimal(n as nat) + rest);
    crate::scrape::reader_agreement::lemma_leading_digits_run(decimal(n as nat), rest);
    crate::store::stored_season_reads_back(n);
    let d = decimal(n as nat);
    crate::text::lemma_trim_plain(d);
}

} // verus!
