//! Team page (`team.php?i=<id>`): roster rows and the team name.

use vstd::prelude::*;
use crate::text::{
    chars_of, contains, contains_exec, find, find_char, find_char_from, find_from, is_ascii_ws,
    is_ascii_ws_char, is_digit, is_digit_char, lemma_find_char_from, lemma_find_from, lemma_rfind_char_before,
    lower_seq, lower_vec, match_ci_at, push_text, rfind_char, rows_of, rfind_char_exec, skip_ws, string_of,
    strings_of, sub_vec, trim, trim_start, trim_vec,
};
use crate::base::html::{
    between, clean_spec, clean_vec, inner_spec, inner_vec, lemma_tag_block, slice_between_spec, tag_block,
    tag_block_spec, td_cells, td_cells_from,
};
use crate::base::sanitize::{
    letters_only_trim_spec, letters_only_trim_vec, normalize_ws_spec, normalize_ws_vec, strip_brackets_spec,
    strip_brackets_vec,
};
use crate::error::{opt_view, ScrapeError};
use crate::text::match_ci_at_exec;

verus! {

/// Header and rows of one team's roster.
pub struct RosterBundle {
    pub headers: Option<Vec<String>>,
    pub rows: Vec<Vec<String>>,
}


/* ---------------- team name ---------------- */

/// Non-empty text, or nothing.
pub open spec fn non_empty(s: Seq<char>) -> Option<Seq<char>> {
    if s.len() == 0 { None } else { Some(s) }
}

/// Team name from the `<title>` element.
pub open spec fn title_name_spec(doc: Seq<char>) -> Option<Seq<char>> {
    match slice_between_spec(doc, "<title>"@, "</title>"@) {
        None => None,
        Some(s) => non_empty(trim(clean_spec(s))),
    }
}

/// Team name from the active navigation tab `<td class="teamenuactive">`.
pub open spec fn active_tab_name_spec(doc: Seq<char>) -> Option<Seq<char>> {
    match slice_between_spec(doc, "<td class=\"teamenuactive\""@, "</td>"@) {
        None => None,
        Some(s) => non_empty(trim(clean_spec(inner_spec(s)))),
    }
}

/// Team name from the menu header `<td class="teamenuhead">`.
pub open spec fn menu_header_name_spec(doc: Seq<char>) -> Option<Seq<char>> {
    match slice_between_spec(doc, "<td class=\"teamenuhead\""@, "</td>"@) {
        None => None,
        Some(s) => non_empty(letters_only_trim_spec(clean_spec(s))),
    }
}

/// The team name when all three places are present and agree.
pub open spec fn validated_name_spec(doc: Seq<char>) -> Option<Seq<char>> {
    match (title_name_spec(doc), active_tab_name_spec(doc), menu_header_name_spec(doc)) {
        (Some(a), Some(b), Some(c)) => if a == b && b == c { Some(a) } else { None },
        _ => None,
    }
}

/// The error that reports the three names found on a page with the team id.
pub open spec fn mismatch_of(e: ScrapeError, doc: Seq<char>, team_id: u32) -> bool {
    match e {
        ScrapeError::TeamNameMismatch { team_id: id, title, active_tab, menu_header } => {
            &&& id == team_id
            &&& opt_view(title) == title_name_spec(doc)
            &&& opt_view(active_tab) == active_tab_name_spec(doc)
            &&& opt_view(menu_header) == menu_header_name_spec(doc)
        },
        _ => false,
    }
}

pub fn between_text(doc: &[char], o: &str, c: &str) -> (r: Option<Vec<char>>)
    ensures
        match r {
            Some(t) => slice_between_spec(doc@, o@, c@) == Some(t@),
            None => slice_between_spec(doc@, o@, c@) is None,
        },
{
    let ov = chars_of(o);
    let cv = chars_of(c);
    match between(doc, &ov, &cv) {
        None => None,
        Some((a, b)) => Some(sub_vec(doc, a, b)),
    }
}

pub fn non_empty_string(v: Vec<char>) -> (r: Option<String>)
    ensures
        opt_view(r) == non_empty(v@),
{
    if v.len() == 0 { None } else { Some(string_of(&v)) }
}

fn title_name(doc: &[char]) -> (r: Option<String>)
    ensures
        opt_view(r) == title_name_spec(doc@),
{
    match between_text(doc, "<title>", "</title>") {
        None => None,
        Some(s) => non_empty_string(trim_vec(&clean_vec(&s))),
    }
}

fn active_tab_name(doc: &[char]) -> (r: Option<String>)
    ensures
        opt_view(r) == active_tab_name_spec(doc@),
{
    match between_text(doc, "<td class=\"teamenuactive\"", "</td>") {
        None => None,
        Some(s) => non_empty_string(trim_vec(&clean_vec(&inner_vec(&s)))),
    }
}

fn menu_header_name(doc: &[char]) -> (r: Option<String>)
    ensures
        opt_view(r) == menu_header_name_spec(doc@),
{
    match between_text(doc, "<td class=\"teamenuhead\"", "</td>") {
        None => None,
        Some(s) => non_empty_string(letters_only_trim_vec(&clean_vec(&s))),
    }
}

/// Team name from the `<title>` element (cleanest source).
pub fn extract_from_title(doc: &str) -> (r: Option<String>)
    ensures
        opt_view(r) == title_name_spec(doc@),
{
    title_name(&chars_of(doc))
}

/// Team name from the navigation tab `<td class="teamenuactive">`.
pub fn extract_from_active_tab(doc: &str) -> (r: Option<String>)
    ensures
        opt_view(r) == active_tab_name_spec(doc@),
{
    active_tab_name(&chars_of(doc))
}

/// Team name from the team header `<td class="teamenuhead">`.
pub fn extract_from_menu_header(doc: &str) -> (r: Option<String>)
    ensures
        opt_view(r) == menu_header_name_spec(doc@),
{
    menu_header_name(&chars_of(doc))
}

fn validated_name(doc: &[char], team_id: u32) -> (r: Result<String, ScrapeError>)
    ensures
        match r {
            Ok(n) => validated_name_spec(doc@) == Some(n@),
            Err(e) => validated_name_spec(doc@) is None && mismatch_of(e, doc@, team_id),
        },
{
    let t = title_name(doc);
    let a = active_tab_name(doc);
    let h = menu_header_name(doc);
    let agree = match (&t, &a, &h) {
        (Some(x), Some(y), Some(z)) => {
            let xv = chars_of(x.as_str());
            let yv = chars_of(y.as_str());
            let zv = chars_of(z.as_str());
            crate::text::seq_eq(&xv, &yv) && crate::text::seq_eq(&yv, &zv)
        },
        _ => false,
    };
    if agree {
        match t {
            Some(x) => Ok(x),
            None => Err(ScrapeError::TableNotFound),
        }
    } else {
        Err(ScrapeError::TeamNameMismatch { team_id, title: t, active_tab: a, menu_header: h })
    }
}

/// The team name, taken from the title, the active tab and the menu header;
/// all three must be present and agree, otherwise the page is refused so
/// that a changed site layout cannot corrupt the data.
pub fn extract_and_validate_team_name(doc: &str, team_id: u32) -> (r: Result<String, ScrapeError>)
    ensures
        match r {
            Ok(n) => validated_name_spec(doc@) == Some(n@),
            Err(e) => validated_name_spec(doc@) is None && mismatch_of(e, doc@, team_id),
        },
{
    validated_name(&chars_of(doc), team_id)
}

/* ---------------- record suffix / legacy name ---------------- */

pub open spec fn record_inner_ok(inner: Seq<char>) -> bool {
    &&& exists|k: int| 0 <= k < inner.len() && is_digit(#[trigger] inner[k])
    &&& exists|k: int| 0 <= k < inner.len() && #[trigger] inner[k] == '-'
    &&& forall|k: int| 0 <= k < inner.len() ==> (is_digit(#[trigger] inner[k]) || inner[k] == '-' || is_ascii_ws(inner[k]))
}

/// A trailing season record such as `"(6 - 0 - 2)"` removed: only when the
/// parentheses hold digits, spaces and at least one hyphen and one digit.
pub open spec fn strip_record_suffix_spec(s: Seq<char>) -> Seq<char> {
    let t = trim(s);
    if t.len() > 0 && t.last() == ')' {
        match rfind_char(t, '(') {
            Some(open) => if open > 0 && record_inner_ok(t.subrange(open + 1, t.len() - 1)) {
                trim(t.take(open))
            } else {
                t
            },
            None => t,
        }
    } else {
        t
    }
}

fn record_inner_ok_exec(s: &[char], a: usize, b: usize) -> (r: bool)
    requires
        a <= b <= s@.len(),
    ensures
        r == record_inner_ok(s@.subrange(a as int, b as int)),
{
    let ghost inner = s@.subrange(a as int, b as int);
    let mut has_digit = false;
    let mut has_hyphen = false;
    let mut ok = true;
    let mut i = a;
    while i < b
        invariant
            a <= i <= b <= s@.len(),
            inner == s@.subrange(a as int, b as int),
            has_digit <==> exists|k: int| 0 <= k < i - a && is_digit(#[trigger] inner[k]),
            has_hyphen <==> exists|k: int| 0 <= k < i - a && #[trigger] inner[k] == '-',
            ok <==> forall|k: int| 0 <= k < i - a ==> (is_digit(#[trigger] inner[k]) || inner[k] == '-' || is_ascii_ws(inner[k])),
        decreases b - i,
    {
        let c = s[i];
        assert(inner[i - a] == c);
        if is_digit_char(c) {
            has_digit = true;
        }
        if c == '-' {
            has_hyphen = true;
        }
        if !(is_digit_char(c) || c == '-' || is_ascii_ws_char(c)) {
            ok = false;
        }
        i = i + 1;
    }
    has_digit && has_hyphen && ok
}

fn strip_record_suffix_vec(s: &[char]) -> (v: Vec<char>)
    ensures
        v@ == strip_record_suffix_spec(s@),
{
    let t = trim_vec(s);
    if t.len() > 0 && t[t.len() - 1] == ')' {
        match rfind_char_exec(&t, '(') {
            Some(open) => {
                proof {
                    lemma_rfind_char_before(t@, '(', t@.len() as int);
                }
                if open > 0 && record_inner_ok_exec(&t, open + 1, t.len() - 1) {
                    trim_vec(&sub_vec(&t, 0, open))
                } else {
                    t
                }
            },
            None => t,
        }
    } else {
        t
    }
}

/// Remove a trailing parenthesised season record like `"(6 - 0 - 2)"`.
pub fn strip_record_suffix(s: &str) -> (r: String)
    ensures
        r@ == strip_record_suffix_spec(s@),
{
    string_of(&strip_record_suffix_vec(&chars_of(s)))
}

/// Name as the old roster table gave it: the first cell of the first row,
/// cut at `" Team owner"` or `" | "`, season record removed, letters only.
pub open spec fn legacy_team_name_spec(table: Seq<char>) -> Option<Seq<char>> {
    match tag_block_spec(table, "<tr"@, "</tr>"@, 0) {
        None => None,
        Some((a, b)) => {
            let tr = table.subrange(a, b);
            match tag_block_spec(tr, "<td"@, "</td>"@, 0) {
                None => None,
                Some((c, d)) => {
                    let txt = clean_spec(inner_spec(tr.subrange(c, d)));
                    match find_from(txt, " Team owner"@, 0) {
                        Some(i) => Some(letters_only_trim_spec(trim(strip_record_suffix_spec(txt.take(i))))),
                        None => match find_from(txt, " | "@, 0) {
                            Some(i) => Some(letters_only_trim_spec(trim(strip_record_suffix_spec(txt.take(i))))),
                            None => non_empty(letters_only_trim_spec(strip_record_suffix_spec(trim(txt)))),
                        },
                    }
                },
            }
        },
    }
}

/// Team name from the first cell of an old-style roster table.
pub fn extract_team_name(table_inner: &str) -> (r: Option<String>)
    ensures
        opt_view(r) == legacy_team_name_spec(table_inner@),
{
    let table = chars_of(table_inner);
    let tr_o = chars_of("<tr");
    let tr_c = chars_of("</tr>");
    let td_o = chars_of("<td");
    let td_c = chars_of("</td>");
    let (a, b) = match tag_block(&table, &tr_o, &tr_c, 0) {
        None => return None,
        Some(x) => x,
    };
    let tr = sub_vec(&table, a, b);
    let (c, d) = match tag_block(&tr, &td_o, &td_c, 0) {
        None => return None,
        Some(x) => x,
    };
    let txt = clean_vec(&inner_vec(&sub_vec(&tr, c, d)));
    let owner = chars_of(" Team owner");
    let pipe = chars_of(" | ");
    let cut = match find(&txt, &owner, 0) {
        Some(i) => Some(i),
        None => find(&txt, &pipe, 0),
    };
    proof {
        lemma_find_from(txt@, owner@, 0);
        lemma_find_from(txt@, pipe@, 0);
    }
    match cut {
        Some(i) => {
            let name = strip_record_suffix_vec(&sub_vec(&txt, 0, i));
            assert(txt@.subrange(0, i as int) =~= txt@.take(i as int));
            Some(string_of(&letters_only_trim_vec(&trim_vec(&name))))
        },
        None => {
            let t = letters_only_trim_vec(&strip_record_suffix_vec(&trim_vec(&txt)));
            non_empty_string(t)
        },
    }
}

/* ---------------- headers ---------------- */

/// Consecutive `<th>` header cells from `pos` on: reading stops at the
/// first header not directly followed (after whitespace) by another `<th`.
pub open spec fn site_headers_from(s: Seq<char>, pos: int) -> Seq<Seq<char>>
    decreases s.len() - pos,
{
    match tag_block_spec(s, "<th"@, "</th>"@, pos) {
        None => Seq::empty(),
        Some((a, b)) => {
            proof {
                lemma_tag_block(s, "<th"@, "</th>"@, pos);
            }
            let h = clean_spec(inner_spec(s.subrange(a, b)));
            if match_ci_at(trim_start(s.skip(b)), "<th"@, 0) {
                seq![h] + site_headers_from(s, b)
            } else {
                seq![h]
            }
        },
    }
}

pub fn read_headers(s: &[char]) -> (v: Vec<Vec<char>>)
    ensures
        v.deep_view() == site_headers_from(s@, 0),
{
    let o = chars_of("<th");
    let c = chars_of("</th>");
    let mut out: Vec<Vec<char>> = Vec::new();
    let mut pos: usize = 0;
    loop
        invariant
            pos <= s@.len(),
            o@ == "<th"@,
            c@ == "</th>"@,
            site_headers_from(s@, 0) == out.deep_view() + site_headers_from(s@, pos as int),
        decreases s@.len() - pos,
    {
        match tag_block(s, &o, &c, pos) {
            None => {
                assert(out.deep_view() + site_headers_from(s@, pos as int) =~= out.deep_view());
                return out;
            },
            Some((a, b)) => {
                let h = clean_vec(&inner_vec(&sub_vec(s, a, b)));
                let ghost prev = out.deep_view();
                assert(h.deep_view() =~= h@);
                out.push(h);
                assert(out.deep_view() =~= prev.push(h@));
                let k = skip_ws(s, b);
                let more = match_ci_at_exec(s, &o, k);
                proof {
                    reveal_strlit("<th");
                    let rest = trim_start(s@.skip(b as int));
                    assert(rest =~= s@.skip(k as int));
                    if k + 3 <= s@.len() {
                        assert(rest.subrange(0, 3) =~= s@.subrange(k as int, k + 3));
                    }
                    assert(match_ci_at(rest, "<th"@, 0) == match_ci_at(s@, "<th"@, k as int));
                }
                if !more {
                    assert(prev + site_headers_from(s@, pos as int) =~= out.deep_view());
                    return out;
                }
                assert(prev + site_headers_from(s@, pos as int) =~= out.deep_view() + site_headers_from(s@, b as int));
                pos = b;
            },
        }
    }
}

/// Read consecutive `<th>...</th>` header cells (not necessarily inside a `<tr>`).
pub fn read_site_headers_row(table_inner: &str) -> (r: Vec<String>)
    ensures
        r.deep_view() == site_headers_from(table_inner@, 0),
{
    strings_of(&read_headers(&chars_of(table_inner)))
}

/* ---------------- first cell ---------------- */

/// `"Name #27 Common Drakon"` split into name, number (with `#`) and race.
pub open spec fn split_first_cell_spec(f: Seq<char>) -> (Seq<char>, Seq<char>, Seq<char>) {
    match find_char_from(f, '#', 0) {
        None => (trim(f), Seq::empty(), Seq::empty()),
        Some(h) => {
            let rest = trim(f.skip(h));
            match find_char_from(rest, ' ', 0) {
                None => (trim(f.take(h)), rest, Seq::empty()),
                Some(sp) => (trim(f.take(h)), rest.take(sp), trim(rest.skip(sp + 1))),
            }
        },
    }
}

pub fn split_first_cell_vec(f: &[char]) -> (r: (Vec<char>, Vec<char>, Vec<char>))
    ensures
        (r.0@, r.1@, r.2@) == split_first_cell_spec(f@),
{
    proof {
        lemma_find_char_from(f@, '#', 0);
    }
    match find_char(f, '#', 0) {
        None => (trim_vec(f), Vec::new(), Vec::new()),
        Some(h) => {
            let name = trim_vec(&sub_vec(f, 0, h));
            assert(f@.subrange(0, h as int) =~= f@.take(h as int));
            let rest = trim_vec(&sub_vec(f, h, f.len()));
            assert(f@.subrange(h as int, f@.len() as int) =~= f@.skip(h as int));
            proof {
                lemma_find_char_from(rest@, ' ', 0);
            }
            match find_char(&rest, ' ', 0) {
                None => (name, rest, Vec::new()),
                Some(sp) => {
                    let rl = rest.len();
                    assert(sp < rl);
                    let num = sub_vec(&rest, 0, sp);
                    assert(rest@.subrange(0, sp as int) =~= rest@.take(sp as int));
                    let race = trim_vec(&sub_vec(&rest, sp + 1, rl));
                    assert(rest@.subrange(sp + 1, rest@.len() as int) =~= rest@.skip(sp + 1));
                    (name, num, race)
                },
            }
        },
    }
}

/// `"Name #27 Race"` gives `("Name", "#27", "Race")`.
pub fn split_first_cell(fused: &str) -> (r: (String, String, String))
    ensures
        (r.0@, r.1@, r.2@) == split_first_cell_spec(fused@),
{
    let (a, b, c) = split_first_cell_vec(&chars_of(fused));
    (string_of(&a), string_of(&b), string_of(&c))
}

/// Remove any `[ ... ]` segments (e.g. `[CAPTAIN]`), then trim.
pub fn remove_bracket_tags(s: &str) -> (r: String)
    ensures
        r@ == strip_brackets_spec(s@),
{
    string_of(&strip_brackets_vec(&chars_of(s)))
}

/* ---------------- rows ---------------- */

pub open spec fn min_int(a: int, b: int) -> int {
    if a < b { a } else { b }
}

/// A `<tr>` block is a player row when its first 200 characters carry
/// `class="playerrow"` or `class="playerrow1"` (any case).
pub open spec fn is_player_tr(tr: Seq<char>) -> bool {
    let pre = lower_seq(tr.take(min_int(tr.len() as int, 200)));
    contains(pre, "class=\"playerrow\""@) || contains(pre, "class=\"playerrow1\""@)
}

/// Row for one player: name, number, race (from the first cell, bracket
/// tags removed), team, then the remaining cells.
pub open spec fn player_row(cells: Seq<Seq<char>>, team: Seq<char>, keep_hash: bool) -> Seq<Seq<char>> {
    let p = split_first_cell_spec(strip_brackets_spec(cells[0]));
    let num = if keep_hash { p.1 } else { trim_hashes(p.1) };
    seq![normalize_ws_spec(p.0), num, normalize_ws_spec(p.2), team] + cells.drop_first()
}

/// `s` without its leading `#` characters.
pub open spec fn trim_hashes(s: Seq<char>) -> Seq<char>
    decreases s.len(),
{
    if s.len() > 0 && s[0] == '#' { trim_hashes(s.drop_first()) } else { s }
}

pub fn trim_hashes_vec(s: &[char]) -> (v: Vec<char>)
    ensures
        v@ == trim_hashes(s@),
{
    let mut k: usize = 0;
    assert(s@.skip(0) =~= s@);
    while k < s.len() && s[k] == '#'
        invariant
            k <= s@.len(),
            trim_hashes(s@) == trim_hashes(s@.skip(k as int)),
        decreases s@.len() - k,
    {
        assert(s@.skip(k as int).drop_first() =~= s@.skip(k + 1));
        k = k + 1;
    }
    assert(s@.subrange(k as int, s@.len() as int) =~= s@.skip(k as int));
    sub_vec(s, k, s.len())
}

/// Player rows of the roster table from position `pos` on.
pub open spec fn roster_rows_from(table: Seq<char>, team: Seq<char>, keep_hash: bool, pos: int) -> Seq<Seq<Seq<char>>>
    decreases table.len() - pos,
{
    match tag_block_spec(table, "<tr"@, "</tr>"@, pos) {
        None => Seq::empty(),
        Some((a, b)) => {
            proof {
                lemma_tag_block(table, "<tr"@, "</tr>"@, pos);
            }
            let tr = table.subrange(a, b);
            let cells = td_cells_from(tr, 0);
            if is_player_tr(tr) && cells.len() > 0 {
                seq![player_row(cells, team, keep_hash)] + roster_rows_from(table, team, keep_hash, b)
            } else {
                roster_rows_from(table, team, keep_hash, b)
            }
        },
    }
}

/// Fixed leading headers, then the site's headers (its first one dropped
/// when it already names the player).
pub open spec fn roster_headers_spec(site: Seq<Seq<char>>, num_label: Seq<char>) -> Seq<Seq<char>> {
    let base = seq!["Name"@, num_label, "Race"@, "Team"@];
    if site.len() == 0 {
        base
    } else if contains(lower_seq(site[0]), "name"@) {
        base + site.drop_first()
    } else {
        base + site
    }
}

pub fn is_player_tr_exec(tr: &[char], p1: &[char], p2: &[char]) -> (b: bool)
    requires
        p1@ == "class=\"playerrow\""@,
        p2@ == "class=\"playerrow1\""@,
    ensures
        b == is_player_tr(tr@),
{
    let n = if tr.len() < 200 { tr.len() } else { 200 };
    let pre = lower_vec(&sub_vec(tr, 0, n));
    assert(tr@.subrange(0, n as int) =~= tr@.take(min_int(tr@.len() as int, 200)));
    contains_exec(&pre, p1) || contains_exec(&pre, p2)
}

fn player_row_exec(cells: &Vec<Vec<char>>, team: &[char], keep_hash: bool) -> (r: Vec<Vec<char>>)
    requires
        cells@.len() > 0,
    ensures
        r.deep_view() == player_row(cells.deep_view(), team@, keep_hash),
{
    let fused = strip_brackets_vec(&cells[0]);
    assert(cells@[0].deep_view() =~= cells@[0]@);
    let (name, num, race) = split_first_cell_vec(&fused);
    let mut row: Vec<Vec<char>> = Vec::new();
    push_text(&mut row, normalize_ws_vec(&name));
    let num = if keep_hash { num } else { trim_hashes_vec(&num) };
    push_text(&mut row, num);
    push_text(&mut row, normalize_ws_vec(&race));
    push_text(&mut row, sub_vec(team, 0, team.len()));
    let mut i: usize = 1;
    let ghost head = row.deep_view();
    assert(team@.subrange(0, team@.len() as int) =~= team@);
    while i < cells.len()
        invariant
            1 <= i <= cells@.len(),
            row.deep_view() == head + cells.deep_view().subrange(1, i as int),
        decreases cells@.len() - i,
    {
        let ghost prev = row.deep_view();
        let c = sub_vec(&cells[i], 0, cells[i].len());
        assert(c@ =~= cells@[i as int]@);
        assert(c.deep_view() =~= c@);
        assert(cells@[i as int].deep_view() =~= cells@[i as int]@);
        row.push(c);
        assert(row.deep_view() =~= prev.push(c@));
        assert(cells.deep_view().subrange(1, i + 1) =~= cells.deep_view().subrange(1, i as int).push(c@));
        i = i + 1;
    }
    proof {
        let p = split_first_cell_spec(strip_brackets_spec(cells.deep_view()[0]));
        let num = if keep_hash { p.1 } else { trim_hashes(p.1) };
        assert(head =~= seq![normalize_ws_spec(p.0), num, normalize_ws_spec(p.2), team@]);
        assert(cells.deep_view().subrange(1, i as int) =~= cells.deep_view().drop_first());
    }
    row
}

/// Player rows of a roster table; `team` fills the team column.
pub fn roster_rows(table: &[char], team: &[char], keep_hash: bool) -> (v: Vec<Vec<Vec<char>>>)
    ensures
        v.deep_view() == roster_rows_from(table@, team@, keep_hash, 0),
{
    let o = chars_of("<tr");
    let c = chars_of("</tr>");
    let p1 = chars_of("class=\"playerrow\"");
    let p2 = chars_of("class=\"playerrow1\"");
    let mut out: Vec<Vec<Vec<char>>> = Vec::new();
    let mut pos: usize = 0;
    loop
        invariant
            pos <= table@.len(),
            o@ == "<tr"@,
            c@ == "</tr>"@,
            p1@ == "class=\"playerrow\""@,
            p2@ == "class=\"playerrow1\""@,
            roster_rows_from(table@, team@, keep_hash, 0) == out.deep_view() + roster_rows_from(table@, team@, keep_hash, pos as int),
        decreases table@.len() - pos,
    {
        match tag_block(table, &o, &c, pos) {
            None => {
                assert(out.deep_view() + roster_rows_from(table@, team@, keep_hash, pos as int) =~= out.deep_view());
                return out;
            },
            Some((a, b)) => {
                let tr = sub_vec(table, a, b);
                if is_player_tr_exec(&tr, &p1, &p2) {
                    let cells = td_cells(&tr);
                    if cells.len() > 0 {
                        let row = player_row_exec(&cells, team, keep_hash);
                        let ghost prev = out.deep_view();
                        out.push(row);
                        assert(out.deep_view() =~= prev.push(row.deep_view()));
                        assert(prev + roster_rows_from(table@, team@, keep_hash, pos as int) =~= out.deep_view()
                            + roster_rows_from(table@, team@, keep_hash, b as int));
                    }
                }
                pos = b;
            },
        }
    }
}

/// Header row of a roster.
pub fn roster_headers(site: Vec<Vec<char>>, num_label: &str) -> (r: Vec<Vec<char>>)
    ensures
        r.deep_view() == roster_headers_spec(site.deep_view(), num_label@),
{
    let mut hdr: Vec<Vec<char>> = Vec::new();
    push_text(&mut hdr, chars_of("Name"));
    push_text(&mut hdr, chars_of(num_label));
    push_text(&mut hdr, chars_of("Race"));
    push_text(&mut hdr, chars_of("Team"));
    let ghost base = hdr.deep_view();
    assert(base =~= seq!["Name"@, num_label@, "Race"@, "Team"@]);
    let start: usize = if site.len() == 0 {
        0
    } else {
        let l = lower_vec(&site[0]);
        assert(site@[0].deep_view() =~= site@[0]@);
        if contains_exec(&l, &chars_of("name")) { 1 } else { 0 }
    };
    let mut i = start;
    while i < site.len()
        invariant
            start <= i <= site@.len(),
            hdr.deep_view() == base + site.deep_view().subrange(start as int, i as int),
        decreases site@.len() - i,
    {
        let ghost prev = hdr.deep_view();
        let h = sub_vec(&site[i], 0, site[i].len());
        assert(h@ =~= site@[i as int]@);
        assert(h.deep_view() =~= h@);
        assert(site@[i as int].deep_view() =~= site@[i as int]@);
        hdr.push(h);
        assert(hdr.deep_view() =~= prev.push(h@));
        assert(site.deep_view().subrange(start as int, i + 1) =~= site.deep_view().subrange(start as int, i as int).push(h@));
        i = i + 1;
    }
    assert(site.deep_view().subrange(start as int, i as int) =~= site.deep_view().skip(start as int));
    assert(site.deep_view().skip(0) =~= site.deep_view());
    if start == 1 {
        assert(site.deep_view().skip(1) =~= site.deep_view().drop_first());
    }
    hdr
}

/// What a roster page gives: the validated team name's rows and headers.
pub open spec fn roster_spec(doc: Seq<char>) -> Option<(Seq<Seq<char>>, Seq<Seq<Seq<char>>>)> {
    match validated_name_spec(doc) {
        None => None,
        Some(team) => match slice_between_spec(doc, "<table class=teamroster"@, "</table>"@) {
            None => None,
            Some(table) => Some((roster_headers_spec(site_headers_from(table, 0), "#"@), roster_rows_from(table, team, true, 0))),
        },
    }
}

/// Roster of the team page `html_doc` fetched for `team_id` (the caller
/// performs the request): rows are name, `#number`, race, team, then the
/// site's columns; the team name must be confirmed by the page three times.
pub fn fetch_and_extract(team_id: u32, html_doc: &str) -> (r: Result<RosterBundle, ScrapeError>)
    ensures
        match r {
            Ok(b) => roster_spec(html_doc@) == Some((b.headers->0.deep_view(), b.rows.deep_view()))
                && b.headers is Some,
            Err(e) => match validated_name_spec(html_doc@) {
                None => mismatch_of(e, html_doc@, team_id),
                Some(_) => e is TableNotFound && slice_between_spec(
                    html_doc@,
                    "<table class=teamroster"@,
                    "</table>"@,
                ) is None,
            },
        },
{
    let doc = chars_of(html_doc);
    let team_name = validated_name(&doc, team_id)?;
    let table = match between_text(&doc, "<table class=teamroster", "</table>") {
        None => return Err(ScrapeError::TableNotFound),
        Some(t) => t,
    };
    let site = read_headers(&table);
    let headers = strings_of(&roster_headers(site, "#"));
    let team = chars_of(team_name.as_str());
    let rows = rows_of(&roster_rows(&table, &team, true));
    Ok(RosterBundle { headers: Some(headers), rows })
}

/* ---------------- laws ---------------- */

/// A `<tr>` of a roster table whose first 200 characters carry
/// `class="playerrow"` or `class="playerrow1"` (any case) and that holds a
/// `<td>` cell is a player: the table gives that player's row, then the
/// rows of the `<tr>`s after it.
pub proof fn marked_rows_are_players(table: Seq<char>, team: Seq<char>, keep_hash: bool, pos: int, a: int, b: int)
    requires
        tag_block_spec(table, "<tr"@, "</tr>"@, pos) == Some((a, b)),
        contains(lower_seq(crate::scrape::game_results::head_chars(table.subrange(a, b), 200)), "class=\"playerrow\""@)
            || contains(
            lower_seq(crate::scrape::game_results::head_chars(table.subrange(a, b), 200)),
            "class=\"playerrow1\""@,
        ),
        td_cells_from(table.subrange(a, b), 0).len() > 0,
    ensures
        roster_rows_from(table, team, keep_hash, pos) == seq![
            player_row(td_cells_from(table.subrange(a, b), 0), team, keep_hash),
        ] + roster_rows_from(table, team, keep_hash, b),
{
    let tr = table.subrange(a, b);
    assert(tr.take(min_int(tr.len() as int, 200)) == crate::scrape::game_results::head_chars(tr, 200)) by {
        if tr.len() < 200 {
            assert(tr.take(tr.len() as int) =~= tr);
        }
    }
    assert(is_player_tr(tr));
}

} // verus!
