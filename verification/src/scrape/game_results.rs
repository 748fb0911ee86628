//! Season schedule (`season.php`): one table per week, one row per game
//! (future games included, with blank scores and no match id).

use vstd::prelude::*;
use crate::text::{
    chars_of, contains, contains_exec, find, find_char, find_char_from, find_from, first_digit_run,
    first_digits, leading_digits, lemma_find_char_from, lemma_find_from, lower_seq, lower_vec, only_digits,
    digits_only, opt_chars, push_text, rows_of, sub_vec, take_digits,
};
use crate::base::html::{
    clean_spec, clean_vec, inner_spec, inner_vec, lemma_tag_block, tag_block, tag_block_spec,
};
use crate::base::sanitize::{letters_only_trim_spec, letters_only_trim_vec, normalize_ws_spec, normalize_ws_vec};
use crate::specs::teams::{unquoted_end, unquoted_end_vec};

verus! {

/// Rows of the schedule (no header row).
pub struct GameResultsBundle {
    pub headers: Option<Vec<String>>,
    pub rows: Vec<Vec<String>>,
}

/// Text of a block's inner part: entities decoded, tags removed, whitespace collapsed.
pub open spec fn block_text(b: Seq<char>) -> Seq<char> {
    normalize_ws_spec(clean_spec(inner_spec(b)))
}

/// The first run of digits after position `k` of `s`, if any.
pub open spec fn digits_after(s: Seq<char>, k: int) -> Option<Seq<char>> {
    let d = first_digit_run(s.skip(k));
    if d.len() > 0 { Some(d) } else { None }
}

/// Season in the page title: the first digits after `season` (any case),
/// looked for from `skip` characters past the word's start.
pub open spec fn season_in_title(doc: Seq<char>, skip: int) -> Option<Seq<char>> {
    match tag_block_spec(doc, "<title"@, "</title>"@, 0) {
        None => None,
        Some((s, e)) => {
            let clean = block_text(doc.subrange(s, e));
            match find_from(lower_seq(clean), "season"@, 0) {
                None => None,
                Some(idx) => digits_after(clean, idx + skip),
            }
        },
    }
}

/// Text of a cell's opening tag (up to its first `>`).
pub open spec fn opener(td: Seq<char>) -> Seq<char> {
    match find_char_from(td, '>', 0) {
        Some(e) => td.take(e),
        None => td,
    }
}

/// Week of a week table: the first cell whose opening tag mentions
/// `conference` must read `...WEEK <digits>...`; any other reading of that
/// cell (or no such cell) means the table is not a week table.
pub open spec fn week_from(t: Seq<char>, pos: int) -> Option<Seq<char>>
    decreases t.len() - pos,
{
    match tag_block_spec(t, "<td"@, "</td>"@, pos) {
        None => None,
        Some((a, b)) => {
            proof {
                lemma_tag_block(t, "<td"@, "</td>"@, pos);
            }
            let blk = t.subrange(a, b);
            if !contains(lower_seq(opener(blk)), "conference"@) {
                week_from(t, b)
            } else {
                let clean = block_text(blk);
                match find_from(lower_seq(clean), "week"@, 0) {
                    Some(i) => digits_after(clean, i + 4),
                    None => None,
                }
            }
        },
    }
}

/// The `<td>` blocks of `s` from `pos` on, as they stand.
pub open spec fn td_blocks_from(s: Seq<char>, pos: int) -> Seq<Seq<char>>
    decreases s.len() - pos,
{
    match tag_block_spec(s, "<td"@, "</td>"@, pos) {
        None => Seq::empty(),
        Some((a, b)) => {
            proof {
                lemma_tag_block(s, "<td"@, "</td>"@, pos);
            }
            seq![s.subrange(a, b)] + td_blocks_from(s, b)
        },
    }
}

pub open spec fn min_int(a: int, b: int) -> int {
    if a < b { a } else { b }
}

/// A game row: its first 180 characters carry `class="playerrow"` or
/// `class="playerrow1"` (any case).
pub open spec fn is_game_tr(tr: Seq<char>) -> bool {
    let pre = lower_seq(tr.take(min_int(tr.len() as int, 180)));
    contains(pre, "class=\"playerrow\""@) || contains(pre, "class=\"playerrow1\""@)
}

/// The cell's opening tag has a class attribute and mentions `needle`
/// (this covers `class="x"`, `class='x'`, unquoted and multi-class forms).
pub open spec fn td_has_class(td: Seq<char>, needle: Seq<char>) -> bool {
    let lc = lower_seq(opener(td));
    contains(lc, "class="@) && contains(lc, needle)
}

/// First cell with the class `needle`.
pub open spec fn first_with_class(tds: Seq<Seq<char>>, needle: Seq<char>, k: int) -> Option<int>
    decreases tds.len() - k,
{
    if k < 0 || k >= tds.len() {
        None
    } else if td_has_class(tds[k], needle) {
        Some(k)
    } else {
        first_with_class(tds, needle, k + 1)
    }
}

/// Team (text of the first link, letters only when `letters`) and score
/// (digits of the first `<strong>`) of a side's cell.
pub open spec fn side(td: Seq<char>, letters: bool) -> (Seq<char>, Seq<char>) {
    let team = match tag_block_spec(td, "<a"@, "</a>"@, 0) {
        Some((s, e)) => {
            let raw = block_text(td.subrange(s, e));
            if letters { letters_only_trim_spec(raw) } else { raw }
        },
        None => Seq::empty(),
    };
    let score = match tag_block_spec(td, "<strong"@, "</strong>"@, 0) {
        Some((s, e)) => only_digits(block_text(td.subrange(s, e))),
        None => Seq::empty(),
    };
    (team, score)
}

/// Match id of the game link `href=game.php?i=<digits>` in the cell's first
/// `<a ...>` (the value quoted or not).
pub open spec fn match_id(td: Seq<char>) -> Option<Seq<char>> {
    match tag_block_spec(td, "<a"@, ">"@, 0) {
        None => None,
        Some((s, e)) => {
            let op = td.subrange(s, e);
            match find_from(lower_seq(op), "href="@, 0) {
                None => None,
                Some(hp) => {
                    let val = op.skip(hp + 5);
                    let hv = if val.len() > 0 && (val[0] == '"' || val[0] == '\'') {
                        let end = match find_char_from(val, val[0], 1) {
                            Some(x) => x,
                            None => val.len() as int,
                        };
                        val.subrange(1, end)
                    } else {
                        val.take(unquoted_end(val, 0, false))
                    };
                    match find_from(lower_seq(hv), "game.php?i="@, 0) {
                        None => None,
                        Some(ix) => {
                            let d = leading_digits(hv.skip(ix + 11));
                            if d.len() > 0 { Some(d) } else { None }
                        },
                    }
                },
            }
        },
    }
}

/// One game: season, week, home team, home score, away score, away team,
/// match id. With `positional` the first cell is home and the third away;
/// otherwise the `basicaway` cell is home and the `basichome` cell away,
/// falling back to the third cell as home and the first as away.
pub open spec fn game_row(tds: Seq<Seq<char>>, season: Seq<char>, week: Seq<char>, positional: bool) -> Seq<Seq<char>> {
    let (ht, hs, at, aws) = if positional {
        let h = side(tds[0], false);
        let a = side(tds[2], false);
        (h.0, h.1, a.0, a.1)
    } else {
        match (first_with_class(tds, "basicaway"@, 0), first_with_class(tds, "basichome"@, 0)) {
            (Some(hi), Some(ai)) => {
                let h = side(tds[hi], true);
                let a = side(tds[ai], true);
                (h.0, h.1, a.0, a.1)
            },
            _ => {
                let a = side(tds[0], true);
                let h = side(tds[2], true);
                (h.0, h.1, a.0, a.1)
            },
        }
    };
    let mid = match match_id(tds.last()) {
        Some(m) => m,
        None => Seq::empty(),
    };
    seq![season, week, ht, hs, aws, at, mid]
}

/// Game rows of a week table from `pos` on.
pub open spec fn table_games(t: Seq<char>, season: Seq<char>, week: Seq<char>, positional: bool, pos: int) -> Seq<Seq<Seq<char>>>
    decreases t.len() - pos,
{
    match tag_block_spec(t, "<tr"@, "</tr>"@, pos) {
        None => Seq::empty(),
        Some((a, b)) => {
            proof {
                lemma_tag_block(t, "<tr"@, "</tr>"@, pos);
            }
            let tr = t.subrange(a, b);
            let tds = td_blocks_from(tr, 0);
            if is_game_tr(tr) && tds.len() >= 3 {
                seq![game_row(tds, season, week, positional)] + table_games(t, season, week, positional, b)
            } else {
                table_games(t, season, week, positional, b)
            }
        },
    }
}

/// Game rows of every week table of the page from `pos` on.
pub open spec fn schedule_games(doc: Seq<char>, season: Seq<char>, positional: bool, pos: int) -> Seq<Seq<Seq<char>>>
    decreases doc.len() - pos,
{
    match tag_block_spec(doc, "<table"@, "</table>"@, pos) {
        None => Seq::empty(),
        Some((a, b)) => {
            proof {
                lemma_tag_block(doc, "<table"@, "</table>"@, pos);
            }
            let t = doc.subrange(a, b);
            match week_from(t, 0) {
                None => schedule_games(doc, season, positional, b),
                Some(w) => table_games(t, season, w, positional, 0) + schedule_games(doc, season, positional, b),
            }
        },
    }
}

/* ---------------- exec ---------------- */

pub fn block_text_vec(b: &[char]) -> (v: Vec<char>)
    ensures
        v@ == block_text(b@),
{
    normalize_ws_vec(&clean_vec(&inner_vec(b)))
}

pub fn digits_after_vec(s: &[char], k: usize) -> (r: Option<Vec<char>>)
    requires
        k <= s@.len(),
    ensures
        opt_chars(r) == digits_after(s@, k as int),
{
    let d = first_digits(s, k);
    if d.len() > 0 { Some(d) } else { None }
}

pub fn season_in_title_vec(doc: &[char], skip: usize) -> (r: Option<Vec<char>>)
    requires
        skip <= 6,
    ensures
        opt_chars(r) == season_in_title(doc@, skip as int),
{
    let (s, e) = match tag_block(doc, &chars_of("<title"), &chars_of("</title>"), 0) {
        None => return None,
        Some(x) => x,
    };
    let clean = block_text_vec(&sub_vec(doc, s, e));
    let lc = lower_vec(&clean);
    let p = chars_of("season");
    proof {
        reveal_strlit("season");
        lemma_find_from(lc@, p@, 0);
    }
    let cl = clean.len();
    match find(&lc, &p, 0) {
        None => None,
        Some(idx) => digits_after_vec(&clean, idx + skip),
    }
}

pub fn opener_vec(td: &[char]) -> (v: Vec<char>)
    ensures
        v@ == opener(td@),
{
    proof {
        lemma_find_char_from(td@, '>', 0);
    }
    match find_char(td, '>', 0) {
        Some(e) => {
            assert(td@.subrange(0, e as int) =~= td@.take(e as int));
            sub_vec(td, 0, e)
        },
        None => {
            assert(td@.subrange(0, td@.len() as int) =~= td@);
            sub_vec(td, 0, td.len())
        },
    }
}

pub fn week_vec(t: &[char]) -> (r: Option<Vec<char>>)
    ensures
        opt_chars(r) == week_from(t@, 0),
{
    let o = chars_of("<td");
    let c = chars_of("</td>");
    let conf = chars_of("conference");
    let wk = chars_of("week");
    let mut pos: usize = 0;
    loop
        invariant
            pos <= t@.len(),
            o@ == "<td"@,
            c@ == "</td>"@,
            conf@ == "conference"@,
            wk@ == "week"@,
            week_from(t@, 0) == week_from(t@, pos as int),
        decreases t@.len() - pos,
    {
        let (a, b) = match tag_block(t, &o, &c, pos) {
            None => return None,
            Some(x) => x,
        };
        let blk = sub_vec(t, a, b);
        if !contains_exec(&lower_vec(&opener_vec(&blk)), &conf) {
            pos = b;
        } else {
            let clean = block_text_vec(&blk);
            let lc = lower_vec(&clean);
            proof {
                reveal_strlit("week");
                lemma_find_from(lc@, wk@, 0);
            }
            let cl = clean.len();
            return match find(&lc, &wk, 0) {
                Some(i) => digits_after_vec(&clean, i + 4),
                None => None,
            };
        }
    }
}

pub fn td_blocks(s: &[char]) -> (v: Vec<Vec<char>>)
    ensures
        v.deep_view() == td_blocks_from(s@, 0),
{
    let o = chars_of("<td");
    let c = chars_of("</td>");
    let mut out: Vec<Vec<char>> = Vec::new();
    let mut pos: usize = 0;
    loop
        invariant
            pos <= s@.len(),
            o@ == "<td"@,
            c@ == "</td>"@,
            td_blocks_from(s@, 0) == out.deep_view() + td_blocks_from(s@, pos as int),
        decreases s@.len() - pos,
    {
        match tag_block(s, &o, &c, pos) {
            None => {
                assert(out.deep_view() + td_blocks_from(s@, pos as int) =~= out.deep_view());
                return out;
            },
            Some((a, b)) => {
                let ghost prev = out.deep_view();
                let blk = sub_vec(s, a, b);
                let ghost bv = blk@;
                push_text(&mut out, blk);
                assert(prev + td_blocks_from(s@, pos as int) =~= out.deep_view() + td_blocks_from(s@, b as int));
                pos = b;
            },
        }
    }
}

fn is_game_tr_vec(tr: &[char]) -> (b: bool)
    ensures
        b == is_game_tr(tr@),
{
    let n = if tr.len() < 180 { tr.len() } else { 180 };
    let pre = lower_vec(&sub_vec(tr, 0, n));
    assert(tr@.subrange(0, n as int) =~= tr@.take(min_int(tr@.len() as int, 180)));
    contains_exec(&pre, &chars_of("class=\"playerrow\"")) || contains_exec(&pre, &chars_of("class=\"playerrow1\""))
}

fn td_has_class_vec(td: &[char], needle: &[char]) -> (b: bool)
    ensures
        b == td_has_class(td@, needle@),
{
    let lc = lower_vec(&opener_vec(td));
    contains_exec(&lc, &chars_of("class=")) && contains_exec(&lc, needle)
}

fn first_with_class_vec(tds: &Vec<Vec<char>>, needle: &[char]) -> (r: Option<usize>)
    ensures
        match r {
            Some(k) => first_with_class(tds.deep_view(), needle@, 0) == Some(k as int) && k < tds@.len(),
            None => first_with_class(tds.deep_view(), needle@, 0) is None,
        },
{
    let mut k: usize = 0;
    while k < tds.len()
        invariant
            k <= tds@.len(),
            first_with_class(tds.deep_view(), needle@, 0) == first_with_class(tds.deep_view(), needle@, k as int),
        decreases tds@.len() - k,
    {
        assert(tds.deep_view()[k as int] == tds@[k as int]@);
        if td_has_class_vec(tds[k].as_slice(), needle) {
            return Some(k);
        }
        k = k + 1;
    }
    None
}

fn side_vec(td: &[char], letters: bool) -> (r: (Vec<char>, Vec<char>))
    ensures
        (r.0@, r.1@) == side(td@, letters),
{
    let team = match tag_block(td, &chars_of("<a"), &chars_of("</a>"), 0) {
        Some((s, e)) => {
            let raw = block_text_vec(&sub_vec(td, s, e));
            if letters { letters_only_trim_vec(&raw) } else { raw }
        },
        None => Vec::new(),
    };
    let score = match tag_block(td, &chars_of("<strong"), &chars_of("</strong>"), 0) {
        Some((s, e)) => digits_only(&block_text_vec(&sub_vec(td, s, e))),
        None => Vec::new(),
    };
    (team, score)
}

fn match_id_vec(td: &[char]) -> (r: Option<Vec<char>>)
    ensures
        opt_chars(r) == match_id(td@),
{
    let (s, e) = match tag_block(td, &chars_of("<a"), &chars_of(">"), 0) {
        None => return None,
        Some(x) => x,
    };
    let op = sub_vec(td, s, e);
    let lo = lower_vec(&op);
    let ph = chars_of("href=");
    proof {
        reveal_strlit("href=");
        lemma_find_from(lo@, ph@, 0);
    }
    let ol = op.len();
    let hp = match find(&lo, &ph, 0) {
        None => return None,
        Some(x) => x,
    };
    let val = sub_vec(&op, hp + 5, ol);
    assert(op@.subrange(hp + 5, ol as int) =~= op@.skip(hp + 5));
    let hv = if val.len() > 0 && (val[0] == '"' || val[0] == '\'') {
        let q = val[0];
        proof {
            lemma_find_char_from(val@, q, 1);
        }
        let end = match find_char(&val, q, 1) {
            Some(x) => x,
            None => val.len(),
        };
        sub_vec(&val, 1, end)
    } else {
        let k = unquoted_end_vec(&val, false);
        assert(val@.subrange(0, k as int) =~= val@.take(k as int));
        sub_vec(&val, 0, k)
    };
    let hl = lower_vec(&hv);
    let pg = chars_of("game.php?i=");
    proof {
        reveal_strlit("game.php?i=");
        lemma_find_from(hl@, pg@, 0);
    }
    let hvl = hv.len();
    match find(&hl, &pg, 0) {
        None => None,
        Some(ix) => {
            let d = take_digits(&hv, ix + 11);
            if d.len() > 0 { Some(d) } else { None }
        },
    }
}

fn copy_chars(s: &[char]) -> (v: Vec<char>)
    ensures
        v@ == s@,
{
    let v = sub_vec(s, 0, s.len());
    assert(s@.subrange(0, s@.len() as int) =~= s@);
    v
}

pub fn game_row_vec(tds: &Vec<Vec<char>>, season: &[char], week: &[char], positional: bool) -> (r: Vec<Vec<char>>)
    requires
        tds@.len() >= 3,
    ensures
        r.deep_view() == game_row(tds.deep_view(), season@, week@, positional),
{
    let ghost tv = tds.deep_view();
    assert(tv[0] == tds@[0]@);
    assert(tv[2] == tds@[2]@);
    let (ht, hs, at, aws) = if positional {
        let (h0, h1) = side_vec(tds[0].as_slice(), false);
        let (a0, a1) = side_vec(tds[2].as_slice(), false);
        (h0, h1, a0, a1)
    } else {
        match (first_with_class_vec(tds, &chars_of("basicaway")), first_with_class_vec(tds, &chars_of("basichome"))) {
            (Some(hi), Some(ai)) => {
                assert(tv[hi as int] == tds@[hi as int]@);
                assert(tv[ai as int] == tds@[ai as int]@);
                let (h0, h1) = side_vec(tds[hi].as_slice(), true);
                let (a0, a1) = side_vec(tds[ai].as_slice(), true);
                (h0, h1, a0, a1)
            },
            _ => {
                let (a0, a1) = side_vec(tds[0].as_slice(), true);
                let (h0, h1) = side_vec(tds[2].as_slice(), true);
                (h0, h1, a0, a1)
            },
        }
    };
    let last = tds.len() - 1;
    assert(tv.last() == tds@[last as int]@);
    let mid = match match_id_vec(tds[last].as_slice()) {
        Some(m) => m,
        None => Vec::new(),
    };
    let mut row: Vec<Vec<char>> = Vec::new();
    let ghost fields = seq![season@, week@, ht@, hs@, aws@, at@, mid@];
    push_text(&mut row, copy_chars(season));
    push_text(&mut row, copy_chars(week));
    push_text(&mut row, ht);
    push_text(&mut row, hs);
    push_text(&mut row, aws);
    push_text(&mut row, at);
    push_text(&mut row, mid);
    assert(row.deep_view() =~= fields);
    row
}

fn table_games_vec(t: &[char], season: &[char], week: &[char], positional: bool, out: &mut Vec<Vec<Vec<char>>>)
    ensures
        final(out).deep_view() == old(out).deep_view() + table_games(t@, season@, week@, positional, 0),
{
    let o = chars_of("<tr");
    let c = chars_of("</tr>");
    let mut pos: usize = 0;
    let ghost start = out.deep_view();
    loop
        invariant
            pos <= t@.len(),
            o@ == "<tr"@,
            c@ == "</tr>"@,
            start == old(out).deep_view(),
            start + table_games(t@, season@, week@, positional, 0) == out.deep_view() + table_games(
                t@,
                season@,
                week@,
                positional,
                pos as int,
            ),
        decreases t@.len() - pos,
    {
        match tag_block(t, &o, &c, pos) {
            None => {
                assert(out.deep_view() + table_games(t@, season@, week@, positional, pos as int) =~= out.deep_view());
                return;
            },
            Some((a, b)) => {
                let tr = sub_vec(t, a, b);
                let tds = td_blocks(&tr);
                let ghost prev = out.deep_view();
                if is_game_tr_vec(&tr) && tds.len() >= 3 {
                    let row = game_row_vec(&tds, season, week, positional);
                    let ghost rv = row.deep_view();
                    out.push(row);
                    assert(out.deep_view() =~= prev.push(rv));
                    assert(prev + table_games(t@, season@, week@, positional, pos as int) =~= out.deep_view()
                        + table_games(t@, season@, week@, positional, b as int));
                }
                pos = b;
            },
        }
    }
}

pub fn schedule_games_vec(doc: &[char], season: &[char], positional: bool) -> (v: Vec<Vec<Vec<char>>>)
    ensures
        v.deep_view() == schedule_games(doc@, season@, positional, 0),
{
    let o = chars_of("<table");
    let c = chars_of("</table>");
    let mut out: Vec<Vec<Vec<char>>> = Vec::new();
    let mut pos: usize = 0;
    loop
        invariant
            pos <= doc@.len(),
            o@ == "<table"@,
            c@ == "</table>"@,
            schedule_games(doc@, season@, positional, 0) == out.deep_view() + schedule_games(
                doc@,
                season@,
                positional,
                pos as int,
            ),
        decreases doc@.len() - pos,
    {
        match tag_block(doc, &o, &c, pos) {
            None => {
                assert(out.deep_view() + schedule_games(doc@, season@, positional, pos as int) =~= out.deep_view());
                return out;
            },
            Some((a, b)) => {
                let t = sub_vec(doc, a, b);
                let ghost prev = out.deep_view();
                match week_vec(&t) {
                    None => {},
                    Some(w) => {
                        table_games_vec(&t, season, &w, positional, &mut out);
                        assert(prev + schedule_games(doc@, season@, positional, pos as int) =~= out.deep_view()
                            + schedule_games(doc@, season@, positional, b as int));
                    },
                }
                pos = b;
            },
        }
    }
}

/// The games of the schedule page `html_doc`: the season from the title
/// (`...Season N`, else empty), then per week table the games in page order.
pub fn parse_doc(html_doc: &str) -> (r: GameResultsBundle)
    ensures
        r.headers is None,
        r.rows.deep_view() == schedule_games(
            html_doc@,
            match season_in_title(html_doc@, 6) {
                Some(s) => s,
                None => Seq::empty(),
            },
            false,
            0,
        ),
{
    let doc = chars_of(html_doc);
    let season = match season_in_title_vec(&doc, 6) {
        Some(s) => s,
        None => Vec::new(),
    };
    let rows = rows_of(&schedule_games_vec(&doc, &season, false));
    GameResultsBundle { headers: None, rows }
}

/// The schedule page `html_doc` already fetched by the caller (`season.php`).
pub fn fetch(html_doc: &str) -> (r: GameResultsBundle)
    ensures
        r.headers is None,
        r.rows.deep_view() == schedule_games(
            html_doc@,
            match season_in_title(html_doc@, 6) {
                Some(s) => s,
                None => Seq::empty(),
            },
            false,
            0,
        ),
{
    parse_doc(html_doc)
}

/* ---------------- laws ---------------- */

/// The first `n` characters of `s` (all of them when it is shorter).
pub open spec fn head_chars(s: Seq<char>, n: int) -> Seq<char> {
    if s.len() < n { s } else { s.take(n) }
}

/// A `<tr>` of a week table whose first 180 characters carry
/// `class="playerrow"` or `class="playerrow1"` (any case) and that holds at
/// least three cells is a game: the table gives its row, then the rows of
/// the `<tr>`s after it.
pub proof fn marked_rows_are_games(
    t: Seq<char>,
    season: Seq<char>,
    week: Seq<char>,
    positional: bool,
    pos: int,
    a: int,
    b: int,
)
    requires
        tag_block_spec(t, "<tr"@, "</tr>"@, pos) == Some((a, b)),
        contains(lower_seq(head_chars(t.subrange(a, b), 180)), "class=\"playerrow\""@) || contains(
            lower_seq(head_chars(t.subrange(a, b), 180)),
            "class=\"playerrow1\""@,
        ),
        td_blocks_from(t.subrange(a, b), 0).len() >= 3,
    ensures
        table_games(t, season, week, positional, pos) == seq![
            game_row(td_blocks_from(t.subrange(a, b), 0), season, week, positional),
        ] + table_games(t, season, week, positional, b),
{
    let tr = t.subrange(a, b);
    assert(tr.take(min_int(tr.len() as int, 180)) == head_chars(tr, 180)) by {
        if tr.len() < 180 {
            assert(tr.take(tr.len() as int) =~= tr);
        }
    }
    assert(is_game_tr(tr));
}

} // verus!
