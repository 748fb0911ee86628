//! Player rows of a team page, read plainly: the first cell split into
//! name, number and race as it stands, then the team, then the other cells.

use vstd::prelude::*;
use crate::text::{chars_of, push_all, push_text, rows_of, sub_vec, decimal_vec};
use crate::base::html::{slice_between_spec, tag_block, tag_block_spec, td_cells, td_cells_from, lemma_tag_block};
use crate::scrape::players::{between_text, is_player_tr, is_player_tr_exec, split_first_cell_spec, split_first_cell_vec};
use crate::specs::players::{first_cell_team_name, first_cell_team_name_vec, team_label};
use crate::error::ScrapeError;
use crate::scrape::game_results::head_chars;
use crate::text::{contains, lower_seq};

verus! {

/// Row for one player: name, number (with `#`) and race from the first
/// cell, the team, then the remaining cells.
pub open spec fn plain_player_row(cells: Seq<Seq<char>>, team: Seq<char>) -> Seq<Seq<char>> {
    let p = split_first_cell_spec(cells[0]);
    seq![p.0, p.1, p.2, team] + cells.drop_first()
}

/// Player rows of the roster table from position `pos` on.
pub open spec fn plain_rows_from(table: Seq<char>, team: Seq<char>, pos: int) -> Seq<Seq<Seq<char>>>
    decreases table.len() - pos,
{
    match tag_block_spec(table, "<tr"@, "</tr>"@, pos) {
        None => Seq::empty(),
        Some((a, b)) => {
            proof {
                lemma_tag_block(table, "<tr"@, "</tr>"@, pos);
            }
            let tr = table.subrange(a, b);
            let cells = td_cells_from(tr, 0);
            if is_player_tr(tr) && cells.len() > 0 {
                seq![plain_player_row(cells, team)] + plain_rows_from(table, team, b)
            } else {
                plain_rows_from(table, team, b)
            }
        },
    }
}

fn plain_player_row_exec(cells: &Vec<Vec<char>>, team: &[char]) -> (r: Vec<Vec<char>>)
    requires
        cells@.len() > 0,
    ensures
        r.deep_view() == plain_player_row(cells.deep_view(), team@),
{
    assert(cells@[0].deep_view() =~= cells@[0]@);
    let (name, num, race) = split_first_cell_vec(&cells[0]);
    let mut row: Vec<Vec<char>> = Vec::new();
    push_text(&mut row, name);
    push_text(&mut row, num);
    push_text(&mut row, race);
    push_text(&mut row, sub_vec(team, 0, team.len()));
    assert(team@.subrange(0, team@.len() as int) =~= team@);
    let ghost head = row.deep_view();
    let mut i: usize = 1;
    while i < cells.len()
        invariant
            1 <= i <= cells@.len(),
            row.deep_view() == head + cells.deep_view().subrange(1, i as int),
        decreases cells@.len() - i,
    {
        let c = sub_vec(&cells[i], 0, cells[i].len());
        assert(c@ =~= cells@[i as int]@);
        assert(cells@[i as int].deep_view() =~= cells@[i as int]@);
        let ghost prev = row.deep_view();
        push_text(&mut row, c);
        assert(cells.deep_view().subrange(1, i + 1) =~= cells.deep_view().subrange(1, i as int).push(cells.deep_view()[i as int]));
        i = i + 1;
    }
    proof {
        let p = split_first_cell_spec(cells.deep_view()[0]);
        assert(head =~= seq![p.0, p.1, p.2, team@]);
        assert(cells.deep_view().subrange(1, i as int) =~= cells.deep_view().drop_first());
    }
    row
}

fn plain_rows(table: &[char], team: &[char]) -> (v: Vec<Vec<Vec<char>>>)
    ensures
        v.deep_view() == plain_rows_from(table@, team@, 0),
{
    let o = chars_of("<tr");
    let c = chars_of("</tr>");
    let p1 = chars_of("class=\"playerrow\"");
    let p2 = chars_of("class=\"playerrow1\"");
    let mut out: Vec<Vec<Vec<char>>> = Vec::new();
    let mut pos: usize = 0;
    loop
        invariant
            pos <= table@.len(),
            o@ == "<tr"@,
            c@ == "</tr>"@,
            p1@ == "class=\"playerrow\""@,
            p2@ == "class=\"playerrow1\""@,
            plain_rows_from(table@, team@, 0) == out.deep_view() + plain_rows_from(table@, team@, pos as int),
        decreases table@.len() - pos,
    {
        match tag_block(table, &o, &c, pos) {
            None => {
                assert(out.deep_view() + plain_rows_from(table@, team@, pos as int) =~= out.deep_view());
                return out;
            },
            Some((a, b)) => {
                let tr = sub_vec(table, a, b);
                if is_player_tr_exec(&tr, &p1, &p2) {
                    let cells = td_cells(&tr);
                    if cells.len() > 0 {
                        let row = plain_player_row_exec(&cells, team);
                        let ghost prev = out.deep_view();
                        out.push(row);
                        assert(out.deep_view() =~= prev.push(row.deep_view()));
                        assert(prev + plain_rows_from(table@, team@, pos as int) =~= out.deep_view()
                            + plain_rows_from(table@, team@, b as int));
                    }
                }
                pos = b;
            },
        }
    }
}

/// The player rows of team page `html` fetched for `team_id`, each as
/// name, number, race, team, then the site's other cells; the team is named
/// by the roster's first cell, else `Team <id>`. Fails when the page has no
/// roster table.
pub fn extract_player_rows(html: &str, team_id: u32) -> (r: Result<Vec<Vec<String>>, ScrapeError>)
    ensures
        match slice_between_spec(html@, "<table class=teamroster"@, "</table>"@) {
            None => r matches Err(e) && e is TableNotFound,
            Some(table) => r matches Ok(rows) && rows.deep_view() == plain_rows_from(
                table,
                match first_cell_team_name(table) {
                    Some(n) => n,
                    None => team_label(team_id),
                },
                0,
            ),
        },
{
    let doc = chars_of(html);
    let table = match between_text(&doc, "<table class=teamroster", "</table>") {
        None => return Err(ScrapeError::TableNotFound),
        Some(t) => t,
    };
    let team = match first_cell_team_name_vec(&table) {
        Some(n) => n,
        None => {
            let mut v = chars_of("Team ");
            push_all(&mut v, &decimal_vec(team_id as u64));
            v
        },
    };
    Ok(rows_of(&plain_rows(&table, &team)))
}

/// A `<tr>` of a roster table whose first 200 characters carry
/// `class="playerrow"` or `class="playerrow1"` (any case) and that holds a
/// `<td>` cell is a player: the table gives that player's row, then the
/// rows of the `<tr>`s after it.
pub proof fn marked_rows_are_plain_players(table: Seq<char>, team: Seq<char>, pos: int, a: int, b: int)
    requires
        tag_block_spec(table, "<tr"@, "</tr>"@, pos) == Some((a, b)),
        contains(lower_seq(head_chars(table.subrange(a, b), 200)), "class=\"playerrow\""@) || contains(
            lower_seq(head_chars(table.subrange(a, b), 200)),
            "class=\"playerrow1\""@,
        ),
        td_cells_from(table.subrange(a, b), 0).len() > 0,
    ensures
        plain_rows_from(table, team, pos) == seq![plain_player_row(td_cells_from(table.subrange(a, b), 0), team)]
            + plain_rows_from(table, team, b),
{
    let tr = table.subrange(a, b);
    assert(tr.take(crate::scrape::players::min_int(tr.len() as int, 200)) == head_chars(tr, 200)) by {
        if tr.len() < 200 {
            assert(tr.take(tr.len() as int) =~= tr);
        }
    }
    assert(is_player_tr(tr));
}

} // verus!
