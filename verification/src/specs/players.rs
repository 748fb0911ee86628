//! Team page roster with the team name taken from the roster's first cell
//! (`Team <id>` when there is none), the number column with or without its
//! `#`, and the header row on request.

use vstd::prelude::*;
use crate::text::{
    chars_of, decimal, decimal_vec, find, find_from, lemma_find_from, push_all, rows_of, string_of,
    strings_of, sub_vec, trim, trim_vec,
};
use crate::base::html::{
    clean_spec, clean_vec, inner_spec, inner_vec, slice_between_spec, tag_block, tag_block_spec,
};
use crate::error::ScrapeError;
use crate::scrape::players::{
    between_text, non_empty, read_headers, roster_headers, roster_headers_spec, roster_rows, roster_rows_from,
    site_headers_from,
};

verus! {

/// Team name, header row and rows of one roster.
pub struct RosterBundle {
    pub team_name: String,
    pub headers: Option<Vec<String>>,
    pub rows: Vec<Vec<String>>,
}

/// Name in the first cell of the first row: cut at `" Team owner"` or
/// `" | "`, trimmed.
pub open spec fn first_cell_team_name(table: Seq<char>) -> Option<Seq<char>> {
    match tag_block_spec(table, "<tr"@, "</tr>"@, 0) {
        None => None,
        Some((a, b)) => {
            let tr = table.subrange(a, b);
            match tag_block_spec(tr, "<td"@, "</td>"@, 0) {
                None => None,
                Some((c, d)) => {
                    let txt = clean_spec(inner_spec(tr.subrange(c, d)));
                    match find_from(txt, " Team owner"@, 0) {
                        Some(i) => Some(trim(txt.take(i))),
                        None => match find_from(txt, " | "@, 0) {
                            Some(i) => Some(trim(txt.take(i))),
                            None => non_empty(trim(txt)),
                        },
                    }
                },
            }
        },
    }
}

/// `Team <id>`.
pub open spec fn team_label(id: u32) -> Seq<char> {
    "Team "@ + decimal(id as nat)
}

pub fn first_cell_team_name_vec(table: &[char]) -> (r: Option<Vec<char>>)
    ensures
        crate::text::opt_chars(r) == first_cell_team_name(table@),
{
    let (a, b) = match tag_block(table, &chars_of("<tr"), &chars_of("</tr>"), 0) {
        None => return None,
        Some(x) => x,
    };
    let tr = sub_vec(table, a, b);
    let (c, d) = match tag_block(&tr, &chars_of("<td"), &chars_of("</td>"), 0) {
        None => return None,
        Some(x) => x,
    };
    let txt = clean_vec(&inner_vec(&sub_vec(&tr, c, d)));
    let owner = chars_of(" Team owner");
    let pipe = chars_of(" | ");
    proof {
        lemma_find_from(txt@, owner@, 0);
        lemma_find_from(txt@, pipe@, 0);
    }
    let cut = match find(&txt, &owner, 0) {
        Some(i) => Some(i),
        None => find(&txt, &pipe, 0),
    };
    match cut {
        Some(i) => {
            assert(txt@.subrange(0, i as int) =~= txt@.take(i as int));
            Some(trim_vec(&sub_vec(&txt, 0, i)))
        },
        None => {
            let t = trim_vec(&txt);
            if t.len() == 0 { None } else { Some(t) }
        },
    }
}

/// Roster of the team page `html_doc` fetched for `team_id`: rows are name,
/// number (`#27`, or `27` without `keep_hash`), race, team, then the site's
/// columns; the header row only with `include_headers`.
pub fn fetch_and_extract(team_id: u32, html_doc: &str, keep_hash: bool, include_headers: bool) -> (r: Result<RosterBundle, ScrapeError>)
    ensures
        match slice_between_spec(html_doc@, "<table class=teamroster"@, "</table>"@) {
            None => r matches Err(e) && e is TableNotFound,
            Some(table) => r matches Ok(b) && {
                let team = match first_cell_team_name(table) {
                    Some(n) => n,
                    None => team_label(team_id),
                };
                &&& b.team_name@ == team
                &&& crate::text::opt_texts(b.headers) == (if include_headers {
                    Some(roster_headers_spec(site_headers_from(table, 0), "Number"@))
                } else {
                    None
                })
                &&& b.rows.deep_view() == roster_rows_from(table, team, keep_hash, 0)
            },
        },
{
    let doc = chars_of(html_doc);
    let table = match between_text(&doc, "<table class=teamroster", "</table>") {
        None => return Err(ScrapeError::TableNotFound),
        Some(t) => t,
    };
    let team = match first_cell_team_name_vec(&table) {
        Some(n) => n,
        None => {
            let mut v = chars_of("Team ");
            push_all(&mut v, &decimal_vec(team_id as u64));
            v
        },
    };
    let headers = if include_headers {
        Some(strings_of(&roster_headers(read_headers(&table), "Number")))
    } else {
        None
    };
    let rows = rows_of(&roster_rows(&table, &team, keep_hash));
    Ok(RosterBundle { team_name: string_of(&team), headers, rows })
}

} // verus!
