//! The first command line run: the rosters of the selected teams read one
//! after the other into one table.

use vstd::prelude::*;
use crate::store::DataSet;
use crate::error::ScrapeError;
use crate::base::html::slice_between_spec;
use crate::specs::players::{fetch_and_extract, first_cell_team_name, team_label};
use crate::scrape::players::{roster_headers_spec, roster_rows_from, site_headers_from};

verus! {

/// The files a run wrote.
pub struct RunSummary {
    pub files_written: Vec<String>,
}

/// The roster table of a team page.
pub open spec fn roster_table(doc: Seq<char>) -> Option<Seq<char>> {
    slice_between_spec(doc, "<table class=teamroster"@, "</table>"@)
}

/// The rows of one team page (see `fetch_and_extract`).
pub open spec fn page_rows(id: u32, table: Seq<char>, keep_hash: bool) -> Seq<Seq<Seq<char>>> {
    let team = match first_cell_team_name(table) {
        Some(n) => n,
        None => team_label(id),
    };
    roster_rows_from(table, team, keep_hash, 0)
}

/// Every page has a roster table.
pub open spec fn all_have_tables(pages: Seq<(u32, Seq<char>)>) -> bool {
    forall|k: int| 0 <= k < pages.len() ==> #[trigger] roster_table(pages[k].1) is Some
}

/// The rows of all pages, one team after the other.
pub open spec fn all_rows(pages: Seq<(u32, Seq<char>)>, keep_hash: bool) -> Seq<Seq<Seq<char>>>
    decreases pages.len(),
{
    if pages.len() == 0 {
        Seq::empty()
    } else {
        all_rows(pages.drop_last(), keep_hash) + page_rows(
            pages.last().0,
            roster_table(pages.last().1)->Some_0,
            keep_hash,
        )
    }
}

/// The rosters of the fetched team pages (id and page text, in the order
/// of the ids) as one table: the first page's header row when headers are
/// asked for, then every page's rows. The first page without a roster
/// table stops the run.
pub fn collect_players(pages: &Vec<(u32, String)>, keep_hash: bool, include_headers: bool) -> (r: Result<DataSet, ScrapeError>)
    ensures
        !all_have_tables(pages.deep_view()) ==> (r matches Err(e) && e is TableNotFound),
        all_have_tables(pages.deep_view()) ==> (r matches Ok(ds) && ds.rows_view() == all_rows(pages.deep_view(), keep_hash)
            && ds.headers_view() == (if include_headers && pages@.len() > 0 {
            Some(roster_headers_spec(site_headers_from(roster_table(pages.deep_view()[0].1)->Some_0, 0), "Number"@))
        } else {
            None
        })),
{
    let ghost pv = pages.deep_view();
    let mut headers: Option<Vec<String>> = None;
    let mut rows: Vec<Vec<String>> = Vec::new();
    let mut k: usize = 0;
    while k < pages.len()
        invariant
            k <= pv.len(),
            pv == pages.deep_view(),
            all_have_tables(pv.take(k as int)),
            rows.deep_view() == all_rows(pv.take(k as int), keep_hash),
            crate::text::opt_texts(headers) == (if include_headers && k > 0 {
                Some(roster_headers_spec(site_headers_from(roster_table(pv[0].1)->Some_0, 0), "Number"@))
            } else {
                None
            }),
        decreases pv.len() - k,
    {
        assert(pv[k as int] == (pages@[k as int].0, pages@[k as int].1@));
        let ghost t = pv.take(k + 1);
        assert(t.drop_last() =~= pv.take(k as int));
        assert(t.last() == pv[k as int]);
        let bundle = match fetch_and_extract(pages[k].0, pages[k].1.as_str(), keep_hash, include_headers) {
            Ok(b) => b,
            Err(e) => {
                assert(!all_have_tables(pv)) by {
                    assert(roster_table(pv[k as int].1) is None);
                }
                return Err(e);
            },
        };
        if k == 0 && include_headers {
            headers = bundle.headers;
        }
        let ghost before = rows.deep_view();
        let mut new_rows = bundle.rows;
        let ghost added = new_rows.deep_view();
        rows.append(&mut new_rows);
        assert(rows.deep_view() =~= before + added);
        proof {
            assert forall|j: int| 0 <= j < t.len() implies #[trigger] roster_table(t[j].1) is Some by {
                if j < k {
                    assert(t[j] == pv.take(k as int)[j]);
                }
            }
        }
        k = k + 1;
    }
    assert(pv.take(k as int) =~= pv);
    Ok(DataSet { headers, rows })
}

} // verus!
