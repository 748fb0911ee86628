//! The pages shown in tabs (players, game results, injuries): their table
//! shapes, how new scrapes merge into the cache, and how a team selection
//! filters their rows.

use vstd::prelude::*;
use crate::text::{chars_of, opt_texts, seq_eq};
use crate::store::DataSet;
use crate::config::options::PageKind;
use crate::data::{
    all_indices, copy_opt_texts, copy_row, copy_rows, selected_indices, selected_row_copies,
    selected_row_indices, selected_rows,
};

verus! {

/// Optional per-page column sizing.
#[derive(Default, Debug, Clone, Copy)]
pub struct ColumnHints;

/// The page that serves a page kind (players serves those without a page of their own).
pub open spec fn effective_page(kind: PageKind) -> PageKind {
    match kind {
        PageKind::GameResults => PageKind::GameResults,
        PageKind::Injuries => PageKind::Injuries,
        _ => PageKind::Players,
    }
}

/// Columns holding team names on each page.
pub open spec fn team_columns(kind: PageKind) -> Seq<int> {
    match effective_page(kind) {
        PageKind::GameResults => seq![2int, 5int],
        PageKind::Injuries => seq![2int, 8int],
        _ => seq![3int],
    }
}

pub fn team_columns_vec(kind: PageKind) -> (v: Vec<usize>)
    ensures
        v@.map_values(|c: usize| c as int) == team_columns(kind),
{
    let v: Vec<usize> = match kind {
        PageKind::GameResults => vec![2, 5],
        PageKind::Injuries => vec![2, 8],
        _ => vec![3],
    };
    assert(v@.map_values(|c: usize| c as int) =~= team_columns(kind));
    v
}

/// The page that serves `kind`.
pub fn page_for(kind: &PageKind) -> (k: PageKind)
    ensures
        k == effective_page(*kind),
{
    match kind {
        PageKind::GameResults => PageKind::GameResults,
        PageKind::Injuries => PageKind::Injuries,
        _ => PageKind::Players,
    }
}

/// The pages, in tab order.
pub fn all_pages() -> (v: Vec<PageKind>)
    ensures
        v@ == seq![PageKind::Players, PageKind::GameResults, PageKind::Injuries],
{
    let v = vec![PageKind::Players, PageKind::GameResults, PageKind::Injuries];
    assert(v@ =~= seq![PageKind::Players, PageKind::GameResults, PageKind::Injuries]);
    v
}

/* ---------------- merging ---------------- */

/// Some new row has team `t` in column 3.
pub open spec fn scraped_team(new_rows: Seq<Seq<Seq<char>>>, t: Seq<char>) -> bool {
    exists|k: int| 0 <= k < new_rows.len() && new_rows[k].len() > 3 && #[trigger] new_rows[k][3] == t
}

/// The old row is kept: it has no team column, or its team was not scraped.
pub open spec fn keeps_row(r: Seq<Seq<char>>, new_rows: Seq<Seq<Seq<char>>>) -> bool {
    !(r.len() > 3 && scraped_team(new_rows, r[3]))
}

/// Old rows (from `k` on) that a players scrape keeps.
pub open spec fn kept_rows(rows: Seq<Seq<Seq<char>>>, new_rows: Seq<Seq<Seq<char>>>, k: int) -> Seq<Seq<Seq<char>>>
    decreases rows.len() - k,
{
    if k < 0 || k >= rows.len() {
        Seq::empty()
    } else {
        (if keeps_row(rows[k], new_rows) { seq![rows[k]] } else { Seq::empty() }) + kept_rows(rows, new_rows, k + 1)
    }
}

/// Result of merging `new` into `into` on page `kind`: players keep the old
/// rows of teams the scrape did not cover and append the new rows (new
/// headers replace old ones when present); other pages take `new` whole.
pub open spec fn merged(kind: PageKind, into: DataSet, new: DataSet, out: DataSet) -> bool {
    match effective_page(kind) {
        PageKind::Players => {
            &&& out.headers_view() == (if new.headers is Some { new.headers_view() } else { into.headers_view() })
            &&& out.rows_view() == kept_rows(into.rows_view(), new.rows_view(), 0) + new.rows_view()
        },
        _ => out.headers_view() == new.headers_view() && out.rows_view() == new.rows_view(),
    }
}

fn scraped_team_exec(new_rows: &Vec<Vec<String>>, t: &[char]) -> (b: bool)
    ensures
        b == scraped_team(new_rows.deep_view(), t@),
{
    let mut k: usize = 0;
    while k < new_rows.len()
        invariant
            k <= new_rows@.len(),
            forall|j: int| 0 <= j < k ==> !(new_rows.deep_view()[j].len() > 3 && #[trigger] new_rows.deep_view()[j][3] == t@),
        decreases new_rows@.len() - k,
    {
        assert(new_rows.deep_view()[k as int] == new_rows@[k as int].deep_view());
        if new_rows[k].len() > 3 {
            assert(new_rows@[k as int].deep_view()[3] == new_rows@[k as int]@[3]@);
            if seq_eq(&chars_of(new_rows[k][3].as_str()), t) {
                return true;
            }
        }
        k = k + 1;
    }
    false
}

/// Merge a players scrape into the cached players table.
pub fn merge_players(into: &mut DataSet, new: DataSet)
    ensures
        merged(PageKind::Players, *old(into), new, *final(into)),
{
    let ghost old_rows = into.rows.deep_view();
    let ghost nv = new.rows.deep_view();
    let mut kept: Vec<Vec<String>> = Vec::new();
    let mut k: usize = 0;
    while k < into.rows.len()
        invariant
            k <= into.rows@.len(),
            old_rows == into.rows.deep_view(),
            nv == new.rows.deep_view(),
            kept_rows(old_rows, nv, 0) == kept.deep_view() + kept_rows(old_rows, nv, k as int),
        decreases into.rows@.len() - k,
    {
        assert(old_rows[k as int] == into.rows@[k as int].deep_view());
        let r = &into.rows[k];
        let keep = if r.len() > 3 {
            assert(old_rows[k as int][3] == r@[3]@);
            !scraped_team_exec(&new.rows, &chars_of(r[3].as_str()))
        } else {
            true
        };
        let ghost before = kept.deep_view();
        if keep {
            kept.push(copy_row(r));
            assert(kept.deep_view() =~= before.push(old_rows[k as int]));
        }
        assert(before + kept_rows(old_rows, nv, k as int) =~= kept.deep_view() + kept_rows(old_rows, nv, k + 1));
        k = k + 1;
    }
    assert(kept.deep_view() + kept_rows(old_rows, nv, k as int) =~= kept.deep_view());
    let DataSet { headers: new_headers, rows: mut new_rows } = new;
    if new_headers.is_some() {
        into.headers = new_headers;
    }
    let ghost kv = kept.deep_view();
    kept.append(&mut new_rows);
    assert(kept.deep_view() =~= kv + nv);
    into.rows = kept;
}

/// Merge `new` into `into` with the rule of page `kind` (see `merged`).
pub fn merge_for(kind: PageKind, into: &mut DataSet, new: DataSet)
    ensures
        merged(kind, *old(into), new, *final(into)),
{
    match kind {
        PageKind::GameResults | PageKind::Injuries => {
            *into = new;
        },
        _ => merge_players(into, new),
    }
}

/* ---------------- selection filters ---------------- */

/// Rows of a page shown for a selection: players show all when every team
/// is selected and none when none is; game results and injuries show all in
/// both cases; otherwise the rows whose team columns name a selected team.
pub open spec fn filtered_rows(kind: PageKind, ids: Seq<u32>, teams: Seq<(u32, Seq<char>)>, rows: Seq<Seq<Seq<char>>>) -> Seq<Seq<Seq<char>>> {
    match effective_page(kind) {
        PageKind::Players => if ids.len() == teams.len() {
            rows
        } else if ids.len() == 0 {
            Seq::empty()
        } else {
            selected_rows(rows, team_columns(kind), ids, teams, 0)
        },
        _ => if ids.len() == 0 || ids.len() == teams.len() {
            rows
        } else {
            selected_rows(rows, team_columns(kind), ids, teams, 0)
        },
    }
}

/// Rows of page `kind` shown for the selected `ids` (see `filtered_rows`).
pub fn filter_rows_for(kind: PageKind, ids: &[u32], teams: &[(u32, String)], rows: &Vec<Vec<String>>) -> (v: Vec<Vec<String>>)
    ensures
        v.deep_view() == filtered_rows(kind, ids@, teams.deep_view(), rows.deep_view()),
{
    let cols = team_columns_vec(kind);
    match kind {
        PageKind::GameResults | PageKind::Injuries => {
            if ids.len() == 0 || ids.len() == teams.len() {
                copy_rows(rows)
            } else {
                selected_row_copies(rows, &cols, ids, teams)
            }
        },
        _ => {
            if ids.len() == teams.len() {
                copy_rows(rows)
            } else if ids.len() == 0 {
                Vec::new()
            } else {
                selected_row_copies(rows, &cols, ids, teams)
            }
        },
    }
}

/// Positions of the rows of page `kind` shown for a selection: game results
/// and injuries give none for no selection and all for every team; players
/// always filter by the team column.
pub open spec fn filtered_indices(kind: PageKind, ids: Seq<u32>, teams: Seq<(u32, Seq<char>)>, rows: Seq<Seq<Seq<char>>>) -> Seq<usize> {
    match effective_page(kind) {
        PageKind::Players => selected_indices(rows, team_columns(kind), ids, teams, 0),
        _ => if ids.len() == 0 {
            Seq::empty()
        } else if ids.len() == teams.len() {
            Seq::new(rows.len(), |i: int| i as usize)
        } else {
            selected_indices(rows, team_columns(kind), ids, teams, 0)
        },
    }
}

/// Positions of the rows of page `kind` shown for the selected `ids`.
pub fn filter_row_indices_for(kind: PageKind, ids: &[u32], teams: &[(u32, String)], rows: &Vec<Vec<String>>) -> (v: Vec<usize>)
    ensures
        v@ == filtered_indices(kind, ids@, teams.deep_view(), rows.deep_view()),
{
    let cols = team_columns_vec(kind);
    match kind {
        PageKind::GameResults | PageKind::Injuries => {
            if ids.len() == 0 {
                Vec::new()
            } else if ids.len() == teams.len() {
                let v = all_indices(rows.len());
                assert(v@ =~= Seq::new(rows.deep_view().len(), |i: int| i as usize));
                v
            } else {
                selected_row_indices(rows, &cols, ids, teams)
            }
        },
        _ => selected_row_indices(rows, &cols, ids, teams),
    }
}

/// Fill in a page's default headers when a scrape brought none.
pub fn inject_headers_if_missing(kind: PageKind, ds: &mut DataSet)
    ensures
        final(ds).rows == old(ds).rows,
        old(ds).headers is Some ==> final(ds).headers == old(ds).headers,
        old(ds).headers is None ==> opt_texts(final(ds).headers) == default_headers_spec(kind),
{
    if ds.headers.is_none() {
        ds.headers = default_headers_for(kind);
    }
}

/* ---------------- page shapes ---------------- */

/// Default headers of a page (when a scrape brings none).
pub open spec fn default_headers_spec(kind: PageKind) -> Option<Seq<Seq<char>>> {
    match effective_page(kind) {
        PageKind::GameResults => Some(seq!["S"@, "W"@, "Home"@, "H"@, "A"@, "Away"@, "Match id"@]),
        PageKind::Injuries => Some(crate::scrape::injury_line::injury_headers()),
        _ => None,
    }
}

fn texts_of(items: &[&str]) -> (v: Vec<String>)
    ensures
        v@.len() == items@.len(),
        forall|i: int| 0 <= i < items@.len() ==> #[trigger] v@[i]@ == items@[i]@,
{
    let mut v: Vec<String> = Vec::new();
    let mut i: usize = 0;
    while i < items.len()
        invariant
            i <= items@.len(),
            v@.len() == i,
            forall|j: int| 0 <= j < i ==> #[trigger] v@[j]@ == items@[j]@,
        decreases items@.len() - i,
    {
        v.push(items[i].to_string());
        i = i + 1;
    }
    v
}

/// Default headers of page `kind`.
pub fn default_headers_for(kind: PageKind) -> (r: Option<Vec<String>>)
    ensures
        opt_texts(r) == default_headers_spec(kind),
{
    match kind {
        PageKind::GameResults => {
            let items = ["S", "W", "Home", "H", "A", "Away", "Match id"];
            let v = texts_of(&items);
            assert(v.deep_view() =~= seq!["S"@, "W"@, "Home"@, "H"@, "A"@, "Away"@, "Match id"@]);
            Some(v)
        },
        PageKind::Injuries => {
            let items = [
                "S", "W", "Victim Team", "Victim", "DUR", "SR0", "SR1", "Type", "Offender Team", "Offender", "BRU",
                "Bounty",
            ];
            let v = texts_of(&items);
            assert(v.deep_view() =~= crate::scrape::injury_line::injury_headers());
            Some(v)
        },
        _ => None,
    }
}

/// Rows prepared for export on the game results page: without the match id
/// column unless it is shown.
pub open spec fn without_last(s: Seq<Seq<char>>) -> Seq<Seq<char>> {
    if s.len() > 0 { s.drop_last() } else { s }
}

/// The players page.
pub struct PlayersPage;

/// The game results page.
pub struct GameResultsPage;

/// The injuries page.
pub struct InjuriesPage;

impl PlayersPage {
    pub fn kind(&self) -> (k: PageKind)
        ensures
            k == PageKind::Players,
    {
        PageKind::Players
    }

    pub fn title(&self) -> (t: &'static str)
        ensures
            t@ == "Players"@,
    {
        "Players"
    }

    /// Name, race and team are text; the number and the rest are numbers.
    pub fn non_numeric_columns(&self) -> (v: Vec<usize>)
        ensures
            v@ == seq![0usize, 2usize, 3usize],
    {
        let v = vec![0, 2, 3];
        assert(v@ =~= seq![0usize, 2usize, 3usize]);
        v
    }

    pub fn merge(&self, into: &mut DataSet, new: DataSet)
        ensures
            merged(PageKind::Players, *old(into), new, *final(into)),
    {
        merge_players(into, new)
    }

    pub fn filter_rows_for_selection(&self, selected_ids: &[u32], teams: &[(u32, String)], rows: &Vec<Vec<String>>) -> (v: Vec<Vec<String>>)
        ensures
            v.deep_view() == filtered_rows(PageKind::Players, selected_ids@, teams.deep_view(), rows.deep_view()),
    {
        filter_rows_for(PageKind::Players, selected_ids, teams, rows)
    }

    pub fn filter_row_indices_for_selection(&self, selected_ids: &[u32], teams: &[(u32, String)], rows: &Vec<Vec<String>>) -> (v: Option<Vec<usize>>)
        ensures
            v matches Some(ix) && ix@ == filtered_indices(PageKind::Players, selected_ids@, teams.deep_view(), rows.deep_view()),
    {
        Some(filter_row_indices_for(PageKind::Players, selected_ids, teams, rows))
    }
}

impl GameResultsPage {
    pub fn kind(&self) -> (k: PageKind)
        ensures
            k == PageKind::GameResults,
    {
        PageKind::GameResults
    }

    pub fn title(&self) -> (t: &'static str)
        ensures
            t@ == "Game Results"@,
    {
        "Game Results"
    }

    pub fn default_headers(&self) -> (r: Option<Vec<String>>)
        ensures
            opt_texts(r) == default_headers_spec(PageKind::GameResults),
    {
        default_headers_for(PageKind::GameResults)
    }

    /// Home team and away team are text.
    pub fn non_numeric_columns(&self) -> (v: Vec<usize>)
        ensures
            v@ == seq![2usize, 5usize],
    {
        let v = vec![2, 5];
        assert(v@ =~= seq![2usize, 5usize]);
        v
    }

    pub fn preferred_column_widths(&self) -> (r: Option<Vec<usize>>)
        ensures
            r matches Some(w) && w@ == seq![20usize, 20, 170, 20, 20, 170, 50],
    {
        let v = vec![20, 20, 170, 20, 20, 170, 50];
        assert(v@ =~= seq![20usize, 20, 170, 20, 20, 170, 50]);
        Some(v)
    }

    /// A season scrape replaces the table.
    pub fn merge(&self, into: &mut DataSet, new: DataSet)
        ensures
            *final(into) == new,
    {
        *into = new;
    }

    pub fn filter_rows_for_selection(&self, selected_ids: &[u32], teams: &[(u32, String)], rows: &Vec<Vec<String>>) -> (v: Vec<Vec<String>>)
        ensures
            v.deep_view() == filtered_rows(PageKind::GameResults, selected_ids@, teams.deep_view(), rows.deep_view()),
    {
        filter_rows_for(PageKind::GameResults, selected_ids, teams, rows)
    }

    pub fn filter_row_indices_for_selection(&self, selected_ids: &[u32], teams: &[(u32, String)], rows: &Vec<Vec<String>>) -> (v: Option<Vec<usize>>)
        ensures
            v matches Some(ix) && ix@ == filtered_indices(PageKind::GameResults, selected_ids@, teams.deep_view(), rows.deep_view()),
    {
        Some(filter_row_indices_for(PageKind::GameResults, selected_ids, teams, rows))
    }

    /// Headers and rows for export: unchanged when the match id is shown,
    /// else each without its last cell.
    pub fn view_for_export(&self, show_match_id: bool, headers: &Option<Vec<String>>, rows: &Vec<Vec<String>>) -> (r: (Option<Vec<String>>, Vec<Vec<String>>))
        ensures
            show_match_id ==> opt_texts(r.0) == opt_texts(*headers) && r.1.deep_view() == rows.deep_view(),
            !show_match_id ==> opt_texts(r.0) == (match opt_texts(*headers) {
                Some(h) => Some(without_last(h)),
                None => None,
            }) && r.1.deep_view() == rows.deep_view().map_values(|row: Seq<Seq<char>>| without_last(row)),
    {
        if show_match_id {
            return (copy_opt_texts(headers), copy_rows(rows));
        }
        let h = match headers {
            Some(hs) => {
                let mut c = copy_row(hs);
                if c.len() > 0 {
                    let ghost cv = c.deep_view();
                    c.pop();
                    assert(c.deep_view() =~= cv.drop_last());
                }
                Some(c)
            },
            None => None,
        };
        let mut out: Vec<Vec<String>> = Vec::new();
        let mut i: usize = 0;
        while i < rows.len()
            invariant
                i <= rows@.len(),
                out.deep_view() == rows.deep_view().take(i as int).map_values(|row: Seq<Seq<char>>| without_last(row)),
            decreases rows@.len() - i,
        {
            let mut c = copy_row(&rows[i]);
            assert(rows.deep_view()[i as int] == rows@[i as int].deep_view());
            if c.len() > 0 {
                let ghost cv = c.deep_view();
                c.pop();
                assert(c.deep_view() =~= cv.drop_last());
            }
            let ghost prev = out.deep_view();
            let ghost cv2 = c.deep_view();
            out.push(c);
            assert(out.deep_view() =~= prev.push(cv2));
            assert(rows.deep_view().take(i + 1).map_values(|row: Seq<Seq<char>>| without_last(row)) =~= rows.deep_view().take(
                i as int,
            ).map_values(|row: Seq<Seq<char>>| without_last(row)).push(without_last(rows.deep_view()[i as int])));
            i = i + 1;
        }
        assert(rows.deep_view().take(i as int) =~= rows.deep_view());
        (h, out)
    }

    /// A cached table is usable when blank or seven columns wide throughout.
    pub fn validate_cache(&self, ds: &DataSet) -> (b: bool)
        ensures
            b == ((match ds.headers_view() {
                Some(h) => h.len() == 7,
                None => true,
            }) && forall|i: int| 0 <= i < ds.rows@.len() ==> #[trigger] ds.rows@[i]@.len() == 7),
    {
        let hdr_ok = match &ds.headers {
            Some(h) => h.len() == 7,
            None => true,
        };
        let mut i: usize = 0;
        while i < ds.rows.len()
            invariant
                i <= ds.rows@.len(),
                forall|j: int| 0 <= j < i ==> #[trigger] ds.rows@[j]@.len() == 7,
            decreases ds.rows@.len() - i,
        {
            if ds.rows[i].len() != 7 {
                return false;
            }
            i = i + 1;
        }
        hdr_ok
    }
}

impl InjuriesPage {
    pub fn kind(&self) -> (k: PageKind)
        ensures
            k == PageKind::Injuries,
    {
        PageKind::Injuries
    }

    pub fn title(&self) -> (t: &'static str)
        ensures
            t@ == "Injuries"@,
    {
        "Injuries"
    }

    pub fn default_headers(&self) -> (r: Option<Vec<String>>)
        ensures
            opt_texts(r) == default_headers_spec(PageKind::Injuries),
    {
        default_headers_for(PageKind::Injuries)
    }

    /// Teams, names, type and bounty are text.
    pub fn non_numeric_columns(&self) -> (v: Vec<usize>)
        ensures
            v@ == seq![2usize, 3, 7, 8, 9, 11],
    {
        let v = vec![2, 3, 7, 8, 9, 11];
        assert(v@ =~= seq![2usize, 3, 7, 8, 9, 11]);
        v
    }

    pub fn preferred_column_widths(&self) -> (r: Option<Vec<usize>>)
        ensures
            r matches Some(w) && w@ == seq![20usize, 20, 160, 160, 30, 30, 30, 140, 160, 160, 30, 120],
    {
        let v = vec![20, 20, 160, 160, 30, 30, 30, 140, 160, 160, 30, 120];
        assert(v@ =~= seq![20usize, 20, 160, 160, 30, 30, 30, 140, 160, 160, 30, 120]);
        Some(v)
    }

    pub fn filter_rows_for_selection(&self, selected_ids: &[u32], teams: &[(u32, String)], rows: &Vec<Vec<String>>) -> (v: Vec<Vec<String>>)
        ensures
            v.deep_view() == filtered_rows(PageKind::Injuries, selected_ids@, teams.deep_view(), rows.deep_view()),
    {
        filter_rows_for(PageKind::Injuries, selected_ids, teams, rows)
    }

    pub fn filter_row_indices_for_selection(&self, selected_ids: &[u32], teams: &[(u32, String)], rows: &Vec<Vec<String>>) -> (v: Option<Vec<usize>>)
        ensures
            v matches Some(ix) && ix@ == filtered_indices(PageKind::Injuries, selected_ids@, teams.deep_view(), rows.deep_view()),
    {
        Some(filter_row_indices_for(PageKind::Injuries, selected_ids, teams, rows))
    }
}

} // verus!
