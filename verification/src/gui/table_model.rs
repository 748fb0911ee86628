//! The table shown on a page: the data set's header row and the rows that
//! pass the current team selection.

use vstd::prelude::*;
use crate::text::{chars_of, opt_texts, seq_eq};
use crate::store::DataSet;
use crate::data::{copy_opt_texts, copy_row, copy_rows};

verus! {

/// An optional header row and the rows to display.
#[derive(Clone, Debug)]
pub struct TableData {
    pub headers: Option<Vec<String>>,
    pub rows: Vec<Vec<String>>,
}

/// The rows of `rows` whose flag is set, in order.
pub open spec fn rows_flagged(rows: Seq<Seq<Seq<char>>>, flags: Seq<bool>) -> Seq<Seq<Seq<char>>>
    decreases rows.len(),
{
    if rows.len() == 0 || flags.len() == 0 {
        Seq::empty()
    } else {
        let rest = rows_flagged(rows.drop_last(), flags.drop_last());
        if flags.last() { rest.push(rows.last()) } else { rest }
    }
}

/// `keep` may answer `b` on a slice that holds `row`.
pub open spec fn keep_answers<F: Fn(&[String]) -> bool>(keep: F, row: Seq<String>, b: bool) -> bool {
    exists|s: &[String]| s@ == row && #[trigger] keep.ensures((s,), b)
}

/// Some team whose id is selected has the name `name`.
pub open spec fn names_selected_team(name: Seq<char>, ids: Seq<u32>, teams: Seq<(u32, Seq<char>)>) -> bool {
    exists|j: int| 0 <= j < teams.len() && #[trigger] teams[j].1 == name && ids.contains(teams[j].0)
}

/// Cell `col` of the row exists and names a selected team.
pub open spec fn team_cell_selected(r: Seq<Seq<char>>, col: int, ids: Seq<u32>, teams: Seq<(u32, Seq<char>)>) -> bool {
    0 <= col < r.len() && names_selected_team(r[col], ids, teams)
}

/// The rows whose cell `col` names a selected team, in order.
pub open spec fn rows_of_teams(rows: Seq<Seq<Seq<char>>>, col: int, ids: Seq<u32>, teams: Seq<(u32, Seq<char>)>) -> Seq<Seq<Seq<char>>>
    decreases rows.len(),
{
    if rows.len() == 0 {
        Seq::empty()
    } else {
        let rest = rows_of_teams(rows.drop_last(), col, ids, teams);
        if team_cell_selected(rows.last(), col, ids, teams) { rest.push(rows.last()) } else { rest }
    }
}

impl TableData {
    pub open spec fn headers_view(&self) -> Option<Seq<Seq<char>>> {
        opt_texts(self.headers)
    }

    pub open spec fn rows_view(&self) -> Seq<Seq<Seq<char>>> {
        self.rows.deep_view()
    }

    /// A table with no header row and no rows.
    pub fn empty() -> (t: TableData)
        ensures
            t.headers is None,
            t.rows@.len() == 0,
    {
        TableData { headers: None, rows: Vec::new() }
    }

    /// A table of the given parts.
    pub fn with(headers: Option<Vec<String>>, rows: Vec<Vec<String>>) -> (t: TableData)
        ensures
            t.headers == headers,
            t.rows == rows,
    {
        TableData { headers, rows }
    }

    /// Whether there are no rows.
    pub fn is_empty(&self) -> (b: bool)
        ensures
            b == (self.rows@.len() == 0),
    {
        self.rows.len() == 0
    }

    /// The header row's length, else the first row's, else zero.
    pub fn ncols(&self) -> (n: usize)
        ensures
            n == match self.headers {
                Some(h) => h@.len(),
                None => if self.rows@.len() > 0 { self.rows@[0]@.len() } else { 0 },
            },
    {
        match &self.headers {
            Some(h) => h.len(),
            None => if self.rows.len() > 0 { self.rows[0].len() } else { 0 },
        }
    }

    /// The number of rows.
    pub fn nrows(&self) -> (n: usize)
        ensures
            n == self.rows@.len(),
    {
        self.rows.len()
    }

    /// The header row and the rows.
    pub fn into_parts(self) -> (p: (Option<Vec<String>>, Vec<Vec<String>>))
        ensures
            p.0 == self.headers,
            p.1 == self.rows,
    {
        (self.headers, self.rows)
    }

    /// All of the data set, unfiltered.
    pub fn from_dataset(ds: &DataSet) -> (t: TableData)
        ensures
            t.headers_view() == ds.headers_view(),
            t.rows_view() == ds.rows_view(),
    {
        TableData { headers: copy_opt_texts(&ds.headers), rows: copy_rows(&ds.rows) }
    }

    /// The data set's header row and the rows on which `keep` answers true,
    /// in order.
    pub fn from_dataset_filtered<F: Fn(&[String]) -> bool>(ds: &DataSet, keep: F) -> (t: TableData)
        requires
            forall|s: &[String]| #[trigger] keep.requires((s,)),
        ensures
            t.headers_view() == ds.headers_view(),
            exists|flags: Seq<bool>|
                flags.len() == ds.rows@.len()
                && (forall|i: int| 0 <= i < flags.len() ==> #[trigger] keep_answers(keep, ds.rows@[i]@, flags[i]))
                && t.rows_view() == rows_flagged(ds.rows_view(), flags),
    {
        let mut rows: Vec<Vec<String>> = Vec::new();
        let ghost mut flags: Seq<bool> = Seq::empty();
        let mut i: usize = 0;
        while i < ds.rows.len()
            invariant
                i <= ds.rows@.len(),
                forall|s: &[String]| #[trigger] keep.requires((s,)),
                flags.len() == i,
                forall|j: int| 0 <= j < i ==> #[trigger] keep_answers(keep, ds.rows@[j]@, flags[j]),
                rows.deep_view() == rows_flagged(ds.rows_view().take(i as int), flags),
            decreases ds.rows@.len() - i,
        {
            let s = ds.rows[i].as_slice();
            let b = keep(s);
            assert(keep_answers(keep, ds.rows@[i as int]@, b));
            let ghost before = rows.deep_view();
            if b {
                let r = copy_row(&ds.rows[i]);
                rows.push(r);
                assert(rows.deep_view() =~= before.push(ds.rows@[i as int].deep_view()));
            }
            proof {
                let f2 = flags.push(b);
                let t2 = ds.rows_view().take(i + 1);
                assert(t2.drop_last() =~= ds.rows_view().take(i as int));
                assert(f2.drop_last() =~= flags);
                assert(t2.last() == ds.rows@[i as int].deep_view());
                flags = f2;
            }
            i = i + 1;
        }
        assert(ds.rows_view().take(i as int) =~= ds.rows_view());
        TableData { headers: copy_opt_texts(&ds.headers), rows }
    }

    /// The data set's header row and the rows whose cell `team_col` names a
    /// team whose id is among `selected_ids`, in order; no rows when no id
    /// is selected.
    pub fn from_dataset_for_teams(ds: &DataSet, team_col: usize, selected_ids: &[u32], teams: &[(u32, String)]) -> (t: TableData)
        ensures
            t.headers_view() == ds.headers_view(),
            t.rows_view() == rows_of_teams(ds.rows_view(), team_col as int, selected_ids@, teams.deep_view()),
            selected_ids@.len() == 0 ==> t.rows@.len() == 0,
    {
        let mut rows: Vec<Vec<String>> = Vec::new();
        let mut i: usize = 0;
        while i < ds.rows.len()
            invariant
                i <= ds.rows@.len(),
                rows.deep_view() == rows_of_teams(ds.rows_view().take(i as int), team_col as int, selected_ids@, teams.deep_view()),
            decreases ds.rows@.len() - i,
        {
            let ghost before = rows.deep_view();
            let ghost t2 = ds.rows_view().take(i + 1);
            assert(t2.drop_last() =~= ds.rows_view().take(i as int));
            assert(t2.last() == ds.rows@[i as int].deep_view());
            if team_col < ds.rows[i].len() {
                assert(ds.rows@[i as int].deep_view()[team_col as int] == ds.rows@[i as int]@[team_col as int]@);
                if name_of_selected_team(&chars_of(ds.rows[i][team_col].as_str()), selected_ids, teams) {
                    let r = copy_row(&ds.rows[i]);
                    rows.push(r);
                    assert(rows.deep_view() =~= before.push(ds.rows@[i as int].deep_view()));
                }
            }
            i = i + 1;
        }
        assert(ds.rows_view().take(i as int) =~= ds.rows_view());
        proof {
            if selected_ids@.len() == 0 {
                lemma_no_ids_no_rows(ds.rows_view(), team_col as int, selected_ids@, teams.deep_view());
            }
        }
        TableData { headers: copy_opt_texts(&ds.headers), rows }
    }
}

proof fn lemma_no_ids_no_rows(rows: Seq<Seq<Seq<char>>>, col: int, ids: Seq<u32>, teams: Seq<(u32, Seq<char>)>)
    requires
        ids.len() == 0,
    ensures
        rows_of_teams(rows, col, ids, teams).len() == 0,
    decreases rows.len(),
{
    if rows.len() > 0 {
        lemma_no_ids_no_rows(rows.drop_last(), col, ids, teams);
    }
}

/// Whether some team whose id is among `ids` has the name `name`.
fn name_of_selected_team(name: &[char], ids: &[u32], teams: &[(u32, String)]) -> (b: bool)
    ensures
        b == names_selected_team(name@, ids@, teams.deep_view()),
{
    let mut j: usize = 0;
    while j < teams.len()
        invariant
            j <= teams@.len(),
            forall|k: int| 0 <= k < j ==> !(#[trigger] teams.deep_view()[k].1 == name@ && ids@.contains(teams.deep_view()[k].0)),
        decreases teams@.len() - j,
    {
        assert(teams.deep_view()[j as int] == (teams@[j as int].0, teams@[j as int].1@));
        if seq_eq(&chars_of(teams[j].1.as_str()), name) && id_listed(ids, teams[j].0) {
            assert(teams.deep_view()[j as int].1 == name@ && ids@.contains(teams.deep_view()[j as int].0));
            return true;
        }
        j = j + 1;
    }
    false
}

/// Whether `id` occurs in `ids`.
fn id_listed(ids: &[u32], id: u32) -> (b: bool)
    ensures
        b == ids@.contains(id),
{
    let mut k: usize = 0;
    while k < ids.len()
        invariant
            k <= ids@.len(),
            forall|m: int| 0 <= m < k ==> ids@[m] != id,
        decreases ids@.len() - k,
    {
        if ids[k] == id {
            assert(ids@[k as int] == id);
            return true;
        }
        k = k + 1;
    }
    false
}

} // verus!
