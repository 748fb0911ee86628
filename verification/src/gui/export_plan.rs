//! The files of an export started from the window, one per team: for each
//! team to export, the rows its page shows when that team alone is
//! selected, shaped as the table shows them, under the team's file name.

use vstd::prelude::*;
use crate::text::{chars_of, decimal, decimal_vec, opt_texts, push_all, string_of};
use crate::store::DataSet;
use crate::config::options::{format_ext, out_path_spec, AppOptions, PageKind};
use crate::data::{all_indices, copy_row, selected_indices, selected_row_indices, team_name_for, team_name_of};
use crate::gui::pages::{team_columns, team_columns_vec, without_last};
use crate::file::{export_text, to_export_string};
use crate::base::paths::{join_path, join_spec};
use crate::base::sanitize::{sanitize_team_filename, sanitize_team_filename_spec};
use crate::gui::view_state::team_ids;

verus! {

/// The teams to export: all teams when every team is selected, else the
/// selected ids.
pub open spec fn export_ids(selected: Seq<u32>, teams: Seq<(u32, Seq<char>)>) -> Seq<u32> {
    if selected.len() == teams.len() { team_ids(teams) } else { selected }
}

/// Positions of the rows shown when team `id` alone is selected.
pub open spec fn shown_for_team(kind: PageKind, rows: Seq<Seq<Seq<char>>>, id: u32, teams: Seq<(u32, Seq<char>)>) -> Seq<usize> {
    if teams.len() == 1 {
        Seq::new(rows.len(), |i: int| i as usize)
    } else {
        selected_indices(rows, team_columns(kind), seq![id], teams, 0)
    }
}

/// Header row and rows as the table shows them: game results without the
/// match id column unless it is shown.
pub open spec fn shown_shape(
    kind: PageKind,
    show_match_id: bool,
    headers: Option<Seq<Seq<char>>>,
    rows: Seq<Seq<Seq<char>>>,
) -> (Option<Seq<Seq<char>>>, Seq<Seq<Seq<char>>>) {
    if kind == PageKind::GameResults && !show_match_id {
        (
            match headers {
                Some(h) => Some(without_last(h)),
                None => None,
            },
            rows.map_values(|r: Seq<Seq<char>>| without_last(r)),
        )
    } else {
        (headers, rows)
    }
}

/// The file name of a team's export: its sanitized name with the format's
/// extension.
pub open spec fn team_file_name(name: Seq<char>, id: u32, ext: Seq<char>) -> Seq<char> {
    let stem = sanitize_team_filename_spec(name, id);
    if ext.len() == 0 { stem } else { stem + seq!['.'] + ext }
}

/// Path and text of team `id`'s file, or nothing for an unknown team or one
/// with no rows.
pub open spec fn team_export_entry(
    o: AppOptions,
    kind: PageKind,
    show_match_id: bool,
    ds: DataSet,
    teams: Seq<(u32, Seq<char>)>,
    id: u32,
) -> Option<(Seq<char>, Seq<char>)> {
    match team_name_of(teams, id) {
        None => None,
        Some(name) => {
            let ix = shown_for_team(kind, ds.rows_view(), id, teams);
            if ix.len() == 0 {
                None
            } else {
                let picked = ix.map_values(|i: usize| ds.rows_view()[i as int]);
                let shape = shown_shape(kind, show_match_id, ds.headers_view(), picked);
                Some(
                    (
                        join_spec(out_path_spec(o.export), team_file_name(name, id, format_ext(o.export.format))),
                        export_text(o, shape.0, shape.1),
                    ),
                )
            }
        },
    }
}

/// The files for the teams `ids`, in order.
pub open spec fn team_exports(
    o: AppOptions,
    kind: PageKind,
    show_match_id: bool,
    ds: DataSet,
    teams: Seq<(u32, Seq<char>)>,
    ids: Seq<u32>,
) -> Seq<(Seq<char>, Seq<char>)>
    decreases ids.len(),
{
    if ids.len() == 0 {
        Seq::empty()
    } else {
        let rest = team_exports(o, kind, show_match_id, ds, teams, ids.drop_last());
        match team_export_entry(o, kind, show_match_id, ds, teams, ids.last()) {
            Some(e) => rest.push(e),
            None => rest,
        }
    }
}

proof fn lemma_selected_indices_bound(
    rows: Seq<Seq<Seq<char>>>,
    cols: Seq<int>,
    ids: Seq<u32>,
    teams: Seq<(u32, Seq<char>)>,
    k: int,
)
    requires
        0 <= k,
    ensures
        forall|i: int| 0 <= i < selected_indices(rows, cols, ids, teams, k).len() ==> #[trigger] selected_indices(
            rows,
            cols,
            ids,
            teams,
            k,
        )[i] < rows.len(),
    decreases rows.len() - k,
{
    if k < rows.len() {
        lemma_selected_indices_bound(rows, cols, ids, teams, k + 1);
        let rest = selected_indices(rows, cols, ids, teams, k + 1);
        let head: Seq<usize> = if crate::data::row_selected(rows[k], cols, ids, teams) {
            seq![k as usize]
        } else {
            Seq::empty()
        };
        assert(selected_indices(rows, cols, ids, teams, k) == head + rest);
        assert forall|i: int| 0 <= i < (head + rest).len() implies #[trigger] (head + rest)[i] < rows.len() by {
            if i >= head.len() {
                assert((head + rest)[i] == rest[i - head.len()]);
            }
        }
    }
}

/// The rows at the positions `ix`, shaped as the table shows them.
fn picked_rows(rows: &Vec<Vec<String>>, ix: &Vec<usize>) -> (v: Vec<Vec<String>>)
    requires
        forall|i: int| 0 <= i < ix@.len() ==> #[trigger] ix@[i] < rows@.len(),
    ensures
        v.deep_view() == ix@.map_values(|i: usize| rows.deep_view()[i as int]),
{
    let ghost target = ix@.map_values(|i: usize| rows.deep_view()[i as int]);
    let mut v: Vec<Vec<String>> = Vec::new();
    let mut k: usize = 0;
    while k < ix.len()
        invariant
            k <= ix@.len(),
            forall|i: int| 0 <= i < ix@.len() ==> #[trigger] ix@[i] < rows@.len(),
            target == ix@.map_values(|i: usize| rows.deep_view()[i as int]),
            v.deep_view() == target.take(k as int),
        decreases ix@.len() - k,
    {
        let i = ix[k];
        assert(i < rows@.len());
        let r = copy_row(&rows[i]);
        let ghost prev = v.deep_view();
        v.push(r);
        assert(v.deep_view() =~= prev.push(target[k as int]));
        assert(target.take(k + 1) =~= target.take(k as int).push(target[k as int]));
        k = k + 1;
    }
    assert(target.take(k as int) =~= target);
    v
}

fn shape_exec(kind: PageKind, show_match_id: bool, headers: &Option<Vec<String>>, rows: Vec<Vec<String>>) -> (r: (
    Option<Vec<String>>,
    Vec<Vec<String>>,
))
    ensures
        (opt_texts(r.0), r.1.deep_view()) == shown_shape(kind, show_match_id, opt_texts(*headers), rows.deep_view()),
{
    if matches!(kind, PageKind::GameResults) && !show_match_id {
        let page = crate::gui::pages::GameResultsPage;
        page.view_for_export(false, headers, &rows)
    } else {
        (crate::data::copy_opt_texts(headers), rows)
    }
}

/// The file of team `id` (see `team_export_entry`).
fn team_entry(o: &AppOptions, kind: PageKind, show_match_id: bool, ds: &DataSet, teams: &[(u32, String)], id: u32) -> (r: Option<(String, String)>)
    ensures
        match team_export_entry(*o, kind, show_match_id, *ds, teams.deep_view(), id) {
            None => r is None,
            Some(e) => r matches Some(p) && p.0@ == e.0 && p.1@ == e.1,
        },
{
    let name = match team_name_for(teams, id) {
        None => return None,
        Some(n) => n,
    };
    let ix: Vec<usize> = if teams.len() == 1 {
        let v = all_indices(ds.rows.len());
        assert(v@ =~= Seq::new(ds.rows_view().len(), |i: int| i as usize));
        v
    } else {
        let cols = team_columns_vec(kind);
        let one: Vec<u32> = vec![id];
        assert(one@ =~= seq![id]);
        let v = selected_row_indices(&ds.rows, cols.as_slice(), one.as_slice(), teams);
        proof {
            lemma_selected_indices_bound(ds.rows_view(), team_columns(kind), seq![id], teams.deep_view(), 0);
        }
        v
    };
    if ix.len() == 0 {
        return None;
    }
    let picked = picked_rows(&ds.rows, &ix);
    let (h, rs) = shape_exec(kind, show_match_id, &ds.headers, picked);
    let text = to_export_string(o, &h, rs.as_slice());
    let name_s = string_of(&name);
    let stem = sanitize_team_filename(name_s.as_str(), id);
    let ext = o.export.format.ext();
    let mut file = chars_of(stem.as_str());
    if chars_of(ext).len() > 0 {
        file.push('.');
        push_all(&mut file, &chars_of(ext));
    }
    let dir = o.export.out_path();
    let f = string_of(&file);
    Some((join_path(dir.as_str(), f.as_str()), text))
}

/// The files of a per-team export from the window: one for each team to
/// export (every team when all are selected) that is known and has rows
/// on the page, in the order of the ids.
pub fn gui_team_exports(
    o: &AppOptions,
    kind: PageKind,
    show_match_id: bool,
    ds: &DataSet,
    selected: &[u32],
    teams: &[(u32, String)],
) -> (v: Vec<(String, String)>)
    ensures
        v@.len() == team_exports(*o, kind, show_match_id, *ds, teams.deep_view(), export_ids(selected@, teams.deep_view())).len(),
        forall|i: int| 0 <= i < v@.len() ==> (#[trigger] v@[i].0@, v@[i].1@) == team_exports(
            *o,
            kind,
            show_match_id,
            *ds,
            teams.deep_view(),
            export_ids(selected@, teams.deep_view()),
        )[i],
{
    let ghost tv = teams.deep_view();
    let mut ids: Vec<u32> = Vec::new();
    if selected.len() == teams.len() {
        let mut j: usize = 0;
        while j < teams.len()
            invariant
                j <= teams@.len(),
                tv == teams.deep_view(),
                ids@ == team_ids(tv).take(j as int),
            decreases teams@.len() - j,
        {
            ids.push(teams[j].0);
            assert(tv[j as int].0 == teams@[j as int].0);
            assert(team_ids(tv).take(j + 1) =~= team_ids(tv).take(j as int).push(tv[j as int].0));
            j = j + 1;
        }
        assert(team_ids(tv).take(j as int) =~= team_ids(tv));
    } else {
        let mut j: usize = 0;
        while j < selected.len()
            invariant
                j <= selected@.len(),
                ids@ == selected@.take(j as int),
            decreases selected@.len() - j,
        {
            ids.push(selected[j]);
            j = j + 1;
            assert(ids@ =~= selected@.take(j as int));
        }
        assert(selected@.take(j as int) =~= selected@);
    }
    let ghost all = export_ids(selected@, tv);
    assert(ids@ == all);
    let ghost target = team_exports(*o, kind, show_match_id, *ds, tv, all);
    let mut out: Vec<(String, String)> = Vec::new();
    let mut k: usize = 0;
    while k < ids.len()
        invariant
            k <= ids@.len(),
            ids@ == all,
            tv == teams.deep_view(),
            out@.len() == team_exports(*o, kind, show_match_id, *ds, tv, all.take(k as int)).len(),
            forall|i: int| 0 <= i < out@.len() ==> (#[trigger] out@[i].0@, out@[i].1@) == team_exports(
                *o,
                kind,
                show_match_id,
                *ds,
                tv,
                all.take(k as int),
            )[i],
        decreases ids@.len() - k,
    {
        assert(all.take(k + 1).drop_last() =~= all.take(k as int));
        assert(all.take(k + 1).last() == ids@[k as int]);
        match team_entry(o, kind, show_match_id, ds, teams, ids[k]) {
            Some(e) => {
                out.push(e);
            },
            None => {},
        }
        k = k + 1;
    }
    assert(all.take(k as int) =~= all);
    out
}

/// The status line after a per-team export that wrote `written` files,
/// the last at `last`.
pub fn gui_export_status(written: usize, last: Option<&str>) -> (s: String)
    ensures
        s@ == (if written == 0 {
            "Nothing to export"@
        } else {
            match last {
                Some(p) => "Exported "@ + decimal(written as nat) + " file(s). Last: "@ + p@,
                None => "Exported "@ + decimal(written as nat) + " file(s)."@,
            }
        }),
{
    if written == 0 {
        return string_of(&chars_of("Nothing to export"));
    }
    let mut v = chars_of("Exported ");
    push_all(&mut v, &decimal_vec(written as u64));
    match last {
        Some(p) => {
            push_all(&mut v, &chars_of(" file(s). Last: "));
            push_all(&mut v, &chars_of(p));
        },
        None => {
            push_all(&mut v, &chars_of(" file(s)."));
        },
    }
    string_of(&v)
}

/// The rows at the positions `ix` that exist, in the order of `ix`.
pub open spec fn rows_at(rows: Seq<Seq<Seq<char>>>, ix: Seq<usize>) -> Seq<Seq<Seq<char>>>
    decreases ix.len(),
{
    if ix.len() == 0 {
        Seq::empty()
    } else {
        let rest = rows_at(rows, ix.drop_last());
        if ix.last() < rows.len() { rest.push(rows[ix.last() as int]) } else { rest }
    }
}

/// The header row and the shown rows (positions `row_ix`) of page `kind`,
/// shaped as the table shows them, for copying or a one-file export.
pub fn shown_for_export(kind: PageKind, show_match_id: bool, ds: &DataSet, row_ix: &[usize]) -> (r: (
    Option<Vec<String>>,
    Vec<Vec<String>>,
))
    ensures
        (opt_texts(r.0), r.1.deep_view()) == shown_shape(
            kind,
            show_match_id,
            ds.headers_view(),
            rows_at(ds.rows_view(), row_ix@),
        ),
{
    let ghost rv = ds.rows_view();
    let mut picked: Vec<Vec<String>> = Vec::new();
    let mut k: usize = 0;
    while k < row_ix.len()
        invariant
            k <= row_ix@.len(),
            rv == ds.rows_view(),
            picked.deep_view() == rows_at(rv, row_ix@.take(k as int)),
        decreases row_ix@.len() - k,
    {
        assert(row_ix@.take(k + 1).drop_last() =~= row_ix@.take(k as int));
        assert(row_ix@.take(k + 1).last() == row_ix@[k as int]);
        let i = row_ix[k];
        if i < ds.rows.len() {
            let r = copy_row(&ds.rows[i]);
            let ghost prev = picked.deep_view();
            picked.push(r);
            assert(picked.deep_view() =~= prev.push(rv[i as int]));
        }
        k = k + 1;
    }
    assert(row_ix@.take(k as int) =~= row_ix@);
    shape_exec(kind, show_match_id, &ds.headers, picked)
}

} // verus!
