//! How the window's team selection and table view follow its state: the
//! selection as scrape options, the selection kept valid when the team list
//! changes, and the headers and column order of the shown table.

use vstd::prelude::*;
use crate::text::{chars_of, decimal, decimal_vec, opt_texts, push_all, string_of};
use crate::config::options::{sorted_ids, strictly_increasing, PageKind, TeamSelector};
use crate::gui::pages::{default_headers_for, default_headers_spec};
use crate::config::options::{default_dir_spec, out_path_spec, ExportOptions, ExportType};
use crate::base::paths::{
    join_spec, path_eq, path_file_name, path_file_name_of, path_norm_of, path_normalize, path_parent,
    path_parent_of, paths_equal,
};


verus! {

/// The teams a scrape covers for the selected ids: none, all (every team
/// is selected), one, or the distinct ids in increasing order.
pub fn scrape_selector(selected: &Vec<u32>, teams_total: usize) -> (t: TeamSelector)
    ensures
        selected@.len() == 0 ==> (t matches TeamSelector::Ids(v) && v@.len() == 0),
        selected@.len() > 0 && selected@.len() == teams_total ==> t == TeamSelector::All,
        selected@.len() == 1 && teams_total != 1 ==> t == TeamSelector::One(selected@[0]),
        selected@.len() > 1 && selected@.len() != teams_total ==> (t matches TeamSelector::Ids(v) && strictly_increasing(v@)
            && forall|x: u32| v@.contains(x) <==> selected@.contains(x)),
{
    if selected.len() == 0 {
        TeamSelector::Ids(Vec::new())
    } else if selected.len() == teams_total {
        TeamSelector::All
    } else if selected.len() == 1 {
        TeamSelector::One(selected[0])
    } else {
        TeamSelector::Ids(sorted_ids(selected))
    }
}

/// Some team has id `id`.
pub open spec fn has_team(teams: Seq<(u32, Seq<char>)>, id: u32) -> bool {
    exists|j: int| 0 <= j < teams.len() && #[trigger] teams[j].0 == id
}

/// The selected ids that name a team, in order.
pub open spec fn valid_ids(ids: Seq<u32>, teams: Seq<(u32, Seq<char>)>) -> Seq<u32>
    decreases ids.len(),
{
    if ids.len() == 0 {
        Seq::empty()
    } else {
        let rest = valid_ids(ids.drop_last(), teams);
        if has_team(teams, ids.last()) { rest.push(ids.last()) } else { rest }
    }
}

/// The ids of all teams, in order.
pub open spec fn team_ids(teams: Seq<(u32, Seq<char>)>) -> Seq<u32> {
    teams.map_values(|t: (u32, Seq<char>)| t.0)
}

/// The selection after the team list changed: the ids that still name a
/// team, or every team when none is left.
pub open spec fn clamped_selection(ids: Seq<u32>, teams: Seq<(u32, Seq<char>)>) -> Seq<u32> {
    let v = valid_ids(ids, teams);
    if v.len() == 0 { team_ids(teams) } else { v }
}

fn has_team_exec(teams: &[(u32, String)], id: u32) -> (b: bool)
    ensures
        b == has_team(teams.deep_view(), id),
{
    let mut j: usize = 0;
    while j < teams.len()
        invariant
            j <= teams@.len(),
            forall|k: int| 0 <= k < j ==> #[trigger] teams.deep_view()[k].0 != id,
        decreases teams@.len() - j,
    {
        assert(teams.deep_view()[j as int].0 == teams@[j as int].0);
        if teams[j].0 == id {
            return true;
        }
        j = j + 1;
    }
    false
}

/// The selection kept valid for a new team list (see `clamped_selection`).
pub fn clamp_selection(selected: &Vec<u32>, teams: &[(u32, String)]) -> (v: Vec<u32>)
    ensures
        v@ == clamped_selection(selected@, teams.deep_view()),
{
    let ghost tv = teams.deep_view();
    let mut v: Vec<u32> = Vec::new();
    let mut i: usize = 0;
    while i < selected.len()
        invariant
            i <= selected@.len(),
            tv == teams.deep_view(),
            v@ == valid_ids(selected@.take(i as int), tv),
        decreases selected@.len() - i,
    {
        assert(selected@.take(i + 1).drop_last() =~= selected@.take(i as int));
        if has_team_exec(teams, selected[i]) {
            v.push(selected[i]);
        }
        i = i + 1;
    }
    assert(selected@.take(i as int) =~= selected@);
    if v.len() > 0 {
        return v;
    }
    let mut all: Vec<u32> = Vec::new();
    let mut j: usize = 0;
    while j < teams.len()
        invariant
            j <= teams@.len(),
            tv == teams.deep_view(),
            all@ == team_ids(tv).take(j as int),
        decreases teams@.len() - j,
    {
        all.push(teams[j].0);
        assert(tv[j as int].0 == teams@[j as int].0);
        assert(team_ids(tv).take(j + 1) =~= team_ids(tv).take(j as int).push(tv[j as int].0));
        j = j + 1;
    }
    assert(team_ids(tv).take(j as int) =~= team_ids(tv));
    all
}

/// `Selection: <n> team(s)`.
pub fn selection_message(n: usize) -> (s: String)
    ensures
        s@ == "Selection: "@ + decimal(n as nat) + " team(s)"@,
{
    let mut v = chars_of("Selection: ");
    push_all(&mut v, &decimal_vec(n as u64));
    push_all(&mut v, &chars_of(" team(s)"));
    string_of(&v)
}

/// The headers shown on page `kind`: the page's defaults, else those of its
/// data.
pub fn view_headers(kind: PageKind, data_headers: &Option<Vec<String>>) -> (r: Option<Vec<String>>)
    ensures
        opt_texts(r) == (match default_headers_spec(kind) {
            Some(h) => Some(h),
            None => opt_texts(*data_headers),
        }),
{
    match default_headers_for(kind) {
        Some(h) => Some(h),
        None => crate::data::copy_opt_texts(data_headers),
    }
}

/// The number of columns shown: that of the headers, else that of the
/// first row, else that of the page's defaults.
pub fn view_columns(kind: PageKind, headers: &Option<Vec<String>>, rows: &Vec<Vec<String>>) -> (n: usize)
    ensures
        n == (match headers {
            Some(h) => h@.len() as int,
            None => if rows@.len() > 0 {
                rows@[0]@.len() as int
            } else {
                match default_headers_spec(kind) {
                    Some(d) => d.len() as int,
                    None => 0,
                }
            },
        }),
{
    match headers {
        Some(h) => h.len(),
        None => {
            if rows.len() > 0 {
                rows[0].len()
            } else {
                match default_headers_for(kind) {
                    Some(d) => d.len(),
                    None => 0,
                }
            }
        },
    }
}

/// The columns in source order, `0..cols`.
pub open spec fn identity_order(cols: nat) -> Seq<usize> {
    Seq::new(cols, |i: int| i as usize)
}

/// The column order to use: the kept one when it still fits the number of
/// columns, else the source order.
pub fn column_order(existing: Option<&Vec<usize>>, cols: usize) -> (v: Vec<usize>)
    ensures
        v@ == (match existing {
            Some(o) => if o@.len() == cols { o@ } else { identity_order(cols as nat) },
            None => identity_order(cols as nat),
        }),
{
    match existing {
        Some(o) => {
            if o.len() == cols {
                let mut c: Vec<usize> = Vec::new();
                let mut i: usize = 0;
                while i < o.len()
                    invariant
                        i <= o@.len(),
                        c@ == o@.take(i as int),
                    decreases o@.len() - i,
                {
                    c.push(o[i]);
                    i = i + 1;
                    assert(c@ =~= o@.take(i as int));
                }
                assert(o@.take(i as int) =~= o@);
                return c;
            }
        },
        None => {},
    }
    let v = crate::data::all_indices(cols);
    assert(v@ =~= identity_order(cols as nat));
    v
}

/* ---------------- clicks in the team list ---------------- */

/// `sel` without `id`.
pub open spec fn without_id(sel: Seq<u32>, id: u32) -> Seq<u32>
    decreases sel.len(),
{
    if sel.len() == 0 {
        Seq::empty()
    } else {
        let rest = without_id(sel.drop_last(), id);
        if sel.last() == id { rest } else { rest.push(sel.last()) }
    }
}

/// `sel` with the ids of teams `lo..=hi` added, each once, in list order.
pub open spec fn with_range(sel: Seq<u32>, teams: Seq<(u32, Seq<char>)>, lo: int, hi: int) -> Seq<u32>
    decreases hi - lo + 1,
{
    if hi < lo {
        sel
    } else {
        let acc = with_range(sel, teams, lo, hi - 1);
        if acc.contains(teams[hi].0) { acc } else { acc.push(teams[hi].0) }
    }
}

/// The ids of teams `lo..=hi`.
pub open spec fn range_ids(teams: Seq<(u32, Seq<char>)>, lo: int, hi: int) -> Seq<u32> {
    teams.subrange(lo, hi + 1).map_values(|t: (u32, Seq<char>)| t.0)
}

/// The selection after a click on team `idx`: ctrl toggles it, shift
/// selects the range from the last clicked team, both add that range; a
/// plain click selects the team alone. Without a last click, a range click
/// acts as a toggle (ctrl) or a plain click (shift).
pub open spec fn clicked_selection(
    sel: Seq<u32>,
    teams: Seq<(u32, Seq<char>)>,
    idx: int,
    ctrl: bool,
    shift: bool,
    last: Option<usize>,
) -> Seq<u32> {
    let id = teams[idx].0;
    let toggled = if sel.contains(id) { without_id(sel, id) } else { sel.push(id) };
    if ctrl && shift {
        match last {
            Some(l) => with_range(sel, teams, if l <= idx { l as int } else { idx }, if l <= idx { idx } else { l as int }),
            None => toggled,
        }
    } else if ctrl {
        toggled
    } else if shift {
        match last {
            Some(l) => range_ids(teams, if l <= idx { l as int } else { idx }, if l <= idx { idx } else { l as int }),
            None => seq![id],
        }
    } else {
        seq![id]
    }
}

fn id_in(sel: &Vec<u32>, id: u32) -> (b: bool)
    ensures
        b == sel@.contains(id),
{
    let mut k: usize = 0;
    while k < sel.len()
        invariant
            k <= sel@.len(),
            forall|j: int| 0 <= j < k ==> sel@[j] != id,
        decreases sel@.len() - k,
    {
        if sel[k] == id {
            assert(sel@[k as int] == id);
            return true;
        }
        k = k + 1;
    }
    false
}

fn without_id_vec(sel: &Vec<u32>, id: u32) -> (v: Vec<u32>)
    ensures
        v@ == without_id(sel@, id),
{
    let mut v: Vec<u32> = Vec::new();
    let mut k: usize = 0;
    while k < sel.len()
        invariant
            k <= sel@.len(),
            v@ == without_id(sel@.take(k as int), id),
        decreases sel@.len() - k,
    {
        assert(sel@.take(k + 1).drop_last() =~= sel@.take(k as int));
        if sel[k] != id {
            v.push(sel[k]);
        }
        k = k + 1;
    }
    assert(sel@.take(k as int) =~= sel@);
    v
}

/// The selection after a click on team `idx` with the given modifier keys
/// (see `clicked_selection`); the clicked team becomes the last clicked.
pub fn click_team(sel: &Vec<u32>, teams: &[(u32, String)], idx: usize, ctrl: bool, shift: bool, last: Option<usize>) -> (r: (
    Vec<u32>,
    Option<usize>,
))
    requires
        idx < teams@.len(),
        last matches Some(l) ==> l < teams@.len(),
    ensures
        r.0@ == clicked_selection(sel@, teams.deep_view(), idx as int, ctrl, shift, last),
        r.1 == Some(idx),
{
    let ghost tv = teams.deep_view();
    let id = teams[idx].0;
    assert(tv[idx as int].0 == id);
    let toggled = if id_in(sel, id) {
        without_id_vec(sel, id)
    } else {
        let mut t = sel.clone();
        t.push(id);
        t
    };
    let range = match last {
        Some(l) => Some(if l <= idx { (l, idx) } else { (idx, l) }),
        None => None,
    };
    let v: Vec<u32> = if ctrl && shift {
        match range {
            Some((lo, hi)) => {
                let mut acc = sel.clone();
                let mut j: usize = lo;
                assert(acc@ == with_range(sel@, tv, lo as int, lo - 1));
                while j <= hi
                    invariant
                        lo <= j <= hi + 1,
                        hi < teams@.len(),
                        tv == teams.deep_view(),
                        acc@ == with_range(sel@, tv, lo as int, j - 1),
                    decreases hi + 1 - j,
                {
                    let t = teams[j].0;
                    assert(tv[j as int].0 == t);
                    if !id_in(&acc, t) {
                        acc.push(t);
                    }
                    j = j + 1;
                }
                acc
            },
            None => toggled,
        }
    } else if ctrl {
        toggled
    } else if shift {
        match range {
            Some((lo, hi)) => {
                let mut acc: Vec<u32> = Vec::new();
                let mut j: usize = lo;
                while j <= hi
                    invariant
                        lo <= j <= hi + 1,
                        hi < teams@.len(),
                        tv == teams.deep_view(),
                        acc@ == range_ids(tv, lo as int, j - 1),
                    decreases hi + 1 - j,
                {
                    assert(tv[j as int].0 == teams@[j as int].0);
                    acc.push(teams[j].0);
                    assert(range_ids(tv, lo as int, j as int) =~= range_ids(tv, lo as int, j - 1).push(tv[j as int].0));
                    j = j + 1;
                }
                acc
            },
            None => {
                let mut one: Vec<u32> = Vec::new();
                one.push(id);
                one
            },
        }
    } else {
        let mut one: Vec<u32> = Vec::new();
        one.push(id);
        one
    };
    (v, Some(idx))
}

/* ---------------- export directory on a tab switch ---------------- */

/// The directory the path field names: its parent for one file (the
/// current directory when it has none), the whole field per team.
pub open spec fn dir_in_text(e: ExportOptions, text: Seq<char>) -> Seq<char> {
    match e.export_type {
        ExportType::SingleFile => match path_parent_of(text) {
            Some(p) => p,
            None => e.out_path.dir@,
        },
        ExportType::PerTeam => text,
    }
}

/// Whether a tab switch from `prev` moves the export directory: the path
/// field still names `prev`'s default directory.
pub open spec fn dir_follows_tab(e: ExportOptions, text: Seq<char>, prev: PageKind) -> bool {
    path_eq(path_norm_of(dir_in_text(e, text)), path_norm_of(default_dir_spec(prev)))
}

/// On a switch from tab `prev` to tab `new`: where the path field still
/// names `prev`'s default directory, the export directory becomes `new`'s
/// default and the new text of the path field is returned (the field's
/// file name kept for one file); otherwise nothing changes.
pub fn migrate_dir_on_tab_switch(export: &mut ExportOptions, text: &str, prev: PageKind, new: PageKind) -> (r: Option<String>)
    ensures
        final(export).format == old(export).format,
        final(export).export_type == old(export).export_type,
        final(export).include_headers == old(export).include_headers,
        final(export).keep_hash == old(export).keep_hash,
        final(export).out_path.file_stem == old(export).out_path.file_stem,
        final(export).out_path.file_ext == old(export).out_path.file_ext,
        !dir_follows_tab(*old(export), text@, prev) ==> r is None && *final(export) == *old(export),
        dir_follows_tab(*old(export), text@, prev) ==> {
            &&& final(export).out_path.dir@ == default_dir_spec(new)
            &&& r matches Some(t) && t@ == match old(export).export_type {
                ExportType::SingleFile => join_spec(
                    default_dir_spec(new),
                    match path_file_name_of(text@) {
                        Some(f) => f,
                        None => match path_file_name_of(out_path_spec(*final(export))) {
                            Some(f) => f,
                            None => Seq::empty(),
                        },
                    },
                ),
                ExportType::PerTeam => default_dir_spec(new),
            }
        },
{
    let prev_default = ExportOptions::default_dir_for(prev);
    let new_default = ExportOptions::default_dir_for(new);
    let dir: String = match export.export_type {
        ExportType::SingleFile => match path_parent(text) {
            Some(p) => p,
            None => string_of(&chars_of(export.current_dir())),
        },
        ExportType::PerTeam => string_of(&chars_of(text)),
    };
    let a = path_normalize(dir.as_str());
    let b = path_normalize(prev_default.as_str());
    if !paths_equal(a.as_str(), b.as_str()) {
        return None;
    }
    export.set_default_dir_for_page(new);
    match export.export_type {
        ExportType::SingleFile => {
            let name: String = match path_file_name(text) {
                Some(f) => f,
                None => {
                    let whole = export.out_path();
                    match path_file_name(whole.as_str()) {
                        Some(f) => f,
                        None => String::new(),
                    }
                },
            };
            Some(ExportOptions::join_dir_and_filename(new_default.as_str(), name.as_str()))
        },
        ExportType::PerTeam => Some(new_default),
    }
}

/* ---------------- moving a column ---------------- */

/// First position of `c` in `ord`.
pub open spec fn position_of(ord: Seq<usize>, c: usize) -> Option<int>
    decreases ord.len(),
{
    if ord.len() == 0 {
        None
    } else {
        match position_of(ord.drop_last(), c) {
            Some(k) => Some(k),
            None => if ord.last() == c { Some(ord.len() - 1) } else { None },
        }
    }
}

/// The column order after dropping column `src` at the edge `to` (an
/// index into the order as shown, before `src` is taken out; its own place
/// when no edge was shown). Unchanged when `src` is not in the order.
pub open spec fn moved_column(ord: Seq<usize>, src: usize, to: Option<usize>) -> Seq<usize> {
    match position_of(ord, src) {
        None => ord,
        Some(from) => {
            let edge0: int = match to {
                Some(t) => t as int,
                None => from,
            };
            let edge = if edge0 > from { edge0 - 1 } else { edge0 };
            let rest = ord.remove(from);
            rest.insert(if edge < rest.len() { edge } else { rest.len() as int }, ord[from])
        }
    }
}

proof fn lemma_position_bound(ord: Seq<usize>, c: usize)
    ensures
        position_of(ord, c) matches Some(k) ==> 0 <= k < ord.len() && ord[k] == c,
    decreases ord.len(),
{
    if ord.len() > 0 {
        lemma_position_bound(ord.drop_last(), c);
    }
}

/// The column order after a column was dragged and dropped (see
/// `moved_column`).
pub fn move_column(ord: &Vec<usize>, src: usize, to: Option<usize>) -> (v: Vec<usize>)
    ensures
        v@ == moved_column(ord@, src, to),
{
    let mut from: Option<usize> = None;
    let mut k: usize = 0;
    while k < ord.len()
        invariant
            k <= ord@.len(),
            from is None ==> position_of(ord@.take(k as int), src) is None,
            from matches Some(f) ==> position_of(ord@, src) == Some(f as int),
        decreases ord@.len() - k,
    {
        assert(ord@.take(k + 1).drop_last() =~= ord@.take(k as int));
        if from.is_none() && ord[k] == src {
            from = Some(k);
            proof {
                lemma_position_prefix(ord@, src, k + 1);
            }
        }
        k = k + 1;
    }
    assert(ord@.take(k as int) =~= ord@);
    proof {
        lemma_position_bound(ord@, src);
    }
    match from {
        None => ord.clone(),
        Some(f) => {
            let edge0: usize = match to {
                Some(t) => t,
                None => f,
            };
            let edge: usize = if edge0 > f { edge0 - 1 } else { edge0 };
            let mut v = ord.clone();
            let moved = v.remove(f);
            let at: usize = if edge < v.len() { edge } else { v.len() };
            v.insert(at, moved);
            v
        },
    }
}

proof fn lemma_position_prefix(ord: Seq<usize>, c: usize, j: int)
    requires
        0 < j <= ord.len(),
        position_of(ord.take(j), c) is Some,
    ensures
        position_of(ord, c) == position_of(ord.take(j), c),
    decreases ord.len() - j,
{
    if j < ord.len() {
        assert(ord.take(j + 1).drop_last() =~= ord.take(j));
        lemma_position_prefix(ord, c, j + 1);
    } else {
        assert(ord.take(j) =~= ord);
    }
}

/// Moving a column keeps the same columns: the new order holds each column
/// as often as the old one.
pub proof fn moved_column_keeps_columns(ord: Seq<usize>, src: usize, to: Option<usize>)
    ensures
        moved_column(ord, src, to).to_multiset() == ord.to_multiset(),
{
    broadcast use vstd::seq_lib::to_multiset_remove, vstd::seq_lib::to_multiset_insert, vstd::seq_lib::to_multiset_contains;
    broadcast use vstd::multiset::group_multiset_axioms;
    lemma_position_bound(ord, src);
    if let Some(from) = position_of(ord, src) {
        let rest = ord.remove(from);
        let x = ord[from];
        assert(rest.to_multiset() == ord.to_multiset().remove(x));
        assert(ord.contains(x));
        assert(ord.to_multiset().count(x) > 0);
        assert(ord.to_multiset().remove(x).insert(x) =~= ord.to_multiset());
    }
}

} // verus!
