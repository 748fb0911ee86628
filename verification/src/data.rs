//! Canonical page data and the filtered views shown for a team selection.

use vstd::prelude::*;
use crate::text::{chars_of, seq_eq};
use crate::store::DataSet;
use crate::config::options::PageKind;

verus! {

/* ---------------- team selection ---------------- */

/// Name of the first team with id `id`.
pub open spec fn team_name_of(teams: Seq<(u32, Seq<char>)>, id: u32) -> Option<Seq<char>>
    decreases teams.len(),
{
    if teams.len() == 0 {
        None
    } else if teams[0].0 == id {
        Some(teams[0].1)
    } else {
        team_name_of(teams.drop_first(), id)
    }
}

/// `name` names a selected team: some selected id's first team has it.
pub open spec fn is_selected_name(name: Seq<char>, ids: Seq<u32>, teams: Seq<(u32, Seq<char>)>) -> bool {
    exists|k: int| 0 <= k < ids.len() && #[trigger] team_name_of(teams, ids[k]) == Some(name)
}

/// Cell `col` of `r` exists and names a selected team.
pub open spec fn cell_selected(r: Seq<Seq<char>>, col: int, ids: Seq<u32>, teams: Seq<(u32, Seq<char>)>) -> bool {
    0 <= col < r.len() && is_selected_name(r[col], ids, teams)
}

/// The row belongs to the selection by one of its team columns.
pub open spec fn row_selected(r: Seq<Seq<char>>, cols: Seq<int>, ids: Seq<u32>, teams: Seq<(u32, Seq<char>)>) -> bool {
    exists|c: int| 0 <= c < cols.len() && #[trigger] cell_selected(r, cols[c], ids, teams)
}

/// Positions (from `k` on) of the rows that belong to the selection.
pub open spec fn selected_indices(rows: Seq<Seq<Seq<char>>>, cols: Seq<int>, ids: Seq<u32>, teams: Seq<(u32, Seq<char>)>, k: int) -> Seq<usize>
    decreases rows.len() - k,
{
    if k < 0 || k >= rows.len() {
        Seq::empty()
    } else {
        (if row_selected(rows[k], cols, ids, teams) { seq![k as usize] } else { Seq::empty() }) + selected_indices(
            rows,
            cols,
            ids,
            teams,
            k + 1,
        )
    }
}

/// The rows (from `k` on) that belong to the selection.
pub open spec fn selected_rows(rows: Seq<Seq<Seq<char>>>, cols: Seq<int>, ids: Seq<u32>, teams: Seq<(u32, Seq<char>)>, k: int) -> Seq<Seq<Seq<char>>>
    decreases rows.len() - k,
{
    if k < 0 || k >= rows.len() {
        Seq::empty()
    } else {
        (if row_selected(rows[k], cols, ids, teams) { seq![rows[k]] } else { Seq::empty() }) + selected_rows(
            rows,
            cols,
            ids,
            teams,
            k + 1,
        )
    }
}

/// Name of the first team with id `id`.
pub fn team_name_for(teams: &[(u32, String)], id: u32) -> (r: Option<Vec<char>>)
    ensures
        crate::text::opt_chars(r) == team_name_of(teams.deep_view(), id),
{
    let mut k: usize = 0;
    assert(teams.deep_view().skip(0) =~= teams.deep_view());
    while k < teams.len()
        invariant
            k <= teams@.len(),
            team_name_of(teams.deep_view(), id) == team_name_of(teams.deep_view().skip(k as int), id),
        decreases teams@.len() - k,
    {
        assert(teams.deep_view()[k as int] == (teams@[k as int].0, teams@[k as int].1@));
        assert(teams.deep_view().skip(k as int)[0] == teams.deep_view()[k as int]);
        assert(teams.deep_view().skip(k as int).drop_first() =~= teams.deep_view().skip(k + 1));
        if teams[k].0 == id {
            return Some(chars_of(teams[k].1.as_str()));
        }
        k = k + 1;
    }
    None
}

/// Whether `name` names a selected team.
pub fn name_is_selected(name: &[char], ids: &[u32], teams: &[(u32, String)]) -> (b: bool)
    ensures
        b == is_selected_name(name@, ids@, teams.deep_view()),
{
    let mut k: usize = 0;
    while k < ids.len()
        invariant
            k <= ids@.len(),
            forall|j: int| 0 <= j < k ==> #[trigger] team_name_of(teams.deep_view(), ids@[j]) != Some(name@),
        decreases ids@.len() - k,
    {
        match team_name_for(teams, ids[k]) {
            Some(n) => {
                if seq_eq(&n, name) {
                    assert(team_name_of(teams.deep_view(), ids@[k as int]) == Some(name@));
                    return true;
                }
            },
            None => {},
        }
        k = k + 1;
    }
    false
}

/// Whether row `r` belongs to the selection by one of the columns `cols`.
pub fn row_is_selected(r: &Vec<String>, cols: &[usize], ids: &[u32], teams: &[(u32, String)]) -> (b: bool)
    ensures
        b == row_selected(r.deep_view(), cols@.map_values(|c: usize| c as int), ids@, teams.deep_view()),
{
    let ghost cs = cols@.map_values(|c: usize| c as int);
    let mut k: usize = 0;
    while k < cols.len()
        invariant
            k <= cols@.len(),
            cs == cols@.map_values(|c: usize| c as int),
            forall|j: int| 0 <= j < k ==> !#[trigger] cell_selected(r.deep_view(), cs[j], ids@, teams.deep_view()),
        decreases cols@.len() - k,
    {
        let c = cols[k];
        assert(cs[k as int] == c as int);
        if c < r.len() {
            assert(r.deep_view()[c as int] == r@[c as int]@);
            if name_is_selected(&chars_of(r[c].as_str()), ids, teams) {
                assert(cell_selected(r.deep_view(), cs[k as int], ids@, teams.deep_view()));
                return true;
            }
        }
        k = k + 1;
    }
    false
}

/// Positions of the rows that belong to the selection.
pub fn selected_row_indices(rows: &Vec<Vec<String>>, cols: &[usize], ids: &[u32], teams: &[(u32, String)]) -> (v: Vec<usize>)
    ensures
        v@ == selected_indices(rows.deep_view(), cols@.map_values(|c: usize| c as int), ids@, teams.deep_view(), 0),
{
    let ghost cs = cols@.map_values(|c: usize| c as int);
    let mut v: Vec<usize> = Vec::new();
    let mut k: usize = 0;
    while k < rows.len()
        invariant
            k <= rows@.len(),
            cs == cols@.map_values(|c: usize| c as int),
            selected_indices(rows.deep_view(), cs, ids@, teams.deep_view(), 0) == v@ + selected_indices(
                rows.deep_view(),
                cs,
                ids@,
                teams.deep_view(),
                k as int,
            ),
        decreases rows@.len() - k,
    {
        assert(rows.deep_view()[k as int] == rows@[k as int].deep_view());
        let ghost before = v@;
        if row_is_selected(&rows[k], cols, ids, teams) {
            v.push(k);
        }
        assert(before + selected_indices(rows.deep_view(), cs, ids@, teams.deep_view(), k as int) =~= v@
            + selected_indices(rows.deep_view(), cs, ids@, teams.deep_view(), k + 1));
        k = k + 1;
    }
    assert(v@ + selected_indices(rows.deep_view(), cs, ids@, teams.deep_view(), k as int) =~= v@);
    v
}

/// The rows that belong to the selection.
pub fn selected_row_copies(rows: &Vec<Vec<String>>, cols: &[usize], ids: &[u32], teams: &[(u32, String)]) -> (v: Vec<Vec<String>>)
    ensures
        v.deep_view() == selected_rows(rows.deep_view(), cols@.map_values(|c: usize| c as int), ids@, teams.deep_view(), 0),
{
    let ghost cs = cols@.map_values(|c: usize| c as int);
    let mut v: Vec<Vec<String>> = Vec::new();
    let mut k: usize = 0;
    while k < rows.len()
        invariant
            k <= rows@.len(),
            cs == cols@.map_values(|c: usize| c as int),
            selected_rows(rows.deep_view(), cs, ids@, teams.deep_view(), 0) == v.deep_view() + selected_rows(
                rows.deep_view(),
                cs,
                ids@,
                teams.deep_view(),
                k as int,
            ),
        decreases rows@.len() - k,
    {
        assert(rows.deep_view()[k as int] == rows@[k as int].deep_view());
        let ghost before = v.deep_view();
        if row_is_selected(&rows[k], cols, ids, teams) {
            let r = copy_row(&rows[k]);
            v.push(r);
            assert(v.deep_view() =~= before.push(rows.deep_view()[k as int]));
        }
        assert(before + selected_rows(rows.deep_view(), cs, ids@, teams.deep_view(), k as int) =~= v.deep_view()
            + selected_rows(rows.deep_view(), cs, ids@, teams.deep_view(), k + 1));
        k = k + 1;
    }
    assert(v.deep_view() + selected_rows(rows.deep_view(), cs, ids@, teams.deep_view(), k as int) =~= v.deep_view());
    v
}

/// A copy of a row.
pub fn copy_row(r: &Vec<String>) -> (c: Vec<String>)
    ensures
        c.deep_view() == r.deep_view(),
{
    let mut c: Vec<String> = Vec::new();
    let mut i: usize = 0;
    while i < r.len()
        invariant
            i <= r@.len(),
            c.deep_view() == r.deep_view().take(i as int),
        decreases r@.len() - i,
    {
        let s = crate::text::string_of(&chars_of(r[i].as_str()));
        let ghost prev = c.deep_view();
        c.push(s);
        assert(c.deep_view() =~= prev.push(r@[i as int]@));
        assert(r.deep_view().take(i + 1) =~= r.deep_view().take(i as int).push(r@[i as int]@));
        i = i + 1;
    }
    assert(r.deep_view().take(i as int) =~= r.deep_view());
    c
}

/// A copy of a list of rows.
pub fn copy_rows(rows: &Vec<Vec<String>>) -> (c: Vec<Vec<String>>)
    ensures
        c.deep_view() == rows.deep_view(),
{
    let mut c: Vec<Vec<String>> = Vec::new();
    let mut i: usize = 0;
    while i < rows.len()
        invariant
            i <= rows@.len(),
            c.deep_view() == rows.deep_view().take(i as int),
        decreases rows@.len() - i,
    {
        let r = copy_row(&rows[i]);
        let ghost prev = c.deep_view();
        c.push(r);
        assert(c.deep_view() =~= prev.push(rows@[i as int].deep_view()));
        assert(rows.deep_view().take(i + 1) =~= rows.deep_view().take(i as int).push(rows@[i as int].deep_view()));
        i = i + 1;
    }
    assert(rows.deep_view().take(i as int) =~= rows.deep_view());
    c
}

/// A copy of an optional list of texts.
pub fn copy_opt_texts(h: &Option<Vec<String>>) -> (c: Option<Vec<String>>)
    ensures
        crate::text::opt_texts(c) == crate::text::opt_texts(*h),
{
    match h {
        Some(v) => Some(copy_row(v)),
        None => None,
    }
}

/// Positions `0..n`.
pub fn all_indices(n: usize) -> (v: Vec<usize>)
    ensures
        v@.len() == n,
        forall|i: int| 0 <= i < n ==> v@[i] == i,
{
    let mut v: Vec<usize> = Vec::new();
    let mut i: usize = 0;
    while i < n
        invariant
            i <= n,
            v@.len() == i,
            forall|j: int| 0 <= j < i ==> v@[j] == j,
        decreases n - i,
    {
        v.push(i);
        i = i + 1;
    }
    v
}

/// The selected team ids and the team list they refer to.
#[derive(Clone, Copy)]
pub struct Selection<'a> {
    pub ids: &'a [u32],
    pub teams: &'a [(u32, String)],
}

impl<'a> Selection<'a> {
    /// Nothing selected.
    pub fn is_none(&self) -> (b: bool)
        ensures
            b == (self.ids@.len() == 0),
    {
        self.ids.len() == 0
    }

    /// As many ids selected as there are teams.
    pub fn is_all(&self) -> (b: bool)
        ensures
            b == (self.ids@.len() == self.teams@.len()),
    {
        self.ids.len() == self.teams.len()
    }

    /// One bit per selected id below 32 (bit `id` set); other ids are ignored.
    pub fn to_key_mask(&self) -> (m: u32)
        ensures
            forall|b: u32| b < 32 ==> (#[trigger] ((m >> b) & 1u32) == 1u32 <==> self.ids@.contains(b)),
    {
        let mut mask: u32 = 0;
        let mut k: usize = 0;
        assert forall|b: u32| b < 32 implies (#[trigger] ((mask >> b) & 1u32) == 1u32 <==> self.ids@.take(0).contains(b)) by {
            assert(((0u32 >> b) & 1u32) == 0u32) by (bit_vector);
        }
        while k < self.ids.len()
            invariant
                k <= self.ids@.len(),
                forall|b: u32| b < 32 ==> (#[trigger] ((mask >> b) & 1u32) == 1u32 <==> self.ids@.take(k as int).contains(b)),
            decreases self.ids@.len() - k,
        {
            let id = self.ids[k];
            let old_mask = mask;
            if id < 32 {
                mask = mask | (1u32 << id);
            }
            assert(self.ids@.take(k + 1) =~= self.ids@.take(k as int).push(id));
            assert forall|b: u32| b < 32 implies (#[trigger] ((mask >> b) & 1u32) == 1u32 <==> self.ids@.take(k + 1).contains(b)) by {
                if id < 32 {
                    assert(((old_mask | (1u32 << id)) >> b) & 1u32 == (if b == id { 1u32 } else { (old_mask >> b) & 1u32 })) by (bit_vector)
                        requires
                            b < 32,
                            id < 32,
                    ;
                }
                if self.ids@.take(k as int).contains(b) {
                    let j = choose|j: int| 0 <= j < k && #[trigger] self.ids@.take(k as int)[j] == b;
                    assert(self.ids@.take(k + 1)[j] == b);
                }
                if self.ids@.take(k + 1).contains(b) && b != id {
                    let j = choose|j: int| 0 <= j < k + 1 && #[trigger] self.ids@.take(k + 1)[j] == b;
                    assert(self.ids@.take(k as int)[j] == b);
                }
                if b == id {
                    assert(self.ids@.take(k + 1)[k as int] == b);
                }
            }
            k = k + 1;
        }
        assert(self.ids@.take(k as int) =~= self.ids@);
        mask
    }
}

/* ---------------- canonical data ---------------- */

/// The canonical data of one page (cache, then scrapes).
#[derive(Clone, Debug)]
pub struct RawData {
    kind: PageKind,
    ds: DataSet,
}

impl RawData {
    pub closed spec fn page(&self) -> PageKind {
        self.kind
    }

    pub closed spec fn data(&self) -> DataSet {
        self.ds
    }

    pub fn new(kind: PageKind, ds: DataSet) -> (r: RawData)
        ensures
            r.page() == kind,
            r.data() == ds,
    {
        RawData { kind, ds }
    }

    pub fn kind(&self) -> (k: PageKind)
        ensures
            k == self.page(),
    {
        self.kind
    }

    /// The data set, read only.
    pub fn dataset(&self) -> (d: &DataSet)
        ensures
            *d == self.data(),
    {
        &self.ds
    }

    /// The data set for the cache writer.
    pub fn dataset_mut_for_io(&mut self) -> (d: &mut DataSet)
        ensures
            *d == old(self).data(),
            final(self).data() == *final(d),
            final(self).page() == old(self).page(),
    {
        &mut self.ds
    }

    /// The text to cache for this data (the caller writes it to the page's file).
    pub fn save(&self) -> (s: String)
        ensures
            s@ == crate::store::dataset_text(self.data().headers_view(), self.data().rows_view()),
    {
        crate::store::dataset_to_text(&self.ds)
    }

    /// Merge newly scraped data with the page's rule (the only change the
    /// data sees besides the cache writer).
    pub fn merge_from_scrape(&mut self, new: DataSet)
        ensures
            final(self).page() == old(self).page(),
            crate::gui::pages::merged(old(self).page(), old(self).data(), new, final(self).data()),
    {
        crate::gui::pages::merge_for(self.kind, &mut self.ds, new);
    }
}

/// Positions of the rows of a raw data set shown for a selection.
pub struct SelectionView<'a> {
    pub row_ix: Vec<usize>,
    raw: &'a DataSet,
}

impl<'a> SelectionView<'a> {
    pub closed spec fn source(&self) -> DataSet {
        *self.raw
    }

    /// Positions of the shown rows.
    pub closed spec fn indices(&self) -> Seq<usize> {
        self.row_ix@
    }

    /// The rows of `raw` shown on `page` for `sel`: none when nothing is
    /// selected, all when every team is, else the page's own filter.
    pub fn from_raw(page: PageKind, raw: &'a RawData, sel: Selection<'_>) -> (v: SelectionView<'a>)
        ensures
            v.source() == raw.data(),
            sel.ids@.len() == 0 ==> v.indices().len() == 0,
            sel.ids@.len() != 0 && sel.ids@.len() == sel.teams@.len() ==> v.indices().len() == raw.data().rows@.len()
                && forall|i: int| 0 <= i < v.indices().len() ==> v.indices()[i] == i,
            sel.ids@.len() != 0 && sel.ids@.len() != sel.teams@.len() ==> v.indices() == selected_indices(
                raw.data().rows.deep_view(),
                crate::gui::pages::team_columns(page),
                sel.ids@,
                sel.teams.deep_view(),
                0,
            ),
    {
        let ds = raw.dataset();
        if sel.is_none() {
            return SelectionView { row_ix: Vec::new(), raw: ds };
        }
        if sel.is_all() {
            return SelectionView { row_ix: all_indices(ds.rows.len()), raw: ds };
        }
        let ix = crate::gui::pages::filter_row_indices_for(page, sel.ids, sel.teams, &ds.rows);
        SelectionView { row_ix: ix, raw: ds }
    }

    /// Number of rows shown.
    pub fn len(&self) -> (n: usize)
        ensures
            n == self.indices().len(),
    {
        self.row_ix.len()
    }

    pub fn is_empty(&self) -> (b: bool)
        ensures
            b == (self.indices().len() == 0),
    {
        self.row_ix.len() == 0
    }

    /// The `i`-th shown row.
    pub fn row(&self, i: usize) -> (r: Option<&[String]>)
        ensures
            match r {
                Some(row) => i < self.indices().len() && self.indices()[i as int] < self.source().rows@.len()
                    && row@ == self.source().rows@[self.indices()[i as int] as int]@,
                None => i >= self.indices().len() || self.indices()[i as int] >= self.source().rows@.len(),
            },
    {
        if i < self.row_ix.len() {
            let ix = self.row_ix[i];
            if ix < self.raw.rows.len() {
                return Some(self.raw.rows[ix].as_slice());
            }
        }
        None
    }

    /// The shown rows, copied.
    pub fn to_owned_rows(&self) -> (v: Vec<Vec<String>>)
        requires
            forall|i: int| 0 <= i < self.indices().len() ==> #[trigger] self.indices()[i] < self.source().rows@.len(),
        ensures
            v@.len() == self.indices().len(),
            forall|i: int| 0 <= i < v@.len() ==> #[trigger] v@[i].deep_view() == self.source().rows@[self.indices()[i] as int].deep_view(),
    {
        let mut v: Vec<Vec<String>> = Vec::new();
        let mut i: usize = 0;
        while i < self.row_ix.len()
            invariant
                i <= self.row_ix@.len(),
                v@.len() == i,
                forall|j: int| 0 <= j < self.indices().len() ==> #[trigger] self.indices()[j] < self.source().rows@.len(),
                forall|j: int| 0 <= j < i ==> #[trigger] v@[j].deep_view() == self.source().rows@[self.indices()[j] as int].deep_view(),
            decreases self.row_ix@.len() - i,
        {
            let ix = self.row_ix[i];
            assert(self.indices()[i as int] < self.source().rows@.len());
            v.push(copy_row(&self.raw.rows[ix]));
            i = i + 1;
        }
        v
    }

    /// A view with positions computed before.
    pub fn from_indices(raw: &'a RawData, row_ix: Vec<usize>) -> (v: SelectionView<'a>)
        ensures
            v.source() == raw.data(),
            v.indices() == row_ix@,
    {
        SelectionView { row_ix, raw: raw.dataset() }
    }
}

} // verus!
