//! Cached tables: a data set is an optional header row and the data rows,
//! kept as comma-separated text with the header row first; the current
//! season is kept as its decimal number.

use vstd::prelude::*;
use crate::text::{
    chars_of, decimal, decimal_vec, lower_seq, lower_vec, opt_texts, parse_u32, parse_u32_spec, seq_eq,
    string_of, trim, trim_vec,
};
use crate::file::{parse_rows, parse_rows_spec, push_row, row_text, rows_text, rows_text_vec, storable_row, written_rows_read_back};
use crate::config::options::PageKind;
use crate::gui::pages::{default_headers_for, default_headers_spec, filter_rows_for, filtered_rows};
use crate::config::consts::STORE_SEP;

verus! {

/// An optional header row and the data rows of one page.
#[derive(Clone, Debug)]
pub struct DataSet {
    pub headers: Option<Vec<String>>,
    pub rows: Vec<Vec<String>>,
}

impl DataSet {
    pub open spec fn headers_view(&self) -> Option<Seq<Seq<char>>> {
        opt_texts(self.headers)
    }

    pub open spec fn rows_view(&self) -> Seq<Seq<Seq<char>>> {
        self.rows.deep_view()
    }

    /// Position of the first header equal to `name` ignoring ASCII case.
    pub fn header_index(&self, name: &str) -> (r: Option<usize>)
        ensures
            match self.headers_view() {
                None => r is None,
                Some(h) => match r {
                    Some(k) => k < h.len() && lower_seq(h[k as int]) == lower_seq(name@)
                        && forall|j: int| 0 <= j < k ==> lower_seq(#[trigger] h[j]) != lower_seq(name@),
                    None => forall|j: int| 0 <= j < h.len() ==> lower_seq(#[trigger] h[j]) != lower_seq(name@),
                },
            },
    {
        match &self.headers {
            None => None,
            Some(h) => {
                let key = lower_vec(&chars_of(name));
                let mut k: usize = 0;
                while k < h.len()
                    invariant
                        k <= h@.len(),
                        key@ == lower_seq(name@),
                        self.headers_view() == Some(h.deep_view()),
                        forall|j: int| 0 <= j < k ==> lower_seq(#[trigger] h.deep_view()[j]) != lower_seq(name@),
                    decreases h@.len() - k,
                {
                    assert(h.deep_view()[k as int] == h@[k as int]@);
                    if seq_eq(&lower_vec(&chars_of(h[k].as_str())), &key) {
                        return Some(k);
                    }
                    k = k + 1;
                }
                None
            },
        }
    }

    /// Number of data rows.
    pub fn row_count(&self) -> (n: usize)
        ensures
            n == self.rows@.len(),
    {
        self.rows.len()
    }

    /// Number of headers (0 without a header row).
    pub fn header_count(&self) -> (n: usize)
        ensures
            n == match self.headers_view() {
                Some(h) => h.len(),
                None => 0,
            },
    {
        match &self.headers {
            Some(h) => h.len(),
            None => 0,
        }
    }

    /// Positions of the rows that page `kind` shows for the selection, each
    /// row judged on its own.
    pub fn indexes_filtered_by_selection(&self, kind: PageKind, selected_team_ids: &[u32], teams: &[(u32, String)]) -> (v: Vec<usize>)
        ensures
            v@ == rows_shown_alone(kind, selected_team_ids@, teams.deep_view(), self.rows_view(), 0),
    {
        let ghost rows = self.rows_view();
        let mut ix: Vec<usize> = Vec::new();
        let mut i: usize = 0;
        while i < self.rows.len()
            invariant
                i <= rows.len(),
                rows == self.rows_view(),
                rows_shown_alone(kind, selected_team_ids@, teams.deep_view(), rows, 0) == ix@ + rows_shown_alone(
                    kind,
                    selected_team_ids@,
                    teams.deep_view(),
                    rows,
                    i as int,
                ),
            decreases rows.len() - i,
        {
            let mut one: Vec<Vec<String>> = Vec::new();
            one.push(crate::data::copy_row(&self.rows[i]));
            assert(one.deep_view() =~= seq![rows[i as int]]);
            let kept = filter_rows_for(kind, selected_team_ids, teams, &one);
            let ghost before = ix@;
            if kept.len() > 0 {
                ix.push(i);
            }
            assert(before + rows_shown_alone(kind, selected_team_ids@, teams.deep_view(), rows, i as int) =~= ix@
                + rows_shown_alone(kind, selected_team_ids@, teams.deep_view(), rows, i + 1));
            i = i + 1;
        }
        assert(ix@ + rows_shown_alone(kind, selected_team_ids@, teams.deep_view(), rows, i as int) =~= ix@);
        ix
    }

    /// The header row, or page `kind`'s default headers without one.
    pub fn headers_or_defaults(&self, kind: PageKind) -> (r: Option<Vec<String>>)
        ensures
            opt_texts(r) == (if self.headers is Some { self.headers_view() } else { default_headers_spec(kind) }),
    {
        match &self.headers {
            Some(h) => Some(crate::data::copy_row(h)),
            None => default_headers_for(kind),
        }
    }

    /// The rows that page `kind` shows for the selection.
    pub fn rows_filtered_by_selection(&self, kind: PageKind, selected_team_ids: &[u32], teams: &[(u32, String)]) -> (v: Vec<Vec<String>>)
        ensures
            v.deep_view() == filtered_rows(kind, selected_team_ids@, teams.deep_view(), self.rows_view()),
    {
        filter_rows_for(kind, selected_team_ids, teams, &self.rows)
    }
}

/// Positions (from `k` on) of the rows that page `kind` shows for the
/// selection when each is filtered alone.
pub open spec fn rows_shown_alone(kind: PageKind, ids: Seq<u32>, teams: Seq<(u32, Seq<char>)>, rows: Seq<Seq<Seq<char>>>, k: int) -> Seq<usize>
    decreases rows.len() - k,
{
    if k < 0 || k >= rows.len() {
        Seq::empty()
    } else {
        (if filtered_rows(kind, ids, teams, seq![rows[k]]).len() > 0 { seq![k as usize] } else { Seq::empty() })
            + rows_shown_alone(kind, ids, teams, rows, k + 1)
    }
}

/* ---------------- cache text ---------------- */

/// A data set as cached: its header row (when present), then its rows.
pub open spec fn dataset_text(headers: Option<Seq<Seq<char>>>, rows: Seq<Seq<Seq<char>>>) -> Seq<char> {
    match headers {
        Some(h) => row_text(h, STORE_SEP) + rows_text(rows, STORE_SEP),
        None => rows_text(rows, STORE_SEP),
    }
}

/// A data set read from cached text: the first row is the header row.
pub open spec fn dataset_of_text(text: Seq<char>) -> (Option<Seq<Seq<char>>>, Seq<Seq<Seq<char>>>) {
    let rows = parse_rows_spec(text, STORE_SEP);
    if rows.len() > 0 { (Some(rows[0]), rows.drop_first()) } else { (None, rows) }
}

/// The cached text of a data set.
pub fn dataset_to_text(ds: &DataSet) -> (s: String)
    ensures
        s@ == dataset_text(ds.headers_view(), ds.rows_view()),
{
    let mut v: Vec<char> = Vec::new();
    match &ds.headers {
        Some(h) => {
            push_row(&mut v, h.as_slice(), STORE_SEP);
        },
        None => {},
    }
    let body = rows_text_vec(ds.rows.as_slice(), STORE_SEP);
    crate::text::push_all(&mut v, &body);
    string_of(&v)
}

/// The data set held by cached text.
pub fn dataset_from_text(text: &str) -> (ds: DataSet)
    ensures
        (ds.headers_view(), ds.rows_view()) == dataset_of_text(text@),
{
    let mut rows = parse_rows(text, STORE_SEP);
    let ghost all = rows.deep_view();
    let headers = if rows.len() > 0 {
        let h = rows.remove(0);
        assert(rows.deep_view() =~= all.drop_first());
        Some(h)
    } else {
        None
    };
    DataSet { headers, rows }
}

proof fn lemma_rows_text_concat(h: Seq<Seq<char>>, rows: Seq<Seq<Seq<char>>>, sep: char)
    ensures
        rows_text(seq![h] + rows, sep) == row_text(h, sep) + rows_text(rows, sep),
{
    assert((seq![h] + rows).drop_first() =~= rows);
    assert((seq![h] + rows)[0] == h);
}

/// A data set with a header row, whose header row and rows each have a
/// field and are not a lone empty field, reads back from its cached text
/// as it was.
pub proof fn cached_dataset_reads_back(h: Seq<Seq<char>>, rows: Seq<Seq<Seq<char>>>)
    requires
        storable_row(h),
        forall|i: int| 0 <= i < rows.len() ==> #[trigger] storable_row(rows[i]),
    ensures
        dataset_of_text(dataset_text(Some(h), rows)) == (Some(h), rows),
{
    let all = seq![h] + rows;
    assert forall|i: int| 0 <= i < all.len() implies #[trigger] storable_row(all[i]) by {
        if i > 0 {
            assert(all[i] == rows[i - 1]);
        }
    }
    lemma_rows_text_concat(h, rows, STORE_SEP);
    written_rows_read_back(all, STORE_SEP);
    assert(all.drop_first() =~= rows);
}

/// File name of a page's cache.
pub open spec fn page_filename_spec(kind: PageKind) -> Seq<char> {
    match kind {
        PageKind::Teams => "teams"@,
        PageKind::Players => "players"@,
        PageKind::SeasonStats => "season_stats"@,
        PageKind::CareerStats => "career_stats"@,
        PageKind::Injuries => "injuries"@,
        PageKind::GameResults => "game_results"@,
    }
}

/// File name of a page's cache.
pub fn page_filename(kind: &PageKind) -> (r: &'static str)
    ensures
        r@ == page_filename_spec(*kind),
{
    match kind {
        PageKind::Teams => "teams",
        PageKind::Players => "players",
        PageKind::SeasonStats => "season_stats",
        PageKind::CareerStats => "career_stats",
        PageKind::Injuries => "injuries",
        PageKind::GameResults => "game_results",
    }
}

/// Path of the season file: `.store/season`.
pub fn season_path() -> (r: String)
    ensures
        r@ == crate::base::paths::join_spec(crate::config::consts::STORE_DIR@, "season"@),
{
    crate::base::paths::join_path(crate::config::consts::STORE_DIR, "season")
}

/// Text stored for a season number.
pub fn season_text(season: u32) -> (s: String)
    ensures
        s@ == decimal(season as nat),
{
    string_of(&decimal_vec(season as u64))
}

/// Season read from stored text: the trimmed text as a number, if it is one.
pub fn parse_season(text: &str) -> (r: Option<u32>)
    ensures
        r == parse_u32_spec(trim(text@)),
{
    parse_u32(&trim_vec(&chars_of(text)))
}

pub proof fn lemma_decimal_value(n: nat)
    ensures
        crate::text::digits_value(decimal(n)) == n,
        crate::text::all_digits(decimal(n)),
        decimal(n).len() > 0,
    decreases n,
{
    crate::text::lemma_decimal_digits(n);
    let c = crate::text::digit_char(n % 10);
    assert(c as u32 == 48 + n % 10);
    assert(crate::text::digit_value(c) == n % 10);
    if n >= 10 {
        lemma_decimal_value(n / 10);
        assert(decimal(n).drop_last() =~= decimal(n / 10));
        assert(decimal(n).last() == c);
        assert(n == (n / 10) * 10 + n % 10) by (nonlinear_arith);
        assert(crate::text::digits_value(decimal(n)) == crate::text::digits_value(decimal(n / 10)) * 10
            + crate::text::digit_value(c));
    } else {
        assert(decimal(n).drop_last() =~= Seq::<char>::empty());
        assert(decimal(n).last() == c);
        assert(n % 10 == n);
        assert(crate::text::digits_value(decimal(n)) == crate::text::digits_value(decimal(n).drop_last()) * 10
            + crate::text::digit_value(c));
        assert(crate::text::digits_value(Seq::<char>::empty()) == 0);
    }
}

/// A stored season reads back as the same number.
pub proof fn stored_season_reads_back(season: u32)
    ensures
        parse_u32_spec(trim(decimal(season as nat))) == Some(season),
{
    lemma_decimal_value(season as nat);
    let d = decimal(season as nat);
    assert(crate::text::is_digit(d[0]));
    assert(crate::text::is_digit(d.last()));
    crate::text::lemma_trim_plain(d);
}

} // verus!
