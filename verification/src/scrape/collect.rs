//! Turning fetched pages into the canonical data set of each page kind: the
//! team list, the players of the selected teams (ordered by team id) and
//! the game results.

use vstd::prelude::*;
use crate::text::{chars_of, decimal, decimal_vec, push_all, string_of};
use crate::store::DataSet;
use crate::config::options::TeamSelector;
use crate::scrape::players::RosterBundle;
use crate::scrape::game_results::{schedule_games, season_in_title};
use crate::specs::teams::{is_tidy_of, page_teams, team_row};

verus! {

/// The rows of one team.
pub type TeamRows = (u32, Seq<Seq<Seq<char>>>);

/// The ids a selection stands for: every id of the league for `All`.
pub open spec fn selected_ids(sel: TeamSelector) -> Seq<u32> {
    match sel {
        TeamSelector::All => Seq::new(32, |i: int| i as u32),
        TeamSelector::One(id) => seq![id],
        TeamSelector::Ids(v) => v@,
    }
}

/// The ids that `sel` stands for.
pub fn resolve_ids(sel: &TeamSelector) -> (v: Vec<u32>)
    ensures
        v@ == selected_ids(*sel),
{
    match sel {
        TeamSelector::All => {
            let mut v: Vec<u32> = Vec::new();
            let mut i: u32 = 0;
            while i < 32
                invariant
                    i <= 32,
                    v@ == Seq::new(i as nat, |k: int| k as u32),
                decreases 32 - i,
            {
                v.push(i);
                i = i + 1;
                assert(v@ =~= Seq::new(i as nat, |k: int| k as u32));
            }
            v
        },
        TeamSelector::One(id) => {
            let mut v: Vec<u32> = Vec::new();
            v.push(*id);
            assert(v@ =~= seq![*id]);
            v
        },
        TeamSelector::Ids(l) => {
            let mut v: Vec<u32> = Vec::new();
            let mut i: usize = 0;
            while i < l.len()
                invariant
                    i <= l@.len(),
                    v@ == l@.take(i as int),
                decreases l@.len() - i,
            {
                v.push(l[i]);
                i = i + 1;
                assert(v@ =~= l@.take(i as int));
            }
            assert(l@.take(i as int) =~= l@);
            v
        },
    }
}

/// Where an item with id `id` goes into `s` (sorted by id) so that it comes
/// after every item with the same id.
pub open spec fn insert_pos(s: Seq<TeamRows>, id: u32) -> int
    decreases s.len(),
{
    if s.len() == 0 {
        0
    } else if s.last().0 <= id {
        s.len() as int
    } else {
        insert_pos(s.drop_last(), id)
    }
}

/// `s` sorted by id, items with equal ids kept in their order (a stable
/// sort).
pub open spec fn sorted_by_id(s: Seq<TeamRows>) -> Seq<TeamRows>
    decreases s.len(),
{
    if s.len() == 0 {
        Seq::empty()
    } else {
        let t = sorted_by_id(s.drop_last());
        t.insert(insert_pos(t, s.last().0), s.last())
    }
}

/// The rows of all teams, one team after the other.
pub open spec fn concat_rows(s: Seq<TeamRows>) -> Seq<Seq<Seq<char>>>
    decreases s.len(),
{
    if s.len() == 0 {
        Seq::empty()
    } else {
        concat_rows(s.drop_last()) + s.last().1
    }
}

/// The first header row among the fetched bundles.
pub open spec fn first_headers(s: Seq<(u32, Option<Seq<Seq<char>>>)>) -> Option<Seq<Seq<char>>>
    decreases s.len(),
{
    if s.len() == 0 {
        None
    } else if (s[0].1 is Some) {
        s[0].1
    } else {
        first_headers(s.drop_first())
    }
}

pub open spec fn bundle_rows(fetched: Seq<(u32, RosterBundle)>) -> Seq<TeamRows> {
    fetched.map_values(|x: (u32, RosterBundle)| (x.0, x.1.rows.deep_view()))
}

pub open spec fn bundle_headers(fetched: Seq<(u32, RosterBundle)>) -> Seq<(u32, Option<Seq<Seq<char>>>)> {
    fetched.map_values(|x: (u32, RosterBundle)| (x.0, crate::text::opt_texts(x.1.headers)))
}

proof fn lemma_insert_pos_bound(s: Seq<TeamRows>, id: u32)
    ensures
        0 <= insert_pos(s, id) <= s.len(),
    decreases s.len(),
{
    if s.len() > 0 {
        lemma_insert_pos_bound(s.drop_last(), id);
    }
}

proof fn lemma_sorted_len(s: Seq<TeamRows>)
    ensures
        sorted_by_id(s).len() == s.len(),
    decreases s.len(),
{
    if s.len() > 0 {
        lemma_sorted_len(s.drop_last());
        lemma_insert_pos_bound(sorted_by_id(s.drop_last()), s.last().0);
    }
}

/// Where to insert an item with id `id` into `v`.
fn insert_pos_exec(v: &Vec<(u32, Vec<Vec<String>>)>, id: u32) -> (k: usize)
    ensures
        k == insert_pos(v.deep_view(), id),
        k <= v@.len(),
{
    let ghost dv = v.deep_view();
    let mut j: usize = v.len();
    assert(dv.take(j as int) =~= dv);
    while j > 0
        invariant
            j <= v@.len(),
            dv == v.deep_view(),
            insert_pos(dv, id) == insert_pos(dv.take(j as int), id),
        decreases j,
    {
        assert(dv.take(j as int).drop_last() =~= dv.take(j - 1));
        assert(dv[j - 1].0 == v@[j - 1].0);
        if v[j - 1].0 <= id {
            return j;
        }
        j = j - 1;
    }
    0
}

/// The players of the fetched teams as one data set: the first header row
/// that came, then every team's rows ordered by team id, the rows of teams
/// with equal ids in the order they came.
pub fn collect_players(fetched: Vec<(u32, RosterBundle)>) -> (ds: DataSet)
    ensures
        ds.headers_view() == first_headers(bundle_headers(fetched@)),
        ds.rows_view() == concat_rows(sorted_by_id(bundle_rows(fetched@))),
        (exists|i: int| 0 <= i < fetched@.len() && (#[trigger] fetched@[i]).1.headers is Some) ==> ds.headers is Some,
{
    proof {
        lemma_first_headers_some(bundle_headers(fetched@));
        if exists|i: int| 0 <= i < fetched@.len() && (#[trigger] fetched@[i]).1.headers is Some {
            let i = choose|i: int| 0 <= i < fetched@.len() && (#[trigger] fetched@[i]).1.headers is Some;
            assert(bundle_headers(fetched@)[i].1 is Some);
        }
    }
    let n: usize = fetched.len();
    let ghost input = fetched@;
    let ghost heads = bundle_headers(input);
    let ghost rows_in = bundle_rows(input);
    let mut headers: Option<Vec<String>> = None;
    let mut per_team: Vec<(u32, Vec<Vec<String>>)> = Vec::new();
    let mut rest = fetched;
    assert(per_team.deep_view() =~= sorted_by_id(rows_in.take(0)));
    assert(heads.take(0) =~= Seq::<(u32, Option<Seq<Seq<char>>>)>::empty());
    let mut i: usize = 0;
    while rest.len() > 0
        invariant
            input.len() == i + rest@.len(),
            input.len() == n,
            rest@ == input.skip(i as int),
            heads == bundle_headers(input),
            rows_in == bundle_rows(input),
            per_team.deep_view() == sorted_by_id(rows_in.take(i as int)),
            headers is None ==> first_headers(heads.take(i as int)) is None,
            headers is Some ==> crate::text::opt_texts(headers) == first_headers(heads.take(i as int)),
        decreases rest@.len(),
    {
        let ghost before = rest@;
        let (id, bundle) = rest.remove(0);
        assert(input[i as int] == (id, bundle)) by {
            assert(before[0] == input.skip(i as int)[0]);
        }
        assert(rest@ =~= input.skip(i + 1));
        proof {
            lemma_first_headers_push(heads, i as int);
        }
        if headers.is_none() {
            headers = bundle.headers;
        }
        let ghost sorted_before = per_team.deep_view();
        let k = insert_pos_exec(&per_team, id);
        let item = (id, bundle.rows);
        assert(item.deep_view() == rows_in[i as int]);
        per_team.insert(k, item);
        proof {
            let t = rows_in.take(i + 1);
            assert(t.drop_last() =~= rows_in.take(i as int));
            assert(per_team.deep_view() =~= sorted_before.insert(k as int, rows_in[i as int]));
        }
        i = i + 1;
    }
    assert(rows_in.take(i as int) =~= rows_in);
    assert(heads.take(i as int) =~= heads);
    let mut rows: Vec<Vec<String>> = Vec::new();
    let ghost sorted = per_team.deep_view();
    let mut j: usize = 0;
    while j < per_team.len()
        invariant
            j <= per_team@.len(),
            sorted == per_team.deep_view(),
            rows.deep_view() == concat_rows(sorted.take(j as int)),
        decreases per_team@.len() - j,
    {
        let ghost before = rows.deep_view();
        let team_rows = crate::data::copy_rows(&per_team[j].1);
        let mut m: usize = 0;
        while m < team_rows.len()
            invariant
                m <= team_rows@.len(),
                rows.deep_view() == before + team_rows.deep_view().take(m as int),
            decreases team_rows@.len() - m,
        {
            let ghost b2 = rows.deep_view();
            rows.push(crate::data::copy_row(&team_rows[m]));
            assert(rows.deep_view() =~= b2.push(team_rows.deep_view()[m as int]));
            assert(team_rows.deep_view().take(m + 1) =~= team_rows.deep_view().take(m as int).push(team_rows.deep_view()[m as int]));
            m = m + 1;
        }
        assert(team_rows.deep_view().take(m as int) =~= team_rows.deep_view());
        assert(sorted.take(j + 1).drop_last() =~= sorted.take(j as int));
        assert(sorted[j as int].1 == per_team@[j as int].1.deep_view());
        j = j + 1;
    }
    assert(sorted.take(j as int) =~= sorted);
    DataSet { headers, rows }
}

proof fn lemma_first_headers_some(s: Seq<(u32, Option<Seq<Seq<char>>>)>)
    ensures
        (exists|i: int| 0 <= i < s.len() && (#[trigger] s[i]).1 is Some) ==> first_headers(s) is Some,
    decreases s.len(),
{
    if s.len() > 0 {
        lemma_first_headers_some(s.drop_first());
        if exists|i: int| 0 <= i < s.len() && (#[trigger] s[i]).1 is Some {
            let i = choose|i: int| 0 <= i < s.len() && (#[trigger] s[i]).1 is Some;
            if i > 0 {
                assert(s.drop_first()[i - 1] == s[i]);
            }
        }
    }
}

proof fn lemma_first_headers_push(heads: Seq<(u32, Option<Seq<Seq<char>>>)>, i: int)
    requires
        0 <= i < heads.len(),
    ensures
        first_headers(heads.take(i + 1)) == (if (first_headers(heads.take(i)) is Some) {
            first_headers(heads.take(i))
        } else {
            heads[i].1
        }),
    decreases i,
{
    if i > 0 {
        lemma_first_headers_push(heads.drop_first(), i - 1);
        assert(heads.take(i + 1)[0] == heads[0]);
        assert(heads.take(i)[0] == heads[0]);
        assert(heads.drop_first()[i - 1] == heads[i]);
        assert(heads.take(i + 1).drop_first() =~= heads.drop_first().take(i));
        assert(heads.take(i).drop_first() =~= heads.drop_first().take(i - 1));
        let a = heads.take(i + 1);
        let b = heads.take(i);
        assert(a.len() > 0 && b.len() > 0);
        assert(first_headers(a) == if (a[0].1 is Some) { a[0].1 } else { first_headers(a.drop_first()) });
        assert(first_headers(b) == if (b[0].1 is Some) { b[0].1 } else { first_headers(b.drop_first()) });
        if heads[0].1 is Some {
            assert(first_headers(a) == heads[0].1);
            assert(first_headers(b) == heads[0].1);
        } else {
            assert(first_headers(a) == first_headers(heads.drop_first().take(i)));
            assert(first_headers(b) == first_headers(heads.drop_first().take(i - 1)));
        }
    } else {
        assert(heads.take(1)[0] == heads[0]);
        assert(heads.take(0).len() == 0);
        assert(heads.take(1).drop_first() =~= Seq::<(u32, Option<Seq<Seq<char>>>)>::empty());
        assert(first_headers(heads.take(0)) is None);
        assert(first_headers(heads.take(1).drop_first()) is None);
    }
}

/// The team list read from the league's front page, as a data set.
pub fn collect_teams(html_doc: &str) -> (ds: DataSet)
    ensures
        ds.headers_view() == Some(seq!["Id"@, "Team"@]),
        exists|t: Seq<(u32, Seq<char>)>| #[trigger] is_tidy_of(t, page_teams(html_doc@)) && ds.rows_view() == t.map_values(
            |x: (u32, Seq<char>)| team_row(x),
        ),
{
    let bundle = crate::specs::teams::fetch(html_doc);
    DataSet { headers: bundle.headers, rows: bundle.rows }
}

/// The game results read from the schedule page, as a data set.
pub fn collect_game_results(html_doc: &str) -> (ds: DataSet)
    ensures
        ds.headers is None,
        ds.rows_view() == schedule_games(
            html_doc@,
            match season_in_title(html_doc@, 6) {
                Some(s) => s,
                None => Seq::empty(),
            },
            false,
            0,
        ),
{
    let bundle = crate::scrape::game_results::fetch(html_doc);
    DataSet { headers: bundle.headers, rows: bundle.rows }
}

/// The stand-in team list when none could be loaded: ids `0..32`, each
/// called `Team <id>`.
pub open spec fn stand_in_teams() -> Seq<(u32, Seq<char>)> {
    Seq::new(32, |i: int| (i as u32, "Team "@ + decimal(i as nat)))
}

/// The loaded team list, or the stand-in list where loading failed.
pub fn list_teams(loaded: Result<Vec<(u32, String)>, String>) -> (v: Vec<(u32, String)>)
    ensures
        match loaded {
            Ok(l) => v == l,
            Err(_) => v.deep_view() == stand_in_teams(),
        },
{
    match loaded {
        Ok(l) => l,
        Err(_) => {
            let mut v: Vec<(u32, String)> = Vec::new();
            let mut i: u32 = 0;
            while i < 32
                invariant
                    i <= 32,
                    v.deep_view() == stand_in_teams().take(i as int),
                decreases 32 - i,
            {
                let mut name = chars_of("Team ");
                push_all(&mut name, &decimal_vec(i as u64));
                let item = (i, string_of(&name));
                let ghost before = v.deep_view();
                v.push(item);
                assert(v.deep_view() =~= before.push((i, "Team "@ + decimal(i as nat))));
                i = i + 1;
                assert(stand_in_teams().take(i as int) =~= stand_in_teams().take(i - 1).push(((i - 1) as u32, "Team "@ + decimal((i - 1) as nat))));
            }
            assert(stand_in_teams().take(32) =~= stand_in_teams());
            v
        },
    }
}

/// The team a row of a cached team table names: a first cell that reads
/// as an id (trimmed) and the name in the second cell.
pub open spec fn team_of_row(r: Seq<Seq<char>>) -> Option<(u32, Seq<char>)> {
    if r.len() >= 2 {
        match crate::text::parse_u32_spec(crate::text::trim(r[0])) {
            Some(id) => Some((id, r[1])),
            None => None,
        }
    } else {
        None
    }
}

/// The teams named by the rows, in order; other rows are skipped.
pub open spec fn teams_of_table(rows: Seq<Seq<Seq<char>>>) -> Seq<(u32, Seq<char>)>
    decreases rows.len(),
{
    if rows.len() == 0 {
        Seq::empty()
    } else {
        let rest = teams_of_table(rows.drop_last());
        match team_of_row(rows.last()) {
            Some(t) => rest.push(t),
            None => rest,
        }
    }
}

/// The team list of a cached team table (see `teams_of_table`).
pub fn teams_of_rows(rows: &Vec<Vec<String>>) -> (v: Vec<(u32, String)>)
    ensures
        v.deep_view() == teams_of_table(rows.deep_view()),
{
    let ghost rv = rows.deep_view();
    let mut v: Vec<(u32, String)> = Vec::new();
    let mut i: usize = 0;
    while i < rows.len()
        invariant
            i <= rows@.len(),
            rv == rows.deep_view(),
            v.deep_view() == teams_of_table(rv.take(i as int)),
        decreases rows@.len() - i,
    {
        assert(rv.take(i + 1).drop_last() =~= rv.take(i as int));
        assert(rv.take(i + 1).last() == rv[i as int]);
        assert(rv[i as int] == rows@[i as int].deep_view());
        if rows[i].len() >= 2 {
            assert(rv[i as int][0] == rows@[i as int]@[0]@);
            assert(rv[i as int][1] == rows@[i as int]@[1]@);
            match crate::text::parse_u32(&crate::text::trim_vec(&chars_of(rows[i][0].as_str()))) {
                Some(id) => {
                    let name = string_of(&chars_of(rows[i][1].as_str()));
                    let ghost prev = v.deep_view();
                    v.push((id, name));
                    assert(v.deep_view() =~= prev.push((id, rv[i as int][1])));
                },
                None => {},
            }
        }
        i = i + 1;
    }
    assert(rv.take(i as int) =~= rv);
    v
}

} // verus!
