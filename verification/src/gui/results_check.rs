//! The check that a freshly scraped game results table is a plausible
//! schedule: every row names two different known teams, no game or match id
//! occurs twice, and each team plays exactly once in every week.

use vstd::prelude::*;
use crate::text::{chars_of, decimal, decimal_vec, push_all, seq_eq, string_of, trim, trim_vec};
use crate::store::DataSet;
use crate::gui::pages::GameResultsPage;

verus! {

/// A game already seen: season, week, home team, away team.
pub type SeenGame = (Seq<char>, Seq<char>, Seq<char>, Seq<char>);

/// The teams seen in one week: season, week and one bit per team.
pub type WeekMask = (Seq<char>, Seq<char>, u32);

/// What the check remembers after some rows: the games, the match ids and
/// the week masks, in the order they first occurred.
pub type CheckState = (Seq<SeenGame>, Seq<Seq<char>>, Seq<WeekMask>);

/// The last position of a team called `name`.
pub open spec fn last_team_index(teams: Seq<(u32, Seq<char>)>, name: Seq<char>) -> Option<int>
    decreases teams.len(),
{
    if teams.len() == 0 {
        None
    } else if teams.last().1 == name {
        Some(teams.len() - 1)
    } else {
        last_team_index(teams.drop_last(), name)
    }
}

/// The bit of the team called `name`: that of its last position in `teams`.
pub open spec fn team_bit(teams: Seq<(u32, Seq<char>)>, name: Seq<char>) -> Option<u32> {
    match last_team_index(teams, name) {
        Some(j) => Some(1u32 << (j as u32)),
        None => None,
    }
}

/// The bits of all of `n` teams.
pub open spec fn full_mask(n: nat) -> u32 {
    if n >= 32 { u32::MAX } else { ((1u32 << (n as u32)) - 1) as u32 }
}

/// The same two teams met already in this season and week, either way round.
pub open spec fn game_seen(games: Seq<SeenGame>, s: Seq<char>, w: Seq<char>, h: Seq<char>, a: Seq<char>) -> bool {
    exists|i: int|
        0 <= i < games.len() && #[trigger] games[i].0 == s && games[i].1 == w && ((games[i].2 == h && games[i].3 == a)
            || (games[i].2 == a && games[i].3 == h))
}

/// Position of the mask of season `s`, week `w`.
pub open spec fn week_index(weeks: Seq<WeekMask>, s: Seq<char>, w: Seq<char>) -> Option<int>
    decreases weeks.len(),
{
    if weeks.len() == 0 {
        None
    } else {
        match week_index(weeks.drop_last(), s, w) {
            Some(k) => Some(k),
            None => if weeks.last().0 == s && weeks.last().1 == w { Some(weeks.len() - 1) } else { None },
        }
    }
}

pub open spec fn short_row_message() -> Seq<char> {
    "Row has fewer than 7 columns (S,W,Home team,Home,Away,Away team,Match id)"@
}

pub open spec fn unknown_team_message(name: Seq<char>) -> Seq<char> {
    "Unknown team name '"@ + name + "' in results"@
}

pub open spec fn twice_message(name: Seq<char>) -> Seq<char> {
    "Team '"@ + name + "' appears twice in the same week"@
}

/// The masks after adding the bits of the home and the away team to mask `k`.
pub open spec fn add_teams(weeks: Seq<WeekMask>, k: int, home: Seq<char>, away: Seq<char>, teams: Seq<(u32, Seq<char>)>) -> Result<Seq<WeekMask>, Seq<char>> {
    let m0 = weeks[k].2;
    match team_bit(teams, home) {
        None => Err(unknown_team_message(home)),
        Some(hb) => if m0 & hb != 0 {
            Err(twice_message(home))
        } else {
            let m1 = m0 | hb;
            match team_bit(teams, away) {
                None => Err(unknown_team_message(away)),
                Some(ab) => if m1 & ab != 0 {
                    Err(twice_message(away))
                } else {
                    Ok(weeks.update(k, (weeks[k].0, weeks[k].1, m1 | ab)))
                },
            }
        },
    }
}

/// One row taken into the check, or the reason it is refused.
pub open spec fn check_row(st: CheckState, r: Seq<Seq<char>>, teams: Seq<(u32, Seq<char>)>) -> Result<CheckState, Seq<char>> {
    if r.len() < 7 {
        Err(short_row_message())
    } else {
        let s = trim(r[0]);
        let w = trim(r[1]);
        let home = trim(r[2]);
        let away = trim(r[5]);
        let mid = trim(r[6]);
        if home.len() == 0 || away.len() == 0 {
            Err("Empty team name in S="@ + s + " W="@ + w)
        } else if home == away {
            Err("Home==Away in S="@ + s + ", W="@ + w + " ("@ + home + ")"@)
        } else if game_seen(st.0, s, w, home, away) {
            Err("Duplicate game by teams in S="@ + s + ", W="@ + w)
        } else if mid.len() > 0 && st.1.contains(mid) {
            Err("Duplicate match id "@ + mid + " in S="@ + s + ", W="@ + w)
        } else {
            let games = st.0.push((s, w, home, away));
            let mids = if mid.len() > 0 { st.1.push(mid) } else { st.1 };
            let weeks = match week_index(st.2, s, w) {
                Some(_) => st.2,
                None => st.2.push((s, w, 0u32)),
            };
            let k = match week_index(st.2, s, w) {
                Some(k) => k,
                None => st.2.len() as int,
            };
            match add_teams(weeks, k, home, away, teams) {
                Err(e) => Err(e),
                Ok(weeks2) => Ok((games, mids, weeks2)),
            }
        }
    }
}

/// The check after all of `rows`, or the reason the first refused row is
/// refused.
pub open spec fn rows_checked(rows: Seq<Seq<Seq<char>>>, teams: Seq<(u32, Seq<char>)>) -> Result<CheckState, Seq<char>>
    decreases rows.len(),
{
    if rows.len() == 0 {
        Ok((Seq::empty(), Seq::empty(), Seq::empty()))
    } else {
        match rows_checked(rows.drop_last(), teams) {
            Err(e) => Err(e),
            Ok(st) => check_row(st, rows.last(), teams),
        }
    }
}

/// The lowest `k` bits of `m`, most significant first.
pub open spec fn bin_digits(m: nat, k: nat) -> Seq<char>
    decreases k,
{
    if k == 0 {
        Seq::empty()
    } else {
        bin_digits(m / 2, (k - 1) as nat).push(if m % 2 == 1 { '1' } else { '0' })
    }
}

/// The first week whose mask is not `full`.
pub open spec fn first_incomplete(weeks: Seq<WeekMask>, full: u32) -> Option<int>
    decreases weeks.len(),
{
    if weeks.len() == 0 {
        None
    } else {
        match first_incomplete(weeks.drop_last(), full) {
            Some(k) => Some(k),
            None => if weeks.last().2 != full { Some(weeks.len() - 1) } else { None },
        }
    }
}

pub open spec fn incomplete_message(wk: WeekMask, full: u32) -> Seq<char> {
    "Incomplete/extra teams in S="@ + wk.0 + ", W="@ + wk.1 + " (got mask "@ + bin_digits(wk.2 as nat, 32)
        + ", expected "@ + bin_digits(full as nat, 32) + ")"@
}

/// The verdict on a scraped table for the league's `teams`. Where several
/// weeks are incomplete, the first of them in the table is named.
pub open spec fn schedule_verdict(rows: Seq<Seq<Seq<char>>>, teams: Seq<(u32, Seq<char>)>) -> Result<(), Seq<char>> {
    let n = teams.len();
    if n == 0 || n > 32 {
        Err("Validator expects 1..=32 teams; got "@ + decimal(n))
    } else {
        match rows_checked(rows, teams) {
            Err(e) => Err(e),
            Ok(st) => match first_incomplete(st.2, full_mask(n)) {
                Some(k) => Err(incomplete_message(st.2[k], full_mask(n))),
                None => Ok(()),
            },
        }
    }
}

/* ---------------- executable parts ---------------- */

pub open spec fn games_view(g: Vec<(Vec<char>, Vec<char>, Vec<char>, Vec<char>)>) -> Seq<SeenGame> {
    g.deep_view()
}

pub open spec fn weeks_view(w: Vec<(Vec<char>, Vec<char>, u32)>) -> Seq<WeekMask> {
    w.deep_view()
}

fn bit_of_team(teams: &[(u32, String)], name: &[char]) -> (r: Option<u32>)
    requires
        teams@.len() <= 32,
    ensures
        r == team_bit(teams.deep_view(), name@),
{
    let ghost tv = teams.deep_view();
    let mut j: usize = teams.len();
    assert(tv.take(j as int) =~= tv);
    while j > 0
        invariant
            j <= teams@.len() <= 32,
            tv == teams.deep_view(),
            last_team_index(tv, name@) == last_team_index(tv.take(j as int), name@),
        decreases j,
    {
        let ghost t = tv.take(j as int);
        assert(t.drop_last() =~= tv.take(j - 1));
        assert(tv[j - 1] == (teams@[j - 1].0, teams@[j - 1].1@));
        if seq_eq(&chars_of(teams[j - 1].1.as_str()), name) {
            let k: u32 = (j - 1) as u32;
            return Some(1u32 << k);
        }
        j = j - 1;
    }
    assert(tv.take(0).len() == 0);
    None
}

fn game_seen_exec(games: &Vec<(Vec<char>, Vec<char>, Vec<char>, Vec<char>)>, s: &[char], w: &[char], h: &[char], a: &[char]) -> (b: bool)
    ensures
        b == game_seen(games_view(*games), s@, w@, h@, a@),
{
    let ghost gv = games_view(*games);
    let mut i: usize = 0;
    while i < games.len()
        invariant
            i <= games@.len(),
            gv == games_view(*games),
            forall|k: int| 0 <= k < i ==> !(#[trigger] gv[k].0 == s@ && gv[k].1 == w@ && ((gv[k].2 == h@ && gv[k].3 == a@)
                || (gv[k].2 == a@ && gv[k].3 == h@))),
        decreases games@.len() - i,
    {
        let g = &games[i];
        assert(gv[i as int] == (g.0@, g.1@, g.2@, g.3@));
        if seq_eq(&g.0, s) && seq_eq(&g.1, w) && ((seq_eq(&g.2, h) && seq_eq(&g.3, a)) || (seq_eq(&g.2, a)
            && seq_eq(&g.3, h))) {
            assert(gv[i as int].0 == s@);
            return true;
        }
        i = i + 1;
    }
    false
}

fn mid_seen(mids: &Vec<Vec<char>>, mid: &[char]) -> (b: bool)
    ensures
        b == mids.deep_view().contains(mid@),
{
    let mut i: usize = 0;
    while i < mids.len()
        invariant
            i <= mids@.len(),
            forall|k: int| 0 <= k < i ==> mids.deep_view()[k] != mid@,
        decreases mids@.len() - i,
    {
        assert(mids.deep_view()[i as int] == mids@[i as int]@);
        if seq_eq(&mids[i], mid) {
            return true;
        }
        i = i + 1;
    }
    false
}

fn week_index_exec(weeks: &Vec<(Vec<char>, Vec<char>, u32)>, s: &[char], w: &[char]) -> (r: Option<usize>)
    ensures
        match r {
            Some(k) => k < weeks@.len() && week_index(weeks_view(*weeks), s@, w@) == Some(k as int),
            None => week_index(weeks_view(*weeks), s@, w@) is None,
        },
{
    let ghost wv = weeks_view(*weeks);
    let mut i: usize = 0;
    while i < weeks.len()
        invariant
            i <= weeks@.len(),
            wv == weeks_view(*weeks),
            week_index(wv.take(i as int), s@, w@) is None,
        decreases weeks@.len() - i,
    {
        let ghost t = wv.take(i + 1);
        assert(t.drop_last() =~= wv.take(i as int));
        assert(wv[i as int] == (weeks@[i as int].0@, weeks@[i as int].1@, weeks@[i as int].2));
        if seq_eq(&weeks[i].0, s) && seq_eq(&weeks[i].1, w) {
            proof {
                lemma_week_index_prefix(wv, s@, w@, i + 1);
                lemma_week_index_bound(wv, s@, w@);
            }
            return Some(i);
        }
        i = i + 1;
    }
    assert(wv.take(i as int) =~= wv);
    None
}

proof fn lemma_week_index_bound(weeks: Seq<WeekMask>, s: Seq<char>, w: Seq<char>)
    ensures
        week_index(weeks, s, w) matches Some(k) ==> 0 <= k < weeks.len(),
    decreases weeks.len(),
{
    if weeks.len() > 0 {
        lemma_week_index_bound(weeks.drop_last(), s, w);
    }
}

proof fn lemma_week_index_prefix(weeks: Seq<WeekMask>, s: Seq<char>, w: Seq<char>, j: int)
    requires
        0 < j <= weeks.len(),
        week_index(weeks.take(j), s, w) is Some,
    ensures
        week_index(weeks, s, w) == week_index(weeks.take(j), s, w),
    decreases weeks.len() - j,
{
    if j < weeks.len() {
        assert(weeks.take(j + 1).drop_last() =~= weeks.take(j));
        lemma_week_index_prefix(weeks, s, w, j + 1);
    } else {
        assert(weeks.take(j) =~= weeks);
    }
}

fn copy_chars(v: &Vec<char>) -> (c: Vec<char>)
    ensures
        c@ == v@,
{
    let c = crate::text::sub_vec(v, 0, v.len());
    assert(v@.subrange(0, v@.len() as int) =~= v@);
    c
}

fn message2(a: &str, x: &[char], b: &str) -> (v: Vec<char>)
    ensures
        v@ == a@ + x@ + b@,
{
    let mut v = chars_of(a);
    push_all(&mut v, x);
    push_all(&mut v, &chars_of(b));
    v
}

fn mask_of(weeks: &Vec<(Vec<char>, Vec<char>, u32)>, k: usize) -> (m: u32)
    requires
        k < weeks@.len(),
    ensures
        m == weeks_view(*weeks)[k as int].2,
{
    weeks[k].2
}

fn set_mask(weeks: &mut Vec<(Vec<char>, Vec<char>, u32)>, k: usize, m: u32)
    requires
        k < old(weeks)@.len(),
    ensures
        weeks_view(*final(weeks)) == weeks_view(*old(weeks)).update(
            k as int,
            (weeks_view(*old(weeks))[k as int].0, weeks_view(*old(weeks))[k as int].1, m),
        ),
{
    let ghost before = weeks_view(*weeks);
    let s = copy_chars(&weeks[k].0);
    let w = copy_chars(&weeks[k].1);
    assert(s@ == before[k as int].0);
    assert(w@ == before[k as int].1);
    let t = (s, w, m);
    assert(t.0.deep_view() =~= t.0@ && t.1.deep_view() =~= t.1@);
    weeks.set(k, t);
    assert(weeks_view(*weeks) =~= before.update(k as int, (before[k as int].0, before[k as int].1, m)));
}

fn add_teams_exec(weeks: &mut Vec<(Vec<char>, Vec<char>, u32)>, k: usize, home: &[char], away: &[char], teams: &[(u32, String)]) -> (r: Result<(), Vec<char>>)
    requires
        k < old(weeks)@.len(),
        teams@.len() <= 32,
    ensures
        match add_teams(weeks_view(*old(weeks)), k as int, home@, away@, teams.deep_view()) {
            Ok(w2) => r is Ok && weeks_view(*final(weeks)) == w2,
            Err(e) => r matches Err(m) && m@ == e,
        },
{
    let m0 = mask_of(weeks, k);
    let hb = match bit_of_team(teams, home) {
        None => { return Err(message2("Unknown team name '", home, "' in results")); },
        Some(b) => b,
    };
    if m0 & hb != 0 {
        return Err(message2("Team '", home, "' appears twice in the same week"));
    }
    let m1 = m0 | hb;
    let ab = match bit_of_team(teams, away) {
        None => { return Err(message2("Unknown team name '", away, "' in results")); },
        Some(b) => b,
    };
    if m1 & ab != 0 {
        return Err(message2("Team '", away, "' appears twice in the same week"));
    }
    set_mask(weeks, k, m1 | ab);
    Ok(())
}

fn push_game(games: &mut Vec<(Vec<char>, Vec<char>, Vec<char>, Vec<char>)>, s: &Vec<char>, w: &Vec<char>, h: &Vec<char>, a: &Vec<char>)
    ensures
        games_view(*final(games)) == games_view(*old(games)).push((s@, w@, h@, a@)),
{
    let ghost before = games_view(*games);
    let t = (copy_chars(s), copy_chars(w), copy_chars(h), copy_chars(a));
    assert(t.0.deep_view() =~= t.0@ && t.1.deep_view() =~= t.1@ && t.2.deep_view() =~= t.2@ && t.3.deep_view() =~= t.3@);
    games.push(t);
    assert(games_view(*games) =~= before.push((s@, w@, h@, a@)));
}

fn push_mid(mids: &mut Vec<Vec<char>>, mid: &Vec<char>)
    ensures
        final(mids).deep_view() == old(mids).deep_view().push(mid@),
{
    let ghost before = mids.deep_view();
    let t = copy_chars(mid);
    assert(t.deep_view() =~= t@);
    mids.push(t);
    assert(mids.deep_view() =~= before.push(mid@));
}

fn push_week(weeks: &mut Vec<(Vec<char>, Vec<char>, u32)>, s: &Vec<char>, w: &Vec<char>)
    ensures
        weeks_view(*final(weeks)) == weeks_view(*old(weeks)).push((s@, w@, 0u32)),
        final(weeks)@.len() == old(weeks)@.len() + 1,
{
    let ghost before = weeks_view(*weeks);
    let t = (copy_chars(s), copy_chars(w), 0u32);
    assert(t.0.deep_view() =~= t.0@ && t.1.deep_view() =~= t.1@);
    weeks.push(t);
    assert(weeks_view(*weeks) =~= before.push((s@, w@, 0u32)));
}

fn check_row_exec(
    games: &mut Vec<(Vec<char>, Vec<char>, Vec<char>, Vec<char>)>,
    mids: &mut Vec<Vec<char>>,
    weeks: &mut Vec<(Vec<char>, Vec<char>, u32)>,
    r: &Vec<String>,
    teams: &[(u32, String)],
) -> (res: Result<(), Vec<char>>)
    requires
        teams@.len() <= 32,
    ensures
        match check_row((games_view(*old(games)), old(mids).deep_view(), weeks_view(*old(weeks))), r.deep_view(), teams.deep_view()) {
            Ok(st) => res is Ok && st == (games_view(*final(games)), final(mids).deep_view(), weeks_view(*final(weeks))),
            Err(e) => res matches Err(m) && m@ == e,
        },
{
    let ghost rv = r.deep_view();
    if r.len() < 7 {
        return Err(chars_of("Row has fewer than 7 columns (S,W,Home team,Home,Away,Away team,Match id)"));
    }
    assert(rv[0] == r@[0]@ && rv[1] == r@[1]@ && rv[2] == r@[2]@ && rv[5] == r@[5]@ && rv[6] == r@[6]@);
    let s = trim_vec(&chars_of(r[0].as_str()));
    let w = trim_vec(&chars_of(r[1].as_str()));
    let home = trim_vec(&chars_of(r[2].as_str()));
    let away = trim_vec(&chars_of(r[5].as_str()));
    let mid = trim_vec(&chars_of(r[6].as_str()));
    if home.len() == 0 || away.len() == 0 {
        let mut m = message2("Empty team name in S=", &s, " W=");
        push_all(&mut m, &w);
        return Err(m);
    }
    if seq_eq(&home, &away) {
        let mut m = message2("Home==Away in S=", &s, ", W=");
        push_all(&mut m, &w);
        push_all(&mut m, &message2(" (", &home, ")"));
        return Err(m);
    }
    if game_seen_exec(games, &s, &w, &home, &away) {
        let mut m = message2("Duplicate game by teams in S=", &s, ", W=");
        push_all(&mut m, &w);
        return Err(m);
    }
    if mid.len() > 0 && mid_seen(mids, &mid) {
        let mut m = message2("Duplicate match id ", &mid, " in S=");
        push_all(&mut m, &s);
        push_all(&mut m, &chars_of(", W="));
        push_all(&mut m, &w);
        return Err(m);
    }
    push_game(games, &s, &w, &home, &away);
    if mid.len() > 0 {
        push_mid(mids, &mid);
    }
    let k = match week_index_exec(weeks, &s, &w) {
        Some(k) => k,
        None => {
            let k = weeks.len();
            push_week(weeks, &s, &w);
            k
        },
    };
    add_teams_exec(weeks, k, &home, &away, teams)
}

fn bin_digits_vec(m: u32, k: u32) -> (v: Vec<char>)
    ensures
        v@ == bin_digits(m as nat, k as nat),
    decreases k,
{
    if k == 0 {
        Vec::new()
    } else {
        let mut v = bin_digits_vec(m / 2, k - 1);
        v.push(if m % 2 == 1 { '1' } else { '0' });
        v
    }
}

fn full_mask_exec(n: usize) -> (m: u32)
    requires
        0 < n <= 32,
    ensures
        m == full_mask(n as nat),
{
    if n == 32 {
        u32::MAX
    } else {
        let k: u32 = n as u32;
        assert((1u32 << k) >= 1u32) by (bit_vector)
            requires
                k < 32u32,
        ;
        (1u32 << k) - 1
    }
}

impl GameResultsPage {
    /// Whether a freshly scraped table is a plausible schedule for the
    /// league's `teams`: `Ok` exactly where `schedule_verdict` accepts it,
    /// else its message.
    pub fn validate_scrape(&self, teams: &[(u32, String)], new: &DataSet) -> (r: Result<(), String>)
        ensures
            match schedule_verdict(new.rows_view(), teams.deep_view()) {
                Ok(()) => r is Ok,
                Err(e) => r matches Err(m) && m@ == e,
            },
    {
        let n = teams.len();
        if n == 0 || n > 32 {
            let mut m = chars_of("Validator expects 1..=32 teams; got ");
            push_all(&mut m, &decimal_vec(n as u64));
            return Err(string_of(&m));
        }
        let full = full_mask_exec(n);
        let ghost rows = new.rows_view();
        let ghost tv = teams.deep_view();
        let mut games: Vec<(Vec<char>, Vec<char>, Vec<char>, Vec<char>)> = Vec::new();
        let mut mids: Vec<Vec<char>> = Vec::new();
        let mut weeks: Vec<(Vec<char>, Vec<char>, u32)> = Vec::new();
        assert(games_view(games) =~= Seq::<SeenGame>::empty());
        assert(mids.deep_view() =~= Seq::<Seq<char>>::empty());
        assert(weeks_view(weeks) =~= Seq::<WeekMask>::empty());
        assert(rows.take(0) =~= Seq::<Seq<Seq<char>>>::empty());
        let mut i: usize = 0;
        while i < new.rows.len()
            invariant
                0 < n <= 32,
                n == teams@.len(),
                tv == teams.deep_view(),
                rows == new.rows_view(),
                i <= rows.len(),
                rows_checked(rows.take(i as int), tv) == Ok::<CheckState, Seq<char>>(
                    (games_view(games), mids.deep_view(), weeks_view(weeks)),
                ),
            decreases rows.len() - i,
        {
            let ghost t = rows.take(i + 1);
            assert(t.drop_last() =~= rows.take(i as int));
            assert(t.last() == new.rows@[i as int].deep_view());
            match check_row_exec(&mut games, &mut mids, &mut weeks, &new.rows[i], teams) {
                Ok(()) => {},
                Err(e) => {
                    proof { lemma_refused_stays(rows, tv, i + 1); }
                    return Err(string_of(&e));
                },
            }
            i = i + 1;
        }
        assert(rows.take(i as int) =~= rows);
        let mut k: usize = 0;
        while k < weeks.len()
            invariant
                k <= weeks@.len(),
                0 < n <= 32,
                n == teams@.len(),
                tv == teams.deep_view(),
                rows == new.rows_view(),
                full == full_mask(n as nat),
                rows_checked(rows, tv) == Ok::<CheckState, Seq<char>>(
                    (games_view(games), mids.deep_view(), weeks_view(weeks)),
                ),
                first_incomplete(weeks_view(weeks).take(k as int), full) is None,
            decreases weeks@.len() - k,
        {
            let ghost wv = weeks_view(weeks);
            assert(wv.take(k + 1).drop_last() =~= wv.take(k as int));
            assert(wv[k as int] == (weeks@[k as int].0@, weeks@[k as int].1@, weeks@[k as int].2));
            assert(wv.take(k + 1).last() == wv[k as int]);
            if weeks[k].2 != full {
                proof { lemma_first_incomplete_prefix(wv, full, k + 1); }
                let mut m = message2("Incomplete/extra teams in S=", &weeks[k].0, ", W=");
                push_all(&mut m, &weeks[k].1);
                push_all(&mut m, &chars_of(" (got mask "));
                push_all(&mut m, &bin_digits_vec(weeks[k].2, 32));
                push_all(&mut m, &chars_of(", expected "));
                push_all(&mut m, &bin_digits_vec(full, 32));
                push_all(&mut m, &chars_of(")"));
                return Err(string_of(&m));
            }
            k = k + 1;
        }
        assert(weeks_view(weeks).take(k as int) =~= weeks_view(weeks));
        Ok(())
    }
}

proof fn lemma_refused_stays(rows: Seq<Seq<Seq<char>>>, teams: Seq<(u32, Seq<char>)>, j: int)
    requires
        0 < j <= rows.len(),
        rows_checked(rows.take(j), teams) is Err,
    ensures
        rows_checked(rows, teams) == rows_checked(rows.take(j), teams),
    decreases rows.len() - j,
{
    if j < rows.len() {
        assert(rows.take(j + 1).drop_last() =~= rows.take(j));
        lemma_refused_stays(rows, teams, j + 1);
    } else {
        assert(rows.take(j) =~= rows);
    }
}

proof fn lemma_first_incomplete_prefix(weeks: Seq<WeekMask>, full: u32, j: int)
    requires
        0 < j <= weeks.len(),
        first_incomplete(weeks.take(j), full) is Some,
    ensures
        first_incomplete(weeks, full) == first_incomplete(weeks.take(j), full),
    decreases weeks.len() - j,
{
    if j < weeks.len() {
        assert(weeks.take(j + 1).drop_last() =~= weeks.take(j));
        lemma_first_incomplete_prefix(weeks, full, j + 1);
    } else {
        assert(weeks.take(j) =~= weeks);
    }
}

/* ---------------- what an accepted table holds ---------------- */

/// The row has the seven columns and names two different known teams.
pub open spec fn row_is_game(r: Seq<Seq<char>>, teams: Seq<(u32, Seq<char>)>) -> bool {
    &&& r.len() >= 7
    &&& trim(r[2]).len() > 0
    &&& trim(r[5]).len() > 0
    &&& trim(r[2]) != trim(r[5])
    &&& team_bit(teams, trim(r[2])) is Some
    &&& team_bit(teams, trim(r[5])) is Some
}

/// The match id of a row, trimmed.
pub open spec fn match_id(r: Seq<Seq<char>>) -> Seq<char> {
    trim(r[6])
}

/// Two rows are the same game: same season and week, same two teams either
/// way round.
pub open spec fn same_game(a: Seq<Seq<char>>, b: Seq<Seq<char>>) -> bool {
    &&& trim(a[0]) == trim(b[0])
    &&& trim(a[1]) == trim(b[1])
    &&& ((trim(a[2]) == trim(b[2]) && trim(a[5]) == trim(b[5])) || (trim(a[2]) == trim(b[5]) && trim(a[5])
        == trim(b[2])))
}

/// What the check's state after `rows` remembers of them.
pub open spec fn state_covers(rows: Seq<Seq<Seq<char>>>, st: CheckState) -> bool {
    &&& forall|i: int| 0 <= i < rows.len() && match_id(rows[i]).len() > 0 ==> #[trigger] st.1.contains(match_id(rows[i]))
    &&& forall|i: int| 0 <= i < rows.len() ==> #[trigger] game_seen(
        st.0,
        trim(rows[i][0]),
        trim(rows[i][1]),
        trim(rows[i][2]),
        trim(rows[i][5]),
    )
}

proof fn lemma_checked_rows(rows: Seq<Seq<Seq<char>>>, teams: Seq<(u32, Seq<char>)>)
    requires
        rows_checked(rows, teams) is Ok,
    ensures
        forall|i: int| 0 <= i < rows.len() ==> #[trigger] row_is_game(rows[i], teams),
        state_covers(rows, rows_checked(rows, teams)->Ok_0),
        forall|i: int, j: int| 0 <= i < j < rows.len() && match_id(rows[i]).len() > 0 ==> match_id(#[trigger] rows[i])
            != match_id(#[trigger] rows[j]),
        forall|i: int, j: int| 0 <= i < j < rows.len() ==> !same_game(#[trigger] rows[i], #[trigger] rows[j]),
    decreases rows.len(),
{
    if rows.len() > 0 {
        let prev = rows.drop_last();
        lemma_checked_rows(prev, teams);
        let st = rows_checked(prev, teams)->Ok_0;
        let r = rows.last();
        let st2 = rows_checked(rows, teams)->Ok_0;
        assert(check_row(st, r, teams) == rows_checked(rows, teams));
        let s = trim(r[0]);
        let w = trim(r[1]);
        let home = trim(r[2]);
        let away = trim(r[5]);
        let mid = trim(r[6]);
        assert(st2.0 == st.0.push((s, w, home, away)));
        assert(st2.1 == if mid.len() > 0 { st.1.push(mid) } else { st.1 });
        assert forall|i: int| 0 <= i < rows.len() implies #[trigger] row_is_game(rows[i], teams) by {
            if i < prev.len() {
                assert(rows[i] == prev[i]);
            }
        }
        assert forall|i: int| 0 <= i < rows.len() && match_id(rows[i]).len() > 0 implies #[trigger] st2.1.contains(
            match_id(rows[i]),
        ) by {
            if i < prev.len() {
                assert(rows[i] == prev[i]);
                assert(st.1.contains(match_id(prev[i])));
                let k = choose|k: int| 0 <= k < st.1.len() && st.1[k] == match_id(prev[i]);
                assert(mid.len() > 0 ==> st2.1 == st.1.push(mid));
                assert(st2.1[k] == st.1[k]);
            } else {
                assert(rows[i] == r);
                assert(st2.1 == st.1.push(mid));
                assert(st2.1[st2.1.len() - 1] == mid);
            }
        }
        assert forall|i: int| 0 <= i < rows.len() implies #[trigger] game_seen(
            st2.0,
            trim(rows[i][0]),
            trim(rows[i][1]),
            trim(rows[i][2]),
            trim(rows[i][5]),
        ) by {
            if i < prev.len() {
                assert(rows[i] == prev[i]);
                assert(game_seen(st.0, trim(prev[i][0]), trim(prev[i][1]), trim(prev[i][2]), trim(prev[i][5])));
                let k = choose|k: int|
                    0 <= k < st.0.len() && #[trigger] st.0[k].0 == trim(prev[i][0]) && st.0[k].1 == trim(prev[i][1]) && ((
                    st.0[k].2 == trim(prev[i][2]) && st.0[k].3 == trim(prev[i][5])) || (st.0[k].2 == trim(prev[i][5])
                        && st.0[k].3 == trim(prev[i][2])));
                assert(st2.0[k] == st.0[k]);
            } else {
                assert(rows[i] == r);
                let k = st2.0.len() - 1;
                assert(st2.0[k] == (s, w, home, away));
                assert(st2.0[k].0 == s && st2.0[k].1 == w && st2.0[k].2 == home && st2.0[k].3 == away);
            }
        }
        assert forall|i: int, j: int| 0 <= i < j < rows.len() && match_id(rows[i]).len() > 0 implies match_id(
            #[trigger] rows[i],
        ) != match_id(#[trigger] rows[j]) by {
            assert(rows[i] == prev[i]);
            if j < prev.len() {
                assert(rows[j] == prev[j]);
            } else {
                assert(st.1.contains(match_id(prev[i])));
            }
        }
        assert forall|i: int, j: int| 0 <= i < j < rows.len() implies !same_game(#[trigger] rows[i], #[trigger] rows[j]) by {
            assert(rows[i] == prev[i]);
            if j < prev.len() {
                assert(rows[j] == prev[j]);
            } else {
                assert(game_seen(st.0, trim(prev[i][0]), trim(prev[i][1]), trim(prev[i][2]), trim(prev[i][5])));
                if same_game(rows[i], rows[j]) {
                    let k = choose|k: int|
                        0 <= k < st.0.len() && #[trigger] st.0[k].0 == trim(prev[i][0]) && st.0[k].1 == trim(prev[i][1]) && ((
                        st.0[k].2 == trim(prev[i][2]) && st.0[k].3 == trim(prev[i][5])) || (st.0[k].2 == trim(prev[i][5])
                            && st.0[k].3 == trim(prev[i][2])));
                    assert(st.0[k].0 == s && st.0[k].1 == w && ((st.0[k].2 == home && st.0[k].3 == away) || (st.0[k].2
                        == away && st.0[k].3 == home)));
                    assert(game_seen(st.0, s, w, home, away));
                }
            }
        }
    }
}

/// A table the check accepts has only real games: every row has the seven
/// columns and names two different known teams, no two rows are the same
/// game, and no match id occurs twice.
pub proof fn accepted_schedule_is_consistent(rows: Seq<Seq<Seq<char>>>, teams: Seq<(u32, Seq<char>)>)
    requires
        schedule_verdict(rows, teams) is Ok,
    ensures
        forall|i: int| 0 <= i < rows.len() ==> #[trigger] row_is_game(rows[i], teams),
        forall|i: int, j: int| 0 <= i < j < rows.len() ==> !same_game(#[trigger] rows[i], #[trigger] rows[j]),
        forall|i: int, j: int| 0 <= i < j < rows.len() && match_id(rows[i]).len() > 0 ==> match_id(#[trigger] rows[i])
            != match_id(#[trigger] rows[j]),
{
    lemma_checked_rows(rows, teams);
}

/* ---------------- every team once in every week ---------------- */

/// Season and week of a row, trimmed.
pub open spec fn week_key(r: Seq<Seq<char>>) -> (Seq<char>, Seq<char>) {
    (trim(r[0]), trim(r[1]))
}

/// The row names team `name`, at home or away.
pub open spec fn plays(r: Seq<Seq<char>>, name: Seq<char>) -> bool {
    trim(r[2]) == name || trim(r[5]) == name
}

/// The bits of the two teams of a row.
pub open spec fn row_bits(r: Seq<Seq<char>>, teams: Seq<(u32, Seq<char>)>) -> u32 {
    team_bit(teams, trim(r[2]))->Some_0 | team_bit(teams, trim(r[5]))->Some_0
}

/// The bits of all teams of the rows of week `key`.
pub open spec fn week_bits(rows: Seq<Seq<Seq<char>>>, key: (Seq<char>, Seq<char>), teams: Seq<(u32, Seq<char>)>) -> u32
    decreases rows.len(),
{
    if rows.len() == 0 {
        0
    } else {
        let b = week_bits(rows.drop_last(), key, teams);
        if week_key(rows.last()) == key { b | row_bits(rows.last(), teams) } else { b }
    }
}

/// The masks of the check's state are those of the rows read so far, each
/// row's week has a mask, and no week has two.
pub open spec fn masks_match(rows: Seq<Seq<Seq<char>>>, weeks: Seq<WeekMask>, teams: Seq<(u32, Seq<char>)>) -> bool {
    &&& forall|p: int| 0 <= p < weeks.len() ==> #[trigger] weeks[p].2 == week_bits(rows, (weeks[p].0, weeks[p].1), teams)
    &&& forall|q: int| 0 <= q < rows.len() ==> #[trigger] week_index(weeks, week_key(rows[q]).0, week_key(rows[q]).1) is Some
    &&& forall|p1: int, p2: int| 0 <= p1 < p2 < weeks.len() ==> (#[trigger] weeks[p1].0, weeks[p1].1) != (
        #[trigger] weeks[p2].0,
        weeks[p2].1,
    )
}

proof fn lemma_or_assoc(a: u32, b: u32, c: u32)
    ensures
        (a | b) | c == a | (b | c),
{
    assert((a | b) | c == a | (b | c)) by (bit_vector);
}

proof fn lemma_or_zero(a: u32)
    ensures
        0u32 | a == a,
{
    assert(0u32 | a == a) by (bit_vector);
}

proof fn lemma_week_index_found(weeks: Seq<WeekMask>, s: Seq<char>, w: Seq<char>)
    ensures
        week_index(weeks, s, w) matches Some(k) ==> 0 <= k < weeks.len() && weeks[k].0 == s && weeks[k].1 == w,
        week_index(weeks, s, w) is None ==> forall|p: int| 0 <= p < weeks.len() ==> !(#[trigger] weeks[p].0 == s
            && weeks[p].1 == w),
    decreases weeks.len(),
{
    if weeks.len() > 0 {
        lemma_week_index_found(weeks.drop_last(), s, w);
        assert forall|p: int| 0 <= p < weeks.len() - 1 implies weeks.drop_last()[p] == weeks[p] by {}
    }
}

proof fn lemma_week_index_at(weeks: Seq<WeekMask>, p: int)
    requires
        0 <= p < weeks.len(),
    ensures
        week_index(weeks, weeks[p].0, weeks[p].1) is Some,
{
    lemma_week_index_found(weeks, weeks[p].0, weeks[p].1);
}

proof fn lemma_week_bits_other(rows: Seq<Seq<Seq<char>>>, key: (Seq<char>, Seq<char>), teams: Seq<(u32, Seq<char>)>)
    requires
        forall|q: int| 0 <= q < rows.len() ==> week_key(#[trigger] rows[q]) != key,
    ensures
        week_bits(rows, key, teams) == 0,
    decreases rows.len(),
{
    if rows.len() > 0 {
        assert forall|q: int| 0 <= q < rows.drop_last().len() implies week_key(#[trigger] rows.drop_last()[q]) != key by {
            assert(rows.drop_last()[q] == rows[q]);
        }
        lemma_week_bits_other(rows.drop_last(), key, teams);
    }
}

/// The check's state after an accepted prefix keeps the masks of its rows.
proof fn lemma_masks(rows: Seq<Seq<Seq<char>>>, teams: Seq<(u32, Seq<char>)>)
    requires
        rows_checked(rows, teams) is Ok,
    ensures
        masks_match(rows, rows_checked(rows, teams)->Ok_0.2, teams),
    decreases rows.len(),
{
    if rows.len() > 0 {
        let prev = rows.drop_last();
        lemma_masks(prev, teams);
        lemma_checked_rows(rows, teams);
        let st = rows_checked(prev, teams)->Ok_0;
        let r = rows.last();
        let st2 = rows_checked(rows, teams)->Ok_0;
        assert(check_row(st, r, teams) == rows_checked(rows, teams));
        assert(row_is_game(rows[rows.len() - 1], teams));
        let s = trim(r[0]);
        let w = trim(r[1]);
        let home = trim(r[2]);
        let away = trim(r[5]);
        let key = (s, w);
        let hb = team_bit(teams, home)->Some_0;
        let ab = team_bit(teams, away)->Some_0;
        lemma_week_index_found(st.2, s, w);
        let weeks = match week_index(st.2, s, w) {
            Some(_) => st.2,
            None => st.2.push((s, w, 0u32)),
        };
        let k = match week_index(st.2, s, w) {
            Some(k) => k,
            None => st.2.len() as int,
        };
        let m0 = weeks[k].2;
        assert(st2.2 == weeks.update(k, (weeks[k].0, weeks[k].1, (m0 | hb) | ab)));
        // the mask of this row's week
        if week_index(st.2, s, w) is None {
            assert forall|q: int| 0 <= q < prev.len() implies week_key(#[trigger] prev[q]) != key by {
                assert(week_index(st.2, week_key(prev[q]).0, week_key(prev[q]).1) is Some);
            }
            lemma_week_bits_other(prev, key, teams);
            lemma_or_zero(hb);
        } else {
            assert(weeks[k].0 == s && weeks[k].1 == w);
        }
        assert(m0 == week_bits(prev, key, teams));
        lemma_or_assoc(m0, hb, ab);
        assert(week_bits(rows, key, teams) == (m0 | hb) | ab);
        assert forall|p: int| 0 <= p < st2.2.len() implies #[trigger] st2.2[p].2 == week_bits(
            rows,
            (st2.2[p].0, st2.2[p].1),
            teams,
        ) by {
            if p != k {
                assert(st2.2[p] == weeks[p]);
                assert(weeks[p] == st.2[p]);
                if (st2.2[p].0, st2.2[p].1) == key {
                    if week_index(st.2, s, w) is Some {
                        if p < k {
                            assert((st.2[p].0, st.2[p].1) != (st.2[k].0, st.2[k].1));
                        } else {
                            assert((st.2[k].0, st.2[k].1) != (st.2[p].0, st.2[p].1));
                        }
                    } else {
                        assert(!(st.2[p].0 == s && st.2[p].1 == w));
                    }
                }
                assert(week_bits(rows, (st2.2[p].0, st2.2[p].1), teams) == week_bits(prev, (st2.2[p].0, st2.2[p].1), teams));
            }
        }
        assert forall|q: int| 0 <= q < rows.len() implies #[trigger] week_index(
            st2.2,
            week_key(rows[q]).0,
            week_key(rows[q]).1,
        ) is Some by {
            let kq = week_key(rows[q]);
            if q < prev.len() {
                assert(rows[q] == prev[q]);
                lemma_week_index_found(st.2, kq.0, kq.1);
                let pq = week_index(st.2, kq.0, kq.1)->Some_0;
                assert(st2.2[pq].0 == kq.0 && st2.2[pq].1 == kq.1);
                lemma_week_index_at(st2.2, pq);
                lemma_week_index_found(st2.2, kq.0, kq.1);
                if week_index(st2.2, kq.0, kq.1) is None {
                    assert(!(st2.2[pq].0 == kq.0 && st2.2[pq].1 == kq.1));
                }
            } else {
                assert(rows[q] == r);
                assert(st2.2[k].0 == s && st2.2[k].1 == w);
                lemma_week_index_found(st2.2, s, w);
                if week_index(st2.2, s, w) is None {
                    assert(!(st2.2[k].0 == s && st2.2[k].1 == w));
                }
            }
        }
        assert forall|p1: int, p2: int| 0 <= p1 < p2 < st2.2.len() implies (#[trigger] st2.2[p1].0, st2.2[p1].1) != (
            #[trigger] st2.2[p2].0,
            st2.2[p2].1,
        ) by {
            assert(st2.2[p1].0 == weeks[p1].0 && st2.2[p1].1 == weeks[p1].1);
            assert(st2.2[p2].0 == weeks[p2].0 && st2.2[p2].1 == weeks[p2].1);
            if week_index(st.2, s, w) is None && p2 == st.2.len() {
                assert(weeks[p1] == st.2[p1]);
                assert(!(st.2[p1].0 == s && st.2[p1].1 == w));
            } else {
                assert(weeks[p1] == st.2[p1]);
                assert(weeks[p2] == st.2[p2]);
            }
        }
    } else {
        assert(rows_checked(rows, teams)->Ok_0.2 =~= Seq::<WeekMask>::empty());
    }
}

proof fn lemma_bits_of_or(x: u32, y: u32, j: u32)
    requires
        j < 32,
    ensures
        ((x | y) >> j) & 1u32 == 1u32 ==> (x >> j) & 1u32 == 1u32 || (y >> j) & 1u32 == 1u32,
{
    assert(((x | y) >> j) & 1u32 == 1u32 ==> (x >> j) & 1u32 == 1u32 || (y >> j) & 1u32 == 1u32) by (bit_vector)
        requires
            j < 32,
    ;
}

proof fn lemma_bit_of_shift(a: u32, j: u32)
    requires
        a < 32,
        j < 32,
    ensures
        ((1u32 << a) >> j) & 1u32 == 1u32 ==> a == j,
        (1u32 << a) != 0u32,
{
    assert(((1u32 << a) >> j) & 1u32 == 1u32 ==> a == j) by (bit_vector)
        requires
            a < 32,
            j < 32,
    ;
    assert((1u32 << a) != 0u32) by (bit_vector)
        requires
            a < 32,
    ;
}

proof fn lemma_full_mask_bit(n: nat, j: u32)
    requires
        0 < n <= 32,
        j < n,
    ensures
        (full_mask(n) >> j) & 1u32 == 1u32,
{
    if n == 32 {
        assert((0xffff_ffffu32 >> j) & 1u32 == 1u32) by (bit_vector)
            requires
                j < 32,
        ;
    } else {
        let m: u32 = n as u32;
        assert((1u32 << m) >= 1u32) by (bit_vector)
            requires
                m < 32,
        ;
        let low: u32 = ((1u32 << m) - 1u32) as u32;
        assert(((((1u32 << m) - 1u32) as u32) >> j) & 1u32 == 1u32) by (bit_vector)
            requires
                j < m,
                m < 32,
        ;
        assert(full_mask(n) == low);
    }
}

proof fn lemma_zero_bits(j: u32)
    requires
        j < 32,
    ensures
        (0u32 >> j) & 1u32 == 0u32,
{
    assert((0u32 >> j) & 1u32 == 0u32) by (bit_vector);
}

proof fn lemma_part_of_or(b: u32, x: u32, y: u32)
    ensures
        b & x == b ==> b & (x | y) == b,
        b & y == b ==> b & (x | y) == b,
        b & (b | y) == b,
        b & (x | b) == b,
        b & x == b && b != 0u32 ==> x & b != 0u32,
{
    assert(b & x == b ==> b & (x | y) == b) by (bit_vector);
    assert(b & y == b ==> b & (x | y) == b) by (bit_vector);
    assert(b & (b | y) == b) by (bit_vector);
    assert(b & (x | b) == b) by (bit_vector);
    assert(b & x == b && b != 0u32 ==> x & b != 0u32) by (bit_vector);
}

proof fn lemma_last_team_index(teams: Seq<(u32, Seq<char>)>, name: Seq<char>)
    ensures
        last_team_index(teams, name) matches Some(j) ==> 0 <= j < teams.len() && teams[j].1 == name,
    decreases teams.len(),
{
    if teams.len() > 0 {
        lemma_last_team_index(teams.drop_last(), name);
    }
}

/// A bit of a week's mask comes from one of that week's rows.
proof fn lemma_week_bit_from_row(rows: Seq<Seq<Seq<char>>>, key: (Seq<char>, Seq<char>), teams: Seq<(u32, Seq<char>)>, j: u32)
    requires
        j < 32,
        (week_bits(rows, key, teams) >> j) & 1u32 == 1u32,
    ensures
        exists|k: int| 0 <= k < rows.len() && week_key(rows[k]) == key && (#[trigger] row_bits(rows[k], teams) >> j) & 1u32
            == 1u32,
    decreases rows.len(),
{
    if rows.len() == 0 {
        lemma_zero_bits(j);
    } else {
        let prev = rows.drop_last();
        let b = week_bits(prev, key, teams);
        if week_key(rows.last()) == key {
            lemma_bits_of_or(b, row_bits(rows.last(), teams), j);
            if (b >> j) & 1u32 == 1u32 {
                lemma_week_bit_from_row(prev, key, teams, j);
                let k = choose|k: int| 0 <= k < prev.len() && week_key(prev[k]) == key && (#[trigger] row_bits(prev[k], teams) >> j)
                    & 1u32 == 1u32;
                assert(rows[k] == prev[k]);
            } else {
                assert(row_bits(rows[rows.len() - 1], teams) == row_bits(rows.last(), teams));
            }
        } else {
            lemma_week_bit_from_row(prev, key, teams, j);
            let k = choose|k: int| 0 <= k < prev.len() && week_key(prev[k]) == key && (#[trigger] row_bits(prev[k], teams) >> j)
                & 1u32 == 1u32;
            assert(rows[k] == prev[k]);
        }
    }
}

/// A week's mask holds the bits of each of its rows.
proof fn lemma_row_in_week_bits(rows: Seq<Seq<Seq<char>>>, key: (Seq<char>, Seq<char>), teams: Seq<(u32, Seq<char>)>, q: int)
    requires
        0 <= q < rows.len(),
        week_key(rows[q]) == key,
    ensures
        row_bits(rows[q], teams) & week_bits(rows, key, teams) == row_bits(rows[q], teams),
    decreases rows.len(),
{
    let prev = rows.drop_last();
    let rb = row_bits(rows[q], teams);
    if q < prev.len() {
        assert(rows[q] == prev[q]);
        lemma_row_in_week_bits(prev, key, teams, q);
        lemma_part_of_or(rb, week_bits(prev, key, teams), row_bits(rows.last(), teams));
    } else {
        lemma_part_of_or(rb, week_bits(prev, key, teams), rb);
    }
}

proof fn lemma_all_complete(weeks: Seq<WeekMask>, full: u32)
    requires
        first_incomplete(weeks, full) is None,
    ensures
        forall|p: int| 0 <= p < weeks.len() ==> #[trigger] weeks[p].2 == full,
    decreases weeks.len(),
{
    if weeks.len() > 0 {
        lemma_all_complete(weeks.drop_last(), full);
        assert forall|p: int| 0 <= p < weeks.len() implies #[trigger] weeks[p].2 == full by {
            if p < weeks.len() - 1 {
                assert(weeks.drop_last()[p] == weeks[p]);
            }
        }
    }
}

proof fn lemma_no_team_twice(rows: Seq<Seq<Seq<char>>>, teams: Seq<(u32, Seq<char>)>)
    requires
        rows_checked(rows, teams) is Ok,
        teams.len() <= 32,
    ensures
        forall|k1: int, k2: int|
            0 <= k1 < k2 < rows.len() && week_key(#[trigger] rows[k1]) == week_key(#[trigger] rows[k2]) ==> !plays(
                rows[k1],
                trim(rows[k2][2]),
            ) && !plays(rows[k1], trim(rows[k2][5])),
    decreases rows.len(),
{
    if rows.len() > 0 {
        let prev = rows.drop_last();
        lemma_no_team_twice(prev, teams);
        lemma_masks(prev, teams);
        lemma_checked_rows(rows, teams);
        let st = rows_checked(prev, teams)->Ok_0;
        let r = rows.last();
        assert(check_row(st, r, teams) == rows_checked(rows, teams));
        let n = rows.len() - 1;
        assert(row_is_game(rows[n], teams));
        assert(rows[n] == r);
        let key = week_key(r);
        let home = trim(r[2]);
        let away = trim(r[5]);
        let hb = team_bit(teams, home)->Some_0;
        let ab = team_bit(teams, away)->Some_0;
        lemma_last_team_index(teams, home);
        lemma_last_team_index(teams, away);
        let ih = last_team_index(teams, home)->Some_0;
        let ia = last_team_index(teams, away)->Some_0;
        lemma_bit_of_shift(ih as u32, 0);
        lemma_bit_of_shift(ia as u32, 0);
        assert forall|k1: int, k2: int|
            0 <= k1 < k2 < rows.len() && week_key(#[trigger] rows[k1]) == week_key(#[trigger] rows[k2]) implies !plays(
                rows[k1],
                trim(rows[k2][2]),
            ) && !plays(rows[k1], trim(rows[k2][5])) by {
            if k2 < n {
                assert(rows[k1] == prev[k1]);
                assert(rows[k2] == prev[k2]);
            } else {
                assert(rows[k1] == prev[k1]);
                assert(row_is_game(rows[k1], teams));
                let q = prev[k1];
                assert(week_index(st.2, week_key(q).0, week_key(q).1) is Some);
                lemma_week_index_found(st.2, key.0, key.1);
                let k = week_index(st.2, key.0, key.1)->Some_0;
                let m0 = st.2[k].2;
                assert(m0 == week_bits(prev, (st.2[k].0, st.2[k].1), teams));
                lemma_row_in_week_bits(prev, key, teams, k1);
                let qb = row_bits(q, teams);
                let qh = team_bit(teams, trim(q[2]))->Some_0;
                let qa = team_bit(teams, trim(q[5]))->Some_0;
                lemma_part_of_or(qh, qh, qa);
                lemma_part_of_or(qa, qh, qa);
                if plays(q, home) {
                    assert(hb == qh || hb == qa);
                    assert(hb & qb == hb);
                    assert(hb & (qb & m0) == hb & qb) by {
                        assert(qb & m0 == qb);
                    }
                    assert(hb & m0 == hb) by {
                        assert(hb & (qb & m0) == (hb & qb) & m0) by (bit_vector);
                    }
                    lemma_part_of_or(hb, m0, hb);
                    assert(m0 & hb != 0u32);
                    assert(false);
                }
                if plays(q, away) {
                    assert(ab == qh || ab == qa);
                    assert(ab & qb == ab);
                    assert(ab & m0 == ab) by {
                        assert(qb & m0 == qb);
                        assert(ab & (qb & m0) == (ab & qb) & m0) by (bit_vector);
                    }
                    lemma_part_of_or(ab, m0, hb);
                    assert(ab & (m0 | hb) == ab);
                    lemma_part_of_or(ab, m0 | hb, ab);
                    assert((m0 | hb) & ab != 0u32);
                    assert(false);
                }
            }
        }
    }
}

/// A table the check accepts is a full schedule: in every week of the
/// table each team of the league plays, and no team plays twice in one
/// week.
pub proof fn accepted_schedule_covers_weeks(rows: Seq<Seq<Seq<char>>>, teams: Seq<(u32, Seq<char>)>)
    requires
        schedule_verdict(rows, teams) is Ok,
    ensures
        forall|i: int, j: int| 0 <= i < rows.len() && 0 <= j < teams.len() ==> exists|k: int|
            0 <= k < rows.len() && week_key(rows[k]) == week_key(#[trigger] rows[i]) && plays(rows[k], #[trigger] teams[j].1),
        forall|k1: int, k2: int|
            0 <= k1 < k2 < rows.len() && week_key(#[trigger] rows[k1]) == week_key(#[trigger] rows[k2]) ==> !plays(
                rows[k1],
                trim(rows[k2][2]),
            ) && !plays(rows[k1], trim(rows[k2][5])),
{
    let n = teams.len();
    lemma_checked_rows(rows, teams);
    lemma_masks(rows, teams);
    lemma_no_team_twice(rows, teams);
    let st = rows_checked(rows, teams)->Ok_0;
    let full = full_mask(n);
    lemma_all_complete(st.2, full);
    assert forall|i: int, j: int| 0 <= i < rows.len() && 0 <= j < teams.len() implies exists|k: int|
        0 <= k < rows.len() && week_key(rows[k]) == week_key(#[trigger] rows[i]) && plays(rows[k], #[trigger] teams[j].1) by {
        let key = week_key(rows[i]);
        assert(week_index(st.2, key.0, key.1) is Some);
        lemma_week_index_found(st.2, key.0, key.1);
        let p = week_index(st.2, key.0, key.1)->Some_0;
        assert(st.2[p].2 == week_bits(rows, (st.2[p].0, st.2[p].1), teams));
        assert(week_bits(rows, key, teams) == full);
        lemma_full_mask_bit(n, j as u32);
        lemma_week_bit_from_row(rows, key, teams, j as u32);
        let k = choose|k: int| 0 <= k < rows.len() && week_key(rows[k]) == key && (#[trigger] row_bits(rows[k], teams) >> (
        j as u32)) & 1u32 == 1u32;
        assert(row_is_game(rows[k], teams));
        let home = trim(rows[k][2]);
        let away = trim(rows[k][5]);
        lemma_last_team_index(teams, home);
        lemma_last_team_index(teams, away);
        let ih = last_team_index(teams, home)->Some_0;
        let ia = last_team_index(teams, away)->Some_0;
        lemma_bits_of_or(team_bit(teams, home)->Some_0, team_bit(teams, away)->Some_0, j as u32);
        lemma_bit_of_shift(ih as u32, j as u32);
        lemma_bit_of_shift(ia as u32, j as u32);
        assert(plays(rows[k], teams[j].1));
    }
}

} // verus!
