//! Splitting a "<team> <player>" segment against the known team names.

use vstd::prelude::*;
use crate::text::{chars_of, opt_chars, trim, trim_start, trim_start_vec, trim_vec, sub_vec};
use crate::tokens::{has_prefix, join_space, join_space_vec, words, words_vec};

verus! {

/// The names of a team list of `(id, name)` pairs.
pub open spec fn team_names(teams: Seq<(u32, Seq<char>)>) -> Seq<Seq<char>> {
    teams.map_values(|t: (u32, Seq<char>)| t.1)
}

/// Longest name of `names[i..]` that starts `s` (an earlier one wins a tie,
/// `best` being the earliest); with `skip_empty` the empty name never counts.
pub open spec fn best_prefix(
    s: Seq<char>,
    names: Seq<Seq<char>>,
    i: int,
    best: Option<Seq<char>>,
    skip_empty: bool,
) -> Option<Seq<char>>
    decreases names.len() - i,
{
    if i < 0 || i >= names.len() {
        best
    } else {
        let n = names[i];
        let cand = has_prefix(s, n) && !(skip_empty && n.len() == 0);
        let longer = match best {
            Some(p) => p.len() < n.len(),
            None => true,
        };
        best_prefix(s, names, i + 1, if cand && longer { Some(n) } else { best }, skip_empty)
    }
}

/// The longest team name that starts `s`, and what follows it (leading
/// whitespace dropped).
pub open spec fn longest_team_prefix(s: Seq<char>, names: Seq<Seq<char>>, skip_empty: bool) -> Option<(Seq<char>, Seq<char>)> {
    match best_prefix(s, names, 0, None, skip_empty) {
        Some(t) => Some((t, trim_start(s.skip(t.len() as int)))),
        None => None,
    }
}

/// Team and player of a segment: the longest team name that starts it and
/// the rest trimmed; failing that, all words but the last two against the
/// last two; nothing when there are fewer than two words.
pub open spec fn split_team_player(pre: Seq<char>, names: Seq<Seq<char>>, skip_empty: bool) -> Option<(Seq<char>, Seq<char>)> {
    match longest_team_prefix(pre, names, skip_empty) {
        Some((t, rest)) => Some((t, trim(rest))),
        None => {
            let ws = words(pre);
            if ws.len() < 2 {
                None
            } else {
                Some((join_space(ws.take(ws.len() - 2)), join_space(ws.skip(ws.len() - 2))))
            }
        },
    }
}

/// As `split_team_player`, but a segment that cannot be split is all team.
pub open spec fn split_offender(pre: Seq<char>, names: Seq<Seq<char>>, skip_empty: bool) -> (Seq<char>, Seq<char>) {
    match split_team_player(pre, names, skip_empty) {
        Some(p) => p,
        None => (pre, Seq::empty()),
    }
}

pub proof fn lemma_best_prefix_is_prefix(s: Seq<char>, names: Seq<Seq<char>>, i: int, best: Option<Seq<char>>, skip_empty: bool)
    requires
        best matches Some(b) ==> has_prefix(s, b),
    ensures
        best_prefix(s, names, i, best, skip_empty) matches Some(b) ==> has_prefix(s, b),
    decreases names.len() - i,
{
    if 0 <= i < names.len() {
        let n = names[i];
        let cand = has_prefix(s, n) && !(skip_empty && n.len() == 0);
        let longer = match best {
            Some(p) => p.len() < n.len(),
            None => true,
        };
        lemma_best_prefix_is_prefix(s, names, i + 1, if cand && longer { Some(n) } else { best }, skip_empty);
    }
}

/// With no empty team name, passing over empty names changes nothing.
pub proof fn lemma_skip_empty_same(s: Seq<char>, names: Seq<Seq<char>>, i: int, best: Option<Seq<char>>)
    requires
        forall|k: int| 0 <= k < names.len() ==> #[trigger] names[k].len() > 0,
    ensures
        best_prefix(s, names, i, best, true) == best_prefix(s, names, i, best, false),
    decreases names.len() - i,
{
    if 0 <= i < names.len() {
        let n = names[i];
        assert(names[i].len() > 0);
        let cand = has_prefix(s, n);
        let longer = match best {
            Some(p) => p.len() < n.len(),
            None => true,
        };
        lemma_skip_empty_same(s, names, i + 1, if cand && longer { Some(n) } else { best });
    }
}

/// The names of a team list.
pub fn names_of(teams: &[(u32, String)]) -> (v: Vec<Vec<char>>)
    ensures
        v.deep_view() == team_names(teams.deep_view()),
{
    let mut v: Vec<Vec<char>> = Vec::new();
    let mut i: usize = 0;
    while i < teams.len()
        invariant
            i <= teams@.len(),
            v.deep_view() == team_names(teams.deep_view()).take(i as int),
        decreases teams@.len() - i,
    {
        let ghost prev = v.deep_view();
        let n = chars_of(teams[i].1.as_str());
        assert(teams.deep_view()[i as int] == (teams@[i as int].0, teams@[i as int].1@));
        crate::text::push_text(&mut v, n);
        assert(team_names(teams.deep_view()).take(i + 1) =~= team_names(teams.deep_view()).take(i as int).push(
            teams@[i as int].1@,
        ));
        i = i + 1;
    }
    assert(team_names(teams.deep_view()).take(i as int) =~= team_names(teams.deep_view()));
    v
}

pub fn best_prefix_vec(s: &[char], names: &Vec<Vec<char>>, skip_empty: bool) -> (r: Option<Vec<char>>)
    ensures
        match r {
            Some(t) => best_prefix(s@, names.deep_view(), 0, None, skip_empty) == Some(t@) && has_prefix(s@, t@),
            None => best_prefix(s@, names.deep_view(), 0, None, skip_empty) is None,
        },
{
    let mut best: Option<Vec<char>> = None;
    let mut i: usize = 0;
    proof {
        lemma_best_prefix_is_prefix(s@, names.deep_view(), 0, None, skip_empty);
    }
    while i < names.len()
        invariant
            i <= names@.len(),
            best_prefix(s@, names.deep_view(), 0, None, skip_empty) == best_prefix(
                s@,
                names.deep_view(),
                i as int,
                opt_chars(best),
                skip_empty,
            ),
            best matches Some(b) ==> has_prefix(s@, b@),
        decreases names@.len() - i,
    {
        let n = &names[i];
        assert(names.deep_view()[i as int] == n@);
        let cand = crate::text::starts_with(s, n.as_slice()) && !(skip_empty && n.len() == 0);
        let longer = match &best {
            Some(p) => p.len() < n.len(),
            None => true,
        };
        if cand && longer {
            best = Some(sub_vec(n.as_slice(), 0, n.len()));
            assert(n@.subrange(0, n@.len() as int) =~= n@);
        }
        i = i + 1;
    }
    proof {
        lemma_best_prefix_is_prefix(
            s@,
            names.deep_view(),
            i as int,
            opt_chars(best),
            skip_empty,
        );
    }
    best
}

pub fn split_team_player_vec(pre: &[char], names: &Vec<Vec<char>>, skip_empty: bool) -> (r: Option<(Vec<char>, Vec<char>)>)
    ensures
        match r {
            Some((a, b)) => split_team_player(pre@, names.deep_view(), skip_empty) == Some((a@, b@)),
            None => split_team_player(pre@, names.deep_view(), skip_empty) is None,
        },
{
    match best_prefix_vec(pre, names, skip_empty) {
        Some(t) => {
            let rest = trim_start_vec(&sub_vec(pre, t.len(), pre.len()));
            assert(pre@.subrange(t@.len() as int, pre@.len() as int) =~= pre@.skip(t@.len() as int));
            let p = trim_vec(&rest);
            Some((t, p))
        },
        None => {
            let ws = words_vec(pre);
            let n = ws.len();
            if n < 2 {
                None
            } else {
                let sa = vstd::slice::slice_subrange(ws.as_slice(), 0, n - 2);
                let sb = vstd::slice::slice_subrange(ws.as_slice(), n - 2, n);
                assert(sa.deep_view() =~= ws.deep_view().take(n - 2));
                assert(sb.deep_view() =~= ws.deep_view().skip(n - 2));
                let a = join_space_vec(sa);
                let b = join_space_vec(sb);
                Some((a, b))
            }
        },
    }
}

pub fn split_offender_vec(pre: &[char], names: &Vec<Vec<char>>, skip_empty: bool) -> (r: (Vec<char>, Vec<char>))
    ensures
        (r.0@, r.1@) == split_offender(pre@, names.deep_view(), skip_empty),
{
    match split_team_player_vec(pre, names, skip_empty) {
        Some(p) => p,
        None => {
            let whole = sub_vec(pre, 0, pre.len());
            assert(pre@.subrange(0, pre@.len() as int) =~= pre@);
            (whole, Vec::new())
        },
    }
}

} // verus!
