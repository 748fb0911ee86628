//! Season schedule as a table with headers; the first cell of a game row is
//! the home side and the third the away side.

use vstd::prelude::*;
use crate::text::{chars_of, rows_of, string_of};
use crate::error::opt_view;
use crate::scrape::game_results::{schedule_games, schedule_games_vec, season_in_title, season_in_title_vec};

verus! {

/// Header and rows of the schedule.
pub struct GameResultsBundle {
    pub headers: Option<Vec<String>>,
    pub rows: Vec<Vec<String>>,
}

pub open spec fn schedule_headers() -> Seq<Seq<char>> {
    seq!["S"@, "W"@, "Home team"@, "Home"@, "Away"@, "Away team"@, "Match id"@]
}

/// Season of a page: the first digits in its title from the word `season` on.
pub fn detect_season(doc: &str) -> (r: Option<String>)
    ensures
        opt_view(r) == season_in_title(doc@, 0),
{
    match season_in_title_vec(&chars_of(doc), 0) {
        Some(s) => Some(string_of(&s)),
        None => None,
    }
}

/// The schedule table of the page `html_doc` (fetched by the caller from
/// `/season.php`); when its title names no season, `fallback_season` (read
/// by the caller from the statistics pages) is used, else the season is empty.
pub fn fetch(html_doc: &str, fallback_season: Option<String>) -> (r: GameResultsBundle)
    ensures
        crate::text::opt_texts(r.headers) == Some(schedule_headers()),
        r.rows.deep_view() == schedule_games(
            html_doc@,
            match season_in_title(html_doc@, 0) {
                Some(s) => s,
                None => match opt_view(fallback_season) {
                    Some(f) => f,
                    None => Seq::empty(),
                },
            },
            true,
            0,
        ),
{
    let doc = chars_of(html_doc);
    let season = match season_in_title_vec(&doc, 0) {
        Some(s) => s,
        None => match fallback_season {
            Some(f) => chars_of(f.as_str()),
            None => Vec::new(),
        },
    };
    let rows = rows_of(&schedule_games_vec(&doc, &season, true));
    let mut h: Vec<String> = Vec::new();
    h.push("S".to_string());
    h.push("W".to_string());
    h.push("Home team".to_string());
    h.push("Home".to_string());
    h.push("Away".to_string());
    h.push("Away team".to_string());
    h.push("Match id".to_string());
    assert(h.deep_view() =~= schedule_headers());
    GameResultsBundle { headers: Some(h), rows }
}

} // verus!
