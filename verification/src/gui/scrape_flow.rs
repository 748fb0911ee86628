//! What becomes of a finished scrape in the window: the data set is given
//! the page's default headers where it has none, refused when it has no
//! rows or fails the page's check, and otherwise accepted with a line that
//! says how many rows were found.

use vstd::prelude::*;
use crate::text::{chars_of, decimal, decimal_vec, push_all, string_of};
use crate::store::DataSet;
use crate::config::options::PageKind;
use crate::gui::pages::{default_headers_spec, effective_page, inject_headers_if_missing, GameResultsPage};
use crate::gui::results_check::schedule_verdict;

verus! {

/// The result of a scrape run for one page.
pub enum ScrapeOutcome {
    Accepted { kind: PageKind, ds: DataSet },
    Refused { kind: PageKind, msg: String },
}

/// What the rows of a page are called in the status line.
pub open spec fn rows_noun(kind: PageKind) -> Seq<char> {
    match kind {
        PageKind::Players => "players"@,
        PageKind::GameResults => "games"@,
        PageKind::Teams => "teams"@,
        PageKind::SeasonStats => "season stats"@,
        PageKind::CareerStats => "career stats"@,
        PageKind::Injuries => "injury events"@,
    }
}

fn rows_noun_exec(kind: PageKind) -> (r: &'static str)
    ensures
        r@ == rows_noun(kind),
{
    match kind {
        PageKind::Players => "players",
        PageKind::GameResults => "games",
        PageKind::Teams => "teams",
        PageKind::SeasonStats => "season stats",
        PageKind::CareerStats => "career stats",
        PageKind::Injuries => "injury events",
    }
}

/// The headers a scraped data set has once the page's defaults fill a gap.
pub open spec fn headers_after(kind: PageKind, ds: DataSet) -> Option<Seq<Seq<char>>> {
    if ds.headers is Some { ds.headers_view() } else { default_headers_spec(kind) }
}

/// The outcome of a scrape of page `kind` that returned `ds`, judged
/// against the league's `teams`, and the status line to show when it is
/// accepted.
pub fn scrape_outcome(kind: PageKind, ds: DataSet, teams: &[(u32, String)]) -> (r: (ScrapeOutcome, Option<String>))
    ensures
        ds.rows@.len() == 0 ==> (r.0 matches ScrapeOutcome::Refused { kind: k, msg } && k == kind
            && msg@ == "Scrape returned no rows"@) && r.1 is None,
        ds.rows@.len() > 0 && effective_page(kind) == PageKind::GameResults && schedule_verdict(ds.rows_view(), teams.deep_view()) is Err
            ==> (r.0 matches ScrapeOutcome::Refused { kind: k, msg } && k == kind
            && msg@ == "Validation failed: "@ + schedule_verdict(ds.rows_view(), teams.deep_view())->Err_0) && r.1 is None,
        ds.rows@.len() > 0 && !(effective_page(kind) == PageKind::GameResults && schedule_verdict(ds.rows_view(), teams.deep_view()) is Err)
            ==> (r.0 matches ScrapeOutcome::Accepted { kind: k, ds: out } && k == kind
            && out.headers_view() == headers_after(kind, ds) && out.rows == ds.rows)
            && (r.1 matches Some(line) && line@ == "Found "@ + decimal(ds.rows@.len() as nat) + " "@ + rows_noun(kind)),
{
    let mut ds = ds;
    inject_headers_if_missing(kind, &mut ds);
    let n = ds.rows.len();
    if n == 0 {
        return (ScrapeOutcome::Refused { kind, msg: string_of(&chars_of("Scrape returned no rows")) }, None);
    }
    match kind {
        PageKind::GameResults => {
            let page = GameResultsPage;
            match page.validate_scrape(teams, &ds) {
                Ok(()) => {},
                Err(e) => {
                    let mut m = chars_of("Validation failed: ");
                    push_all(&mut m, &chars_of(e.as_str()));
                    return (ScrapeOutcome::Refused { kind, msg: string_of(&m) }, None);
                },
            }
        },
        _ => {},
    }
    let mut line = chars_of("Found ");
    push_all(&mut line, &decimal_vec(n as u64));
    push_all(&mut line, &chars_of(" "));
    push_all(&mut line, &chars_of(rows_noun_exec(kind)));
    (ScrapeOutcome::Accepted { kind, ds }, Some(string_of(&line)))
}

} // verus!
