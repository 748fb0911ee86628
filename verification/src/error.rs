//! Errors reported by the page parsers.

use vstd::prelude::*;
use crate::text::{chars_of, decimal, decimal_vec, push_all, string_of};

verus! {

/// Why a page could not be turned into rows.
#[derive(Debug)]
pub enum ScrapeError {
    /// The roster page has no `<table class=teamroster>`.
    TableNotFound,
    /// The three places that name the team on its page are not all present
    /// and equal.
    TeamNameMismatch {
        team_id: u32,
        title: Option<String>,
        active_tab: Option<String>,
        menu_header: Option<String>,
    },
}

/// `s` as Rust's `Debug` prints a string whose only special characters
/// are `"` and `\`.
pub open spec fn debug_escape(s: Seq<char>) -> Seq<char>
    decreases s.len(),
{
    if s.len() == 0 {
        Seq::empty()
    } else {
        let c = s[0];
        let head = if c == '"' || c == '\\' { seq!['\\', c] } else { seq![c] };
        head + debug_escape(s.drop_first())
    }
}

pub open spec fn debug_opt(o: Option<Seq<char>>) -> Seq<char> {
    match o {
        None => "None"@,
        Some(s) => "Some(\""@ + debug_escape(s) + "\")"@,
    }
}

pub open spec fn opt_view(o: Option<String>) -> Option<Seq<char>> {
    match o {
        None => None,
        Some(s) => Some(s@),
    }
}

pub open spec fn mismatch_message(
    team_id: u32,
    title: Option<Seq<char>>,
    tab: Option<Seq<char>>,
    header: Option<Seq<char>>,
) -> Seq<char> {
    "Team name mismatch for team "@ + decimal(team_id as nat) + ": title="@ + debug_opt(title)
        + ", active_tab="@ + debug_opt(tab) + ", menu_header="@ + debug_opt(header)
        + ". Site format may have changed. Aborting scrape to prevent data corruption."@
}

pub open spec fn scrape_error_message(e: ScrapeError) -> Seq<char> {
    match e {
        ScrapeError::TableNotFound => "teamroster table not found"@,
        ScrapeError::TeamNameMismatch { team_id, title, active_tab, menu_header } => mismatch_message(
            team_id,
            opt_view(title),
            opt_view(active_tab),
            opt_view(menu_header),
        ),
    }
}

fn push_debug_escape(out: &mut Vec<char>, s: &str)
    ensures
        final(out)@ == old(out)@ + debug_escape(s@),
{
    let v = chars_of(s);
    let mut i: usize = 0;
    assert(v@.skip(0) =~= v@);
    while i < v.len()
        invariant
            i <= v@.len(),
            v@ == s@,
            old(out)@ + debug_escape(v@) == out@ + debug_escape(v@.skip(i as int)),
        decreases v@.len() - i,
    {
        assert(v@.skip(i as int).drop_first() =~= v@.skip(i + 1));
        let c = v[i];
        let ghost before = out@;
        if c == '"' || c == '\\' {
            out.push('\\');
        }
        out.push(c);
        proof {
            let head = if c == '"' || c == '\\' { seq!['\\', c] } else { seq![c] };
            assert(out@ =~= before + head);
            assert(debug_escape(v@.skip(i as int)) == head + debug_escape(v@.skip(i + 1)));
            assert(before + debug_escape(v@.skip(i as int)) =~= out@ + debug_escape(v@.skip(i + 1)));
        }
        i = i + 1;
    }
    assert(v@.skip(i as int) =~= Seq::<char>::empty());
}

fn push_debug_opt(out: &mut Vec<char>, o: &Option<String>)
    ensures
        final(out)@ == old(out)@ + debug_opt(opt_view(*o)),
{
    match o {
        None => {
            push_all(out, &chars_of("None"));
        },
        Some(s) => {
            let ghost before = out@;
            push_all(out, &chars_of("Some(\""));
            push_debug_escape(out, s.as_str());
            push_all(out, &chars_of("\")"));
            assert(out@ =~= before + ("Some(\""@ + debug_escape(s@) + "\")"@));
        },
    }
}

impl ScrapeError {
    /// Human-readable description of the error.
    pub fn message(&self) -> (r: String)
        ensures
            r@ == scrape_error_message(*self),
    {
        match self {
            ScrapeError::TableNotFound => string_of(&chars_of("teamroster table not found")),
            ScrapeError::TeamNameMismatch { team_id, title, active_tab, menu_header } => {
                let mut out = chars_of("Team name mismatch for team ");
                push_all(&mut out, &decimal_vec(*team_id as u64));
                push_all(&mut out, &chars_of(": title="));
                push_debug_opt(&mut out, title);
                push_all(&mut out, &chars_of(", active_tab="));
                push_debug_opt(&mut out, active_tab);
                push_all(&mut out, &chars_of(", menu_header="));
                push_debug_opt(&mut out, menu_header);
                push_all(
                    &mut out,
                    &chars_of(". Site format may have changed. Aborting scrape to prevent data corruption."),
                );
                string_of(&out)
            },
        }
    }
}

} // verus!
