//! The run parameters of the first command line tool: which page, which
//! teams, where the export goes and in what shape.

use vstd::prelude::*;
use crate::csv::Delim;
use crate::base::paths::{join_path, join_spec};

verus! {

pub const DEFAULT_OUT_DIR: &'static str = "out";
pub const PLAYERS_SUBDIR: &'static str = "players";
pub const DEFAULT_MERGED_FILENAME: &'static str = "players.csv";
pub const HOST: &'static str = "dozerverse.com";
pub const PREFIX: &'static str = "/brutalball/";

/// The pages a run can read.
#[derive(Clone, Copy, Debug, PartialEq, Eq)]
pub enum PageKind {
    Players,
}

/// What a run does.
pub struct Params {
    /// The page to read.
    pub page: PageKind,
    /// Read all teams.
    pub all: bool,
    /// Read one team.
    pub one_team: Option<u32>,
    /// A directory for one file per team, else the file of the merged export.
    pub out: Option<String>,
    pub keep_hash: bool,
    pub include_headers: bool,
    /// List the teams and stop.
    pub list_teams: bool,
    /// Read only these teams.
    pub ids_filter: Option<Vec<u32>>,
    /// One file per team rather than one merged file.
    pub per_team: bool,
    pub format: Delim,
}

impl Params {
    /// All teams of the players page into `out/players.csv`, without
    /// header row or `#`, as comma-separated text.
    pub fn new() -> (p: Params)
        ensures
            p.page == PageKind::Players,
            p.all,
            p.one_team is None,
            p.out matches Some(o) && o@ == join_spec(DEFAULT_OUT_DIR@, DEFAULT_MERGED_FILENAME@),
            !p.keep_hash,
            !p.include_headers,
            !p.list_teams,
            p.ids_filter is None,
            !p.per_team,
            p.format == Delim::Csv,
    {
        Params {
            page: PageKind::Players,
            all: true,
            one_team: None,
            out: Some(join_path(DEFAULT_OUT_DIR, DEFAULT_MERGED_FILENAME)),
            keep_hash: false,
            include_headers: false,
            list_teams: false,
            ids_filter: None,
            per_team: false,
            format: Delim::Csv,
        }
    }
}

} // verus!
