//! Fixed values: site address, cache location, export defaults, pacing.

use vstd::prelude::*;

verus! {

/// Host of the league site.
pub const HOST: &'static str = "dozerverse.com";

/// Path under which the league's pages live.
pub const PREFIX: &'static str = "/brutalball/";

/// Directory of the local cache.
pub const STORE_DIR: &'static str = ".store";

/// Field separator of cached tables.
pub const STORE_SEP: char = ',';

/// Whether home and away are swapped when reading the schedule.
pub const SCRAPE_FLIP_SIDES: bool = false;

/// Export directory and its per-page subdirectories.
pub const DEFAULT_OUT_DIR: &'static str = "out";
pub const DEFAULT_PLAYERS_SUBDIR: &'static str = "players";
pub const DEFAULT_RESULTS_SUBDIR: &'static str = "results";

/// Default export file stem.
pub const DEFAULT_FILE: &'static str = "all";

/// Parallel requests when reading rosters.
pub const WORKERS: usize = 4;

/// Pause after each request, and the extra spread, in milliseconds.
pub const REQUEST_PAUSE_MS: u64 = 75;
pub const JITTER_MS: u64 = 50;

} // verus!
