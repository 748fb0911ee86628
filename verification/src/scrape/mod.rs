//! Page readers: each takes the fetched page text and returns rows.

pub mod players;
pub mod collect;
pub mod team_prefix;
pub mod injury_line;
pub mod injury_stream;
pub mod injuries;
pub mod game_results;
pub mod reader_agreement;
