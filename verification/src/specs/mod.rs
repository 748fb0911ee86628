//! Readers of the site's pages that give a table (headers and rows).

pub mod teams;
pub mod game_results;
pub mod players;
