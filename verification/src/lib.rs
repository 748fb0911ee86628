//! Library for reading the Brutalball league site: HTML slicing helpers,
//! page parsers for teams, rosters, game results and injuries, a small
//! delimited-text codec used for the local cache and for exports, the
//! command line reading, and the rules behind the window (selection and
//! filtering, merging scrapes, checking a schedule, export files, status
//! lines).

pub mod text;
pub mod tokens;
pub mod base;
pub mod error;
pub mod scrape;
pub mod store;
pub mod file;
pub mod csv;
pub mod config;
pub mod data;
pub mod gui;
pub mod cli;
pub mod specs;
pub mod progress;
pub mod roster;
pub mod engine;
pub mod log;
pub mod gui_config;
pub mod params;
pub mod runner;
