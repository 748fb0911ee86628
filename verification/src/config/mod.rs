//! Settings: fixed values, scrape and export options.

pub mod consts;
pub mod options;
pub mod app_options;
