//! The logic behind the tabbed window: pages, the table model and the
//! status line of a running scrape.

pub mod pages;
pub mod table_model;
pub mod progress;
pub mod results_check;
pub mod scrape_flow;
pub mod view_state;
pub mod export_plan;
