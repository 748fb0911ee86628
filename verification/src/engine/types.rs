//! The description of a table and what reading it gives.

use vstd::prelude::*;

verus! {

/// The kinds of pages a run can read.
#[derive(Clone, Copy)]
pub enum TaskKind {
    Players,
    SeasonStats,
    CareerStats,
    Season,
    Injuries,
}

/// One team or all of them.
#[derive(Clone, Copy)]
pub enum Mode {
    Single(u32),
    All,
}

/// Options of a run.
pub struct RunOpts {
    pub keep_hash: bool,
    pub include_headers: bool,
    pub mode: Mode,
    /// A directory or a file, depending on the mode and kind.
    pub out_dir_or_file: Option<String>,
}

/// What reading one table gave.
pub struct OutputBundle {
    pub filename_stem: String,
    pub headers: Option<Vec<String>>,
    pub rows: Vec<Vec<String>>,
}

/// Where the table stands in the page.
pub enum Locator {
    /// `<tag class=value_sub ...>`.
    TagWithAttr { tag: &'static str, attr: &'static str, value_sub: &'static str },
    /// The first table with this header.
    FirstTableWithHeader(&'static str),
}

/// Where the column names come from.
pub enum HeaderMode {
    ConsecutiveTh,
    /// No column names from the site.
    NoHeaders,
}

/// Which rows are kept.
pub enum RowSelector {
    /// Rows whose opening carries `class="<one of these>"`.
    TrClassAny(&'static [&'static str]),
}

/// Which cells are read.
pub enum CellSelector {
    TdOnly,
    ThThenTd,
}

/// A table description.
pub struct TableSpec {
    /// The page's path, with `{id}` standing for the team id.
    pub path_tmpl: &'static str,
    pub locator: Locator,
    pub header_mode: HeaderMode,
    pub row_selector: RowSelector,
    pub cell_selector: CellSelector,
    /// Fixed column names put before the site's.
    pub header_ops: &'static [&'static str],
    pub drop_first_header: bool,
    pub split_fused_first_cell: bool,
    pub insert_team_at: Option<usize>,
}

} // verus!
