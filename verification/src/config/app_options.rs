//! A smaller set of options: the players page, all teams or a list, and
//! an export path kept as directory, stem and extension.

use vstd::prelude::*;


verus! {

/// The page to scrape.
#[derive(Clone, Copy, Debug, PartialEq, Eq, Structural)]
pub enum PageKind {
    Players,
}

/// All teams, or the listed ids.
#[derive(Clone, Debug, PartialEq, Eq)]
pub enum TeamSelector {
    All,
    Ids(Vec<u32>),
}

/// What to scrape.
#[derive(Clone, Debug, PartialEq, Eq)]
pub struct ScraperOptions {
    pub page: PageKind,
    pub teams: TeamSelector,
}

impl Default for ScraperOptions {
    fn default() -> (r: ScraperOptions)
        ensures
            r.page == PageKind::Players,
            r.teams == TeamSelector::All,
    {
        ScraperOptions { page: PageKind::Players, teams: TeamSelector::All }
    }
}

/// One file, or several.
#[derive(Clone, Copy, Debug, PartialEq, Eq, Structural)]
pub enum ExportType {
    SingleFile,
    MultiFile,
}

/// Text format of an export.
#[derive(Clone, Copy, Debug, PartialEq, Eq, Structural)]
pub enum ExportFormat {
    Csv,
    Tsv,
}

pub open spec fn format_ext(f: ExportFormat) -> Seq<char> {
    match f {
        ExportFormat::Csv => "csv"@,
        ExportFormat::Tsv => "tsv"@,
    }
}

impl ExportFormat {
    /// File extension of the format.
    pub fn ext(self) -> (r: String)
        ensures
            r@ == format_ext(self),
    {
        match self {
            ExportFormat::Csv => "csv".to_string(),
            ExportFormat::Tsv => "tsv".to_string(),
        }
    }
}

/// Directory, stem and extension of an export.
#[derive(Clone, Debug, PartialEq, Eq)]
pub struct OutputPath {
    pub dir: String,
    pub stem: String,
    pub ext: String,
}

impl Default for OutputPath {
    fn default() -> (r: OutputPath)
        ensures
            r.dir@ == "out/players"@,
            r.stem@ == "all"@,
            r.ext@ == "csv"@,
    {
        OutputPath { dir: "out/players".to_string(), stem: "all".to_string(), ext: "csv".to_string() }
    }
}

/// How to export.
#[derive(Clone, Debug, PartialEq, Eq)]
pub struct ExportOptions {
    pub format: ExportFormat,
    pub export_type: ExportType,
    pub out_path: OutputPath,
    pub include_headers: bool,
    pub keep_hash: bool,
}

impl Default for ExportOptions {
    fn default() -> (r: ExportOptions)
        ensures
            r.format == ExportFormat::Csv,
            r.export_type == ExportType::SingleFile,
            r.out_path.dir@ == "out/players"@,
            r.out_path.stem@ == "all"@,
            r.out_path.ext@ == "csv"@,
            !r.include_headers,
            !r.keep_hash,
    {
        ExportOptions {
            format: ExportFormat::Csv,
            export_type: ExportType::SingleFile,
            out_path: OutputPath::default(),
            include_headers: false,
            keep_hash: false,
        }
    }
}

impl ExportOptions {
    /// Choose a format; the extension follows it.
    pub fn set_format(&mut self, fmt: ExportFormat)
        ensures
            final(self).format == fmt,
            final(self).out_path.ext@ == format_ext(fmt),
            final(self).out_path.dir == old(self).out_path.dir,
            final(self).out_path.stem == old(self).out_path.stem,
            final(self).export_type == old(self).export_type,
            final(self).include_headers == old(self).include_headers,
            final(self).keep_hash == old(self).keep_hash,
    {
        self.out_path.ext = fmt.ext();
        self.format = fmt;
    }
}

/// Scrape and export options together.
#[derive(Clone, Debug, PartialEq, Eq)]
pub struct AppOptions {
    pub scraper: ScraperOptions,
    pub export: ExportOptions,
}

impl Default for AppOptions {
    fn default() -> (r: AppOptions)
        ensures
            r.scraper.page == PageKind::Players,
            r.scraper.teams == TeamSelector::All,
            r.export.format == ExportFormat::Csv,
            !r.export.include_headers,
    {
        AppOptions { scraper: ScraperOptions::default(), export: ExportOptions::default() }
    }
}

} // verus!
