//! What to scrape (page, teams) and how to export (format, layout, path,
//! header row, `#` in player numbers).

use vstd::prelude::*;
use crate::text::{chars_of, lower_seq, lower_vec, push_all, seq_eq, string_of, trim, trim_vec};
use crate::error::opt_view;
use crate::base::paths::{
    join_path, join_spec, path_eq, path_ext_of, path_extension, path_file_stem, path_norm_of, path_normalize,
    path_parent, path_parent_of, path_stem_of, paths_equal,
};
use crate::config::consts::{DEFAULT_FILE, DEFAULT_OUT_DIR, DEFAULT_PLAYERS_SUBDIR, DEFAULT_RESULTS_SUBDIR};

verus! {

/* ---------------- pages ---------------- */

/// A page of the site; each has its own reader.
#[derive(Clone, Copy, Debug, Hash, PartialEq, Eq, Structural)]
pub enum PageKind {
    Teams,
    Players,
    SeasonStats,
    CareerStats,
    GameResults,
    Injuries,
}

/// The name of a page.
pub open spec fn page_name(k: PageKind) -> Seq<char> {
    match k {
        PageKind::Teams => "teams"@,
        PageKind::Players => "players"@,
        PageKind::SeasonStats => "season-stats"@,
        PageKind::CareerStats => "career-stats"@,
        PageKind::GameResults => "game-results"@,
        PageKind::Injuries => "injuries"@,
    }
}

/// The page a lowercase key names (compound names with no separator, `_` or `-`).
pub open spec fn page_of_key(s: Seq<char>) -> Option<PageKind> {
    if s == "teams"@ {
        Some(PageKind::Teams)
    } else if s == "players"@ {
        Some(PageKind::Players)
    } else if s == "seasonstats"@ || s == "season_stats"@ || s == "season-stats"@ {
        Some(PageKind::SeasonStats)
    } else if s == "careerstats"@ || s == "career_stats"@ || s == "career-stats"@ {
        Some(PageKind::CareerStats)
    } else if s == "gameresults"@ || s == "game_results"@ || s == "game-results"@ {
        Some(PageKind::GameResults)
    } else if s == "injuries"@ {
        Some(PageKind::Injuries)
    } else {
        None
    }
}

/// A page name read: trimmed and lowercased, then looked up; an unknown
/// name gives `Unknown page: <key>`.
pub open spec fn parse_page_spec(s: Seq<char>) -> Result<PageKind, Seq<char>> {
    let key = lower_seq(trim(s));
    match page_of_key(key) {
        Some(k) => Ok(k),
        None => Err("Unknown page: "@ + key),
    }
}

fn eq_str(a: &[char], b: &str) -> (r: bool)
    ensures
        r == (a@ == b@),
{
    seq_eq(a, &chars_of(b))
}

impl PageKind {
    /// The page named by `s` (see `parse_page_spec`).
    pub fn parse(s: &str) -> (r: Result<PageKind, String>)
        ensures
            match r {
                Ok(k) => parse_page_spec(s@) == Ok::<PageKind, Seq<char>>(k),
                Err(e) => parse_page_spec(s@) == Err::<PageKind, Seq<char>>(e@),
            },
    {
        let key = lower_vec(&trim_vec(&chars_of(s)));
        if eq_str(&key, "teams") {
            Ok(PageKind::Teams)
        } else if eq_str(&key, "players") {
            Ok(PageKind::Players)
        } else if eq_str(&key, "seasonstats") || eq_str(&key, "season_stats") || eq_str(&key, "season-stats") {
            Ok(PageKind::SeasonStats)
        } else if eq_str(&key, "careerstats") || eq_str(&key, "career_stats") || eq_str(&key, "career-stats") {
            Ok(PageKind::CareerStats)
        } else if eq_str(&key, "gameresults") || eq_str(&key, "game_results") || eq_str(&key, "game-results") {
            Ok(PageKind::GameResults)
        } else if eq_str(&key, "injuries") {
            Ok(PageKind::Injuries)
        } else {
            let mut m = chars_of("Unknown page: ");
            push_all(&mut m, &key);
            Err(string_of(&m))
        }
    }

    /// The page's name (what `Display` would print).
    pub fn name(&self) -> (r: &'static str)
        ensures
            r@ == page_name(*self),
    {
        match self {
            PageKind::Teams => "teams",
            PageKind::Players => "players",
            PageKind::SeasonStats => "season-stats",
            PageKind::CareerStats => "career-stats",
            PageKind::GameResults => "game-results",
            PageKind::Injuries => "injuries",
        }
    }
}

impl std::str::FromStr for PageKind {
    type Err = String;

    fn from_str(s: &str) -> (r: Result<Self, Self::Err>)
        ensures
            match r {
                Ok(k) => parse_page_spec(s@) == Ok::<PageKind, Seq<char>>(k),
                Err(e) => parse_page_spec(s@) == Err::<PageKind, Seq<char>>(e@),
            },
    {
        PageKind::parse(s)
    }
}

/// A page's name reads back as that page.
pub proof fn page_name_reads_back(k: PageKind)
    ensures
        parse_page_spec(page_name(k)) == Ok::<PageKind, Seq<char>>(k),
{
    reveal_strlit("teams");
    reveal_strlit("players");
    reveal_strlit("season-stats");
    reveal_strlit("career-stats");
    reveal_strlit("game-results");
    reveal_strlit("injuries");
    reveal_strlit("seasonstats");
    reveal_strlit("season_stats");
    reveal_strlit("careerstats");
    reveal_strlit("career_stats");
    reveal_strlit("gameresults");
    reveal_strlit("game_results");
    let n = page_name(k);
    assert(trim(n) == n) by {
        crate::text::lemma_trim_plain(n);
    }
    assert(lower_seq(n) =~= n);
}

/* ---------------- team selection ---------------- */

/// Which teams to scrape.
#[derive(Clone, Debug, PartialEq, Eq)]
pub enum TeamSelector {
    All,
    One(u32),
    Ids(Vec<u32>),
}

/// Ids strictly increase along `s`.
pub open spec fn strictly_increasing(s: Seq<u32>) -> bool {
    forall|a: int, b: int| 0 <= a < b < s.len() ==> #[trigger] s[a] < #[trigger] s[b]
}

/// `n` is `t` with team `v` selected as well: `All` becomes that team, one
/// team becomes a list of both, a list grows by it.
pub open spec fn selector_added(t: TeamSelector, v: u32, n: TeamSelector) -> bool {
    match t {
        TeamSelector::All => n == TeamSelector::One(v),
        TeamSelector::One(p) => n matches TeamSelector::Ids(l) && l@ == seq![p, v],
        TeamSelector::Ids(l0) => n matches TeamSelector::Ids(l) && l@ == l0@.push(v),
    }
}

/// `n` is `t` with each of `vs` selected in turn.
pub open spec fn selector_extended(t: TeamSelector, vs: Seq<u32>, n: TeamSelector) -> bool {
    &&& vs.len() == 0 ==> n == t
    &&& vs.len() > 0 ==> match t {
        TeamSelector::All => if vs.len() == 1 {
            n == TeamSelector::One(vs[0])
        } else {
            n matches TeamSelector::Ids(l) && l@ == vs
        },
        TeamSelector::One(p) => n matches TeamSelector::Ids(l) && l@ == seq![p] + vs,
        TeamSelector::Ids(l0) => n matches TeamSelector::Ids(l) && l@ == l0@ + vs,
    }
}

/// `n` is `t` with a list of ids sorted without repeats; `All` and one
/// team stay as they are.
pub open spec fn selector_normalized(t: TeamSelector, n: TeamSelector) -> bool {
    match t {
        TeamSelector::Ids(l0) => n matches TeamSelector::Ids(l) && strictly_increasing(l@) && forall|x: u32|
            l@.contains(x) <==> l0@.contains(x),
        _ => n == t,
    }
}

impl TeamSelector {
    /// Select one more team: `All` becomes that team, one team becomes a
    /// list of both, a list grows by it.
    pub fn add(&mut self, v: u32)
        ensures
            selector_added(*old(self), v, *final(self)),
    {
        match self {
            TeamSelector::All => {
                *self = TeamSelector::One(v);
            },
            TeamSelector::One(prev) => {
                let p = *prev;
                let mut l: Vec<u32> = Vec::new();
                l.push(p);
                l.push(v);
                assert(l@ =~= seq![p, v]);
                *self = TeamSelector::Ids(l);
            },
            TeamSelector::Ids(list) => {
                list.push(v);
            },
        }
    }

    /// Select each of `vs` in turn.
    pub fn extend(&mut self, vs: &[u32])
        ensures
            selector_extended(*old(self), vs@, *final(self)),
    {
        let mut i: usize = 0;
        while i < vs.len()
            invariant
                i <= vs@.len(),
                i == 0 ==> *self == *old(self),
                i > 0 ==> match *old(self) {
                    TeamSelector::All => if i == 1 {
                        *self == TeamSelector::One(vs@[0])
                    } else {
                        *self matches TeamSelector::Ids(l) && l@ == vs@.take(i as int)
                    },
                    TeamSelector::One(p) => *self matches TeamSelector::Ids(l) && l@ == seq![p] + vs@.take(i as int),
                    TeamSelector::Ids(l0) => *self matches TeamSelector::Ids(l) && l@ == l0@ + vs@.take(i as int),
                },
            decreases vs@.len() - i,
        {
            self.add(vs[i]);
            proof {
                assert(vs@.take(i + 1) =~= vs@.take(i as int).push(vs@[i as int]));
                if i == 1 {
                    assert(vs@.take(2) =~= seq![vs@[0], vs@[1]]);
                }
                assert(vs@.take(1) =~= seq![vs@[0]]);
            }
            i = i + 1;
        }
        assert(vs@.take(i as int) =~= vs@);
    }

    /// Sort a list of ids and drop repeats; `All` and one team stay as they are.
    pub fn normalize(&mut self)
        ensures
            selector_normalized(*old(self), *final(self)),
    {
        match self {
            TeamSelector::Ids(list) => {
                let sorted = sorted_ids(list);
                *list = sorted;
            },
            _ => {},
        }
    }
}

/// The distinct ids of `l` in increasing order.
pub fn sorted_ids(l: &Vec<u32>) -> (r: Vec<u32>)
    ensures
        strictly_increasing(r@),
        forall|x: u32| r@.contains(x) <==> l@.contains(x),
{
    let mut r: Vec<u32> = Vec::new();
    let mut i: usize = 0;
    while i < l.len()
        invariant
            i <= l@.len(),
            strictly_increasing(r@),
            forall|x: u32| r@.contains(x) <==> l@.take(i as int).contains(x),
        decreases l@.len() - i,
    {
        let v = l[i];
        let mut p: usize = 0;
        while p < r.len() && r[p] < v
            invariant
                p <= r@.len(),
                forall|a: int| 0 <= a < p ==> #[trigger] r@[a] < v,
            decreases r@.len() - p,
        {
            p = p + 1;
        }
        let ghost before = r@;
        assert(l@.take(i + 1) =~= l@.take(i as int).push(v));
        if p < r.len() && r[p] == v {
            assert forall|x: u32| r@.contains(x) <==> l@.take(i + 1).contains(x) by {
                if l@.take(i + 1).contains(x) && x == v {
                    assert(r@[p as int] == v);
                }
                if l@.take(i as int).contains(x) {
                    let k = choose|k: int| 0 <= k < i && #[trigger] l@.take(i as int)[k] == x;
                    assert(l@.take(i + 1)[k] == x);
                }
                if l@.take(i + 1).contains(x) && x != v {
                    let k = choose|k: int| 0 <= k < i + 1 && #[trigger] l@.take(i + 1)[k] == x;
                    assert(l@.take(i as int)[k] == x);
                }
            }
        } else {
            r.insert(p, v);
            assert(r@ =~= before.insert(p as int, v));
            assert(strictly_increasing(r@)) by {
                assert forall|a: int, b: int| 0 <= a < b < r@.len() implies #[trigger] r@[a] < #[trigger] r@[b] by {
                    if b < p {
                    } else if b == p {
                    } else if a < p {
                        assert(r@[b] == before[b - 1]);
                        if a < b - 1 {
                            assert(before[a] < before[b - 1]);
                        }
                        if (p as int) < before.len() {
                            assert(v < before[p as int]);
                        }
                        if b - 1 > p {
                            assert(before[p as int] < before[b - 1]);
                        }
                    } else if a == p {
                        assert(r@[b] == before[b - 1]);
                        assert(v < before[p as int]);
                        if b - 1 > p {
                            assert(before[p as int] < before[b - 1]);
                        }
                    } else {
                        assert(r@[a] == before[a - 1]);
                        assert(r@[b] == before[b - 1]);
                    }
                }
            }
            assert forall|x: u32| r@.contains(x) <==> l@.take(i + 1).contains(x) by {
                if r@.contains(x) {
                    let k = choose|k: int| 0 <= k < r@.len() && #[trigger] r@[k] == x;
                    if k < p {
                        assert(before[k] == x);
                    } else if k > p {
                        assert(before[k - 1] == x);
                    } else {
                        assert(l@.take(i + 1)[i as int] == v);
                    }
                    if x != v {
                        assert(before.contains(x));
                        let j = choose|j: int| 0 <= j < i && #[trigger] l@.take(i as int)[j] == x;
                        assert(l@.take(i + 1)[j] == x);
                    }
                }
                if l@.take(i + 1).contains(x) {
                    let k = choose|k: int| 0 <= k < i + 1 && #[trigger] l@.take(i + 1)[k] == x;
                    if k == i {
                        assert(r@[p as int] == v);
                    } else {
                        assert(l@.take(i as int)[k] == x);
                        assert(before.contains(x));
                        let j = choose|j: int| 0 <= j < before.len() && #[trigger] before[j] == x;
                        if j < p {
                            assert(r@[j] == x);
                        } else {
                            assert(r@[j + 1] == x);
                        }
                    }
                }
            }
        }
        i = i + 1;
    }
    assert(l@.take(i as int) =~= l@);
    r
}

/// What to scrape.
#[derive(Clone, Debug, PartialEq, Eq)]
pub struct ScrapeOptions {
    pub page: PageKind,
    pub teams: TeamSelector,
}

impl ScrapeOptions {
    /// The players page, all teams.
    pub fn new() -> (r: ScrapeOptions)
        ensures
            r.page == PageKind::Players,
            r.teams == TeamSelector::All,
    {
        ScrapeOptions { page: PageKind::Players, teams: TeamSelector::All }
    }
}

impl Default for ScrapeOptions {
    fn default() -> (r: ScrapeOptions)
        ensures
            r.page == PageKind::Players,
            r.teams == TeamSelector::All,
    {
        ScrapeOptions::new()
    }
}

/* ---------------- export ---------------- */

/// One file, or one file per team in a directory.
#[derive(Clone, Copy, Debug, PartialEq, Eq, Structural)]
pub enum ExportType {
    SingleFile,
    PerTeam,
}

/// Text format of an export.
#[derive(Clone, Copy, Debug, PartialEq, Eq, Structural)]
pub enum ExportFormat {
    Csv,
    Tsv,
}

pub open spec fn format_ext(f: ExportFormat) -> Seq<char> {
    match f {
        ExportFormat::Csv => "csv"@,
        ExportFormat::Tsv => "tsv"@,
    }
}

pub open spec fn format_sep(f: ExportFormat) -> char {
    match f {
        ExportFormat::Csv => ',',
        ExportFormat::Tsv => '\t',
    }
}

/// A format name read: trimmed and lowercased; an unknown name gives
/// `Unknown format: <key>`.
pub open spec fn parse_format_spec(s: Seq<char>) -> Result<ExportFormat, Seq<char>> {
    let key = lower_seq(trim(s));
    if key == "csv"@ {
        Ok(ExportFormat::Csv)
    } else if key == "tsv"@ {
        Ok(ExportFormat::Tsv)
    } else {
        Err("Unknown format: "@ + key)
    }
}

impl ExportFormat {
    /// File extension of the format.
    pub fn ext(&self) -> (r: &'static str)
        ensures
            r@ == format_ext(*self),
    {
        match self {
            ExportFormat::Csv => "csv",
            ExportFormat::Tsv => "tsv",
        }
    }

    /// Field separator of the format.
    pub fn delimiter(&self) -> (r: Option<char>)
        ensures
            r == Some(format_sep(*self)),
    {
        match self {
            ExportFormat::Csv => Some(','),
            ExportFormat::Tsv => Some('\t'),
        }
    }

    /// The format named by `s` (see `parse_format_spec`).
    pub fn parse(s: &str) -> (r: Result<ExportFormat, String>)
        ensures
            match r {
                Ok(f) => parse_format_spec(s@) == Ok::<ExportFormat, Seq<char>>(f),
                Err(e) => parse_format_spec(s@) == Err::<ExportFormat, Seq<char>>(e@),
            },
    {
        let key = lower_vec(&trim_vec(&chars_of(s)));
        if eq_str(&key, "csv") {
            Ok(ExportFormat::Csv)
        } else if eq_str(&key, "tsv") {
            Ok(ExportFormat::Tsv)
        } else {
            let mut m = chars_of("Unknown format: ");
            push_all(&mut m, &key);
            Err(string_of(&m))
        }
    }

    /// The format's name (what `Display` would print).
    pub fn name(&self) -> (r: &'static str)
        ensures
            r@ == format_ext(*self),
    {
        self.ext()
    }
}

impl std::str::FromStr for ExportFormat {
    type Err = String;

    fn from_str(s: &str) -> (r: Result<Self, Self::Err>)
        ensures
            match r {
                Ok(f) => parse_format_spec(s@) == Ok::<ExportFormat, Seq<char>>(f),
                Err(e) => parse_format_spec(s@) == Err::<ExportFormat, Seq<char>>(e@),
            },
    {
        ExportFormat::parse(s)
    }
}

/// A format's name reads back as that format.
pub proof fn format_name_reads_back(f: ExportFormat)
    ensures
        parse_format_spec(format_ext(f)) == Ok::<ExportFormat, Seq<char>>(f),
{
    reveal_strlit("csv");
    reveal_strlit("tsv");
    let n = format_ext(f);
    assert(trim(n) == n) by {
        crate::text::lemma_trim_plain(n);
    }
    assert(lower_seq(n) =~= n);
}

/// Where an export goes: a directory, a file stem, and an extension chosen
/// by the user (else the format's).
#[derive(Clone, Debug, PartialEq, Eq)]
pub struct OutputPath {
    pub dir: String,
    pub file_stem: String,
    pub file_ext: Option<String>,
}

/// `out/players`.
pub open spec fn default_players_dir() -> Seq<char> {
    join_spec(DEFAULT_OUT_DIR@, DEFAULT_PLAYERS_SUBDIR@)
}

impl OutputPath {
    /// `out/players/all`, extension from the format.
    pub fn new() -> (r: OutputPath)
        ensures
            r.dir@ == default_players_dir(),
            r.file_stem@ == DEFAULT_FILE@,
            r.file_ext is None,
    {
        OutputPath { dir: join_path(DEFAULT_OUT_DIR, DEFAULT_PLAYERS_SUBDIR), file_stem: DEFAULT_FILE.to_string(), file_ext: None }
    }
}

impl Default for OutputPath {
    fn default() -> (r: OutputPath)
        ensures
            r.dir@ == default_players_dir(),
            r.file_stem@ == DEFAULT_FILE@,
            r.file_ext is None,
    {
        OutputPath::new()
    }
}

/// How to export.
#[derive(Clone, Debug, PartialEq, Eq)]
pub struct ExportOptions {
    pub format: ExportFormat,
    pub export_type: ExportType,
    pub out_path: OutputPath,
    pub include_headers: bool,
    pub keep_hash: bool,
}

/// Default directory of a page's exports.
pub open spec fn default_dir_spec(kind: PageKind) -> Seq<char> {
    let sub = match kind {
        PageKind::GameResults => DEFAULT_RESULTS_SUBDIR@,
        _ => DEFAULT_PLAYERS_SUBDIR@,
    };
    join_spec(DEFAULT_OUT_DIR@, sub)
}

/// The file name of a single-file export: stem, then `.` and the chosen
/// extension (else the format's) when that is not empty.
pub open spec fn file_name_spec(o: ExportOptions) -> Seq<char> {
    let ext = match opt_view(o.out_path.file_ext) {
        Some(e) => e,
        None => format_ext(o.format),
    };
    if ext.len() > 0 { o.out_path.file_stem@ + seq!['.'] + ext } else { o.out_path.file_stem@ }
}

/// Target of an export: the file for a single file, the directory per team.
pub open spec fn out_path_spec(o: ExportOptions) -> Seq<char> {
    match o.export_type {
        ExportType::SingleFile => join_spec(o.out_path.dir@, file_name_spec(o)),
        ExportType::PerTeam => o.out_path.dir@,
    }
}

/// What taking the typed path `text` does to the export options `o`,
/// giving `n` (see `ExportOptions::set_path`).
pub open spec fn path_set(o: ExportOptions, text: Seq<char>, n: ExportOptions) -> bool {
    let s = trim(text);
    &&& n.format == o.format
    &&& n.export_type == o.export_type
    &&& n.include_headers == o.include_headers
    &&& n.keep_hash == o.keep_hash
    &&& match o.export_type {
        ExportType::SingleFile => {
            &&& n.out_path.dir@ == (match path_parent_of(s) {
                Some(p) => if p.len() > 0 { path_norm_of(p) } else { o.out_path.dir@ },
                None => o.out_path.dir@,
            })
            &&& n.out_path.file_stem@ == (match path_stem_of(s) {
                Some(st) => st,
                None => o.out_path.file_stem@,
            })
            &&& opt_view(n.out_path.file_ext) == path_ext_of(s)
        },
        ExportType::PerTeam => {
            &&& n.out_path.dir@ == (if s.len() > 0 { path_norm_of(s) } else { o.out_path.dir@ })
            &&& n.out_path.file_stem == o.out_path.file_stem
            &&& n.out_path.file_ext == o.out_path.file_ext
        },
    }
}

impl ExportOptions {
    /// CSV, one file at `out/players/all`, header row, numbers with `#`.
    pub fn new() -> (r: ExportOptions)
        ensures
            r.format == ExportFormat::Csv,
            r.export_type == ExportType::SingleFile,
            r.out_path.dir@ == default_players_dir(),
            r.out_path.file_stem@ == DEFAULT_FILE@,
            r.out_path.file_ext is None,
            r.include_headers,
            r.keep_hash,
    {
        ExportOptions {
            format: ExportFormat::Csv,
            export_type: ExportType::SingleFile,
            out_path: OutputPath::new(),
            include_headers: true,
            keep_hash: true,
        }
    }

    /// Target path of the export (see `out_path_spec`).
    pub fn out_path(&self) -> (r: String)
        ensures
            r@ == out_path_spec(*self),
    {
        match self.export_type {
            ExportType::SingleFile => {
                let ext: Vec<char> = match &self.out_path.file_ext {
                    Some(e) => chars_of(e.as_str()),
                    None => chars_of(self.format.ext()),
                };
                let mut name = chars_of(self.out_path.file_stem.as_str());
                if ext.len() > 0 {
                    name.push('.');
                    push_all(&mut name, &ext);
                }
                let n = string_of(&name);
                join_path(self.out_path.dir.as_str(), n.as_str())
            },
            ExportType::PerTeam => self.out_path.dir.clone(),
        }
    }

    /// Take a path typed by the user. For one file: its parent (when not
    /// empty) becomes the directory, its stem the stem (when it has one) and
    /// its extension the chosen extension; per team: the whole (when not
    /// empty) becomes the directory. Directories are stored normalised.
    pub fn set_path(&mut self, text: &str)
        ensures
            path_set(*old(self), text@, *final(self)),
    {
        let sv = trim_vec(&chars_of(text));
        let s = string_of(&sv);
        match self.export_type {
            ExportType::SingleFile => {
                match path_parent(s.as_str()) {
                    Some(parent) => {
                        if chars_of(parent.as_str()).len() > 0 {
                            self.out_path.dir = path_normalize(parent.as_str());
                        }
                    },
                    None => {},
                }
                match path_file_stem(s.as_str()) {
                    Some(stem) => {
                        self.out_path.file_stem = stem;
                    },
                    None => {},
                }
                self.out_path.file_ext = path_extension(s.as_str());
            },
            ExportType::PerTeam => {
                if sv.len() > 0 {
                    self.out_path.dir = path_normalize(s.as_str());
                }
            },
        }
    }

    /// Field separator of the chosen format.
    pub fn delimiter(&self) -> (r: Option<char>)
        ensures
            r == Some(format_sep(self.format)),
    {
        self.format.delimiter()
    }

    /// Default directory of a page's exports: `out/results` for game
    /// results, `out/players` otherwise.
    pub fn default_dir_for(kind: PageKind) -> (r: String)
        ensures
            r@ == default_dir_spec(kind),
    {
        let sub = match kind {
            PageKind::GameResults => DEFAULT_RESULTS_SUBDIR,
            _ => DEFAULT_PLAYERS_SUBDIR,
        };
        join_path(DEFAULT_OUT_DIR, sub)
    }

    /// Put the directory back to the page's default; stem and extension stay.
    pub fn set_default_dir_for_page(&mut self, kind: PageKind)
        ensures
            final(self).out_path.dir@ == default_dir_spec(kind),
            final(self).out_path.file_stem == old(self).out_path.file_stem,
            final(self).out_path.file_ext == old(self).out_path.file_ext,
            final(self).format == old(self).format,
            final(self).export_type == old(self).export_type,
            final(self).include_headers == old(self).include_headers,
            final(self).keep_hash == old(self).keep_hash,
    {
        self.out_path.dir = Self::default_dir_for(kind);
    }

    /// `filename` under `dir`.
    pub fn join_dir_and_filename(dir: &str, filename: &str) -> (r: String)
        ensures
            r@ == join_spec(dir@, filename@),
    {
        join_path(dir, filename)
    }

    /// The export directory.
    pub fn current_dir(&self) -> (r: &str)
        ensures
            r@ == self.out_path.dir@,
    {
        self.out_path.dir.as_str()
    }

    /// Whether the directory is the page's default (compared by components).
    pub fn is_current_dir_default_for(&self, kind: PageKind) -> (r: bool)
        ensures
            r == path_eq(path_norm_of(self.out_path.dir@), path_norm_of(default_dir_spec(kind))),
    {
        let a = path_normalize(self.current_dir());
        let d = Self::default_dir_for(kind);
        let b = path_normalize(d.as_str());
        paths_equal(a.as_str(), b.as_str())
    }

    /// One file, in the page's default directory, named `all`, with the
    /// format's extension.
    pub fn is_fully_default_for(&self, kind: PageKind) -> (r: bool)
        ensures
            r == (self.export_type == ExportType::SingleFile && path_eq(default_dir_spec(kind), self.out_path.dir@)
                && self.out_path.file_stem@ == DEFAULT_FILE@ && self.out_path.file_ext is None),
    {
        if self.export_type != ExportType::SingleFile {
            return false;
        }
        let def = Self::default_dir_for(kind);
        let dir_is_default = paths_equal(def.as_str(), self.out_path.dir.as_str());
        let stem_is_default = eq_str(&chars_of(self.out_path.file_stem.as_str()), DEFAULT_FILE);
        let uses_default_ext = self.out_path.file_ext.is_none();
        dir_is_default && stem_is_default && uses_default_ext
    }
}

impl Default for ExportOptions {
    fn default() -> (r: ExportOptions)
        ensures
            r.format == ExportFormat::Csv,
            r.export_type == ExportType::SingleFile,
            r.out_path.dir@ == default_players_dir(),
            r.out_path.file_stem@ == DEFAULT_FILE@,
            r.out_path.file_ext is None,
            r.include_headers,
            r.keep_hash,
    {
        ExportOptions::new()
    }
}

/// Scrape and export options together.
#[derive(Clone, Debug, PartialEq, Eq)]
pub struct AppOptions {
    pub scrape: ScrapeOptions,
    pub export: ExportOptions,
}

impl AppOptions {
    pub fn new() -> (r: AppOptions)
        ensures
            r.scrape.page == PageKind::Players,
            r.scrape.teams == TeamSelector::All,
            r.export.format == ExportFormat::Csv,
            r.export.export_type == ExportType::SingleFile,
            r.export.include_headers,
            r.export.keep_hash,
    {
        AppOptions { scrape: ScrapeOptions::new(), export: ExportOptions::new() }
    }
}

impl Default for AppOptions {
    fn default() -> (r: AppOptions)
        ensures
            r.scrape.page == PageKind::Players,
            r.scrape.teams == TeamSelector::All,
            r.export.format == ExportFormat::Csv,
            r.export.export_type == ExportType::SingleFile,
            r.export.include_headers,
            r.export.keep_hash,
    {
        AppOptions::new()
    }
}

} // verus!
