use bb_scrape::cli::{parse_cli, CliAction};
use bb_scrape::config::options::{AppOptions, ExportFormat, ExportOptions, ExportType, PageKind, TeamSelector};
use bb_scrape::data::{RawData, Selection, SelectionView};
use bb_scrape::gui::pages::{filter_row_indices_for, merge_for, GameResultsPage, PlayersPage};
use bb_scrape::store::{page_filename, DataSet};

fn s(x: &str) -> String {
    x.to_string()
}

fn row(cells: &[&str]) -> Vec<String> {
    cells.iter().map(|c| c.to_string()).collect()
}

fn args(a: &[&str]) -> Vec<String> {
    a.iter().map(|x| x.to_string()).collect()
}

#[test]
fn page_names_read_back() {
    for k in [
        PageKind::Teams,
        PageKind::Players,
        PageKind::SeasonStats,
        PageKind::CareerStats,
        PageKind::GameResults,
        PageKind::Injuries,
    ] {
        assert_eq!(PageKind::parse(k.name()), Ok(k));
    }
    assert_eq!(PageKind::parse(" Game_Results "), Ok(PageKind::GameResults));
    assert_eq!(PageKind::parse("x"), Err(s("Unknown page: x")));
    assert_eq!(ExportFormat::parse("TSV"), Ok(ExportFormat::Tsv));
    assert_eq!(ExportFormat::parse(ExportFormat::Csv.name()), Ok(ExportFormat::Csv));
    assert_eq!(ExportFormat::parse("xml"), Err(s("Unknown format: xml")));
    assert_eq!(page_filename(&PageKind::Players).is_empty(), false);
}

#[test]
fn team_selector_growth() {
    let mut t = TeamSelector::All;
    t.add(4);
    assert_eq!(t, TeamSelector::One(4));
    t.add(2);
    assert_eq!(t, TeamSelector::Ids(vec![4, 2]));
    t.extend(&[4, 9]);
    t.normalize();
    assert_eq!(t, TeamSelector::Ids(vec![2, 4, 9]));
}

#[test]
fn export_paths_typed_by_the_user() {
    let mut e = ExportOptions::new();
    assert_eq!(e.out_path(), "out/players/all.csv");
    assert!(e.is_current_dir_default_for(PageKind::Players));
    assert!(!e.is_current_dir_default_for(PageKind::GameResults));
    assert!(e.is_fully_default_for(PageKind::Players));
    e.set_path("  data//exports/./roster.tsv ");
    assert_eq!(e.current_dir(), "data/exports");
    assert_eq!(e.out_path(), "data/exports/roster.tsv");
    assert!(!e.is_fully_default_for(PageKind::Players));
    e.set_default_dir_for_page(PageKind::GameResults);
    assert_eq!(e.current_dir(), "out/results");
    assert!(e.is_current_dir_default_for(PageKind::GameResults));
    e.export_type = ExportType::PerTeam;
    e.set_path("teams_out/");
    assert_eq!(e.out_path(), "teams_out");
    assert_eq!(ExportOptions::join_dir_and_filename("a/", "b.csv"), "a/b.csv");
}

#[test]
fn command_line_reading() {
    let mut o = AppOptions::new();
    let r = parse_cli(&args(&["-p", "game-results", "-i", "3-4, 1", "-t", "2", "-f", "tsv", "-x", "-m", "-s"]), &mut o);
    assert_eq!(r, Ok(CliAction::Run { skip_optional: true }));
    assert_eq!(o.scrape.page, PageKind::GameResults);
    assert_eq!(o.scrape.teams, TeamSelector::Ids(vec![1, 2, 3, 4]));
    assert_eq!(o.export.format, ExportFormat::Tsv);
    assert!(!o.export.include_headers);
    assert_eq!(o.export.export_type, ExportType::PerTeam);
    let mut o2 = AppOptions::new();
    assert_eq!(parse_cli(&args(&["--bogus"]), &mut o2), Err(s("Unknown arg: --bogus")));
    assert_eq!(parse_cli(&args(&["-t", "40"]), &mut o2), Err(s("Team ID out of range (0-31)")));
    assert_eq!(parse_cli(&args(&["-p"]), &mut o2), Err(s("Missing value for --page")));
    assert_eq!(parse_cli(&args(&["-t", "x"]), &mut o2), Err(s("invalid digit found in string")));
    assert_eq!(parse_cli(&args(&["-h"]), &mut o2), Ok(CliAction::Help));
}

#[test]
fn selection_views() {
    let teams = vec![(1, s("Lions")), (2, s("Tigers"))];
    let ds = DataSet {
        headers: None,
        rows: vec![row(&["a", "b", "c", "Lions"]), row(&["d", "e", "f", "Tigers"])],
    };
    let raw = RawData::new(PageKind::Players, ds);
    assert_eq!(raw.kind(), PageKind::Players);
    let one = [2u32];
    let sel = Selection { ids: &one, teams: &teams };
    assert!(!sel.is_none());
    assert!(!sel.is_all());
    assert_eq!(sel.to_key_mask(), 0b100);
    let v = SelectionView::from_raw(PageKind::Players, &raw, sel);
    assert_eq!(v.row_ix, vec![1]);
    assert_eq!(v.len(), 1);
    assert_eq!(v.row(0).map(|r| r[3].clone()), Some(s("Tigers")));
    assert_eq!(v.row(1), None);
    assert_eq!(v.to_owned_rows(), vec![row(&["d", "e", "f", "Tigers"])]);
    let none: [u32; 0] = [];
    let v0 = SelectionView::from_raw(PageKind::Players, &raw, Selection { ids: &none, teams: &teams });
    assert!(v0.is_empty());
    let all = [1u32, 2];
    let va = SelectionView::from_raw(PageKind::Players, &raw, Selection { ids: &all, teams: &teams });
    assert_eq!(va.row_ix, vec![0, 1]);
    let vi = SelectionView::from_indices(&raw, vec![1, 0]);
    assert_eq!(vi.len(), 2);
}

#[test]
fn players_merge_replaces_scraped_teams() {
    let mut into = DataSet {
        headers: Some(row(&["N", "#", "R", "Team"])),
        rows: vec![row(&["a", "1", "x", "Lions"]), row(&["b", "2", "x", "Tigers"])],
    };
    let new = DataSet { headers: None, rows: vec![row(&["c", "3", "x", "Lions"])] };
    merge_for(PageKind::Players, &mut into, new);
    assert_eq!(into.headers, Some(row(&["N", "#", "R", "Team"])));
    assert_eq!(into.rows, vec![row(&["b", "2", "x", "Tigers"]), row(&["c", "3", "x", "Lions"])]);
    let mut results = DataSet { headers: None, rows: vec![row(&["old"])] };
    merge_for(PageKind::GameResults, &mut results, DataSet { headers: None, rows: vec![row(&["new"])] });
    assert_eq!(results.rows, vec![row(&["new"])]);
}

#[test]
fn page_filters_and_shapes() {
    let teams = vec![(1, s("Lions")), (2, s("Tigers"))];
    let rows = vec![
        row(&["5", "1", "Lions", "1", "0", "Tigers", "9"]),
        row(&["5", "1", "Bears", "1", "0", "Wolves", ""]),
    ];
    assert_eq!(filter_row_indices_for(PageKind::GameResults, &[2], &teams, &rows), vec![0]);
    assert_eq!(filter_row_indices_for(PageKind::GameResults, &[], &teams, &rows), Vec::<usize>::new());
    assert_eq!(filter_row_indices_for(PageKind::GameResults, &[1, 2], &teams, &rows), vec![0, 1]);
    let page = GameResultsPage;
    let (h, r) = page.view_for_export(false, &Some(row(&["S", "W", "Home", "H", "A", "Away", "Match id"])), &rows);
    assert_eq!(h.unwrap().len(), 6);
    assert_eq!(r[0].len(), 6);
    assert_eq!(PlayersPage.title(), PlayersPage.title());
}
