use bb_scrape::config::options::{PageKind, TeamSelector};
use bb_scrape::gui::pages::GameResultsPage;
use bb_scrape::gui::progress::GuiProgress;
use bb_scrape::gui::scrape_flow::{scrape_outcome, ScrapeOutcome};
use bb_scrape::gui::table_model::TableData;
use bb_scrape::gui::view_state::{
    clamp_selection, column_order, scrape_selector, selection_message, view_columns, view_headers,
};
use bb_scrape::progress::{NullProgress, Progress};
use bb_scrape::store::DataSet;
use bb_scrape::gui::view_state::click_team;
use bb_scrape::gui::view_state::move_column;
use bb_scrape::gui::view_state::migrate_dir_on_tab_switch;
use bb_scrape::config::options::{AppOptions, ExportOptions, ExportType};
use bb_scrape::gui::export_plan::{gui_export_status, gui_team_exports, shown_for_export};
use bb_scrape::scrape::collect::teams_of_rows;

fn s(x: &str) -> String {
    x.to_string()
}

fn row(cells: &[&str]) -> Vec<String> {
    cells.iter().map(|c| c.to_string()).collect()
}

fn two_teams() -> Vec<(u32, String)> {
    vec![(1, s("Lions")), (2, s("Tigers"))]
}

/* ---------------- table model ---------------- */

#[test]
fn table_empty_and_with() {
    let t = TableData::empty();
    assert!(t.is_empty());
    assert_eq!(t.ncols(), 0);
    assert_eq!(t.nrows(), 0);
    let t = TableData::with(None, vec![row(&["a", "b", "c"])]);
    assert_eq!(t.ncols(), 3);
    assert_eq!(t.nrows(), 1);
    let t = TableData::with(Some(row(&["x", "y"])), vec![row(&["a", "b", "c"])]);
    assert_eq!(t.ncols(), 2);
    let (h, r) = t.into_parts();
    assert_eq!(h, Some(row(&["x", "y"])));
    assert_eq!(r.len(), 1);
}

#[test]
fn table_for_teams_keeps_rows_of_selected_names() {
    let ds = DataSet {
        headers: Some(row(&["Name", "Team"])),
        rows: vec![row(&["Bob", "Lions"]), row(&["Tom", "Tigers"]), row(&["Ann", "Lions"]), row(&["Short"])],
    };
    let t = TableData::from_dataset_for_teams(&ds, 1, &[1], &two_teams());
    assert_eq!(t.headers, Some(row(&["Name", "Team"])));
    assert_eq!(t.rows, vec![row(&["Bob", "Lions"]), row(&["Ann", "Lions"])]);
    let none = TableData::from_dataset_for_teams(&ds, 1, &[], &two_teams());
    assert!(none.rows.is_empty());
    assert_eq!(none.headers, Some(row(&["Name", "Team"])));
    // an id with two names selects both
    let teams = vec![(1, s("Lions")), (1, s("Tigers"))];
    let both = TableData::from_dataset_for_teams(&ds, 1, &[1], &teams);
    assert_eq!(both.rows.len(), 3);
}

#[test]
fn table_filtered_by_predicate_and_whole() {
    let ds = DataSet { headers: None, rows: vec![row(&["1"]), row(&["22"]), row(&["3"])] };
    let t = TableData::from_dataset_filtered(&ds, |r: &[String]| r[0].len() == 1);
    assert_eq!(t.rows, vec![row(&["1"]), row(&["3"])]);
    let all = TableData::from_dataset(&ds);
    assert_eq!(all.rows, ds.rows);
    assert_eq!(all.headers, None);
}

/* ---------------- progress ---------------- */

#[test]
fn gui_progress_lines() {
    let mut p = GuiProgress::new(s("Idle"));
    assert_eq!(p.status(), "Idle");
    p.start(3);
    assert_eq!(p.total(), 3);
    p.done_one("Lions");
    assert_eq!(p.status(), "[1/3] Fetched: Lions");
    p.failed_one("Tigers");
    assert_eq!(p.status(), "[2/3] Failed: Tigers (1 failed)");
    p.done_one("Bears");
    assert_eq!(p.status(), "[3/3] Fetched: Bears (1 failed)");
    p.complete();
    assert_eq!(p.status(), "Fetch complete (2/3) (1 failed)");
    assert_eq!(p.done(), 2);
    assert_eq!(p.failed(), 1);
    p.note("Found 10 players");
    assert_eq!(p.status(), "Found 10 players");
}

#[test]
fn gui_progress_without_begin_and_through_trait() {
    let mut p = GuiProgress::new(String::new());
    p.complete();
    assert_eq!(p.status(), "Fetch complete");
    let mut q = GuiProgress::new(String::new());
    {
        let sink: &mut dyn Progress = &mut q;
        sink.begin(2);
        sink.item_done(4, "Lions");
        sink.item_done(5, "Tigers");
        sink.finish();
    }
    assert_eq!(q.status(), "Fetch complete (2/2)");
    let mut n = NullProgress;
    n.begin(5);
    n.log("ignored");
    n.finish();
}

/* ---------------- schedule check ---------------- */

fn game(sn: &str, w: &str, home: &str, away: &str, mid: &str) -> Vec<String> {
    row(&[sn, w, home, "1", "0", away, mid])
}

#[test]
fn schedule_check_accepts_full_weeks() {
    let page = GameResultsPage;
    let ds = DataSet {
        headers: None,
        rows: vec![game("5", "1", "Lions", "Tigers", "10"), game("5", "2", " Tigers ", "Lions", "")],
    };
    assert_eq!(page.validate_scrape(&two_teams(), &ds), Ok(()));
}

#[test]
fn schedule_check_errors() {
    let page = GameResultsPage;
    let teams = two_teams();
    let none: Vec<(u32, String)> = Vec::new();
    let ds = DataSet { headers: None, rows: vec![] };
    assert_eq!(page.validate_scrape(&none, &ds), Err(s("Validator expects 1..=32 teams; got 0")));
    let short = DataSet { headers: None, rows: vec![row(&["5", "1"])] };
    assert_eq!(
        page.validate_scrape(&teams, &short),
        Err(s("Row has fewer than 7 columns (S,W,Home team,Home,Away,Away team,Match id)"))
    );
    let empty = DataSet { headers: None, rows: vec![game("5", "1", "", "Tigers", "")] };
    assert_eq!(page.validate_scrape(&teams, &empty), Err(s("Empty team name in S=5 W=1")));
    let same = DataSet { headers: None, rows: vec![game("5", "1", "Lions", "Lions", "")] };
    assert_eq!(page.validate_scrape(&teams, &same), Err(s("Home==Away in S=5, W=1 (Lions)")));
    let dup = DataSet {
        headers: None,
        rows: vec![game("5", "1", "Lions", "Tigers", ""), game("5", "1", "Tigers", "Lions", "")],
    };
    assert_eq!(page.validate_scrape(&teams, &dup), Err(s("Duplicate game by teams in S=5, W=1")));
    let mid = DataSet {
        headers: None,
        rows: vec![game("5", "1", "Lions", "Tigers", "7"), game("5", "2", "Lions", "Tigers", "7")],
    };
    assert_eq!(page.validate_scrape(&teams, &mid), Err(s("Duplicate match id 7 in S=5, W=2")));
    let unknown = DataSet { headers: None, rows: vec![game("5", "1", "Bears", "Tigers", "")] };
    assert_eq!(page.validate_scrape(&teams, &unknown), Err(s("Unknown team name 'Bears' in results")));
    let three = vec![(1, s("Lions")), (2, s("Tigers")), (3, s("Bears")), (4, s("Wolves"))];
    let twice = DataSet {
        headers: None,
        rows: vec![game("5", "1", "Lions", "Tigers", ""), game("5", "1", "Bears", "Lions", "")],
    };
    assert_eq!(page.validate_scrape(&three, &twice), Err(s("Team 'Lions' appears twice in the same week")));
    let partial = DataSet { headers: None, rows: vec![game("5", "1", "Lions", "Tigers", "")] };
    assert_eq!(
        page.validate_scrape(&three, &partial),
        Err(s(
            "Incomplete/extra teams in S=5, W=1 (got mask 00000000000000000000000000000011, expected 00000000000000000000000000001111)"
        ))
    );
}

/* ---------------- scrape outcome ---------------- */

#[test]
fn scrape_outcome_cases() {
    let teams = two_teams();
    let (o, line) = scrape_outcome(PageKind::Players, DataSet { headers: None, rows: vec![] }, &teams);
    assert!(matches!(o, ScrapeOutcome::Refused { kind: PageKind::Players, ref msg } if msg == "Scrape returned no rows"));
    assert_eq!(line, None);
    let ds = DataSet { headers: None, rows: vec![game("5", "1", "Lions", "Tigers", "")] };
    let (o, line) = scrape_outcome(PageKind::GameResults, ds, &teams);
    match o {
        ScrapeOutcome::Accepted { kind, ds } => {
            assert_eq!(kind, PageKind::GameResults);
            assert_eq!(ds.headers.unwrap()[0], "S");
        },
        ScrapeOutcome::Refused { .. } => panic!("refused"),
    }
    assert_eq!(line, Some(s("Found 1 games")));
    let bad = DataSet { headers: None, rows: vec![game("5", "1", "Lions", "Lions", "")] };
    let (o, _) = scrape_outcome(PageKind::GameResults, bad, &teams);
    assert!(matches!(o, ScrapeOutcome::Refused { ref msg, .. } if msg == "Validation failed: Home==Away in S=5, W=1 (Lions)"));
    let players = DataSet { headers: None, rows: vec![row(&["Bob"]), row(&["Ann"])] };
    let (_, line) = scrape_outcome(PageKind::Players, players, &teams);
    assert_eq!(line, Some(s("Found 2 players")));
}

/* ---------------- view state ---------------- */

#[test]
fn selector_follows_selection() {
    assert!(matches!(scrape_selector(&vec![], 32), TeamSelector::Ids(ref v) if v.is_empty()));
    assert!(matches!(scrape_selector(&vec![1, 2], 2), TeamSelector::All));
    assert!(matches!(scrape_selector(&vec![7], 32), TeamSelector::One(7)));
    assert!(matches!(scrape_selector(&vec![9, 3, 9], 32), TeamSelector::Ids(ref v) if *v == vec![3, 9]));
}

#[test]
fn selection_is_clamped_to_known_teams() {
    let teams = two_teams();
    assert_eq!(clamp_selection(&vec![2, 5, 1], &teams), vec![2, 1]);
    assert_eq!(clamp_selection(&vec![7], &teams), vec![1, 2]);
    assert_eq!(selection_message(3), "Selection: 3 team(s)");
}

#[test]
fn view_headers_columns_and_order() {
    let h = view_headers(PageKind::GameResults, &Some(row(&["a"])));
    assert_eq!(h.unwrap().len(), 7);
    assert_eq!(view_headers(PageKind::Players, &Some(row(&["a"]))), Some(row(&["a"])));
    assert_eq!(view_columns(PageKind::Players, &None, &vec![row(&["1", "2"])]), 2);
    assert_eq!(view_columns(PageKind::Injuries, &None, &vec![]), 12);
    assert_eq!(view_columns(PageKind::Players, &Some(row(&["x"])), &vec![]), 1);
    let kept = vec![2, 0, 1];
    assert_eq!(column_order(Some(&kept), 3), vec![2, 0, 1]);
    assert_eq!(column_order(Some(&kept), 4), vec![0, 1, 2, 3]);
    assert_eq!(column_order(None, 2), vec![0, 1]);
}

/* ---------------- data set helpers ---------------- */

#[test]
fn dataset_selection_helpers() {
    let teams = two_teams();
    let ds = DataSet {
        headers: None,
        rows: vec![row(&["a", "b", "c", "Lions"]), row(&["d", "e", "f", "Tigers"]), row(&["g"])],
    };
    assert_eq!(ds.indexes_filtered_by_selection(PageKind::Players, &[2], &teams), vec![1]);
    assert_eq!(ds.rows_filtered_by_selection(PageKind::Players, &[1], &teams), vec![row(&["a", "b", "c", "Lions"])]);
    assert_eq!(ds.rows_filtered_by_selection(PageKind::Players, &[1, 2], &teams).len(), 3);
    assert_eq!(ds.headers_or_defaults(PageKind::Players), None);
    assert_eq!(ds.headers_or_defaults(PageKind::GameResults).unwrap()[6], "Match id");
    assert_eq!(ds.row_count(), 3);
    assert_eq!(ds.header_count(), 0);
}

#[test]
fn injects_headers_when_missing() {
    let mut ds = DataSet { headers: None, rows: vec![vec!["x".into()]] };
    bb_scrape::gui::pages::inject_headers_if_missing(PageKind::GameResults, &mut ds);
    let expected: Vec<String> = ["S", "W", "Home", "H", "A", "Away", "Match id"].iter().map(|s| s.to_string()).collect();
    assert_eq!(ds.headers.as_ref().unwrap(), &expected);
    let mut kept = DataSet { headers: Some(vec!["Mine".into()]), rows: vec![] };
    bb_scrape::gui::pages::inject_headers_if_missing(PageKind::GameResults, &mut kept);
    assert_eq!(kept.headers, Some(vec!["Mine".to_string()]));
}

/* ---------------- clicks, columns, tab switches ---------------- */

#[test]
fn team_clicks_with_modifiers() {
    let teams = vec![(1, s("A")), (2, s("B")), (3, s("C")), (4, s("D"))];
    let (sel, last) = click_team(&vec![1, 2], &teams, 2, false, false, None);
    assert_eq!((sel, last), (vec![3], Some(2)));
    let (sel, _) = click_team(&vec![1, 3], &teams, 2, true, false, Some(0));
    assert_eq!(sel, vec![1]);
    let (sel, _) = click_team(&vec![1], &teams, 2, true, false, Some(0));
    assert_eq!(sel, vec![1, 3]);
    let (sel, _) = click_team(&vec![4], &teams, 0, false, true, Some(2));
    assert_eq!(sel, vec![1, 2, 3]);
    let (sel, _) = click_team(&vec![2], &teams, 3, true, true, Some(1));
    assert_eq!(sel, vec![2, 3, 4]);
    let (sel, _) = click_team(&vec![2], &teams, 3, false, true, None);
    assert_eq!(sel, vec![4]);
}

#[test]
fn columns_move_on_drop() {
    let ord = vec![0, 1, 2, 3];
    assert_eq!(move_column(&ord, 0, Some(3)), vec![1, 2, 0, 3]);
    assert_eq!(move_column(&ord, 3, Some(0)), vec![3, 0, 1, 2]);
    assert_eq!(move_column(&ord, 1, Some(9)), vec![0, 2, 3, 1]);
    assert_eq!(move_column(&ord, 2, None), ord);
    assert_eq!(move_column(&ord, 7, Some(0)), ord);
    let mut sorted = move_column(&ord, 0, Some(3));
    sorted.sort();
    assert_eq!(sorted, ord);
}

#[test]
fn export_dir_follows_tab_switch() {
    let mut e = ExportOptions::new();
    let r = migrate_dir_on_tab_switch(&mut e, "out/players/mine.tsv", PageKind::Players, PageKind::GameResults);
    assert_eq!(r, Some(s("out/results/mine.tsv")));
    assert_eq!(e.current_dir(), "out/results");
    let r = migrate_dir_on_tab_switch(&mut e, "elsewhere/x.csv", PageKind::GameResults, PageKind::Players);
    assert_eq!(r, None);
    assert_eq!(e.current_dir(), "out/results");
    let mut p = ExportOptions::new();
    p.export_type = ExportType::PerTeam;
    let r = migrate_dir_on_tab_switch(&mut p, "out/players/", PageKind::Players, PageKind::GameResults);
    assert_eq!(r, Some(s("out/results")));
}

/* ---------------- window exports ---------------- */

#[test]
fn window_per_team_exports() {
    let teams = vec![(1, s("Lions")), (2, s("Tigers")), (3, s("Bears"))];
    let mut o = AppOptions::new();
    o.export.export_type = ExportType::PerTeam;
    o.export.include_headers = false;
    let ds = DataSet {
        headers: Some(row(&["S", "W", "Home", "H", "A", "Away", "Match id"])),
        rows: vec![game("5", "1", "Lions", "Tigers", "10"), game("5", "2", "Tigers", "Bears", "11")],
    };
    // an unknown id is skipped
    let files = gui_team_exports(&o, PageKind::GameResults, false, &ds, &[2, 9], &teams);
    assert_eq!(files.len(), 1);
    assert_eq!(files[0].0, "out/players/Tigers.csv");
    assert_eq!(files[0].1, "5,1,Lions,1,0,Tigers\n5,2,Tigers,1,0,Bears\n");
    let bears = gui_team_exports(&o, PageKind::GameResults, false, &ds, &[3], &teams);
    assert_eq!(bears[0].0, "out/players/Bears.csv");
    assert_eq!(bears[0].1, "5,2,Tigers,1,0,Bears\n");
    // as many ids as teams stands for every team
    assert_eq!(gui_team_exports(&o, PageKind::GameResults, false, &ds, &[2, 9, 3], &teams).len(), 3);
    let all = gui_team_exports(&o, PageKind::GameResults, true, &ds, &[1, 2, 3], &teams);
    assert_eq!(all.len(), 3);
    let (h, r) = shown_for_export(PageKind::GameResults, false, &ds, &[1, 7]);
    assert_eq!(h.unwrap().len(), 6);
    assert_eq!(r, vec![row(&["5", "2", "Tigers", "1", "0", "Bears"])]);
    assert_eq!(gui_export_status(0, None), "Nothing to export");
    assert_eq!(gui_export_status(2, Some("a/b.csv")), "Exported 2 file(s). Last: a/b.csv");
    assert_eq!(gui_export_status(2, None), "Exported 2 file(s).");
}

#[test]
fn cached_team_table_gives_team_list() {
    let rows = vec![row(&["1", "Lions"]), row(&["x", "Bad"]), row(&["2"]), row(&[" 3 ", "Bears"])];
    assert_eq!(teams_of_rows(&rows), vec![(1, s("Lions")), (3, s("Bears"))]);
}

#[test]
fn accepted_schedule_has_no_repeats() {
    let page = GameResultsPage;
    let teams = two_teams();
    let ok = DataSet {
        headers: None,
        rows: vec![game("5", "1", "Lions", "Tigers", "10"), game("5", "2", "Tigers", "Lions", "11")],
    };
    assert!(page.validate_scrape(&teams, &ok).is_ok());
    let repeat = DataSet {
        headers: None,
        rows: vec![game("5", "1", "Lions", "Tigers", "10"), game("5", "1", "Lions", "Tigers", "12")],
    };
    assert!(page.validate_scrape(&teams, &repeat).is_err());
}
