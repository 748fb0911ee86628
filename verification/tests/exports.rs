use bb_scrape::cli::{adjust_export_for_page, export_rows_for, export_summary, effective_export, season_of_results};
use bb_scrape::config::options::{AppOptions, ExportFormat, ExportOptions, ExportType, PageKind};
use bb_scrape::csv::{rows_to_string, Delim};
use bb_scrape::file::{group_by_team, parse_rows, resolve_team_filename, team_export_files, to_export_string, write_row};
use bb_scrape::gui_config::{config_text, parse_config, GuiConfig};
use bb_scrape::log::{fmt_elapsed, level_of, log_line, parse_level, Level};
use bb_scrape::params::{PageKind as ParamsPage, Params};
use bb_scrape::store::{dataset_from_text, dataset_to_text, parse_season, season_text, DataSet};

fn s(x: &str) -> String {
    x.to_string()
}

fn row(cells: &[&str]) -> Vec<String> {
    cells.iter().map(|c| c.to_string()).collect()
}

/* ---------------- delimited text ---------------- */

#[test]
fn written_rows_read_back_on_values() {
    let rows = vec![row(&["a", "b,c", "say \"hi\""]), row(&["", "x"])];
    let mut out = String::new();
    for r in &rows {
        write_row(&mut out, r, ',');
    }
    assert_eq!(out, "a,\"b,c\",\"say \"\"hi\"\"\"\n,x\n");
    assert_eq!(parse_rows(&out, ','), rows);
}

#[test]
fn tsv_table_text() {
    let t = rows_to_string(&[row(&["1", "a\tb"])], &Some(row(&["N", "V"])), &Delim::Tsv);
    assert_eq!(t, "N\tV\n1\t\"a\tb\"\n");
}

#[test]
fn cached_dataset_reads_back_on_values() {
    let ds = DataSet { headers: Some(row(&["Id", "Team"])), rows: vec![row(&["1", "Lions, The"]), row(&["2", "Tigers"])] };
    let text = dataset_to_text(&ds);
    assert_eq!(text, "Id,Team\n1,\"Lions, The\"\n2,Tigers\n");
    let back = dataset_from_text(&text);
    assert_eq!(back.headers, ds.headers);
    assert_eq!(back.rows, ds.rows);
}

#[test]
fn season_text_reads_back() {
    assert_eq!(season_text(12), "12");
    assert_eq!(parse_season(" 12\n"), Some(12));
    assert_eq!(parse_season("x"), None);
}

/* ---------------- exports ---------------- */

#[test]
fn export_string_strips_hash_for_players() {
    let mut o = AppOptions::new();
    o.export.keep_hash = false;
    let t = to_export_string(&o, &Some(row(&["Name", "Number"])), &[row(&["Bob", "#7"])]);
    assert_eq!(t, "Name,Number\nBob,7\n");
    o.export.include_headers = false;
    o.export.format = ExportFormat::Tsv;
    let t = to_export_string(&o, &Some(row(&["Name", "Number"])), &[row(&["Bob", "#7"])]);
    assert_eq!(t, "Bob\t7\n");
}

#[test]
fn per_team_files_are_grouped_and_numbered() {
    let mut o = AppOptions::new();
    o.export.export_type = ExportType::PerTeam;
    let rows = vec![
        row(&["Bob", "#1", "Orc", "Lions"]),
        row(&["Tom", "#2", "Elf", "Tigers"]),
        row(&["Ann", "#3", "Orc", "Lions"]),
        row(&["Sam", "#4", "Elf", "Lions!"]),
    ];
    let groups = group_by_team(&rows, 3);
    assert_eq!(groups.len(), 3);
    assert_eq!(groups[0].1.len(), 2);
    let files = team_export_files(&o, &None, &rows, 3);
    assert_eq!(files.len(), 3);
    assert_eq!(files[0].0, "out/players/Lions.csv");
    assert_eq!(files[0].1, "Bob,#1,Orc,Lions\nAnn,#3,Orc,Lions\n");
    assert_eq!(files[1].0, "out/players/Tigers.csv");
    // "Lions!" sanitises to "Lions" again: the second file is numbered
    assert_eq!(files[2].0, "out/players/Lions (2).csv");
    assert_ne!(files[0].0, files[2].0);
}

#[test]
fn team_filename_numbering() {
    let mut seen: Vec<(String, usize)> = Vec::new();
    assert_eq!(resolve_team_filename("out", "Lions", &mut seen, "csv"), "out/Lions.csv");
    assert_eq!(resolve_team_filename("out", "Lions", &mut seen, "csv"), "out/Lions (2).csv");
    assert_eq!(resolve_team_filename("out", "Tigers", &mut seen, "tsv"), "out/Tigers.tsv");
    assert_eq!(resolve_team_filename("out", "Lions", &mut seen, "csv"), "out/Lions (3).csv");
}

/* ---------------- command line export ---------------- */

#[test]
fn export_defaults_follow_the_page() {
    let mut e = ExportOptions::new();
    adjust_export_for_page(&mut e, PageKind::GameResults);
    assert_eq!(e.out_path(), "out/results/all.csv");
    let mut t = ExportOptions::new();
    adjust_export_for_page(&mut t, PageKind::Teams);
    assert_eq!(t.out_path(), "out/players/teams.csv");
    let mut i = ExportOptions::new();
    adjust_export_for_page(&mut i, PageKind::Injuries);
    assert_eq!(i.out_path(), "out/players/injuries.csv");
    let mut own = ExportOptions::new();
    own.set_path("mine/x.tsv");
    adjust_export_for_page(&mut own, PageKind::GameResults);
    assert_eq!(own.out_path(), "mine/x.tsv");
}

#[test]
fn export_shape_and_summary() {
    let (h, r) = export_rows_for(PageKind::GameResults, true, &Some(row(&["S", "Match id"])), &vec![row(&["5", "9"]), vec![]]);
    assert_eq!(h, Some(row(&["S"])));
    assert_eq!(r, vec![row(&["5"]), vec![]]);
    let (h, r) = export_rows_for(PageKind::Players, true, &Some(row(&["S", "Match id"])), &vec![row(&["5", "9"])]);
    assert_eq!(h, Some(row(&["S", "Match id"])));
    assert_eq!(r, vec![row(&["5", "9"])]);
    assert_eq!(export_summary(0, None), "Nothing to export.");
    assert_eq!(export_summary(2, Some("out/b.csv")), "Exported 2 file(s). Last: out/b.csv");
    assert_eq!(export_summary(1, None), "Export done.");
    assert_eq!(effective_export(PageKind::Teams, ExportType::PerTeam), (ExportType::SingleFile, None));
    assert_eq!(effective_export(PageKind::Injuries, ExportType::SingleFile), (ExportType::SingleFile, None));
    assert_eq!(effective_export(PageKind::Players, ExportType::PerTeam), (ExportType::PerTeam, Some(3)));
    let ds = DataSet { headers: None, rows: vec![row(&[" 7 ", "1"])] };
    assert_eq!(season_of_results(&ds), Some(7));
}

/* ---------------- settings file ---------------- */

#[test]
fn saved_config_reads_back_on_values() {
    let cfg = GuiConfig {
        include_headers: true,
        keep_hash: false,
        per_team: true,
        out_path: s("out/x"),
        selected_ids: vec![3, 0, 31],
    };
    let text = config_text(&cfg);
    assert_eq!(text, "include_headers=1\nkeep_hash=0\nper_team=1\nout_path=out/x\nteams=3,0,31\n");
    let back = parse_config(&text);
    assert_eq!(back.include_headers, cfg.include_headers);
    assert_eq!(back.keep_hash, cfg.keep_hash);
    assert_eq!(back.per_team, cfg.per_team);
    assert_eq!(back.out_path, cfg.out_path);
    assert_eq!(back.selected_ids, cfg.selected_ids);
}

#[test]
fn config_lines_are_forgiving() {
    let c = parse_config("# note\n\n keep_hash = TRUE \nteams= 1, x ,2\nbogus=1\nno equals\n");
    assert!(c.keep_hash);
    assert!(!c.include_headers);
    assert_eq!(c.selected_ids, vec![1, 2]);
    assert_eq!(c.out_path, "NOT ACTIVE");
    let d = GuiConfig::default();
    assert_eq!(config_text(&d), "include_headers=0\nkeep_hash=0\nper_team=0\nout_path=NOT ACTIVE\n");
}

/* ---------------- log ---------------- */

#[test]
fn log_lines() {
    assert_eq!(fmt_elapsed(0), "00:00:00.000");
    assert_eq!(fmt_elapsed(3_723_004), "01:02:03.004");
    assert_eq!(fmt_elapsed(360_000_000), "100:00:00.000");
    assert_eq!(parse_level("debug"), Some(Level::Debug));
    assert_eq!(parse_level("Warn"), None);
    assert_eq!(level_of("nonsense"), Level::Info);
    assert_eq!(log_line("DEBUG", "hi", 5, Level::Info), None);
    assert_eq!(log_line("ERROR", "bad", 61_000, Level::Info), Some(s("[00:01:01.000][ERROR] bad\n")));
}

/* ---------------- run parameters ---------------- */

#[test]
fn params_defaults() {
    let p = Params::new();
    assert_eq!(p.page, ParamsPage::Players);
    assert!(p.all);
    assert_eq!(p.out, Some(s("out/players.csv")));
    assert!(!p.per_team);
    assert_eq!(p.format, Delim::Csv);
}

#[test]
fn rows_read_back_with_crlf_and_blank_lines() {
    let rows = vec![row(&["a", "b,c"]), row(&["d", ""])];
    let mut out = String::new();
    for r in &rows {
        write_row(&mut out, r, ',');
    }
    assert_eq!(parse_rows(&out.replace("\n", "\r\n"), ','), rows);
    assert_eq!(parse_rows("\n\r\na,\"b,c\"\r\n\n\nd,\n", ','), rows);
}

#[test]
fn typed_paths_split_at_the_last_dot() {
    let mut e = ExportOptions::new();
    e.set_path("dir/x.tar.gz");
    assert_eq!(e.out_path(), "dir/x.tar.gz");
    assert_eq!(e.out_path.file_stem, "x.tar");
    assert_eq!(e.out_path.file_ext, Some(s("gz")));
    e.set_path("dir/.hidden");
    assert_eq!(e.out_path.file_stem, ".hidden");
    assert_eq!(e.out_path.file_ext, None);
}
