use bb_scrape::base::net::join_prefix_and_path;
use bb_scrape::cli::{effective_export, inject_headers_for_cli, parse_ids_list};
use bb_scrape::config::options::ExportType::{PerTeam, SingleFile};
use bb_scrape::config::options::PageKind;
use bb_scrape::store::DataSet;

#[test]
fn ids_parser_handles_ranges_and_values() {
    let v = parse_ids_list("1, 3-5, 7").unwrap();
    assert_eq!(v, vec![1,3,4,5,7]);

    // out-of-range values are ignored (>=32)
    let v2 = parse_ids_list("0, 31, 32, 40").unwrap();
    assert_eq!(v2, vec![0,31]);

    // duplicates are removed and sorted
    let v3 = parse_ids_list("5, 3-5, 4").unwrap();
    assert_eq!(v3, vec![3,4,5]);
}

#[test]
fn per_team_only_for_players() {
    // Players keeps per-team and returns team_col=3
    let (ty, col) = effective_export(PageKind::Players, PerTeam);
    assert!(matches!(ty, PerTeam));
    assert_eq!(col, Some(3));

    // Non-Players downgrades to SingleFile
    let (ty2, col2) = effective_export(PageKind::GameResults, PerTeam);
    assert!(matches!(ty2, SingleFile));
    assert_eq!(col2, None);
}

#[test]
fn inject_headers_uses_page_defaults() {
    let mut ds = DataSet { headers: None, rows: vec![vec!["x".into()]] };
    inject_headers_for_cli(PageKind::GameResults, &mut ds);
    assert!(ds.headers.is_some());
    assert_eq!(ds.headers.as_ref().unwrap().get(0).map(|s| s.as_str()), Some("S"));
}

#[test]
fn join_handles_slashes() {
    assert_eq!(join_prefix_and_path("/brutalball", "team.php?i=1"),
               "/brutalball/team.php?i=1");
    assert_eq!(join_prefix_and_path("/brutalball/", "team.php?i=1"),
               "/brutalball/team.php?i=1");
    assert_eq!(join_prefix_and_path("/brutalball", "/team.php?i=1"),
               "/brutalball/team.php?i=1");
    assert_eq!(join_prefix_and_path("/brutalball/", "/team.php?i=1"),
               "/brutalball/team.php?i=1");
}
