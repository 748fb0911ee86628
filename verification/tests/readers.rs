use bb_scrape::base::html::{inner_after_open_tag, next_tag_block_ci, slice_between_ci, strip_tags, to_lowercase_fast};
use bb_scrape::base::vischars::{visible_vec, VisChars};
use bb_scrape::base::net::{chunk_size, head_complete, parse_head, request_text};
use bb_scrape::base::sanitize::{normalize_entities, normalize_ws, sanitize_team_filename, strip_brackets};
use bb_scrape::config::options::TeamSelector;
use bb_scrape::engine::engine::{build_path, extract};
use bb_scrape::engine::types::{CellSelector, HeaderMode, Locator, RowSelector, TableSpec};
use bb_scrape::error::ScrapeError;
use bb_scrape::roster::extract_player_rows;
use bb_scrape::scrape::collect::{collect_game_results, collect_players, collect_teams, list_teams, resolve_ids};
use bb_scrape::scrape::injuries::{collect_injuries, parse_doc_current, parse_doc_fast, parse_doc_fast_base, parse_doc_fast_idx};
use bb_scrape::scrape::players::RosterBundle;
use bb_scrape::specs::players::fetch_and_extract;
use bb_scrape::runner::collect_players as collect_rosters;

fn s(x: &str) -> String {
    x.to_string()
}

fn row(cells: &[&str]) -> Vec<String> {
    cells.iter().map(|c| c.to_string()).collect()
}

/* ---------------- html and text helpers ---------------- */

#[test]
fn html_helpers() {
    let doc = "<P>x</p><TABLE class=teamroster id=1><tr><td>A</td></tr></table>";
    assert_eq!(slice_between_ci(doc, "<table class=teamroster", "</table>"), Some(s("<tr><td>A</td></tr>")));
    assert_eq!(slice_between_ci(doc, "<ul", "</ul>"), None);
    assert_eq!(next_tag_block_ci(doc, "<td", "</td>", 0), Some((41, 51)));
    // positions are byte offsets: `é` takes two bytes, and an offset inside it gives nothing
    assert_eq!(next_tag_block_ci("é<TD>x</td>", "<td", "</td>", 0), Some((2, 12)));
    assert_eq!(next_tag_block_ci("é<TD>x</td>", "<td", "</td>", 1), None);
    assert_eq!(next_tag_block_ci("é<TD>x</td>", "<td", "</td>", 3), None);
    assert_eq!(inner_after_open_tag("<td class=x>In<b>n</b></td>"), "In<b>n</b>");
    assert_eq!(strip_tags("<b> a </b>\n<i>b</i>"), "a b");
    assert_eq!(to_lowercase_fast("AbÉ"), "abÉ");
    assert_eq!(normalize_entities("a&nbsp;&amp;b"), "a &b");
    assert_eq!(normalize_ws("  a \t b  "), "a b");
    assert_eq!(strip_brackets("x [y] z"), "x  z");
    assert_eq!(sanitize_team_filename("  Lions (1 - 0 - 0) ", 4), "Lions_1_-_0_-_0");
    assert_eq!(sanitize_team_filename("!!!", 4), "team_4");
}

#[test]
fn http_pieces() {
    assert_eq!(
        request_text("/brutalball/index.php", "dozerverse.com"),
        "GET /brutalball/index.php HTTP/1.1\r\nHost: dozerverse.com\r\nUser-Agent: bb_scrape/0.4\r\nConnection: close\r\nAccept-Encoding: identity\r\n\r\n"
    );
    assert!(head_complete(b"HTTP/1.1 200 OK\r\n\r\n"));
    assert!(head_complete(b"x\n\n"));
    assert!(!head_complete(b"HTTP/1.1 200 OK\r\n"));
    let h = parse_head("HTTP/1.1 200 OK\r\nContent-Length: 12\r\nX: y\r\n\r\n");
    assert_eq!(h.status, "HTTP/1.1 200 OK");
    assert!(h.ok);
    assert_eq!(h.content_length, Some(12));
    assert!(!h.chunked);
    let c = parse_head("HTTP/1.1 404 Not Found\r\nTransfer-Encoding: Chunked\r\n\r\n");
    assert!(!c.ok);
    assert!(c.chunked);
    assert_eq!(c.content_length, None);
    assert_eq!(chunk_size("1a\r\n"), 26);
    assert_eq!(chunk_size("zz"), 0);
}

/* ---------------- team list ---------------- */

#[test]
fn teams_from_league_table() {
    let doc = r#"<html><table>
      <tr><td class="namecheck"><a href="team.php?i=2">Tigers United</a></td></tr>
      <tr><td class="namecheck"><a href="team.php?i=1">Lions</a></td></tr>
      <tr><td class="namecheck"><a href="team.php?i=2">Tigers Again</a></td></tr>
    </table></html>"#;
    let ds = collect_teams(doc);
    assert_eq!(ds.headers, Some(row(&["Id", "Team"])));
    assert_eq!(ds.rows, vec![row(&["1", "Lions"]), row(&["2", "Tigers United"])]);
}

#[test]
fn team_ids_and_stand_in_list() {
    assert_eq!(resolve_ids(&TeamSelector::All), (0..32).collect::<Vec<u32>>());
    assert_eq!(resolve_ids(&TeamSelector::One(5)), vec![5]);
    assert_eq!(resolve_ids(&TeamSelector::Ids(vec![4, 2])), vec![4, 2]);
    let l = list_teams(Err(s("no file")));
    assert_eq!(l.len(), 32);
    assert_eq!(l[0], (0, s("Team 0")));
    assert_eq!(l[31], (31, s("Team 31")));
    let mine = vec![(9, s("Nine"))];
    assert_eq!(list_teams(Ok(mine.clone())), mine);
}

/* ---------------- rosters ---------------- */

const ROSTER: &str = r#"<html><table class=teamroster>
<tr><td><h5>Lions (1 - 0 - 0) Team owner Foo</h5></td></tr>
<th>Player</th><th>MA</th>
<tr class="playerrow"><td>Bob #7 Orc [CAPTAIN]</td><td>5</td></tr>
<tr class="other"><td>skip</td></tr>
</table></html>"#;

#[test]
fn roster_rows_plain_and_shaped() {
    let rows = extract_player_rows(ROSTER, 7).unwrap();
    assert_eq!(rows, vec![row(&["Bob", "#7", "Orc [CAPTAIN]", "Lions (1 - 0 - 0)", "5"])]);
    assert!(matches!(extract_player_rows("<html></html>", 7), Err(ScrapeError::TableNotFound)));
    let b = fetch_and_extract(7, ROSTER, false, true).ok().unwrap();
    assert_eq!(b.team_name, "Lions (1 - 0 - 0)");
    assert_eq!(b.headers, Some(row(&["Name", "Number", "Race", "Team", "Player", "MA"])));
    assert_eq!(b.rows, vec![row(&["Bob", "7", "Orc", "Lions (1 - 0 - 0)", "5"])]);
}

#[test]
fn table_reader_by_description() {
    let spec = TableSpec {
        path_tmpl: "team.php?i={id}",
        locator: Locator::TagWithAttr { tag: "table", attr: "class", value_sub: "teamroster" },
        header_mode: HeaderMode::ConsecutiveTh,
        row_selector: RowSelector::TrClassAny(&["playerrow", "playerrow1"]),
        cell_selector: CellSelector::TdOnly,
        header_ops: &["Name", "Number", "Race", "Team"],
        drop_first_header: true,
        split_fused_first_cell: true,
        insert_team_at: Some(3),
    };
    assert_eq!(build_path(&spec, Some(7)), "team.php?i=7");
    assert_eq!(build_path(&spec, None), "team.php?i={id}");
    let out = extract(&spec, Some(7), ROSTER).ok().unwrap();
    assert_eq!(out.filename_stem, "Lions_1_-_0_-_0");
    assert_eq!(out.headers, Some(row(&["Name", "Number", "Race", "Team", "MA"])));
    assert_eq!(out.rows, vec![row(&["Bob", "#7", "Orc", "Lions (1 - 0 - 0)", "5"])]);
    assert_eq!(extract(&spec, Some(7), "<p></p>").err(), Some(s("table not found")));
    let other = TableSpec { locator: Locator::FirstTableWithHeader("Player"), ..spec };
    assert_eq!(extract(&other, None, ROSTER).err(), Some(s("Locator not implemented")));
}

#[test]
fn players_are_merged_by_team_id() {
    let b = |h: Option<Vec<String>>, r: &[&str]| RosterBundle { headers: h, rows: vec![row(r)] };
    let fetched = vec![
        (3, b(None, &["c1"])),
        (1, b(Some(row(&["H1"])), &["a1"])),
        (3, b(Some(row(&["H2"])), &["c2"])),
    ];
    let ds = collect_players(fetched);
    assert_eq!(ds.headers, Some(row(&["H1"])));
    assert_eq!(ds.rows, vec![row(&["a1"]), row(&["c1"]), row(&["c2"])]);
}

/* ---------------- schedule and injuries ---------------- */

#[test]
fn game_results_as_data_set() {
    let doc = r#"<html><head><title>Schedule - Season 5</title></head><table>
      <tr><td colspan=4 class="conference">WEEK 2</td></tr>
      <tr class="playerrow">
        <td class="basichome"><a href="team.php?i=10">Budget Roadies</a> &nbsp; <strong>6</strong></td>
        <td class=spacer>&nbsp;</td>
        <td class="basicaway"><strong>8</strong> &nbsp;<a href="team.php?i=24">Sportsball Union</a></td>
        <td class=spacer align=center><a href=game.php?i=2241></a></td>
      </tr></table></html>"#;
    let ds = collect_game_results(doc);
    assert_eq!(ds.headers, None);
    assert_eq!(ds.rows, vec![row(&["5", "2", "Sportsball Union", "8", "6", "Budget Roadies", "2241"])]);
}

const INJURIES: &str = "Injury report<br>W3 Lions Bob DUR 2 Broken Arm by Tigers Tom BRU 5 SR Drops from 60 to 55<br>nothing here";

#[test]
fn injury_lines_both_readers() {
    let teams = vec![(1, s("Lions")), (2, s("Tigers"))];
    let expected = vec![row(&["5", "3", "Lions", "Bob", "2", "60", "55", "Broken Arm", "Tigers", "Tom", "5", ""])];
    assert_eq!(parse_doc_current(INJURIES, "5", &teams), expected);
    assert_eq!(parse_doc_fast(INJURIES, "5", &teams), expected);
    assert_eq!(parse_doc_fast_base(INJURIES, "5", &teams), expected);
    let ds = collect_injuries(INJURIES, Some(5), &teams);
    assert_eq!(ds.headers.as_ref().unwrap().len(), 12);
    assert_eq!(ds.rows, expected);
}

#[test]
fn rosters_read_in_order() {
    let pages = vec![(7, s(ROSTER)), (8, s(ROSTER))];
    let ds = collect_rosters(&pages, true, true).ok().unwrap();
    assert_eq!(ds.headers, Some(row(&["Name", "Number", "Race", "Team", "Player", "MA"])));
    assert_eq!(ds.rows.len(), 2);
    assert_eq!(ds.rows[1][1], "#7");
    let none = collect_rosters(&pages, false, false).ok().unwrap();
    assert_eq!(none.headers, None);
    let bad = vec![(7, s(ROSTER)), (8, s("<html></html>"))];
    assert!(matches!(collect_rosters(&bad, true, true), Err(ScrapeError::TableNotFound)));
}

#[test]
fn visible_characters_of_a_line() {
    let line = "a <b class='x>y'>b</b>&nbsp;c\t \n d";
    let v: String = visible_vec(line).into_iter().collect();
    assert_eq!(v, "a b c d");
    let mut it = VisChars::new("<i>x</i>&amp;");
    assert_eq!(it.next(), Some('x'));
    assert_eq!(it.next(), Some(' '));
    assert_eq!(it.next(), None);
}

#[test]
fn injury_readers_differ_on_entities() {
    // the keyword reader decodes `&amp;`, the one-pass reader reads any entity as a space
    let teams = vec![(1, s("Lions & Co")), (2, s("Tigers"))];
    let doc = "W3 Lions &amp; Co Bob DUR 2 Broken Arm by Tigers Tom BRU 5 SR Drops from 60 to 55";
    let slow = parse_doc_current(doc, "5", &teams);
    let fast = parse_doc_fast(doc, "5", &teams);
    assert_eq!(slow[0][2], "Lions & Co");
    assert_ne!(slow, fast);
    // the keyword reader needs an ` SR ` in the line, the one-pass reader does not
    let killed = "W3 Tigers Bob DUR 2 KILLED by Tigers Tom BRU 5";
    assert_eq!(parse_doc_current(killed, "5", &teams).len(), 0);
    assert_eq!(parse_doc_fast(killed, "5", &teams).len(), 1);
}

#[test]
fn stripped_text_is_plain_and_stable() {
    let once = strip_tags("<p> a <b>b</b>\u{2003} > c <i");
    assert_eq!(once, "a b c");
    assert!(!once.contains('<') && !once.contains('>'));
    assert_eq!(strip_tags(&once), once);
    assert_eq!(normalize_ws("\u{3000}x\u{a0}\u{a0}y\u{85}"), "x y");
}

#[test]
fn injury_readers_agree_on_report_lines() {
    let teams = vec![(1, s("Lions")), (2, s("Tigers")), (3, s("Sportsball Union"))];
    let doc = "Week report<br>W3 Lions Bob Smith DUR 2 Broken Arm by Tigers Tom BRU 5 SR Drops from 60 to 55<br>\
               W4 Sportsball Union Kay DUR 11 Concussion by Lions Ann Lee BRU 3 SR Drops from 7 to 6<br>end";
    let slow = parse_doc_current(doc, "5", &teams);
    let fast = parse_doc_fast_idx(doc, "5", &teams);
    assert_eq!(slow.len(), 2);
    assert_eq!(slow, fast);
    assert_eq!(slow[1], row(&["5", "4", "Sportsball Union", "Kay", "11", "7", "6", "Concussion", "Lions", "Ann Lee", "3", ""]));
}
