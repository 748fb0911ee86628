use bb_scrape::base::sanitize::letters_only_trim;
use bb_scrape::scrape::players::{
    extract_and_validate_team_name, extract_from_active_tab, extract_from_menu_header, extract_from_title,
    extract_team_name, read_site_headers_row, remove_bracket_tags, split_first_cell, strip_record_suffix,
};

#[test]
fn letters_only_trims_at_non_letter() {
    assert_eq!(letters_only_trim("Failurewood Hills (6 - 0 - 2)"), "Failurewood Hills");
    assert_eq!(letters_only_trim("Alpha Beta,"), "Alpha Beta");
    assert_eq!(letters_only_trim("OnlyLetters"), "OnlyLetters");
}

#[test]
fn strip_record_suffix_variants() {
    assert_eq!(strip_record_suffix("Team (6 - 0 - 2)"), "Team");
    assert_eq!(strip_record_suffix("Team (Champions)"), "Team (Champions)");
}

#[test]
fn extract_team_name_handles_owner_and_pipe() {
    let table = r#"
        <tr><td><h5>Failurewood Hills (6 - 0 - 2) Team owner Foo</h5></td></tr>
    "#;
    assert_eq!(extract_team_name(table).as_deref(), Some("Failurewood Hills"));

    let table2 = r#"
        <tr><td><h5>My Team | Division Alpha</h5></td></tr>
    "#;
    assert_eq!(extract_team_name(table2).as_deref(), Some("My Team"));
}

#[test]
fn extract_team_name_trims_digits_and_punct() {
    let table = r#"
        <tr><td><h5>Team 2</h5></td></tr>
    "#;
    assert_eq!(extract_team_name(table).as_deref(), Some("Team"));

    let table2 = r#"
        <tr><td><h5>Team-Name</h5></td></tr>
    "#;
    assert_eq!(extract_team_name(table2).as_deref(), Some("Team"));
}

#[test]
fn split_first_cell_variants() {
    assert_eq!(split_first_cell("Name #27 Race"), ("Name".into(), "#27".into(), "Race".into()));
    assert_eq!(split_first_cell("Name #27"), ("Name".into(), "#27".into(), "".into()));
    assert_eq!(split_first_cell("Name"), ("Name".into(), "".into(), "".into()));
}

#[test]
fn remove_bracket_tags_works() {
    assert_eq!(remove_bracket_tags("[CAPTAIN] Name [out]"), "Name");
}

#[test]
fn read_site_headers_row_consecutive_th() {
    let html = r#"
        <table>
          <th>A</th><th>B</th>  <td>stop</td>
        </table>
    "#;
    let inner = html; // function scans whole string for <th> blocks
    let hdrs = read_site_headers_row(inner);
    assert_eq!(hdrs, vec!["A", "B"]);
}

#[test]
fn extract_and_validate_all_three_agree() {
    // All three locations present and agree - should succeed
    let doc = r#"
        <head><title>Failurewood Hills</title></head>
        <table class=teamenu>
          <tr><td colspan="100%">
            <table class=cleantable>
              <tr>
                <td class="teamenuhead">&nbsp;Failurewood Hills</td>
              </tr>
            </table>
          </td></tr>
          <tr>
            <td class="teamenuactive"><strong>Failurewood Hills</strong></td>
          </tr>
        </table>
    "#;
    let result = extract_and_validate_team_name(doc, 20);
    assert!(result.is_ok());
    assert_eq!(result.unwrap(), "Failurewood Hills");
}

#[test]
fn extract_and_validate_mismatch_fails() {
    // Title says one thing, active tab says another - should fail
    let doc = r#"
        <head><title>Wrong Team</title></head>
        <table class=teamenu>
          <tr><td colspan="100%">
            <table class=cleantable>
              <tr>
                <td class="teamenuhead">&nbsp;Failurewood Hills</td>
              </tr>
            </table>
          </td></tr>
          <tr>
            <td class="teamenuactive"><strong>Failurewood Hills</strong></td>
          </tr>
        </table>
    "#;
    let result = extract_and_validate_team_name(doc, 20);
    assert!(result.is_err());
    assert!(result.unwrap_err().message().contains("mismatch"));
}

#[test]
fn extract_and_validate_missing_location_fails() {
    // Missing active tab - should fail
    let doc = r#"
        <head><title>Failurewood Hills</title></head>
        <table class=teamenu>
          <tr><td colspan="100%">
            <table class=cleantable>
              <tr>
                <td class="teamenuhead">&nbsp;Failurewood Hills</td>
              </tr>
            </table>
          </td></tr>
        </table>
    "#;
    let result = extract_and_validate_team_name(doc, 20);
    assert!(result.is_err());
    assert!(result.unwrap_err().message().contains("mismatch"));
}

#[test]
fn extract_from_title_works() {
    let doc = r#"<head><title>Red Star Pathfinders</title></head>"#;
    assert_eq!(extract_from_title(doc).as_deref(), Some("Red Star Pathfinders"));
}

#[test]
fn extract_from_active_tab_works() {
    let doc = r#"<td class="teamenuactive"><strong>Vuvu Boys</strong></td>"#;
    assert_eq!(extract_from_active_tab(doc).as_deref(), Some("Vuvu Boys"));
}

#[test]
fn extract_from_menu_header_works() {
    let doc = r#"<td class="teamenuhead">&nbsp;Bulldozer Power</td>"#;
    assert_eq!(extract_from_menu_header(doc).as_deref(), Some("Bulldozer Power"));
}
