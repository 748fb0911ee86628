use bb_scrape::scrape::game_results::parse_doc;

// Minimal smoke test using a short synthetic snippet that follows the new layout.
#[test]
fn parses_one_game_new_layout() {
    let doc = r#"
        <html><head><title>Brutalball Schedule - Season 5</title></head>
        <body>
          <table>
            <tr><td colspan=4 class="conference">WEEK 2</td></tr>
            <tr class="playerrow">
              <td class="basichome"><a href="team.php?i=10">Budget Roadies</a> &nbsp; <strong>6</strong></td>
              <td class=spacer>&nbsp;</td>
              <td class="basicaway"><strong>8</strong> &nbsp;<a href="team.php?i=24">Sportsball Union</a></td>
              <td class=spacer align=center><a href=game.php?i=2241></a></td>
            </tr>
          </table>
        </body></html>
    "#;

    let out = parse_doc(doc);
    // assert_eq!(out.headers.as_ref().unwrap().len(), 7);
    assert_eq!(out.rows.len(), 1);
    let row = &out.rows[0];
    // S, W, Home team, Home, Away, Away team, Match id
    assert_eq!(row[0], "5");
    assert_eq!(row[1], "2");
    assert_eq!(row[2], "Sportsball Union"); // home
    assert_eq!(row[3], "8");
    assert_eq!(row[4], "6");
    assert_eq!(row[5], "Budget Roadies"); // away
    assert_eq!(row[6], "2241");
}

#[test]
fn future_games_have_blank_scores_and_no_matchid() {
    let doc = r#"
        <html><head><title>Brutalball Schedule - Season 5</title></head>
        <body>
          <table>
            <tr><td colspan=4 class="conference">WEEK 9</td></tr>
            <tr class="playerrow">
              <td class="basichome"><a href="team.php?i=12">Blood Pit Bouncers</a></td>
              <td class=spacer>&nbsp;</td>
              <td class="basicaway"><a href="team.php?i=4">Bumson Medics</a></td>
              <td class=spacer align=center>&nbsp;</td>
            </tr>
          </table>
        </body></html>
    "#;

    let out = parse_doc(doc);
    assert_eq!(out.rows.len(), 1);
    let row = &out.rows[0];
    assert_eq!(row[1], "9");
    assert_eq!(row[2], "Bumson Medics"); // home
    assert_eq!(row[3], "");              // home score blank
    assert_eq!(row[4], "");              // away score blank
    assert_eq!(row[5], "Blood Pit Bouncers"); // away
    assert_eq!(row[6], "");              // no match id
}

#[test]
fn parses_old_layout_left_away_right_home() {
    let doc = r#"
        <html><head><title>Brutalball Schedule - Season 3</title></head>
        <body>
          <table>
            <tr><td colspan=4 class="conference">WEEK 1</td></tr>
            <tr class="playerrow">
              <td><a href="team.php?i=2">Away Team 2</a> <strong>3</strong></td>
              <td class=spacer>&nbsp;</td>
              <td><strong>7</strong> <a href="team.php?i=5">Home Team 5</a></td>
              <td class=spacer align=center>&nbsp;</td>
            </tr>
          </table>
        </body></html>
    "#;

    let out = parse_doc(doc);
    assert_eq!(out.rows.len(), 1);
    let row = &out.rows[0];
    // S, W, Home team, Home, Away, Away team, Match id
    assert_eq!(row[0], "3");
    assert_eq!(row[1], "1");
    assert_eq!(row[2], "Home Team"); // trimmed non-letters
    assert_eq!(row[3], "7");
    assert_eq!(row[4], "3");
    assert_eq!(row[5], "Away Team"); // trimmed non-letters
}
