//! Injury report (`injury.php`): one event per `<br>`-separated line.

use vstd::prelude::*;
use crate::text::{
    chars_of, contains, contains_exec, decimal, decimal_vec, find, find_from, leading_digits, lemma_find_from,
    lower_seq, lower_vec, rows_of, split_on, split_vec, take_digits,
};
use crate::base::vischars::visible;
use crate::store::DataSet;
use crate::scrape::team_prefix::{
    lemma_skip_empty_same, names_of, split_offender, split_team_player, team_names,
};
use crate::scrape::injury_line::{injury_headers, parse_line_slow, slow_line};
use crate::scrape::injury_stream::{fast_line, parse_line_fast};

verus! {

/// How a line is read.
#[derive(Clone, Copy, PartialEq, Eq, Debug, Structural)]
pub enum LineReader {
    /// Keyword search on the line's text (markup removed).
    Keywords,
    /// One pass over the visible characters.
    Stream,
    /// One pass over the visible characters, empty team names ignored.
    IndexedStream,
}

pub open spec fn line_row(chunk: Seq<char>, season: Seq<char>, names: Seq<Seq<char>>, how: LineReader) -> Option<Seq<Seq<char>>> {
    match how {
        LineReader::Keywords => slow_line(chunk, season, names),
        LineReader::Stream => fast_line(visible(chunk), season, names, false),
        LineReader::IndexedStream => fast_line(visible(chunk), season, names, true),
    }
}

/// Rows of the lines that carry `" DUR "` and read successfully, in order.
pub open spec fn chunk_rows(chunks: Seq<Seq<char>>, season: Seq<char>, names: Seq<Seq<char>>, how: LineReader) -> Seq<Seq<Seq<char>>>
    decreases chunks.len(),
{
    if chunks.len() == 0 {
        Seq::empty()
    } else {
        let c = chunks[0];
        let head = if contains(c, " DUR "@) {
            match line_row(c, season, names, how) {
                Some(r) => seq![r],
                None => Seq::empty(),
            }
        } else {
            Seq::empty()
        };
        head + chunk_rows(chunks.drop_first(), season, names, how)
    }
}

/// Rows of a report: its `<br>`-separated lines read one by one.
pub open spec fn doc_rows(doc: Seq<char>, season: Seq<char>, names: Seq<Seq<char>>, how: LineReader) -> Seq<Seq<Seq<char>>> {
    chunk_rows(split_on(doc, "<br>"@), season, names, how)
}

/// Season named in the report (`season <digits>`, any case), else empty.
pub open spec fn season_in_doc(doc: Seq<char>) -> Seq<char> {
    match find_from(lower_seq(doc), "season "@, 0) {
        Some(i) => leading_digits(doc.skip(i + 7)),
        None => Seq::empty(),
    }
}

/// Season of a report: as named in it, else the stored one, else empty.
pub open spec fn injury_season(doc: Seq<char>, stored: Option<u32>) -> Seq<char> {
    let s = season_in_doc(doc);
    if s.len() == 0 {
        match stored {
            Some(n) => decimal(n as nat),
            None => Seq::empty(),
        }
    } else {
        s
    }
}

fn parse_doc_with(doc: &[char], season: &[char], names: &Vec<Vec<char>>, how: LineReader) -> (v: Vec<Vec<Vec<char>>>)
    ensures
        v.deep_view() == doc_rows(doc@, season@, names.deep_view(), how),
{
    let br = chars_of("<br>");
    proof {
        reveal_strlit("<br>");
    }
    let chunks = split_vec(doc, &br);
    let ghost cs = chunks.deep_view();
    let p_dur = chars_of(" DUR ");
    let mut out: Vec<Vec<Vec<char>>> = Vec::new();
    let mut i: usize = 0;
    assert(cs.skip(0) =~= cs);
    while i < chunks.len()
        invariant
            i <= chunks@.len(),
            cs == chunks.deep_view(),
            p_dur@ == " DUR "@,
            chunk_rows(cs, season@, names.deep_view(), how) == out.deep_view() + chunk_rows(
                cs.skip(i as int),
                season@,
                names.deep_view(),
                how,
            ),
        decreases chunks@.len() - i,
    {
        let c = &chunks[i];
        assert(cs[i as int] == c@);
        assert(cs.skip(i as int)[0] == c@);
        assert(cs.skip(i as int).drop_first() =~= cs.skip(i + 1));
        let ghost prev = out.deep_view();
        if contains_exec(c.as_slice(), &p_dur) {
            let r = match how {
                LineReader::Keywords => parse_line_slow(c.as_slice(), season, names),
                LineReader::Stream => parse_line_fast(c.as_slice(), season, names, false),
                LineReader::IndexedStream => parse_line_fast(c.as_slice(), season, names, true),
            };
            match r {
                Some(row) => {
                    let ghost rv = row.deep_view();
                    out.push(row);
                    assert(out.deep_view() =~= prev.push(rv));
                    assert(prev + chunk_rows(cs.skip(i as int), season@, names.deep_view(), how) =~= out.deep_view()
                        + chunk_rows(cs.skip(i + 1), season@, names.deep_view(), how));
                },
                None => {
                    assert(prev + chunk_rows(cs.skip(i as int), season@, names.deep_view(), how) =~= out.deep_view()
                        + chunk_rows(cs.skip(i + 1), season@, names.deep_view(), how));
                },
            }
        } else {
            assert(prev + chunk_rows(cs.skip(i as int), season@, names.deep_view(), how) =~= out.deep_view()
                + chunk_rows(cs.skip(i + 1), season@, names.deep_view(), how));
        }
        i = i + 1;
    }
    assert(out.deep_view() + chunk_rows(cs.skip(i as int), season@, names.deep_view(), how) =~= out.deep_view());
    out
}

/// Rows of a report read by keyword search on each line's text.
pub fn parse_doc_current(doc: &str, season: &str, teams: &[(u32, String)]) -> (r: Vec<Vec<String>>)
    ensures
        r.deep_view() == doc_rows(doc@, season@, team_names(teams.deep_view()), LineReader::Keywords),
{
    let names = names_of(teams);
    rows_of(&parse_doc_with(&chars_of(doc), &chars_of(season), &names, LineReader::Keywords))
}

/// Rows of a report read in one pass per line.
pub fn parse_doc_fast_base(doc: &str, season: &str, teams: &[(u32, String)]) -> (r: Vec<Vec<String>>)
    ensures
        r.deep_view() == doc_rows(doc@, season@, team_names(teams.deep_view()), LineReader::Stream),
{
    let names = names_of(teams);
    rows_of(&parse_doc_with(&chars_of(doc), &chars_of(season), &names, LineReader::Stream))
}

/// Team names prepared for the one-pass reader.
struct TeamIndex {
    names: Vec<Vec<char>>,
}

impl TeamIndex {
    fn new(teams: &[(u32, String)]) -> (ix: TeamIndex)
        ensures
            ix.names.deep_view() == team_names(teams.deep_view()),
    {
        TeamIndex { names: names_of(teams) }
    }
}

/// Rows of a report read in one pass per line, teams looked up in an index
/// of the non-empty team names.
pub fn parse_doc_fast_idx(doc: &str, season: &str, teams: &[(u32, String)]) -> (r: Vec<Vec<String>>)
    ensures
        r.deep_view() == doc_rows(doc@, season@, team_names(teams.deep_view()), LineReader::IndexedStream),
{
    let idx = TeamIndex::new(teams);
    rows_of(&parse_doc_with(&chars_of(doc), &chars_of(season), &idx.names, LineReader::IndexedStream))
}

/// Rows of a report with the default reader (one pass, indexed teams).
pub fn parse_doc_fast(doc: &str, season: &str, teams: &[(u32, String)]) -> (r: Vec<Vec<String>>)
    ensures
        r.deep_view() == doc_rows(doc@, season@, team_names(teams.deep_view()), LineReader::IndexedStream),
{
    parse_doc_fast_idx(doc, season, teams)
}

fn season_in_doc_vec(doc: &[char]) -> (v: Vec<char>)
    ensures
        v@ == season_in_doc(doc@),
{
    let lc = lower_vec(doc);
    let p = chars_of("season ");
    proof {
        reveal_strlit("season ");
        lemma_find_from(lc@, p@, 0);
    }
    let n = doc.len();
    match find(&lc, &p, 0) {
        Some(i) => take_digits(doc, i + 7),
        None => Vec::new(),
    }
}

/// The injury table of the report `doc` (the caller fetches `injury.php`):
/// the season named in the report, else `stored_season`, fills the first
/// column; teams are split off with the names of `teams`.
pub fn collect_injuries(doc: &str, stored_season: Option<u32>, teams: &[(u32, String)]) -> (ds: DataSet)
    ensures
        ds.headers_view() == Some(injury_headers()),
        ds.rows_view() == doc_rows(
            doc@,
            injury_season(doc@, stored_season),
            team_names(teams.deep_view()),
            LineReader::IndexedStream,
        ),
{
    let d = chars_of(doc);
    let mut season = season_in_doc_vec(&d);
    if season.len() == 0 {
        match stored_season {
            Some(s) => {
                season = decimal_vec(s as u64);
            },
            None => {},
        }
    }
    let idx = TeamIndex::new(teams);
    let rows = rows_of(&parse_doc_with(&d, &season, &idx.names, LineReader::IndexedStream));
    let mut h: Vec<String> = Vec::new();
    h.push("S".to_string());
    h.push("W".to_string());
    h.push("Victim Team".to_string());
    h.push("Victim".to_string());
    h.push("DUR".to_string());
    h.push("SR0".to_string());
    h.push("SR1".to_string());
    h.push("Type".to_string());
    h.push("Offender Team".to_string());
    h.push("Offender".to_string());
    h.push("BRU".to_string());
    h.push("Bounty".to_string());
    assert(h.deep_view() =~= injury_headers());
    DataSet { headers: Some(h), rows }
}

/* ---------------- laws ---------------- */

proof fn lemma_lines_agree(chunks: Seq<Seq<char>>, season: Seq<char>, names: Seq<Seq<char>>)
    requires
        forall|k: int| 0 <= k < names.len() ==> #[trigger] names[k].len() > 0,
    ensures
        chunk_rows(chunks, season, names, LineReader::Stream) == chunk_rows(
            chunks,
            season,
            names,
            LineReader::IndexedStream,
        ),
    decreases chunks.len(),
{
    if chunks.len() > 0 {
        lemma_lines_agree(chunks.drop_first(), season, names);
        assert forall|s: Seq<char>| #[trigger] split_team_player(s, names, true) == split_team_player(s, names, false) by {
            lemma_skip_empty_same(s, names, 0, None);
        }
        assert forall|s: Seq<char>| #[trigger] split_offender(s, names, true) == split_offender(s, names, false) by {
            assert(split_team_player(s, names, true) == split_team_player(s, names, false));
        }
    }
}

/// With no empty team name, the indexed reader gives exactly the rows of
/// the plain one-pass reader.
pub proof fn indexed_reader_matches_plain(doc: Seq<char>, season: Seq<char>, names: Seq<Seq<char>>)
    requires
        forall|k: int| 0 <= k < names.len() ==> #[trigger] names[k].len() > 0,
    ensures
        doc_rows(doc, season, names, LineReader::IndexedStream) == doc_rows(doc, season, names, LineReader::Stream),
{
    lemma_lines_agree(split_on(doc, "<br>"@), season, names);
}

/* ---------------- what the two readers read ---------------- */

/// A plain line: no markup characters (`<`, `>`, `&`), no whitespace but
/// single spaces between other characters.
pub open spec fn plain_line(line: Seq<char>) -> bool {
    &&& forall|i: int| 0 <= i < line.len() ==> {
        let c = #[trigger] line[i];
        &&& c != '<' && c != '>' && c != '&'
        &&& crate::text::char_is_ws(c) ==> c == ' '
    }
    &&& forall|i: int| 0 <= i < line.len() - 1 ==> !(#[trigger] line[i] == ' ' && line[i + 1] == ' ')
    &&& line.len() > 0 ==> line[0] != ' ' && line.last() != ' '
}

proof fn lemma_replace_absent(s: Seq<char>, p: Seq<char>, r: Seq<char>)
    requires
        p.len() > 0,
        !s.contains(p[0]),
    ensures
        crate::text::replace_all(s, p, r) == s,
    decreases s.len(),
{
    if s.len() > 0 {
        assert(s[0] != p[0]);
        if crate::text::match_at(s, p, 0) {
            assert(s.subrange(0, p.len() as int)[0] == s[0]);
        }
        assert(!s.drop_first().contains(p[0])) by {
            if s.drop_first().contains(p[0]) {
                let k = choose|k: int| 0 <= k < s.drop_first().len() && s.drop_first()[k] == p[0];
                assert(s[k + 1] == p[0]);
            }
        }
        lemma_replace_absent(s.drop_first(), p, r);
        assert(s =~= seq![s[0]] + s.drop_first());
    }
}

proof fn lemma_visible_plain(s: Seq<char>, i: int)
    requires
        plain_line(s),
        0 <= i <= s.len(),
    ensures
        crate::base::vischars::vis_from(s, i) == s.skip(i),
    decreases s.len() - i,
{
    if i < s.len() {
        let c = s[i];
        assert(c != '<' && c != '&');
        if c == ' ' {
            if i + 1 < s.len() {
                assert(!(s[i] == ' ' && s[i + 1] == ' '));
                assert(s[i + 1] != ' ');
                assert(crate::text::char_is_ws(s[i + 1]) ==> s[i + 1] == ' ');
                assert(!crate::base::vischars::is_blank(s[i + 1]));
            }
            assert(crate::base::vischars::blank_end(s, i + 1) == i + 1);
        } else {
            assert(!crate::base::vischars::is_blank(c)) by {
                if crate::base::vischars::is_blank(c) {
                    assert(crate::text::char_is_ws(c));
                }
            }
        }
        crate::base::vischars::lemma_vis_step(s, i);
        lemma_visible_plain(s, i + 1);
        assert(s.skip(i) =~= seq![c] + s.skip(i + 1));
    } else {
        assert(s.skip(i) =~= Seq::<char>::empty());
    }
}

/// On a plain line the keyword reader and the one-pass reader read the
/// same characters: the line itself (the text with markup removed, and the
/// visible characters, are both the line).
pub proof fn plain_lines_read_alike(line: Seq<char>)
    requires
        plain_line(line),
    ensures
        crate::scrape::injury_line::line_text(line) == line,
        visible(line) == line,
{
    reveal_strlit("&nbsp;");
    reveal_strlit("&amp;");
    reveal_strlit("\r");
    assert(!line.contains('&')) by {
        if line.contains('&') {
            let k = choose|k: int| 0 <= k < line.len() && line[k] == '&';
        }
    }
    lemma_replace_absent(line, "&nbsp;"@, " "@);
    lemma_replace_absent(line, "&amp;"@, "&"@);
    assert(crate::base::sanitize::normalize_entities_spec(line) == line);
    assert(crate::base::html::no_brackets(line));
    crate::base::html::lemma_drop_tags_id(line);
    assert(crate::base::html::single_spaced(line)) by {
        assert forall|i: int| 0 <= i < line.len() && #[trigger] crate::text::char_is_ws(line[i]) implies line[i] == ' ' && (
        i + 1 < line.len() ==> !crate::text::char_is_ws(line[i + 1])) by {
            if i + 1 < line.len() {
                assert(!(line[i] == ' ' && line[i + 1] == ' '));
            }
        }
    }
    crate::base::html::lemma_collapse_fixed(line, false);
    if line.len() > 0 {
        assert(line[0] != ' ');
        assert(line[line.len() - 1] != ' ');
    }
    crate::text::lemma_trim_plain(line);
    assert(crate::base::html::clean_spec(line) == line);
    assert(!line.contains('\r')) by {
        if line.contains('\r') {
            let k = choose|k: int| 0 <= k < line.len() && line[k] == '\r';
            assert(crate::text::char_is_ws(line[k]));
        }
    }
    lemma_replace_absent(line, "\r"@, Seq::empty());
    lemma_visible_plain(line, 0);
    assert(line.skip(0) =~= line);
}

} // verus!
