//! The window's saved settings as `key=value` lines: three flags, the
//! output path and the selected team ids.

use vstd::prelude::*;
use crate::text::{
    char_is_ws, chars_of, decimal, decimal_vec, find_char, find_char_from, find_from, is_digit,
    lemma_decimal_digits, lemma_find_char_from, lemma_find_from, lemma_trim_plain, lower_seq, lower_vec,
    match_at, parse_u32, parse_u32_spec, push_all, seq_eq, split_on, split_vec, string_of, sub_vec, trim,
    trim_vec,
};

verus! {

/// The window's saved settings.
pub struct GuiConfig {
    pub include_headers: bool,
    pub keep_hash: bool,
    pub per_team: bool,
    pub out_path: String,
    pub selected_ids: Vec<u32>,
}

/// The settings as plain values: the three flags, the path and the ids.
pub type ConfigView = (bool, bool, bool, Seq<char>, Seq<u32>);

impl GuiConfig {
    pub open spec fn view_of(&self) -> ConfigView {
        (self.include_headers, self.keep_hash, self.per_team, self.out_path@, self.selected_ids@)
    }
}

/// The settings before any line is read.
pub open spec fn default_config() -> ConfigView {
    (false, false, false, "NOT ACTIVE"@, Seq::empty())
}

impl Default for GuiConfig {
    fn default() -> (c: GuiConfig)
        ensures
            c.view_of() == default_config(),
    {
        let c = GuiConfig {
            include_headers: false,
            keep_hash: false,
            per_team: false,
            out_path: string_of(&chars_of("NOT ACTIVE")),
            selected_ids: Vec::new(),
        };
        assert(c.selected_ids@ =~= Seq::<u32>::empty());
        c
    }
}

/// A flag's value: `1` or `true` in any ASCII case.
pub open spec fn flag_value(val: Seq<char>) -> bool {
    val == "1"@ || lower_seq(val) == "true"@
}

/// The ids among comma-separated pieces, each trimmed; pieces that are no
/// `u32` are skipped.
pub open spec fn ids_of_pieces(pieces: Seq<Seq<char>>) -> Seq<u32>
    decreases pieces.len(),
{
    if pieces.len() == 0 {
        Seq::empty()
    } else {
        let rest = ids_of_pieces(pieces.drop_last());
        match parse_u32_spec(trim(pieces.last())) {
            Some(n) => rest.push(n),
            None => rest,
        }
    }
}

/// The settings after one line: blank lines, `#` comments, lines without
/// `=` and unknown keys change nothing.
pub open spec fn apply_line(c: ConfigView, raw: Seq<char>) -> ConfigView {
    let line = trim(raw);
    if line.len() == 0 || line[0] == '#' {
        c
    } else {
        match find_char_from(line, '=', 0) {
            None => c,
            Some(eq) => {
                let key = trim(line.take(eq));
                let val = trim(line.skip(eq + 1));
                if key == "include_headers"@ {
                    (flag_value(val), c.1, c.2, c.3, c.4)
                } else if key == "keep_hash"@ {
                    (c.0, flag_value(val), c.2, c.3, c.4)
                } else if key == "per_team"@ {
                    (c.0, c.1, flag_value(val), c.3, c.4)
                } else if key == "out_path"@ {
                    (c.0, c.1, c.2, val, c.4)
                } else if key == "teams"@ {
                    (c.0, c.1, c.2, c.3, ids_of_pieces(split_on(val, ","@)))
                } else {
                    c
                }
            },
        }
    }
}

/// The settings after all of `lines`, from the defaults.
pub open spec fn config_of_lines(lines: Seq<Seq<char>>) -> ConfigView
    decreases lines.len(),
{
    if lines.len() == 0 {
        default_config()
    } else {
        apply_line(config_of_lines(lines.drop_last()), lines.last())
    }
}

/// The settings a saved text gives.
pub open spec fn config_of_text(text: Seq<char>) -> ConfigView {
    config_of_lines(split_on(text, "\n"@))
}

fn flag_value_exec(val: &[char]) -> (b: bool)
    ensures
        b == flag_value(val@),
{
    seq_eq(val, &chars_of("1")) || seq_eq(&lower_vec(val), &chars_of("true"))
}

fn ids_of_text(val: &[char]) -> (v: Vec<u32>)
    ensures
        v@ == ids_of_pieces(split_on(val@, ","@)),
{
    let comma = chars_of(",");
    proof {
        reveal_strlit(",");
    }
    let pieces = split_vec(val, &comma);
    let ghost pv = pieces.deep_view();
    let mut v: Vec<u32> = Vec::new();
    let mut i: usize = 0;
    while i < pieces.len()
        invariant
            i <= pv.len(),
            pv == pieces.deep_view(),
            v@ == ids_of_pieces(pv.take(i as int)),
        decreases pv.len() - i,
    {
        assert(pv.take(i + 1).drop_last() =~= pv.take(i as int));
        assert(pv[i as int] == pieces@[i as int]@);
        match parse_u32(&trim_vec(&pieces[i])) {
            Some(n) => v.push(n),
            None => {},
        }
        i = i + 1;
    }
    assert(pv.take(i as int) =~= pv);
    v
}

fn apply_line_exec(c: &mut GuiConfig, raw: &[char])
    ensures
        final(c).view_of() == apply_line(old(c).view_of(), raw@),
{
    let line = trim_vec(raw);
    if line.len() == 0 || line[0] == '#' {
        return;
    }
    proof {
        lemma_find_char_from(line@, '=', 0);
    }
    let eq = match find_char(&line, '=', 0) {
        None => return,
        Some(k) => k,
    };
    let n = line.len();
    let key = trim_vec(&sub_vec(&line, 0, eq));
    assert(line@.subrange(0, eq as int) =~= line@.take(eq as int));
    let val = trim_vec(&sub_vec(&line, eq + 1, n));
    assert(line@.subrange(eq + 1, n as int) =~= line@.skip(eq + 1));
    if seq_eq(&key, &chars_of("include_headers")) {
        c.include_headers = flag_value_exec(&val);
    } else if seq_eq(&key, &chars_of("keep_hash")) {
        c.keep_hash = flag_value_exec(&val);
    } else if seq_eq(&key, &chars_of("per_team")) {
        c.per_team = flag_value_exec(&val);
    } else if seq_eq(&key, &chars_of("out_path")) {
        c.out_path = string_of(&val);
    } else if seq_eq(&key, &chars_of("teams")) {
        c.selected_ids = ids_of_text(&val);
    }
}

/// The settings read from a saved text (see `config_of_text`).
pub fn parse_config(text: &str) -> (c: GuiConfig)
    ensures
        c.view_of() == config_of_text(text@),
{
    let nl = chars_of("\n");
    proof {
        reveal_strlit("\n");
    }
    let lines = split_vec(&chars_of(text), &nl);
    let ghost lv = lines.deep_view();
    let mut c = GuiConfig::default();
    let mut i: usize = 0;
    while i < lines.len()
        invariant
            i <= lv.len(),
            lv == lines.deep_view(),
            lv == split_on(text@, "\n"@),
            c.view_of() == config_of_lines(lv.take(i as int)),
        decreases lv.len() - i,
    {
        assert(lv.take(i + 1).drop_last() =~= lv.take(i as int));
        assert(lv[i as int] == lines@[i as int]@);
        apply_line_exec(&mut c, &lines[i]);
        i = i + 1;
    }
    assert(lv.take(i as int) =~= lv);
    c
}

/// `1` or `0`.
pub open spec fn bit_text(b: bool) -> Seq<char> {
    if b { "1"@ } else { "0"@ }
}

/// The ids in decimal, separated by commas.
pub open spec fn ids_text(ids: Seq<u32>) -> Seq<char>
    decreases ids.len(),
{
    if ids.len() == 0 {
        Seq::empty()
    } else if ids.len() == 1 {
        decimal(ids[0] as nat)
    } else {
        ids_text(ids.drop_last()) + ","@ + decimal(ids.last() as nat)
    }
}

/// The saved text of the settings: the three flags, the path, and the
/// ids when there are any, one `key=value` line each.
pub open spec fn config_text_spec(c: ConfigView) -> Seq<char> {
    "include_headers="@ + bit_text(c.0) + "\n"@ + "keep_hash="@ + bit_text(c.1) + "\n"@ + "per_team="@ + bit_text(c.2)
        + "\n"@ + "out_path="@ + c.3 + "\n"@ + if c.4.len() > 0 {
        "teams="@ + ids_text(c.4) + "\n"@
    } else {
        Seq::empty()
    }
}

fn bit_text_exec(b: bool) -> (v: Vec<char>)
    ensures
        v@ == bit_text(b),
{
    if b { chars_of("1") } else { chars_of("0") }
}

/// The saved text of the settings (see `config_text_spec`).
pub fn config_text(cfg: &GuiConfig) -> (s: String)
    ensures
        s@ == config_text_spec(cfg.view_of()),
{
    let mut v = chars_of("include_headers=");
    push_all(&mut v, &bit_text_exec(cfg.include_headers));
    push_all(&mut v, &chars_of("\n"));
    push_all(&mut v, &chars_of("keep_hash="));
    push_all(&mut v, &bit_text_exec(cfg.keep_hash));
    push_all(&mut v, &chars_of("\n"));
    push_all(&mut v, &chars_of("per_team="));
    push_all(&mut v, &bit_text_exec(cfg.per_team));
    push_all(&mut v, &chars_of("\n"));
    push_all(&mut v, &chars_of("out_path="));
    push_all(&mut v, &chars_of(cfg.out_path.as_str()));
    push_all(&mut v, &chars_of("\n"));
    let ghost head = v@;
    if cfg.selected_ids.len() > 0 {
        let mut list: Vec<char> = Vec::new();
        let mut i: usize = 0;
        while i < cfg.selected_ids.len()
            invariant
                i <= cfg.selected_ids@.len(),
                list@ == ids_text(cfg.selected_ids@.take(i as int)),
            decreases cfg.selected_ids@.len() - i,
        {
            let ghost t = cfg.selected_ids@.take(i + 1);
            assert(t.drop_last() =~= cfg.selected_ids@.take(i as int));
            if i > 0 {
                push_all(&mut list, &chars_of(","));
            }
            push_all(&mut list, &decimal_vec(cfg.selected_ids[i] as u64));
            i = i + 1;
        }
        assert(cfg.selected_ids@.take(i as int) =~= cfg.selected_ids@);
        push_all(&mut v, &chars_of("teams="));
        push_all(&mut v, &list);
        push_all(&mut v, &chars_of("\n"));
    }
    string_of(&v)
}

/* ---------------- saved settings read back ---------------- */

proof fn lemma_split_cons(a: Seq<char>, b: Seq<char>, c: char)
    requires
        forall|k: int| 0 <= k < a.len() ==> a[k] != c,
    ensures
        split_on(a + seq![c] + b, seq![c]) == seq![a] + split_on(b, seq![c]),
{
    let s = a + seq![c] + b;
    let p = seq![c];
    lemma_find_from(s, p, 0);
    assert(s.subrange(a.len() as int, a.len() as int + 1) =~= p);
    assert(match_at(s, p, a.len() as int));
    assert forall|k: int| 0 <= k < a.len() implies !#[trigger] match_at(s, p, k) by {
        if match_at(s, p, k) {
            assert(s.subrange(k, k + 1)[0] == s[k]);
            assert(s[k] == a[k]);
        }
    }
    match find_from(s, p, 0) {
        Some(j) => {
            assert(j == a.len());
        },
        None => {
            assert(false);
        },
    }
    assert(s.take(a.len() as int) =~= a);
    assert(s.skip(a.len() as int + 1) =~= b);
}

proof fn lemma_split_single(a: Seq<char>, c: char)
    requires
        forall|k: int| 0 <= k < a.len() ==> a[k] != c,
    ensures
        split_on(a, seq![c]) == seq![a],
{
    let p = seq![c];
    lemma_find_from(a, p, 0);
    if find_from(a, p, 0) is Some {
        let j = find_from(a, p, 0)->0;
        assert(a.subrange(j, j + 1)[0] == a[j]);
        assert(false);
    }
}

/// Splitting where the last piece has no separator.
proof fn lemma_split_snoc(x: Seq<char>, d: Seq<char>, c: char)
    requires
        forall|k: int| 0 <= k < d.len() ==> d[k] != c,
    ensures
        split_on(x + seq![c] + d, seq![c]) == split_on(x, seq![c]).push(d),
    decreases x.len(),
{
    let p = seq![c];
    lemma_find_from(x, p, 0);
    match find_from(x, p, 0) {
        None => {
            assert forall|k: int| 0 <= k < x.len() implies x[k] != c by {
                if x[k] == c {
                    assert(x.subrange(k, k + 1) =~= p);
                    assert(match_at(x, p, k));
                }
            }
            lemma_split_cons(x, d, c);
            lemma_split_single(d, c);
            lemma_split_single(x, c);
            assert(seq![x] + seq![d] =~= seq![x].push(d));
        },
        Some(i) => {
            let a = x.take(i);
            let rest = x.skip(i + 1);
            assert forall|k: int| 0 <= k < a.len() implies a[k] != c by {
                if a[k] == c {
                    assert(x.subrange(k, k + 1) =~= p);
                    assert(match_at(x, p, k));
                }
            }
            assert(x.subrange(i, i + 1)[0] == x[i]);
            assert(x =~= a + seq![c] + rest);
            lemma_split_cons(a, rest, c);
            assert(x + seq![c] + d =~= a + seq![c] + (rest + seq![c] + d));
            lemma_split_cons(a, rest + seq![c] + d, c);
            lemma_split_snoc(rest, d, c);
            assert(seq![a] + split_on(rest, p).push(d) =~= (seq![a] + split_on(rest, p)).push(d));
        },
    }
}

proof fn lemma_ids_text_chars(ids: Seq<u32>)
    requires
        ids.len() > 0,
    ensures
        ids_text(ids).len() > 0,
        forall|k: int| 0 <= k < ids_text(ids).len() ==> is_digit(#[trigger] ids_text(ids)[k]) || ids_text(ids)[k] == ',',
        is_digit(ids_text(ids)[0]),
        is_digit(ids_text(ids).last()),
    decreases ids.len(),
{
    reveal_strlit(",");
    lemma_decimal_digits(ids.last() as nat);
    lemma_decimal_digits(ids[0] as nat);
    if ids.len() > 1 {
        lemma_ids_text_chars(ids.drop_last());
        let x = ids_text(ids.drop_last());
        let d = decimal(ids.last() as nat);
        assert(ids_text(ids) == x + ","@ + d);
        assert forall|k: int| 0 <= k < ids_text(ids).len() implies is_digit(#[trigger] ids_text(ids)[k])
            || ids_text(ids)[k] == ',' by {
            if k < x.len() {
                assert(ids_text(ids)[k] == x[k]);
            } else if k > x.len() {
                assert(ids_text(ids)[k] == d[k - x.len() - 1]);
            }
        }
        assert(ids_text(ids)[0] == x[0]);
        assert(ids_text(ids).last() == d.last());
    }
}

proof fn lemma_ids_read_back(ids: Seq<u32>)
    requires
        ids.len() > 0,
    ensures
        ids_of_pieces(split_on(ids_text(ids), ","@)) == ids,
    decreases ids.len(),
{
    reveal_strlit(",");
    assert(","@ =~= seq![',']);
    let d = decimal(ids.last() as nat);
    lemma_decimal_digits(ids.last() as nat);
    assert forall|k: int| 0 <= k < d.len() implies d[k] != ',' by {
        assert(is_digit(d[k]));
    }
    crate::store::stored_season_reads_back(ids.last());
    if ids.len() == 1 {
        lemma_split_single(d, ',');
        assert(ids_text(ids) == d);
        assert(split_on(ids_text(ids), ","@) == seq![d]);
        assert(seq![d].drop_last() =~= Seq::<Seq<char>>::empty());
        assert(ids_of_pieces(Seq::<Seq<char>>::empty()) == Seq::<u32>::empty());
        assert(ids_of_pieces(seq![d]) == seq![ids.last()]);
        assert(ids =~= seq![ids.last()]);
    } else {
        let x = ids_text(ids.drop_last());
        lemma_ids_read_back(ids.drop_last());
        assert(ids_text(ids) =~= x + seq![','] + d);
        lemma_split_snoc(x, d, ',');
        let ps = split_on(x, seq![',']);
        assert(split_on(x, ","@) == ps);
        assert(split_on(ids_text(ids), ","@) == ps.push(d));
        assert(ps.push(d).drop_last() =~= ps);
        assert(ps.push(d).last() == d);
        assert(ids_of_pieces(ps.push(d)) == ids_of_pieces(ps).push(ids.last()));
        assert(ids =~= ids.drop_last().push(ids.last()));
    }
}

/// `key=val` read as one line of settings.
proof fn lemma_key_line(key: Seq<char>, val: Seq<char>)
    requires
        key.len() > 0,
        key[0] != '#',
        !char_is_ws(key[0]),
        !char_is_ws(key.last()),
        forall|k: int| 0 <= k < key.len() ==> key[k] != '=',
        val.len() == 0 || (!char_is_ws(val[0]) && !char_is_ws(val.last())),
    ensures
        ({
            let line = key + "="@ + val;
            &&& trim(line) == line
            &&& line.len() > 0
            &&& line[0] == key[0]
            &&& find_char_from(line, '=', 0) == Some(key.len() as int)
            &&& trim(line.take(key.len() as int)) == key
            &&& trim(line.skip(key.len() as int + 1)) == val
        }),
{
    reveal_strlit("=");
    let line = key + "="@ + val;
    assert(line[key.len() as int] == '=');
    lemma_find_char_from(line, '=', 0);
    assert forall|k: int| 0 <= k < key.len() implies #[trigger] line[k] != '=' by {
        assert(line[k] == key[k]);
    }
    match find_char_from(line, '=', 0) {
        Some(j) => {
            assert(j == key.len());
        },
        None => {
            assert(false);
        },
    }
    assert(line[0] == key[0]);
    if val.len() > 0 {
        assert(line.last() == val.last());
    } else {
        assert(line.last() == '=');
    }
    lemma_trim_plain(line);
    assert(line.take(key.len() as int) =~= key);
    lemma_trim_plain(key);
    assert(line.skip(key.len() as int + 1) =~= val);
    lemma_trim_plain(val);
}

proof fn lemma_bit_text(b: bool)
    ensures
        bit_text(b).len() == 1,
        is_digit(bit_text(b)[0]),
        flag_value(bit_text(b)) == b,
{
    reveal_strlit("1");
    reveal_strlit("0");
    reveal_strlit("true");
    if !b {
        assert(lower_seq("0"@).len() == 1);
        assert(lower_seq("0"@) != "true"@);
        assert("0"@ != "1"@) by {
            assert("0"@[0] != "1"@[0]);
        }
    }
}

proof fn lemma_apply_flag_lines(cfg: ConfigView, a: bool, b: bool, d: bool)
    ensures
        apply_line(cfg, "include_headers"@ + "="@ + bit_text(a)) == (a, cfg.1, cfg.2, cfg.3, cfg.4),
        apply_line(cfg, "keep_hash"@ + "="@ + bit_text(b)) == (cfg.0, b, cfg.2, cfg.3, cfg.4),
        apply_line(cfg, "per_team"@ + "="@ + bit_text(d)) == (cfg.0, cfg.1, d, cfg.3, cfg.4),
{
    reveal_strlit("include_headers");
    reveal_strlit("keep_hash");
    reveal_strlit("per_team");
    lemma_bit_text(a);
    lemma_bit_text(b);
    lemma_bit_text(d);
    lemma_key_line("include_headers"@, bit_text(a));
    lemma_key_line("keep_hash"@, bit_text(b));
    lemma_key_line("per_team"@, bit_text(d));
}

proof fn lemma_apply_path_line(cfg: ConfigView, path: Seq<char>)
    requires
        path.len() == 0 || (!char_is_ws(path[0]) && !char_is_ws(path.last())),
    ensures
        apply_line(cfg, "out_path"@ + "="@ + path) == (cfg.0, cfg.1, cfg.2, path, cfg.4),
{
    reveal_strlit("out_path");
    reveal_strlit("include_headers");
    reveal_strlit("keep_hash");
    reveal_strlit("per_team");
    lemma_key_line("out_path"@, path);
}

proof fn lemma_apply_teams_line(cfg: ConfigView, ids: Seq<u32>)
    requires
        ids.len() > 0,
    ensures
        apply_line(cfg, "teams"@ + "="@ + ids_text(ids)) == (cfg.0, cfg.1, cfg.2, cfg.3, ids),
{
    reveal_strlit("teams");
    reveal_strlit("out_path");
    reveal_strlit("include_headers");
    reveal_strlit("keep_hash");
    reveal_strlit("per_team");
    lemma_ids_text_chars(ids);
    lemma_key_line("teams"@, ids_text(ids));
    lemma_ids_read_back(ids);
}

proof fn lemma_apply_empty_line(cfg: ConfigView)
    ensures
        apply_line(cfg, Seq::empty()) == cfg,
{
    lemma_trim_plain(Seq::<char>::empty());
}

proof fn lemma_no_newline(key: Seq<char>, val: Seq<char>)
    requires
        forall|k: int| 0 <= k < key.len() ==> key[k] != '\n',
        forall|k: int| 0 <= k < val.len() ==> val[k] != '\n',
    ensures
        forall|k: int| 0 <= k < (key + "="@ + val).len() ==> #[trigger] (key + "="@ + val)[k] != '\n',
{
    reveal_strlit("=");
    let l = key + "="@ + val;
    assert forall|k: int| 0 <= k < l.len() implies #[trigger] l[k] != '\n' by {
        if k < key.len() {
            assert(l[k] == key[k]);
        } else if k > key.len() {
            assert(l[k] == val[k - key.len() - 1]);
        }
    }
}

proof fn lemma_fold_lines(ls: Seq<Seq<char>>, c1: ConfigView)
    requires
        ls.len() > 0,
        c1 == apply_line(default_config(), ls[0]),
    ensures
        config_of_lines(seq![ls[0]]) == c1,
{
    assert(seq![ls[0]].drop_last() =~= Seq::<Seq<char>>::empty());
    assert(config_of_lines(Seq::<Seq<char>>::empty()) == default_config());
    assert(seq![ls[0]].last() == ls[0]);
}

/// The lines of a saved text.
pub open spec fn saved_lines(c: ConfigView) -> Seq<Seq<char>> {
    let head = seq![
        "include_headers"@ + "="@ + bit_text(c.0),
        "keep_hash"@ + "="@ + bit_text(c.1),
        "per_team"@ + "="@ + bit_text(c.2),
        "out_path"@ + "="@ + c.3,
    ];
    if c.4.len() > 0 {
        head + seq!["teams"@ + "="@ + ids_text(c.4), Seq::empty()]
    } else {
        head + seq![Seq::<char>::empty()]
    }
}

#[verifier::rlimit(80)]
proof fn lemma_saved_lines(c: ConfigView)
    requires
        forall|k: int| 0 <= k < c.3.len() ==> c.3[k] != '\n',
    ensures
        split_on(config_text_spec(c), "\n"@) == saved_lines(c),
{
    reveal_strlit("include_headers");
    reveal_strlit("keep_hash");
    reveal_strlit("per_team");
    reveal_strlit("out_path");
    reveal_strlit("teams");
    reveal_strlit("\n");
    reveal_strlit("include_headers=");
    reveal_strlit("keep_hash=");
    reveal_strlit("per_team=");
    reveal_strlit("out_path=");
    reveal_strlit("teams=");
    reveal_strlit("=");
    let nl = seq!['\n'];
    assert("\n"@ =~= nl);
    lemma_bit_text(c.0);
    lemma_bit_text(c.1);
    lemma_bit_text(c.2);
    let l1 = "include_headers"@ + "="@ + bit_text(c.0);
    let l2 = "keep_hash"@ + "="@ + bit_text(c.1);
    let l3 = "per_team"@ + "="@ + bit_text(c.2);
    let l4 = "out_path"@ + "="@ + c.3;
    lemma_no_newline("include_headers"@, bit_text(c.0));
    lemma_no_newline("keep_hash"@, bit_text(c.1));
    lemma_no_newline("per_team"@, bit_text(c.2));
    lemma_no_newline("out_path"@, c.3);
    let e = Seq::<char>::empty();
    let tail = if c.4.len() > 0 { "teams"@ + "="@ + ids_text(c.4) + nl } else { e };
    let text = config_text_spec(c);
    assert(text =~= l1 + nl + (l2 + nl + (l3 + nl + (l4 + nl + tail))));
    lemma_split_cons(l1, l2 + nl + (l3 + nl + (l4 + nl + tail)), '\n');
    lemma_split_cons(l2, l3 + nl + (l4 + nl + tail), '\n');
    lemma_split_cons(l3, l4 + nl + tail, '\n');
    lemma_split_cons(l4, tail, '\n');
    lemma_split_single(e, '\n');
    if c.4.len() > 0 {
        lemma_ids_text_chars(c.4);
        let ids = ids_text(c.4);
        let l5 = "teams"@ + "="@ + ids;
        assert forall|k: int| 0 <= k < ids.len() implies ids[k] != '\n' by {
            assert(is_digit(ids[k]) || ids[k] == ',');
        }
        lemma_no_newline("teams"@, ids);
        assert(tail =~= l5 + nl + e);
        lemma_split_cons(l5, e, '\n');
        assert(split_on(text, "\n"@) =~= saved_lines(c));
    } else {
        assert(split_on(text, "\n"@) =~= saved_lines(c));
    }
}

/// Saved settings read back as they were, provided the path holds no line
/// feed and neither starts nor ends with whitespace.
pub proof fn saved_config_reads_back(c: ConfigView)
    requires
        forall|k: int| 0 <= k < c.3.len() ==> c.3[k] != '\n',
        c.3.len() == 0 || (!char_is_ws(c.3[0]) && !char_is_ws(c.3.last())),
    ensures
        config_of_text(config_text_spec(c)) == c,
{
    lemma_saved_lines(c);
    let lines = saved_lines(c);
    let l1 = lines[0];
    let l2 = lines[1];
    let l3 = lines[2];
    let l4 = lines[3];
    let d0 = default_config();
    lemma_apply_flag_lines(d0, c.0, c.1, c.2);
    let c1 = apply_line(d0, l1);
    lemma_apply_flag_lines(c1, c.0, c.1, c.2);
    let c2 = apply_line(c1, l2);
    lemma_apply_flag_lines(c2, c.0, c.1, c.2);
    let c3 = apply_line(c2, l3);
    lemma_apply_path_line(c3, c.3);
    let c4 = apply_line(c3, l4);
    assert(c4 == (c.0, c.1, c.2, c.3, Seq::<u32>::empty()));
    lemma_apply_empty_line(c4);
    lemma_fold_lines(seq![l1, l2], c1);
    assert(seq![l1, l2].drop_last() =~= seq![l1]);
    assert(seq![l1, l2, l3].drop_last() =~= seq![l1, l2]);
    assert(seq![l1, l2, l3, l4].drop_last() =~= seq![l1, l2, l3]);
    assert(config_of_lines(seq![l1, l2]) == c2);
    assert(config_of_lines(seq![l1, l2, l3]) == c3);
    assert(config_of_lines(seq![l1, l2, l3, l4]) == c4);
    if c.4.len() > 0 {
        let l5 = lines[4];
        lemma_apply_teams_line(c4, c.4);
        let c5 = apply_line(c4, l5);
        assert(c5 == c);
        lemma_apply_empty_line(c5);
        assert(seq![l1, l2, l3, l4, l5].drop_last() =~= seq![l1, l2, l3, l4]);
        assert(lines.drop_last() =~= seq![l1, l2, l3, l4, l5]);
        assert(config_of_lines(seq![l1, l2, l3, l4, l5]) == c5);
    } else {
        assert(c4 =~= c);
        assert(lines.drop_last() =~= seq![l1, l2, l3, l4]);
    }
}

} // verus!
