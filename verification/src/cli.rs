//! Command line: arguments, team id lists, and the export decisions of a
//! command line run.

use vstd::prelude::*;
use crate::text::{
    all_digits, chars_of, digits_value, find_char, find_char_from, is_digit, is_digit_char,
    lemma_find_char_from, opt_texts, parse_u32_spec, push_all, split_on, split_vec, string_of, sub_vec, trim,
    trim_vec,
};
use crate::store::DataSet;
use crate::config::options::{
    default_dir_spec, parse_format_spec, parse_page_spec, path_set, selector_added, selector_extended,
    selector_normalized, sorted_ids, strictly_increasing, AppOptions, ExportFormat, ExportOptions, ExportType,
    PageKind,
};
use crate::base::paths::{path_eq, path_ext_of, path_norm_of, path_parent_of, path_stem_of};
use crate::config::consts::DEFAULT_FILE;
use crate::error::opt_view;

verus! {

/* ---------------- numbers ---------------- */

pub open spec fn msg_empty() -> Seq<char> {
    "cannot parse integer from empty string"@
}

pub open spec fn msg_invalid() -> Seq<char> {
    "invalid digit found in string"@
}

pub open spec fn msg_overflow() -> Seq<char> {
    "number too large to fit in target type"@
}

/// Why `d[k..]` does not read as a `u32`: the first character that is not
/// a digit, or the first digit that takes the value past `u32::MAX`.
pub open spec fn first_fault(d: Seq<char>, k: int) -> Seq<char>
    decreases d.len() - k,
{
    if k < 0 || k >= d.len() {
        msg_invalid()
    } else if !is_digit(d[k]) {
        msg_invalid()
    } else if digits_value(d.take(k + 1)) > u32::MAX {
        msg_overflow()
    } else {
        first_fault(d, k + 1)
    }
}

/// The message of `str::parse::<u32>`'s error on `s`.
pub open spec fn u32_error(s: Seq<char>) -> Seq<char> {
    if s.len() == 0 {
        msg_empty()
    } else {
        let d = if s[0] == '+' { s.drop_first() } else { s };
        if d.len() == 0 { msg_invalid() } else { first_fault(d, 0) }
    }
}

/// `str::parse::<u32>` with its error message.
pub open spec fn parse_u32_res(s: Seq<char>) -> Result<u32, Seq<char>> {
    match parse_u32_spec(s) {
        Some(v) => Ok(v),
        None => Err(u32_error(s)),
    }
}

proof fn lemma_digits_value_grows(s: Seq<char>, k: int)
    requires
        0 <= k <= s.len(),
    ensures
        digits_value(s.take(k)) <= digits_value(s),
    decreases s.len() - k,
{
    if k < s.len() {
        lemma_digits_value_grows(s, k + 1);
        assert(s.take(k + 1).drop_last() =~= s.take(k));
    } else {
        assert(s.take(k) =~= s);
    }
}

/// A `u32` read from `s`, or the message of why it does not read.
pub fn parse_u32_or_message(s: &[char]) -> (r: Result<u32, String>)
    ensures
        match r {
            Ok(v) => parse_u32_res(s@) == Ok::<u32, Seq<char>>(v),
            Err(m) => parse_u32_res(s@) == Err::<u32, Seq<char>>(m@),
        },
{
    if s.len() == 0 {
        return Err("cannot parse integer from empty string".to_string());
    }
    let start: usize = if s[0] == '+' { 1 } else { 0 };
    let ghost d = s@.skip(start as int);
    assert(d =~= (if s@[0] == '+' { s@.drop_first() } else { s@ }));
    if start >= s.len() {
        return Err("invalid digit found in string".to_string());
    }
    let mut acc: u64 = 0;
    let mut i = start;
    while i < s.len()
        invariant
            start <= i <= s@.len(),
            0 < s@.len(),
            d == s@.skip(start as int),
            d =~= (if s@[0] == '+' { s@.drop_first() } else { s@ }),
            d.len() > 0,
            forall|k: int| start <= k < i ==> is_digit(#[trigger] s@[k]),
            acc == digits_value(d.take(i - start)),
            acc <= u32::MAX,
            first_fault(d, 0) == first_fault(d, i - start),
        decreases s@.len() - i,
    {
        let c = s[i];
        assert(d[i - start] == c);
        if !is_digit_char(c) {
            assert(!all_digits(d));
            return Err("invalid digit found in string".to_string());
        }
        assert(d.take(i - start + 1).drop_last() =~= d.take(i - start));
        acc = acc * 10 + ((c as u32) - ('0' as u32)) as u64;
        if acc > 4294967295 {
            proof {
                lemma_digits_value_grows(d, i - start + 1);
            }
            return Err("number too large to fit in target type".to_string());
        }
        i = i + 1;
    }
    assert(d.take(i - start) =~= d);
    assert(all_digits(d));
    Ok(acc as u32)
}

/* ---------------- id lists ---------------- */

/// Ids `a..=b` below 32, increasing.
pub open spec fn range_ids(a: u32, b: u32) -> Seq<u32> {
    let hi: int = if b < 31 { b as int } else { 31 };
    if (a as int) <= hi { Seq::new((hi - a + 1) as nat, |i: int| (a + i) as u32) } else { Seq::empty() }
}

/// Ids of one part of a list: `a-b` (a range) or a single id.
pub open spec fn ids_of_part(p: Seq<char>) -> Result<Seq<u32>, Seq<char>> {
    match find_char_from(p, '-', 0) {
        Some(dash) => match parse_u32_res(trim(p.take(dash))) {
            Err(e) => Err(e),
            Ok(a) => match parse_u32_res(trim(p.skip(dash + 1))) {
                Err(e) => Err(e),
                Ok(b) => if a > b { Err("Invalid range: "@ + p) } else { Ok(range_ids(a, b)) },
            },
        },
        None => match parse_u32_res(p) {
            Err(e) => Err(e),
            Ok(v) => Ok(if v < 32 { seq![v] } else { Seq::empty() }),
        },
    }
}

/// Ids of the comma-separated parts from `k` on (blank parts skipped); the
/// first part that does not read gives its error.
pub open spec fn ids_of_parts(parts: Seq<Seq<char>>, k: int) -> Result<Seq<u32>, Seq<char>>
    decreases parts.len() - k,
{
    if k < 0 || k >= parts.len() {
        Ok(Seq::empty())
    } else {
        let p = trim(parts[k]);
        if p.len() == 0 {
            ids_of_parts(parts, k + 1)
        } else {
            match ids_of_part(p) {
                Err(e) => Err(e),
                Ok(vs) => match ids_of_parts(parts, k + 1) {
                    Err(e) => Err(e),
                    Ok(rest) => Ok(vs + rest),
                },
            }
        }
    }
}

/// Ids named by a list such as `1, 3-5, 7`.
pub open spec fn ids_list_spec(s: Seq<char>) -> Result<Seq<u32>, Seq<char>> {
    ids_of_parts(split_on(s, seq![',']), 0)
}

proof fn lemma_parts_below_32(parts: Seq<Seq<char>>, k: int)
    requires
        0 <= k,
    ensures
        ids_of_parts(parts, k) matches Ok(ids) ==> forall|i: int| 0 <= i < ids.len() ==> #[trigger] ids[i] < 32,
    decreases parts.len() - k,
{
    if k < parts.len() {
        lemma_parts_below_32(parts, k + 1);
        let p = trim(parts[k]);
        if p.len() > 0 {
            if let Ok(vs) = ids_of_part(p) {
                if let Ok(rest) = ids_of_parts(parts, k + 1) {
                    assert forall|i: int| 0 <= i < vs.len() implies #[trigger] vs[i] < 32 by {}
                    assert forall|i: int| 0 <= i < (vs + rest).len() implies #[trigger] (vs + rest)[i] < 32 by {
                        if i >= vs.len() {
                            assert((vs + rest)[i] == rest[i - vs.len()]);
                        }
                    }
                }
            }
        }
    }
}

/// Every id that a list reads as is a team id, below 32: larger ids, and
/// the larger part of a range, are left out.
pub proof fn listed_ids_are_team_ids(s: Seq<char>)
    ensures
        ids_list_spec(s) matches Ok(ids) ==> forall|i: int| 0 <= i < ids.len() ==> #[trigger] ids[i] < 32,
{
    lemma_parts_below_32(split_on(s, seq![',']), 0);
}

fn ids_of_part_vec(p: &[char]) -> (r: Result<Vec<u32>, String>)
    ensures
        match r {
            Ok(v) => ids_of_part(p@) == Ok::<Seq<u32>, Seq<char>>(v@),
            Err(m) => ids_of_part(p@) == Err::<Seq<u32>, Seq<char>>(m@),
        },
{
    proof {
        lemma_find_char_from(p@, '-', 0);
    }
    match find_char(p, '-', 0) {
        Some(dash) => {
            let left = trim_vec(&sub_vec(p, 0, dash));
            assert(p@.subrange(0, dash as int) =~= p@.take(dash as int));
            let a = match parse_u32_or_message(&left) {
                Err(e) => return Err(e),
                Ok(a) => a,
            };
            let pl = p.len();
            let right = trim_vec(&sub_vec(p, dash + 1, pl));
            assert(p@.subrange(dash + 1, p@.len() as int) =~= p@.skip(dash + 1));
            let b = match parse_u32_or_message(&right) {
                Err(e) => return Err(e),
                Ok(b) => b,
            };
            if a > b {
                let mut m = chars_of("Invalid range: ");
                push_all(&mut m, p);
                return Err(string_of(&m));
            }
            let hi: u32 = if b < 31 { b } else { 31 };
            let mut out: Vec<u32> = Vec::new();
            if a > hi {
                assert(out@ =~= range_ids(a, b));
                return Ok(out);
            }
            let mut v = a;
            while v <= hi
                invariant
                    a <= v,
                    v <= hi + 1,
                    hi <= 31,
                    hi == (if b < 31 { b } else { 31 }),
                    out@.len() == v - a,
                    forall|i: int| 0 <= i < out@.len() ==> #[trigger] out@[i] == a + i,
                decreases hi + 1 - v,
            {
                out.push(v);
                v = v + 1;
            }
            assert(out@ =~= range_ids(a, b));
            Ok(out)
        },
        None => {
            let v = match parse_u32_or_message(p) {
                Err(e) => return Err(e),
                Ok(v) => v,
            };
            let mut out: Vec<u32> = Vec::new();
            if v < 32 {
                out.push(v);
            }
            assert(out@ =~= (if v < 32 { seq![v] } else { Seq::<u32>::empty() }));
            Ok(out)
        },
    }
}

/// Team ids of a list such as `1, 3-5, 7`: ranges expand, ids from 32 up
/// are dropped, the result is sorted without repeats; the first part that
/// does not read (or a range whose start exceeds its end) is the error.
pub fn parse_ids_list(s: &str) -> (r: Result<Vec<u32>, String>)
    ensures
        match ids_list_spec(s@) {
            Ok(ids) => r matches Ok(v) && strictly_increasing(v@) && forall|x: u32| v@.contains(x) <==> ids.contains(x),
            Err(m) => r matches Err(e) && e@ == m,
        },
{
    let comma: Vec<char> = vec![','];
    assert(comma@ =~= seq![',']);
    let parts = split_vec(&chars_of(s), &comma);
    let ghost ps = parts.deep_view();
    let mut all: Vec<u32> = Vec::new();
    let mut k: usize = 0;
    assert(ids_of_parts(ps, 0) == (match ids_of_parts(ps, 0) {
        Ok(rest) => Ok(all@ + rest),
        Err(e) => Err::<Seq<u32>, Seq<char>>(e),
    })) by {
        if let Ok(rest) = ids_of_parts(ps, 0) {
            assert(all@ + rest =~= rest);
        }
    }
    while k < parts.len()
        invariant
            k <= parts@.len(),
            ps == parts.deep_view(),
            ps == split_on(s@, seq![',']),
            ids_of_parts(ps, 0) == (match ids_of_parts(ps, k as int) {
                Ok(rest) => Ok(all@ + rest),
                Err(e) => Err::<Seq<u32>, Seq<char>>(e),
            }),
        decreases parts@.len() - k,
    {
        assert(ps[k as int] == parts@[k as int]@);
        let p = trim_vec(parts[k].as_slice());
        if p.len() > 0 {
            match ids_of_part_vec(&p) {
                Err(e) => {
                    assert(ids_of_parts(ps, k as int) == Err::<Seq<u32>, Seq<char>>(e@));
                    return Err(e);
                },
                Ok(vs) => {
                    let ghost before = all@;
                    let mut vs2 = vs;
                    all.append(&mut vs2);
                    proof {
                        if let Ok(rest) = ids_of_parts(ps, k + 1) {
                            assert(before + (vs@ + rest) =~= all@ + rest);
                        }
                    }
                },
            }
        }
        k = k + 1;
    }
    assert(all@ + Seq::<u32>::empty() =~= all@);
    Ok(sorted_ids(&all))
}

/* ---------------- arguments ---------------- */

/// One command line argument with its value.
#[derive(Clone, Debug, PartialEq, Eq)]
pub enum CliArg {
    Help,
    ListTeams,
    Page(PageKind),
    Team(u32),
    Ids(Vec<u32>),
    Out(String),
    Format(ExportFormat),
    SkipOptional,
    DropHeaders,
    PerTeam,
}

/// What kind of argument `a` is.
#[derive(Clone, Copy, Debug, PartialEq, Eq, Structural)]
pub enum Flag {
    Help,
    ListTeams,
    SkipOptional,
    DropHeaders,
    PerTeam,
    Page,
    Team,
    Ids,
    Out,
    Format,
    Unknown,
}

/// The kind of an argument by its spelling.
pub open spec fn flag_of(a: Seq<char>) -> Flag {
    if a == "-h"@ || a == "--help"@ {
        Flag::Help
    } else if a == "-l"@ || a == "--list-teams"@ {
        Flag::ListTeams
    } else if a == "-p"@ || a == "--page"@ {
        Flag::Page
    } else if a == "-t"@ || a == "--team"@ {
        Flag::Team
    } else if a == "-i"@ || a == "--ids"@ {
        Flag::Ids
    } else if a == "-o"@ || a == "--out"@ {
        Flag::Out
    } else if a == "-f"@ || a == "--format"@ {
        Flag::Format
    } else if a == "-s"@ || a == "--skip-optional"@ {
        Flag::SkipOptional
    } else if a == "-x"@ || a == "--drop-headers"@ {
        Flag::DropHeaders
    } else if a == "-m"@ || a == "--multi"@ || a == "--per-team"@ {
        Flag::PerTeam
    } else {
        Flag::Unknown
    }
}

pub open spec fn takes_value(f: Flag) -> bool {
    f == Flag::Page || f == Flag::Team || f == Flag::Ids || f == Flag::Out || f == Flag::Format
}

/// How the arguments from `k` on read: their kinds; reading stops at
/// `-h`/`--help` and `-l`/`--list-teams`; a missing or bad value or an
/// unknown argument is the error.
pub open spec fn args_kinds(args: Seq<Seq<char>>, k: int) -> Result<Seq<Flag>, Seq<char>>
    decreases args.len() - k,
{
    if k < 0 || k >= args.len() {
        Ok(Seq::empty())
    } else {
        let f = flag_of(args[k]);
        if f == Flag::Help || f == Flag::ListTeams {
            Ok(seq![f])
        } else if f == Flag::Unknown {
            Err("Unknown arg: "@ + args[k])
        } else if !takes_value(f) {
            match args_kinds(args, k + 1) {
                Ok(r) => Ok(seq![f] + r),
                Err(e) => Err(e),
            }
        } else if k + 1 >= args.len() {
            Err(missing_message(f))
        } else {
            match value_error(f, args[k + 1]) {
                Some(e) => Err(e),
                None => match args_kinds(args, k + 2) {
                    Ok(r) => Ok(seq![f] + r),
                    Err(e) => Err(e),
                },
            }
        }
    }
}

/// Message for a flag given without its value.
pub open spec fn missing_message(f: Flag) -> Seq<char> {
    match f {
        Flag::Page => "Missing value for --page"@,
        Flag::Team => "Missing team id"@,
        Flag::Ids => "Missing value for --ids"@,
        Flag::Out => "Missing output path"@,
        _ => "Missing value for --format"@,
    }
}

/// What is wrong with the value `v` of a flag, if anything.
pub open spec fn value_error(f: Flag, v: Seq<char>) -> Option<Seq<char>> {
    match f {
        Flag::Page => match parse_page_spec(v) {
            Ok(_) => None,
            Err(e) => Some(e),
        },
        Flag::Team => match parse_u32_res(v) {
            Err(e) => Some(e),
            Ok(id) => if id >= 32 { Some("Team ID out of range (0-31)"@) } else { None },
        },
        Flag::Ids => match ids_list_spec(v) {
            Err(e) => Some(e),
            Ok(_) => None,
        },
        Flag::Format => match parse_format_spec(v) {
            Ok(_) => None,
            Err(e) => Some(e),
        },
        _ => None,
    }
}

/// What a command line run is to do.
#[derive(Clone, Copy, Debug, PartialEq, Eq, Structural)]
pub enum CliAction {
    /// Print the help text and stop.
    Help,
    /// Print the team list and stop.
    ListTeams,
    /// Scrape and export; `skip_optional` drops optional columns.
    Run { skip_optional: bool },
}

fn eq_lit(a: &[char], x: &str) -> (b: bool)
    ensures
        b == (a@ == x@),
{
    crate::text::seq_eq(a, &chars_of(x))
}

/// The kind of an argument.
pub fn flag_of_arg(a: &[char]) -> (f: Flag)
    ensures
        f == flag_of(a@),
{
    if eq_lit(a, "-h") || eq_lit(a, "--help") {
        Flag::Help
    } else if eq_lit(a, "-l") || eq_lit(a, "--list-teams") {
        Flag::ListTeams
    } else if eq_lit(a, "-p") || eq_lit(a, "--page") {
        Flag::Page
    } else if eq_lit(a, "-t") || eq_lit(a, "--team") {
        Flag::Team
    } else if eq_lit(a, "-i") || eq_lit(a, "--ids") {
        Flag::Ids
    } else if eq_lit(a, "-o") || eq_lit(a, "--out") {
        Flag::Out
    } else if eq_lit(a, "-f") || eq_lit(a, "--format") {
        Flag::Format
    } else if eq_lit(a, "-s") || eq_lit(a, "--skip-optional") {
        Flag::SkipOptional
    } else if eq_lit(a, "-x") || eq_lit(a, "--drop-headers") {
        Flag::DropHeaders
    } else if eq_lit(a, "-m") || eq_lit(a, "--multi") || eq_lit(a, "--per-team") {
        Flag::PerTeam
    } else {
        Flag::Unknown
    }
}

/// The action a successful reading asks for.
pub open spec fn action_of(kinds: Seq<Flag>) -> CliAction {
    if kinds.len() > 0 && kinds.last() == Flag::Help {
        CliAction::Help
    } else if kinds.len() > 0 && kinds.last() == Flag::ListTeams {
        CliAction::ListTeams
    } else {
        CliAction::Run { skip_optional: kinds.contains(Flag::SkipOptional) }
    }
}

/// What one flag with its value `v` does to the options `o`, giving `n`.
pub open spec fn flag_applied(o: AppOptions, f: Flag, v: Seq<char>, n: AppOptions) -> bool {
    match f {
        Flag::Page => n.export == o.export && n.scrape.teams == o.scrape.teams && parse_page_spec(v) == Ok::<
            PageKind,
            Seq<char>,
        >(n.scrape.page),
        Flag::Team => n.export == o.export && n.scrape.page == o.scrape.page && match parse_u32_res(v) {
            Ok(id) => selector_added(o.scrape.teams, id, n.scrape.teams),
            Err(_) => false,
        },
        Flag::Ids => n.export == o.export && n.scrape.page == o.scrape.page && match ids_list_spec(v) {
            Ok(ids) => exists|l: Seq<u32>|
                strictly_increasing(l) && (forall|x: u32| l.contains(x) <==> ids.contains(x)) && #[trigger] selector_extended(
                    o.scrape.teams,
                    l,
                    n.scrape.teams,
                ),
            Err(_) => false,
        },
        Flag::Out => n.scrape == o.scrape && path_set(o.export, v, n.export),
        Flag::Format => {
            &&& n.scrape == o.scrape
            &&& parse_format_spec(v) == Ok::<ExportFormat, Seq<char>>(n.export.format)
            &&& n.export.export_type == o.export.export_type
            &&& n.export.out_path == o.export.out_path
            &&& n.export.include_headers == o.export.include_headers
            &&& n.export.keep_hash == o.export.keep_hash
        },
        Flag::DropHeaders => {
            &&& n.scrape == o.scrape
            &&& !n.export.include_headers
            &&& n.export.format == o.export.format
            &&& n.export.export_type == o.export.export_type
            &&& n.export.out_path == o.export.out_path
            &&& n.export.keep_hash == o.export.keep_hash
        },
        Flag::PerTeam => {
            &&& n.scrape == o.scrape
            &&& n.export.export_type == ExportType::PerTeam
            &&& n.export.format == o.export.format
            &&& n.export.out_path == o.export.out_path
            &&& n.export.include_headers == o.export.include_headers
            &&& n.export.keep_hash == o.export.keep_hash
        },
        _ => n == o,
    }
}

/// The flags (with their values) that reading the arguments from `k` on
/// applies before it stops or meets an error.
pub open spec fn applied_steps(args: Seq<Seq<char>>, k: int) -> Seq<(Flag, Seq<char>)>
    decreases args.len() - k,
{
    if k < 0 || k >= args.len() {
        Seq::empty()
    } else {
        let f = flag_of(args[k]);
        if f == Flag::Help || f == Flag::ListTeams || f == Flag::Unknown {
            Seq::empty()
        } else if !takes_value(f) {
            seq![(f, Seq::<char>::empty())] + applied_steps(args, k + 1)
        } else if k + 1 >= args.len() {
            Seq::empty()
        } else {
            match value_error(f, args[k + 1]) {
                Some(_) => Seq::empty(),
                None => seq![(f, args[k + 1])] + applied_steps(args, k + 2),
            }
        }
    }
}

/// `states` runs through the options as each of `steps` is applied.
pub open spec fn steps_chain(states: Seq<AppOptions>, steps: Seq<(Flag, Seq<char>)>) -> bool {
    &&& states.len() == steps.len() + 1
    &&& forall|i: int| 0 <= i < steps.len() ==> #[trigger] flag_applied(states[i], steps[i].0, steps[i].1, states[i + 1])
}

/// Read the arguments (without the program name) into `options`: each flag
/// applies its value as it is read (`--team`, `--ids` add teams, `--out`
/// sets the path, `--format`, `--page`, `-x` drops the header row, `-m`
/// exports per team); at the end the team list is sorted without repeats.
/// `-h` and `-l` stop reading at once.
pub fn parse_cli(args: &[String], options: &mut AppOptions) -> (r: Result<CliAction, String>)
    ensures
        match args_kinds(args.deep_view(), 0) {
            Err(m) => r matches Err(e) && e@ == m,
            Ok(kinds) => r == Ok::<CliAction, String>(action_of(kinds)),
        },
        exists|states: Seq<AppOptions>|
            #[trigger] steps_chain(states, applied_steps(args.deep_view(), 0)) && states[0] == *old(options) && (if r
                matches Ok(CliAction::Run { .. }) {
                selector_normalized(states.last().scrape.teams, final(options).scrape.teams) && final(options).scrape.page
                    == states.last().scrape.page && final(options).export == states.last().export
            } else {
                *final(options) == states.last()
            }),
{
    let ghost av = args.deep_view();
    let ghost start = *options;
    let ghost mut states: Seq<AppOptions> = seq![*options];
    let ghost mut done: Seq<(Flag, Seq<char>)> = Seq::empty();
    assert(applied_steps(av, 0) == done + applied_steps(av, 0)) by {
        assert(done + applied_steps(av, 0) =~= applied_steps(av, 0));
    }
    let mut skip = false;
    let mut k: usize = 0;
    let mut seen: Vec<Flag> = Vec::new();
    assert(args_kinds(av, 0) == (match args_kinds(av, 0) {
        Ok(r) => Ok(seen@ + r),
        Err(e) => Err::<Seq<Flag>, Seq<char>>(e),
    })) by {
        if let Ok(r) = args_kinds(av, 0) {
            assert(seen@ + r =~= r);
        }
    }
    while k < args.len()
        invariant
            k <= args@.len(),
            av == args.deep_view(),
            args_kinds(av, 0) == (match args_kinds(av, k as int) {
                Ok(r) => Ok(seen@ + r),
                Err(e) => Err::<Seq<Flag>, Seq<char>>(e),
            }),
            forall|j: int| 0 <= j < seen@.len() ==> #[trigger] seen@[j] != Flag::Help && seen@[j] != Flag::ListTeams,
            skip == seen@.contains(Flag::SkipOptional),
            applied_steps(av, 0) == done + applied_steps(av, k as int),
            steps_chain(states, done),
            states[0] == start,
            start == *old(options),
            states.last() == *options,
        decreases args@.len() - k,
    {
        let a = chars_of(args[k].as_str());
        assert(av[k as int] == a@);
        let f = flag_of_arg(&a);
        let ghost before = seen@;
        match f {
            Flag::Help | Flag::ListTeams => {
                seen.push(f);
                proof {
                    if let Ok(r) = args_kinds(av, 0) {
                        assert(before + seq![f] =~= seen@);
                    }
                    assert(applied_steps(av, k as int) =~= Seq::<(Flag, Seq<char>)>::empty());
                    assert(done + Seq::<(Flag, Seq<char>)>::empty() =~= done);
                    assert(steps_chain(states, applied_steps(av, 0)));
                }
                return if f == Flag::Help { Ok(CliAction::Help) } else { Ok(CliAction::ListTeams) };
            },
            Flag::Unknown => {
                proof {
                    assert(applied_steps(av, k as int) =~= Seq::<(Flag, Seq<char>)>::empty());
                    assert(done + Seq::<(Flag, Seq<char>)>::empty() =~= done);
                    assert(steps_chain(states, applied_steps(av, 0)));
                }
                let mut m = chars_of("Unknown arg: ");
                push_all(&mut m, &a);
                return Err(string_of(&m));
            },
            Flag::SkipOptional | Flag::DropHeaders | Flag::PerTeam => {
                let ghost o = *options;
                if f == Flag::SkipOptional {
                    skip = true;
                } else if f == Flag::DropHeaders {
                    options.export.include_headers = false;
                } else {
                    options.export.export_type = ExportType::PerTeam;
                }
                seen.push(f);
                proof {
                    assert forall|x: Flag| #[trigger] seen@.contains(x) <==> (before.contains(x) || x == f) by {
                        if seen@.contains(x) {
                            let j = choose|j: int| 0 <= j < seen@.len() && #[trigger] seen@[j] == x;
                            if j < before.len() {
                                assert(before[j] == x);
                            }
                        }
                        if before.contains(x) {
                            let j = choose|j: int| 0 <= j < before.len() && #[trigger] before[j] == x;
                            assert(seen@[j] == x);
                        }
                        if x == f {
                            assert(seen@[before.len() as int] == x);
                        }
                    }
                    if let Ok(r) = args_kinds(av, k + 1) {
                        assert(before + (seq![f] + r) =~= seen@ + r);
                    }
                    assert(flag_applied(o, f, Seq::empty(), *options));
                    lemma_chain_push(states, done, f, Seq::empty(), *options);
                    assert(done + applied_steps(av, k as int) =~= done.push((f, Seq::<char>::empty())) + applied_steps(
                        av,
                        k + 1,
                    ));
                    states = states.push(*options);
                    done = done.push((f, Seq::<char>::empty()));
                }
                k = k + 1;
            },
            _ => {
                if k + 1 >= args.len() {
                    proof {
                        assert(applied_steps(av, k as int) =~= Seq::<(Flag, Seq<char>)>::empty());
                        assert(done + Seq::<(Flag, Seq<char>)>::empty() =~= done);
                        assert(steps_chain(states, applied_steps(av, 0)));
                    }
                    let msg = match f {
                        Flag::Page => "Missing value for --page",
                        Flag::Team => "Missing team id",
                        Flag::Ids => "Missing value for --ids",
                        Flag::Out => "Missing output path",
                        _ => "Missing value for --format",
                    };
                    return Err(msg.to_string());
                }
                let v = args[k + 1].as_str();
                assert(av[k + 1] == v@);
                let ghost o = *options;
                proof {
                    if value_error(f, av[k + 1]) is Some {
                        assert(applied_steps(av, k as int) =~= Seq::<(Flag, Seq<char>)>::empty());
                        assert(done + Seq::<(Flag, Seq<char>)>::empty() =~= done);
                    }
                }
                match f {
                    Flag::Page => {
                        match PageKind::parse(v) {
                            Ok(page) => {
                                options.scrape.page = page;
                            },
                            Err(e) => {
                                proof {
                                    assert(value_error(f, av[k + 1]) is Some);
                                    assert(applied_steps(av, k as int) =~= Seq::<(Flag, Seq<char>)>::empty());
                                    assert(done + Seq::<(Flag, Seq<char>)>::empty() =~= done);
                                    assert(steps_chain(states, applied_steps(av, 0)));
                                }
                                return Err(e);
                            },
                        }
                    },
                    Flag::Team => {
                        match parse_u32_or_message(&chars_of(v)) {
                            Err(e) => {
                                proof {
                                    assert(value_error(f, av[k + 1]) is Some);
                                    assert(applied_steps(av, k as int) =~= Seq::<(Flag, Seq<char>)>::empty());
                                    assert(done + Seq::<(Flag, Seq<char>)>::empty() =~= done);
                                    assert(steps_chain(states, applied_steps(av, 0)));
                                }
                                return Err(e);
                            },
                            Ok(id) => {
                                if id >= 32 {
                                    proof {
                                        assert(value_error(f, av[k + 1]) is Some);
                                        assert(applied_steps(av, k as int) =~= Seq::<(Flag, Seq<char>)>::empty());
                                        assert(done + Seq::<(Flag, Seq<char>)>::empty() =~= done);
                                        assert(steps_chain(states, applied_steps(av, 0)));
                                    }
                                    return Err("Team ID out of range (0-31)".to_string());
                                }
                                options.scrape.teams.add(id);
                            },
                        }
                    },
                    Flag::Ids => {
                        match parse_ids_list(v) {
                            Err(e) => {
                                proof {
                                    assert(value_error(f, av[k + 1]) is Some);
                                    assert(applied_steps(av, k as int) =~= Seq::<(Flag, Seq<char>)>::empty());
                                    assert(done + Seq::<(Flag, Seq<char>)>::empty() =~= done);
                                    assert(steps_chain(states, applied_steps(av, 0)));
                                }
                                return Err(e);
                            },
                            Ok(list) => {
                                options.scrape.teams.extend(list.as_slice());
                                proof {
                                    let ids = ids_list_spec(v@)->Ok_0;
                                    assert(strictly_increasing(list@) && (forall|x: u32| list@.contains(x) <==> ids.contains(x))
                                        && selector_extended(o.scrape.teams, list@, options.scrape.teams));
                                }
                            },
                        }
                    },
                    Flag::Out => {
                        options.export.set_path(v);
                    },
                    _ => {
                        match ExportFormat::parse(v) {
                            Ok(fm) => {
                                options.export.format = fm;
                            },
                            Err(e) => {
                                proof {
                                    assert(value_error(f, av[k + 1]) is Some);
                                    assert(applied_steps(av, k as int) =~= Seq::<(Flag, Seq<char>)>::empty());
                                    assert(done + Seq::<(Flag, Seq<char>)>::empty() =~= done);
                                    assert(steps_chain(states, applied_steps(av, 0)));
                                }
                                return Err(e);
                            },
                        }
                    },
                }
                seen.push(f);
                proof {
                    assert(value_error(f, av[k + 1]) is None);
                    assert forall|x: Flag| #[trigger] seen@.contains(x) <==> (before.contains(x) || x == f) by {
                        if seen@.contains(x) {
                            let j = choose|j: int| 0 <= j < seen@.len() && #[trigger] seen@[j] == x;
                            if j < before.len() {
                                assert(before[j] == x);
                            }
                        }
                        if before.contains(x) {
                            let j = choose|j: int| 0 <= j < before.len() && #[trigger] before[j] == x;
                            assert(seen@[j] == x);
                        }
                        if x == f {
                            assert(seen@[before.len() as int] == x);
                        }
                    }
                    if let Ok(r) = args_kinds(av, k + 2) {
                        assert(before + (seq![f] + r) =~= seen@ + r);
                    }
                    assert(flag_applied(o, f, v@, *options));
                    lemma_chain_push(states, done, f, v@, *options);
                    assert(done + applied_steps(av, k as int) =~= done.push((f, v@)) + applied_steps(av, k + 2));
                    states = states.push(*options);
                    done = done.push((f, v@));
                }
                k = k + 2;
            },
        }
    }
    assert(seen@ + Seq::<Flag>::empty() =~= seen@);
    assert(done + applied_steps(av, k as int) =~= done);
    let ghost last = *options;
    options.scrape.teams.normalize();
    assert(states.last() == last);
    assert(steps_chain(states, applied_steps(av, 0)));
    Ok(CliAction::Run { skip_optional: skip })
}

proof fn lemma_chain_push(states: Seq<AppOptions>, done: Seq<(Flag, Seq<char>)>, f: Flag, v: Seq<char>, n: AppOptions)
    requires
        steps_chain(states, done),
        flag_applied(states.last(), f, v, n),
    ensures
        steps_chain(states.push(n), done.push((f, v))),
{
    let s2 = states.push(n);
    let d2 = done.push((f, v));
    assert forall|i: int| 0 <= i < d2.len() implies #[trigger] flag_applied(s2[i], d2[i].0, d2[i].1, s2[i + 1]) by {
        if i < done.len() {
            assert(s2[i] == states[i]);
            assert(s2[i + 1] == states[i + 1]);
            assert(d2[i] == done[i]);
        } else {
            assert(s2[i] == states.last());
        }
    }
}

/* ---------------- option names ---------------- */

/// The short form of a long option name (`--page` is `-p`, and so on);
/// any other argument as it is.
pub open spec fn short_form(a: Seq<char>) -> Seq<char> {
    if a == "--help"@ {
        "-h"@
    } else if a == "--list-teams"@ {
        "-l"@
    } else if a == "--page"@ {
        "-p"@
    } else if a == "--team"@ {
        "-t"@
    } else if a == "--ids"@ {
        "-i"@
    } else if a == "--out"@ {
        "-o"@
    } else if a == "--format"@ {
        "-f"@
    } else if a == "--skip-optional"@ {
        "-s"@
    } else if a == "--drop-headers"@ {
        "-x"@
    } else if a == "--multi"@ || a == "--per-team"@ {
        "-m"@
    } else {
        a
    }
}

/// The option names of the command line, short and long.
pub open spec fn is_option_name(a: Seq<char>) -> bool {
    ||| a == "-h"@ || a == "--help"@
    ||| a == "-l"@ || a == "--list-teams"@
    ||| a == "-p"@ || a == "--page"@
    ||| a == "-t"@ || a == "--team"@
    ||| a == "-i"@ || a == "--ids"@
    ||| a == "-o"@ || a == "--out"@
    ||| a == "-f"@ || a == "--format"@
    ||| a == "-s"@ || a == "--skip-optional"@
    ||| a == "-x"@ || a == "--drop-headers"@
    ||| a == "-m"@ || a == "--multi"@ || a == "--per-team"@
}

proof fn lemma_option_names_differ()
    ensures
        "-h"@ != "--help"@,
        "-h"@ != "-l"@,
        "-h"@ != "--list-teams"@,
        "-h"@ != "-p"@,
        "-h"@ != "--page"@,
        "-h"@ != "-t"@,
        "-h"@ != "--team"@,
        "-h"@ != "-i"@,
        "-h"@ != "--ids"@,
        "-h"@ != "-o"@,
        "-h"@ != "--out"@,
        "-h"@ != "-f"@,
        "-h"@ != "--format"@,
        "-h"@ != "-s"@,
        "-h"@ != "--skip-optional"@,
        "-h"@ != "-x"@,
        "-h"@ != "--drop-headers"@,
        "-h"@ != "-m"@,
        "-h"@ != "--multi"@,
        "-h"@ != "--per-team"@,
        "--help"@ != "-l"@,
        "--help"@ != "--list-teams"@,
        "--help"@ != "-p"@,
        "--help"@ != "--page"@,
        "--help"@ != "-t"@,
        "--help"@ != "--team"@,
        "--help"@ != "-i"@,
        "--help"@ != "--ids"@,
        "--help"@ != "-o"@,
        "--help"@ != "--out"@,
        "--help"@ != "-f"@,
        "--help"@ != "--format"@,
        "--help"@ != "-s"@,
        "--help"@ != "--skip-optional"@,
        "--help"@ != "-x"@,
        "--help"@ != "--drop-headers"@,
        "--help"@ != "-m"@,
        "--help"@ != "--multi"@,
        "--help"@ != "--per-team"@,
        "-l"@ != "--list-teams"@,
        "-l"@ != "-p"@,
        "-l"@ != "--page"@,
        "-l"@ != "-t"@,
        "-l"@ != "--team"@,
        "-l"@ != "-i"@,
        "-l"@ != "--ids"@,
        "-l"@ != "-o"@,
        "-l"@ != "--out"@,
        "-l"@ != "-f"@,
        "-l"@ != "--format"@,
        "-l"@ != "-s"@,
        "-l"@ != "--skip-optional"@,
        "-l"@ != "-x"@,
        "-l"@ != "--drop-headers"@,
        "-l"@ != "-m"@,
        "-l"@ != "--multi"@,
        "-l"@ != "--per-team"@,
        "--list-teams"@ != "-p"@,
        "--list-teams"@ != "--page"@,
        "--list-teams"@ != "-t"@,
        "--list-teams"@ != "--team"@,
        "--list-teams"@ != "-i"@,
        "--list-teams"@ != "--ids"@,
        "--list-teams"@ != "-o"@,
        "--list-teams"@ != "--out"@,
        "--list-teams"@ != "-f"@,
        "--list-teams"@ != "--format"@,
        "--list-teams"@ != "-s"@,
        "--list-teams"@ != "--skip-optional"@,
        "--list-teams"@ != "-x"@,
        "--list-teams"@ != "--drop-headers"@,
        "--list-teams"@ != "-m"@,
        "--list-teams"@ != "--multi"@,
        "--list-teams"@ != "--per-team"@,
        "-p"@ != "--page"@,
        "-p"@ != "-t"@,
        "-p"@ != "--team"@,
        "-p"@ != "-i"@,
        "-p"@ != "--ids"@,
        "-p"@ != "-o"@,
        "-p"@ != "--out"@,
        "-p"@ != "-f"@,
        "-p"@ != "--format"@,
        "-p"@ != "-s"@,
        "-p"@ != "--skip-optional"@,
        "-p"@ != "-x"@,
        "-p"@ != "--drop-headers"@,
        "-p"@ != "-m"@,
        "-p"@ != "--multi"@,
        "-p"@ != "--per-team"@,
        "--page"@ != "-t"@,
        "--page"@ != "--team"@,
        "--page"@ != "-i"@,
        "--page"@ != "--ids"@,
        "--page"@ != "-o"@,
        "--page"@ != "--out"@,
        "--page"@ != "-f"@,
        "--page"@ != "--format"@,
        "--page"@ != "-s"@,
        "--page"@ != "--skip-optional"@,
        "--page"@ != "-x"@,
        "--page"@ != "--drop-headers"@,
        "--page"@ != "-m"@,
        "--page"@ != "--multi"@,
        "--page"@ != "--per-team"@,
        "-t"@ != "--team"@,
        "-t"@ != "-i"@,
        "-t"@ != "--ids"@,
        "-t"@ != "-o"@,
        "-t"@ != "--out"@,
        "-t"@ != "-f"@,
        "-t"@ != "--format"@,
        "-t"@ != "-s"@,
        "-t"@ != "--skip-optional"@,
        "-t"@ != "-x"@,
        "-t"@ != "--drop-headers"@,
        "-t"@ != "-m"@,
        "-t"@ != "--multi"@,
        "-t"@ != "--per-team"@,
        "--team"@ != "-i"@,
        "--team"@ != "--ids"@,
        "--team"@ != "-o"@,
        "--team"@ != "--out"@,
        "--team"@ != "-f"@,
        "--team"@ != "--format"@,
        "--team"@ != "-s"@,
        "--team"@ != "--skip-optional"@,
        "--team"@ != "-x"@,
        "--team"@ != "--drop-headers"@,
        "--team"@ != "-m"@,
        "--team"@ != "--multi"@,
        "--team"@ != "--per-team"@,
        "-i"@ != "--ids"@,
        "-i"@ != "-o"@,
        "-i"@ != "--out"@,
        "-i"@ != "-f"@,
        "-i"@ != "--format"@,
        "-i"@ != "-s"@,
        "-i"@ != "--skip-optional"@,
        "-i"@ != "-x"@,
        "-i"@ != "--drop-headers"@,
        "-i"@ != "-m"@,
        "-i"@ != "--multi"@,
        "-i"@ != "--per-team"@,
        "--ids"@ != "-o"@,
        "--ids"@ != "--out"@,
        "--ids"@ != "-f"@,
        "--ids"@ != "--format"@,
        "--ids"@ != "-s"@,
        "--ids"@ != "--skip-optional"@,
        "--ids"@ != "-x"@,
        "--ids"@ != "--drop-headers"@,
        "--ids"@ != "-m"@,
        "--ids"@ != "--multi"@,
        "--ids"@ != "--per-team"@,
        "-o"@ != "--out"@,
        "-o"@ != "-f"@,
        "-o"@ != "--format"@,
        "-o"@ != "-s"@,
        "-o"@ != "--skip-optional"@,
        "-o"@ != "-x"@,
        "-o"@ != "--drop-headers"@,
        "-o"@ != "-m"@,
        "-o"@ != "--multi"@,
        "-o"@ != "--per-team"@,
        "--out"@ != "-f"@,
        "--out"@ != "--format"@,
        "--out"@ != "-s"@,
        "--out"@ != "--skip-optional"@,
        "--out"@ != "-x"@,
        "--out"@ != "--drop-headers"@,
        "--out"@ != "-m"@,
        "--out"@ != "--multi"@,
        "--out"@ != "--per-team"@,
        "-f"@ != "--format"@,
        "-f"@ != "-s"@,
        "-f"@ != "--skip-optional"@,
        "-f"@ != "-x"@,
        "-f"@ != "--drop-headers"@,
        "-f"@ != "-m"@,
        "-f"@ != "--multi"@,
        "-f"@ != "--per-team"@,
        "--format"@ != "-s"@,
        "--format"@ != "--skip-optional"@,
        "--format"@ != "-x"@,
        "--format"@ != "--drop-headers"@,
        "--format"@ != "-m"@,
        "--format"@ != "--multi"@,
        "--format"@ != "--per-team"@,
        "-s"@ != "--skip-optional"@,
        "-s"@ != "-x"@,
        "-s"@ != "--drop-headers"@,
        "-s"@ != "-m"@,
        "-s"@ != "--multi"@,
        "-s"@ != "--per-team"@,
        "--skip-optional"@ != "-x"@,
        "--skip-optional"@ != "--drop-headers"@,
        "--skip-optional"@ != "-m"@,
        "--skip-optional"@ != "--multi"@,
        "--skip-optional"@ != "--per-team"@,
        "-x"@ != "--drop-headers"@,
        "-x"@ != "-m"@,
        "-x"@ != "--multi"@,
        "-x"@ != "--per-team"@,
        "--drop-headers"@ != "-m"@,
        "--drop-headers"@ != "--multi"@,
        "--drop-headers"@ != "--per-team"@,
        "-m"@ != "--multi"@,
        "-m"@ != "--per-team"@,
        "--multi"@ != "--per-team"@,
{
    reveal_strlit("-h");
    reveal_strlit("--help");
    reveal_strlit("-l");
    reveal_strlit("--list-teams");
    reveal_strlit("-p");
    reveal_strlit("--page");
    reveal_strlit("-t");
    reveal_strlit("--team");
    reveal_strlit("-i");
    reveal_strlit("--ids");
    reveal_strlit("-o");
    reveal_strlit("--out");
    reveal_strlit("-f");
    reveal_strlit("--format");
    reveal_strlit("-s");
    reveal_strlit("--skip-optional");
    reveal_strlit("-x");
    reveal_strlit("--drop-headers");
    reveal_strlit("-m");
    reveal_strlit("--multi");
    reveal_strlit("--per-team");
    assert("-h"@ != "--help"@) by { assert("-h"@.len() != "--help"@.len()); }
    assert("-h"@ != "-l"@) by { assert("-h"@[1] != "-l"@[1]); }
    assert("-h"@ != "--list-teams"@) by { assert("-h"@.len() != "--list-teams"@.len()); }
    assert("-h"@ != "-p"@) by { assert("-h"@[1] != "-p"@[1]); }
    assert("-h"@ != "--page"@) by { assert("-h"@.len() != "--page"@.len()); }
    assert("-h"@ != "-t"@) by { assert("-h"@[1] != "-t"@[1]); }
    assert("-h"@ != "--team"@) by { assert("-h"@.len() != "--team"@.len()); }
    assert("-h"@ != "-i"@) by { assert("-h"@[1] != "-i"@[1]); }
    assert("-h"@ != "--ids"@) by { assert("-h"@.len() != "--ids"@.len()); }
    assert("-h"@ != "-o"@) by { assert("-h"@[1] != "-o"@[1]); }
    assert("-h"@ != "--out"@) by { assert("-h"@.len() != "--out"@.len()); }
    assert("-h"@ != "-f"@) by { assert("-h"@[1] != "-f"@[1]); }
    assert("-h"@ != "--format"@) by { assert("-h"@.len() != "--format"@.len()); }
    assert("-h"@ != "-s"@) by { assert("-h"@[1] != "-s"@[1]); }
    assert("-h"@ != "--skip-optional"@) by { assert("-h"@.len() != "--skip-optional"@.len()); }
    assert("-h"@ != "-x"@) by { assert("-h"@[1] != "-x"@[1]); }
    assert("-h"@ != "--drop-headers"@) by { assert("-h"@.len() != "--drop-headers"@.len()); }
    assert("-h"@ != "-m"@) by { assert("-h"@[1] != "-m"@[1]); }
    assert("-h"@ != "--multi"@) by { assert("-h"@.len() != "--multi"@.len()); }
    assert("-h"@ != "--per-team"@) by { assert("-h"@.len() != "--per-team"@.len()); }
    assert("--help"@ != "-l"@) by { assert("--help"@.len() != "-l"@.len()); }
    assert("--help"@ != "--list-teams"@) by { assert("--help"@.len() != "--list-teams"@.len()); }
    assert("--help"@ != "-p"@) by { assert("--help"@.len() != "-p"@.len()); }
    assert("--help"@ != "--page"@) by { assert("--help"@[2] != "--page"@[2]); }
    assert("--help"@ != "-t"@) by { assert("--help"@.len() != "-t"@.len()); }
    assert("--help"@ != "--team"@) by { assert("--help"@[2] != "--team"@[2]); }
    assert("--help"@ != "-i"@) by { assert("--help"@.len() != "-i"@.len()); }
    assert("--help"@ != "--ids"@) by { assert("--help"@.len() != "--ids"@.len()); }
    assert("--help"@ != "-o"@) by { assert("--help"@.len() != "-o"@.len()); }
    assert("--help"@ != "--out"@) by { assert("--help"@.len() != "--out"@.len()); }
    assert("--help"@ != "-f"@) by { assert("--help"@.len() != "-f"@.len()); }
    assert("--help"@ != "--format"@) by { assert("--help"@.len() != "--format"@.len()); }
    assert("--help"@ != "-s"@) by { assert("--help"@.len() != "-s"@.len()); }
    assert("--help"@ != "--skip-optional"@) by { assert("--help"@.len() != "--skip-optional"@.len()); }
    assert("--help"@ != "-x"@) by { assert("--help"@.len() != "-x"@.len()); }
    assert("--help"@ != "--drop-headers"@) by { assert("--help"@.len() != "--drop-headers"@.len()); }
    assert("--help"@ != "-m"@) by { assert("--help"@.len() != "-m"@.len()); }
    assert("--help"@ != "--multi"@) by { assert("--help"@.len() != "--multi"@.len()); }
    assert("--help"@ != "--per-team"@) by { assert("--help"@.len() != "--per-team"@.len()); }
    assert("-l"@ != "--list-teams"@) by { assert("-l"@.len() != "--list-teams"@.len()); }
    assert("-l"@ != "-p"@) by { assert("-l"@[1] != "-p"@[1]); }
    assert("-l"@ != "--page"@) by { assert("-l"@.len() != "--page"@.len()); }
    assert("-l"@ != "-t"@) by { assert("-l"@[1] != "-t"@[1]); }
    assert("-l"@ != "--team"@) by { assert("-l"@.len() != "--team"@.len()); }
    assert("-l"@ != "-i"@) by { assert("-l"@[1] != "-i"@[1]); }
    assert("-l"@ != "--ids"@) by { assert("-l"@.len() != "--ids"@.len()); }
    assert("-l"@ != "-o"@) by { assert("-l"@[1] != "-o"@[1]); }
    assert("-l"@ != "--out"@) by { assert("-l"@.len() != "--out"@.len()); }
    assert("-l"@ != "-f"@) by { assert("-l"@[1] != "-f"@[1]); }
    assert("-l"@ != "--format"@) by { assert("-l"@.len() != "--format"@.len()); }
    assert("-l"@ != "-s"@) by { assert("-l"@[1] != "-s"@[1]); }
    assert("-l"@ != "--skip-optional"@) by { assert("-l"@.len() != "--skip-optional"@.len()); }
    assert("-l"@ != "-x"@) by { assert("-l"@[1] != "-x"@[1]); }
    assert("-l"@ != "--drop-headers"@) by { assert("-l"@.len() != "--drop-headers"@.len()); }
    assert("-l"@ != "-m"@) by { assert("-l"@[1] != "-m"@[1]); }
    assert("-l"@ != "--multi"@) by { assert("-l"@.len() != "--multi"@.len()); }
    assert("-l"@ != "--per-team"@) by { assert("-l"@.len() != "--per-team"@.len()); }
    assert("--list-teams"@ != "-p"@) by { assert("--list-teams"@.len() != "-p"@.len()); }
    assert("--list-teams"@ != "--page"@) by { assert("--list-teams"@.len() != "--page"@.len()); }
    assert("--list-teams"@ != "-t"@) by { assert("--list-teams"@.len() != "-t"@.len()); }
    assert("--list-teams"@ != "--team"@) by { assert("--list-teams"@.len() != "--team"@.len()); }
    assert("--list-teams"@ != "-i"@) by { assert("--list-teams"@.len() != "-i"@.len()); }
    assert("--list-teams"@ != "--ids"@) by { assert("--list-teams"@.len() != "--ids"@.len()); }
    assert("--list-teams"@ != "-o"@) by { assert("--list-teams"@.len() != "-o"@.len()); }
    assert("--list-teams"@ != "--out"@) by { assert("--list-teams"@.len() != "--out"@.len()); }
    assert("--list-teams"@ != "-f"@) by { assert("--list-teams"@.len() != "-f"@.len()); }
    assert("--list-teams"@ != "--format"@) by { assert("--list-teams"@.len() != "--format"@.len()); }
    assert("--list-teams"@ != "-s"@) by { assert("--list-teams"@.len() != "-s"@.len()); }
    assert("--list-teams"@ != "--skip-optional"@) by { assert("--list-teams"@.len() != "--skip-optional"@.len()); }
    assert("--list-teams"@ != "-x"@) by { assert("--list-teams"@.len() != "-x"@.len()); }
    assert("--list-teams"@ != "--drop-headers"@) by { assert("--list-teams"@.len() != "--drop-headers"@.len()); }
    assert("--list-teams"@ != "-m"@) by { assert("--list-teams"@.len() != "-m"@.len()); }
    assert("--list-teams"@ != "--multi"@) by { assert("--list-teams"@.len() != "--multi"@.len()); }
    assert("--list-teams"@ != "--per-team"@) by { assert("--list-teams"@.len() != "--per-team"@.len()); }
    assert("-p"@ != "--page"@) by { assert("-p"@.len() != "--page"@.len()); }
    assert("-p"@ != "-t"@) by { assert("-p"@[1] != "-t"@[1]); }
    assert("-p"@ != "--team"@) by { assert("-p"@.len() != "--team"@.len()); }
    assert("-p"@ != "-i"@) by { assert("-p"@[1] != "-i"@[1]); }
    assert("-p"@ != "--ids"@) by { assert("-p"@.len() != "--ids"@.len()); }
    assert("-p"@ != "-o"@) by { assert("-p"@[1] != "-o"@[1]); }
    assert("-p"@ != "--out"@) by { assert("-p"@.len() != "--out"@.len()); }
    assert("-p"@ != "-f"@) by { assert("-p"@[1] != "-f"@[1]); }
    assert("-p"@ != "--format"@) by { assert("-p"@.len() != "--format"@.len()); }
    assert("-p"@ != "-s"@) by { assert("-p"@[1] != "-s"@[1]); }
    assert("-p"@ != "--skip-optional"@) by { assert("-p"@.len() != "--skip-optional"@.len()); }
    assert("-p"@ != "-x"@) by { assert("-p"@[1] != "-x"@[1]); }
    assert("-p"@ != "--drop-headers"@) by { assert("-p"@.len() != "--drop-headers"@.len()); }
    assert("-p"@ != "-m"@) by { assert("-p"@[1] != "-m"@[1]); }
    assert("-p"@ != "--multi"@) by { assert("-p"@.len() != "--multi"@.len()); }
    assert("-p"@ != "--per-team"@) by { assert("-p"@.len() != "--per-team"@.len()); }
    assert("--page"@ != "-t"@) by { assert("--page"@.len() != "-t"@.len()); }
    assert("--page"@ != "--team"@) by { assert("--page"@[2] != "--team"@[2]); }
    assert("--page"@ != "-i"@) by { assert("--page"@.len() != "-i"@.len()); }
    assert("--page"@ != "--ids"@) by { assert("--page"@.len() != "--ids"@.len()); }
    assert("--page"@ != "-o"@) by { assert("--page"@.len() != "-o"@.len()); }
    assert("--page"@ != "--out"@) by { assert("--page"@.len() != "--out"@.len()); }
    assert("--page"@ != "-f"@) by { assert("--page"@.len() != "-f"@.len()); }
    assert("--page"@ != "--format"@) by { assert("--page"@.len() != "--format"@.len()); }
    assert("--page"@ != "-s"@) by { assert("--page"@.len() != "-s"@.len()); }
    assert("--page"@ != "--skip-optional"@) by { assert("--page"@.len() != "--skip-optional"@.len()); }
    assert("--page"@ != "-x"@) by { assert("--page"@.len() != "-x"@.len()); }
    assert("--page"@ != "--drop-headers"@) by { assert("--page"@.len() != "--drop-headers"@.len()); }
    assert("--page"@ != "-m"@) by { assert("--page"@.len() != "-m"@.len()); }
    assert("--page"@ != "--multi"@) by { assert("--page"@.len() != "--multi"@.len()); }
    assert("--page"@ != "--per-team"@) by { assert("--page"@.len() != "--per-team"@.len()); }
    assert("-t"@ != "--team"@) by { assert("-t"@.len() != "--team"@.len()); }
    assert("-t"@ != "-i"@) by { assert("-t"@[1] != "-i"@[1]); }
    assert("-t"@ != "--ids"@) by { assert("-t"@.len() != "--ids"@.len()); }
    assert("-t"@ != "-o"@) by { assert("-t"@[1] != "-o"@[1]); }
    assert("-t"@ != "--out"@) by { assert("-t"@.len() != "--out"@.len()); }
    assert("-t"@ != "-f"@) by { assert("-t"@[1] != "-f"@[1]); }
    assert("-t"@ != "--format"@) by { assert("-t"@.len() != "--format"@.len()); }
    assert("-t"@ != "-s"@) by { assert("-t"@[1] != "-s"@[1]); }
    assert("-t"@ != "--skip-optional"@) by { assert("-t"@.len() != "--skip-optional"@.len()); }
    assert("-t"@ != "-x"@) by { assert("-t"@[1] != "-x"@[1]); }
    assert("-t"@ != "--drop-headers"@) by { assert("-t"@.len() != "--drop-headers"@.len()); }
    assert("-t"@ != "-m"@) by { assert("-t"@[1] != "-m"@[1]); }
    assert("-t"@ != "--multi"@) by { assert("-t"@.len() != "--multi"@.len()); }
    assert("-t"@ != "--per-team"@) by { assert("-t"@.len() != "--per-team"@.len()); }
    assert("--team"@ != "-i"@) by { assert("--team"@.len() != "-i"@.len()); }
    assert("--team"@ != "--ids"@) by { assert("--team"@.len() != "--ids"@.len()); }
    assert("--team"@ != "-o"@) by { assert("--team"@.len() != "-o"@.len()); }
    assert("--team"@ != "--out"@) by { assert("--team"@.len() != "--out"@.len()); }
    assert("--team"@ != "-f"@) by { assert("--team"@.len() != "-f"@.len()); }
    assert("--team"@ != "--format"@) by { assert("--team"@.len() != "--format"@.len()); }
    assert("--team"@ != "-s"@) by { assert("--team"@.len() != "-s"@.len()); }
    assert("--team"@ != "--skip-optional"@) by { assert("--team"@.len() != "--skip-optional"@.len()); }
    assert("--team"@ != "-x"@) by { assert("--team"@.len() != "-x"@.len()); }
    assert("--team"@ != "--drop-headers"@) by { assert("--team"@.len() != "--drop-headers"@.len()); }
    assert("--team"@ != "-m"@) by { assert("--team"@.len() != "-m"@.len()); }
    assert("--team"@ != "--multi"@) by { assert("--team"@.len() != "--multi"@.len()); }
    assert("--team"@ != "--per-team"@) by { assert("--team"@.len() != "--per-team"@.len()); }
    assert("-i"@ != "--ids"@) by { assert("-i"@.len() != "--ids"@.len()); }
    assert("-i"@ != "-o"@) by { assert("-i"@[1] != "-o"@[1]); }
    assert("-i"@ != "--out"@) by { assert("-i"@.len() != "--out"@.len()); }
    assert("-i"@ != "-f"@) by { assert("-i"@[1] != "-f"@[1]); }
    assert("-i"@ != "--format"@) by { assert("-i"@.len() != "--format"@.len()); }
    assert("-i"@ != "-s"@) by { assert("-i"@[1] != "-s"@[1]); }
    assert("-i"@ != "--skip-optional"@) by { assert("-i"@.len() != "--skip-optional"@.len()); }
    assert("-i"@ != "-x"@) by { assert("-i"@[1] != "-x"@[1]); }
    assert("-i"@ != "--drop-headers"@) by { assert("-i"@.len() != "--drop-headers"@.len()); }
    assert("-i"@ != "-m"@) by { assert("-i"@[1] != "-m"@[1]); }
    assert("-i"@ != "--multi"@) by { assert("-i"@.len() != "--multi"@.len()); }
    assert("-i"@ != "--per-team"@) by { assert("-i"@.len() != "--per-team"@.len()); }
    assert("--ids"@ != "-o"@) by { assert("--ids"@.len() != "-o"@.len()); }
    assert("--ids"@ != "--out"@) by { assert("--ids"@[2] != "--out"@[2]); }
    assert("--ids"@ != "-f"@) by { assert("--ids"@.len() != "-f"@.len()); }
    assert("--ids"@ != "--format"@) by { assert("--ids"@.len() != "--format"@.len()); }
    assert("--ids"@ != "-s"@) by { assert("--ids"@.len() != "-s"@.len()); }
    assert("--ids"@ != "--skip-optional"@) by { assert("--ids"@.len() != "--skip-optional"@.len()); }
    assert("--ids"@ != "-x"@) by { assert("--ids"@.len() != "-x"@.len()); }
    assert("--ids"@ != "--drop-headers"@) by { assert("--ids"@.len() != "--drop-headers"@.len()); }
    assert("--ids"@ != "-m"@) by { assert("--ids"@.len() != "-m"@.len()); }
    assert("--ids"@ != "--multi"@) by { assert("--ids"@.len() != "--multi"@.len()); }
    assert("--ids"@ != "--per-team"@) by { assert("--ids"@.len() != "--per-team"@.len()); }
    assert("-o"@ != "--out"@) by { assert("-o"@.len() != "--out"@.len()); }
    assert("-o"@ != "-f"@) by { assert("-o"@[1] != "-f"@[1]); }
    assert("-o"@ != "--format"@) by { assert("-o"@.len() != "--format"@.len()); }
    assert("-o"@ != "-s"@) by { assert("-o"@[1] != "-s"@[1]); }
    assert("-o"@ != "--skip-optional"@) by { assert("-o"@.len() != "--skip-optional"@.len()); }
    assert("-o"@ != "-x"@) by { assert("-o"@[1] != "-x"@[1]); }
    assert("-o"@ != "--drop-headers"@) by { assert("-o"@.len() != "--drop-headers"@.len()); }
    assert("-o"@ != "-m"@) by { assert("-o"@[1] != "-m"@[1]); }
    assert("-o"@ != "--multi"@) by { assert("-o"@.len() != "--multi"@.len()); }
    assert("-o"@ != "--per-team"@) by { assert("-o"@.len() != "--per-team"@.len()); }
    assert("--out"@ != "-f"@) by { assert("--out"@.len() != "-f"@.len()); }
    assert("--out"@ != "--format"@) by { assert("--out"@.len() != "--format"@.len()); }
    assert("--out"@ != "-s"@) by { assert("--out"@.len() != "-s"@.len()); }
    assert("--out"@ != "--skip-optional"@) by { assert("--out"@.len() != "--skip-optional"@.len()); }
    assert("--out"@ != "-x"@) by { assert("--out"@.len() != "-x"@.len()); }
    assert("--out"@ != "--drop-headers"@) by { assert("--out"@.len() != "--drop-headers"@.len()); }
    assert("--out"@ != "-m"@) by { assert("--out"@.len() != "-m"@.len()); }
    assert("--out"@ != "--multi"@) by { assert("--out"@.len() != "--multi"@.len()); }
    assert("--out"@ != "--per-team"@) by { assert("--out"@.len() != "--per-team"@.len()); }
    assert("-f"@ != "--format"@) by { assert("-f"@.len() != "--format"@.len()); }
    assert("-f"@ != "-s"@) by { assert("-f"@[1] != "-s"@[1]); }
    assert("-f"@ != "--skip-optional"@) by { assert("-f"@.len() != "--skip-optional"@.len()); }
    assert("-f"@ != "-x"@) by { assert("-f"@[1] != "-x"@[1]); }
    assert("-f"@ != "--drop-headers"@) by { assert("-f"@.len() != "--drop-headers"@.len()); }
    assert("-f"@ != "-m"@) by { assert("-f"@[1] != "-m"@[1]); }
    assert("-f"@ != "--multi"@) by { assert("-f"@.len() != "--multi"@.len()); }
    assert("-f"@ != "--per-team"@) by { assert("-f"@.len() != "--per-team"@.len()); }
    assert("--format"@ != "-s"@) by { assert("--format"@.len() != "-s"@.len()); }
    assert("--format"@ != "--skip-optional"@) by { assert("--format"@.len() != "--skip-optional"@.len()); }
    assert("--format"@ != "-x"@) by { assert("--format"@.len() != "-x"@.len()); }
    assert("--format"@ != "--drop-headers"@) by { assert("--format"@.len() != "--drop-headers"@.len()); }
    assert("--format"@ != "-m"@) by { assert("--format"@.len() != "-m"@.len()); }
    assert("--format"@ != "--multi"@) by { assert("--format"@.len() != "--multi"@.len()); }
    assert("--format"@ != "--per-team"@) by { assert("--format"@.len() != "--per-team"@.len()); }
    assert("-s"@ != "--skip-optional"@) by { assert("-s"@.len() != "--skip-optional"@.len()); }
    assert("-s"@ != "-x"@) by { assert("-s"@[1] != "-x"@[1]); }
    assert("-s"@ != "--drop-headers"@) by { assert("-s"@.len() != "--drop-headers"@.len()); }
    assert("-s"@ != "-m"@) by { assert("-s"@[1] != "-m"@[1]); }
    assert("-s"@ != "--multi"@) by { assert("-s"@.len() != "--multi"@.len()); }
    assert("-s"@ != "--per-team"@) by { assert("-s"@.len() != "--per-team"@.len()); }
    assert("--skip-optional"@ != "-x"@) by { assert("--skip-optional"@.len() != "-x"@.len()); }
    assert("--skip-optional"@ != "--drop-headers"@) by { assert("--skip-optional"@.len() != "--drop-headers"@.len()); }
    assert("--skip-optional"@ != "-m"@) by { assert("--skip-optional"@.len() != "-m"@.len()); }
    assert("--skip-optional"@ != "--multi"@) by { assert("--skip-optional"@.len() != "--multi"@.len()); }
    assert("--skip-optional"@ != "--per-team"@) by { assert("--skip-optional"@.len() != "--per-team"@.len()); }
    assert("-x"@ != "--drop-headers"@) by { assert("-x"@.len() != "--drop-headers"@.len()); }
    assert("-x"@ != "-m"@) by { assert("-x"@[1] != "-m"@[1]); }
    assert("-x"@ != "--multi"@) by { assert("-x"@.len() != "--multi"@.len()); }
    assert("-x"@ != "--per-team"@) by { assert("-x"@.len() != "--per-team"@.len()); }
    assert("--drop-headers"@ != "-m"@) by { assert("--drop-headers"@.len() != "-m"@.len()); }
    assert("--drop-headers"@ != "--multi"@) by { assert("--drop-headers"@.len() != "--multi"@.len()); }
    assert("--drop-headers"@ != "--per-team"@) by { assert("--drop-headers"@.len() != "--per-team"@.len()); }
    assert("-m"@ != "--multi"@) by { assert("-m"@.len() != "--multi"@.len()); }
    assert("-m"@ != "--per-team"@) by { assert("-m"@.len() != "--per-team"@.len()); }
    assert("--multi"@ != "--per-team"@) by { assert("--multi"@.len() != "--per-team"@.len()); }
}

/// Every argument reads as the same option as its short form: a long
/// option name means what its short form means.
pub proof fn long_options_are_short_options(a: Seq<char>)
    ensures
        flag_of(a) == flag_of(short_form(a)),
{
    reveal_strlit("-h");
    reveal_strlit("--help");
    reveal_strlit("-l");
    reveal_strlit("--list-teams");
    reveal_strlit("-p");
    reveal_strlit("--page");
    reveal_strlit("-t");
    reveal_strlit("--team");
    reveal_strlit("-i");
    reveal_strlit("--ids");
    reveal_strlit("-o");
    reveal_strlit("--out");
    reveal_strlit("-f");
    reveal_strlit("--format");
    reveal_strlit("-s");
    reveal_strlit("--skip-optional");
    reveal_strlit("-x");
    reveal_strlit("--drop-headers");
    reveal_strlit("-m");
    reveal_strlit("--multi");
    reveal_strlit("--per-team");
    lemma_option_names_differ();
}

/// Every option name is read as an option, never as an unknown argument,
/// and only option names are.
pub proof fn option_names_are_known(a: Seq<char>)
    ensures
        is_option_name(a) <==> flag_of(a) != Flag::Unknown,
{
    long_options_are_short_options(a);
}

/* ---------------- run decisions ---------------- */

/// Give a data set without headers the headers of its page, when the page has some.
pub fn inject_headers_for_cli(kind: PageKind, ds: &mut DataSet)
    ensures
        final(ds).rows == old(ds).rows,
        old(ds).headers is Some ==> final(ds).headers == old(ds).headers,
        old(ds).headers is None ==> opt_texts(final(ds).headers) == crate::gui::pages::default_headers_spec(kind),
{
    if ds.headers.is_some() {
        return;
    }
    ds.headers = crate::gui::pages::default_headers_for(kind);
}

/// Export type and team column of a command line export: only the players
/// page is split per team (by column 3); every other page falls back to a
/// single file.
pub fn effective_export(page: PageKind, requested: ExportType) -> (r: (ExportType, Option<usize>))
    ensures
        page == PageKind::Players ==> r == (requested, Some(3usize)),
        page != PageKind::Players ==> r == (
            if requested == ExportType::PerTeam { ExportType::SingleFile } else { requested },
            None::<usize>,
        ),
{
    match page {
        PageKind::Players => (requested, Some(3)),
        _ => match requested {
            ExportType::PerTeam => (ExportType::SingleFile, None),
            _ => (requested, None),
        },
    }
}

/// Season of a game results table: its first cell read as a number.
pub fn season_of_results(ds: &DataSet) -> (r: Option<u32>)
    ensures
        r == (if ds.rows@.len() > 0 && ds.rows@[0]@.len() > 0 {
            parse_u32_spec(trim(ds.rows@[0]@[0]@))
        } else {
            None
        }),
{
    if ds.rows.len() > 0 && ds.rows[0].len() > 0 {
        crate::text::parse_u32(&trim_vec(&chars_of(ds.rows[0][0].as_str())))
    } else {
        None
    }
}

/* ---------------- export defaults and shape ---------------- */

/// The export directory is the default one of page `kind`.
pub open spec fn dir_is_default_for(dir: Seq<char>, kind: PageKind) -> bool {
    path_eq(path_norm_of(dir), path_norm_of(default_dir_spec(kind)))
}

/// The directory after the page's default replaced a page default.
pub open spec fn adjusted_dir(o: ExportOptions, page: PageKind) -> Seq<char> {
    let d = o.out_path.dir@;
    if dir_is_default_for(d, PageKind::Players) || dir_is_default_for(d, PageKind::GameResults)
        || dir_is_default_for(d, PageKind::Teams) {
        default_dir_spec(page)
    } else {
        d
    }
}

/// One file named `all` without its own extension in `kind`'s default
/// directory, once the directory is `dir`.
pub open spec fn still_fully_default(o: ExportOptions, dir: Seq<char>, kind: PageKind) -> bool {
    o.export_type == ExportType::SingleFile && path_eq(default_dir_spec(kind), dir) && o.out_path.file_stem@
        == DEFAULT_FILE@ && o.out_path.file_ext is None
}

/// The file name that replaces the default one: `teams` for the team
/// list, `injuries` for injuries, where the export is still fully default.
pub open spec fn default_rename(o: ExportOptions, page: PageKind) -> Option<Seq<char>> {
    let d = adjusted_dir(o, page);
    if page == PageKind::Teams && still_fully_default(o, d, PageKind::Teams) {
        Some("teams"@)
    } else if page == PageKind::Injuries && still_fully_default(o, d, PageKind::Injuries) {
        Some("injuries"@)
    } else {
        None
    }
}

/// Fit the export defaults to the page of a command line run: a page's
/// default directory becomes this page's, and a fully default file is
/// named after the team list or the injuries.
pub fn adjust_export_for_page(export: &mut ExportOptions, page: PageKind)
    ensures
        final(export).format == old(export).format,
        final(export).export_type == old(export).export_type,
        final(export).include_headers == old(export).include_headers,
        final(export).keep_hash == old(export).keep_hash,
        match default_rename(*old(export), page) {
            None => {
                &&& final(export).out_path.dir@ == adjusted_dir(*old(export), page)
                &&& final(export).out_path.file_stem == old(export).out_path.file_stem
                &&& final(export).out_path.file_ext == old(export).out_path.file_ext
            },
            Some(t) => {
                &&& final(export).out_path.dir@ == (match path_parent_of(t) {
                    Some(p) => if p.len() > 0 { path_norm_of(p) } else { adjusted_dir(*old(export), page) },
                    None => adjusted_dir(*old(export), page),
                })
                &&& final(export).out_path.file_stem@ == (match path_stem_of(t) {
                    Some(st) => st,
                    None => old(export).out_path.file_stem@,
                })
                &&& opt_view(final(export).out_path.file_ext) == path_ext_of(t)
            },
        },
{
    if export.is_current_dir_default_for(PageKind::Players) || export.is_current_dir_default_for(PageKind::GameResults)
        || export.is_current_dir_default_for(PageKind::Teams) {
        export.set_default_dir_for_page(page);
    }
    proof {
        reveal_strlit("teams");
        reveal_strlit("injuries");
        crate::text::lemma_trim_plain("teams"@);
        crate::text::lemma_trim_plain("injuries"@);
    }
    if matches!(page, PageKind::Teams) && export.is_fully_default_for(PageKind::Teams) {
        export.set_path("teams");
    } else if matches!(page, PageKind::Injuries) && export.is_fully_default_for(PageKind::Injuries) {
        export.set_path("injuries");
    }
}

/// The header row and rows to export: without the match id column for game
/// results when optional columns are skipped, as they are otherwise.
pub open spec fn export_shape(
    page: PageKind,
    skip_optional: bool,
    headers: Option<Seq<Seq<char>>>,
    rows: Seq<Seq<Seq<char>>>,
) -> (Option<Seq<Seq<char>>>, Seq<Seq<Seq<char>>>) {
    if page == PageKind::GameResults && skip_optional {
        (
            match headers {
                Some(h) => Some(if h.len() > 0 { h.drop_last() } else { h }),
                None => None,
            },
            rows.map_values(|r: Seq<Seq<char>>| if r.len() > 0 { r.drop_last() } else { r }),
        )
    } else {
        (headers, rows)
    }
}

fn drop_last_cell(r: &Vec<String>) -> (c: Vec<String>)
    ensures
        c.deep_view() == (if r@.len() > 0 { r.deep_view().drop_last() } else { r.deep_view() }),
{
    let mut c = crate::data::copy_row(r);
    if c.len() > 0 {
        let ghost before = c.deep_view();
        c.pop();
        assert(c.deep_view() =~= before.drop_last());
    }
    c
}

/// The header row and rows of a command line export (see `export_shape`).
pub fn export_rows_for(page: PageKind, skip_optional: bool, headers: &Option<Vec<String>>, rows: &Vec<Vec<String>>) -> (r: (
    Option<Vec<String>>,
    Vec<Vec<String>>,
))
    ensures
        (opt_texts(r.0), r.1.deep_view()) == export_shape(page, skip_optional, opt_texts(*headers), rows.deep_view()),
{
    if !(matches!(page, PageKind::GameResults) && skip_optional) {
        return (crate::data::copy_opt_texts(headers), crate::data::copy_rows(rows));
    }
    let h = match headers {
        Some(h) => Some(drop_last_cell(h)),
        None => None,
    };
    let ghost target = rows.deep_view().map_values(|r: Seq<Seq<char>>| if r.len() > 0 { r.drop_last() } else { r });
    let mut out: Vec<Vec<String>> = Vec::new();
    let mut i: usize = 0;
    while i < rows.len()
        invariant
            i <= rows@.len(),
            target == rows.deep_view().map_values(|r: Seq<Seq<char>>| if r.len() > 0 { r.drop_last() } else { r }),
            out.deep_view() == target.take(i as int),
        decreases rows@.len() - i,
    {
        let c = drop_last_cell(&rows[i]);
        let ghost prev = out.deep_view();
        out.push(c);
        assert(rows.deep_view()[i as int] == rows@[i as int].deep_view());
        assert(out.deep_view() =~= prev.push(target[i as int]));
        assert(target.take(i + 1) =~= target.take(i as int).push(target[i as int]));
        i = i + 1;
    }
    assert(target.take(i as int) =~= target);
    (h, out)
}

/// The closing line of a command line export.
pub fn export_summary(written: usize, last: Option<&str>) -> (s: String)
    ensures
        s@ == (if written == 0 {
            "Nothing to export."@
        } else {
            match last {
                Some(p) => "Exported "@ + crate::text::decimal(written as nat) + " file(s). Last: "@ + p@,
                None => "Export done."@,
            }
        }),
{
    if written == 0 {
        return string_of(&chars_of("Nothing to export."));
    }
    match last {
        Some(p) => {
            let mut v = chars_of("Exported ");
            push_all(&mut v, &crate::text::decimal_vec(written as u64));
            push_all(&mut v, &chars_of(" file(s). Last: "));
            push_all(&mut v, &chars_of(p));
            string_of(&v)
        },
        None => string_of(&chars_of("Export done.")),
    }
}

} // verus!
