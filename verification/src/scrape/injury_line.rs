//! One line of the injury report, read from its text with the markup
//! removed: `W<week> <victim team> <victim> DUR <n> <type> by <offender
//! team> <offender> BRU <n> ... Drops from <a> to <b> ... BOUNTY COLLECTED`.

use vstd::prelude::*;
use crate::text::{
    chars_of, contains, contains_exec, find, find_char, find_char_from, find_from, leading_digits,
    lemma_find_char_from, lemma_find_from, lemma_leading_digits, lower_seq, lower_vec, opt_chars, push_text,
    replace_all, replace_vec, starts_with, sub_vec, take_digits, trim, trim_end, trim_end_vec, trim_start,
    trim_start_vec, trim_vec, upper_seq, upper_vec,
};
use crate::tokens::{
    digit_groups, digit_groups_vec, digits_past_ws, digits_past_ws_vec, has_prefix, rfind_str, rfind_vec,
};
use crate::base::html::{clean_spec, clean_vec};
use crate::scrape::team_prefix::{
    split_offender, split_offender_vec, split_team_player, split_team_player_vec,
};

verus! {

/// The column headers of the injury table.
pub open spec fn injury_headers() -> Seq<Seq<char>> {
    seq![
        "S"@, "W"@, "Victim Team"@, "Victim"@, "DUR"@, "SR0"@, "SR1"@, "Type"@, "Offender Team"@,
        "Offender"@, "BRU"@, "Bounty"@,
    ]
}

/// A row, if present, by its view.
pub open spec fn opt_row(o: Option<Vec<Vec<char>>>) -> Option<Seq<Seq<char>>> {
    match o {
        None => None,
        Some(r) => Some(r.deep_view()),
    }
}

/// A victim name may end in `" SR <digits>"` (killed players): the name
/// without it, and the digits.
pub open spec fn peel_sr(name: Seq<char>) -> (Seq<char>, Option<Seq<char>>) {
    match rfind_str(name, " SR "@) {
        Some(ix) => {
            let d = leading_digits(trim(name.skip(ix + 4)));
            if d.len() > 0 { (trim(name.take(ix)), Some(d)) } else { (name, None) }
        },
        None => (name, None),
    }
}

/// The two ratings after `"Drops from "`: the digits there, then the digits
/// after a following `" to "` (or `" to"`, or `"to "`) read from two
/// characters past its start; when that gives nothing, the first two digit
/// groups when there are two.
pub open spec fn sr_pair(after_from: Seq<char>) -> (Seq<char>, Seq<char>) {
    let sr0 = leading_digits(after_from);
    let after_sr0 = trim_start(after_from.skip(sr0.len() as int));
    let to = match find_from(after_sr0, " to "@, 0) {
        Some(x) => Some(x),
        None => match find_from(after_sr0, " to"@, 0) {
            Some(x) => Some(x),
            None => find_from(after_sr0, "to "@, 0),
        },
    };
    let sr1 = match to {
        Some(tp) => digits_past_ws(after_sr0, tp + 2),
        None => Seq::empty(),
    };
    if sr1.len() == 0 {
        let nums = digit_groups(after_from);
        if nums.len() >= 2 { (nums[0], nums[1]) } else { (sr0, sr1) }
    } else {
        (sr0, sr1)
    }
}

/// The text of a line: entities replaced, tags removed, carriage returns dropped.
pub open spec fn line_text(line: Seq<char>) -> Seq<char> {
    replace_all(clean_spec(line), "\r"@, Seq::empty())
}

/// The fields of a line of text that carries `" DUR "`, `" BRU "` and `" SR "`.
pub open spec fn slow_fields(txt: Seq<char>, season: Seq<char>, names: Seq<Seq<char>>) -> Option<Seq<Seq<char>>> {
    let t = trim_start(txt);
    match find_char_from(t, 'W', 0) {
        None => None,
        Some(w) => {
            let week = leading_digits(t.skip(w + 1));
            let rest1 = trim_start(t.skip(w + 1 + week.len()));
            match find_from(rest1, " DUR "@, 0) {
                None => None,
                Some(dp) => match split_team_player(trim_end(rest1.take(dp)), names, false) {
                    None => None,
                    Some((vteam, vname0)) => {
                        let (vname, sr_name) = peel_sr(vname0);
                        let rest2 = rest1.skip(dp + 5);
                        let dur = leading_digits(rest2);
                        let after_dur = trim_start(rest2.skip(dur.len() as int));
                        match find_from(after_dur, " by "@, 0) {
                            None => None,
                            Some(bp) => {
                                let typ0 = trim(after_dur.take(bp));
                                let rest3 = after_dur.skip(bp + 4);
                                match find_from(rest3, " BRU "@, 0) {
                                    None => None,
                                    Some(rp) => {
                                        let op0 = trim_end(rest3.take(rp));
                                        let op = if has_prefix(lower_seq(op0), "by "@) { op0.skip(3) } else { op0 };
                                        let (oteam, oname) = split_offender(op, names, false);
                                        let rest4 = rest3.skip(rp + 5);
                                        let bru = leading_digits(rest4);
                                        let after_bru = trim_start(rest4.skip(bru.len() as int));
                                        let (sr0a, sr1, typ) = match find_from(after_bru, "Drops from "@, 0) {
                                            Some(fp) => {
                                                let p = sr_pair(after_bru.skip(fp + 11));
                                                (p.0, p.1, typ0)
                                            },
                                            None => (
                                                Seq::empty(),
                                                Seq::empty(),
                                                if contains(upper_seq(typ0), "KILL"@) { "KILLED"@ } else { typ0 },
                                            ),
                                        };
                                        let bounty = if contains(upper_seq(txt), "BOUNTY COLLECTED"@) {
                                            "BOUNTY COLLECTED"@
                                        } else {
                                            Seq::empty()
                                        };
                                        let sr0 = if sr0a.len() == 0 {
                                            match sr_name {
                                                Some(d) => d,
                                                None => sr0a,
                                            }
                                        } else {
                                            sr0a
                                        };
                                        Some(
                                            seq![season, week, vteam, vname, dur, sr0, sr1, typ, oteam, oname, bru, bounty],
                                        )
                                    },
                                }
                            },
                        }
                    },
                },
            }
        },
    }
}

/// The row a line gives by keyword search on its text: nothing unless the
/// text carries `" DUR "`, `" BRU "` and `" SR "`.
pub open spec fn slow_line(line: Seq<char>, season: Seq<char>, names: Seq<Seq<char>>) -> Option<Seq<Seq<char>>> {
    let txt = line_text(line);
    if contains(txt, " DUR "@) && contains(txt, " BRU "@) && contains(txt, " SR "@) {
        slow_fields(txt, season, names)
    } else {
        None
    }
}

pub fn peel_sr_vec(name: Vec<char>) -> (r: (Vec<char>, Option<Vec<char>>))
    ensures
        (r.0@, opt_chars(r.1)) == peel_sr(name@),
{
    let pat = chars_of(" SR ");
    proof {
        reveal_strlit(" SR ");
    }
    match rfind_vec(&name, &pat) {
        Some(ix) => {
            let nl = name.len();
            let tail = trim_vec(&sub_vec(&name, ix + 4, nl));
            assert(name@.subrange(ix + 4, name@.len() as int) =~= name@.skip(ix + 4));
            let d = take_digits(&tail, 0);
            assert(tail@.skip(0) =~= tail@);
            if d.len() > 0 {
                let head = trim_vec(&sub_vec(&name, 0, ix));
                assert(name@.subrange(0, ix as int) =~= name@.take(ix as int));
                (head, Some(d))
            } else {
                (name, None)
            }
        },
        None => (name, None),
    }
}

pub fn sr_pair_vec(after_from: &[char]) -> (r: (Vec<char>, Vec<char>))
    ensures
        (r.0@, r.1@) == sr_pair(after_from@),
{
    let sr0 = take_digits(after_from, 0);
    assert(after_from@.skip(0) =~= after_from@);
    proof {
        lemma_leading_digits(after_from@);
    }
    let after_sr0 = trim_start_vec(&sub_vec(after_from, sr0.len(), after_from.len()));
    assert(after_from@.subrange(sr0@.len() as int, after_from@.len() as int) =~= after_from@.skip(
        sr0@.len() as int,
    ));
    let p1 = chars_of(" to ");
    let p2 = chars_of(" to");
    let p3 = chars_of("to ");
    proof {
        reveal_strlit(" to ");
        reveal_strlit(" to");
        reveal_strlit("to ");
        lemma_find_from(after_sr0@, p1@, 0);
        lemma_find_from(after_sr0@, p2@, 0);
        lemma_find_from(after_sr0@, p3@, 0);
    }
    let al = after_sr0.len();
    let to = match find(&after_sr0, &p1, 0) {
        Some(x) => Some(x),
        None => match find(&after_sr0, &p2, 0) {
            Some(x) => Some(x),
            None => find(&after_sr0, &p3, 0),
        },
    };
    let sr1 = match to {
        Some(tp) => digits_past_ws_vec(&after_sr0, tp + 2),
        None => Vec::new(),
    };
    if sr1.len() == 0 {
        let nums = digit_groups_vec(after_from);
        if nums.len() >= 2 {
            assert(nums.deep_view()[0] == nums@[0]@);
            assert(nums.deep_view()[1] == nums@[1]@);
            let a = sub_vec(nums[0].as_slice(), 0, nums[0].len());
            let b = sub_vec(nums[1].as_slice(), 0, nums[1].len());
            assert(a@ =~= nums@[0]@);
            assert(b@ =~= nums@[1]@);
            (a, b)
        } else {
            (sr0, sr1)
        }
    } else {
        (sr0, sr1)
    }
}

/// The row of one line, by keyword search on its text.
pub fn parse_line_slow(line: &[char], season: &[char], names: &Vec<Vec<char>>) -> (r: Option<Vec<Vec<char>>>)
    ensures
        opt_row(r) == slow_line(line@, season@, names.deep_view()),
{
    let txt0 = clean_vec(line);
    let cr = chars_of("\r");
    proof {
        reveal_strlit("\r");
    }
    let nothing: Vec<char> = Vec::new();
    let txt = replace_vec(&txt0, &cr, &nothing);
    let p_dur = chars_of(" DUR ");
    let p_bru = chars_of(" BRU ");
    let p_sr = chars_of(" SR ");
    if !(contains_exec(&txt, &p_dur) && contains_exec(&txt, &p_bru) && contains_exec(&txt, &p_sr)) {
        return None;
    }
    fields_of_text(&txt, season, names)
}

fn fields_of_text(txt: &Vec<char>, season: &[char], names: &Vec<Vec<char>>) -> (r: Option<Vec<Vec<char>>>)
    ensures
        opt_row(r) == slow_fields(txt@, season@, names.deep_view()),
{
    proof {
        reveal_strlit(" DUR ");
        reveal_strlit(" by ");
        reveal_strlit(" BRU ");
        reveal_strlit("by ");
        reveal_strlit("Drops from ");
    }
    let t = trim_start_vec(txt);
    proof {
        lemma_find_char_from(t@, 'W', 0);
    }
    let w = match find_char(&t, 'W', 0) {
        None => return None,
        Some(w) => w,
    };
    let tl = t.len();
    let week = take_digits(&t, w + 1);
    proof {
        lemma_leading_digits(t@.skip(w + 1));
    }
    let pos = w + 1 + week.len();
    let rest1 = trim_start_vec(&sub_vec(&t, pos, t.len()));
    assert(t@.subrange(pos as int, t@.len() as int) =~= t@.skip(pos as int));
    let p_dur = chars_of(" DUR ");
    proof {
        lemma_find_from(rest1@, p_dur@, 0);
    }
    let dp = match find(&rest1, &p_dur, 0) {
        None => return None,
        Some(x) => x,
    };
    let pre = trim_end_vec(&sub_vec(&rest1, 0, dp));
    assert(rest1@.subrange(0, dp as int) =~= rest1@.take(dp as int));
    let (vteam, vname0) = match split_team_player_vec(&pre, names, false) {
        None => return None,
        Some(p) => p,
    };
    let (vname, sr_name) = peel_sr_vec(vname0);
    let r1l = rest1.len();
    let rest2 = sub_vec(&rest1, dp + 5, r1l);
    assert(rest1@.subrange(dp + 5, rest1@.len() as int) =~= rest1@.skip(dp + 5));
    let dur = take_digits(&rest2, 0);
    assert(rest2@.skip(0) =~= rest2@);
    proof {
        lemma_leading_digits(rest2@);
    }
    let after_dur = trim_start_vec(&sub_vec(&rest2, dur.len(), rest2.len()));
    assert(rest2@.subrange(dur@.len() as int, rest2@.len() as int) =~= rest2@.skip(dur@.len() as int));
    let p_by = chars_of(" by ");
    proof {
        lemma_find_from(after_dur@, p_by@, 0);
    }
    let bp = match find(&after_dur, &p_by, 0) {
        None => return None,
        Some(x) => x,
    };
    let typ0 = trim_vec(&sub_vec(&after_dur, 0, bp));
    assert(after_dur@.subrange(0, bp as int) =~= after_dur@.take(bp as int));
    let adl = after_dur.len();
    let rest3 = sub_vec(&after_dur, bp + 4, adl);
    assert(after_dur@.subrange(bp + 4, after_dur@.len() as int) =~= after_dur@.skip(bp + 4));
    let p_bru = chars_of(" BRU ");
    proof {
        lemma_find_from(rest3@, p_bru@, 0);
    }
    let rp = match find(&rest3, &p_bru, 0) {
        None => return None,
        Some(x) => x,
    };
    let op0 = trim_end_vec(&sub_vec(&rest3, 0, rp));
    assert(rest3@.subrange(0, rp as int) =~= rest3@.take(rp as int));
    let by_pat = chars_of("by ");
    let op = if starts_with(&lower_vec(&op0), &by_pat) {
        let o = sub_vec(&op0, 3, op0.len());
        assert(op0@.subrange(3, op0@.len() as int) =~= op0@.skip(3));
        o
    } else {
        op0
    };
    let (oteam, oname) = split_offender_vec(&op, names, false);
    let r3l = rest3.len();
    let rest4 = sub_vec(&rest3, rp + 5, r3l);
    assert(rest3@.subrange(rp + 5, rest3@.len() as int) =~= rest3@.skip(rp + 5));
    let bru = take_digits(&rest4, 0);
    assert(rest4@.skip(0) =~= rest4@);
    proof {
        lemma_leading_digits(rest4@);
    }
    let after_bru = trim_start_vec(&sub_vec(&rest4, bru.len(), rest4.len()));
    assert(rest4@.subrange(bru@.len() as int, rest4@.len() as int) =~= rest4@.skip(bru@.len() as int));
    let p_drops = chars_of("Drops from ");
    proof {
        lemma_find_from(after_bru@, p_drops@, 0);
    }
    let (sr0a, sr1, typ) = match find(&after_bru, &p_drops, 0) {
        Some(fp) => {
            let abl = after_bru.len();
            let tail = sub_vec(&after_bru, fp + 11, abl);
            assert(after_bru@.subrange(fp + 11, after_bru@.len() as int) =~= after_bru@.skip(fp + 11));
            let (a, b) = sr_pair_vec(&tail);
            (a, b, typ0)
        },
        None => {
            let k = if contains_exec(&upper_vec(&typ0), &chars_of("KILL")) {
                chars_of("KILLED")
            } else {
                typ0
            };
            (Vec::new(), Vec::new(), k)
        },
    };
    let bounty = if contains_exec(&upper_vec(txt), &chars_of("BOUNTY COLLECTED")) {
        chars_of("BOUNTY COLLECTED")
    } else {
        Vec::new()
    };
    let sr0 = if sr0a.len() == 0 {
        match sr_name {
            Some(d) => d,
            None => sr0a,
        }
    } else {
        sr0a
    };
    let mut row: Vec<Vec<char>> = Vec::new();
    let ghost fields = seq![
        season@, week@, vteam@, vname@, dur@, sr0@, sr1@, typ@, oteam@, oname@, bru@, bounty@,
    ];
    push_text(&mut row, sub_vec(season, 0, season.len()));
    assert(season@.subrange(0, season@.len() as int) =~= season@);
    push_text(&mut row, week);
    push_text(&mut row, vteam);
    push_text(&mut row, vname);
    push_text(&mut row, dur);
    push_text(&mut row, sr0);
    push_text(&mut row, sr1);
    push_text(&mut row, typ);
    push_text(&mut row, oteam);
    push_text(&mut row, oname);
    push_text(&mut row, bru);
    push_text(&mut row, bounty);
    assert(row.deep_view() =~= fields);
    Some(row)
}

} // verus!
