//! One line of the injury report read in a single pass over its visible
//! characters, with small streaming matchers for the keywords.

use vstd::prelude::*;
use crate::text::{
    chars_of, contains, contains_exec, find_char_from, is_digit, is_digit_char, lower, lower_char, push_text,
    sub_vec, trim, trim_vec, upper_seq, upper_vec,
};
use crate::tokens::{drop_prefix, drop_prefix_vec, drop_suffix, drop_suffix_vec};
use crate::base::vischars::{visible, VisChars};
use crate::scrape::team_prefix::{
    split_offender, split_offender_vec, split_team_player, split_team_player_vec,
};
use crate::scrape::injury_line::{opt_row, peel_sr, peel_sr_vec};

verus! {

/* ---------------- streaming keyword matcher ---------------- */

/// The low byte of a character's code (what `char as u8` keeps).
pub open spec fn byte_of(c: char) -> u32 {
    (c as u32) % 256u32
}

/// One step of the keyword matcher: the character (lowercased when `lc`)
/// is compared by its low byte with the next expected one; a full match
/// reports `true` and starts over; a mismatch restarts at 1 when the
/// character is the keyword's first, else at 0.
pub open spec fn feed(pat: Seq<char>, lc: bool, idx: int, ch: char) -> (int, bool) {
    let c = byte_of(if lc { lower(ch) } else { ch });
    if c == (pat[idx] as u32) {
        if idx + 1 == pat.len() { (0, true) } else { (idx + 1, false) }
    } else if c == (pat[0] as u32) {
        (1, false)
    } else {
        (0, false)
    }
}

/// Position in `r` (from `k` on) of the character on which the matcher,
/// in state `idx`, reports a full match.
pub open spec fn scan_match(r: Seq<char>, k: int, pat: Seq<char>, lc: bool, idx: int) -> Option<int>
    decreases r.len() - k,
{
    if k < 0 || k >= r.len() {
        None
    } else {
        let (i2, hit) = feed(pat, lc, idx, r[k]);
        if hit { Some(k) } else { scan_match(r, k + 1, pat, lc, i2) }
    }
}

/// Position after the character at `e` that stopped a read (if any).
pub open spec fn past(r: Seq<char>, e: int) -> int {
    if e < r.len() { e + 1 } else { e }
}

/// Characters read until the matcher reports the keyword (the character
/// that completes it is consumed and not kept), and what is left.
pub open spec fn until_phase(r: Seq<char>, pat: Seq<char>, lc: bool) -> (Seq<char>, Seq<char>) {
    let m = match scan_match(r, 0, pat, lc, 0) {
        Some(m) => m,
        None => r.len() as int,
    };
    (r.take(m), r.skip(past(r, m)))
}

/// End of the run of digits that starts at `k`.
pub open spec fn digit_end(r: Seq<char>, k: int) -> int
    decreases r.len() - k,
{
    if 0 <= k < r.len() && is_digit(r[k]) { digit_end(r, k + 1) } else { k }
}

/// Leading digits (the first other character is consumed), and what is left.
pub open spec fn digits_phase(r: Seq<char>) -> (Seq<char>, Seq<char>) {
    let e = digit_end(r, 0);
    (r.take(e), r.skip(past(r, e)))
}

/// Digits after the first `W`, and what is left.
pub open spec fn week_phase(r: Seq<char>) -> (Seq<char>, Seq<char>) {
    match find_char_from(r, 'W', 0) {
        None => (Seq::empty(), Seq::empty()),
        Some(w) => digits_phase(r.skip(w + 1)),
    }
}

pub proof fn lemma_digit_end(r: Seq<char>, k: int)
    requires
        0 <= k <= r.len(),
    ensures
        k <= digit_end(r, k) <= r.len(),
    decreases r.len() - k,
{
    if k < r.len() && is_digit(r[k]) {
        lemma_digit_end(r, k + 1);
    }
}

/// State of the scan after the BRU figure: three matchers, the phase
/// (0 looking for "drops from", 1 reading the first rating, 3 reading the
/// second, 4 done), the bounty flag and the two ratings.
pub struct TailState {
    pub drops: int,
    pub to: int,
    pub bounty: int,
    pub phase: int,
    pub saw_bounty: bool,
    pub sr0: Seq<char>,
    pub sr1: Seq<char>,
}

pub open spec fn tail_init() -> TailState {
    TailState { drops: 0, to: 0, bounty: 0, phase: 0, saw_bounty: false, sr0: Seq::empty(), sr1: Seq::empty() }
}

pub open spec fn tail_step(st: TailState, ch: char) -> TailState {
    let (b2, hb) = feed("bounty collected"@, true, st.bounty, ch);
    let saw = st.saw_bounty || hb;
    if st.phase == 0 {
        let (d2, hd) = feed("drops from "@, true, st.drops, ch);
        TailState {
            drops: d2,
            to: st.to,
            bounty: b2,
            phase: if hd { 1 } else { 0 },
            saw_bounty: saw,
            sr0: st.sr0,
            sr1: st.sr1,
        }
    } else if st.phase == 1 {
        if is_digit(ch) {
            TailState { bounty: b2, saw_bounty: saw, sr0: st.sr0.push(ch), ..st }
        } else {
            let (t2, ht) = feed(" to "@, true, st.to, ch);
            TailState { bounty: b2, saw_bounty: saw, to: t2, phase: if ht { 3 } else { 1 }, ..st }
        }
    } else if st.phase == 3 {
        if is_digit(ch) {
            TailState { bounty: b2, saw_bounty: saw, sr1: st.sr1.push(ch), ..st }
        } else {
            TailState { bounty: b2, saw_bounty: saw, phase: 4, ..st }
        }
    } else {
        TailState { bounty: b2, saw_bounty: saw, ..st }
    }
}

pub open spec fn tail_scan(r: Seq<char>, k: int, st: TailState) -> TailState
    decreases r.len() - k,
{
    if k < 0 || k >= r.len() {
        st
    } else {
        tail_scan(r, k + 1, tail_step(st, r[k]))
    }
}

/// The row a line gives when its visible characters `v` are read in one pass.
pub open spec fn fast_line(v: Seq<char>, season: Seq<char>, names: Seq<Seq<char>>, skip_empty: bool) -> Option<Seq<Seq<char>>> {
    let (week, r1) = week_phase(v);
    if week.len() == 0 {
        None
    } else {
        let (pre0, r2) = until_phase(r1, " DUR "@, false);
        if pre0.len() == 0 {
            None
        } else {
            let pre = trim(drop_suffix(pre0, " DUR"@));
            match split_team_player(pre, names, skip_empty) {
                None => None,
                Some((vteam, vname0)) => {
                    let (vname, sr_name) = peel_sr(vname0);
                    let (dur, r3) = digits_phase(r2);
                    if dur.len() == 0 {
                        None
                    } else {
                        let (typ0, r4) = until_phase(r3, " by "@, true);
                        let typ = drop_suffix(trim(typ0), " by"@);
                        let (op0, r5) = until_phase(r4, " BRU "@, false);
                        let op = trim(drop_prefix(trim(drop_suffix(op0, " BRU"@)), "by "@));
                        let (oteam, oname) = split_offender(op, names, skip_empty);
                        let (bru, r6) = digits_phase(r5);
                        let st = tail_scan(r6, 0, tail_init());
                        let sr0 = if st.sr0.len() == 0 {
                            match sr_name {
                                Some(d) => d,
                                None => st.sr0,
                            }
                        } else {
                            st.sr0
                        };
                        let bounty = if st.saw_bounty { "BOUNTY COLLECTED"@ } else { Seq::empty() };
                        let typf = if st.sr1.len() == 0 && contains(upper_seq(typ), "KILL"@) {
                            "KILLED"@
                        } else {
                            typ
                        };
                        Some(
                            seq![season, week, vteam, vname, dur, sr0, st.sr1, typf, oteam, oname, bru, bounty],
                        )
                    }
                },
            }
        }
    }
}

struct Matcher {
    pat: Vec<char>,
    idx: usize,
    lc: bool,
}

impl Matcher {
    spec fn wf(&self) -> bool {
        self.pat@.len() >= 2 && self.idx < self.pat@.len()
    }

    fn new(p: &str, lc: bool) -> (m: Matcher)
        requires
            p@.len() >= 2,
        ensures
            m.wf(),
            m.pat@ == p@,
            m.idx == 0,
            m.lc == lc,
    {
        Matcher { pat: chars_of(p), idx: 0, lc }
    }

    fn feed(&mut self, ch: char) -> (hit: bool)
        requires
            old(self).wf(),
        ensures
            final(self).wf(),
            final(self).pat == old(self).pat,
            final(self).lc == old(self).lc,
            (final(self).idx as int, hit) == feed(old(self).pat@, old(self).lc, old(self).idx as int, ch),
    {
        let pl = self.pat.len();
        let c = if self.lc { lower_char(ch) } else { ch };
        let b: u32 = (c as u32) % 256;
        let need: u32 = self.pat[self.idx] as u32;
        if b == need {
            self.idx = self.idx + 1;
            if self.idx == pl {
                self.idx = 0;
                return true;
            }
        } else {
            self.idx = if b == (self.pat[0] as u32) { 1 } else { 0 };
        }
        false
    }
}

/* ---------------- reading phases ---------------- */

fn read_digits(it: &mut VisChars) -> (d: Vec<char>)
    requires
        old(it).wf(),
    ensures
        final(it).wf(),
        final(it).text() == old(it).text(),
        (d@, final(it).rest()) == digits_phase(old(it).rest()),
{
    let ghost r = it.rest();
    let mut d: Vec<char> = Vec::new();
    let ghost mut j: int = 0;
    loop
        invariant
            it.wf(),
            it.text() == old(it).text(),
            r == old(it).rest(),
            0 <= j <= r.len(),
            it.rest() == r.skip(j),
            d@ == r.take(j),
            digit_end(r, 0) == digit_end(r, j),
        decreases r.len() - j,
    {
        let ghost before = it.rest();
        match it.next() {
            None => {
                assert(r.skip(j).len() == 0);
                assert(r.take(j) =~= r.take(digit_end(r, 0)));
                assert(it.rest() =~= r.skip(past(r, digit_end(r, 0))));
                return d;
            },
            Some(c) => {
                assert(before[0] == c);
                assert(it.rest() =~= before.drop_first());
                assert(r.skip(j)[0] == c);
                assert(it.rest() =~= r.skip(j + 1));
                if is_digit_char(c) {
                    d.push(c);
                    proof {
                        assert(r.take(j + 1) =~= r.take(j).push(c));
                        j = j + 1;
                    }
                } else {
                    assert(digit_end(r, 0) == j);
                    return d;
                }
            },
        }
    }
}

fn read_week(it: &mut VisChars) -> (d: Vec<char>)
    requires
        old(it).wf(),
    ensures
        final(it).wf(),
        final(it).text() == old(it).text(),
        (d@, final(it).rest()) == week_phase(old(it).rest()),
{
    let ghost r = it.rest();
    let ghost mut j: int = 0;
    loop
        invariant
            it.wf(),
            it.text() == old(it).text(),
            r == old(it).rest(),
            0 <= j <= r.len(),
            it.rest() == r.skip(j),
            find_char_from(r, 'W', 0) == find_char_from(r, 'W', j),
        decreases r.len() - j,
    {
        let ghost before = it.rest();
        match it.next() {
            None => {
                assert(r.skip(j).len() == 0);
                let d: Vec<char> = Vec::new();
                assert(it.rest() =~= Seq::<char>::empty());
                assert(d@ =~= Seq::<char>::empty());
                return d;
            },
            Some(c) => {
                assert(before[0] == c);
                assert(it.rest() =~= before.drop_first());
                assert(r.skip(j)[0] == c);
                assert(it.rest() =~= r.skip(j + 1));
                if c == 'W' {
                    return read_digits(it);
                }
                proof {
                    j = j + 1;
                }
            },
        }
    }
}

fn read_until(it: &mut VisChars, m: &mut Matcher) -> (d: Vec<char>)
    requires
        old(it).wf(),
        old(m).wf(),
        old(m).idx == 0,
    ensures
        final(it).wf(),
        final(it).text() == old(it).text(),
        (d@, final(it).rest()) == until_phase(old(it).rest(), old(m).pat@, old(m).lc),
{
    let ghost r = it.rest();
    let ghost pat = m.pat@;
    let ghost lc = m.lc;
    let mut d: Vec<char> = Vec::new();
    let ghost mut j: int = 0;
    loop
        invariant
            it.wf(),
            it.text() == old(it).text(),
            r == old(it).rest(),
            m.wf(),
            m.pat@ == pat,
            m.lc == lc,
            pat == old(m).pat@,
            lc == old(m).lc,
            0 <= j <= r.len(),
            it.rest() == r.skip(j),
            d@ == r.take(j),
            scan_match(r, 0, pat, lc, 0) == scan_match(r, j, pat, lc, m.idx as int),
        decreases r.len() - j,
    {
        let ghost before = it.rest();
        match it.next() {
            None => {
                assert(r.skip(j).len() == 0);
                assert(it.rest() =~= r.skip(r.len() as int));
                return d;
            },
            Some(c) => {
                assert(before[0] == c);
                assert(it.rest() =~= before.drop_first());
                assert(r.skip(j)[0] == c);
                assert(it.rest() =~= r.skip(j + 1));
                if m.feed(c) {
                    return d;
                }
                d.push(c);
                proof {
                    assert(r.take(j + 1) =~= r.take(j).push(c));
                    j = j + 1;
                }
            },
        }
    }
}

fn read_tail(it: &mut VisChars) -> (r: (Vec<char>, Vec<char>, bool))
    requires
        old(it).wf(),
    ensures
        tail_scan(old(it).rest(), 0, tail_init()).sr0 == r.0@,
        tail_scan(old(it).rest(), 0, tail_init()).sr1 == r.1@,
        tail_scan(old(it).rest(), 0, tail_init()).saw_bounty == r.2,
{
    proof {
        reveal_strlit("drops from ");
        reveal_strlit(" to ");
        reveal_strlit("bounty collected");
    }
    let ghost r = it.rest();
    let mut m_drops = Matcher::new("drops from ", true);
    let mut m_to = Matcher::new(" to ", true);
    let mut m_bounty = Matcher::new("bounty collected", true);
    let mut saw = false;
    let mut phase: u8 = 0;
    let mut sr0: Vec<char> = Vec::new();
    let mut sr1: Vec<char> = Vec::new();
    let ghost mut j: int = 0;
    loop
        invariant
            it.wf(),
            r == old(it).rest(),
            0 <= j <= r.len(),
            it.rest() == r.skip(j),
            m_drops.wf(),
            m_to.wf(),
            m_bounty.wf(),
            m_drops.pat@ == "drops from "@,
            m_to.pat@ == " to "@,
            m_bounty.pat@ == "bounty collected"@,
            m_drops.lc && m_to.lc && m_bounty.lc,
            tail_scan(r, 0, tail_init()) == tail_scan(
                r,
                j,
                TailState {
                    drops: m_drops.idx as int,
                    to: m_to.idx as int,
                    bounty: m_bounty.idx as int,
                    phase: phase as int,
                    saw_bounty: saw,
                    sr0: sr0@,
                    sr1: sr1@,
                },
            ),
        decreases r.len() - j,
    {
        let ghost before = it.rest();
        match it.next() {
            None => {
                assert(r.skip(j).len() == 0);
                return (sr0, sr1, saw);
            },
            Some(c) => {
                assert(before[0] == c);
                assert(it.rest() =~= before.drop_first());
                assert(r.skip(j)[0] == c);
                assert(it.rest() =~= r.skip(j + 1));
                if m_bounty.feed(c) {
                    saw = true;
                }
                if phase == 0 {
                    if m_drops.feed(c) {
                        phase = 1;
                    }
                } else if phase == 1 {
                    if is_digit_char(c) {
                        sr0.push(c);
                    } else if m_to.feed(c) {
                        phase = 3;
                    }
                } else if phase == 3 {
                    if is_digit_char(c) {
                        sr1.push(c);
                    } else {
                        phase = 4;
                    }
                }
                proof {
                    j = j + 1;
                }
            },
        }
    }
}

/// The row of one line, read in one pass over its visible characters;
/// `skip_empty` passes over empty team names when splitting off a team.
pub fn parse_line_fast(line: &[char], season: &[char], names: &Vec<Vec<char>>, skip_empty: bool) -> (r: Option<Vec<Vec<char>>>)
    ensures
        opt_row(r) == fast_line(visible(line@), season@, names.deep_view(), skip_empty),
{
    proof {
        reveal_strlit(" DUR ");
        reveal_strlit(" by ");
        reveal_strlit(" BRU ");
    }
    let mut it = VisChars::of_chars(line);
    let week = read_week(&mut it);
    if week.len() == 0 {
        return None;
    }
    let mut m_dur = Matcher::new(" DUR ", false);
    let pre0 = read_until(&mut it, &mut m_dur);
    if pre0.len() == 0 {
        return None;
    }
    let pre = trim_vec(&drop_suffix_vec(pre0, &chars_of(" DUR")));
    let (vteam, vname0) = match split_team_player_vec(&pre, names, skip_empty) {
        None => return None,
        Some(p) => p,
    };
    let (vname, sr_name) = peel_sr_vec(vname0);
    let dur = read_digits(&mut it);
    if dur.len() == 0 {
        return None;
    }
    let mut m_by = Matcher::new(" by ", true);
    let typ0 = read_until(&mut it, &mut m_by);
    let typ = drop_suffix_vec(trim_vec(&typ0), &chars_of(" by"));
    let mut m_bru = Matcher::new(" BRU ", false);
    let op0 = read_until(&mut it, &mut m_bru);
    let op = trim_vec(&drop_prefix_vec(trim_vec(&drop_suffix_vec(op0, &chars_of(" BRU"))), &chars_of("by ")));
    let (oteam, oname) = split_offender_vec(&op, names, skip_empty);
    let bru = read_digits(&mut it);
    let (sr0a, sr1, saw) = read_tail(&mut it);
    let sr0 = if sr0a.len() == 0 {
        match sr_name {
            Some(d) => d,
            None => sr0a,
        }
    } else {
        sr0a
    };
    let bounty = if saw { chars_of("BOUNTY COLLECTED") } else { Vec::new() };
    let typf = if sr1.len() == 0 && contains_exec(&upper_vec(&typ), &chars_of("KILL")) {
        chars_of("KILLED")
    } else {
        typ
    };
    let mut row: Vec<Vec<char>> = Vec::new();
    let ghost fields = seq![
        season@, week@, vteam@, vname@, dur@, sr0@, sr1@, typf@, oteam@, oname@, bru@, bounty@,
    ];
    push_text(&mut row, sub_vec(season, 0, season.len()));
    assert(season@.subrange(0, season@.len() as int) =~= season@);
    push_text(&mut row, week);
    push_text(&mut row, vteam);
    push_text(&mut row, vname);
    push_text(&mut row, dur);
    push_text(&mut row, sr0);
    push_text(&mut row, sr1);
    push_text(&mut row, typf);
    push_text(&mut row, oteam);
    push_text(&mut row, oname);
    push_text(&mut row, bru);
    push_text(&mut row, bounty);
    assert(row.deep_view() =~= fields);
    Some(row)
}

} // verus!
