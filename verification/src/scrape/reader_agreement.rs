//! Where the two injury readers agree: on a well-formed report line, the
//! keyword reader and the one-pass reader give the same row, and so give
//! the same rows for a report made of such lines.

use vstd::prelude::*;
use crate::text::{
    all_digits, char_is_ws, contains, find_from, is_ascii_letter, is_digit, leading_digits, lemma_find_from, lower,
    lower_seq, match_at, trim, trim_end, trim_start, upper, upper_seq,
};
use crate::scrape::team_prefix::{split_offender, split_team_player};
use crate::scrape::injuries::{
    chunk_rows, doc_rows, indexed_reader_matches_plain, line_row, plain_line, plain_lines_read_alike, LineReader,
};
use crate::scrape::injury_line::{peel_sr, slow_fields, sr_pair};
use crate::tokens::{digits_past_ws, has_prefix, has_suffix};
use crate::scrape::injury_stream::{
    byte_of, digit_end, digits_phase, fast_line, feed, past, scan_match, tail_init, tail_scan, tail_step, until_phase,
    week_phase, TailState,
};

verus! {

/* ---------------- finding a keyword ---------------- */

pub(crate) proof fn lemma_find_first(s: Seq<char>, p: Seq<char>, j: int)
    requires
        0 <= j,
        match_at(s, p, j),
        forall|i: int| 0 <= i < j ==> !#[trigger] match_at(s, p, i),
    ensures
        find_from(s, p, 0) == Some(j),
{
    lemma_find_from(s, p, 0);
    match find_from(s, p, 0) {
        Some(k) => {
            if k < j {
                assert(!match_at(s, p, k));
            }
            if k > j {
                assert(!match_at(s, p, j));
            }
        },
        None => {
            assert(!match_at(s, p, j));
        },
    }
}

/// `p` occurs in `x + p + rest` first right after `x`, when `x` lacks the
/// character `p[m]` that no earlier character of `p` equals.
proof fn lemma_no_early_match(x: Seq<char>, p: Seq<char>, rest: Seq<char>, m: int)
    requires
        0 < m < p.len(),
        !x.contains(p[m]),
        forall|t: int| 0 <= t < m ==> p[t] != p[m],
    ensures
        forall|i: int| 0 <= i < x.len() ==> !#[trigger] match_at(x + p + rest, p, i),
        match_at(x + p + rest, p, x.len() as int),
{
    let s = x + p + rest;
    assert forall|i: int| 0 <= i < x.len() implies !#[trigger] match_at(s, p, i) by {
        if match_at(s, p, i) {
            assert(s.subrange(i, i + p.len())[m] == s[i + m]);
            if i + m < x.len() {
                assert(s[i + m] == x[i + m]);
                assert(x.contains(p[m]));
            } else {
                let t = i + m - x.len();
                assert(s[i + m] == p[t]);
            }
        }
    }
    assert(s.subrange(x.len() as int, x.len() + p.len() as int) =~= p);
}

/* ---------------- digit runs ---------------- */

pub(crate) proof fn lemma_leading_digits_run(d: Seq<char>, x: Seq<char>)
    requires
        all_digits(d),
        x.len() == 0 || !is_digit(x[0]),
    ensures
        leading_digits(d + x) == d,
    decreases d.len(),
{
    if d.len() == 0 {
        assert(d + x =~= x);
    } else {
        assert(is_digit(d[0]));
        assert((d + x)[0] == d[0]);
        assert((d + x).drop_first() =~= d.drop_first() + x);
        assert(all_digits(d.drop_first())) by {
            assert forall|k: int| 0 <= k < d.drop_first().len() implies is_digit(#[trigger] d.drop_first()[k]) by {
                assert(d.drop_first()[k] == d[k + 1]);
            }
        }
        lemma_leading_digits_run(d.drop_first(), x);
        assert(d =~= seq![d[0]] + d.drop_first());
    }
}

proof fn lemma_digit_end_run(d: Seq<char>, x: Seq<char>, k: int)
    requires
        all_digits(d),
        x.len() == 0 || !is_digit(x[0]),
        0 <= k <= d.len(),
    ensures
        digit_end(d + x, k) == d.len(),
    decreases d.len() - k,
{
    if k < d.len() {
        assert((d + x)[k] == d[k]);
        lemma_digit_end_run(d, x, k + 1);
    } else if x.len() > 0 {
        assert((d + x)[k] == x[0]);
    }
}

/* ---------------- the streaming matcher ---------------- */

/// What the matcher compares of a character.
pub open spec fn key_char(lc: bool, ch: char) -> u32 {
    byte_of(if lc { lower(ch) } else { ch })
}

/// Over characters that lack `pat[m]`, the matcher never gets past state
/// `m`, so it reports no match.
proof fn lemma_scan_skip(r: Seq<char>, k: int, e: int, pat: Seq<char>, lc: bool, idx: int, m: int) -> (j: int)
    requires
        0 <= k <= e <= r.len(),
        1 <= m,
        m + 1 < pat.len(),
        0 <= idx <= m,
        forall|i: int| k <= i < e ==> key_char(lc, #[trigger] r[i]) != pat[m] as u32,
    ensures
        0 <= j <= m,
        scan_match(r, k, pat, lc, idx) == scan_match(r, e, pat, lc, j),
    decreases e - k,
{
    if k == e {
        idx
    } else {
        let (i2, hit) = feed(pat, lc, idx, r[k]);
        assert(key_char(lc, r[k]) != pat[m] as u32);
        assert(!hit);
        assert(0 <= i2 <= m);
        lemma_scan_skip(r, k + 1, e, pat, lc, i2, m)
    }
}

proof fn lemma_scan_rest_of_keyword(r: Seq<char>, e: int, pat: Seq<char>, lc: bool, t: int)
    requires
        0 <= e,
        e + pat.len() <= r.len(),
        1 <= t < pat.len(),
        forall|q: int| 0 <= q < pat.len() ==> key_char(lc, #[trigger] r[e + q]) == pat[q] as u32,
    ensures
        scan_match(r, e + t, pat, lc, t) == Some(e + pat.len() - 1),
    decreases pat.len() - t,
{
    assert(key_char(lc, r[e + t]) == pat[t] as u32);
    if t + 1 < pat.len() {
        lemma_scan_rest_of_keyword(r, e, pat, lc, t + 1);
    }
}

/// From a state whose expected characters differ from the keyword's first,
/// reading the keyword reports a match on its last character.
proof fn lemma_scan_keyword(r: Seq<char>, e: int, pat: Seq<char>, lc: bool, j: int)
    requires
        0 <= e,
        e + pat.len() <= r.len(),
        pat.len() >= 2,
        0 <= j < pat.len(),
        forall|t: int| 1 <= t <= j ==> #[trigger] (pat[t] as u32) != (pat[0] as u32),
        forall|q: int| 0 <= q < pat.len() ==> key_char(lc, #[trigger] r[e + q]) == pat[q] as u32,
    ensures
        scan_match(r, e, pat, lc, j) == Some(e + pat.len() - 1),
{
    assert(key_char(lc, r[e + 0]) == pat[0] as u32);
    if j > 0 {
        assert((pat[j] as u32) != (pat[0] as u32));
    }
    lemma_scan_rest_of_keyword(r, e, pat, lc, 1);
}

/// Reading `x + pat + rest` until `pat` gives `x` and the keyword but its
/// last character, then `rest`.
proof fn lemma_until(x: Seq<char>, pat: Seq<char>, rest: Seq<char>, lc: bool, m: int)
    requires
        1 <= m,
        m + 1 < pat.len(),
        forall|t: int| 1 <= t <= m ==> #[trigger] (pat[t] as u32) != (pat[0] as u32),
        forall|i: int| 0 <= i < x.len() ==> key_char(lc, #[trigger] x[i]) != pat[m] as u32,
        forall|q: int| 0 <= q < pat.len() ==> key_char(lc, #[trigger] pat[q]) == pat[q] as u32,
    ensures
        until_phase(x + pat + rest, pat, lc) == (x + pat.drop_last(), rest),
{
    let r = x + pat + rest;
    let e = x.len() as int;
    assert forall|i: int| 0 <= i < e implies key_char(lc, #[trigger] r[i]) != pat[m] as u32 by {
        assert(r[i] == x[i]);
    }
    let j = lemma_scan_skip(r, 0, e, pat, lc, 0, m);
    assert forall|q: int| 0 <= q < pat.len() implies key_char(lc, #[trigger] r[e + q]) == pat[q] as u32 by {
        assert(r[e + q] == pat[q]);
    }
    lemma_scan_keyword(r, e, pat, lc, j);
    let mm = e + pat.len() - 1;
    assert(past(r, mm) == mm + 1);
    assert(r.take(mm) =~= x + pat.drop_last());
    assert(r.skip(mm + 1) =~= rest);
}

proof fn lemma_digits_phase(d: Seq<char>, c: char, rest: Seq<char>)
    requires
        all_digits(d),
        !is_digit(c),
    ensures
        digits_phase(d + seq![c] + rest) == (d, rest),
{
    let r = d + seq![c] + rest;
    assert(r =~= d + (seq![c] + rest));
    lemma_digit_end_run(d, seq![c] + rest, 0);
    assert(r.take(d.len() as int) =~= d);
    assert(r.skip(d.len() as int + 1) =~= rest);
}

/* ---------------- the tail of a line ---------------- */

proof fn lemma_tail_shift(x: Seq<char>, y: Seq<char>, i: int, st: TailState)
    requires
        0 <= i <= y.len(),
    ensures
        tail_scan(x + y, x.len() + i, st) == tail_scan(y, i, st),
    decreases y.len() - i,
{
    if i < y.len() {
        assert((x + y)[x.len() + i] == y[i]);
        lemma_tail_shift(x, y, i + 1, tail_step(st, y[i]));
    }
}

proof fn lemma_tail_concat(x: Seq<char>, y: Seq<char>, k: int, st: TailState)
    requires
        0 <= k <= x.len(),
    ensures
        tail_scan(x + y, k, st) == tail_scan(y, 0, tail_scan(x, k, st)),
    decreases x.len() - k,
{
    if k < x.len() {
        assert((x + y)[k] == x[k]);
        lemma_tail_concat(x, y, k + 1, tail_step(st, x[k]));
    } else {
        lemma_tail_shift(x, y, 0, st);
    }
}

/// The state once `"SR Drops from "` is read: the ratings come next.
pub open spec fn after_drops() -> TailState {
    TailState { drops: 0, to: 0, bounty: 0, phase: 1, saw_bounty: false, sr0: Seq::empty(), sr1: Seq::empty() }
}

proof fn lemma_tail_head()
    ensures
        tail_scan("SR Drops from "@, 0, tail_init()) == after_drops(),
{
    reveal_strlit("SR Drops from ");
    reveal_strlit("drops from ");
    reveal_strlit("bounty collected");
    let t = "SR Drops from "@;
    assert(tail_step(TailState { drops: 0, to: 0, bounty: 0, phase: 0, saw_bounty: false, sr0: Seq::empty(), sr1: Seq::empty() }, t[0]) == TailState { drops: 0, to: 0, bounty: 0, phase: 0, saw_bounty: false, sr0: Seq::empty(), sr1: Seq::empty() });
    assert(tail_step(TailState { drops: 0, to: 0, bounty: 0, phase: 0, saw_bounty: false, sr0: Seq::empty(), sr1: Seq::empty() }, t[1]) == TailState { drops: 0, to: 0, bounty: 0, phase: 0, saw_bounty: false, sr0: Seq::empty(), sr1: Seq::empty() });
    assert(tail_step(TailState { drops: 0, to: 0, bounty: 0, phase: 0, saw_bounty: false, sr0: Seq::empty(), sr1: Seq::empty() }, t[2]) == TailState { drops: 0, to: 0, bounty: 0, phase: 0, saw_bounty: false, sr0: Seq::empty(), sr1: Seq::empty() });
    assert(tail_step(TailState { drops: 0, to: 0, bounty: 0, phase: 0, saw_bounty: false, sr0: Seq::empty(), sr1: Seq::empty() }, t[3]) == TailState { drops: 1, to: 0, bounty: 0, phase: 0, saw_bounty: false, sr0: Seq::empty(), sr1: Seq::empty() });
    assert(tail_step(TailState { drops: 1, to: 0, bounty: 0, phase: 0, saw_bounty: false, sr0: Seq::empty(), sr1: Seq::empty() }, t[4]) == TailState { drops: 2, to: 0, bounty: 0, phase: 0, saw_bounty: false, sr0: Seq::empty(), sr1: Seq::empty() });
    assert(tail_step(TailState { drops: 2, to: 0, bounty: 0, phase: 0, saw_bounty: false, sr0: Seq::empty(), sr1: Seq::empty() }, t[5]) == TailState { drops: 3, to: 0, bounty: 0, phase: 0, saw_bounty: false, sr0: Seq::empty(), sr1: Seq::empty() });
    assert(tail_step(TailState { drops: 3, to: 0, bounty: 0, phase: 0, saw_bounty: false, sr0: Seq::empty(), sr1: Seq::empty() }, t[6]) == TailState { drops: 4, to: 0, bounty: 0, phase: 0, saw_bounty: false, sr0: Seq::empty(), sr1: Seq::empty() });
    assert(tail_step(TailState { drops: 4, to: 0, bounty: 0, phase: 0, saw_bounty: false, sr0: Seq::empty(), sr1: Seq::empty() }, t[7]) == TailState { drops: 5, to: 0, bounty: 0, phase: 0, saw_bounty: false, sr0: Seq::empty(), sr1: Seq::empty() });
    assert(tail_step(TailState { drops: 5, to: 0, bounty: 0, phase: 0, saw_bounty: false, sr0: Seq::empty(), sr1: Seq::empty() }, t[8]) == TailState { drops: 6, to: 0, bounty: 0, phase: 0, saw_bounty: false, sr0: Seq::empty(), sr1: Seq::empty() });
    assert(tail_step(TailState { drops: 6, to: 0, bounty: 0, phase: 0, saw_bounty: false, sr0: Seq::empty(), sr1: Seq::empty() }, t[9]) == TailState { drops: 7, to: 0, bounty: 0, phase: 0, saw_bounty: false, sr0: Seq::empty(), sr1: Seq::empty() });
    assert(tail_step(TailState { drops: 7, to: 0, bounty: 0, phase: 0, saw_bounty: false, sr0: Seq::empty(), sr1: Seq::empty() }, t[10]) == TailState { drops: 8, to: 0, bounty: 0, phase: 0, saw_bounty: false, sr0: Seq::empty(), sr1: Seq::empty() });
    assert(tail_step(TailState { drops: 8, to: 0, bounty: 0, phase: 0, saw_bounty: false, sr0: Seq::empty(), sr1: Seq::empty() }, t[11]) == TailState { drops: 9, to: 0, bounty: 0, phase: 0, saw_bounty: false, sr0: Seq::empty(), sr1: Seq::empty() });
    assert(tail_step(TailState { drops: 9, to: 0, bounty: 0, phase: 0, saw_bounty: false, sr0: Seq::empty(), sr1: Seq::empty() }, t[12]) == TailState { drops: 10, to: 0, bounty: 0, phase: 0, saw_bounty: false, sr0: Seq::empty(), sr1: Seq::empty() });
    assert(tail_step(TailState { drops: 10, to: 0, bounty: 0, phase: 0, saw_bounty: false, sr0: Seq::empty(), sr1: Seq::empty() }, t[13]) == TailState { drops: 0, to: 0, bounty: 0, phase: 1, saw_bounty: false, sr0: Seq::empty(), sr1: Seq::empty() });
    assert(tail_scan(t, 13, TailState { drops: 10, to: 0, bounty: 0, phase: 0, saw_bounty: false, sr0: Seq::empty(), sr1: Seq::empty() }) == tail_scan(t, 14, TailState { drops: 0, to: 0, bounty: 0, phase: 1, saw_bounty: false, sr0: Seq::empty(), sr1: Seq::empty() }));
    assert(tail_scan(t, 12, TailState { drops: 9, to: 0, bounty: 0, phase: 0, saw_bounty: false, sr0: Seq::empty(), sr1: Seq::empty() }) == tail_scan(t, 13, TailState { drops: 10, to: 0, bounty: 0, phase: 0, saw_bounty: false, sr0: Seq::empty(), sr1: Seq::empty() }));
    assert(tail_scan(t, 11, TailState { drops: 8, to: 0, bounty: 0, phase: 0, saw_bounty: false, sr0: Seq::empty(), sr1: Seq::empty() }) == tail_scan(t, 12, TailState { drops: 9, to: 0, bounty: 0, phase: 0, saw_bounty: false, sr0: Seq::empty(), sr1: Seq::empty() }));
    assert(tail_scan(t, 10, TailState { drops: 7, to: 0, bounty: 0, phase: 0, saw_bounty: false, sr0: Seq::empty(), sr1: Seq::empty() }) == tail_scan(t, 11, TailState { drops: 8, to: 0, bounty: 0, phase: 0, saw_bounty: false, sr0: Seq::empty(), sr1: Seq::empty() }));
    assert(tail_scan(t, 9, TailState { drops: 6, to: 0, bounty: 0, phase: 0, saw_bounty: false, sr0: Seq::empty(), sr1: Seq::empty() }) == tail_scan(t, 10, TailState { drops: 7, to: 0, bounty: 0, phase: 0, saw_bounty: false, sr0: Seq::empty(), sr1: Seq::empty() }));
    assert(tail_scan(t, 8, TailState { drops: 5, to: 0, bounty: 0, phase: 0, saw_bounty: false, sr0: Seq::empty(), sr1: Seq::empty() }) == tail_scan(t, 9, TailState { drops: 6, to: 0, bounty: 0, phase: 0, saw_bounty: false, sr0: Seq::empty(), sr1: Seq::empty() }));
    assert(tail_scan(t, 7, TailState { drops: 4, to: 0, bounty: 0, phase: 0, saw_bounty: false, sr0: Seq::empty(), sr1: Seq::empty() }) == tail_scan(t, 8, TailState { drops: 5, to: 0, bounty: 0, phase: 0, saw_bounty: false, sr0: Seq::empty(), sr1: Seq::empty() }));
    assert(tail_scan(t, 6, TailState { drops: 3, to: 0, bounty: 0, phase: 0, saw_bounty: false, sr0: Seq::empty(), sr1: Seq::empty() }) == tail_scan(t, 7, TailState { drops: 4, to: 0, bounty: 0, phase: 0, saw_bounty: false, sr0: Seq::empty(), sr1: Seq::empty() }));
    assert(tail_scan(t, 5, TailState { drops: 2, to: 0, bounty: 0, phase: 0, saw_bounty: false, sr0: Seq::empty(), sr1: Seq::empty() }) == tail_scan(t, 6, TailState { drops: 3, to: 0, bounty: 0, phase: 0, saw_bounty: false, sr0: Seq::empty(), sr1: Seq::empty() }));
    assert(tail_scan(t, 4, TailState { drops: 1, to: 0, bounty: 0, phase: 0, saw_bounty: false, sr0: Seq::empty(), sr1: Seq::empty() }) == tail_scan(t, 5, TailState { drops: 2, to: 0, bounty: 0, phase: 0, saw_bounty: false, sr0: Seq::empty(), sr1: Seq::empty() }));
    assert(tail_scan(t, 3, TailState { drops: 0, to: 0, bounty: 0, phase: 0, saw_bounty: false, sr0: Seq::empty(), sr1: Seq::empty() }) == tail_scan(t, 4, TailState { drops: 1, to: 0, bounty: 0, phase: 0, saw_bounty: false, sr0: Seq::empty(), sr1: Seq::empty() }));
    assert(tail_scan(t, 2, TailState { drops: 0, to: 0, bounty: 0, phase: 0, saw_bounty: false, sr0: Seq::empty(), sr1: Seq::empty() }) == tail_scan(t, 3, TailState { drops: 0, to: 0, bounty: 0, phase: 0, saw_bounty: false, sr0: Seq::empty(), sr1: Seq::empty() }));
    assert(tail_scan(t, 1, TailState { drops: 0, to: 0, bounty: 0, phase: 0, saw_bounty: false, sr0: Seq::empty(), sr1: Seq::empty() }) == tail_scan(t, 2, TailState { drops: 0, to: 0, bounty: 0, phase: 0, saw_bounty: false, sr0: Seq::empty(), sr1: Seq::empty() }));
    assert(tail_scan(t, 0, TailState { drops: 0, to: 0, bounty: 0, phase: 0, saw_bounty: false, sr0: Seq::empty(), sr1: Seq::empty() }) == tail_scan(t, 1, TailState { drops: 0, to: 0, bounty: 0, phase: 0, saw_bounty: false, sr0: Seq::empty(), sr1: Seq::empty() }));
}

/// The state after digits `d` were read into the first (or second) rating.
pub open spec fn digits_read(st: TailState, d: Seq<char>, first: bool) -> TailState {
    if first {
        TailState { sr0: st.sr0 + d, ..st }
    } else {
        TailState { sr1: st.sr1 + d, ..st }
    }
}

/// Reading the first rating `a`.
pub open spec fn reading_first(a: Seq<char>) -> TailState {
    TailState { sr0: a, ..after_drops() }
}

/// Reading the second rating, after the first was `a`.
pub open spec fn reading_second(a: Seq<char>) -> TailState {
    TailState { phase: 3, sr0: a, ..after_drops() }
}

/// Both ratings read.
pub open spec fn ratings_read(a: Seq<char>, b: Seq<char>) -> TailState {
    TailState { phase: 3, sr0: a, sr1: b, ..after_drops() }
}

proof fn lemma_tail_digits(d: Seq<char>, k: int, st: TailState, first: bool)
    requires
        all_digits(d),
        0 <= k <= d.len(),
        st.bounty == 0,
        st.phase == (if first { 1int } else { 3int }),
    ensures
        tail_scan(d, k, st) == digits_read(st, d.skip(k), first),
    decreases d.len() - k,
{
    reveal_strlit("bounty collected");
    if k < d.len() {
        let c = d[k];
        assert(is_digit(c));
        assert(lower(c) == c);
        assert(byte_of(c) == c as u32);
        let st2 = tail_step(st, c);
        if first {
            assert(st2 == TailState { sr0: st.sr0.push(c), ..st });
            lemma_tail_digits(d, k + 1, st2, first);
            assert(st.sr0.push(c) + d.skip(k + 1) =~= st.sr0 + d.skip(k));
        } else {
            assert(st2 == TailState { sr1: st.sr1.push(c), ..st });
            lemma_tail_digits(d, k + 1, st2, first);
            assert(st.sr1.push(c) + d.skip(k + 1) =~= st.sr1 + d.skip(k));
        }
    } else {
        assert(d.skip(k) =~= Seq::<char>::empty());
        assert(st.sr0 + d.skip(k) =~= st.sr0);
        assert(st.sr1 + d.skip(k) =~= st.sr1);
    }
}

proof fn lemma_tail_to(a: Seq<char>)
    ensures
        tail_scan(" to "@, 0, reading_first(a)) == reading_second(a),
{
    reveal_strlit(" to ");
    reveal_strlit("bounty collected");
    let t = " to "@;
    let s0 = TailState { sr0: a, ..after_drops() };
    let s1 = TailState { to: 1, sr0: a, ..after_drops() };
    let s2 = TailState { to: 2, sr0: a, ..after_drops() };
    let s3 = TailState { to: 3, sr0: a, ..after_drops() };
    let s4 = TailState { phase: 3, sr0: a, ..after_drops() };
    assert(tail_step(s0, t[0]) == s1);
    assert(tail_step(s1, t[1]) == s2);
    assert(tail_step(s2, t[2]) == s3);
    assert(tail_step(s3, t[3]) == s4);
    assert(tail_scan(t, 3, s3) == tail_scan(t, 4, s4));
    assert(tail_scan(t, 2, s2) == tail_scan(t, 3, s3));
    assert(tail_scan(t, 1, s1) == tail_scan(t, 2, s2));
    assert(tail_scan(t, 0, s0) == tail_scan(t, 1, s1));
}

/// The tail `"SR Drops from <a> to <b>"` gives the ratings `a` and `b`
/// and no bounty.
proof fn lemma_tail(a: Seq<char>, b: Seq<char>)
    requires
        all_digits(a),
        all_digits(b),
    ensures
        tail_scan("SR Drops from "@ + a + " to "@ + b, 0, tail_init()) == ratings_read(a, b),
{
    let t = "SR Drops from "@;
    let x = t + a + " to "@;
    lemma_tail_concat(x, b, 0, tail_init());
    lemma_tail_concat(t + a, " to "@, 0, tail_init());
    lemma_tail_concat(t, a, 0, tail_init());
    lemma_tail_head();
    lemma_tail_digits(a, 0, after_drops(), true);
    assert(Seq::<char>::empty() + a.skip(0) =~= a);
    assert(digits_read(after_drops(), a.skip(0), true) == reading_first(a));
    lemma_tail_to(a);
    lemma_tail_digits(b, 0, reading_second(a), false);
    assert(Seq::<char>::empty() + b.skip(0) =~= b);
    assert(digits_read(reading_second(a), b.skip(0), false) == ratings_read(a, b));
}

/// The state once ` BOUNTY COLLECTED` has been read after the ratings
/// `a` and `b`, with the bounty matcher at `n`.
spec fn bounty_at(a: Seq<char>, b: Seq<char>, n: int, saw: bool) -> TailState {
    TailState { phase: 4, bounty: n, saw_bounty: saw, sr0: a, sr1: b, ..after_drops() }
}

/// Both ratings read, then the collected bounty.
pub open spec fn bounty_read(a: Seq<char>, b: Seq<char>) -> TailState {
    TailState { phase: 4, saw_bounty: true, sr0: a, sr1: b, ..after_drops() }
}

proof fn lemma_tail_bounty(a: Seq<char>, b: Seq<char>)
    ensures
        tail_scan(" BOUNTY COLLECTED"@, 0, ratings_read(a, b)) == bounty_read(a, b),
{
    reveal_strlit(" BOUNTY COLLECTED");
    reveal_strlit("bounty collected");
    let t = " BOUNTY COLLECTED"@;
    assert(tail_step(ratings_read(a, b), t[0]) == bounty_at(a, b, 0, false));
    assert(tail_step(bounty_at(a, b, 0, false), t[1]) == bounty_at(a, b, 1, false));
    assert(tail_step(bounty_at(a, b, 1, false), t[2]) == bounty_at(a, b, 2, false));
    assert(tail_step(bounty_at(a, b, 2, false), t[3]) == bounty_at(a, b, 3, false));
    assert(tail_step(bounty_at(a, b, 3, false), t[4]) == bounty_at(a, b, 4, false));
    assert(tail_step(bounty_at(a, b, 4, false), t[5]) == bounty_at(a, b, 5, false));
    assert(tail_step(bounty_at(a, b, 5, false), t[6]) == bounty_at(a, b, 6, false));
    assert(tail_step(bounty_at(a, b, 6, false), t[7]) == bounty_at(a, b, 7, false));
    assert(tail_step(bounty_at(a, b, 7, false), t[8]) == bounty_at(a, b, 8, false));
    assert(tail_step(bounty_at(a, b, 8, false), t[9]) == bounty_at(a, b, 9, false));
    assert(tail_step(bounty_at(a, b, 9, false), t[10]) == bounty_at(a, b, 10, false));
    assert(tail_step(bounty_at(a, b, 10, false), t[11]) == bounty_at(a, b, 11, false));
    assert(tail_step(bounty_at(a, b, 11, false), t[12]) == bounty_at(a, b, 12, false));
    assert(tail_step(bounty_at(a, b, 12, false), t[13]) == bounty_at(a, b, 13, false));
    assert(tail_step(bounty_at(a, b, 13, false), t[14]) == bounty_at(a, b, 14, false));
    assert(tail_step(bounty_at(a, b, 14, false), t[15]) == bounty_at(a, b, 15, false));
    assert(tail_step(bounty_at(a, b, 15, false), t[16]) == bounty_at(a, b, 0, true));
    assert(bounty_at(a, b, 0, true) == bounty_read(a, b));
    assert(tail_scan(t, 16, bounty_at(a, b, 15, false)) == tail_scan(t, 17, bounty_at(a, b, 0, true)));
    assert(tail_scan(t, 15, bounty_at(a, b, 14, false)) == tail_scan(t, 16, bounty_at(a, b, 15, false)));
    assert(tail_scan(t, 14, bounty_at(a, b, 13, false)) == tail_scan(t, 15, bounty_at(a, b, 14, false)));
    assert(tail_scan(t, 13, bounty_at(a, b, 12, false)) == tail_scan(t, 14, bounty_at(a, b, 13, false)));
    assert(tail_scan(t, 12, bounty_at(a, b, 11, false)) == tail_scan(t, 13, bounty_at(a, b, 12, false)));
    assert(tail_scan(t, 11, bounty_at(a, b, 10, false)) == tail_scan(t, 12, bounty_at(a, b, 11, false)));
    assert(tail_scan(t, 10, bounty_at(a, b, 9, false)) == tail_scan(t, 11, bounty_at(a, b, 10, false)));
    assert(tail_scan(t, 9, bounty_at(a, b, 8, false)) == tail_scan(t, 10, bounty_at(a, b, 9, false)));
    assert(tail_scan(t, 8, bounty_at(a, b, 7, false)) == tail_scan(t, 9, bounty_at(a, b, 8, false)));
    assert(tail_scan(t, 7, bounty_at(a, b, 6, false)) == tail_scan(t, 8, bounty_at(a, b, 7, false)));
    assert(tail_scan(t, 6, bounty_at(a, b, 5, false)) == tail_scan(t, 7, bounty_at(a, b, 6, false)));
    assert(tail_scan(t, 5, bounty_at(a, b, 4, false)) == tail_scan(t, 6, bounty_at(a, b, 5, false)));
    assert(tail_scan(t, 4, bounty_at(a, b, 3, false)) == tail_scan(t, 5, bounty_at(a, b, 4, false)));
    assert(tail_scan(t, 3, bounty_at(a, b, 2, false)) == tail_scan(t, 4, bounty_at(a, b, 3, false)));
    assert(tail_scan(t, 2, bounty_at(a, b, 1, false)) == tail_scan(t, 3, bounty_at(a, b, 2, false)));
    assert(tail_scan(t, 1, bounty_at(a, b, 0, false)) == tail_scan(t, 2, bounty_at(a, b, 1, false)));
    assert(tail_scan(t, 0, ratings_read(a, b)) == tail_scan(t, 1, bounty_at(a, b, 0, false)));
}

/// The state after the whole tail: the ratings, and the bounty when `k`.
pub open spec fn tail_final(a: Seq<char>, b: Seq<char>, k: bool) -> TailState {
    if k { bounty_read(a, b) } else { ratings_read(a, b) }
}

proof fn lemma_tail_k(a: Seq<char>, b: Seq<char>, k: bool)
    requires
        all_digits(a),
        all_digits(b),
    ensures
        tail_scan(tail_text(a, b, k), 0, tail_init()) == tail_final(a, b, k),
{
    let base = "SR Drops from "@ + a + " to "@ + b;
    lemma_tail(a, b);
    if k {
        lemma_tail_concat(base, " BOUNTY COLLECTED"@, 0, tail_init());
        lemma_tail_bounty(a, b);
    } else {
        assert(tail_text(a, b, k) =~= base);
    }
}

/* ---------------- a well-formed report line ---------------- */

/// Letters and single spaces, starting and ending with a letter.
pub open spec fn word_text(x: Seq<char>) -> bool {
    &&& x.len() > 0
    &&& forall|i: int| 0 <= i < x.len() ==> is_ascii_letter(#[trigger] x[i]) || x[i] == ' '
    &&& is_ascii_letter(x[0])
    &&& is_ascii_letter(x.last())
}

/// One or more digits.
pub open spec fn digit_text(d: Seq<char>) -> bool {
    d.len() > 0 && all_digits(d)
}

/// What a line says after the ratings: `" BOUNTY COLLECTED"` when `k`, else nothing.
pub open spec fn bounty_text(k: bool) -> Seq<char> {
    if k { " BOUNTY COLLECTED"@ } else { Seq::empty() }
}

/// The Bounty column of a row: `"BOUNTY COLLECTED"` when `k`, else empty.
pub open spec fn bounty_cell(k: bool) -> Seq<char> {
    if k { "BOUNTY COLLECTED"@ } else { Seq::empty() }
}

pub open spec fn tail_text(a: Seq<char>, b: Seq<char>, k: bool) -> Seq<char> {
    "SR Drops from "@ + a + " to "@ + b + bounty_text(k)
}

pub open spec fn after_op_text(bru: Seq<char>, a: Seq<char>, b: Seq<char>, k: bool) -> Seq<char> {
    bru + " "@ + tail_text(a, b, k)
}

pub open spec fn after_ty_text(op: Seq<char>, bru: Seq<char>, a: Seq<char>, b: Seq<char>, k: bool) -> Seq<char> {
    op + " BRU "@ + after_op_text(bru, a, b, k)
}

pub open spec fn after_dur_text(ty: Seq<char>, op: Seq<char>, bru: Seq<char>, a: Seq<char>, b: Seq<char>, k: bool) -> Seq<char> {
    ty + " by "@ + after_ty_text(op, bru, a, b, k)
}

pub open spec fn after_pre_text(dur: Seq<char>, ty: Seq<char>, op: Seq<char>, bru: Seq<char>, a: Seq<char>, b: Seq<char>, k: bool) -> Seq<char> {
    dur + " "@ + after_dur_text(ty, op, bru, a, b, k)
}

pub open spec fn after_week_text(
    pre: Seq<char>,
    dur: Seq<char>,
    ty: Seq<char>,
    op: Seq<char>,
    bru: Seq<char>,
    a: Seq<char>,
    b: Seq<char>,
    k: bool,
) -> Seq<char> {
    pre + " DUR "@ + after_pre_text(dur, ty, op, bru, a, b, k)
}

/// `W<wk> <pre> DUR <dur> <ty> by <op> BRU <bru> SR Drops from <a> to <b>`,
/// followed by ` BOUNTY COLLECTED` when `k`.
pub open spec fn report_line(
    wk: Seq<char>,
    pre: Seq<char>,
    dur: Seq<char>,
    ty: Seq<char>,
    op: Seq<char>,
    bru: Seq<char>,
    a: Seq<char>,
    b: Seq<char>,
    k: bool,
) -> Seq<char> {
    "W"@ + wk + " "@ + after_week_text(pre, dur, ty, op, bru, a, b, k)
}

/// The parts of a report line that both readers read alike: digits where
/// figures stand; letters and single spaces for the victim (`pre`), the
/// type (`ty`) and the offender (`op`), the victim part without a `D`, the
/// type without a `y` or `Y`, the offender part without a `B` and not
/// starting with `by ` (any case).
pub open spec fn report_parts_ok(
    wk: Seq<char>,
    pre: Seq<char>,
    dur: Seq<char>,
    ty: Seq<char>,
    op: Seq<char>,
    bru: Seq<char>,
    a: Seq<char>,
    b: Seq<char>,
) -> bool {
    &&& digit_text(wk) && digit_text(dur) && digit_text(bru) && digit_text(a) && digit_text(b)
    &&& word_text(pre) && word_text(ty) && word_text(op)
    &&& !pre.contains('D')
    &&& !ty.contains('y') && !ty.contains('Y')
    &&& !op.contains('B')
    &&& !has_prefix(lower_seq(op), "by "@)
}

/// The row both readers give for such a line.
pub open spec fn report_row(
    season: Seq<char>,
    names: Seq<Seq<char>>,
    wk: Seq<char>,
    pre: Seq<char>,
    dur: Seq<char>,
    ty: Seq<char>,
    op: Seq<char>,
    bru: Seq<char>,
    a: Seq<char>,
    b: Seq<char>,
    k: bool,
) -> Option<Seq<Seq<char>>> {
    match split_team_player(pre, names, false) {
        None => None,
        Some((vteam, vname0)) => {
            let vname = peel_sr(vname0).0;
            let (oteam, oname) = split_offender(op, names, false);
            Some(seq![season, wk, vteam, vname, dur, a, b, ty, oteam, oname, bru, bounty_cell(k)])
        },
    }
}

proof fn lemma_letter(c: char)
    requires
        is_ascii_letter(c),
    ensures
        !char_is_ws(c),
        !is_digit(c),
        byte_of(c) == c as u32,
        byte_of(lower(c)) == lower(c) as u32,
        (c != 'y' && c != 'Y') ==> lower(c) != 'y',
{
}

proof fn lemma_trim_word(x: Seq<char>)
    requires
        x.len() > 0,
        !char_is_ws(x[0]),
        !char_is_ws(x.last()),
    ensures
        trim(x) == x,
        trim_start(x) == x,
        trim_end(x) == x,
{
    crate::text::lemma_trim_plain(x);
}

proof fn lemma_fast_report(
    season: Seq<char>,
    names: Seq<Seq<char>>,
    wk: Seq<char>,
    pre: Seq<char>,
    dur: Seq<char>,
    ty: Seq<char>,
    op: Seq<char>,
    bru: Seq<char>,
    a: Seq<char>,
    b: Seq<char>,
    k: bool,
)
    requires
        report_parts_ok(wk, pre, dur, ty, op, bru, a, b),
    ensures
        fast_line(report_line(wk, pre, dur, ty, op, bru, a, b, k), season, names, false) == report_row(
            season,
            names,
            wk,
            pre,
            dur,
            ty,
            op,
            bru,
            a,
            b,
            k,
        ),
{
    reveal_strlit("W");
    reveal_strlit(" ");
    reveal_strlit(" DUR ");
    reveal_strlit(" DUR");
    reveal_strlit(" by ");
    reveal_strlit(" by");
    reveal_strlit(" BRU ");
    reveal_strlit(" BRU");
    reveal_strlit("by ");
    let line = report_line(wk, pre, dur, ty, op, bru, a, b, k);
    let r1 = after_week_text(pre, dur, ty, op, bru, a, b, k);
    let r2 = after_pre_text(dur, ty, op, bru, a, b, k);
    let r3 = after_dur_text(ty, op, bru, a, b, k);
    let r4 = after_ty_text(op, bru, a, b, k);
    let r5 = after_op_text(bru, a, b, k);
    let r6 = tail_text(a, b, k);
    // the week
    assert(line[0] == 'W');
    assert(crate::text::find_char_from(line, 'W', 0) == Some(0int));
    assert(line.skip(1) =~= wk + seq![' '] + r1);
    lemma_digits_phase(wk, ' ', r1);
    assert(week_phase(line) == (wk, r1));
    // the victim
    let p1 = " DUR "@;
    assert forall|i: int| 0 <= i < pre.len() implies key_char(false, #[trigger] pre[i]) != p1[1] as u32 by {
        if is_ascii_letter(pre[i]) {
            lemma_letter(pre[i]);
            assert(pre[i] != 'D');
        }
    }
    assert forall|q: int| 0 <= q < p1.len() implies key_char(false, #[trigger] p1[q]) == p1[q] as u32 by {}
    assert(r1 =~= pre + p1 + r2);
    lemma_until(pre, p1, r2, false, 1);
    let pre0 = pre + p1.drop_last();
    assert(has_suffix(pre0, " DUR"@)) by {
        assert(pre0.subrange(pre0.len() - 4, pre0.len() as int) =~= " DUR"@);
    }
    assert(pre0.take(pre0.len() - 4) =~= pre);
    lemma_letter(pre[0]);
    lemma_letter(pre.last());
    lemma_trim_word(pre);
    // duration and type
    assert(r2 =~= dur + seq![' '] + r3);
    lemma_digits_phase(dur, ' ', r3);
    let p2 = " by "@;
    assert forall|i: int| 0 <= i < ty.len() implies key_char(true, #[trigger] ty[i]) != p2[2] as u32 by {
        if is_ascii_letter(ty[i]) {
            lemma_letter(ty[i]);
            assert(ty[i] != 'y' && ty[i] != 'Y');
        }
    }
    assert forall|q: int| 0 <= q < p2.len() implies key_char(true, #[trigger] p2[q]) == p2[q] as u32 by {}
    assert(r3 =~= ty + p2 + r4);
    lemma_until(ty, p2, r4, true, 2);
    let typ0 = ty + p2.drop_last();
    lemma_letter(ty[0]);
    assert(typ0[0] == ty[0]);
    assert(typ0.last() == 'y');
    lemma_trim_word(typ0);
    assert(has_suffix(typ0, " by"@)) by {
        assert(typ0.subrange(typ0.len() - 3, typ0.len() as int) =~= " by"@);
    }
    assert(typ0.take(typ0.len() - 3) =~= ty);
    // the offender
    let p3 = " BRU "@;
    assert forall|i: int| 0 <= i < op.len() implies key_char(false, #[trigger] op[i]) != p3[1] as u32 by {
        if is_ascii_letter(op[i]) {
            lemma_letter(op[i]);
            assert(op[i] != 'B');
        }
    }
    assert forall|q: int| 0 <= q < p3.len() implies key_char(false, #[trigger] p3[q]) == p3[q] as u32 by {}
    assert(r4 =~= op + p3 + r5);
    lemma_until(op, p3, r5, false, 1);
    let op0 = op + p3.drop_last();
    assert(has_suffix(op0, " BRU"@)) by {
        assert(op0.subrange(op0.len() - 4, op0.len() as int) =~= " BRU"@);
    }
    assert(op0.take(op0.len() - 4) =~= op);
    lemma_letter(op[0]);
    lemma_letter(op.last());
    lemma_trim_word(op);
    assert(!has_prefix(op, "by "@)) by {
        if has_prefix(op, "by "@) {
            assert(op.subrange(0, 3) =~= "by "@);
            assert(lower_seq(op).subrange(0, 3) =~= "by "@);
        }
    }
    // the ratings
    assert(r5 =~= bru + seq![' '] + r6);
    lemma_digits_phase(bru, ' ', r6);
    lemma_tail_k(a, b, k);
}

/* ---------------- the keyword reader on a report line ---------------- */

proof fn lemma_contains_at(s: Seq<char>, p: Seq<char>, j: int)
    requires
        0 <= j,
        match_at(s, p, j),
    ensures
        contains(s, p),
{
    lemma_find_from(s, p, 0);
}

proof fn lemma_digits_past_ws_run(x: Seq<char>, d: Seq<char>, e: Seq<char>, i: int)
    requires
        all_digits(d),
        x.len() <= i <= x.len() + d.len(),
        digits_past_ws(x + d + e, x.len() + d.len() as int) == Seq::<char>::empty(),
    ensures
        digits_past_ws(x + d + e, i) == d.skip(i - x.len()),
    decreases x.len() + d.len() - i,
{
    let s = x + d + e;
    if i < x.len() + d.len() {
        assert(s[i] == d[i - x.len()]);
        assert(is_digit(d[i - x.len()]));
        lemma_digits_past_ws_run(x, d, e, i + 1);
        assert(d.skip(i - x.len()) =~= seq![d[i - x.len()]] + d.skip(i + 1 - x.len()));
    } else {
        assert(d.skip(i - x.len()) =~= Seq::<char>::empty());
    }
}

/// What may follow the ratings holds no `t`, and starts (if at all) with a
/// space and a `B`.
proof fn lemma_bounty_text_chars(k: bool)
    ensures
        forall|m: int| 0 <= m < bounty_text(k).len() ==> #[trigger] bounty_text(k)[m] != 't',
        k ==> bounty_text(k).len() >= 2 && bounty_text(k)[0] == ' ' && bounty_text(k)[1] == 'B',
        !k ==> bounty_text(k).len() == 0,
{
    reveal_strlit(" BOUNTY COLLECTED");
    if k {
        let e = bounty_text(k);
        assert forall|m: int| 0 <= m < e.len() implies #[trigger] e[m] != 't' by {
            assert(m == 0 || m == 1 || m == 2 || m == 3 || m == 4 || m == 5 || m == 6 || m == 7 || m == 8 || m == 9 || m == 10 || m == 11 || m == 12 || m == 13 || m == 14 || m == 15 || m == 16);
        }
    }
}

/// The upper-cased text of a line that ends with ` BOUNTY COLLECTED`
/// mentions the collected bounty.
proof fn lemma_bounty_mentioned(x: Seq<char>)
    ensures
        contains(upper_seq(x + " BOUNTY COLLECTED"@), "BOUNTY COLLECTED"@),
{
    reveal_strlit(" BOUNTY COLLECTED");
    reveal_strlit("BOUNTY COLLECTED");
    let e = " BOUNTY COLLECTED"@;
    let p = "BOUNTY COLLECTED"@;
    assert(upper_seq(x + e) =~= upper_seq(x) + upper_seq(e));
    assert forall|m: int| 0 <= m < e.len() implies upper(#[trigger] e[m]) == e[m] by {
        assert(m == 0 || m == 1 || m == 2 || m == 3 || m == 4 || m == 5 || m == 6 || m == 7 || m == 8 || m == 9 || m == 10 || m == 11 || m == 12 || m == 13 || m == 14 || m == 15 || m == 16);
    }
    assert(upper_seq(e) =~= e);
    assert(e.subrange(1, 17) =~= p);
    lemma_match_shift(upper_seq(x), e, p, 1);
}

/// The ratings after `"Drops from "`: `a` and `b`, whether or not a
/// collected bounty follows.
proof fn lemma_sr_pair(a: Seq<char>, b: Seq<char>, k: bool)
    requires
        digit_text(a),
        digit_text(b),
    ensures
        sr_pair(a + " to "@ + b + bounty_text(k)) == (a, b),
{
    reveal_strlit(" to ");
    reveal_strlit(" to");
    reveal_strlit("to ");
    let e = bounty_text(k);
    lemma_bounty_text_chars(k);
    let s = a + " to "@ + b + e;
    assert(s =~= a + (" to "@ + b + e));
    lemma_leading_digits_run(a, " to "@ + b + e);
    let t = "to "@ + b + e;
    assert(s.skip(a.len() as int) =~= seq![' '] + t);
    assert(trim_start(seq![' '] + t) == trim_start(t)) by {
        assert((seq![' '] + t).drop_first() =~= t);
    }
    assert(trim_start(t) == t);
    // neither " to " nor " to" occurs: no space is followed by a `t`
    lemma_find_from(t, " to "@, 0);
    lemma_find_from(t, " to"@, 0);
    if find_from(t, " to "@, 0) is Some {
        let j = find_from(t, " to "@, 0)->0;
        assert(t.subrange(j, j + 4)[0] == t[j] && t.subrange(j, j + 4)[1] == t[j + 1]);
        if j + 1 >= 3 + b.len() {
            assert(t[j + 1] == e[j + 1 - 3 - b.len()]);
        } else if j + 1 >= 3 {
            assert(t[j + 1] == b[j + 1 - 3]);
        }
        assert(false);
    }
    if find_from(t, " to"@, 0) is Some {
        let j = find_from(t, " to"@, 0)->0;
        assert(t.subrange(j, j + 3)[0] == t[j] && t.subrange(j, j + 3)[1] == t[j + 1]);
        if j + 1 >= 3 + b.len() {
            assert(t[j + 1] == e[j + 1 - 3 - b.len()]);
        } else if j + 1 >= 3 {
            assert(t[j + 1] == b[j + 1 - 3]);
        }
        assert(false);
    }
    assert(t.subrange(0, 3) =~= "to "@);
    lemma_find_first(t, "to "@, 0);
    // after `b` no more digits are read
    let q: int = 3 + b.len() as int;
    if k {
        assert(t[q] == e[0]);
        assert(t[q + 1] == e[1]);
        assert(digits_past_ws(t, q + 1) == Seq::<char>::empty());
        assert(digits_past_ws(t, q) == Seq::<char>::empty());
    } else {
        assert(t.len() == q);
    }
    lemma_digits_past_ws_run("to "@, b, e, 3);
    assert(t[2] == ' ');
    assert(digits_past_ws(t, 2) == digits_past_ws(t, 3));
    assert(b.skip(0) =~= b);
}

/// A line that ends with ` BOUNTY COLLECTED` mentions the collected bounty.
proof fn lemma_line_with_bounty(
    wk: Seq<char>,
    pre: Seq<char>,
    dur: Seq<char>,
    ty: Seq<char>,
    op: Seq<char>,
    bru: Seq<char>,
    a: Seq<char>,
    b: Seq<char>,
)
    ensures
        contains(upper_seq(report_line(wk, pre, dur, ty, op, bru, a, b, true)), "BOUNTY COLLECTED"@),
{
    let x = report_line(wk, pre, dur, ty, op, bru, a, b, false);
    assert(report_line(wk, pre, dur, ty, op, bru, a, b, true) =~= x + " BOUNTY COLLECTED"@);
    lemma_bounty_mentioned(x);
}

#[verifier::spinoff_prover]
#[verifier::rlimit(40)]
proof fn lemma_slow_report(
    season: Seq<char>,
    names: Seq<Seq<char>>,
    wk: Seq<char>,
    pre: Seq<char>,
    dur: Seq<char>,
    ty: Seq<char>,
    op: Seq<char>,
    bru: Seq<char>,
    a: Seq<char>,
    b: Seq<char>,
    k: bool,
)
    requires
        report_parts_ok(wk, pre, dur, ty, op, bru, a, b),
        k || !contains(upper_seq(report_line(wk, pre, dur, ty, op, bru, a, b, k)), "BOUNTY COLLECTED"@),
    ensures
        slow_fields(report_line(wk, pre, dur, ty, op, bru, a, b, k), season, names) == report_row(
            season,
            names,
            wk,
            pre,
            dur,
            ty,
            op,
            bru,
            a,
            b,
            k,
        ),
{
    reveal_strlit("W");
    reveal_strlit(" ");
    reveal_strlit(" DUR ");
    reveal_strlit(" by ");
    reveal_strlit(" BRU ");
    reveal_strlit("by ");
    reveal_strlit("SR Drops from ");
    reveal_strlit("Drops from ");
    let line = report_line(wk, pre, dur, ty, op, bru, a, b, k);
    let r1 = after_week_text(pre, dur, ty, op, bru, a, b, k);
    let r2 = after_pre_text(dur, ty, op, bru, a, b, k);
    let r3 = after_dur_text(ty, op, bru, a, b, k);
    let r4 = after_ty_text(op, bru, a, b, k);
    let r5 = after_op_text(bru, a, b, k);
    let r6 = tail_text(a, b, k);
    // the start and the week
    assert(line[0] == 'W');
    assert(trim_start(line) == line);
    assert(crate::text::find_char_from(line, 'W', 0) == Some(0int));
    assert(line.skip(1) =~= wk + (seq![' '] + r1));
    lemma_leading_digits_run(wk, seq![' '] + r1);
    assert(line.skip(1 + wk.len() as int) =~= seq![' '] + r1);
    lemma_letter(pre[0]);
    assert(r1[0] == pre[0]);
    assert(trim_start(seq![' '] + r1) == trim_start(r1)) by {
        assert((seq![' '] + r1).drop_first() =~= r1);
    }
    assert(trim_start(r1) == r1);
    // the victim
    let p1 = " DUR "@;
    assert(r1 =~= pre + p1 + r2);
    assert(forall|t: int| 0 <= t < 1 ==> #[trigger] p1[t] != p1[1]);
    lemma_no_early_match(pre, p1, r2, 1);
    lemma_find_first(r1, p1, pre.len() as int);
    assert(r1.take(pre.len() as int) =~= pre);
    lemma_letter(pre.last());
    lemma_trim_word(pre);
    // duration and type
    assert(r1.skip(pre.len() as int + 5) =~= r2);
    assert(r2 =~= dur + (seq![' '] + r3));
    lemma_leading_digits_run(dur, seq![' '] + r3);
    assert(r2.skip(dur.len() as int) =~= seq![' '] + r3);
    lemma_letter(ty[0]);
    assert(r3[0] == ty[0]);
    assert(trim_start(seq![' '] + r3) == trim_start(r3)) by {
        assert((seq![' '] + r3).drop_first() =~= r3);
    }
    assert(trim_start(r3) == r3);
    let p2 = " by "@;
    assert(r3 =~= ty + p2 + r4);
    assert(forall|t: int| 0 <= t < 2 ==> #[trigger] p2[t] != p2[2]);
    lemma_no_early_match(ty, p2, r4, 2);
    lemma_find_first(r3, p2, ty.len() as int);
    assert(r3.take(ty.len() as int) =~= ty);
    lemma_letter(ty.last());
    lemma_trim_word(ty);
    // the offender
    assert(r3.skip(ty.len() as int + 4) =~= r4);
    let p3 = " BRU "@;
    assert(r4 =~= op + p3 + r5);
    assert(forall|t: int| 0 <= t < 1 ==> #[trigger] p3[t] != p3[1]);
    lemma_no_early_match(op, p3, r5, 1);
    lemma_find_first(r4, p3, op.len() as int);
    assert(r4.take(op.len() as int) =~= op);
    lemma_letter(op[0]);
    lemma_letter(op.last());
    lemma_trim_word(op);
    assert(r4.skip(op.len() as int + 5) =~= r5);
    // the ratings
    assert(r5 =~= bru + (seq![' '] + r6));
    lemma_leading_digits_run(bru, seq![' '] + r6);
    assert(r5.skip(bru.len() as int) =~= seq![' '] + r6);
    assert(r6[0] == 'S');
    assert(trim_start(seq![' '] + r6) == trim_start(r6)) by {
        assert((seq![' '] + r6).drop_first() =~= r6);
    }
    assert(trim_start(r6) == r6);
    let p4 = "Drops from "@;
    reveal_strlit("SR ");
    assert("SR Drops from "@ =~= "SR "@ + p4);
    assert(r6 =~= "SR "@ + p4 + (a + " to "@ + b + bounty_text(k)));
    assert forall|i: int| 0 <= i < 3 implies !#[trigger] match_at(r6, p4, i) by {
        if match_at(r6, p4, i) {
            assert(r6.subrange(i, i + 11)[0] == r6[i]);
        }
    }
    assert(r6.subrange(3, 14) =~= p4);
    lemma_find_first(r6, p4, 3);
    assert(r6.skip(14) =~= a + " to "@ + b + bounty_text(k));
    lemma_sr_pair(a, b, k);
    if k {
        lemma_line_with_bounty(wk, pre, dur, ty, op, bru, a, b);
    }
}

/* ---------------- the two readers agree ---------------- */

proof fn lemma_match_shift(x: Seq<char>, y: Seq<char>, p: Seq<char>, j: int)
    requires
        match_at(y, p, j),
    ensures
        match_at(x + y, p, x.len() + j),
        contains(x + y, p),
{
    assert((x + y).subrange(x.len() + j, x.len() + j + p.len()) =~= y.subrange(j, j + p.len()));
    lemma_contains_at(x + y, p, x.len() + j);
}

/// On a plain report line built from its parts, the keyword reader and the
/// one-pass reader both give the row of those parts: the week, the victim's
/// team and name, DUR, the two ratings, the type, the offender's team and
/// name, BRU, and `BOUNTY COLLECTED` in the Bounty column exactly when the
/// line ends with ` BOUNTY COLLECTED`. A line that does not end so must not
/// mention a collected bounty elsewhere either: the keyword reader looks for
/// it in the whole line, the one-pass reader only after BRU.
pub proof fn report_lines_read_as_written(
    season: Seq<char>,
    names: Seq<Seq<char>>,
    wk: Seq<char>,
    pre: Seq<char>,
    dur: Seq<char>,
    ty: Seq<char>,
    op: Seq<char>,
    bru: Seq<char>,
    a: Seq<char>,
    b: Seq<char>,
    k: bool,
)
    requires
        report_parts_ok(wk, pre, dur, ty, op, bru, a, b),
        plain_line(report_line(wk, pre, dur, ty, op, bru, a, b, k)),
        k || !contains(upper_seq(report_line(wk, pre, dur, ty, op, bru, a, b, k)), "BOUNTY COLLECTED"@),
    ensures
        line_row(report_line(wk, pre, dur, ty, op, bru, a, b, k), season, names, LineReader::Keywords) == report_row(
            season,
            names,
            wk,
            pre,
            dur,
            ty,
            op,
            bru,
            a,
            b,
            k,
        ),
        line_row(report_line(wk, pre, dur, ty, op, bru, a, b, k), season, names, LineReader::Stream) == report_row(
            season,
            names,
            wk,
            pre,
            dur,
            ty,
            op,
            bru,
            a,
            b,
            k,
        ),
{
    reveal_strlit("W");
    reveal_strlit(" ");
    reveal_strlit(" DUR ");
    reveal_strlit(" BRU ");
    reveal_strlit(" SR ");
    reveal_strlit("SR Drops from ");
    let line = report_line(wk, pre, dur, ty, op, bru, a, b, k);
    plain_lines_read_alike(line);
    lemma_slow_report(season, names, wk, pre, dur, ty, op, bru, a, b, k);
    lemma_fast_report(season, names, wk, pre, dur, ty, op, bru, a, b, k);
    let r1 = after_week_text(pre, dur, ty, op, bru, a, b, k);
    let r2 = after_pre_text(dur, ty, op, bru, a, b, k);
    let r4 = after_ty_text(op, bru, a, b, k);
    let r5 = after_op_text(bru, a, b, k);
    let head = "W"@ + wk + " "@;
    assert(line =~= head + r1);
    // " DUR "
    assert(r1 =~= pre + " DUR "@ + r2);
    assert(r1.subrange(pre.len() as int, pre.len() as int + 5) =~= " DUR "@);
    lemma_match_shift(head, r1, " DUR "@, pre.len() as int);
    // " BRU "
    let mid = head + pre + " DUR "@ + (dur + " "@ + ty + " by "@);
    assert(line =~= mid + r4);
    assert(r4.subrange(op.len() as int, op.len() as int + 5) =~= " BRU "@);
    lemma_match_shift(mid, r4, " BRU "@, op.len() as int);
    // " SR "
    let mid2 = mid + op + " BRU "@;
    assert(line =~= mid2 + r5);
    assert(r5.subrange(bru.len() as int, bru.len() as int + 4) =~= " SR "@);
    lemma_match_shift(mid2, r5, " SR "@, bru.len() as int);
}

/// A well-formed report line: plain (see `plain_line`), made of parts that
/// both readers read alike (see `report_parts_ok`), and, unless it ends with
/// a collected bounty, with no collected bounty mentioned anywhere.
pub open spec fn is_report_line(line: Seq<char>) -> bool {
    &&& plain_line(line)
    &&& exists|wk: Seq<char>, pre: Seq<char>, dur: Seq<char>, ty: Seq<char>, op: Seq<char>, bru: Seq<char>, a: Seq<char>, b: Seq<char>, bty: bool|
        report_parts_ok(wk, pre, dur, ty, op, bru, a, b) && line == #[trigger] report_line(wk, pre, dur, ty, op, bru, a, b, bty)
            && (bty || !contains(upper_seq(line), "BOUNTY COLLECTED"@))
}

proof fn lemma_chunks_agree(chunks: Seq<Seq<char>>, season: Seq<char>, names: Seq<Seq<char>>)
    requires
        forall|k: int| 0 <= k < chunks.len() && contains(#[trigger] chunks[k], " DUR "@) ==> is_report_line(chunks[k]),
    ensures
        chunk_rows(chunks, season, names, LineReader::Keywords) == chunk_rows(chunks, season, names, LineReader::Stream),
    decreases chunks.len(),
{
    if chunks.len() > 0 {
        let rest = chunks.drop_first();
        assert forall|k: int| 0 <= k < rest.len() && contains(#[trigger] rest[k], " DUR "@) implies is_report_line(rest[k]) by {
            assert(rest[k] == chunks[k + 1]);
        }
        lemma_chunks_agree(rest, season, names);
        let c = chunks[0];
        if contains(c, " DUR "@) {
            assert(is_report_line(c));
            let (wk, pre, dur, ty, op, bru, a, b, bty) = choose|
                wk: Seq<char>,
                pre: Seq<char>,
                dur: Seq<char>,
                ty: Seq<char>,
                op: Seq<char>,
                bru: Seq<char>,
                a: Seq<char>,
                b: Seq<char>,
                bty: bool,
            |
                report_parts_ok(wk, pre, dur, ty, op, bru, a, b) && c == #[trigger] report_line(wk, pre, dur, ty, op, bru, a, b, bty)
                    && (bty || !contains(upper_seq(c), "BOUNTY COLLECTED"@));
            report_lines_read_as_written(season, names, wk, pre, dur, ty, op, bru, a, b, bty);
        }
    }
}

/// The keyword reader and the indexed one-pass reader give the same rows
/// for a report in which every line that carries `" DUR "` is a
/// well-formed report line (see `is_report_line`), when no team name is
/// empty. Outside such lines they may differ: an entity such as `&amp;` is
/// decoded by the keyword reader and read as a space by the other, and a
/// line without `" SR "` is dropped by the keyword reader only.
pub proof fn report_readers_agree(doc: Seq<char>, season: Seq<char>, names: Seq<Seq<char>>)
    requires
        forall|k: int| 0 <= k < names.len() ==> #[trigger] names[k].len() > 0,
        forall|k: int|
            0 <= k < split_on_br(doc).len() && contains(#[trigger] split_on_br(doc)[k], " DUR "@) ==> is_report_line(
                split_on_br(doc)[k],
            ),
    ensures
        doc_rows(doc, season, names, LineReader::Keywords) == doc_rows(doc, season, names, LineReader::IndexedStream),
{
    lemma_chunks_agree(split_on_br(doc), season, names);
    indexed_reader_matches_plain(doc, season, names);
}

/// The lines of a report: its `<br>`-separated pieces.
pub open spec fn split_on_br(doc: Seq<char>) -> Seq<Seq<char>> {
    crate::text::split_on(doc, "<br>"@)
}

} // verus!
