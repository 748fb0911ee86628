//! Word splitting, joining, suffix tests and digit scans on character
//! sequences.

use vstd::prelude::*;
use crate::text::{
    char_is_ws, is_ascii_ws, is_ascii_ws_char, is_digit, is_digit_char, is_ws, match_at, match_at_exec,
    push_all, sub_vec,
};

verus! {

/// `s` ends with `p`.
pub open spec fn has_suffix(s: Seq<char>, p: Seq<char>) -> bool {
    p.len() <= s.len() && match_at(s, p, s.len() - p.len())
}

/// `s` starts with `p`.
pub open spec fn has_prefix(s: Seq<char>, p: Seq<char>) -> bool {
    match_at(s, p, 0)
}

/// `s` with its last `n` characters removed when it ends with `p` (`n` is `p`'s length).
pub open spec fn drop_suffix(s: Seq<char>, p: Seq<char>) -> Seq<char> {
    if has_suffix(s, p) { s.take(s.len() - p.len()) } else { s }
}

/// `s` without the prefix `p` when it starts with `p`.
pub open spec fn drop_prefix(s: Seq<char>, p: Seq<char>) -> Seq<char> {
    if has_prefix(s, p) { s.skip(p.len() as int) } else { s }
}

pub fn drop_suffix_vec(s: Vec<char>, p: &[char]) -> (v: Vec<char>)
    ensures
        v@ == drop_suffix(s@, p@),
{
    if p.len() <= s.len() && match_at_exec(&s, p, s.len() - p.len()) {
        sub_vec(&s, 0, s.len() - p.len())
    } else {
        s
    }
}

pub fn drop_prefix_vec(s: Vec<char>, p: &[char]) -> (v: Vec<char>)
    ensures
        v@ == drop_prefix(s@, p@),
{
    if match_at_exec(&s, p, 0) {
        sub_vec(&s, p.len(), s.len())
    } else {
        s
    }
}

/* ---------------- whitespace-separated words ---------------- */

/// First index at or after `i` that is not Unicode whitespace.
pub open spec fn ws_skip(s: Seq<char>, i: int) -> int
    decreases s.len() - i,
{
    if 0 <= i < s.len() && char_is_ws(s[i]) { ws_skip(s, i + 1) } else { i }
}

/// First index at or after `i` that is Unicode whitespace (or the end).
pub open spec fn word_end(s: Seq<char>, i: int) -> int
    decreases s.len() - i,
{
    if 0 <= i < s.len() && !char_is_ws(s[i]) { word_end(s, i + 1) } else { i }
}

pub proof fn lemma_ws_skip(s: Seq<char>, i: int)
    requires
        0 <= i <= s.len(),
    ensures
        i <= ws_skip(s, i) <= s.len(),
        ws_skip(s, i) < s.len() ==> !char_is_ws(s[ws_skip(s, i)]),
    decreases s.len() - i,
{
    if i < s.len() && char_is_ws(s[i]) {
        lemma_ws_skip(s, i + 1);
    }
}

pub proof fn lemma_word_end(s: Seq<char>, i: int)
    requires
        0 <= i <= s.len(),
    ensures
        i <= word_end(s, i) <= s.len(),
    decreases s.len() - i,
{
    if i < s.len() && !char_is_ws(s[i]) {
        lemma_word_end(s, i + 1);
    }
}

/// The whitespace-separated words of `s` from position `i` on (`str::split_whitespace`).
pub open spec fn words_from(s: Seq<char>, i: int) -> Seq<Seq<char>>
    decreases s.len() - i,
{
    if i < 0 || i > s.len() {
        Seq::empty()
    } else {
        let a = ws_skip(s, i);
        if a >= s.len() {
            Seq::empty()
        } else {
            let e = word_end(s, a);
            proof {
                lemma_ws_skip(s, i);
                lemma_word_end(s, a + 1);
            }
            seq![s.subrange(a, e)] + words_from(s, e)
        }
    }
}

pub open spec fn words(s: Seq<char>) -> Seq<Seq<char>> {
    words_from(s, 0)
}

/// Words joined with single spaces (`[&str]::join(" ")`).
pub open spec fn join_space(ps: Seq<Seq<char>>) -> Seq<char>
    decreases ps.len(),
{
    if ps.len() == 0 {
        Seq::empty()
    } else if ps.len() == 1 {
        ps[0]
    } else {
        join_space(ps.drop_last()) + seq![' '] + ps.last()
    }
}

pub fn words_vec(s: &[char]) -> (v: Vec<Vec<char>>)
    ensures
        v.deep_view() == words(s@),
{
    let mut v: Vec<Vec<char>> = Vec::new();
    let mut i: usize = 0;
    loop
        invariant
            i <= s@.len(),
            words(s@) == v.deep_view() + words_from(s@, i as int),
        decreases s@.len() - i,
    {
        let mut a = i;
        while a < s.len() && is_ws(s[a])
            invariant
                i <= a <= s@.len(),
                ws_skip(s@, i as int) == ws_skip(s@, a as int),
            decreases s@.len() - a,
        {
            a = a + 1;
        }
        if a >= s.len() {
            assert(v.deep_view() + words_from(s@, i as int) =~= v.deep_view());
            return v;
        }
        let mut e = a + 1;
        while e < s.len() && !is_ws(s[e])
            invariant
                a < e <= s@.len(),
                word_end(s@, a as int) == word_end(s@, e as int),
            decreases s@.len() - e,
        {
            e = e + 1;
        }
        let ghost prev = v.deep_view();
        let w = sub_vec(s, a, e);
        let ghost wv = w@;
        crate::text::push_text(&mut v, w);
        assert(v.deep_view() == prev.push(wv));
        assert(prev + words_from(s@, i as int) =~= v.deep_view() + words_from(s@, e as int));
        i = e;
    }
}

pub fn join_space_vec(ps: &[Vec<char>]) -> (v: Vec<char>)
    ensures
        v@ == join_space(ps.deep_view()),
{
    let mut v: Vec<char> = Vec::new();
    let mut i: usize = 0;
    while i < ps.len()
        invariant
            i <= ps@.len(),
            v@ == join_space(ps.deep_view().take(i as int)),
        decreases ps@.len() - i,
    {
        let ghost prev = ps.deep_view().take(i as int);
        assert(ps.deep_view()[i as int] == ps@[i as int]@);
        if i > 0 {
            v.push(' ');
        }
        push_all(&mut v, ps[i].as_slice());
        assert(ps.deep_view().take(i + 1).drop_last() =~= prev);
        i = i + 1;
    }
    assert(ps.deep_view().take(i as int) =~= ps.deep_view());
    v
}

/* ---------------- searching from the right ---------------- */

/// Last position `<= i` where `p` occurs in `s`.
pub open spec fn rfind_at(s: Seq<char>, p: Seq<char>, i: int) -> Option<int>
    decreases i + 1,
{
    if i < 0 {
        None
    } else if match_at(s, p, i) {
        Some(i)
    } else {
        rfind_at(s, p, i - 1)
    }
}

/// Last position where `p` occurs in `s` (`str::rfind`).
pub open spec fn rfind_str(s: Seq<char>, p: Seq<char>) -> Option<int> {
    rfind_at(s, p, s.len() - p.len())
}

pub proof fn lemma_rfind_at(s: Seq<char>, p: Seq<char>, i: int)
    ensures
        rfind_at(s, p, i) matches Some(j) ==> 0 <= j <= i && match_at(s, p, j),
    decreases i + 1,
{
    if i >= 0 && !match_at(s, p, i) {
        lemma_rfind_at(s, p, i - 1);
    }
}

pub fn rfind_vec(s: &[char], p: &[char]) -> (r: Option<usize>)
    ensures
        match r {
            Some(j) => rfind_str(s@, p@) == Some(j as int) && j + p@.len() <= s@.len(),
            None => rfind_str(s@, p@) is None,
        },
{
    if p.len() > s.len() {
        return None;
    }
    let mut i = s.len() - p.len();
    loop
        invariant
            i + p@.len() <= s@.len(),
            rfind_str(s@, p@) == rfind_at(s@, p@, i as int),
        decreases i,
    {
        if match_at_exec(s, p, i) {
            return Some(i);
        }
        if i == 0 {
            assert(rfind_at(s@, p@, -1) is None);
            return None;
        }
        i = i - 1;
    }
}

/* ---------------- digit scans ---------------- */

/// Digits read after skipping ASCII whitespace, up to the first other character.
pub open spec fn digits_past_ws(s: Seq<char>, i: int) -> Seq<char>
    decreases s.len() - i,
{
    if i < 0 || i >= s.len() {
        Seq::empty()
    } else if is_ascii_ws(s[i]) {
        digits_past_ws(s, i + 1)
    } else if is_digit(s[i]) {
        seq![s[i]] + digits_past_ws(s, i + 1)
    } else {
        Seq::empty()
    }
}

pub fn digits_past_ws_vec(s: &[char], from: usize) -> (v: Vec<char>)
    ensures
        v@ == digits_past_ws(s@, from as int),
{
    let mut v: Vec<char> = Vec::new();
    let mut i = from;
    while i < s.len()
        invariant
            from <= i,
            digits_past_ws(s@, from as int) == v@ + digits_past_ws(s@, i as int),
        decreases s@.len() - i,
    {
        let c = s[i];
        if is_ascii_ws_char(c) {
        } else if is_digit_char(c) {
            v.push(c);
            assert(v@ + digits_past_ws(s@, i + 1) =~= v@.drop_last() + digits_past_ws(s@, i as int));
        } else {
            assert(v@ + digits_past_ws(s@, i as int) =~= v@);
            return v;
        }
        i = i + 1;
    }
    assert(v@ + digits_past_ws(s@, i as int) =~= v@);
    v
}

/// The maximal runs of ASCII digits in `s` from `i` on; `cur` is the run in progress.
pub open spec fn digit_groups_from(s: Seq<char>, i: int, cur: Seq<char>) -> Seq<Seq<char>>
    decreases s.len() - i,
{
    if i < 0 || i >= s.len() {
        if cur.len() > 0 { seq![cur] } else { Seq::empty() }
    } else if is_digit(s[i]) {
        digit_groups_from(s, i + 1, cur.push(s[i]))
    } else {
        (if cur.len() > 0 { seq![cur] } else { Seq::empty() }) + digit_groups_from(s, i + 1, Seq::empty())
    }
}

pub open spec fn digit_groups(s: Seq<char>) -> Seq<Seq<char>> {
    digit_groups_from(s, 0, Seq::empty())
}

pub fn digit_groups_vec(s: &[char]) -> (v: Vec<Vec<char>>)
    ensures
        v.deep_view() == digit_groups(s@),
{
    let mut v: Vec<Vec<char>> = Vec::new();
    let mut cur: Vec<char> = Vec::new();
    let mut i: usize = 0;
    while i < s.len()
        invariant
            i <= s@.len(),
            digit_groups(s@) == v.deep_view() + digit_groups_from(s@, i as int, cur@),
        decreases s@.len() - i,
    {
        let c = s[i];
        if is_digit_char(c) {
            cur.push(c);
        } else {
            if cur.len() > 0 {
                let ghost prev = v.deep_view();
                let ghost cv = cur@;
                crate::text::push_text(&mut v, cur);
                assert(prev + digit_groups_from(s@, i as int, cv) =~= v.deep_view()
                    + digit_groups_from(s@, i + 1, Seq::empty()));
            } else {
                assert(v.deep_view() + digit_groups_from(s@, i as int, cur@) =~= v.deep_view()
                    + digit_groups_from(s@, i + 1, Seq::empty()));
            }
            cur = Vec::new();
        }
        i = i + 1;
    }
    if cur.len() > 0 {
        let ghost prev = v.deep_view();
        let ghost cv = cur@;
        crate::text::push_text(&mut v, cur);
        assert(prev + digit_groups_from(s@, i as int, cv) =~= v.deep_view());
    } else {
        assert(v.deep_view() + digit_groups_from(s@, i as int, cur@) =~= v.deep_view());
    }
    v
}

} // verus!
