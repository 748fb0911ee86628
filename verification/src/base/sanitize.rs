//! Whitespace, entity and filename normalisation.

use vstd::prelude::*;
use crate::text::{
    back_ws, char_is_alpha, char_is_ws, chars_of, decimal, decimal_vec, is_alpha, is_ascii_alnum, is_ws,
    lemma_decimal_digits, push_all, replace_all, replace_vec, string_of, sub_vec, trim, trim_end, trim_vec,
};

verus! {

/* ---------------- whitespace ---------------- */

/// Runs of whitespace collapsed to one space; `prev_space` tells whether
/// the character before `s` was already such a space.
pub open spec fn collapse_ws(s: Seq<char>, prev_space: bool) -> Seq<char>
    decreases s.len(),
{
    if s.len() == 0 {
        Seq::empty()
    } else if char_is_ws(s[0]) {
        if prev_space {
            collapse_ws(s.drop_first(), true)
        } else {
            seq![' '] + collapse_ws(s.drop_first(), true)
        }
    } else {
        seq![s[0]] + collapse_ws(s.drop_first(), false)
    }
}

/// Every whitespace run replaced by one space, then trimmed.
pub open spec fn normalize_ws_spec(s: Seq<char>) -> Seq<char> {
    trim(collapse_ws(s, false))
}

/// `&nbsp;` becomes a space and `&amp;` becomes `&`.
pub open spec fn normalize_entities_spec(s: Seq<char>) -> Seq<char> {
    replace_all(replace_all(s, "&nbsp;"@, " "@), "&amp;"@, "&"@)
}

pub fn collapse_ws_vec(s: &[char]) -> (v: Vec<char>)
    ensures
        v@ == collapse_ws(s@, false),
{
    let mut v: Vec<char> = Vec::new();
    let mut prev = false;
    let mut i: usize = 0;
    assert(s@.skip(0) =~= s@);
    while i < s.len()
        invariant
            i <= s@.len(),
            collapse_ws(s@, false) == v@ + collapse_ws(s@.skip(i as int), prev),
        decreases s@.len() - i,
    {
        assert(s@.skip(i as int).drop_first() =~= s@.skip(i + 1));
        let c = s[i];
        if is_ws(c) {
            if !prev {
                v.push(' ');
                prev = true;
            }
        } else {
            v.push(c);
            prev = false;
        }
        i = i + 1;
    }
    v
}

pub fn normalize_ws_vec(s: &[char]) -> (v: Vec<char>)
    ensures
        v@ == normalize_ws_spec(s@),
{
    let c = collapse_ws_vec(s);
    trim_vec(&c)
}

/// Collapse whitespace runs to single spaces and trim the ends.
pub fn normalize_ws(s: &str) -> (r: String)
    ensures
        r@ == normalize_ws_spec(s@),
{
    let v = chars_of(s);
    string_of(&normalize_ws_vec(&v))
}

pub fn normalize_entities_vec(s: &[char]) -> (v: Vec<char>)
    ensures
        v@ == normalize_entities_spec(s@),
{
    let nbsp = chars_of("&nbsp;");
    let sp = chars_of(" ");
    let amp_ent = chars_of("&amp;");
    let amp = chars_of("&");
    proof {
        reveal_strlit("&nbsp;");
        reveal_strlit("&amp;");
    }
    let a = replace_vec(s, &nbsp, &sp);
    replace_vec(&a, &amp_ent, &amp)
}

/// Replace the `&nbsp;` and `&amp;` entities by the characters they stand for.
pub fn normalize_entities(s: &str) -> (r: String)
    ensures
        r@ == normalize_entities_spec(s@),
{
    let v = chars_of(s);
    string_of(&normalize_entities_vec(&v))
}

/* ---------------- brackets ---------------- */

/// Characters outside `[ ... ]` segments (no nesting; an unclosed `[`
/// hides the rest).
pub open spec fn drop_brackets(s: Seq<char>, in_bracket: bool) -> Seq<char>
    decreases s.len(),
{
    if s.len() == 0 {
        Seq::empty()
    } else if s[0] == '[' {
        drop_brackets(s.drop_first(), true)
    } else if s[0] == ']' {
        drop_brackets(s.drop_first(), false)
    } else if !in_bracket {
        seq![s[0]] + drop_brackets(s.drop_first(), in_bracket)
    } else {
        drop_brackets(s.drop_first(), in_bracket)
    }
}

pub open spec fn strip_brackets_spec(s: Seq<char>) -> Seq<char> {
    trim(drop_brackets(s, false))
}

pub fn strip_brackets_vec(s: &[char]) -> (v: Vec<char>)
    ensures
        v@ == strip_brackets_spec(s@),
{
    let mut out: Vec<char> = Vec::new();
    let mut inb = false;
    let mut i: usize = 0;
    assert(s@.skip(0) =~= s@);
    while i < s.len()
        invariant
            i <= s@.len(),
            drop_brackets(s@, false) == out@ + drop_brackets(s@.skip(i as int), inb),
        decreases s@.len() - i,
    {
        assert(s@.skip(i as int).drop_first() =~= s@.skip(i + 1));
        let c = s[i];
        if c == '[' {
            inb = true;
        } else if c == ']' {
            inb = false;
        } else if !inb {
            out.push(c);
        }
        i = i + 1;
    }
    trim_vec(&out)
}

/// Remove any `[ ... ]` bracket tags (e.g. `[CAPTAIN]`), then trim.
pub fn strip_brackets(s: &str) -> (r: String)
    ensures
        r@ == strip_brackets_spec(s@),
{
    let v = chars_of(s);
    string_of(&strip_brackets_vec(&v))
}

/* ---------------- letters only ---------------- */

/// Position of the first character that is neither alphabetic nor whitespace.
pub open spec fn first_non_letter_from(s: Seq<char>, i: int) -> Option<int>
    decreases s.len() - i,
{
    if i < 0 || i >= s.len() {
        None
    } else if !(char_is_alpha(s[i]) || char_is_ws(s[i])) {
        Some(i)
    } else {
        first_non_letter_from(s, i + 1)
    }
}

/// Whitespace-normalised `s`, cut before its first character that is
/// neither a letter nor whitespace, with trailing whitespace dropped.
pub open spec fn letters_only_trim_spec(s: Seq<char>) -> Seq<char> {
    let t = normalize_ws_spec(s);
    match first_non_letter_from(t, 0) {
        Some(i) => trim_end(t.take(i)),
        None => trim(t),
    }
}

pub fn letters_only_trim_vec(s: &[char]) -> (v: Vec<char>)
    ensures
        v@ == letters_only_trim_spec(s@),
{
    let t = normalize_ws_vec(s);
    let mut i: usize = 0;
    while i < t.len()
        invariant
            i <= t@.len(),
            t@ == normalize_ws_spec(s@),
            first_non_letter_from(t@, 0) == first_non_letter_from(t@, i as int),
        decreases t@.len() - i,
    {
        let c = t[i];
        if !(is_alpha(c) || is_ws(c)) {
            assert(first_non_letter_from(t@, i as int) == Some(i as int));
            let b = back_ws(&t, 0, i);
            assert(t@.subrange(0, i as int) =~= t@.take(i as int));
            return sub_vec(&t, 0, b);
        }
        i = i + 1;
    }
    trim_vec(&t)
}

/// Keep letters and spaces up to the first other character; trailing
/// whitespace before the cut is dropped.
pub fn letters_only_trim(s: &str) -> (r: String)
    ensures
        r@ == letters_only_trim_spec(s@),
{
    let v = chars_of(s);
    string_of(&letters_only_trim_vec(&v))
}

/* ---------------- file names ---------------- */

/// Characters kept for a file name: ASCII letters and digits as is, each
/// whitespace run as one `_`, `-` always, `_` unless it follows a `_` that
/// was just written; everything else dropped.
pub open spec fn filename_chars(s: Seq<char>, last_us: bool) -> Seq<char>
    decreases s.len(),
{
    if s.len() == 0 {
        Seq::empty()
    } else {
        let c = s[0];
        let rest = s.drop_first();
        if is_ascii_alnum(c) {
            seq![c] + filename_chars(rest, false)
        } else if char_is_ws(c) {
            if !last_us {
                seq!['_'] + filename_chars(rest, true)
            } else {
                filename_chars(rest, true)
            }
        } else if c == '-' || c == '_' {
            if !(last_us && c == '_') {
                seq![c] + filename_chars(rest, c == '_')
            } else {
                filename_chars(rest, c == '_')
            }
        } else {
            filename_chars(rest, last_us)
        }
    }
}

/// `s` without leading `_`.
pub open spec fn trim_us_start(s: Seq<char>) -> Seq<char>
    decreases s.len(),
{
    if s.len() > 0 && s[0] == '_' {
        trim_us_start(s.drop_first())
    } else {
        s
    }
}

/// `s` without trailing `_`.
pub open spec fn trim_us_end(s: Seq<char>) -> Seq<char>
    decreases s.len(),
{
    if s.len() > 0 && s.last() == '_' {
        trim_us_end(s.drop_last())
    } else {
        s
    }
}

pub open spec fn team_file_fallback(id: u32) -> Seq<char> {
    "team_"@ + decimal(id as nat)
}

pub open spec fn sanitize_team_filename_spec(name: Seq<char>, id: u32) -> Seq<char> {
    let t = trim_us_end(trim_us_start(filename_chars(name, false)));
    if t.len() == 0 {
        team_file_fallback(id)
    } else {
        t
    }
}

pub open spec fn is_filename_char(c: char) -> bool {
    is_ascii_alnum(c) || c == '_' || c == '-'
}

proof fn lemma_filename_chars(s: Seq<char>, last_us: bool)
    ensures
        forall|k: int| 0 <= k < filename_chars(s, last_us).len()
            ==> is_filename_char(#[trigger] filename_chars(s, last_us)[k]),
    decreases s.len(),
{
    if s.len() > 0 {
        let c = s[0];
        let rest = s.drop_first();
        lemma_filename_chars(rest, false);
        lemma_filename_chars(rest, true);
        lemma_filename_chars(rest, last_us);
        let r = filename_chars(s, last_us);
        assert forall|k: int| 0 <= k < r.len() implies is_filename_char(#[trigger] r[k]) by {
            if is_ascii_alnum(c) {
                if k > 0 { assert(r[k] == filename_chars(rest, false)[k - 1]); }
            } else if char_is_ws(c) {
                if !last_us {
                    if k > 0 { assert(r[k] == filename_chars(rest, true)[k - 1]); }
                }
            } else if c == '-' || c == '_' {
                if !(last_us && c == '_') {
                    if k > 0 { assert(r[k] == filename_chars(rest, c == '_')[k - 1]); }
                }
            }
        }
    }
}

proof fn lemma_trim_us(s: Seq<char>)
    ensures
        trim_us_start(s).len() > 0 ==> trim_us_start(s)[0] != '_',
        trim_us_end(s).len() > 0 ==> trim_us_end(s).last() != '_',
        exists|a: int| 0 <= a <= s.len() && trim_us_start(s) == s.skip(a),
        exists|b: int| 0 <= b <= s.len() && trim_us_end(s) == s.take(b),
    decreases s.len(),
{
    if s.len() > 0 && s[0] == '_' {
        lemma_trim_us(s.drop_first());
        let a = choose|a: int| 0 <= a <= s.drop_first().len() && trim_us_start(s.drop_first()) == s.drop_first().skip(a);
        assert(s.drop_first().skip(a) =~= s.skip(a + 1));
    } else {
        assert(s.skip(0) =~= s);
    }
    if s.len() > 0 && s.last() == '_' {
        lemma_trim_us(s.drop_last());
        let b = choose|b: int| 0 <= b <= s.drop_last().len() && trim_us_end(s.drop_last()) == s.drop_last().take(b);
        assert(s.drop_last().take(b) =~= s.take(b));
    } else {
        assert(s.take(s.len() as int) =~= s);
    }
}

fn filename_chars_vec(s: &[char]) -> (v: Vec<char>)
    ensures
        v@ == filename_chars(s@, false),
{
    let mut out: Vec<char> = Vec::new();
    let mut last_us = false;
    let mut i: usize = 0;
    assert(s@.skip(0) =~= s@);
    while i < s.len()
        invariant
            i <= s@.len(),
            filename_chars(s@, false) == out@ + filename_chars(s@.skip(i as int), last_us),
        decreases s@.len() - i,
    {
        assert(s@.skip(i as int).drop_first() =~= s@.skip(i + 1));
        let ch = s[i];
        if ('a' <= ch && ch <= 'z') || ('A' <= ch && ch <= 'Z') || ('0' <= ch && ch <= '9') {
            out.push(ch);
            last_us = false;
        } else if is_ws(ch) {
            if !last_us {
                out.push('_');
                last_us = true;
            }
        } else if ch == '-' || ch == '_' {
            if !(last_us && ch == '_') {
                out.push(ch);
            }
            last_us = ch == '_';
        }
        i = i + 1;
    }
    out
}

fn trim_underscores(s: &[char]) -> (v: Vec<char>)
    ensures
        v@ == trim_us_end(trim_us_start(s@)),
{
    let mut a: usize = 0;
    assert(s@.skip(0) =~= s@);
    while a < s.len() && s[a] == '_'
        invariant
            a <= s@.len(),
            trim_us_start(s@) == trim_us_start(s@.skip(a as int)),
        decreases s@.len() - a,
    {
        assert(s@.skip(a as int).drop_first() =~= s@.skip(a + 1));
        a = a + 1;
    }
    let mut b = s.len();
    assert(s@.skip(a as int) =~= s@.subrange(a as int, b as int));
    while b > a && s[b - 1] == '_'
        invariant
            a <= b <= s@.len(),
            trim_us_end(trim_us_start(s@)) == trim_us_end(s@.subrange(a as int, b as int)),
        decreases b,
    {
        assert(s@.subrange(a as int, b as int).drop_last() =~= s@.subrange(a as int, b - 1));
        b = b - 1;
    }
    sub_vec(s, a, b)
}

pub fn sanitize_team_filename_vec(name: &[char], id: u32) -> (v: Vec<char>)
    ensures
        v@ == sanitize_team_filename_spec(name@, id),
{
    let f = filename_chars_vec(name);
    let t = trim_underscores(&f);
    if t.len() == 0 {
        let mut out = chars_of("team_");
        let d = decimal_vec(id as u64);
        push_all(&mut out, &d);
        out
    } else {
        t
    }
}

/// A sanitized stem is not empty, holds only file name characters and
/// neither starts nor ends with `_`.
pub proof fn lemma_sanitized_stem(name: Seq<char>, id: u32)
    ensures
        sanitize_team_filename_spec(name, id).len() > 0,
        forall|k: int| 0 <= k < sanitize_team_filename_spec(name, id).len() ==> is_filename_char(
            #[trigger] sanitize_team_filename_spec(name, id)[k],
        ),
        sanitize_team_filename_spec(name, id)[0] != '_' && sanitize_team_filename_spec(name, id).last() != '_',
{
        let f = filename_chars(name, false);
        lemma_filename_chars(name, false);
        lemma_trim_us(f);
        lemma_trim_us(trim_us_start(f));
        let ts = trim_us_start(f);
        let t = trim_us_end(ts);
        let a = choose|a: int| 0 <= a <= f.len() && ts == f.skip(a);
        let b = choose|b: int| 0 <= b <= ts.len() && t == ts.take(b);
        assert forall|k: int| 0 <= k < t.len() implies is_filename_char(#[trigger] t[k]) by {
            assert(t[k] == f[k + a]);
        }
        if t.len() > 0 {
            assert(t[0] == ts[0]);
        }
        reveal_strlit("team_");
        let fb = team_file_fallback(id);
        assert(fb[0] == 't');
        lemma_decimal_digits(id as nat);
        assert forall|k: int| 0 <= k < fb.len() implies is_filename_char(#[trigger] fb[k]) by {
            if k >= 5 {
                assert(fb[k] == decimal(id as nat)[k - 5]);
            }
        }
        assert(fb.last() == decimal(id as nat).last());
    }

/// Safe file stem for a team: ASCII letters, digits, `-` and `_` only,
/// whitespace runs as one `_`, no `_` at either end; `team_<id>` when
/// nothing is left.
pub fn sanitize_team_filename(name: &str, id: u32) -> (r: String)
    ensures
        r@ == sanitize_team_filename_spec(name@, id),
        r@.len() > 0,
        forall|k: int| 0 <= k < r@.len() ==> is_filename_char(#[trigger] r@[k]),
        r@[0] != '_' && r@.last() != '_',
{
    let v = chars_of(name);
    let out = sanitize_team_filename_vec(&v, id);
    proof {
        lemma_sanitized_stem(name@, id);
    }
    string_of(&out)
}

} // verus!
