//! Case-insensitive tag-block slicing and tag stripping.
//!
//! Positions are character offsets into the document.

use vstd::prelude::*;
use crate::text::{
    chars_of, find_char, find_char_from, find_ci, find_ci_from, lemma_find_char_from, lemma_find_ci_from,
    lemma_rfind_char_before, lower_seq, lower_vec, rfind_char, rfind_char_exec, string_of, sub_vec,
};
use crate::base::sanitize::{
    collapse_ws, normalize_entities_spec, normalize_entities_vec, normalize_ws_spec, normalize_ws_vec,
};
use crate::text::{char_is_ws, trim, trim_end, trim_start};

verus! {

pub open spec fn opt_pair(o: Option<(usize, usize)>) -> Option<(int, int)> {
    match o {
        Some((a, b)) => Some((a as int, b as int)),
        None => None,
    }
}

/// The next block that starts with `o` (any case) at or after `from`, runs
/// through the first `>` after that, and ends after the first `c` (any case)
/// that follows: `(start, end)` with `end` just past `c`.
pub open spec fn tag_block_spec(s: Seq<char>, o: Seq<char>, c: Seq<char>, from: int) -> Option<(int, int)> {
    if from < 0 || from > s.len() {
        None
    } else {
        match find_ci_from(s, o, from) {
            None => None,
            Some(st) => match find_char_from(s, '>', st) {
                None => None,
                Some(g) => match find_ci_from(s, c, g + 1) {
                    None => None,
                    Some(e) => Some((st, e + c.len())),
                },
            },
        }
    }
}

/// Bounds of the text between the end of the first opening tag that starts
/// with `o` (any case) and the next `c` (any case).
pub open spec fn between_spec(s: Seq<char>, o: Seq<char>, c: Seq<char>) -> Option<(int, int)> {
    match find_ci_from(s, o, 0) {
        None => None,
        Some(oi) => match find_char_from(s, '>', oi) {
            None => None,
            Some(g) => match find_ci_from(s, c, g + 1) {
                None => None,
                Some(ci) => Some((g + 1, ci)),
            },
        },
    }
}

/// The text of `s` between the first opening tag matching `o` and the next `c`.
pub open spec fn slice_between_spec(s: Seq<char>, o: Seq<char>, c: Seq<char>) -> Option<Seq<char>> {
    match between_spec(s, o, c) {
        None => None,
        Some((a, b)) => Some(s.subrange(a, b)),
    }
}

/// `"<td ...>INNER</td>"` gives `"INNER"`: the text after the first `>` and
/// before the last `<`, or empty when there is no such pair.
pub open spec fn inner_spec(b: Seq<char>) -> Seq<char> {
    match find_char_from(b, '>', 0) {
        None => Seq::empty(),
        Some(oe) => match rfind_char(b, '<') {
            Some(cs) if cs > oe => b.subrange(oe + 1, cs),
            _ => Seq::empty(),
        },
    }
}

/// Characters outside `<...>`; `in_tag` tells whether scanning starts inside a tag.
pub open spec fn drop_tags(s: Seq<char>, in_tag: bool) -> Seq<char>
    decreases s.len(),
{
    if s.len() == 0 {
        Seq::empty()
    } else if s[0] == '<' {
        drop_tags(s.drop_first(), true)
    } else if s[0] == '>' {
        drop_tags(s.drop_first(), false)
    } else if !in_tag {
        seq![s[0]] + drop_tags(s.drop_first(), in_tag)
    } else {
        drop_tags(s.drop_first(), in_tag)
    }
}

/// Tags removed, then whitespace normalised.
pub open spec fn strip_tags_spec(s: Seq<char>) -> Seq<char> {
    normalize_ws_spec(drop_tags(s, false))
}

/// Cell text: entities decoded, tags removed, whitespace normalised.
pub open spec fn clean_spec(s: Seq<char>) -> Seq<char> {
    strip_tags_spec(normalize_entities_spec(s))
}

/// Next tag block (see `tag_block_spec`).
pub fn tag_block(s: &[char], o: &[char], c: &[char], from: usize) -> (r: Option<(usize, usize)>)
    ensures
        opt_pair(r) == tag_block_spec(s@, o@, c@, from as int),
        r matches Some((a, b)) ==> from <= a < b <= s@.len(),
{
    if from > s.len() {
        return None;
    }
    let st = match find_ci(s, o, from) {
        None => return None,
        Some(x) => x,
    };
    proof {
        lemma_find_ci_from(s@, o@, from as int);
    }
    let g = match find_char(s, '>', st) {
        None => return None,
        Some(x) => x,
    };
    proof {
        lemma_find_char_from(s@, '>', st as int);
    }
    let e = match find_ci(s, c, g + 1) {
        None => return None,
        Some(x) => x,
    };
    proof {
        lemma_find_ci_from(s@, c@, g + 1);
    }
    Some((st, e + c.len()))
}

/// Bounds of the text between an opening tag and a closing pattern.
pub fn between(s: &[char], o: &[char], c: &[char]) -> (r: Option<(usize, usize)>)
    ensures
        opt_pair(r) == between_spec(s@, o@, c@),
        r matches Some((a, b)) ==> a <= b <= s@.len(),
{
    let _n = s.len();
    let oi = match find_ci(s, o, 0) {
        None => return None,
        Some(x) => x,
    };
    proof {
        lemma_find_ci_from(s@, o@, 0);
    }
    let g = match find_char(s, '>', oi) {
        None => return None,
        Some(x) => x,
    };
    proof {
        lemma_find_char_from(s@, '>', oi as int);
    }
    let e = match find_ci(s, c, g + 1) {
        None => return None,
        Some(x) => x,
    };
    proof {
        lemma_find_ci_from(s@, c@, g + 1);
    }
    Some((g + 1, e))
}

pub fn inner_vec(b: &[char]) -> (v: Vec<char>)
    ensures
        v@ == inner_spec(b@),
{
    proof {
        lemma_find_char_from(b@, '>', 0);
        lemma_rfind_char_before(b@, '<', b@.len() as int);
    }
    match find_char(b, '>', 0) {
        None => Vec::new(),
        Some(oe) => match rfind_char_exec(b, '<') {
            Some(cs) => {
                if cs > oe {
                    sub_vec(b, oe + 1, cs)
                } else {
                    Vec::new()
                }
            },
            None => Vec::new(),
        },
    }
}

pub fn drop_tags_vec(s: &[char]) -> (v: Vec<char>)
    ensures
        v@ == drop_tags(s@, false),
{
    let mut out: Vec<char> = Vec::new();
    let mut in_tag = false;
    let mut i: usize = 0;
    assert(s@.skip(0) =~= s@);
    while i < s.len()
        invariant
            i <= s@.len(),
            drop_tags(s@, false) == out@ + drop_tags(s@.skip(i as int), in_tag),
        decreases s@.len() - i,
    {
        assert(s@.skip(i as int).drop_first() =~= s@.skip(i + 1));
        let ch = s[i];
        if ch == '<' {
            in_tag = true;
        } else if ch == '>' {
            in_tag = false;
        } else if !in_tag {
            out.push(ch);
        }
        i = i + 1;
    }
    out
}

pub fn strip_tags_vec(s: &[char]) -> (v: Vec<char>)
    ensures
        v@ == strip_tags_spec(s@),
{
    let d = drop_tags_vec(s);
    normalize_ws_vec(&d)
}

pub fn clean_vec(s: &[char]) -> (v: Vec<char>)
    ensures
        v@ == clean_spec(s@),
{
    let e = normalize_entities_vec(s);
    strip_tags_vec(&e)
}

/// ASCII-lowercased copy of `s`; other characters are kept as they are.
pub fn to_lower(s: &str) -> (r: String)
    ensures
        r@ == lower_seq(s@),
{
    let v = chars_of(s);
    string_of(&lower_vec(&v))
}

/// ASCII-lowercased copy of `s`, enough for tags and attributes.
pub fn to_lowercase_fast(s: &str) -> (r: String)
    ensures
        r@ == lower_seq(s@),
{
    to_lower(s)
}

/// Case-insensitive slice between an opening tag (with attributes) and its
/// closing pattern, e.g. `slice_between_ci(html, "<table class=teamroster", "</table>")`.
pub fn slice_between_ci(s: &str, open_pat: &str, close_pat: &str) -> (r: Option<String>)
    ensures
        r matches Some(t) ==> slice_between_spec(s@, open_pat@, close_pat@) == Some(t@),
        r is None <==> slice_between_spec(s@, open_pat@, close_pat@) is None,
{
    let sv = chars_of(s);
    let o = chars_of(open_pat);
    let c = chars_of(close_pat);
    match between(&sv, &o, &c) {
        None => None,
        Some((a, b)) => Some(string_of(&sub_vec(&sv, a, b))),
    }
}

/// Byte offset, in the UTF-8 encoding of `s`, of character position `k`.
pub open spec fn byte_at(s: Seq<char>, k: int) -> int {
    vstd::utf8::encode_utf8(s.take(k)).len() as int
}

/// The character position from `k` on that starts at byte offset `b`
/// (the end of the text counts), if any.
pub open spec fn char_at_byte_from(s: Seq<char>, b: int, k: int) -> Option<int>
    decreases s.len() - k,
{
    if k < 0 || k > s.len() {
        None
    } else if byte_at(s, k) == b {
        Some(k)
    } else if byte_at(s, k) > b || k == s.len() {
        None
    } else {
        char_at_byte_from(s, b, k + 1)
    }
}

/// The character position that starts at byte offset `b`, if any.
pub open spec fn char_at_byte(s: Seq<char>, b: int) -> Option<int> {
    char_at_byte_from(s, b, 0)
}

/// The block of `tag_block_spec` in byte offsets: `from` and both ends
/// count bytes of the UTF-8 text; nothing where `from` is not the start of
/// a character or the end.
pub open spec fn tag_block_bytes(s: Seq<char>, o: Seq<char>, c: Seq<char>, from: int) -> Option<(int, int)> {
    match char_at_byte(s, from) {
        None => None,
        Some(k) => match tag_block_spec(s, o, c, k) {
            None => None,
            Some((a, e)) => Some((byte_at(s, a), byte_at(s, e))),
        },
    }
}

proof fn lemma_encode_concat(a: Seq<char>, b: Seq<char>)
    ensures
        vstd::utf8::encode_utf8(a + b) == vstd::utf8::encode_utf8(a) + vstd::utf8::encode_utf8(b),
    decreases a.len(),
{
    if a.len() == 0 {
        assert(a + b =~= b);
        assert(vstd::utf8::encode_utf8(a) + vstd::utf8::encode_utf8(b) =~= vstd::utf8::encode_utf8(b));
    } else {
        assert((a + b)[0] == a[0]);
        assert((a + b).drop_first() =~= a.drop_first() + b);
        lemma_encode_concat(a.drop_first(), b);
        let e = vstd::utf8::encode_scalar(a[0] as u32);
        assert(e + (vstd::utf8::encode_utf8(a.drop_first()) + vstd::utf8::encode_utf8(b)) =~= (e + vstd::utf8::encode_utf8(
            a.drop_first(),
        )) + vstd::utf8::encode_utf8(b));
    }
}

/// Bytes of `c` in UTF-8.
fn utf8_width(c: char) -> (w: u8)
    ensures
        w as int == vstd::utf8::encode_scalar(c as u32).len(),
{
    proof {
        vstd::utf8::char_is_scalar(c);
    }
    let u = c as u32;
    if u < 0x80 {
        1
    } else if u < 0x800 {
        2
    } else if u < 0x10000 {
        3
    } else {
        4
    }
}

proof fn lemma_byte_step(s: Seq<char>, k: int)
    requires
        0 <= k < s.len(),
    ensures
        byte_at(s, k + 1) == byte_at(s, k) + vstd::utf8::encode_scalar(s[k] as u32).len(),
{
    assert(s.take(k + 1) =~= s.take(k) + seq![s[k]]);
    lemma_encode_concat(s.take(k), seq![s[k]]);
    let one = seq![s[k]];
    assert(one.drop_first() =~= Seq::<char>::empty());
    assert(vstd::utf8::encode_utf8(Seq::<char>::empty()) =~= Seq::<u8>::empty());
    assert(vstd::utf8::encode_utf8(one) == vstd::utf8::encode_scalar(one[0] as u32) + vstd::utf8::encode_utf8(
        one.drop_first(),
    ));
    assert(vstd::utf8::encode_utf8(one) =~= vstd::utf8::encode_scalar(s[k] as u32));
}

proof fn lemma_byte_bound(s: Seq<char>, k: int)
    requires
        0 <= k <= s.len(),
    ensures
        0 <= byte_at(s, k) <= vstd::utf8::encode_utf8(s).len(),
{
    assert(s =~= s.take(k) + s.skip(k));
    lemma_encode_concat(s.take(k), s.skip(k));
}

/// The character position at byte offset `b` (see `char_at_byte`).
fn char_index_at_byte(s: &[char], b: usize) -> (r: Option<usize>)
    ensures
        match r {
            Some(k) => char_at_byte(s@, b as int) == Some(k as int),
            None => char_at_byte(s@, b as int) is None,
        },
{
    let mut k: usize = 0;
    let mut acc: u128 = 0;
    assert(s@.take(0) =~= Seq::<char>::empty());
    while k < s.len() && acc < b as u128
        invariant
            k <= s@.len(),
            acc as int == byte_at(s@, k as int),
            char_at_byte(s@, b as int) == char_at_byte_from(s@, b as int, k as int),
            acc <= b as u128 + 4,
        decreases s@.len() - k,
    {
        proof {
            lemma_byte_step(s@, k as int);
        }
        let w = utf8_width(s[k]);
        acc = acc + w as u128;
        k = k + 1;
    }
    if acc == b as u128 {
        Some(k)
    } else {
        None
    }
}

/// Byte offset of character position `k` (see `byte_at`).
fn byte_offset(s: &[char], k: usize, total: usize) -> (b: usize)
    requires
        k <= s@.len(),
        total as int == vstd::utf8::encode_utf8(s@).len(),
    ensures
        b as int == byte_at(s@, k as int),
{
    let mut i: usize = 0;
    let mut acc: usize = 0;
    assert(s@.take(0) =~= Seq::<char>::empty());
    while i < k
        invariant
            i <= k <= s@.len(),
            total as int == vstd::utf8::encode_utf8(s@).len(),
            acc as int == byte_at(s@, i as int),
        decreases k - i,
    {
        proof {
            lemma_byte_step(s@, i as int);
            lemma_byte_bound(s@, i + 1);
        }
        let w = utf8_width(s[i]);
        acc = acc + w as usize;
        i = i + 1;
    }
    acc
}

/// Next `<open ...> ... close` block at or after byte offset `from`,
/// case-insensitive (see `tag_block_bytes`): `(start, end)` are byte
/// offsets into `s`, `end` just past the closing pattern.
pub fn next_tag_block_ci(s: &str, o: &str, c: &str, from: usize) -> (r: Option<(usize, usize)>)
    ensures
        opt_pair(r) == tag_block_bytes(s@, o@, c@, from as int),
{
    let total = s.as_bytes().len();
    let sv = chars_of(s);
    let ov = chars_of(o);
    let cv = chars_of(c);
    let k = match char_index_at_byte(&sv, from) {
        None => return None,
        Some(k) => k,
    };
    proof {
        lemma_char_at_byte_bound(sv@, from as int, 0);
    }
    match tag_block(&sv, &ov, &cv, k) {
        None => None,
        Some((a, e)) => Some((byte_offset(&sv, a, total), byte_offset(&sv, e, total))),
    }
}

proof fn lemma_char_at_byte_bound(s: Seq<char>, b: int, k: int)
    requires
        0 <= k,
    ensures
        char_at_byte_from(s, b, k) matches Some(j) ==> 0 <= j <= s.len(),
    decreases s.len() - k,
{
    if k <= s.len() && byte_at(s, k) < b && k < s.len() {
        lemma_char_at_byte_bound(s, b, k + 1);
    }
}

/// Given `"<td ...>INNER</td>"`, return `"INNER"`.
pub fn inner_after_open_tag(block: &str) -> (r: String)
    ensures
        r@ == inner_spec(block@),
{
    let b = chars_of(block);
    string_of(&inner_vec(&b))
}

/// Remove `<...>` segments, then collapse whitespace.
pub fn strip_tags(s: &str) -> (r: String)
    ensures
        r@ == strip_tags_spec(s@),
{
    let v = chars_of(s);
    string_of(&strip_tags_vec(&v))
}

pub proof fn lemma_tag_block(s: Seq<char>, o: Seq<char>, c: Seq<char>, from: int)
    ensures
        tag_block_spec(s, o, c, from) matches Some((a, b)) ==> 0 <= from <= a < b <= s.len(),
{
    if 0 <= from <= s.len() {
        lemma_find_ci_from(s, o, from);
        if let Some(st) = find_ci_from(s, o, from) {
            lemma_find_char_from(s, '>', st);
            if let Some(g) = find_char_from(s, '>', st) {
                lemma_find_ci_from(s, c, g + 1);
            }
        }
    }
}

/// Cleaned text of each `<td>...</td>` block of `s`, from position `pos` on.
pub open spec fn td_cells_from(s: Seq<char>, pos: int) -> Seq<Seq<char>>
    decreases s.len() - pos,
{
    match tag_block_spec(s, "<td"@, "</td>"@, pos) {
        None => Seq::empty(),
        Some((a, b)) => {
            proof {
                lemma_tag_block(s, "<td"@, "</td>"@, pos);
            }
            seq![clean_spec(inner_spec(s.subrange(a, b)))] + td_cells_from(s, b)
        },
    }
}

/// Cleaned text of every `<td>` block of `s`.
pub fn td_cells(s: &[char]) -> (v: Vec<Vec<char>>)
    ensures
        v.deep_view() == td_cells_from(s@, 0),
{
    let o = chars_of("<td");
    let c = chars_of("</td>");
    let mut out: Vec<Vec<char>> = Vec::new();
    let mut pos: usize = 0;
    loop
        invariant
            pos <= s@.len(),
            o@ == "<td"@,
            c@ == "</td>"@,
            td_cells_from(s@, 0) == out.deep_view() + td_cells_from(s@, pos as int),
        decreases s@.len() - pos,
    {
        match tag_block(s, &o, &c, pos) {
            None => {
                assert(out.deep_view() + td_cells_from(s@, pos as int) =~= out.deep_view());
                return out;
            },
            Some((a, b)) => {
                let blk = sub_vec(s, a, b);
                let cell = clean_vec(&inner_vec(&blk));
                let ghost prev = out.deep_view();
                assert(cell.deep_view() =~= cell@);
                out.push(cell);
                assert(out.deep_view() =~= prev.push(cell@));
                assert(prev + td_cells_from(s@, pos as int) =~= out.deep_view() + td_cells_from(s@, b as int));
                pos = b;
            },
        }
    }
}

/* ---------------- normalised text ---------------- */

/// Whitespace only as single spaces, never two in a row.
pub open spec fn single_spaced(y: Seq<char>) -> bool {
    forall|i: int| 0 <= i < y.len() && #[trigger] char_is_ws(y[i]) ==> y[i] == ' ' && (i + 1 < y.len() ==> !char_is_ws(
        y[i + 1],
    ))
}

proof fn lemma_collapse_single(x: Seq<char>, prev: bool)
    ensures
        single_spaced(collapse_ws(x, prev)),
        prev ==> collapse_ws(x, prev).len() == 0 || !char_is_ws(collapse_ws(x, prev)[0]),
        forall|i: int| 0 <= i < collapse_ws(x, prev).len() ==> (#[trigger] collapse_ws(x, prev)[i] == ' ' || x.contains(
            collapse_ws(x, prev)[i],
        )),
    decreases x.len(),
{
    if x.len() > 0 {
        let rest = x.drop_first();
        lemma_collapse_single(rest, true);
        lemma_collapse_single(rest, false);
        let y = collapse_ws(x, prev);
        let r = if char_is_ws(x[0]) { collapse_ws(rest, true) } else { collapse_ws(rest, false) };
        assert forall|i: int| 0 <= i < y.len() implies (#[trigger] y[i] == ' ' || x.contains(y[i])) by {
            if char_is_ws(x[0]) && prev {
                assert(y[i] == r[i]);
            } else if i > 0 {
                assert(y[i] == r[i - 1]);
            } else {
                assert(x[0] == x[0]);
            }
            if !(y[i] == ' ') {
                if char_is_ws(x[0]) && prev {
                    assert(rest.contains(y[i]));
                } else if i > 0 {
                    assert(rest.contains(y[i]));
                }
                if rest.contains(y[i]) {
                    let k = choose|k: int| 0 <= k < rest.len() && rest[k] == y[i];
                    assert(x[k + 1] == y[i]);
                }
            }
        }
        assert forall|i: int| 0 <= i < y.len() && #[trigger] char_is_ws(y[i]) implies y[i] == ' ' && (i + 1 < y.len()
            ==> !char_is_ws(y[i + 1])) by {
            if char_is_ws(x[0]) && prev {
                assert(y[i] == r[i]);
                if i + 1 < y.len() {
                    assert(y[i + 1] == r[i + 1]);
                }
            } else if i > 0 {
                assert(y[i] == r[i - 1]);
                if i + 1 < y.len() {
                    assert(y[i + 1] == r[i]);
                }
            } else {
                if i + 1 < y.len() {
                    assert(y[1] == r[0]);
                }
            }
        }
    }
}

proof fn lemma_trim_bounds(s: Seq<char>)
    ensures
        exists|a: int, b: int|
            0 <= a <= b <= s.len() && trim(s) == s.subrange(a, b) && (a < b ==> !char_is_ws(s[a]) && !char_is_ws(
                s[b - 1],
            )),
{
    lemma_trim_start_skip(s);
    let a = choose|a: int| 0 <= a <= s.len() && trim_start(s) == s.skip(a) && (a < s.len() ==> !char_is_ws(s[a]));
    let t = s.skip(a);
    lemma_trim_end_take(t);
    let b = choose|b: int| 0 <= b <= t.len() && trim_end(t) == t.take(b) && (b > 0 ==> !char_is_ws(t[b - 1]));
    assert(t.take(b) =~= s.subrange(a, a + b));
    if b > 0 {
        assert(t[0] == s[a]);
        assert(t[b - 1] == s[a + b - 1]);
    }
}

proof fn lemma_trim_start_skip(s: Seq<char>)
    ensures
        exists|a: int| 0 <= a <= s.len() && trim_start(s) == s.skip(a) && (a < s.len() ==> !char_is_ws(s[a])),
    decreases s.len(),
{
    if s.len() > 0 && char_is_ws(s[0]) {
        lemma_trim_start_skip(s.drop_first());
        let a = choose|a: int|
            0 <= a <= s.drop_first().len() && trim_start(s.drop_first()) == s.drop_first().skip(a) && (a < s.drop_first().len()
                ==> !char_is_ws(s.drop_first()[a]));
        assert(s.drop_first().skip(a) =~= s.skip(a + 1));
        if a < s.drop_first().len() {
            assert(s.drop_first()[a] == s[a + 1]);
        }
    } else {
        assert(s.skip(0) =~= s);
    }
}

proof fn lemma_trim_end_take(s: Seq<char>)
    ensures
        exists|b: int| 0 <= b <= s.len() && trim_end(s) == s.take(b) && (b > 0 ==> !char_is_ws(s[b - 1])),
    decreases s.len(),
{
    if s.len() > 0 && char_is_ws(s.last()) {
        lemma_trim_end_take(s.drop_last());
        let b = choose|b: int|
            0 <= b <= s.drop_last().len() && trim_end(s.drop_last()) == s.drop_last().take(b) && (b > 0 ==> !char_is_ws(
                s.drop_last()[b - 1],
            ));
        assert(s.drop_last().take(b) =~= s.take(b));
        if b > 0 {
            assert(s.drop_last()[b - 1] == s[b - 1]);
        }
    } else {
        assert(s.take(s.len() as int) =~= s);
    }
}

pub(crate) proof fn lemma_collapse_fixed(y: Seq<char>, prev: bool)
    requires
        single_spaced(y),
        prev ==> y.len() == 0 || !char_is_ws(y[0]),
    ensures
        collapse_ws(y, prev) == y,
    decreases y.len(),
{
    if y.len() > 0 {
        let rest = y.drop_first();
        assert(single_spaced(rest)) by {
            assert forall|i: int| 0 <= i < rest.len() && #[trigger] char_is_ws(rest[i]) implies rest[i] == ' ' && (i + 1
                < rest.len() ==> !char_is_ws(rest[i + 1])) by {
                assert(rest[i] == y[i + 1]);
                if i + 1 < rest.len() {
                    assert(rest[i + 1] == y[i + 2]);
                }
            }
        }
        if char_is_ws(y[0]) {
            assert(y[0] == ' ');
            if rest.len() > 0 {
                assert(rest[0] == y[1]);
            }
            lemma_collapse_fixed(rest, true);
        } else {
            lemma_collapse_fixed(rest, false);
        }
        assert(y =~= seq![y[0]] + rest);
    }
}

/// Normalised text holds no whitespace but single inner spaces, and
/// normalising it again changes nothing; every other character comes from
/// the input.
pub proof fn normalized_text_is_stable(s: Seq<char>)
    ensures
        normalize_ws_spec(normalize_ws_spec(s)) == normalize_ws_spec(s),
        forall|i: int| 0 <= i < normalize_ws_spec(s).len() ==> (#[trigger] normalize_ws_spec(s)[i] == ' ' || s.contains(
            normalize_ws_spec(s)[i],
        )),
{
    let c = collapse_ws(s, false);
    lemma_collapse_single(s, false);
    lemma_trim_bounds(c);
    let (a, b) = choose|a: int, b: int|
        0 <= a <= b <= c.len() && trim(c) == c.subrange(a, b) && (a < b ==> !char_is_ws(c[a]) && !char_is_ws(c[b - 1]));
    let y = c.subrange(a, b);
    assert(single_spaced(y)) by {
        assert forall|i: int| 0 <= i < y.len() && #[trigger] char_is_ws(y[i]) implies y[i] == ' ' && (i + 1 < y.len()
            ==> !char_is_ws(y[i + 1])) by {
            assert(y[i] == c[a + i]);
            if i + 1 < y.len() {
                assert(y[i + 1] == c[a + i + 1]);
            }
        }
    }
    if y.len() > 0 {
        assert(y[0] == c[a]);
        assert(y.last() == c[b - 1]);
    }
    lemma_collapse_fixed(y, false);
    crate::text::lemma_trim_plain(y);
    assert forall|i: int| 0 <= i < y.len() implies (#[trigger] y[i] == ' ' || s.contains(y[i])) by {
        assert(y[i] == c[a + i]);
    }
}

/// No `<` or `>` in `s`.
pub open spec fn no_brackets(s: Seq<char>) -> bool {
    forall|i: int| 0 <= i < s.len() ==> #[trigger] s[i] != '<' && s[i] != '>'
}

proof fn lemma_drop_tags_plain(s: Seq<char>, in_tag: bool)
    ensures
        no_brackets(drop_tags(s, in_tag)),
    decreases s.len(),
{
    if s.len() > 0 {
        let rest = s.drop_first();
        lemma_drop_tags_plain(rest, true);
        lemma_drop_tags_plain(rest, false);
        if s[0] != '<' && s[0] != '>' && !in_tag {
            let d = drop_tags(s, in_tag);
            let r = drop_tags(rest, in_tag);
            assert forall|i: int| 0 <= i < d.len() implies #[trigger] d[i] != '<' && d[i] != '>' by {
                if i > 0 {
                    assert(d[i] == r[i - 1]);
                }
            }
        }
    }
}

pub(crate) proof fn lemma_drop_tags_id(s: Seq<char>)
    requires
        no_brackets(s),
    ensures
        drop_tags(s, false) == s,
    decreases s.len(),
{
    if s.len() > 0 {
        let rest = s.drop_first();
        assert(s[0] != '<' && s[0] != '>');
        assert(no_brackets(rest)) by {
            assert forall|i: int| 0 <= i < rest.len() implies #[trigger] rest[i] != '<' && rest[i] != '>' by {
                assert(rest[i] == s[i + 1]);
            }
        }
        lemma_drop_tags_id(rest);
        assert(s =~= seq![s[0]] + rest);
    }
}

/// Text with its tags stripped holds no `<` or `>`, and stripping it again
/// changes nothing.
pub proof fn stripped_text_is_plain(s: Seq<char>)
    ensures
        no_brackets(strip_tags_spec(s)),
        strip_tags_spec(strip_tags_spec(s)) == strip_tags_spec(s),
{
    let d = drop_tags(s, false);
    let r = strip_tags_spec(s);
    lemma_drop_tags_plain(s, false);
    normalized_text_is_stable(d);
    assert forall|i: int| 0 <= i < r.len() implies #[trigger] r[i] != '<' && r[i] != '>' by {
        if r[i] != ' ' {
            let k = choose|k: int| 0 <= k < d.len() && d[k] == r[i];
            assert(d[k] != '<' && d[k] != '>');
        }
    }
    lemma_drop_tags_id(r);
}

} // verus!
