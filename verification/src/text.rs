//! Character-sequence primitives shared by every parser in the crate.
//!
//! Text is modelled as `Seq<char>`; executable helpers work on `&[char]`
//! and `Vec<char>`, and convert from `&str` / to `String` at the edges.
//! Positions are counted in characters.

use vstd::prelude::*;

verus! {

broadcast use {vstd::string::group_string_axioms, vstd::slice::group_slice_axioms};

/// `String::push` appends one character to the end of the string.
pub assume_specification[ String::push ](s: &mut String, ch: char)
    ensures
        final(s)@ == old(s)@.push(ch),
;

/* ------------------------------------------------------------------ */
/* conversions                                                        */
/* ------------------------------------------------------------------ */

/// The characters of `s`, in order.
pub fn chars_of(s: &str) -> (v: Vec<char>)
    ensures
        v@ == s@,
{
    let mut v: Vec<char> = Vec::new();
    for c in it: s.chars()
        invariant
            v@ == it.seq().take(it.index()),
    {
        v.push(c);
    }
    v
}

/// A `String` holding exactly the characters of `v`.
pub fn string_of(v: &[char]) -> (s: String)
    ensures
        s@ == v@,
{
    let mut s = String::new();
    let mut i: usize = 0;
    while i < v.len()
        invariant
            i <= v@.len(),
            s@ == v@.take(i as int),
        decreases v@.len() - i,
    {
        s.push(v[i]);
        i = i + 1;
        assert(v@.take(i as int) == v@.take(i - 1).push(v@[i - 1]));
    }
    assert(v@.take(i as int) == v@);
    s
}

/// Copy of `s[a..b]`.
pub fn sub_vec(s: &[char], a: usize, b: usize) -> (v: Vec<char>)
    requires
        a <= b <= s@.len(),
    ensures
        v@ == s@.subrange(a as int, b as int),
{
    vstd::slice::slice_to_vec(vstd::slice::slice_subrange(s, a, b))
}

/// Append all of `t` to `v`.
pub fn push_all(v: &mut Vec<char>, t: &[char])
    ensures
        final(v)@ == old(v)@ + t@,
{
    let mut i: usize = 0;
    while i < t.len()
        invariant
            i <= t@.len(),
            v@ == old(v)@ + t@.take(i as int),
        decreases t@.len() - i,
    {
        v.push(t[i]);
        i = i + 1;
        assert(t@.take(i as int) == t@.take(i - 1).push(t@[i - 1]));
    }
    assert(t@.take(i as int) == t@);
}

/// Append one text to a list of texts.
pub fn push_text(v: &mut Vec<Vec<char>>, t: Vec<char>)
    ensures
        final(v).deep_view() == old(v).deep_view().push(t@),
{
    let ghost prev = v.deep_view();
    assert(t.deep_view() =~= t@);
    v.push(t);
    assert(v.deep_view() =~= prev.push(t@));
}

/// Equality of two character slices.
pub fn seq_eq(a: &[char], b: &[char]) -> (r: bool)
    ensures
        r == (a@ == b@),
{
    if a.len() != b.len() {
        return false;
    }
    let mut i: usize = 0;
    while i < a.len()
        invariant
            a@.len() == b@.len(),
            i <= a@.len(),
            forall|k: int| 0 <= k < i ==> a@[k] == b@[k],
        decreases a@.len() - i,
    {
        if a[i] != b[i] {
            return false;
        }
        i = i + 1;
    }
    assert(a@ =~= b@);
    true
}

/* ------------------------------------------------------------------ */
/* character classes                                                  */
/* ------------------------------------------------------------------ */

/// ASCII lowercase of `c`; every other character is unchanged.
pub open spec fn lower(c: char) -> char {
    if 'A' <= c && c <= 'Z' {
        ((c as u32) + 32) as char
    } else {
        c
    }
}

/// ASCII uppercase of `c`; every other character is unchanged.
pub open spec fn upper(c: char) -> char {
    if 'a' <= c && c <= 'z' {
        ((c as u32) - 32) as char
    } else {
        c
    }
}

pub open spec fn lower_seq(s: Seq<char>) -> Seq<char> {
    s.map_values(|c: char| lower(c))
}

pub open spec fn upper_seq(s: Seq<char>) -> Seq<char> {
    s.map_values(|c: char| upper(c))
}

pub open spec fn is_digit(c: char) -> bool {
    '0' <= c && c <= '9'
}

pub open spec fn is_ascii_letter(c: char) -> bool {
    ('a' <= c && c <= 'z') || ('A' <= c && c <= 'Z')
}

pub open spec fn is_ascii_alnum(c: char) -> bool {
    is_ascii_letter(c) || is_digit(c)
}

/// ASCII whitespace as `u8::is_ascii_whitespace` sees it.
pub open spec fn is_ascii_ws(c: char) -> bool {
    c == ' ' || c == '\t' || c == '\n' || c == '\x0C' || c == '\r'
}

/// Whether a character outside ASCII has the Unicode `White_Space` property:
/// U+0085, U+00A0, U+1680, U+2000..=U+200A, U+2028, U+2029, U+202F, U+205F
/// and U+3000.
#[verifier::opaque]
pub open spec fn unicode_ws(c: char) -> bool {
    let u = c as u32;
    u == 0x85 || u == 0xA0 || u == 0x1680 || (0x2000 <= u && u <= 0x200A) || u == 0x2028 || u == 0x2029 || u == 0x202F
        || u == 0x205F || u == 0x3000
}

/// Whether a character outside ASCII has the Unicode `Alphabetic` property.
pub uninterp spec fn unicode_alpha(c: char) -> bool;

/// Whether `c` has the Unicode `White_Space` property (`char::is_whitespace`):
/// within ASCII exactly U+0009..=U+000D and the space.
pub open spec fn char_is_ws(c: char) -> bool {
    if (c as u32) < 128 { c == ' ' || ('\t' <= c && c <= '\r') } else { unicode_ws(c) }
}

/// Whether `c` has the Unicode `Alphabetic` property (`char::is_alphabetic`):
/// within ASCII exactly the letters.
pub open spec fn char_is_alpha(c: char) -> bool {
    if (c as u32) < 128 { is_ascii_letter(c) } else { unicode_alpha(c) }
}

/// `char::is_whitespace`: whether `c` has the Unicode `White_Space`
/// property, which holds exactly for U+0009..=U+000D, U+0020 and the code
/// points that `unicode_ws` lists.
#[verifier::external_body]
pub fn is_ws(c: char) -> (b: bool)
    ensures
        b == char_is_ws(c),
{
    c.is_whitespace()
}

/// `char::is_alphabetic`. Within ASCII the Unicode `Alphabetic` property
/// holds exactly for the letters `A-Z` and `a-z`; outside ASCII the result
/// is left to the Unicode tables and only named.
#[verifier::external_body]
pub fn is_alpha(c: char) -> (b: bool)
    ensures
        b == char_is_alpha(c),
        (c as u32) >= 128 ==> b == unicode_alpha(c),
{
    c.is_alphabetic()
}

pub fn lower_char(c: char) -> (r: char)
    ensures
        r == lower(c),
{
    if 'A' <= c && c <= 'Z' {
        ((c as u8) + 32) as char
    } else {
        c
    }
}

pub fn upper_char(c: char) -> (r: char)
    ensures
        r == upper(c),
{
    if 'a' <= c && c <= 'z' {
        ((c as u8) - 32) as char
    } else {
        c
    }
}

pub fn is_digit_char(c: char) -> (b: bool)
    ensures
        b == is_digit(c),
{
    '0' <= c && c <= '9'
}

pub fn is_ascii_ws_char(c: char) -> (b: bool)
    ensures
        b == is_ascii_ws(c),
{
    c == ' ' || c == '\t' || c == '\n' || c == '\x0C' || c == '\r'
}

/// ASCII-lowercased copy of `s`.
pub fn lower_vec(s: &[char]) -> (v: Vec<char>)
    ensures
        v@ == lower_seq(s@),
{
    let mut v: Vec<char> = Vec::new();
    let mut i: usize = 0;
    while i < s.len()
        invariant
            i <= s@.len(),
            v@ == lower_seq(s@.take(i as int)),
        decreases s@.len() - i,
    {
        v.push(lower_char(s[i]));
        i = i + 1;
        assert(lower_seq(s@.take(i as int)) =~= lower_seq(s@.take(i - 1)).push(lower(s@[i - 1])));
    }
    assert(s@.take(i as int) == s@);
    v
}

/// ASCII-uppercased copy of `s`.
pub fn upper_vec(s: &[char]) -> (v: Vec<char>)
    ensures
        v@ == upper_seq(s@),
{
    let mut v: Vec<char> = Vec::new();
    let mut i: usize = 0;
    while i < s.len()
        invariant
            i <= s@.len(),
            v@ == upper_seq(s@.take(i as int)),
        decreases s@.len() - i,
    {
        v.push(upper_char(s[i]));
        i = i + 1;
        assert(upper_seq(s@.take(i as int)) =~= upper_seq(s@.take(i - 1)).push(upper(s@[i - 1])));
    }
    assert(s@.take(i as int) == s@);
    v
}

/* ------------------------------------------------------------------ */
/* searching                                                          */
/* ------------------------------------------------------------------ */

/// `p` occurs in `s` at position `i`.
pub open spec fn match_at(s: Seq<char>, p: Seq<char>, i: int) -> bool {
    0 <= i && i + p.len() <= s.len() && s.subrange(i, i + p.len()) == p
}

/// `p` occurs in `s` at position `i`, ignoring ASCII case.
pub open spec fn match_ci_at(s: Seq<char>, p: Seq<char>, i: int) -> bool {
    0 <= i && i + p.len() <= s.len() && lower_seq(s.subrange(i, i + p.len())) == lower_seq(p)
}

/// First position `>= i` where `p` occurs in `s`.
pub open spec fn find_from(s: Seq<char>, p: Seq<char>, i: int) -> Option<int>
    decreases s.len() + 1 - i,
{
    if i < 0 || i + p.len() > s.len() {
        None
    } else if match_at(s, p, i) {
        Some(i)
    } else {
        find_from(s, p, i + 1)
    }
}

/// First position `>= i` where `p` occurs in `s`, ignoring ASCII case.
pub open spec fn find_ci_from(s: Seq<char>, p: Seq<char>, i: int) -> Option<int>
    decreases s.len() + 1 - i,
{
    if i < 0 || i + p.len() > s.len() {
        None
    } else if match_ci_at(s, p, i) {
        Some(i)
    } else {
        find_ci_from(s, p, i + 1)
    }
}

/// First position `>= i` holding `c`.
pub open spec fn find_char_from(s: Seq<char>, c: char, i: int) -> Option<int>
    decreases s.len() - i,
{
    if i < 0 || i >= s.len() {
        None
    } else if s[i] == c {
        Some(i)
    } else {
        find_char_from(s, c, i + 1)
    }
}

/// Last position `< n` holding `c`.
pub open spec fn rfind_char_before(s: Seq<char>, c: char, n: int) -> Option<int>
    decreases n,
{
    if n <= 0 || n > s.len() {
        None
    } else if s[n - 1] == c {
        Some(n - 1)
    } else {
        rfind_char_before(s, c, n - 1)
    }
}

pub open spec fn rfind_char(s: Seq<char>, c: char) -> Option<int> {
    rfind_char_before(s, c, s.len() as int)
}

pub open spec fn contains(s: Seq<char>, p: Seq<char>) -> bool {
    find_from(s, p, 0) is Some
}

pub open spec fn contains_ci(s: Seq<char>, p: Seq<char>) -> bool {
    find_ci_from(s, p, 0) is Some
}

pub open spec fn opt_int(o: Option<usize>) -> Option<int> {
    match o {
        Some(x) => Some(x as int),
        None => None,
    }
}

/// `p` occurs at `i` (exact case).
pub fn match_at_exec(s: &[char], p: &[char], i: usize) -> (b: bool)
    ensures
        b == match_at(s@, p@, i as int),
{
    if i > s.len() || p.len() > s.len() - i {
        return false;
    }
    let mut k: usize = 0;
    while k < p.len()
        invariant
            i + p.len() <= s.len(),
            k <= p@.len(),
            forall|j: int| 0 <= j < k ==> s@[i + j] == p@[j],
        decreases p@.len() - k,
    {
        if s[i + k] != p[k] {
            assert(s@.subrange(i as int, i + p@.len())[k as int] != p@[k as int]);
            return false;
        }
        k = k + 1;
    }
    assert(s@.subrange(i as int, i + p@.len()) =~= p@);
    true
}

/// `p` occurs at `i`, ignoring ASCII case.
pub fn match_ci_at_exec(s: &[char], p: &[char], i: usize) -> (b: bool)
    ensures
        b == match_ci_at(s@, p@, i as int),
{
    if i > s.len() || p.len() > s.len() - i {
        return false;
    }
    let mut k: usize = 0;
    while k < p.len()
        invariant
            i + p.len() <= s.len(),
            k <= p@.len(),
            forall|j: int| 0 <= j < k ==> lower(s@[i + j]) == lower(p@[j]),
        decreases p@.len() - k,
    {
        if lower_char(s[i + k]) != lower_char(p[k]) {
            assert(lower_seq(s@.subrange(i as int, i + p@.len()))[k as int] != lower_seq(p@)[k as int]);
            return false;
        }
        k = k + 1;
    }
    assert(lower_seq(s@.subrange(i as int, i + p@.len())) =~= lower_seq(p@));
    true
}

/// First occurrence of `p` in `s` at or after `from`.
pub fn find(s: &[char], p: &[char], from: usize) -> (r: Option<usize>)
    ensures
        opt_int(r) == find_from(s@, p@, from as int),
{
    if p.len() == 0 {
        if from <= s.len() {
            assert(s@.subrange(from as int, from as int) =~= p@);
            return Some(from);
        }
        return None;
    }
    let mut i = from;
    while i < s.len() && p.len() <= s.len() - i
        invariant
            from <= i,
            p@.len() > 0,
            find_from(s@, p@, from as int) == find_from(s@, p@, i as int),
        decreases s@.len() - i,
    {
        if match_at_exec(s, p, i) {
            return Some(i);
        }
        i = i + 1;
    }
    None
}

/// First occurrence of `p` in `s` at or after `from`, ignoring ASCII case.
pub fn find_ci(s: &[char], p: &[char], from: usize) -> (r: Option<usize>)
    ensures
        opt_int(r) == find_ci_from(s@, p@, from as int),
{
    if p.len() == 0 {
        if from <= s.len() {
            assert(s@.subrange(from as int, from as int) =~= p@);
            return Some(from);
        }
        return None;
    }
    let mut i = from;
    while i < s.len() && p.len() <= s.len() - i
        invariant
            from <= i,
            p@.len() > 0,
            find_ci_from(s@, p@, from as int) == find_ci_from(s@, p@, i as int),
        decreases s@.len() - i,
    {
        if match_ci_at_exec(s, p, i) {
            return Some(i);
        }
        i = i + 1;
    }
    None
}

/// First occurrence of `c` in `s` at or after `from`.
pub fn find_char(s: &[char], c: char, from: usize) -> (r: Option<usize>)
    ensures
        opt_int(r) == find_char_from(s@, c, from as int),
{
    let mut i = from;
    while i < s.len()
        invariant
            from <= i,
            find_char_from(s@, c, from as int) == find_char_from(s@, c, i as int),
        decreases s@.len() - i,
    {
        if s[i] == c {
            return Some(i);
        }
        i = i + 1;
    }
    None
}

/// Last occurrence of `c` in `s`.
pub fn rfind_char_exec(s: &[char], c: char) -> (r: Option<usize>)
    ensures
        opt_int(r) == rfind_char(s@, c),
{
    let mut n = s.len();
    while n > 0
        invariant
            n <= s@.len(),
            rfind_char(s@, c) == rfind_char_before(s@, c, n as int),
        decreases n,
    {
        if s[n - 1] == c {
            return Some(n - 1);
        }
        n = n - 1;
    }
    None
}

pub fn contains_exec(s: &[char], p: &[char]) -> (b: bool)
    ensures
        b == contains(s@, p@),
{
    find(s, p, 0).is_some()
}


pub fn starts_with(s: &[char], p: &[char]) -> (b: bool)
    ensures
        b == match_at(s@, p@, 0),
{
    match_at_exec(s, p, 0)
}



pub proof fn lemma_find_from(s: Seq<char>, p: Seq<char>, i: int)
    requires
        0 <= i,
    ensures
        find_from(s, p, i) matches Some(j) ==> i <= j && match_at(s, p, j) && j + p.len() <= s.len()
            && forall|k: int| i <= k < j ==> !#[trigger] match_at(s, p, k),
        find_from(s, p, i) is None ==> forall|k: int| i <= k ==> !#[trigger] match_at(s, p, k),
    decreases s.len() + 1 - i,
{
    if i + p.len() > s.len() {
    } else if match_at(s, p, i) {
    } else {
        lemma_find_from(s, p, i + 1);
    }
}

pub proof fn lemma_find_ci_from(s: Seq<char>, p: Seq<char>, i: int)
    requires
        0 <= i,
    ensures
        find_ci_from(s, p, i) matches Some(j) ==> i <= j && match_ci_at(s, p, j) && j + p.len() <= s.len()
            && forall|k: int| i <= k < j ==> !#[trigger] match_ci_at(s, p, k),
        find_ci_from(s, p, i) is None ==> forall|k: int| i <= k ==> !#[trigger] match_ci_at(s, p, k),
    decreases s.len() + 1 - i,
{
    if i + p.len() > s.len() {
    } else if match_ci_at(s, p, i) {
    } else {
        lemma_find_ci_from(s, p, i + 1);
    }
}

pub proof fn lemma_find_char_from(s: Seq<char>, c: char, i: int)
    requires
        0 <= i,
    ensures
        find_char_from(s, c, i) matches Some(j) ==> i <= j < s.len() && s[j] == c
            && forall|k: int| i <= k < j ==> #[trigger] s[k] != c,
        find_char_from(s, c, i) is None ==> forall|k: int| i <= k < s.len() ==> #[trigger] s[k] != c,
    decreases s.len() - i,
{
    if i >= s.len() {
    } else if s[i] == c {
    } else {
        lemma_find_char_from(s, c, i + 1);
    }
}

pub proof fn lemma_rfind_char_before(s: Seq<char>, c: char, n: int)
    requires
        0 <= n <= s.len(),
    ensures
        rfind_char_before(s, c, n) matches Some(j) ==> 0 <= j < n && s[j] == c
            && forall|k: int| j < k < n ==> #[trigger] s[k] != c,
        rfind_char_before(s, c, n) is None ==> forall|k: int| 0 <= k < n ==> #[trigger] s[k] != c,
    decreases n,
{
    if n > 0 && s[n - 1] != c {
        lemma_rfind_char_before(s, c, n - 1);
    }
}

/* ------------------------------------------------------------------ */
/* trimming                                                           */
/* ------------------------------------------------------------------ */

/// `s` without its leading Unicode whitespace.
pub open spec fn trim_start(s: Seq<char>) -> Seq<char>
    decreases s.len(),
{
    if s.len() > 0 && char_is_ws(s[0]) {
        trim_start(s.drop_first())
    } else {
        s
    }
}

/// `s` without its trailing Unicode whitespace.
pub open spec fn trim_end(s: Seq<char>) -> Seq<char>
    decreases s.len(),
{
    if s.len() > 0 && char_is_ws(s.last()) {
        trim_end(s.drop_last())
    } else {
        s
    }
}

/// `s` without leading and trailing Unicode whitespace (`str::trim`).
pub open spec fn trim(s: Seq<char>) -> Seq<char> {
    trim_end(trim_start(s))
}

/// Text that neither starts nor ends with whitespace is its own trim.
pub proof fn lemma_trim_plain(s: Seq<char>)
    requires
        s.len() == 0 || (!char_is_ws(s[0]) && !char_is_ws(s.last())),
    ensures
        trim(s) == s,
{
}

/// Index of the first non-whitespace character at or after `from` (or the length).
pub fn skip_ws(s: &[char], from: usize) -> (a: usize)
    requires
        from <= s@.len(),
    ensures
        from <= a <= s@.len(),
        trim_start(s@.skip(from as int)) == s@.skip(a as int),
{
    let mut a = from;
    while a < s.len() && is_ws(s[a])
        invariant
            from <= a <= s@.len(),
            trim_start(s@.skip(from as int)) == trim_start(s@.skip(a as int)),
        decreases s@.len() - a,
    {
        assert(s@.skip(a as int).drop_first() =~= s@.skip(a + 1));
        a = a + 1;
    }
    a
}

/// End of `s[from..to]` once trailing whitespace is dropped.
pub fn back_ws(s: &[char], from: usize, to: usize) -> (b: usize)
    requires
        from <= to <= s@.len(),
    ensures
        from <= b <= to,
        trim_end(s@.subrange(from as int, to as int)) == s@.subrange(from as int, b as int),
{
    let mut b = to;
    while b > from && is_ws(s[b - 1])
        invariant
            from <= b <= to,
            to <= s@.len(),
            trim_end(s@.subrange(from as int, to as int)) == trim_end(s@.subrange(from as int, b as int)),
        decreases b,
    {
        assert(s@.subrange(from as int, b as int).drop_last() =~= s@.subrange(from as int, b - 1));
        b = b - 1;
    }
    b
}

pub fn trim_vec(s: &[char]) -> (v: Vec<char>)
    ensures
        v@ == trim(s@),
{
    let a = skip_ws(s, 0);
    assert(s@.skip(0) =~= s@);
    let b = back_ws(s, a, s.len());
    assert(s@.skip(a as int) =~= s@.subrange(a as int, s@.len() as int));
    sub_vec(s, a, b)
}

pub fn trim_start_vec(s: &[char]) -> (v: Vec<char>)
    ensures
        v@ == trim_start(s@),
{
    let a = skip_ws(s, 0);
    assert(s@.skip(0) =~= s@);
    sub_vec(s, a, s.len())
}

pub fn trim_end_vec(s: &[char]) -> (v: Vec<char>)
    ensures
        v@ == trim_end(s@),
{
    let b = back_ws(s, 0, s.len());
    assert(s@.subrange(0, s@.len() as int) =~= s@);
    sub_vec(s, 0, b)
}

/* ------------------------------------------------------------------ */
/* digits and numbers                                                 */
/* ------------------------------------------------------------------ */

/// The maximal run of ASCII digits at the start of `s`.
pub open spec fn leading_digits(s: Seq<char>) -> Seq<char>
    decreases s.len(),
{
    if s.len() > 0 && is_digit(s[0]) {
        seq![s[0]] + leading_digits(s.drop_first())
    } else {
        Seq::empty()
    }
}

/// The first maximal run of ASCII digits anywhere in `s` (empty if none).
pub open spec fn first_digit_run(s: Seq<char>) -> Seq<char>
    decreases s.len(),
{
    if s.len() == 0 {
        Seq::empty()
    } else if is_digit(s[0]) {
        leading_digits(s)
    } else {
        first_digit_run(s.drop_first())
    }
}

/// The ASCII digits of `s`, in order.
pub open spec fn only_digits(s: Seq<char>) -> Seq<char>
    decreases s.len(),
{
    if s.len() == 0 {
        Seq::empty()
    } else if is_digit(s[0]) {
        seq![s[0]] + only_digits(s.drop_first())
    } else {
        only_digits(s.drop_first())
    }
}

pub proof fn lemma_leading_digits(s: Seq<char>)
    ensures
        leading_digits(s).len() <= s.len(),
        leading_digits(s) == s.take(leading_digits(s).len() as int),
        forall|k: int| 0 <= k < leading_digits(s).len() ==> is_digit(#[trigger] s[k]),
        leading_digits(s).len() < s.len() ==> !is_digit(s[leading_digits(s).len() as int]),
    decreases s.len(),
{
    if s.len() > 0 && is_digit(s[0]) {
        lemma_leading_digits(s.drop_first());
        assert(leading_digits(s) =~= s.take(leading_digits(s).len() as int));
        assert forall|k: int| 0 <= k < leading_digits(s).len() implies is_digit(#[trigger] s[k]) by {
            if k > 0 {
                assert(s[k] == s.drop_first()[k - 1]);
            }
        }
    }
}

/// The run of digits that starts at `from`.
pub fn take_digits(s: &[char], from: usize) -> (v: Vec<char>)
    requires
        from <= s@.len(),
    ensures
        v@ == leading_digits(s@.skip(from as int)),
{
    let mut i = from;
    while i < s.len() && is_digit_char(s[i])
        invariant
            from <= i <= s@.len(),
            leading_digits(s@.skip(from as int)) == s@.subrange(from as int, i as int) + leading_digits(
                s@.skip(i as int),
            ),
        decreases s@.len() - i,
    {
        assert(s@.skip(i as int).drop_first() =~= s@.skip(i + 1));
        assert(s@.subrange(from as int, i + 1) =~= s@.subrange(from as int, i as int) + seq![s@[i as int]]);
        i = i + 1;
    }
    assert(s@.subrange(from as int, i as int) + leading_digits(s@.skip(i as int)) =~= s@.subrange(
        from as int,
        i as int,
    ));
    sub_vec(s, from, i)
}

/// The first run of digits in `s[from..]`.
pub fn first_digits(s: &[char], from: usize) -> (v: Vec<char>)
    requires
        from <= s@.len(),
    ensures
        v@ == first_digit_run(s@.skip(from as int)),
{
    let mut i = from;
    while i < s.len() && !is_digit_char(s[i])
        invariant
            from <= i <= s@.len(),
            first_digit_run(s@.skip(from as int)) == first_digit_run(s@.skip(i as int)),
        decreases s@.len() - i,
    {
        assert(s@.skip(i as int).drop_first() =~= s@.skip(i + 1));
        i = i + 1;
    }
    take_digits(s, i)
}

/// The ASCII digits of `s`, in order.
pub fn digits_only(s: &[char]) -> (v: Vec<char>)
    ensures
        v@ == only_digits(s@),
{
    let mut v: Vec<char> = Vec::new();
    let mut i: usize = 0;
    assert(s@.skip(0) =~= s@);
    while i < s.len()
        invariant
            i <= s@.len(),
            only_digits(s@) == v@ + only_digits(s@.skip(i as int)),
        decreases s@.len() - i,
    {
        assert(s@.skip(i as int).drop_first() =~= s@.skip(i + 1));
        if is_digit_char(s[i]) {
            v.push(s[i]);
        }
        i = i + 1;
    }
    v
}

pub open spec fn digit_value(c: char) -> nat {
    ((c as u32) - ('0' as u32)) as nat
}

/// Decimal value of a digit string.
pub open spec fn digits_value(s: Seq<char>) -> nat
    decreases s.len(),
{
    if s.len() == 0 {
        0
    } else {
        digits_value(s.drop_last()) * 10 + digit_value(s.last())
    }
}

pub open spec fn all_digits(s: Seq<char>) -> bool {
    forall|k: int| 0 <= k < s.len() ==> is_digit(#[trigger] s[k])
}

/// What `str::parse::<u32>` accepts: an optional `+`, then one or more
/// ASCII digits whose value fits in a `u32`.
pub open spec fn parse_u32_spec(s: Seq<char>) -> Option<u32> {
    let d = if s.len() > 0 && s[0] == '+' { s.drop_first() } else { s };
    if d.len() > 0 && all_digits(d) && digits_value(d) <= u32::MAX {
        Some(digits_value(d) as u32)
    } else {
        None
    }
}

pub fn parse_u32(s: &[char]) -> (r: Option<u32>)
    ensures
        r == parse_u32_spec(s@),
{
    let start: usize = if s.len() > 0 && s[0] == '+' { 1 } else { 0 };
    let ghost d = s@.skip(start as int);
    assert(d =~= (if s@.len() > 0 && s@[0] == '+' { s@.drop_first() } else { s@ }));
    if start >= s.len() {
        return None;
    }
    let mut acc: u64 = 0;
    let mut over = false;
    let mut i = start;
    while i < s.len()
        invariant
            start <= i <= s@.len(),
            d == s@.skip(start as int),
            d =~= (if s@.len() > 0 && s@[0] == '+' { s@.drop_first() } else { s@ }),
            forall|k: int| start <= k < i ==> is_digit(#[trigger] s@[k]),
            !over ==> acc == digits_value(s@.subrange(start as int, i as int)) && acc <= u32::MAX,
            over ==> digits_value(s@.subrange(start as int, i as int)) > u32::MAX,
        decreases s@.len() - i,
    {
        let c = s[i];
        if !is_digit_char(c) {
            assert(d[i - start] == c);
            assert(!all_digits(d));
            return None;
        }
        let ghost prev = s@.subrange(start as int, i as int);
        assert(s@.subrange(start as int, i + 1).drop_last() =~= prev);
        if !over {
            acc = acc * 10 + ((c as u32) - ('0' as u32)) as u64;
            if acc > 4294967295 {
                over = true;
            }
        }
        i = i + 1;
    }
    assert(s@.subrange(start as int, i as int) =~= d);
    if over {
        None
    } else {
        Some(acc as u32)
    }
}

pub open spec fn digit_char(d: nat) -> char {
    (('0' as u32) + d) as char
}

/// Decimal representation of `n` without leading zeros.
pub open spec fn decimal(n: nat) -> Seq<char>
    decreases n,
{
    if n < 10 {
        seq![digit_char(n)]
    } else {
        decimal(n / 10).push(digit_char(n % 10))
    }
}

pub proof fn lemma_decimal_digits(n: nat)
    ensures
        decimal(n).len() > 0,
        forall|k: int| 0 <= k < decimal(n).len() ==> is_digit(#[trigger] decimal(n)[k]),
    decreases n,
{
    if n >= 10 {
        lemma_decimal_digits(n / 10);
    }
}

/// Decimal representation of `n` (`u64::to_string`).
pub fn decimal_vec(n: u64) -> (v: Vec<char>)
    ensures
        v@ == decimal(n as nat),
    decreases n,
{
    let d = ((n % 10) as u8 + 48) as char;
    if n < 10 {
        let mut v: Vec<char> = Vec::new();
        v.push(d);
        v
    } else {
        let mut v = decimal_vec(n / 10);
        v.push(d);
        v
    }
}

/* ------------------------------------------------------------------ */
/* replacing and splitting                                            */
/* ------------------------------------------------------------------ */

/// Every non-overlapping occurrence of `p` (scanning left to right)
/// replaced by `r` (`str::replace`).
pub open spec fn replace_all(s: Seq<char>, p: Seq<char>, r: Seq<char>) -> Seq<char>
    decreases s.len(),
{
    if s.len() == 0 || p.len() == 0 {
        s
    } else if match_at(s, p, 0) {
        r + replace_all(s.skip(p.len() as int), p, r)
    } else {
        seq![s[0]] + replace_all(s.drop_first(), p, r)
    }
}

pub fn replace_vec(s: &[char], p: &[char], r: &[char]) -> (v: Vec<char>)
    requires
        p@.len() > 0,
    ensures
        v@ == replace_all(s@, p@, r@),
{
    let mut v: Vec<char> = Vec::new();
    let mut i: usize = 0;
    assert(s@.skip(0) =~= s@);
    while i < s.len()
        invariant
            i <= s@.len(),
            p@.len() > 0,
            replace_all(s@, p@, r@) == v@ + replace_all(s@.skip(i as int), p@, r@),
        decreases s@.len() - i,
    {
        let ghost t = s@.skip(i as int);
        if match_at_exec(s, p, i) {
            assert(t.subrange(0, p@.len() as int) =~= s@.subrange(i as int, i + p@.len()));
            assert(t.skip(p@.len() as int) =~= s@.skip(i + p@.len()));
            push_all(&mut v, r);
            i = i + p.len();
        } else {
            proof {
                if i + p@.len() <= s@.len() {
                    assert(t.subrange(0, p@.len() as int) =~= s@.subrange(i as int, i + p@.len()));
                }
            }
            assert(t.drop_first() =~= s@.skip(i + 1));
            v.push(s[i]);
            i = i + 1;
        }
    }
    assert(s@.skip(i as int) =~= Seq::<char>::empty());
    v
}

/// Pieces of `s` between non-overlapping occurrences of `p` (`str::split`).
pub open spec fn split_on(s: Seq<char>, p: Seq<char>) -> Seq<Seq<char>>
    decreases s.len(),
{
    if p.len() == 0 {
        seq![s]
    } else {
        match find_from(s, p, 0) {
            None => seq![s],
            Some(i) => {
                proof {
                    lemma_find_from(s, p, 0);
                }
                seq![s.take(i)] + split_on(s.skip(i + p.len()), p)
            },
        }
    }
}

pub fn split_vec(s: &[char], p: &[char]) -> (v: Vec<Vec<char>>)
    requires
        p@.len() > 0,
    ensures
        v.deep_view() == split_on(s@, p@),
{
    let mut v: Vec<Vec<char>> = Vec::new();
    let mut i: usize = 0;
    assert(v.deep_view() + split_on(s@.skip(0), p@) =~= split_on(s@, p@)) by {
        assert(s@.skip(0) =~= s@);
    }
    loop
        invariant
            i <= s@.len(),
            p@.len() > 0,
            split_on(s@, p@) == v.deep_view() + split_on(s@.skip(i as int), p@),
        decreases s@.len() - i,
    {
        let ghost t = s@.skip(i as int);
        let ghost prev = v.deep_view();
        let f = find(s, p, i);
        proof {
            lemma_find_from(s@, p@, i as int);
            lemma_find_from(t, p@, 0);
            assert forall|k: int| 0 <= k implies #[trigger] match_at(t, p@, k) == match_at(s@, p@, k + i) by {
                if 0 <= k && k + p@.len() <= t.len() {
                    assert(t.subrange(k, k + p@.len()) =~= s@.subrange(k + i, k + i + p@.len()));
                }
            }
        }
        match f {
            None => {
                assert(find_from(t, p@, 0) is None) by {
                    if find_from(t, p@, 0) is Some {
                        let k = find_from(t, p@, 0)->0;
                        assert(match_at(s@, p@, k + i));
                    }
                }
                let piece = sub_vec(s, i, s.len());
                assert(piece@ =~= t);
                assert(piece.deep_view() =~= piece@);
                v.push(piece);
                assert(v.deep_view() =~= prev.push(t));
                assert(split_on(t, p@) == seq![t]);
                assert(prev + seq![t] =~= prev.push(t));
                return v;
            },
            Some(j) => {
                assert(find_from(t, p@, 0) == Some(j - i)) by {
                    let k = j - i;
                    assert(match_at(t, p@, k));
                    if find_from(t, p@, 0) is None {
                        assert(false);
                    } else {
                        let m = find_from(t, p@, 0)->0;
                        assert(match_at(s@, p@, m + i));
                        if m < k {
                            assert(!match_at(s@, p@, m + i));
                        }
                        if m > k {
                            assert(!match_at(t, p@, k));
                        }
                    }
                }
                let piece = sub_vec(s, i, j);
                assert(piece@ =~= t.take(j - i));
                assert(t.skip(j - i + p@.len()) =~= s@.skip(j + p@.len()));
                assert(piece.deep_view() =~= piece@);
                assert(j + p@.len() <= s@.len());
                assert(j + p.len() <= s.len());
                v.push(piece);
                assert(v.deep_view() =~= prev.push(t.take(j - i)));
                assert(split_on(t, p@) == seq![t.take(j - i)] + split_on(s@.skip(j + p@.len()), p@));
                assert(prev + split_on(t, p@) =~= v.deep_view() + split_on(s@.skip(j + p@.len()), p@));
                i = j + p.len();
            },
        }
    }
}

/// Each character vector as a `String`.
pub fn strings_of(v: &Vec<Vec<char>>) -> (r: Vec<String>)
    ensures
        r.deep_view() == v.deep_view(),
{
    let mut r: Vec<String> = Vec::new();
    let mut i: usize = 0;
    while i < v.len()
        invariant
            i <= v@.len(),
            r.deep_view() == v.deep_view().take(i as int),
        decreases v@.len() - i,
    {
        let ghost prev = r.deep_view();
        let s = string_of(&v[i]);
        assert(v@[i as int].deep_view() =~= v@[i as int]@);
        r.push(s);
        assert(r.deep_view() =~= prev.push(v@[i as int]@));
        assert(v.deep_view().take(i + 1) =~= v.deep_view().take(i as int).push(v@[i as int]@));
        i = i + 1;
    }
    assert(v.deep_view().take(i as int) =~= v.deep_view());
    r
}


/// A character vector, if present, by its view.
pub open spec fn opt_chars(o: Option<Vec<char>>) -> Option<Seq<char>> {
    match o {
        None => None,
        Some(v) => Some(v@),
    }
}

/// A list of texts, if present, by its view.
pub open spec fn opt_texts(o: Option<Vec<String>>) -> Option<Seq<Seq<char>>> {
    match o {
        None => None,
        Some(v) => Some(v.deep_view()),
    }
}

/// Rows as strings.
pub fn rows_of(v: &Vec<Vec<Vec<char>>>) -> (r: Vec<Vec<String>>)
    ensures
        r.deep_view() == v.deep_view(),
{
    let mut r: Vec<Vec<String>> = Vec::new();
    let mut i: usize = 0;
    while i < v.len()
        invariant
            i <= v@.len(),
            r.deep_view() == v.deep_view().take(i as int),
        decreases v@.len() - i,
    {
        let ghost prev = r.deep_view();
        let row = strings_of(&v[i]);
        r.push(row);
        assert(r.deep_view() =~= prev.push(v@[i as int].deep_view()));
        assert(v.deep_view().take(i + 1) =~= v.deep_view().take(i as int).push(v@[i as int].deep_view()));
        i = i + 1;
    }
    assert(v.deep_view().take(i as int) =~= v.deep_view());
    r
}

} // verus!
