//! The text side of a plain HTTP/1.1 GET: the request line and headers, the
//! end of the response head, the status and body framing, chunk sizes.

use vstd::prelude::*;
use crate::text::{
    chars_of, contains, contains_exec, lower_seq, lower_vec, push_all, split_on, split_vec, string_of,
    sub_vec, trim, trim_vec,
};
use crate::tokens::has_prefix;

verus! {

/// `prefix` without trailing `/`, a `/`, then `path` without leading `/`.
pub open spec fn join_prefix_spec(prefix: Seq<char>, path: Seq<char>) -> Seq<char> {
    strip_trailing(prefix, '/') + seq!['/'] + strip_leading(path, '/')
}

/// `s` without its trailing `c` characters.
pub open spec fn strip_trailing(s: Seq<char>, c: char) -> Seq<char>
    decreases s.len(),
{
    if s.len() > 0 && s.last() == c { strip_trailing(s.drop_last(), c) } else { s }
}

/// `s` without its leading `c` characters.
pub open spec fn strip_leading(s: Seq<char>, c: char) -> Seq<char>
    decreases s.len(),
{
    if s.len() > 0 && s[0] == c { strip_leading(s.drop_first(), c) } else { s }
}

fn strip_trailing_vec(s: &[char], c: char) -> (v: Vec<char>)
    ensures
        v@ == strip_trailing(s@, c),
{
    let mut b = s.len();
    assert(s@.take(b as int) =~= s@);
    while b > 0 && s[b - 1] == c
        invariant
            b <= s@.len(),
            strip_trailing(s@, c) == strip_trailing(s@.take(b as int), c),
        decreases b,
    {
        assert(s@.take(b as int).drop_last() =~= s@.take(b - 1));
        b = b - 1;
    }
    assert(s@.subrange(0, b as int) =~= s@.take(b as int));
    sub_vec(s, 0, b)
}

fn strip_leading_vec(s: &[char], c: char) -> (v: Vec<char>)
    ensures
        v@ == strip_leading(s@, c),
{
    let mut a: usize = 0;
    assert(s@.skip(0) =~= s@);
    while a < s.len() && s[a] == c
        invariant
            a <= s@.len(),
            strip_leading(s@, c) == strip_leading(s@.skip(a as int), c),
        decreases s@.len() - a,
    {
        assert(s@.skip(a as int).drop_first() =~= s@.skip(a + 1));
        a = a + 1;
    }
    assert(s@.subrange(a as int, s@.len() as int) =~= s@.skip(a as int));
    sub_vec(s, a, s.len())
}

/// Path on the server: `prefix` and `path` joined by exactly one `/`.
pub fn join_prefix_and_path(prefix: &str, path: &str) -> (r: String)
    ensures
        r@ == join_prefix_spec(prefix@, path@),
{
    let mut v = strip_trailing_vec(&chars_of(prefix), '/');
    v.push('/');
    push_all(&mut v, &strip_leading_vec(&chars_of(path), '/'));
    string_of(&v)
}

/// The request sent for `full` on `host`.
pub open spec fn request_spec(full: Seq<char>, host: Seq<char>) -> Seq<char> {
    "GET "@ + full + " HTTP/1.1\r\nHost: "@ + host
        + "\r\nUser-Agent: bb_scrape/0.4\r\nConnection: close\r\nAccept-Encoding: identity\r\n\r\n"@
}

/// The GET request for the server path `full` on `host`.
pub fn request_text(full: &str, host: &str) -> (r: String)
    ensures
        r@ == request_spec(full@, host@),
{
    let mut v = chars_of("GET ");
    push_all(&mut v, &chars_of(full));
    push_all(&mut v, &chars_of(" HTTP/1.1\r\nHost: "));
    push_all(&mut v, &chars_of(host));
    push_all(&mut v, &chars_of("\r\nUser-Agent: bb_scrape/0.4\r\nConnection: close\r\nAccept-Encoding: identity\r\n\r\n"));
    string_of(&v)
}

/// The response head is complete once it ends with an empty line.
pub open spec fn head_complete_spec(buf: Seq<u8>) -> bool {
    (buf.len() >= 4 && buf.subrange(buf.len() - 4, buf.len() as int) == seq![13u8, 10u8, 13u8, 10u8])
        || (buf.len() >= 2 && buf.subrange(buf.len() - 2, buf.len() as int) == seq![10u8, 10u8])
}

/// Whether the bytes read so far end the response head (`\r\n\r\n` or `\n\n`).
pub fn head_complete(buf: &[u8]) -> (b: bool)
    ensures
        b == head_complete_spec(buf@),
{
    let n = buf.len();
    let crlf2 = n >= 4 && buf[n - 4] == 13 && buf[n - 3] == 10 && buf[n - 2] == 13 && buf[n - 1] == 10;
    let lf2 = n >= 2 && buf[n - 2] == 10 && buf[n - 1] == 10;
    proof {
        if n >= 4 {
            let t = buf@.subrange(n - 4, n as int);
            if t == seq![13u8, 10u8, 13u8, 10u8] {
                assert(t[0] == 13u8 && t[1] == 10u8 && t[2] == 13u8 && t[3] == 10u8);
            }
            if crlf2 {
                assert(t =~= seq![13u8, 10u8, 13u8, 10u8]);
            }
        }
        if n >= 2 {
            let t = buf@.subrange(n - 2, n as int);
            if t == seq![10u8, 10u8] {
                assert(t[0] == 10u8 && t[1] == 10u8);
            }
            if lf2 {
                assert(t =~= seq![10u8, 10u8]);
            }
        }
    }
    crlf2 || lf2
}

/// What the head of a response says.
pub struct ResponseHead {
    /// The status line (first non-empty line).
    pub status: String,
    /// The status line holds `200`.
    pub ok: bool,
    /// The value of the last `Content-Length` header, where it reads as a
    /// number.
    pub content_length: Option<usize>,
    /// A `Transfer-Encoding` header names `chunked`.
    pub chunked: bool,
}

/// Value of a decimal number (optional `+`), when it fits in `usize`.
pub open spec fn parse_usize_spec(s: Seq<char>) -> Option<usize> {
    let d = if s.len() > 0 && s[0] == '+' { s.drop_first() } else { s };
    if d.len() > 0 && crate::text::all_digits(d) && crate::text::digits_value(d) <= usize::MAX {
        Some(crate::text::digits_value(d) as usize)
    } else {
        None
    }
}

pub fn parse_usize(s: &[char]) -> (r: Option<usize>)
    ensures
        r == parse_usize_spec(s@),
{
    let start: usize = if s.len() > 0 && s[0] == '+' { 1 } else { 0 };
    let ghost d = s@.skip(start as int);
    assert(d =~= (if s@.len() > 0 && s@[0] == '+' { s@.drop_first() } else { s@ }));
    if start >= s.len() {
        return None;
    }
    let mut acc: u128 = 0;
    let mut over = false;
    let mut i = start;
    while i < s.len()
        invariant
            start <= i <= s@.len(),
            d == s@.skip(start as int),
            d =~= (if s@.len() > 0 && s@[0] == '+' { s@.drop_first() } else { s@ }),
            forall|k: int| start <= k < i ==> crate::text::is_digit(#[trigger] s@[k]),
            !over ==> acc == crate::text::digits_value(s@.subrange(start as int, i as int)) && acc <= usize::MAX,
            over ==> crate::text::digits_value(s@.subrange(start as int, i as int)) > usize::MAX,
        decreases s@.len() - i,
    {
        let c = s[i];
        if !crate::text::is_digit_char(c) {
            assert(d[i - start] == c);
            assert(!crate::text::all_digits(d));
            return None;
        }
        let ghost prev = s@.subrange(start as int, i as int);
        assert(s@.subrange(start as int, i + 1).drop_last() =~= prev);
        if !over {
            acc = acc * 10 + ((c as u32) - ('0' as u32)) as u128;
            if acc > usize::MAX as u128 {
                over = true;
            }
        }
        i = i + 1;
    }
    assert(s@.subrange(start as int, i as int) =~= d);
    if over {
        None
    } else {
        Some(acc as usize)
    }
}

/// Header lines of a head: its `\r\n`-separated non-empty pieces.
pub open spec fn head_lines(h: Seq<char>) -> Seq<Seq<char>> {
    split_on(h, "\r\n"@).filter(|l: Seq<char>| l.len() > 0)
}

/// Framing read from the header lines after the status line, from `k` on:
/// the value of the last `content-length:` line, where it reads as a
/// number, and whether any `transfer-encoding:` line names `chunked`
/// (names in any case).
pub open spec fn framing_from(lines: Seq<Seq<char>>, k: int, cl: Option<usize>, chunked: bool) -> (Option<usize>, bool)
    decreases lines.len() - k,
{
    if k < 0 || k >= lines.len() {
        (cl, chunked)
    } else {
        let lower = lower_seq(lines[k]);
        if has_prefix(lower, "content-length:"@) {
            framing_from(lines, k + 1, parse_usize_spec(trim(lower.skip(15))), chunked)
        } else if has_prefix(lower, "transfer-encoding:"@) && contains(lower, "chunked"@) {
            framing_from(lines, k + 1, cl, true)
        } else {
            framing_from(lines, k + 1, cl, chunked)
        }
    }
}

/// The head's status line (empty when there is none) and framing.
pub open spec fn head_spec(h: Seq<char>) -> (Seq<char>, Option<usize>, bool) {
    let lines = head_lines(h);
    let status = if lines.len() > 0 { lines[0] } else { Seq::empty() };
    let (cl, ch) = framing_from(lines, 1, None, false);
    (status, cl, ch)
}

/// Read the head of a response (its text as received).
pub fn parse_head(head: &str) -> (r: ResponseHead)
    ensures
        r.status@ == head_spec(head@).0,
        r.ok == contains(head_spec(head@).0, "200"@),
        r.content_length == head_spec(head@).1,
        r.chunked == head_spec(head@).2,
{
    proof {
        reveal_strlit("\r\n");
    }
    let pieces = split_vec(&chars_of(head), &chars_of("\r\n"));
    let ghost ps = pieces.deep_view();
    let mut lines: Vec<Vec<char>> = Vec::new();
    let mut i: usize = 0;
    while i < pieces.len()
        invariant
            i <= pieces@.len(),
            ps == pieces.deep_view(),
            lines.deep_view() == ps.take(i as int).filter(|l: Seq<char>| l.len() > 0),
        decreases pieces@.len() - i,
    {
        assert(ps[i as int] == pieces@[i as int]@);
        assert(ps.take(i + 1).drop_last() =~= ps.take(i as int));
        reveal(Seq::filter);
        if pieces[i].len() > 0 {
            let ghost prev = lines.deep_view();
            let p = sub_vec(pieces[i].as_slice(), 0, pieces[i].len());
            assert(p@ =~= ps[i as int]);
            crate::text::push_text(&mut lines, p);
        }
        i = i + 1;
    }
    assert(ps.take(i as int) =~= ps);
    let status: Vec<char> = if lines.len() > 0 {
        assert(lines.deep_view()[0] == lines@[0]@);
        sub_vec(lines[0].as_slice(), 0, lines[0].len())
    } else {
        Vec::new()
    };
    assert(lines.len() > 0 ==> status@ =~= lines.deep_view()[0]);
    let mut cl: Option<usize> = None;
    let mut chunked = false;
    let mut k: usize = 1;
    let p_len = chars_of("content-length:");
    let p_te = chars_of("transfer-encoding:");
    let p_ch = chars_of("chunked");
    proof {
        reveal_strlit("content-length:");
    }
    while k < lines.len()
        invariant
            1 <= k,
            k <= lines@.len() || lines@.len() == 0,
            p_len@ == "content-length:"@,
            p_len@.len() == 15,
            p_te@ == "transfer-encoding:"@,
            p_ch@ == "chunked"@,
            framing_from(lines.deep_view(), 1, None, false) == framing_from(lines.deep_view(), k as int, cl, chunked),
        decreases lines@.len() - k,
    {
        assert(lines.deep_view()[k as int] == lines@[k as int]@);
        let lower = lower_vec(lines[k].as_slice());
        if crate::text::starts_with(&lower, &p_len) {
            let v = trim_vec(&sub_vec(&lower, 15, lower.len()));
            assert(lower@.subrange(15, lower@.len() as int) =~= lower@.skip(15));
            cl = parse_usize(&v);
        } else if crate::text::starts_with(&lower, &p_te) && contains_exec(&lower, &p_ch) {
            chunked = true;
        }
        k = k + 1;
    }
    let ok = contains_exec(&status, &chars_of("200"));
    ResponseHead { status: string_of(&status), ok, content_length: cl, chunked }
}

/// Value of a hexadecimal number (optional `+`), when it fits in `usize`.
pub open spec fn hex_value(c: char) -> nat {
    if '0' <= c && c <= '9' {
        ((c as u32) - ('0' as u32)) as nat
    } else if 'a' <= c && c <= 'f' {
        ((c as u32) - ('a' as u32) + 10) as nat
    } else {
        ((c as u32) - ('A' as u32) + 10) as nat
    }
}

pub open spec fn is_hex(c: char) -> bool {
    ('0' <= c && c <= '9') || ('a' <= c && c <= 'f') || ('A' <= c && c <= 'F')
}

pub open spec fn all_hex(d: Seq<char>) -> bool {
    forall|k: int| 0 <= k < d.len() ==> is_hex(#[trigger] d[k])
}

pub open spec fn hex_digits_value(s: Seq<char>) -> nat
    decreases s.len(),
{
    if s.len() == 0 { 0 } else { hex_digits_value(s.drop_last()) * 16 + hex_value(s.last()) }
}

/// Size of a chunk from its size line: the trimmed line read as hexadecimal
/// (optional `+`), 0 when it does not read or does not fit.
pub open spec fn chunk_size_spec(line: Seq<char>) -> usize {
    let t = trim(line);
    let d = if t.len() > 0 && t[0] == '+' { t.drop_first() } else { t };
    if d.len() > 0 && all_hex(d) && hex_digits_value(d) <= usize::MAX {
        hex_digits_value(d) as usize
    } else {
        0
    }
}

/// Size of the next chunk of a chunked body, from its size line.
pub fn chunk_size(line: &str) -> (n: usize)
    ensures
        n == chunk_size_spec(line@),
{
    let t = trim_vec(&chars_of(line));
    let start: usize = if t.len() > 0 && t[0] == '+' { 1 } else { 0 };
    let ghost d = t@.skip(start as int);
    assert(d =~= (if t@.len() > 0 && t@[0] == '+' { t@.drop_first() } else { t@ }));
    if start >= t.len() {
        return 0;
    }
    let mut acc: usize = 0;
    let mut i = start;
    while i < t.len()
        invariant
            start <= i <= t@.len(),
            d == t@.skip(start as int),
            t@ == trim(line@),
            d =~= (if t@.len() > 0 && t@[0] == '+' { t@.drop_first() } else { t@ }),
            forall|k: int| start <= k < i ==> is_hex(#[trigger] t@[k]),
            acc == hex_digits_value(t@.subrange(start as int, i as int)),
        decreases t@.len() - i,
    {
        let c = t[i];
        if !(('0' <= c && c <= '9') || ('a' <= c && c <= 'f') || ('A' <= c && c <= 'F')) {
            assert(d[i - start] == c);
            assert(!is_hex(d[i - start]));
            proof {
                let tt = trim(line@);
                let dd = if tt.len() > 0 && tt[0] == '+' { tt.drop_first() } else { tt };
                assert(dd == d);
                assert(!all_hex(dd));
            }
            return 0;
        }
        let hv: usize = if '0' <= c && c <= '9' {
            ((c as u32) - ('0' as u32)) as usize
        } else if 'a' <= c && c <= 'f' {
            ((c as u32) - ('a' as u32) + 10) as usize
        } else {
            ((c as u32) - ('A' as u32) + 10) as usize
        };
        let ghost prev = t@.subrange(start as int, i as int);
        assert(t@.subrange(start as int, i + 1).drop_last() =~= prev);
        assert(t@.subrange(start as int, i + 1).last() == c);
        assert(hv == hex_value(c));
        assert(hex_digits_value(t@.subrange(start as int, i + 1)) == acc * 16 + hv);
        if acc > (usize::MAX - hv) / 16 {
            assert(acc * 16 + hv > usize::MAX) by (nonlinear_arith)
                requires
                    acc > (usize::MAX - hv) / 16,
                    hv <= 15,
            ;
            proof {
                lemma_hex_grows(t@.subrange(start as int, t@.len() as int), i - start + 1);
                assert(t@.subrange(start as int, t@.len() as int).take(i - start + 1) =~= t@.subrange(start as int, i + 1));
                assert(t@.subrange(start as int, t@.len() as int) =~= d);
                let tt = trim(line@);
                let dd = if tt.len() > 0 && tt[0] == '+' { tt.drop_first() } else { tt };
                assert(dd == d);
                assert(hex_digits_value(dd) > usize::MAX);
            }
            return 0;
        }
        assert(acc * 16 + hv <= usize::MAX) by (nonlinear_arith)
            requires
                acc <= (usize::MAX - hv) / 16,
                hv <= 15,
        ;
        acc = acc * 16 + hv;
        i = i + 1;
    }
    assert(t@.subrange(start as int, i as int) =~= d);
    acc
}

/// A prefix of a hexadecimal digit string never reads larger than the whole.
proof fn lemma_hex_grows(s: Seq<char>, k: int)
    requires
        0 <= k <= s.len(),
    ensures
        hex_digits_value(s.take(k)) <= hex_digits_value(s),
    decreases s.len() - k,
{
    if k < s.len() {
        lemma_hex_grows(s, k + 1);
        assert(s.take(k + 1).drop_last() =~= s.take(k));
    } else {
        assert(s.take(k) =~= s);
    }
}

} // verus!
