//! Log lines: a level, the time since start as `hh:mm:ss.mmm`, and the
//! message; lines below the minimum level are dropped.

use vstd::prelude::*;
use crate::text::{chars_of, decimal, decimal_vec, push_all, string_of, upper_seq, upper_vec};

verus! {

/// How important a log line is.
#[derive(Clone, Copy, Debug, PartialEq, Eq)]
pub enum Level {
    Debug,
    Info,
    Error,
}

/// Levels in increasing importance.
pub open spec fn level_rank(l: Level) -> nat {
    match l {
        Level::Debug => 0,
        Level::Info => 1,
        Level::Error => 2,
    }
}

/// `n` in decimal, with leading zeros up to `w` digits.
pub open spec fn padded(n: nat, w: nat) -> Seq<char> {
    let d = decimal(n);
    Seq::new(if d.len() < w { (w - d.len()) as nat } else { 0 }, |i: int| '0') + d
}

/// `hh:mm:ss.mmm` for `ms` milliseconds (hours may have more digits).
pub open spec fn elapsed_text(ms: u64) -> Seq<char> {
    let h = ms / 3_600_000;
    let m = (ms % 3_600_000) / 60_000;
    let s = (ms % 60_000) / 1_000;
    let r = ms % 1_000;
    padded(h as nat, 2) + ":"@ + padded(m as nat, 2) + ":"@ + padded(s as nat, 2) + "."@ + padded(r as nat, 3)
}

fn padded_vec(n: u64, w: usize) -> (v: Vec<char>)
    ensures
        v@ == padded(n as nat, w as nat),
{
    let d = decimal_vec(n);
    let k: usize = if d.len() < w { w - d.len() } else { 0 };
    let mut v: Vec<char> = Vec::new();
    let mut i: usize = 0;
    while i < k
        invariant
            i <= k,
            v@ == Seq::new(i as nat, |j: int| '0'),
        decreases k - i,
    {
        v.push('0');
        i = i + 1;
        assert(v@ =~= Seq::new(i as nat, |j: int| '0'));
    }
    push_all(&mut v, &d);
    v
}

/// The elapsed time as `hh:mm:ss.mmm`.
pub fn fmt_elapsed(ms: u64) -> (r: String)
    ensures
        r@ == elapsed_text(ms),
{
    let h = ms / 3_600_000;
    let m = (ms % 3_600_000) / 60_000;
    let s = (ms % 60_000) / 1_000;
    let r = ms % 1_000;
    let mut v = padded_vec(h, 2);
    push_all(&mut v, &chars_of(":"));
    push_all(&mut v, &padded_vec(m, 2));
    push_all(&mut v, &chars_of(":"));
    push_all(&mut v, &padded_vec(s, 2));
    push_all(&mut v, &chars_of("."));
    push_all(&mut v, &padded_vec(r, 3));
    string_of(&v)
}

/// The level named `s`, in any ASCII case.
pub open spec fn level_named(s: Seq<char>) -> Option<Level> {
    let u = upper_seq(s);
    if u == "DEBUG"@ {
        Some(Level::Debug)
    } else if u == "INFO"@ {
        Some(Level::Info)
    } else if u == "ERROR"@ {
        Some(Level::Error)
    } else {
        None
    }
}

/// The level named `s` (see `level_named`).
pub fn parse_level(s: &str) -> (r: Option<Level>)
    ensures
        r == level_named(s@),
{
    let u = upper_vec(&chars_of(s));
    if crate::text::seq_eq(&u, &chars_of("DEBUG")) {
        Some(Level::Debug)
    } else if crate::text::seq_eq(&u, &chars_of("INFO")) {
        Some(Level::Info)
    } else if crate::text::seq_eq(&u, &chars_of("ERROR")) {
        Some(Level::Error)
    } else {
        None
    }
}

/// The level named `s`, `Info` for an unknown name.
pub fn level_of(s: &str) -> (r: Level)
    ensures
        r == match level_named(s@) {
            Some(l) => l,
            None => Level::Info,
        },
{
    match parse_level(s) {
        Some(l) => l,
        None => Level::Info,
    }
}

fn rank(l: Level) -> (n: u8)
    ensures
        n == level_rank(l),
{
    match l {
        Level::Debug => 0,
        Level::Info => 1,
        Level::Error => 2,
    }
}

/// The line to append to the log for a message at `level`, `ms`
/// milliseconds after start: none when the level is below `min`.
pub fn log_line(level: &str, msg: &str, ms: u64, min: Level) -> (r: Option<String>)
    ensures
        level_rank(match level_named(level@) {
            Some(l) => l,
            None => Level::Info,
        }) < level_rank(min) ==> r is None,
        level_rank(match level_named(level@) {
            Some(l) => l,
            None => Level::Info,
        }) >= level_rank(min) ==> (r matches Some(t) && t@ == "["@ + elapsed_text(ms) + "]["@ + level@ + "] "@ + msg@
            + "\n"@),
{
    if rank(level_of(level)) < rank(min) {
        return None;
    }
    let mut v = chars_of("[");
    push_all(&mut v, &chars_of(fmt_elapsed(ms).as_str()));
    push_all(&mut v, &chars_of("]["));
    push_all(&mut v, &chars_of(level));
    push_all(&mut v, &chars_of("] "));
    push_all(&mut v, &chars_of(msg));
    push_all(&mut v, &chars_of("\n"));
    Some(string_of(&v))
}

} // verus!
