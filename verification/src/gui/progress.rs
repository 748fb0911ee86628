//! The status line of a running scrape, as the window shows it.

use vstd::prelude::*;
use crate::text::{chars_of, decimal, decimal_vec, push_all, string_of};
use crate::progress::Progress;

verus! {

/// Counts of a running scrape and the status line that reports them.
pub struct GuiProgress {
    status: String,
    done: usize,
    failed: usize,
    total: usize,
}

/// `" (n failed)"` where some items failed, else nothing.
pub open spec fn failure_suffix(failed: nat) -> Seq<char> {
    if failed > 0 { " ("@ + decimal(failed) + " failed)"@ } else { Seq::empty() }
}

/// `"[c/t] "` for `c` items handled out of `t`.
pub open spec fn counter(c: nat, t: nat) -> Seq<char> {
    "["@ + decimal(c) + "/"@ + decimal(t) + "] "@
}

/// The line after a team was fetched.
pub open spec fn fetched_line(done: nat, failed: nat, total: nat, name: Seq<char>) -> Seq<char> {
    counter(done + failed, total) + "Fetched: "@ + name + failure_suffix(failed)
}

/// The line after a team failed.
pub open spec fn failed_line(done: nat, failed: nat, total: nat, name: Seq<char>) -> Seq<char> {
    counter(done + failed, total) + "Failed: "@ + name + " ("@ + decimal(failed) + " failed)"@
}

/// The line once the scrape ended.
pub open spec fn finished_line(done: nat, failed: nat, total: nat) -> Seq<char> {
    if total == 0 {
        "Fetch complete"@
    } else {
        "Fetch complete ("@ + decimal(done) + "/"@ + decimal(total) + ")"@ + failure_suffix(failed)
    }
}

/// Decimal digits of a count.
fn count_text(n: usize) -> (v: Vec<char>)
    ensures
        v@ == decimal(n as nat),
{
    decimal_vec(n as u64)
}

/// The suffix that counts failures.
fn suffix_text(failed: usize) -> (v: Vec<char>)
    ensures
        v@ == failure_suffix(failed as nat),
{
    let mut v: Vec<char> = Vec::new();
    if failed > 0 {
        push_all(&mut v, &chars_of(" ("));
        push_all(&mut v, &count_text(failed));
        push_all(&mut v, &chars_of(" failed)"));
    }
    v
}

/// The counter at the head of a line.
fn counter_text(c: usize, t: usize) -> (v: Vec<char>)
    ensures
        v@ == counter(c as nat, t as nat),
{
    let mut v: Vec<char> = chars_of("[");
    push_all(&mut v, &count_text(c));
    push_all(&mut v, &chars_of("/"));
    push_all(&mut v, &count_text(t));
    push_all(&mut v, &chars_of("] "));
    v
}

impl GuiProgress {
    pub closed spec fn status_view(&self) -> Seq<char> {
        self.status@
    }

    pub closed spec fn done_count(&self) -> nat {
        self.done as nat
    }

    pub closed spec fn failed_count(&self) -> nat {
        self.failed as nat
    }

    pub closed spec fn total_count(&self) -> nat {
        self.total as nat
    }

    /// No item counted yet; the status line starts as `status`.
    pub fn new(status: String) -> (p: GuiProgress)
        ensures
            p.status_view() == status@,
            p.done_count() == 0,
            p.failed_count() == 0,
            p.total_count() == 0,
    {
        GuiProgress { status, done: 0, failed: 0, total: 0 }
    }

    /// The current status line.
    pub fn status(&self) -> (s: &String)
        ensures
            s@ == self.status_view(),
    {
        &self.status
    }

    /// Items fetched so far.
    pub fn done(&self) -> (n: usize)
        ensures
            n == self.done_count(),
    {
        self.done
    }

    /// Items failed so far.
    pub fn failed(&self) -> (n: usize)
        ensures
            n == self.failed_count(),
    {
        self.failed
    }

    /// Items announced.
    pub fn total(&self) -> (n: usize)
        ensures
            n == self.total_count(),
    {
        self.total
    }

    /// Work on `total` items begins; the status line stays.
    pub fn start(&mut self, total: usize)
        ensures
            final(self).total_count() == total,
            final(self).done_count() == old(self).done_count(),
            final(self).failed_count() == old(self).failed_count(),
            final(self).status_view() == old(self).status_view(),
    {
        self.total = total;
    }

    /// The status line becomes `msg`.
    pub fn note(&mut self, msg: &str)
        ensures
            final(self).status_view() == msg@,
            final(self).total_count() == old(self).total_count(),
            final(self).done_count() == old(self).done_count(),
            final(self).failed_count() == old(self).failed_count(),
    {
        self.status = string_of(&chars_of(msg));
    }

    /// One more team was fetched.
    pub fn done_one(&mut self, team_name: &str)
        requires
            old(self).done_count() + old(self).failed_count() + 1 <= usize::MAX,
        ensures
            final(self).done_count() == old(self).done_count() + 1,
            final(self).failed_count() == old(self).failed_count(),
            final(self).total_count() == old(self).total_count(),
            final(self).status_view() == fetched_line(
                final(self).done_count(),
                final(self).failed_count(),
                final(self).total_count(),
                team_name@,
            ),
    {
        self.done = self.done + 1;
        let completed = self.done + self.failed;
        let mut v = counter_text(completed, self.total);
        push_all(&mut v, &chars_of("Fetched: "));
        push_all(&mut v, &chars_of(team_name));
        push_all(&mut v, &suffix_text(self.failed));
        self.status = string_of(&v);
    }

    /// One more team failed.
    pub fn failed_one(&mut self, team_name: &str)
        requires
            old(self).done_count() + old(self).failed_count() + 1 <= usize::MAX,
        ensures
            final(self).done_count() == old(self).done_count(),
            final(self).failed_count() == old(self).failed_count() + 1,
            final(self).total_count() == old(self).total_count(),
            final(self).status_view() == failed_line(
                final(self).done_count(),
                final(self).failed_count(),
                final(self).total_count(),
                team_name@,
            ),
    {
        self.failed = self.failed + 1;
        let completed = self.done + self.failed;
        let mut v = counter_text(completed, self.total);
        push_all(&mut v, &chars_of("Failed: "));
        push_all(&mut v, &chars_of(team_name));
        push_all(&mut v, &chars_of(" ("));
        push_all(&mut v, &count_text(self.failed));
        push_all(&mut v, &chars_of(" failed)"));
        self.status = string_of(&v);
    }

    /// The scrape ended.
    pub fn complete(&mut self)
        ensures
            final(self).done_count() == old(self).done_count(),
            final(self).failed_count() == old(self).failed_count(),
            final(self).total_count() == old(self).total_count(),
            final(self).status_view() == finished_line(
                old(self).done_count(),
                old(self).failed_count(),
                old(self).total_count(),
            ),
    {
        if self.total == 0 {
            self.status = string_of(&chars_of("Fetch complete"));
        } else {
            let mut v = chars_of("Fetch complete (");
            push_all(&mut v, &count_text(self.done));
            push_all(&mut v, &chars_of("/"));
            push_all(&mut v, &count_text(self.total));
            push_all(&mut v, &chars_of(")"));
            push_all(&mut v, &suffix_text(self.failed));
            self.status = string_of(&v);
        }
    }
}

impl Progress for GuiProgress {
    /// Work on `total` items begins (see `GuiProgress::start`).
    fn begin(&mut self, total: usize)
        ensures
            final(self).total_count() == total,
            final(self).done_count() == old(self).done_count(),
            final(self).failed_count() == old(self).failed_count(),
            final(self).status_view() == old(self).status_view(),
    {
        self.start(total);
    }

    /// The status line becomes `msg` (see `GuiProgress::note`).
    fn log(&mut self, msg: &str)
        ensures
            final(self).status_view() == msg@,
            final(self).total_count() == old(self).total_count(),
            final(self).done_count() == old(self).done_count(),
            final(self).failed_count() == old(self).failed_count(),
    {
        self.note(msg);
    }

    /// One more team was fetched (see `GuiProgress::done_one`); nothing
    /// changes once the count of handled teams would not fit in a `usize`.
    fn item_done(&mut self, _id: u32, team_name: &str)
        ensures
            old(self).done_count() + old(self).failed_count() + 1 <= usize::MAX ==> {
                &&& final(self).done_count() == old(self).done_count() + 1
                &&& final(self).failed_count() == old(self).failed_count()
                &&& final(self).total_count() == old(self).total_count()
                &&& final(self).status_view() == fetched_line(
                    final(self).done_count(),
                    final(self).failed_count(),
                    final(self).total_count(),
                    team_name@,
                )
            },
            old(self).done_count() + old(self).failed_count() + 1 > usize::MAX ==> *final(self) == *old(self),
    {
        if self.done < usize::MAX - self.failed {
            self.done_one(team_name);
        }
    }

    /// One more team failed (see `GuiProgress::failed_one`); nothing changes
    /// once the count of handled teams would not fit in a `usize`.
    fn item_failed(&mut self, _id: u32, team_name: &str)
        ensures
            old(self).done_count() + old(self).failed_count() + 1 <= usize::MAX ==> {
                &&& final(self).done_count() == old(self).done_count()
                &&& final(self).failed_count() == old(self).failed_count() + 1
                &&& final(self).total_count() == old(self).total_count()
                &&& final(self).status_view() == failed_line(
                    final(self).done_count(),
                    final(self).failed_count(),
                    final(self).total_count(),
                    team_name@,
                )
            },
            old(self).done_count() + old(self).failed_count() + 1 > usize::MAX ==> *final(self) == *old(self),
    {
        if self.done < usize::MAX - self.failed {
            self.failed_one(team_name);
        }
    }

    /// The scrape ended (see `GuiProgress::complete`).
    fn finish(&mut self)
        ensures
            final(self).done_count() == old(self).done_count(),
            final(self).failed_count() == old(self).failed_count(),
            final(self).total_count() == old(self).total_count(),
            final(self).status_view() == finished_line(
                old(self).done_count(),
                old(self).failed_count(),
                old(self).total_count(),
            ),
    {
        self.complete();
    }
}

} // verus!
