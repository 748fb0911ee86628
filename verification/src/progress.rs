//! Progress reports of long-running work (scrapes, exports), for a front end
//! to show.

use vstd::prelude::*;

verus! {

/// Where long-running work reports how far it got. Every method does nothing
/// unless an implementation says otherwise.
pub trait Progress {
    /// Work on `total` items begins.
    fn begin(&mut self, total: usize) {
    }

    /// A free-form status line.
    fn log(&mut self, msg: &str) {
    }

    /// One item (a team) was done.
    fn item_done(&mut self, id: u32, team_name: &str) {
    }

    /// One item (a team) failed.
    fn item_failed(&mut self, id: u32, team_name: &str) {
    }

    /// The work ended, whether it succeeded or not.
    fn finish(&mut self) {
    }
}

/// A progress sink that ignores every report.
pub struct NullProgress;

impl Progress for NullProgress {
}

} // verus!
