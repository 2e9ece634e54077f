//! The immutable value type for one time entry, plus the pure
//! field-replacement operations that produce a new value.

use vstd::prelude::*;

verus! {

/// One time entry as the remote service represents it.
///
/// `start` and `stop` are timestamps in whole seconds since the Unix epoch;
/// `stop` is `None` while the entry is still running.  A negative `duration`
/// is the service's convention for a running entry, not an error.
#[derive(Debug)]
pub struct TimeEntry {
    pub id: u64,
    pub project_id: u64,
    pub workspace_id: u64,
    pub description: String,
    pub start: i64,
    pub stop: Option<i64>,
    pub duration: i64,
}

impl TimeEntry {
    /// Structural equality over all fields; the basis for the swap
    /// idempotency check.
    pub open spec fn same(self, other: TimeEntry) -> bool {
        &&& self.id == other.id
        &&& self.project_id == other.project_id
        &&& self.workspace_id == other.workspace_id
        &&& self.description@ == other.description@
        &&& self.start == other.start
        &&& self.stop == other.stop
        &&& self.duration == other.duration
    }

    /// Decide structural equality of two entries.
    pub fn eq_entry(&self, other: &TimeEntry) -> (r: bool)
        ensures
            r == self.same(*other),
    {
        let stops_equal = match (&self.stop, &other.stop) {
            (Some(a), Some(b)) => *a == *b,
            (None, None) => true,
            _ => false,
        };
        self.id == other.id && self.project_id == other.project_id
            && self.workspace_id == other.workspace_id
            && self.description.eq(&other.description) && self.start == other.start
            && stops_equal && self.duration == other.duration
    }

    /// A copy of this entry; every field is preserved.
    pub fn duplicate(&self) -> (r: TimeEntry)
        ensures
            r.same(*self),
    {
        TimeEntry {
            id: self.id,
            project_id: self.project_id,
            workspace_id: self.workspace_id,
            description: self.description.clone(),
            start: self.start,
            stop: self.stop,
            duration: self.duration,
        }
    }

    /// A new entry equal to this one except for `project_id`.
    pub fn set_project_id(&self, x: u64) -> (r: TimeEntry)
        ensures
            r.project_id == x,
            r.id == self.id,
            r.workspace_id == self.workspace_id,
            r.description@ == self.description@,
            r.start == self.start,
            r.stop == self.stop,
            r.duration == self.duration,
    {
        let mut r = self.duplicate();
        r.project_id = x;
        r
    }

    /// A new entry equal to this one except for `description`.
    pub fn set_description(&self, d: String) -> (r: TimeEntry)
        ensures
            r.description@ == d@,
            r.id == self.id,
            r.project_id == self.project_id,
            r.workspace_id == self.workspace_id,
            r.start == self.start,
            r.stop == self.stop,
            r.duration == self.duration,
    {
        let mut r = self.duplicate();
        r.description = d;
        r
    }

    /// A new entry equal to this one except for `start`.
    pub fn set_start(&self, t: i64) -> (r: TimeEntry)
        ensures
            r.start == t,
            r.id == self.id,
            r.project_id == self.project_id,
            r.workspace_id == self.workspace_id,
            r.description@ == self.description@,
            r.stop == self.stop,
            r.duration == self.duration,
    {
        let mut r = self.duplicate();
        r.start = t;
        r
    }
}

} // verus!
