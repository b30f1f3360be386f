//! Kinds and states of long-running jobs, and the throttle on their
//! progress notifications.

use vstd::prelude::*;

verus! {

/// What a job does.
#[derive(Clone, Copy, Debug, PartialEq, Eq)]
pub enum JobType {
    Download,
    Transcribe,
    Import,
    Summary,
    Optimize,
    Export,
    Subtitle,
}

/// Where a job stands.
#[derive(Clone, Copy, Debug, PartialEq, Eq)]
pub enum JobStatus {
    Queued,
    Running,
    Succeeded,
    Failed,
    Cancelled,
}

impl JobStatus {
    /// True for the states a job ends in.
    pub fn is_terminal(&self) -> (r: bool)
        ensures
            r == (*self is Succeeded || *self is Failed || *self is Cancelled),
    {
        match self {
            JobStatus::Succeeded | JobStatus::Failed | JobStatus::Cancelled => true,
            _ => false,
        }
    }
}

/// Progress in thousandths: 0 is not started, 1000 is done.
pub const PROGRESS_DONE: u32 = 1000;

/// Least time between two notifications that are neither terminal nor complete.
pub const MIN_INTERVAL_MS: u64 = 350;

/// The throttle of one job's progress notifications: it remembers the last
/// progress notified and when.
pub struct ProgressThrottle {
    pub last_permille: Option<u32>,
    pub last_emit_ms: u64,
}

/// Whether a notification of `permille` at `now_ms` goes out: a terminal
/// one always; otherwise only a changed progress, and then only when it is
/// complete or `MIN_INTERVAL_MS` have passed since the last one.
pub open spec fn lets_through(t: ProgressThrottle, now_ms: u64, permille: u32, terminal: bool) -> bool {
    terminal || (t.last_permille != Some(permille) && (permille >= PROGRESS_DONE || now_ms
        - t.last_emit_ms > MIN_INTERVAL_MS))
}

impl ProgressThrottle {
    /// A throttle that has let nothing through yet.
    pub fn new(now_ms: u64) -> (r: ProgressThrottle)
        ensures
            r.last_permille is None,
            r.last_emit_ms == now_ms,
    {
        ProgressThrottle { last_permille: None, last_emit_ms: now_ms }
    }

    /// Decides whether to send a notification of `permille` at `now_ms`,
    /// and remembers it when it goes out.
    pub fn offer(&mut self, now_ms: u64, permille: u32, terminal: bool) -> (r: bool)
        ensures
            r == lets_through(*old(self), now_ms, permille, terminal),
            r ==> final(self).last_permille == Some(permille) && final(self).last_emit_ms == now_ms,
            !r ==> *final(self) == *old(self),
    {
        let changed = match self.last_permille {
            Some(p) => p != permille,
            None => true,
        };
        let waited = now_ms >= self.last_emit_ms && now_ms - self.last_emit_ms > MIN_INTERVAL_MS;
        proof {
            assert(waited == (now_ms - self.last_emit_ms > MIN_INTERVAL_MS));
        }
        if terminal || (changed && (permille >= PROGRESS_DONE || waited)) {
            self.last_permille = Some(permille);
            self.last_emit_ms = now_ms;
            true
        } else {
            false
        }
    }
}

} // verus!
