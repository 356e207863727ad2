//! The single-flight guard over downloads, and what a download's end means.
//!
//! The front end keeps one `DownloadState` per process behind a lock and
//! holds the lock only for one call of `try_begin` or `finish`, never for the
//! life of the child process.
use vstd::prelude::*;
use crate::error::ToolError;

verus! {

/// Whether a download is running in this process.
#[derive(Debug)]
pub struct DownloadState {
    pub is_downloading: bool,
}

/// How a download's child process ended, as the front end saw it.
#[derive(Debug)]
pub enum ProcessOutcome {
    /// The process could not be started; the system's reason.
    SpawnFailed(String),
    /// The process could not be awaited; the system's reason.
    WaitFailed(String),
    /// The process exited; whether its status was success.
    Exited(bool),
}

/// A begin succeeds exactly when no download is running.
pub open spec fn begin_succeeds(s: DownloadState) -> bool {
    !s.is_downloading
}

/// After a begin, a download is running, whether it was this one or another.
pub open spec fn after_begin(s: DownloadState) -> DownloadState {
    DownloadState { is_downloading: true }
}

impl DownloadState {
    pub fn new() -> (r: DownloadState)
        ensures
            !r.is_downloading,
    {
        DownloadState { is_downloading: false }
    }

    /// Claims the right to run a download: fails, changing nothing, while
    /// another one runs.
    pub fn try_begin(&mut self) -> (r: Result<(), ToolError>)
        ensures
            r is Ok <==> begin_succeeds(*old(self)),
            !begin_succeeds(*old(self)) ==> (r matches Err(ToolError::AlreadyInProgress)),
            *final(self) == after_begin(*old(self)),
    {
        if self.is_downloading {
            return Err(ToolError::AlreadyInProgress);
        }
        self.is_downloading = true;
        Ok(())
    }

    /// Gives the right up again.
    pub fn end(&mut self)
        ensures
            !final(self).is_downloading,
    {
        self.is_downloading = false;
    }

    /// Ends a download whatever became of its process: the guard is released
    /// in every case, and only a successful exit is a success.
    pub fn finish(&mut self, outcome: ProcessOutcome) -> (r: Result<(), ToolError>)
        ensures
            !final(self).is_downloading,
            r is Ok <==> outcome == ProcessOutcome::Exited(true),
            outcome == ProcessOutcome::Exited(false) ==> (r matches Err(ToolError::NonZeroExit)),
            outcome matches ProcessOutcome::SpawnFailed(m) ==> (r matches Err(ToolError::SpawnFailure(e)) && e@ == m@),
            outcome matches ProcessOutcome::WaitFailed(m) ==> (r matches Err(ToolError::SpawnFailure(e)) && e@ == m@),
    {
        self.end();
        match outcome {
            ProcessOutcome::SpawnFailed(m) => Err(ToolError::SpawnFailure(m)),
            ProcessOutcome::WaitFailed(m) => Err(ToolError::SpawnFailure(m)),
            ProcessOutcome::Exited(success) => if success {
                Ok(())
            } else {
                Err(ToolError::NonZeroExit)
            },
        }
    }
}

/// Of two begins one after the other, from any state, at most one succeeds;
/// from an idle state exactly the first does; and once a download runs, every
/// further begin fails and leaves it running, until `end`.
pub proof fn lemma_single_flight(s: DownloadState)
    ensures
        !(begin_succeeds(s) && begin_succeeds(after_begin(s))),
        !s.is_downloading ==> begin_succeeds(s) && !begin_succeeds(after_begin(s)),
        s.is_downloading ==> after_begin(s) == s && !begin_succeeds(s),
{
}

} // verus!
