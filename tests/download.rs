use std::sync::{Arc, Mutex};
use vidget::download::{DownloadState, ProcessOutcome};
use vidget::error::ToolError;

#[test]
fn second_begin_is_refused_until_end() {
    let mut s = DownloadState::new();
    assert!(!s.is_downloading);
    assert!(s.try_begin().is_ok());
    assert!(s.is_downloading);
    let again = s.try_begin();
    assert!(matches!(again, Err(ToolError::AlreadyInProgress)));
    assert_eq!(again.err().unwrap().message(), "Another download is in progress");
    assert!(matches!(s.try_begin(), Err(ToolError::AlreadyInProgress)));
    s.end();
    assert!(!s.is_downloading);
    assert!(s.try_begin().is_ok());
}

#[test]
fn nonzero_exit_fails_and_releases() {
    let mut s = DownloadState::new();
    s.try_begin().unwrap();
    let r = s.finish(ProcessOutcome::Exited(false));
    assert!(matches!(r, Err(ToolError::NonZeroExit)));
    assert_eq!(r.err().unwrap().message(), "下载失败");
    assert!(!s.is_downloading);
    assert!(s.try_begin().is_ok());
}

#[test]
fn successful_exit_releases() {
    let mut s = DownloadState::new();
    s.try_begin().unwrap();
    assert!(s.finish(ProcessOutcome::Exited(true)).is_ok());
    assert!(!s.is_downloading);
}

#[test]
fn spawn_and_wait_failures_release() {
    let mut s = DownloadState::new();
    s.try_begin().unwrap();
    let r = s.finish(ProcessOutcome::SpawnFailed("No such file".to_string()));
    assert!(matches!(r, Err(ToolError::SpawnFailure(ref m)) if m == "No such file"));
    assert!(!s.is_downloading);
    s.try_begin().unwrap();
    let r = s.finish(ProcessOutcome::WaitFailed("interrupted".to_string()));
    assert!(matches!(r, Err(ToolError::SpawnFailure(ref m)) if m == "interrupted"));
    assert!(!s.is_downloading);
}

#[test]
fn begins_under_a_shared_lock_single_flight() {
    let state = Arc::new(Mutex::new(DownloadState::new()));
    let wins = (0..8)
        .map(|_| Arc::clone(&state))
        .filter(|st| st.lock().unwrap().try_begin().is_ok())
        .count();
    assert_eq!(wins, 1);
    state.lock().unwrap().end();
    assert!(state.lock().unwrap().try_begin().is_ok());
}
