//! Drives the `you-get` media extractor for a desktop front end: finds the
//! tool, builds its command lines, lets one download run at a time, picks
//! progress lines out of its output, and reads its `--info` or `--json`
//! reports into a title and a list of formats, largest first.
//!
//! Processes, pipes, the file system and the window stay with the front end;
//! it hands this library what it saw and acts on what it gets back.
pub mod command;
pub mod download;
pub mod error;
pub mod install;
pub mod locate;
pub mod report;
pub mod streams;
pub mod text;
