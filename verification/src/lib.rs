//! Deduplication of a library of downloaded audio files.
//!
//! A library that has grown over years often holds several copies of one track,
//! fetched again later at another quality. This crate decides which files are the
//! same track, which copy of each is the best, and under which name every
//! survivor is written to the output directory so that nothing there is
//! overwritten.
//!
//! * [`record`]: the media record and the quality order on records.
//! * [`report`]: what a resolver reports of each record.
//! * [`identity`]: resolution of records that carry a stable identifier.
//! * [`heuristic`]: resolution by title, album and duration.
//! * [`filename`]: disambiguation counts in file names.
//! * [`output`]: collision-free naming of the copies to make.
//! * [`netease_key`]: recovery of the identifier from an encrypted tag item.
//! * [`extract`]: assembly of a record from what was read out of a file.
//! * [`resolve`]: the whole resolution, from records to survivors.

pub mod extract;
pub mod filename;
pub mod heuristic;
pub mod identity;
pub mod netease_key;
pub mod output;
pub mod record;
pub mod report;
pub mod resolve;
