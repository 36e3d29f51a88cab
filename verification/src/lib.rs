//! Decision logic of a terminal music player for S3-compatible buckets:
//! connection checks, listing of folders and audio tracks, navigation,
//! playback bookkeeping and the text that the screens show.

pub mod app;
pub mod laws;
pub mod listing;
pub mod s3;
pub mod storage;
pub mod text;
pub mod ui;
pub mod visualizer;
