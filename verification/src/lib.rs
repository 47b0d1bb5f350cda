//! Snapshot history of the initiatives published by the Rostov city
//! initiative portal: merging and filtering of JSON snapshots, the
//! weekly statistics built from them, and the rules of the downloader.

pub mod json_items;
pub mod merge;
pub mod snapshots;
pub mod types;
pub mod instant;
pub mod text;
pub mod essential;
pub mod paging;
pub mod sql;
pub mod seqs;
