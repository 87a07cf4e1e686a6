//! A verified core for a desktop viewer of large local photo and video
//! libraries: library roots, scanned media, per-item metadata and faces.
pub mod text;
pub mod order;
pub mod models;
pub mod seqs;
pub mod library;
pub mod paths;
pub mod tags;
pub mod scan;
pub mod duplicates;
pub mod catalog;
pub mod storage;
pub mod hashing;
pub mod inference;
pub mod files;
pub mod laws;
pub mod analysis;
pub mod walk;
