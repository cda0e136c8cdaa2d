//! Verified core of a file and directory comparison toolkit: diff/patch
//! models with parsers, a serializer and an apply engine, three-way merge
//! classification, tree comparison, and helpers for specialised diffs.

pub mod text;
pub mod patch_types;
pub mod regex_match;
pub mod error;
pub mod patch_parser;
pub mod patch_serializer;
pub mod patch_engine;
pub mod types;
pub mod binary_diff;
pub mod merge_engine;
pub mod paths;
pub mod comparison;
pub mod self_comparison;
pub mod hash_cache;
pub mod cache_journal;
pub mod sync;
pub mod file_kinds;
pub mod image_diff;
pub mod image_compose;
pub mod csv_diff;
pub mod excel_diff;
pub mod json_diff;
pub mod resumable_copy;
pub mod file_operations;
pub mod scanner;
pub mod progress;
pub mod content_hash;
pub mod vfs;
pub mod cli;
pub mod text_diff;
