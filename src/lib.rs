//! Compares two zip archives entry by entry: which entries were added,
//! removed or modified, and the line diff of each modified text entry.
pub mod catalog;
pub mod classify;
pub mod compare;
pub mod laws;
pub mod names;
pub mod outside;
pub mod server;

pub use catalog::{
    extract_file_bytes, extract_file_content, extract_filenames_and_hashes, Catalog, CatalogEntry, CompareError,
    ExtractError,
};
pub use classify::{classify_entry, compare_contents, EntryFailure, EntryOutcome, FileDifference, Status};
pub use compare::{compare_zip_files, gather, plan_comparison, Comparison, Plan};
pub use server::rocket;
