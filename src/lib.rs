//! Document engine of a code editor: a single open document held as lines,
//! line-level edits, syntax tokens for a range of rows, the queue of files
//! waiting to be opened, and the rules of directory listings.
pub mod document;
pub mod ingest;
pub mod language;
pub mod listing;
pub mod runner;
pub mod syntax;
pub mod task;
pub mod text;
pub mod tokens;
