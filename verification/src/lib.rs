//! Verified core of a desktop front end for a video downloader: parsing of
//! the downloader's progress output, the download queue's task state
//! machine, the download history, and the browser cookie export.
pub mod cookies;
pub mod crypto;
pub mod decimal;
pub mod history;
pub mod ids;
pub mod number_literal;
pub mod progress;
pub mod queue;
pub mod text;
pub mod whole_number;
