//! Verified core of a concurrent file downloader: extracting a direct
//! download link from an HTML page body, scanning a URL-list text for
//! URLs, deriving a destination filename from a content-disposition
//! header, accounting for streaming-transfer progress, and scheduling
//! many download pipelines under a bounded concurrency limit.

pub mod bytes;
pub mod disposition;
pub mod errors;
pub mod extract;
pub mod scheduler;
pub mod transfer;
pub mod urllist;
