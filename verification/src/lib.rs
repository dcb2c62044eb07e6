//! Verified core of a download manager for media resources that are split
//! into independently fetchable video and audio streams.
//!
//! The library tracks download records durably through a store model, bounds
//! the number of simultaneously active transfers with a counting gate,
//! enforces at most one live fetch task per record through a registry,
//! plans resumable HTTP range fetches from persisted checkpoints, and drives
//! the per-task lifecycle (add, start, stop, delete, recovery) as a verified
//! state machine.  All network, file and database I/O is left to the caller,
//! which feeds results back into the verified step functions.

pub mod text;
pub mod status;
pub mod config;
pub mod utils;
pub mod errors;
pub mod fetch;
pub mod gate;
pub mod manager;
pub mod path;
pub mod probe;
pub mod record;
pub mod registry;
pub mod store;

pub use errors::DownloadError;
pub use manager::DownloadManager;
pub use record::Download;
pub use record::DownloadProgress;
pub use status::DownloadStatus;
