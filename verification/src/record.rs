//! The persisted unit of work — one download record — and the ephemeral
//! progress events emitted while it is fetched.

use vstd::prelude::*;

use crate::status::DownloadStatus;

verus! {

/// Event value signalling a failed download instead of a byte count.
pub const FAILURE_SENTINEL: i64 = -1;

/// One persisted download: a video/audio stream pair fetched into
/// `file_path`, with its sizes, checkpoint and lifecycle status.
pub struct Download {
    /// Store-assigned unique id.
    pub id: i32,
    /// Source of the video stream; empty when the item has no video stream.
    pub video_url: String,
    /// Source of the audio stream; empty when the item has no audio stream.
    pub audio_url: String,
    /// The name the user asked for.
    pub file_name: String,
    /// Resolved, collision-free target path.
    pub file_path: String,
    /// Required request header for hotlink-protected sources.
    pub referer: String,
    /// Total bytes to fetch; always `video_size + audio_size`.
    pub total_size: i64,
    /// Size of the video stream in bytes (0 when absent or unprobed).
    pub video_size: i64,
    /// Size of the audio stream in bytes (0 when absent or unprobed).
    pub audio_size: i64,
    /// Monotonically non-decreasing checkpoint, `0..=total_size`.
    pub downloaded_size: i64,
    /// Lifecycle state.
    pub status: DownloadStatus,
    /// When the record was added (opaque caller-supplied text).
    pub added_date: String,
    /// When the record was last persisted (opaque caller-supplied text).
    pub last_updated_date: String,
}

impl Download {
    /// The size invariant every persisted record satisfies at every
    /// observation point: a consistent total and a checkpoint within it.
    pub open spec fn sizes_valid(self) -> bool {
        &&& 0 <= self.video_size
        &&& 0 <= self.audio_size
        &&& self.total_size == self.video_size + self.audio_size
        &&& 0 <= self.downloaded_size <= self.total_size
    }

    /// The fields a checkpoint update is allowed to change, taken from
    /// `src`, over the identity and origin fields of `self`.
    pub open spec fn with_progress_of(self, src: Download) -> Download {
        Download {
            video_size: src.video_size,
            audio_size: src.audio_size,
            total_size: src.total_size,
            downloaded_size: src.downloaded_size,
            status: src.status,
            last_updated_date: src.last_updated_date,
            ..self
        }
    }

    /// The same record with another status.
    pub open spec fn with_status(self, status: DownloadStatus) -> Download {
        Download { status, ..self }
    }

    /// Which streams still need a size probe before the record can be
    /// added: a stream with a URL but no known size.
    pub fn probe_plan(&self) -> (r: (bool, bool))
        ensures
            r.0 == (self.video_url@.len() > 0 && self.video_size == 0),
            r.1 == (self.audio_url@.len() > 0 && self.audio_size == 0),
    {
        (
            !self.video_url.as_str().is_empty() && self.video_size == 0,
            !self.audio_url.as_str().is_empty() && self.audio_size == 0,
        )
    }

    /// Both streams exist, so a finished fetch ends with a merge of the
    /// two intermediate files.
    pub fn needs_merge(&self) -> (r: bool)
        ensures
            r == (self.video_size != 0 && self.audio_size != 0),
    {
        self.video_size != 0 && self.audio_size != 0
    }

    /// Flattens the record into the storage parameter tuple, in column
    /// order, with the status encoded as its storage string.
    pub fn to_params(&self) -> (r: (
        String,
        String,
        String,
        String,
        String,
        i64,
        i64,
        i64,
        i64,
        String,
        String,
    ))
        ensures
            r.0@ == self.video_url@,
            r.1@ == self.audio_url@,
            r.2@ == self.file_name@,
            r.3@ == self.file_path@,
            r.4@ == self.referer@,
            r.5 == self.video_size,
            r.6 == self.audio_size,
            r.7 == self.total_size,
            r.8 == self.downloaded_size,
            r.9@ == self.status.str_spec(),
            r.10@ == self.added_date@,
    {
        (
            self.video_url.clone(),
            self.audio_url.clone(),
            self.file_name.clone(),
            self.file_path.clone(),
            self.referer.clone(),
            self.video_size,
            self.audio_size,
            self.total_size,
            self.downloaded_size,
            String::from_str(self.status.as_str()),
            self.added_date.clone(),
        )
    }
}

impl Clone for Download {
    /// Field-for-field copy, so a caller can reason about the clone.
    fn clone(&self) -> (r: Self)
        ensures
            r == *self,
    {
        Download {
            id: self.id,
            video_url: self.video_url.clone(),
            audio_url: self.audio_url.clone(),
            file_name: self.file_name.clone(),
            file_path: self.file_path.clone(),
            referer: self.referer.clone(),
            total_size: self.total_size,
            video_size: self.video_size,
            audio_size: self.audio_size,
            downloaded_size: self.downloaded_size,
            status: self.status,
            added_date: self.added_date.clone(),
            last_updated_date: self.last_updated_date.clone(),
        }
    }
}

/// One progress emission: cumulative bytes downloaded, or the failure
/// sentinel.  Ephemeral; never persisted.
#[derive(Clone, Copy, Debug, PartialEq, Eq, Structural)]
pub struct DownloadProgress {
    pub id: i32,
    pub chunk_length: i64,
}

impl DownloadProgress {
    /// The running progress event for a record's current checkpoint.
    pub fn running(d: &Download) -> (r: DownloadProgress)
        ensures
            r.id == d.id,
            r.chunk_length == d.downloaded_size,
    {
        DownloadProgress { id: d.id, chunk_length: d.downloaded_size }
    }

    /// The single terminal event of a completed download: all bytes.
    pub fn completed(d: &Download) -> (r: DownloadProgress)
        ensures
            r.id == d.id,
            r.chunk_length == d.total_size,
    {
        DownloadProgress { id: d.id, chunk_length: d.total_size }
    }

    /// The single terminal event of a failed download: the sentinel.
    pub fn failed(id: i32) -> (r: DownloadProgress)
        ensures
            r.id == id,
            r.chunk_length == FAILURE_SENTINEL,
    {
        DownloadProgress { id, chunk_length: FAILURE_SENTINEL }
    }
}

} // verus!
