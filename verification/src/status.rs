//! Lifecycle states of a download record, their storage-edge string
//! encoding, and the allowed state transitions.
//!
//! Internally a record's status is this closed enum; the four literal
//! strings appear only when a record is read from or written to storage.

use vstd::prelude::*;

use crate::text::str_eq;

verus! {

/// Lifecycle state of a download record.
///
/// A freshly added record starts in `Downloading`; `Completed` and `Failed`
/// are terminal (removable only by delete), `Paused` is resumable.
#[derive(Clone, Copy, Debug, PartialEq, Eq, Structural)]
pub enum DownloadStatus {
    Downloading,
    Paused,
    Completed,
    Failed,
}

impl DownloadStatus {
    /// The storage-edge string for each status.
    pub open spec fn str_spec(self) -> Seq<char> {
        match self {
            DownloadStatus::Downloading => "downloading"@,
            DownloadStatus::Paused => "paused"@,
            DownloadStatus::Completed => "completed"@,
            DownloadStatus::Failed => "failed"@,
        }
    }

    /// A record in this state is subject to recovery at startup: it either
    /// is being fetched or can be resumed.
    pub open spec fn is_active(self) -> bool {
        self == DownloadStatus::Downloading || self == DownloadStatus::Paused
    }

    /// Encodes the status for the storage edge.
    pub fn as_str(self) -> (r: &'static str)
        ensures
            r@ == self.str_spec(),
    {
        match self {
            DownloadStatus::Downloading => "downloading",
            DownloadStatus::Paused => "paused",
            DownloadStatus::Completed => "completed",
            DownloadStatus::Failed => "failed",
        }
    }

    /// Decodes a storage-edge string; returns `None` on anything but the
    /// four closed literals.
    pub fn parse(s: &str) -> (r: Option<DownloadStatus>)
        ensures
            match r {
                Some(st) => s@ == st.str_spec(),
                None => forall|st: DownloadStatus| s@ != st.str_spec(),
            },
    {
        if str_eq(s, "downloading") {
            Some(DownloadStatus::Downloading)
        } else if str_eq(s, "paused") {
            Some(DownloadStatus::Paused)
        } else if str_eq(s, "completed") {
            Some(DownloadStatus::Completed)
        } else if str_eq(s, "failed") {
            Some(DownloadStatus::Failed)
        } else {
            None
        }
    }
}

/// The four storage-edge strings are pairwise distinct, so the encoding is
/// injective and `parse` inverts `as_str`.
pub proof fn lemma_status_strings_distinct(a: DownloadStatus, b: DownloadStatus)
    ensures
        a.str_spec() == b.str_spec() ==> a == b,
{
    reveal_strlit("downloading");
    reveal_strlit("paused");
    reveal_strlit("completed");
    reveal_strlit("failed");
    if a != b && a.str_spec().len() == b.str_spec().len() {
        assert(a.str_spec()[0] != b.str_spec()[0]);
    }
}

/// Round trip: decoding an encoded status yields the status back.
pub proof fn lemma_status_round_trip(st: DownloadStatus, s: Seq<char>)
    requires
        s == st.str_spec(),
    ensures
        forall|other: DownloadStatus| s == other.str_spec() ==> other == st,
{
    assert forall|other: DownloadStatus| s == other.str_spec() implies other == st by {
        lemma_status_strings_distinct(st, other);
    }
}

} // verus!
