//! The download orchestrator: one explicit service object owning the
//! store, the task registry and the concurrency gate, with the per-task
//! lifecycle operations.
//!
//! Callers drive I/O around these operations: they probe sizes, transfer
//! bytes and signal cancellation tokens, and call back in here for every
//! decision and every state change.  Every operation preserves the
//! manager's well-formedness: a well-formed store, a duplicate-free
//! registry whose every id has a record, and a bounded gate.

use vstd::prelude::*;

use crate::errors::DownloadError;
use crate::gate::Gate;
use crate::gate::DEFAULT_GATE_CAPACITY;
use crate::path::get_path_str;
use crate::path::get_unique_file_path;
use crate::path::joined;
use crate::path::numbered_path;
use crate::path::occupied_contains;
use crate::record::Download;
use crate::record::DownloadProgress;
use crate::registry::Registry;
use crate::status::DownloadStatus;
use crate::store::lemma_update_same_id;
use crate::store::Store;

verus! {

/// The base target path for a new download: the save directory joined
/// with the requested file name plus the container extension.
pub open spec fn add_base_path(file_name: Seq<char>, save_path: Seq<char>) -> Seq<char> {
    joined(save_path, file_name + ".mp4"@)
}

/// The sizes of an incoming download spec are usable: no negative stream
/// size, a total that fits, and a checkpoint within the total.
pub open spec fn add_sizes_ok(d: Download) -> bool {
    &&& 0 <= d.video_size
    &&& 0 <= d.audio_size
    &&& d.video_size + d.audio_size <= i64::MAX
    &&& 0 <= d.downloaded_size <= d.video_size + d.audio_size
}

/// Some record of `s` is active — downloading or paused — and carries
/// `x`.
pub open spec fn active_id_in(s: Seq<Download>, x: i32) -> bool {
    exists|k: int|
        0 <= k < s.len() && (#[trigger] s[k]).status.is_active() && s[k].id == x
}

/// Extending the scanned prefix by one record extends the active ids by
/// that record's id exactly when it is active.
proof fn lemma_active_id_step(s: Seq<Download>, i: int)
    requires
        0 <= i < s.len(),
    ensures
        forall|x: i32|
            #[trigger] active_id_in(s.take(i + 1), x) == (active_id_in(s.take(i), x) || (
            s[i].status.is_active() && s[i].id == x)),
{
    assert forall|x: i32|
        #[trigger] active_id_in(s.take(i + 1), x) == (active_id_in(s.take(i), x) || (
        s[i].status.is_active() && s[i].id == x)) by {
        if active_id_in(s.take(i + 1), x) {
            let k = choose|k: int|
                0 <= k < s.take(i + 1).len() && (#[trigger] s.take(i + 1)[k]).status.is_active()
                    && s.take(i + 1)[k].id == x;
            if k < i {
                assert(s.take(i)[k] == s[k]);
                assert(active_id_in(s.take(i), x));
            } else {
                assert(s.take(i + 1)[i] == s[i]);
            }
        }
        if active_id_in(s.take(i), x) {
            let k = choose|k: int|
                0 <= k < s.take(i).len() && (#[trigger] s.take(i)[k]).status.is_active()
                    && s.take(i)[k].id == x;
            assert(s.take(i + 1)[k] == s[k]);
            assert(active_id_in(s.take(i + 1), x));
        }
        if s[i].status.is_active() && s[i].id == x {
            assert(s.take(i + 1)[i] == s[i]);
            assert(active_id_in(s.take(i + 1), x));
        }
    }
}

/// The service object of the download manager.
pub struct DownloadManager {
    /// Source of truth for records and progress.
    pub store: Store,
    /// The ids with a live fetch task.
    pub registry: Registry,
    /// Bounds simultaneous network transfers.
    pub gate: Gate,
}

impl DownloadManager {
    /// Well-formedness of the whole service: a well-formed store, a
    /// duplicate-free registry whose ids all have records, and a gate
    /// within its capacity.
    pub open spec fn wf(self) -> bool {
        &&& self.store.wf()
        &&& self.registry.wf()
        &&& self.gate.wf()
        &&& forall|id: i32| #[trigger] self.registry@.contains(id) ==> self.store.has_id(id)
    }

    /// A fresh manager: empty store, empty registry, a gate with
    /// `capacity` permits.
    pub fn with_capacity(capacity: usize) -> (m: DownloadManager)
        ensures
            m.wf(),
            m.store@ == Seq::<Download>::empty(),
            m.store.next_id_spec() == 1,
            m.registry@ == Set::<i32>::empty(),
            m.gate.capacity_spec() == capacity,
            m.gate.active_spec() == 0,
    {
        DownloadManager {
            store: Store::new(),
            registry: Registry::new(),
            gate: Gate::new(capacity),
        }
    }

    /// A fresh manager with the default transfer bound.
    pub fn new() -> (m: DownloadManager)
        ensures
            m.wf(),
            m.store@ == Seq::<Download>::empty(),
            m.store.next_id_spec() == 1,
            m.registry@ == Set::<i32>::empty(),
            m.gate.capacity_spec() == DEFAULT_GATE_CAPACITY,
            m.gate.active_spec() == 0,
    {
        DownloadManager::with_capacity(DEFAULT_GATE_CAPACITY)
    }

    /// Persists a new record for `download`: resolves a collision-free
    /// target path under the save directory, fixes the total from the
    /// (already probed) stream sizes, and inserts it in `Downloading`
    /// status.  Returns the store-assigned id; the caller then launches
    /// the fetch with `start_downloading`.
    pub fn add_download_file(
        &mut self,
        download: Download,
        save_path: &str,
        occupied: &Vec<String>,
    ) -> (r: Result<i32, DownloadError>)
        requires
            old(self).wf(),
            old(self).store.next_id_spec() < i32::MAX,
        ensures
            final(self).wf(),
            final(self).registry == old(self).registry,
            final(self).gate == old(self).gate,
            match r {
                Ok(id) => ({
                    let base = add_base_path(download.file_name@, save_path@);
                    let rec = final(self).store@.last();
                    &&& add_sizes_ok(download)
                    &&& id == old(self).store.next_id_spec()
                    &&& final(self).store.next_id_spec() == old(self).store.next_id_spec()
                        + 1
                    &&& final(self).store@ == old(self).store@.push(rec)
                    &&& final(self).store.has_id(id) && !old(self).store.has_id(id)
                    &&& rec.id == id
                    &&& rec.video_url == download.video_url
                    &&& rec.audio_url == download.audio_url
                    &&& rec.file_name == download.file_name
                    &&& rec.referer == download.referer
                    &&& rec.added_date == download.added_date
                    &&& rec.last_updated_date == download.last_updated_date
                    &&& rec.video_size == download.video_size
                    &&& rec.audio_size == download.audio_size
                    &&& rec.total_size == download.video_size + download.audio_size
                    &&& rec.downloaded_size == download.downloaded_size
                    &&& rec.status == DownloadStatus::Downloading
                    &&& !occupied_contains(occupied@, rec.file_path@)
                    &&& (rec.file_path@ == base || (occupied_contains(occupied@, base)
                        && exists|k: int|
                        1 <= k && rec.file_path@ == #[trigger] numbered_path(
                            base,
                            k as nat,
                        )))
                }),
                Err(e) => {
                    &&& final(self).store@ == old(self).store@
                    &&& final(self).store.next_id_spec() == old(self).store.next_id_spec()
                    &&& e == DownloadError::InvalidRecord
                    &&& !add_sizes_ok(download)
                },
            },
    {
        let mut name = download.file_name.clone();
        name.append(".mp4");
        let base = get_path_str(save_path, name.as_str());
        let file_path = get_unique_file_path(base.as_str(), occupied);
        let sizes_ok = download.video_size >= 0 && download.audio_size >= 0
            && download.video_size <= i64::MAX - download.audio_size
            && download.downloaded_size >= 0 && download.downloaded_size
            <= download.video_size + download.audio_size;
        if !sizes_ok {
            return Err(DownloadError::InvalidRecord);
        }
        let total_size = download.video_size + download.audio_size;
        let rec = Download {
            file_path,
            total_size,
            status: DownloadStatus::Downloading,
            ..download
        };
        let ghost pre = self.store;
        let id = self.store.insert(rec);
        proof {
            assert forall|x: i32| #[trigger]
                self.registry@.contains(x) implies self.store.has_id(x) by {
                assert(pre.has_id(x));
                let j = choose|j: int|
                    0 <= j < pre@.len() && (#[trigger] pre@[j]).id == x;
                assert(self.store@[j].id == x);
            }
        }
        Ok(id)
    }

    /// Launches the fetch task for `id`: refuses a second concurrent
    /// launch with `AlreadyRunning`, refuses an unknown id with
    /// `NotFound` (both leaving everything unchanged), registers the id,
    /// and resumes a paused record by persisting it as `Downloading`
    /// again.  The caller then drives the transfer.
    pub fn start_downloading(&mut self, id: i32) -> (r: Result<(), DownloadError>)
        requires
            old(self).wf(),
        ensures
            final(self).wf(),
            final(self).gate == old(self).gate,
            final(self).store.next_id_spec() == old(self).store.next_id_spec(),
            match r {
                Ok(()) => {
                    &&& !old(self).registry@.contains(id)
                    &&& old(self).store.has_id(id)
                    &&& final(self).registry@ == old(self).registry@.insert(id)
                    &&& if old(self).store.spec_get(id).status == DownloadStatus::Paused {
                        final(self).store@ == old(self).store@.update(
                            old(self).store.idx_of(id),
                            old(self).store.spec_get(id).with_status(
                                DownloadStatus::Downloading,
                            ),
                        )
                    } else {
                        final(self).store@ == old(self).store@
                    }
                },
                Err(e) => {
                    &&& final(self).store@ == old(self).store@
                    &&& final(self).registry@ == old(self).registry@
                    &&& (e == DownloadError::AlreadyRunning || e == DownloadError::NotFound)
                    &&& (e == DownloadError::AlreadyRunning
                        <==> old(self).registry@.contains(id))
                    &&& (e == DownloadError::NotFound <==> !old(self).registry@.contains(id)
                        && !old(self).store.has_id(id))
                },
            },
    {
        if self.registry.is_running(id) {
            return Err(DownloadError::AlreadyRunning);
        }
        let rec = match self.store.get(id) {
            Ok(d) => d,
            Err(_) => {
                return Err(DownloadError::NotFound);
            },
        };
        match self.registry.register(id) {
            Ok(()) => {},
            Err(e) => {
                return Err(e);
            },
        }
        let is_paused = match rec.status {
            DownloadStatus::Paused => true,
            _ => false,
        };
        if is_paused {
            let mut upd = rec;
            upd.status = DownloadStatus::Downloading;
            let ghost pre = self.store;
            match self.store.update(&upd) {
                Ok(()) => {},
                Err(e) => {
                    return Err(e);
                },
            }
            proof {
                assert(pre.spec_get(id).with_progress_of(upd) == pre.spec_get(id).with_status(
                    DownloadStatus::Downloading,
                ));
                lemma_update_same_id(
                    pre@,
                    pre.idx_of(id),
                    pre.spec_get(id).with_progress_of(upd),
                );
            }
        }
        Ok(())
    }

    /// Stops the running fetch for `id`: `NotFound` when no task is
    /// registered, leaving the persisted status untouched; otherwise the
    /// record is persisted as `Paused` and the id unregistered.  The
    /// caller then signals the task's cancellation token.
    pub fn stop_downloading(&mut self, id: i32) -> (r: Result<(), DownloadError>)
        requires
            old(self).wf(),
        ensures
            final(self).wf(),
            final(self).gate == old(self).gate,
            final(self).store.next_id_spec() == old(self).store.next_id_spec(),
            !final(self).registry@.contains(id),
            match r {
                Ok(()) => {
                    &&& old(self).registry@.contains(id)
                    &&& old(self).store.has_id(id)
                    &&& final(self).registry@ == old(self).registry@.remove(id)
                    &&& final(self).store@ == old(self).store@.update(
                        old(self).store.idx_of(id),
                        old(self).store.spec_get(id).with_status(DownloadStatus::Paused),
                    )
                },
                Err(e) => {
                    &&& e == DownloadError::NotFound
                    &&& !old(self).registry@.contains(id)
                    &&& final(self).store@ == old(self).store@
                    &&& final(self).registry@ == old(self).registry@
                },
            },
    {
        match self.registry.remove(id) {
            Ok(()) => {},
            Err(_) => {
                return Err(DownloadError::NotFound);
            },
        }
        let rec = match self.store.get(id) {
            Ok(d) => d,
            Err(_) => {
                proof {
                    assert(old(self).registry@.contains(id));
                    assert(old(self).store.has_id(id));
                }
                return Err(DownloadError::NotFound);
            },
        };
        let mut upd = rec;
        upd.status = DownloadStatus::Paused;
        let ghost pre = self.store;
        match self.store.update(&upd) {
            Ok(()) => {},
            Err(_) => {
                proof {
                    assert(pre.has_id(id));
                }
                return Err(DownloadError::NotFound);
            },
        }
        proof {
            assert(pre.spec_get(id).with_progress_of(upd) == pre.spec_get(id).with_status(
                DownloadStatus::Paused,
            ));
            lemma_update_same_id(pre@, pre.idx_of(id), pre.spec_get(id).with_progress_of(upd));
        }
        Ok(())
    }

    /// Deletes the record for `id`: a running task is stopped first — its
    /// record persisted as `Paused` through `stop_downloading` — then the
    /// record is removed.  `NotFound` when no record exists.
    pub fn delete_download_file(&mut self, id: i32) -> (r: Result<(), DownloadError>)
        requires
            old(self).wf(),
        ensures
            final(self).wf(),
            final(self).gate == old(self).gate,
            final(self).store.next_id_spec() == old(self).store.next_id_spec(),
            !final(self).store.has_id(id),
            !final(self).registry@.contains(id),
            final(self).registry@ == old(self).registry@.remove(id),
            match r {
                Ok(()) => old(self).store.has_id(id) && final(self)
                    .store@ == old(self).store@.remove(old(self).store.idx_of(id)),
                Err(e) => e == DownloadError::NotFound && !old(self).store.has_id(id)
                    && final(self).store@ == old(self).store@,
            },
    {
        let ghost pre = *self;
        let stop_result = self.stop_downloading(id);
        proof {
            if !pre.registry@.contains(id) {
                assert(pre.registry@.remove(id) =~= pre.registry@);
            }
            if stop_result is Ok {
                lemma_update_same_id(
                    pre.store@,
                    pre.store.idx_of(id),
                    pre.store.spec_get(id).with_status(DownloadStatus::Paused),
                );
            }
        }
        let ghost mid = *self;
        let r = self.store.delete(id);
        proof {
            assert(!self.registry@.contains(id));
            match r {
                Ok(()) => {
                    assert(mid.store.has_id(id));
                    let i_mid = mid.store.idx_of(id);
                    assert(mid.store@[i_mid].id == id);
                    if stop_result is Ok {
                        let i = pre.store.idx_of(id);
                        let paused = pre.store.spec_get(id).with_status(
                            DownloadStatus::Paused,
                        );
                        assert(mid.store@ == pre.store@.update(i, paused));
                        assert(mid.store@[i].id == id);
                        mid.store.lemma_id_determines_index(i_mid, i);
                        assert(mid.store@.remove(i) =~= pre.store@.remove(i));
                    }
                    assert forall|x: i32| #[trigger]
                        self.registry@.contains(x) implies self.store.has_id(x) by {
                        assert(mid.registry@.contains(x));
                        assert(mid.store.has_id(x));
                        let j = choose|j: int|
                            0 <= j < mid.store@.len() && (#[trigger] mid.store@[j]).id
                                == x;
                        if j < i_mid {
                            assert(self.store@[j].id == x);
                        } else if j > i_mid {
                            assert(self.store@[j - 1].id == x);
                        } else {
                            assert(x == id);
                            assert(false);
                        }
                    }
                },
                Err(_) => {
                    assert forall|x: i32| #[trigger]
                        self.registry@.contains(x) implies self.store.has_id(x) by {
                        assert(mid.registry@.contains(x));
                        assert(mid.store.has_id(x));
                    }
                },
            }
        }
        match r {
            Ok(()) => Ok(()),
            Err(e) => Err(e),
        }
    }


    /// Reinstates one persisted record at startup, before the recovery
    /// sweep: the row keeps its id, status and checkpoint.
    pub fn restore_record(&mut self, d: Download) -> (r: Result<(), DownloadError>)
        requires
            old(self).wf(),
        ensures
            final(self).wf(),
            final(self).registry == old(self).registry,
            final(self).gate == old(self).gate,
            match r {
                Ok(()) => 1 <= d.id < i32::MAX && d.sizes_valid()
                    && !old(self).store.has_id(d.id)
                    && final(self).store@ == old(self).store@.push(d),
                Err(e) => {
                    &&& e == DownloadError::InvalidRecord
                    &&& (d.id < 1 || d.id == i32::MAX || !d.sizes_valid()
                        || old(self).store.has_id(d.id))
                    &&& final(self).store@ == old(self).store@
                },
            },
    {
        let ghost pre = self.store;
        let r = self.store.restore(d);
        proof {
            if r is Ok {
                assert forall|x: i32| #[trigger]
                    self.registry@.contains(x) implies self.store.has_id(x) by {
                    assert(pre.has_id(x));
                    let j = choose|j: int|
                        0 <= j < pre@.len() && (#[trigger] pre@[j]).id == x;
                    assert(self.store@[j].id == x);
                }
            }
        }
        r
    }

    /// Startup recovery: every record persisted as downloading or paused
    /// gets its fetch task started again — a crash is indistinguishable
    /// from an explicit pause, and each task resumes from its last
    /// persisted checkpoint.  Returns the started ids, in table order,
    /// for the caller to launch the transfers.
    pub fn check_download_init(&mut self) -> (started: Vec<i32>)
        requires
            old(self).wf(),
            old(self).registry@ == Set::<i32>::empty(),
        ensures
            final(self).wf(),
            final(self).gate == old(self).gate,
            final(self).store.next_id_spec() == old(self).store.next_id_spec(),
            final(self).store@.len() == old(self).store@.len(),
            forall|k: int|
                0 <= k < old(self).store@.len() ==> final(self).store@[k] == (if (
                #[trigger] old(self).store@[k]).status.is_active() {
                    old(self).store@[k].with_status(DownloadStatus::Downloading)
                } else {
                    old(self).store@[k]
                }),
            forall|x: i32|
                #[trigger] final(self).registry@.contains(x) == active_id_in(
                    old(self).store@,
                    x,
                ),
            forall|m: int|
                0 <= m < started@.len() ==> active_id_in(
                    old(self).store@,
                    #[trigger] started@[m],
                ),
            forall|k: int|
                0 <= k < old(self).store@.len()
                    && (#[trigger] old(self).store@[k]).status.is_active()
                    ==> started@.contains(old(self).store@[k].id),
    {
        let ghost orig = old(self).store@;
        let n = self.store.len();
        let mut started: Vec<i32> = Vec::new();
        let mut i: usize = 0;
        proof {
            assert(orig.take(0) =~= Seq::<Download>::empty());
        }
        while i < n
            invariant
                self.wf(),
                old(self).store.wf(),
                orig == old(self).store@,
                n == orig.len(),
                0 <= i <= n,
                self.gate == old(self).gate,
                self.store.next_id_spec() == old(self).store.next_id_spec(),
                self.store@.len() == orig.len(),
                forall|k: int|
                    0 <= k < orig.len() ==> self.store@[k] == (if k < i && (
                    #[trigger] orig[k]).status.is_active() {
                        orig[k].with_status(DownloadStatus::Downloading)
                    } else {
                        orig[k]
                    }),
                forall|x: i32|
                    #[trigger] self.registry@.contains(x) == active_id_in(
                        orig.take(i as int),
                        x,
                    ),
                forall|m: int|
                    0 <= m < started@.len() ==> active_id_in(
                        orig.take(i as int),
                        #[trigger] started@[m],
                    ),
                forall|k: int|
                    0 <= k < i && (#[trigger] orig[k]).status.is_active()
                        ==> started@.contains(orig[k].id),
            decreases n - i,
        {
            let row = self.store.row_at(i);
            proof {
                assert(self.store@[i as int] == orig[i as int]);
            }
            let active = match row.status {
                DownloadStatus::Downloading => true,
                DownloadStatus::Paused => true,
                _ => false,
            };
            proof {
                lemma_active_id_step(orig, i as int);
            }
            if active {
                let ghost pre = *self;
                proof {
                    if pre.registry@.contains(row.id) {
                        let k = choose|k: int|
                            0 <= k < orig.take(i as int).len() && (#[trigger] orig.take(
                                i as int,
                            )[k]).status.is_active() && orig.take(i as int)[k].id == row.id;
                        assert(orig[k].id == orig[i as int].id);
                    }
                    assert(!pre.registry@.contains(row.id));
                    assert(pre.store@[i as int].id == row.id);
                    assert(pre.store.has_id(row.id));
                }
                let res = self.start_downloading(row.id);
                proof {
                    assert(res is Ok);
                    pre.store.lemma_id_determines_index(pre.store.idx_of(row.id), i as int);
                    assert(pre.store.spec_get(row.id) == orig[i as int]);
                    assert forall|k: int|
                        0 <= k < orig.len() implies self.store@[k] == (if k < i + 1 && (
                        #[trigger] orig[k]).status.is_active() {
                            orig[k].with_status(DownloadStatus::Downloading)
                        } else {
                            orig[k]
                        }) by {
                        if orig[i as int].status == DownloadStatus::Paused {
                            assert(self.store@ == pre.store@.update(
                                i as int,
                                orig[i as int].with_status(DownloadStatus::Downloading),
                            ));
                        } else {
                            assert(self.store@ == pre.store@);
                            if k == i {
                                assert(orig[k].with_status(DownloadStatus::Downloading)
                                    == orig[k]);
                            }
                        }
                    }
                }
                let ghost started_pre = started@;
                started.push(row.id);
                proof {
                    assert forall|m: int|
                        0 <= m < started@.len() implies active_id_in(
                        orig.take(i + 1),
                        #[trigger] started@[m],
                    ) by {
                        if m < started_pre.len() {
                            assert(started@[m] == started_pre[m]);
                        } else {
                            assert(started@[m] == row.id);
                        }
                    }
                    assert forall|k: int|
                        0 <= k < i + 1 && (#[trigger] orig[k]).status.is_active()
                            implies started@.contains(orig[k].id) by {
                        if k < i {
                            let m = choose|m: int|
                                0 <= m < started_pre.len() && started_pre[m] == orig[k].id;
                            assert(started@[m] == orig[k].id);
                        } else {
                            assert(started@[started@.len() - 1] == orig[k].id);
                        }
                    }
                }
            } else {
                proof {
                    assert forall|k: int|
                        0 <= k < i + 1 && (#[trigger] orig[k]).status.is_active()
                            implies started@.contains(orig[k].id) by {}
                }
            }
            i = i + 1;
        }
        proof {
            assert(orig.take(n as int) =~= orig);
        }
        started
    }

    /// Looks up one record.
    pub fn get_download_file(&self, id: i32) -> (r: Result<Download, DownloadError>)
        requires
            self.wf(),
        ensures
            match r {
                Ok(d) => self.store.has_id(id) && d == self.store.spec_get(id),
                Err(e) => e == DownloadError::NotFound && !self.store.has_id(id),
            },
    {
        self.store.get(id)
    }

    /// Persists a checkpoint update handed in by a fetch task, after
    /// checking that its sizes keep the record invariant.
    pub fn update_download_file(&mut self, d: &Download) -> (r: Result<(), DownloadError>)
        requires
            old(self).wf(),
        ensures
            final(self).wf(),
            final(self).gate == old(self).gate,
            final(self).registry == old(self).registry,
            final(self).store.next_id_spec() == old(self).store.next_id_spec(),
            match r {
                Ok(()) => d.sizes_valid() && old(self).store.has_id(d.id) && final(self)
                    .store@ == old(self).store@.update(
                    old(self).store.idx_of(d.id),
                    old(self).store.spec_get(d.id).with_progress_of(*d),
                ),
                Err(e) => final(self).store@ == old(self).store@ && (
                    (e == DownloadError::InvalidRecord && !d.sizes_valid())
                    || (e == DownloadError::NotFound && d.sizes_valid()
                        && !old(self).store.has_id(d.id))),
            },
    {
        let sizes_ok = d.video_size >= 0 && d.audio_size >= 0 && d.total_size >= 0
            && d.total_size - d.video_size == d.audio_size && d.downloaded_size >= 0
            && d.downloaded_size <= d.total_size;
        if !sizes_ok {
            return Err(DownloadError::InvalidRecord);
        }
        let ghost pre = self.store;
        let r = self.store.update(d);
        proof {
            if r is Ok {
                lemma_update_same_id(
                    pre@,
                    pre.idx_of(d.id),
                    pre.spec_get(d.id).with_progress_of(*d),
                );
            }
        }
        r
    }

    /// Finishes a download: the checkpoint is brought to the full total,
    /// the record persisted as `Completed`, the id unregistered, and the
    /// single terminal progress event — all bytes — returned for
    /// emission.
    pub fn complete_download(&mut self, id: i32) -> (r: Result<
        DownloadProgress,
        DownloadError,
    >)
        requires
            old(self).wf(),
        ensures
            final(self).wf(),
            final(self).gate == old(self).gate,
            final(self).store.next_id_spec() == old(self).store.next_id_spec(),
            final(self).registry@ == old(self).registry@.remove(id),
            match r {
                Ok(ev) => {
                    &&& old(self).store.has_id(id)
                    &&& final(self).store@ == old(self).store@.update(
                        old(self).store.idx_of(id),
                        (Download {
                            downloaded_size: old(self).store.spec_get(id).total_size,
                            status: DownloadStatus::Completed,
                            ..old(self).store.spec_get(id)
                        }),
                    )
                    &&& ev.id == id
                    &&& ev.chunk_length == old(self).store.spec_get(id).total_size
                },
                Err(e) => e == DownloadError::NotFound && !old(self).store.has_id(id)
                    && final(self).store@ == old(self).store@,
            },
    {
        let rec = match self.store.get(id) {
            Ok(d) => d,
            Err(e) => {
                proof {
                    assert(old(self).registry@.remove(id) =~= old(self).registry@);
                }
                return Err(e);
            },
        };
        let ev = DownloadProgress::completed(&rec);
        let mut upd = rec;
        upd.downloaded_size = upd.total_size;
        upd.status = DownloadStatus::Completed;
        let ghost pre = self.store;
        match self.store.update(&upd) {
            Ok(()) => {},
            Err(e) => {
                return Err(e);
            },
        }
        let _ = self.registry.remove(id);
        proof {
            assert(pre.spec_get(id).with_progress_of(upd) == (Download {
                downloaded_size: pre.spec_get(id).total_size,
                status: DownloadStatus::Completed,
                ..pre.spec_get(id)
            }));
            lemma_update_same_id(pre@, pre.idx_of(id), pre.spec_get(id).with_progress_of(upd));
            if !old(self).registry@.contains(id) {
                assert(old(self).registry@.remove(id) =~= old(self).registry@);
            }
        }
        Ok(ev)
    }

    /// Marks a download failed: the record is persisted as `Failed` with
    /// its checkpoint untouched, the id unregistered, and the failure
    /// sentinel event returned for emission.
    pub fn fail_download(&mut self, id: i32) -> (r: Result<DownloadProgress, DownloadError>)
        requires
            old(self).wf(),
        ensures
            final(self).wf(),
            final(self).gate == old(self).gate,
            final(self).store.next_id_spec() == old(self).store.next_id_spec(),
            final(self).registry@ == old(self).registry@.remove(id),
            match r {
                Ok(ev) => {
                    &&& old(self).store.has_id(id)
                    &&& final(self).store@ == old(self).store@.update(
                        old(self).store.idx_of(id),
                        old(self).store.spec_get(id).with_status(DownloadStatus::Failed),
                    )
                    &&& ev.id == id
                    &&& ev.chunk_length == crate::record::FAILURE_SENTINEL
                },
                Err(e) => e == DownloadError::NotFound && !old(self).store.has_id(id)
                    && final(self).store@ == old(self).store@,
            },
    {
        let rec = match self.store.get(id) {
            Ok(d) => d,
            Err(e) => {
                proof {
                    assert(old(self).registry@.remove(id) =~= old(self).registry@);
                }
                return Err(e);
            },
        };
        let ev = DownloadProgress::failed(id);
        let mut upd = rec;
        upd.status = DownloadStatus::Failed;
        let ghost pre = self.store;
        match self.store.update(&upd) {
            Ok(()) => {},
            Err(e) => {
                return Err(e);
            },
        }
        let _ = self.registry.remove(id);
        proof {
            assert(pre.spec_get(id).with_progress_of(upd) == pre.spec_get(id).with_status(
                DownloadStatus::Failed,
            ));
            lemma_update_same_id(pre@, pre.idx_of(id), pre.spec_get(id).with_progress_of(upd));
            if !old(self).registry@.contains(id) {
                assert(old(self).registry@.remove(id) =~= old(self).registry@);
            }
        }
        Ok(ev)
    }

    /// The records a consumer sees as in progress: downloading or paused.
    pub fn get_all_downloading_files(&self) -> (r: Vec<Download>)
        requires
            self.wf(),
        ensures
            r@ == self.store@.filter(|d: Download| d.status.is_active()),
    {
        self.store.list_active()
    }

    /// The completed records.
    pub fn get_all_downloaded_files(&self) -> (r: Vec<Download>)
        requires
            self.wf(),
        ensures
            r@ == self.store@.filter(|d: Download| d.status == DownloadStatus::Completed),
    {
        self.store.list_completed()
    }

    /// The records whose file name contains `text`.
    pub fn search_downloads(&self, text: &str) -> (r: Vec<Download>)
        requires
            self.wf(),
        ensures
            r@ == self.store@.filter(
                |d: Download| crate::text::contains_seq(d.file_name@, text@),
            ),
    {
        self.store.search(text)
    }
}

/// Every persisted record of a well-formed manager satisfies the size
/// invariant at every observation point: a checkpoint within the total
/// and a total that is exactly the sum of the stream sizes.
pub proof fn lemma_store_records_valid(m: DownloadManager, i: int)
    requires
        m.wf(),
        0 <= i < m.store@.len(),
    ensures
        0 <= m.store@[i].downloaded_size <= m.store@[i].total_size,
        m.store@[i].total_size == m.store@[i].video_size + m.store@[i].audio_size,
{
}

} // verus!
