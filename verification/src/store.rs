//! The persistent-store model: the single source of truth for download
//! records.
//!
//! The store is a table of records with unique, store-assigned ids.  Every
//! operation keeps the table well formed: ids unique and below the next
//! fresh id, and every row satisfying the size invariant.  The caller
//! mirrors each mutation to durable storage; this model is what the rest of
//! the manager reasons about.

use vstd::prelude::*;

use crate::errors::DownloadError;
use crate::record::Download;
use crate::status::DownloadStatus;
use crate::text::contains_seq;
use crate::text::contains_str;

verus! {

/// Some row of `s` carries `id`.
pub open spec fn seq_has_id(s: Seq<Download>, id: i32) -> bool {
    exists|i: int| 0 <= i < s.len() && (#[trigger] s[i]).id == id
}

/// Replacing a row by one with the same id leaves the set of ids alone.
pub proof fn lemma_update_same_id(s: Seq<Download>, i: int, row: Download)
    requires
        0 <= i < s.len(),
        row.id == s[i].id,
    ensures
        forall|x: i32| seq_has_id(s.update(i, row), x) == seq_has_id(s, x),
{
    let t = s.update(i, row);
    assert forall|x: i32| seq_has_id(t, x) == seq_has_id(s, x) by {
        if seq_has_id(t, x) {
            let j = choose|j: int| 0 <= j < t.len() && t[j].id == x;
            if j == i {
                assert(s[i].id == x);
            } else {
                assert(s[j].id == x);
            }
        }
        if seq_has_id(s, x) {
            let j = choose|j: int| 0 <= j < s.len() && s[j].id == x;
            if j == i {
                assert(t[i].id == x);
            } else {
                assert(t[j].id == x);
            }
        }
    }
}

/// The table of download records, plus the next id to assign.
pub struct Store {
    rows: Vec<Download>,
    next_id: i32,
}

impl View for Store {
    type V = Seq<Download>;

    /// The rows, in insertion order.
    closed spec fn view(&self) -> Seq<Download> {
        self.rows@
    }
}

impl Store {
    /// The id the next inserted record will receive.
    pub closed spec fn next_id_spec(self) -> i32 {
        self.next_id
    }

    /// Well-formedness: every row valid, every id unique, positive and
    /// below the next fresh id.
    pub open spec fn wf(self) -> bool {
        &&& 1 <= self.next_id_spec()
        &&& forall|i: int| 0 <= i < self@.len() ==> (#[trigger] self@[i]).sizes_valid()
        &&& forall|i: int|
            0 <= i < self@.len() ==> 1 <= (#[trigger] self@[i]).id < self.next_id_spec()
        &&& forall|i: int, j: int|
            0 <= i < j < self@.len() ==> #[trigger] self@[i].id != #[trigger] self@[j].id
    }

    /// Some row carries `id`.
    pub open spec fn has_id(self, id: i32) -> bool {
        seq_has_id(self@, id)
    }

    /// The index of the row carrying `id` (meaningful when `has_id`).
    pub open spec fn idx_of(self, id: i32) -> int {
        choose|i: int| 0 <= i < self@.len() && (#[trigger] self@[i]).id == id
    }

    /// The row carrying `id` (meaningful when `has_id`).
    pub open spec fn spec_get(self, id: i32) -> Download {
        self@[self.idx_of(id)]
    }

    /// In a well-formed store an id determines its row index.
    pub proof fn lemma_id_determines_index(self, i: int, j: int)
        requires
            self.wf(),
            0 <= i < self@.len(),
            0 <= j < self@.len(),
            self@[i].id == self@[j].id,
        ensures
            i == j,
    {
    }

    /// An empty store.
    pub fn new() -> (s: Store)
        ensures
            s.wf(),
            s@ == Seq::<Download>::empty(),
            s.next_id_spec() == 1,
    {
        Store { rows: Vec::new(), next_id: 1 }
    }

    /// Inserts a record, assigning it the next fresh id, and returns that
    /// id.  The incoming record's own `id` field is ignored.
    pub fn insert(&mut self, d: Download) -> (id: i32)
        requires
            old(self).wf(),
            d.sizes_valid(),
            old(self).next_id_spec() < i32::MAX,
        ensures
            final(self).wf(),
            id == old(self).next_id_spec(),
            !old(self).has_id(id),
            final(self).has_id(id),
            final(self)@ == old(self)@.push(Download { id, ..d }),
            final(self).next_id_spec() == old(self).next_id_spec() + 1,
            final(self).spec_get(id) == (Download { id, ..d }),
    {
        let id = self.next_id;
        let row = Download { id, ..d };
        self.rows.push(row);
        self.next_id = self.next_id + 1;
        proof {
            let n = self@.len() - 1;
            assert(self@[n].id == id);
            assert(self.has_id(id));
            self.lemma_id_determines_index(self.idx_of(id), n);
        }
        id
    }

    /// Reinstates a persisted row at startup, keeping its id and status.
    /// Refused as `InvalidRecord` when the id is out of range or taken, or
    /// the sizes break the record invariant — and then nothing changes.
    pub fn restore(&mut self, d: Download) -> (r: Result<(), DownloadError>)
        requires
            old(self).wf(),
        ensures
            final(self).wf(),
            match r {
                Ok(()) => {
                    &&& 1 <= d.id < i32::MAX
                    &&& d.sizes_valid()
                    &&& !old(self).has_id(d.id)
                    &&& final(self)@ == old(self)@.push(d)
                    &&& final(self).next_id_spec() == if d.id >= old(self).next_id_spec() {
                        d.id + 1
                    } else {
                        old(self).next_id_spec() as int
                    }
                },
                Err(e) => {
                    &&& e == DownloadError::InvalidRecord
                    &&& (d.id < 1 || d.id == i32::MAX || !d.sizes_valid()
                        || old(self).has_id(d.id))
                    &&& final(self)@ == old(self)@
                    &&& final(self).next_id_spec() == old(self).next_id_spec()
                },
            },
    {
        let sizes_ok = d.video_size >= 0 && d.audio_size >= 0 && d.total_size >= 0
            && d.total_size - d.video_size == d.audio_size && d.downloaded_size >= 0
            && d.downloaded_size <= d.total_size;
        if d.id < 1 || d.id == i32::MAX || !sizes_ok {
            return Err(DownloadError::InvalidRecord);
        }
        match self.get(d.id) {
            Ok(_) => {
                return Err(DownloadError::InvalidRecord);
            },
            Err(_) => {},
        }
        if d.id >= self.next_id {
            self.next_id = d.id + 1;
        }
        let ghost prev = self@;
        self.rows.push(d);
        proof {
            let n = self@.len() - 1;
            assert(self@[n] == d);
            assert forall|i: int, j: int|
                0 <= i < j < self@.len() implies #[trigger] self@[i].id
                != #[trigger] self@[j].id by {
                if j == n {
                    assert(self@[i] == prev[i]);
                    assert(prev[i].id == self@[i].id);
                    if self@[i].id == d.id {
                        assert(seq_has_id(prev, d.id));
                    }
                }
            }
        }
        Ok(())
    }

    /// Looks a record up by id; `NotFound` exactly when no row carries it.
    pub fn get(&self, id: i32) -> (r: Result<Download, DownloadError>)
        requires
            self.wf(),
        ensures
            match r {
                Ok(d) => self.has_id(id) && d == self.spec_get(id),
                Err(e) => e == DownloadError::NotFound && !self.has_id(id),
            },
    {
        let n = self.rows.len();
        let mut i: usize = 0;
        while i < n
            invariant
                self.wf(),
                n == self@.len(),
                0 <= i <= n,
                forall|j: int| 0 <= j < i ==> (#[trigger] self@[j]).id != id,
            decreases n - i,
        {
            if self.rows[i].id == id {
                proof {
                    self.lemma_id_determines_index(self.idx_of(id), i as int);
                }
                return Ok(self.rows[i].clone());
            }
            i = i + 1;
        }
        Err(DownloadError::NotFound)
    }

    /// Writes a checkpoint update: the progress fields of `d` replace those
    /// of the row carrying `d.id`; identity and origin fields stay.
    /// `NotFound` exactly when no row carries `d.id`, and then nothing
    /// changes.
    pub fn update(&mut self, d: &Download) -> (r: Result<(), DownloadError>)
        requires
            old(self).wf(),
            d.sizes_valid(),
        ensures
            final(self).wf(),
            final(self).next_id_spec() == old(self).next_id_spec(),
            match r {
                Ok(()) => old(self).has_id(d.id) && final(self)@ == old(self)@.update(
                    old(self).idx_of(d.id),
                    old(self).spec_get(d.id).with_progress_of(*d),
                ),
                Err(e) => e == DownloadError::NotFound && !old(self).has_id(d.id) && final(self)@ == old(self)@,
            },
    {
        let n = self.rows.len();
        let mut i: usize = 0;
        while i < n
            invariant
                self.wf(),
                self@ == old(self)@,
                self.next_id_spec() == old(self).next_id_spec(),
                d.sizes_valid(),
                n == self@.len(),
                0 <= i <= n,
                forall|j: int| 0 <= j < i ==> (#[trigger] self@[j]).id != d.id,
            decreases n - i,
        {
            if self.rows[i].id == d.id {
                proof {
                    self.lemma_id_determines_index(self.idx_of(d.id), i as int);
                }
                let ghost prev = self@;
                let mut row = self.rows[i].clone();
                row.video_size = d.video_size;
                row.audio_size = d.audio_size;
                row.total_size = d.total_size;
                row.downloaded_size = d.downloaded_size;
                row.status = d.status;
                row.last_updated_date = d.last_updated_date.clone();
                self.rows[i] = row;
                proof {
                    assert(self@ =~= prev.update(i as int, prev[i as int].with_progress_of(*d)));
                    assert forall|k: int| 0 <= k < self@.len() implies #[trigger] self@[k].id
                        == prev[k].id by {
                        if k != i {
                            assert(self@[k] == prev[k]);
                        }
                    }
                    assert forall|k: int| 0 <= k < self@.len() implies (
                    #[trigger] self@[k]).sizes_valid() by {
                        if k != i {
                            assert(self@[k] == prev[k]);
                        } else {
                            assert(self@[k] == prev[i as int].with_progress_of(*d));
                        }
                    }
                }
                return Ok(());
            }
            i = i + 1;
        }
        Err(DownloadError::NotFound)
    }

    /// Removes the row carrying `id`; `NotFound` exactly when there is
    /// none, and then nothing changes.
    pub fn delete(&mut self, id: i32) -> (r: Result<(), DownloadError>)
        requires
            old(self).wf(),
        ensures
            final(self).wf(),
            final(self).next_id_spec() == old(self).next_id_spec(),
            !final(self).has_id(id),
            match r {
                Ok(()) => old(self).has_id(id) && final(self)@ == old(self)@.remove(
                    old(self).idx_of(id),
                ),
                Err(e) => e == DownloadError::NotFound && !old(self).has_id(id) && final(self)@ == old(self)@,
            },
    {
        let n = self.rows.len();
        let mut i: usize = 0;
        while i < n
            invariant
                self.wf(),
                self@ == old(self)@,
                self.next_id_spec() == old(self).next_id_spec(),
                n == self@.len(),
                0 <= i <= n,
                forall|j: int| 0 <= j < i ==> (#[trigger] self@[j]).id != id,
            decreases n - i,
        {
            if self.rows[i].id == id {
                proof {
                    self.lemma_id_determines_index(self.idx_of(id), i as int);
                }
                self.rows.remove(i);
                proof {
                    assert forall|k: int| 0 <= k < self@.len() implies (#[trigger] self@[k]).id
                        != id by {
                        if k < i {
                            assert(self@[k] == old(self)@[k]);
                        } else {
                            assert(self@[k] == old(self)@[k + 1]);
                        }
                    }
                }
                return Ok(());
            }
            i = i + 1;
        }
        Err(DownloadError::NotFound)
    }

    /// The rows whose status makes them subject to fetching or recovery:
    /// downloading or paused, in table order.
    pub fn list_active(&self) -> (r: Vec<Download>)
        requires
            self.wf(),
        ensures
            r@ == self@.filter(|d: Download| d.status.is_active()),
    {
        let ghost pred = |d: Download| d.status.is_active();
        let n = self.rows.len();
        let mut out: Vec<Download> = Vec::new();
        let mut i: usize = 0;
        while i < n
            invariant
                n == self@.len(),
                0 <= i <= n,
                pred == (|d: Download| d.status.is_active()),
                out@ == self@.take(i as int).filter(pred),
            decreases n - i,
        {
            proof {
                assert(self@.take(i + 1) =~= self@.take(i as int).push(self@[i as int]));
                lemma_filter_push(self@.take(i as int), self@[i as int], pred);
            }
            let active = match self.rows[i].status {
                DownloadStatus::Downloading => true,
                DownloadStatus::Paused => true,
                _ => false,
            };
            if active {
                out.push(self.rows[i].clone());
            }
            i = i + 1;
        }
        proof {
            assert(self@.take(n as int) =~= self@);
        }
        out
    }

    /// The completed rows, in table order.
    pub fn list_completed(&self) -> (r: Vec<Download>)
        requires
            self.wf(),
        ensures
            r@ == self@.filter(|d: Download| d.status == DownloadStatus::Completed),
    {
        let ghost pred = |d: Download| d.status == DownloadStatus::Completed;
        let n = self.rows.len();
        let mut out: Vec<Download> = Vec::new();
        let mut i: usize = 0;
        while i < n
            invariant
                n == self@.len(),
                0 <= i <= n,
                pred == (|d: Download| d.status == DownloadStatus::Completed),
                out@ == self@.take(i as int).filter(pred),
            decreases n - i,
        {
            proof {
                assert(self@.take(i + 1) =~= self@.take(i as int).push(self@[i as int]));
                lemma_filter_push(self@.take(i as int), self@[i as int], pred);
            }
            let completed = match self.rows[i].status {
                DownloadStatus::Completed => true,
                _ => false,
            };
            if completed {
                out.push(self.rows[i].clone());
            }
            i = i + 1;
        }
        proof {
            assert(self@.take(n as int) =~= self@);
        }
        out
    }

    /// The rows whose file name contains `text`, in table order.
    pub fn search(&self, text: &str) -> (r: Vec<Download>)
        requires
            self.wf(),
        ensures
            r@ == self@.filter(|d: Download| contains_seq(d.file_name@, text@)),
    {
        let ghost pred = |d: Download| contains_seq(d.file_name@, text@);
        let n = self.rows.len();
        let mut out: Vec<Download> = Vec::new();
        let mut i: usize = 0;
        while i < n
            invariant
                n == self@.len(),
                0 <= i <= n,
                pred == (|d: Download| contains_seq(d.file_name@, text@)),
                out@ == self@.take(i as int).filter(pred),
            decreases n - i,
        {
            proof {
                assert(self@.take(i + 1) =~= self@.take(i as int).push(self@[i as int]));
                lemma_filter_push(self@.take(i as int), self@[i as int], pred);
            }
            if contains_str(self.rows[i].file_name.as_str(), text) {
                out.push(self.rows[i].clone());
            }
            i = i + 1;
        }
        proof {
            assert(self@.take(n as int) =~= self@);
        }
        out
    }

    /// Number of rows.
    pub fn len(&self) -> (n: usize)
        ensures
            n == self@.len(),
    {
        self.rows.len()
    }

    /// The row at table position `i`.
    pub fn row_at(&self, i: usize) -> (r: Download)
        requires
            i < self@.len(),
        ensures
            r == self@[i as int],
    {
        self.rows[i].clone()
    }
}

/// Filtering a sequence extended by one element keeps the filtered prefix
/// and appends the element exactly when it matches.
pub proof fn lemma_filter_push<A>(s: Seq<A>, x: A, pred: spec_fn(A) -> bool)
    ensures
        s.push(x).filter(pred) == if pred(x) {
            s.filter(pred).push(x)
        } else {
            s.filter(pred)
        },
{
    reveal(Seq::filter);
    assert(s.push(x).drop_last() =~= s);
    assert(s.push(x).last() == x);
}

} // verus!
