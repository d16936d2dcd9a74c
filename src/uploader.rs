use vstd::prelude::*;

use crate::imm::{imm_views, sst_views, FlushedSst, ImmModel, ImmutableMemtable, KeyedRow, SstModel};
use crate::read_version::contains_id;
use crate::seq_lemmas::{lemma_filter_all, lemma_filter_filter, lemma_filter_push};
use crate::sstable::{copy_vec, SstRow, SstableInfo};

verus! {

/// Why a sync request failed.
#[derive(Clone, Copy, Debug, PartialEq, Eq, Structural)]
pub enum HummockError {
    /// The epoch is not sealed yet, or a sync up to it was already asked for.
    InvalidSyncEpoch { epoch: u64 },
    /// Flushing data of `epoch`, at or below the synced epoch, failed.
    FlushFailed { epoch: u64 },
    /// A clear cancelled the sync.
    Cancelled,
}

/// What a successful sync returns: the files written for the epochs it
/// covers, and their total size.
pub struct SyncResult {
    pub epoch: u64,
    pub sync_size: u64,
    pub uncommitted_ssts: Vec<SstableInfo>,
}

/// A flush for the outside to write: the rows of one table at one epoch.
pub struct UploadTaskInput {
    pub task_id: u64,
    pub table_id: u32,
    pub epoch: u64,
    pub size: u64,
    pub rows: Vec<SstRow>,
}

/// A flush in flight.
pub struct UploadingTask {
    pub task_id: u64,
    pub table_id: u32,
    pub epoch: u64,
    pub size: u64,
    pub imm_ids: Vec<u64>,
    pub rows: Vec<SstRow>,
}

/// A finished sync request.
pub struct SyncCompletion {
    pub request_id: u64,
    pub epoch: u64,
    pub result: Result<SyncResult, HummockError>,
}

/// Identity, table, epoch, size, memtables and rows of a flush.
pub type TaskModel = (u64, u32, u64, u64, Seq<u64>, Seq<SstRow>);

impl View for UploadingTask {
    type V = TaskModel;

    open spec fn view(&self) -> TaskModel {
        (self.task_id, self.table_id, self.epoch, self.size, self.imm_ids@, self.rows@)
    }
}

pub open spec fn task_views(s: Seq<UploadingTask>) -> Seq<TaskModel> {
    s.map_values(|t: UploadingTask| t@)
}

/// Memtable `x` (id, epoch) is in `b`.
pub open spec fn in_buffer(b: Seq<ImmModel>, x: (u64, u64)) -> bool {
    exists|i: int| 0 <= i < b.len() && (#[trigger] b[i]).0 == x.0 && b[i].3 == x.1
}

/// Memtable `x` is in one of the flushes of `up`.
pub open spec fn in_flight(up: Seq<TaskModel>, x: (u64, u64)) -> bool {
    exists|i: int, j: int|
        0 <= i < up.len() && up[i].2 == x.1 && 0 <= j < up[i].4.len() && (#[trigger] up[i].4[j])
            == x.0
}

/// Memtable `x` was written into one of the files of `fs`.
pub open spec fn in_file(fs: Seq<SstModel>, x: (u64, u64)) -> bool {
    exists|i: int, j: int|
        0 <= i < fs.len() && fs[i].0.max_epoch == x.1 && 0 <= j < fs[i].2.len() && (
        #[trigger] fs[i].2[j]) == x.0
}

/// `r` hands out, in order, the flushes of `up` from position `from` on.
pub open spec fn hands_out(r: Seq<UploadTaskInput>, up: Seq<TaskModel>, from: int) -> bool {
    &&& 0 <= from <= up.len()
    &&& r.len() == up.len() - from
    &&& forall|i: int|
        0 <= i < r.len() ==> {
            &&& (#[trigger] r[i]).task_id == up[from + i].0
            &&& r[i].table_id == up[from + i].1
            &&& r[i].epoch == up[from + i].2
            &&& r[i].size == up[from + i].3
            &&& r[i].rows@ == up[from + i].5
        }
}

/// Sum of the estimated sizes of `imms`.
pub open spec fn total_size(imms: Seq<ImmModel>) -> int
    decreases imms.len(),
{
    if imms.len() == 0 {
        0
    } else {
        total_size(imms.drop_last()) + imms.last().4
    }
}

/// Memtables of `table` at `epoch`.
pub open spec fn in_group(m: ImmModel, table: u32, epoch: u64) -> bool {
    m.1 == table && m.3 == epoch
}

/// A memtable row of `table` at `epoch`, as written to a file.
pub open spec fn row_of(table: u32, epoch: u64, r: KeyedRow) -> SstRow {
    SstRow { table_id: table, key: r.key, epoch, value: r.value }
}

/// Identities of `imms`, in order.
pub open spec fn imm_ids_of(imms: Seq<ImmModel>) -> Seq<u64> {
    imms.map_values(|m: ImmModel| m.0)
}

/// The rows of `imms`, as written to a file, in order.
pub open spec fn imm_rows(imms: Seq<ImmModel>) -> Seq<SstRow>
    decreases imms.len(),
{
    if imms.len() == 0 {
        Seq::empty()
    } else {
        imm_rows(imms.drop_last()) + imms.last().5.map_values(
            |r: KeyedRow| row_of(imms.last().1, imms.last().3, r),
        )
    }
}

proof fn lemma_filter_len_lt<A>(s: Seq<A>, p: spec_fn(A) -> bool, k: int)
    requires
        0 <= k < s.len(),
        !p(s[k]),
    ensures
        s.filter(p).len() < s.len(),
    decreases s.len(),
{
    reveal(Seq::filter);
    s.drop_last().lemma_filter_len(p);
    if k < s.len() - 1 {
        lemma_filter_len_lt(s.drop_last(), p, k);
    }
}

/// [`total_size`], saturating at `u64::MAX`.
pub open spec fn saturated_size(imms: Seq<ImmModel>) -> int {
    if total_size(imms) > u64::MAX {
        u64::MAX as int
    } else {
        total_size(imms)
    }
}

pub open spec fn epoch_above(imms: Seq<ImmModel>, bound: u64) -> Seq<ImmModel> {
    imms.filter(|m: ImmModel| m.3 > bound)
}

/// Whether some memtable of `imms` belongs to a sealed epoch.
pub open spec fn has_sealed(imms: Seq<ImmModel>, max_sealed: u64) -> bool {
    exists|i: int| 0 <= i < imms.len() && (#[trigger] imms[i]).3 <= max_sealed
}

/// Infos of the files of `ssts`.
pub open spec fn sst_infos(ssts: Seq<SstModel>) -> Seq<SstableInfo> {
    ssts.map_values(|f: SstModel| f.0)
}

/// Buffers memtables and flushes them, oldest sealed epoch first, into
/// durable files; tracks sync requests until every flush they wait for has
/// settled.
pub struct HummockUploader {
    max_sealed_epoch: u64,
    max_syncing_epoch: u64,
    max_synced_epoch: u64,
    /// Memtables not yet handed to a flush.
    buffered: Vec<ImmutableMemtable>,
    /// Flushes in flight.
    uploading: Vec<UploadingTask>,
    /// Finished flushes not yet returned by a sync.
    uploaded: Vec<FlushedSst>,
    /// Sync requests as (request, epoch), in increasing epoch.
    pending_syncs: Vec<(u64, u64)>,
    /// Lowest epoch whose flush failed since the last clear.
    failed_epoch: Option<u64>,
    next_task_id: u64,
    /// Buffered size above which a flush hint starts flushing.
    flush_threshold: u64,
    /// Memtables received since the last clear, as (id, epoch).
    received: Ghost<Seq<(u64, u64)>>,
    /// Memtables, as (id, epoch), whose files a successful sync returned.
    synced: Ghost<Set<(u64, u64)>>,
}

impl HummockUploader {
    pub closed spec fn max_sealed_epoch_spec(&self) -> u64 {
        self.max_sealed_epoch
    }

    pub closed spec fn max_syncing_epoch_spec(&self) -> u64 {
        self.max_syncing_epoch
    }

    pub closed spec fn max_synced_epoch_spec(&self) -> u64 {
        self.max_synced_epoch
    }

    pub closed spec fn buffered_spec(&self) -> Seq<ImmModel> {
        imm_views(self.buffered@)
    }

    pub closed spec fn uploading_spec(&self) -> Seq<TaskModel> {
        task_views(self.uploading@)
    }

    pub closed spec fn uploaded_spec(&self) -> Seq<SstModel> {
        sst_views(self.uploaded@)
    }

    pub closed spec fn pending_syncs_spec(&self) -> Seq<(u64, u64)> {
        self.pending_syncs@
    }

    pub closed spec fn failed_epoch_spec(&self) -> Option<u64> {
        self.failed_epoch
    }

    pub closed spec fn flush_threshold_spec(&self) -> u64 {
        self.flush_threshold
    }

    /// Memtables received since the last clear, as (id, epoch).
    pub closed spec fn received_spec(&self) -> Seq<(u64, u64)> {
        self.received@
    }

    /// Memtables, as (id, epoch), whose files a successful sync returned.
    pub closed spec fn synced_spec(&self) -> Set<(u64, u64)> {
        self.synced@
    }

    /// Where memtable `x` is: still buffered, in a flush in flight, in a
    /// finished file, returned by a successful sync, or lost to a failed
    /// flush at or below its epoch.
    pub open spec fn accounted(&self, x: (u64, u64)) -> bool {
        ||| in_buffer(self.buffered_spec(), x)
        ||| in_flight(self.uploading_spec(), x)
        ||| in_file(self.uploaded_spec(), x)
        ||| self.synced_spec().contains(x)
        ||| (self.failed_epoch_spec() matches Some(f) && f <= x.1)
    }

    /// No received memtable goes missing.
    pub open spec fn conserved(&self) -> bool {
        forall|k: int|
            0 <= k < self.received_spec().len() ==> self.accounted(
                #[trigger] self.received_spec()[k],
            )
    }

    /// No memtable and no flush in flight holds data of an epoch up to
    /// `epoch`.
    pub open spec fn flushed_up_to(&self, epoch: u64) -> bool {
        &&& forall|i: int|
            0 <= i < self.buffered_spec().len() ==> (#[trigger] self.buffered_spec()[i]).3 > epoch
        &&& forall|i: int|
            0 <= i < self.uploading_spec().len() ==> (#[trigger] self.uploading_spec()[i]).2
                > epoch
    }

    pub open spec fn wf(&self) -> bool {
        &&& self.max_synced_epoch_spec() <= self.max_syncing_epoch_spec()
        &&& self.max_syncing_epoch_spec() <= self.max_sealed_epoch_spec()
        &&& forall|i: int|
            0 <= i < self.buffered_spec().len() ==> (#[trigger] self.buffered_spec()[i]).3
                > self.max_syncing_epoch_spec()
        &&& forall|i: int|
            0 <= i < self.uploading_spec().len() ==> (#[trigger] self.uploading_spec()[i]).2
                > self.max_synced_epoch_spec()
        &&& forall|i: int|
            0 <= i < self.uploaded_spec().len() ==> (#[trigger] self.uploaded_spec()[i]).0.max_epoch
                > self.max_synced_epoch_spec()
        &&& forall|i: int|
            0 <= i < self.pending_syncs_spec().len() ==> {
                &&& self.max_synced_epoch_spec() < (#[trigger] self.pending_syncs_spec()[i]).1
                &&& self.pending_syncs_spec()[i].1 <= self.max_syncing_epoch_spec()
            }
        &&& forall|i: int, j: int|
            0 <= i < j < self.pending_syncs_spec().len() ==> (#[trigger] self.pending_syncs_spec()[i]).1
                < (#[trigger] self.pending_syncs_spec()[j]).1
    }

    pub fn new(flush_threshold: u64, init_epoch: u64) -> (r: Self)
        ensures
            r.wf(),
            r.max_sealed_epoch_spec() == init_epoch,
            r.max_syncing_epoch_spec() == init_epoch,
            r.max_synced_epoch_spec() == init_epoch,
            r.buffered_spec().len() == 0,
            r.uploading_spec().len() == 0,
            r.uploaded_spec().len() == 0,
            r.pending_syncs_spec().len() == 0,
            r.failed_epoch_spec() is None,
            r.flush_threshold_spec() == flush_threshold,
            r.conserved(),
            r.received_spec().len() == 0,
    {
        HummockUploader {
            max_sealed_epoch: init_epoch,
            max_syncing_epoch: init_epoch,
            max_synced_epoch: init_epoch,
            buffered: Vec::new(),
            uploading: Vec::new(),
            uploaded: Vec::new(),
            pending_syncs: Vec::new(),
            failed_epoch: None,
            next_task_id: 0,
            flush_threshold,
            received: Ghost(Seq::empty()),
            synced: Ghost(Set::empty()),
        }
    }

    pub fn max_sealed_epoch(&self) -> (r: u64)
        ensures
            r == self.max_sealed_epoch_spec(),
    {
        self.max_sealed_epoch
    }

    pub fn max_syncing_epoch(&self) -> (r: u64)
        ensures
            r == self.max_syncing_epoch_spec(),
    {
        self.max_syncing_epoch
    }

    pub fn max_synced_epoch(&self) -> (r: u64)
        ensures
            r == self.max_synced_epoch_spec(),
    {
        self.max_synced_epoch
    }

    pub fn buffered_count(&self) -> (r: usize)
        ensures
            r == self.buffered_spec().len(),
    {
        self.buffered.len()
    }

    pub fn uploading_count(&self) -> (r: usize)
        ensures
            r == self.uploading_spec().len(),
    {
        self.uploading.len()
    }
}

} // verus!

verus! {

impl HummockUploader {
    /// Buffers a memtable of an epoch that is not sealed yet.
    pub fn add_imm(&mut self, imm: ImmutableMemtable)
        requires
            old(self).wf(),
            old(self).conserved(),
            imm.epoch > old(self).max_sealed_epoch_spec(),
        ensures
            final(self).wf(),
            final(self).conserved(),
            final(self).received_spec() == old(self).received_spec().push((imm.imm_id, imm.epoch)),
            final(self).synced_spec() == old(self).synced_spec(),
            final(self).buffered_spec() == old(self).buffered_spec().push(imm@),
            final(self).uploading_spec() == old(self).uploading_spec(),
            final(self).uploaded_spec() == old(self).uploaded_spec(),
            final(self).pending_syncs_spec() == old(self).pending_syncs_spec(),
            final(self).failed_epoch_spec() == old(self).failed_epoch_spec(),
            final(self).max_sealed_epoch_spec() == old(self).max_sealed_epoch_spec(),
            final(self).max_syncing_epoch_spec() == old(self).max_syncing_epoch_spec(),
            final(self).max_synced_epoch_spec() == old(self).max_synced_epoch_spec(),
            final(self).flush_threshold_spec() == old(self).flush_threshold_spec(),
    {
        let ghost x = (imm.imm_id, imm.epoch);
        self.buffered.push(imm);
        self.received = Ghost(self.received@.push(x));
        assert(self.buffered_spec() =~= old(self).buffered_spec().push(imm@));
        assert(self.uploading_spec() == old(self).uploading_spec());
        assert(self.uploaded_spec() == old(self).uploaded_spec());
        assert(self.pending_syncs_spec() == old(self).pending_syncs_spec());
        proof {
            let n = old(self).buffered_spec().len() as int;
            assert(self.buffered_spec()[n] == imm@);
            assert forall|k: int| 0 <= k < self.received_spec().len() implies self.accounted(
                #[trigger] self.received_spec()[k],
            ) by {
                if k < old(self).received_spec().len() {
                    let y = old(self).received_spec()[k];
                    assert(self.received_spec()[k] == y);
                    assert(old(self).accounted(y));
                    if in_buffer(old(self).buffered_spec(), y) {
                        let i = choose|i: int|
                            0 <= i < old(self).buffered_spec().len() && (
                            #[trigger] old(self).buffered_spec()[i]).0 == y.0
                                && old(self).buffered_spec()[i].3 == y.1;
                        assert(self.buffered_spec()[i] == old(self).buffered_spec()[i]);
                    }
                } else {
                    assert(self.received_spec()[k] == x);
                }
            }
        }
    }

    /// Seals every epoch up to `epoch`; a lower epoch changes nothing.
    pub fn seal_epoch(&mut self, epoch: u64)
        requires
            old(self).wf(),
            old(self).conserved(),
        ensures
            final(self).wf(),
            final(self).conserved(),
            final(self).received_spec() == old(self).received_spec(),
            final(self).synced_spec() == old(self).synced_spec(),
            final(self).max_sealed_epoch_spec() == if epoch > old(self).max_sealed_epoch_spec() {
                epoch
            } else {
                old(self).max_sealed_epoch_spec()
            },
            final(self).buffered_spec() == old(self).buffered_spec(),
            final(self).uploading_spec() == old(self).uploading_spec(),
            final(self).uploaded_spec() == old(self).uploaded_spec(),
            final(self).pending_syncs_spec() == old(self).pending_syncs_spec(),
            final(self).failed_epoch_spec() == old(self).failed_epoch_spec(),
            final(self).max_syncing_epoch_spec() == old(self).max_syncing_epoch_spec(),
            final(self).max_synced_epoch_spec() == old(self).max_synced_epoch_spec(),
            final(self).flush_threshold_spec() == old(self).flush_threshold_spec(),
    {
        if epoch > self.max_sealed_epoch {
            self.max_sealed_epoch = epoch;
        }
        assert(self.buffered_spec() == old(self).buffered_spec());
        assert(self.uploading_spec() == old(self).uploading_spec());
        assert(self.uploaded_spec() == old(self).uploaded_spec());
        assert(self.pending_syncs_spec() == old(self).pending_syncs_spec());
        assert(self.received_spec() == old(self).received_spec());
        assert(self.synced_spec() == old(self).synced_spec());
    }

    /// Moves the buffered memtables of `table` at `epoch` into one new
    /// flush, and returns what the outside is to write for it.
    fn take_group(&mut self, table: u32, epoch: u64) -> (r: UploadTaskInput)
        requires
            old(self).wf(),
            old(self).conserved(),
            epoch > old(self).max_syncing_epoch_spec(),
        ensures
            final(self).wf(),
            final(self).conserved(),
            final(self).received_spec() == old(self).received_spec(),
            final(self).synced_spec() == old(self).synced_spec(),
            final(self).buffered_spec() == old(self).buffered_spec().filter(
                |m: ImmModel| !in_group(m, table, epoch),
            ),
            final(self).uploading_spec().len() == old(self).uploading_spec().len() + 1,
            final(self).uploading_spec().drop_last() == old(self).uploading_spec(),
            final(self).uploading_spec().last().0 == r.task_id,
            final(self).uploading_spec().last().1 == table,
            final(self).uploading_spec().last().2 == epoch,
            final(self).uploading_spec().last().5 == r.rows@,
            final(self).uploading_spec().last().3 == r.size,
            final(self).uploading_spec().last().4 == imm_ids_of(
                old(self).buffered_spec().filter(|m: ImmModel| in_group(m, table, epoch)),
            ),
            r.rows@ == imm_rows(
                old(self).buffered_spec().filter(|m: ImmModel| in_group(m, table, epoch)),
            ),
            r.size == saturated_size(
                old(self).buffered_spec().filter(|m: ImmModel| in_group(m, table, epoch)),
            ),
            r.table_id == table,
            r.epoch == epoch,
            final(self).uploaded_spec() == old(self).uploaded_spec(),
            final(self).pending_syncs_spec() == old(self).pending_syncs_spec(),
            final(self).failed_epoch_spec() == old(self).failed_epoch_spec(),
            final(self).max_sealed_epoch_spec() == old(self).max_sealed_epoch_spec(),
            final(self).max_syncing_epoch_spec() == old(self).max_syncing_epoch_spec(),
            final(self).max_synced_epoch_spec() == old(self).max_synced_epoch_spec(),
            final(self).flush_threshold_spec() == old(self).flush_threshold_spec(),
    {
        let ghost keep = |m: ImmModel| !in_group(m, table, epoch);
        let ghost take = |m: ImmModel| in_group(m, table, epoch);
        let mut rest: Vec<ImmutableMemtable> = Vec::new();
        let mut imm_ids: Vec<u64> = Vec::new();
        let mut rows: Vec<SstRow> = Vec::new();
        let mut size: u64 = 0;
        let mut i: usize = 0;
        while i < self.buffered.len()
            invariant
                i <= self.buffered@.len(),
                keep == (|m: ImmModel| !in_group(m, table, epoch)),
                take == (|m: ImmModel| in_group(m, table, epoch)),
                imm_views(rest@) == imm_views(self.buffered@.subrange(0, i as int)).filter(keep),
                imm_ids@ == imm_ids_of(imm_views(self.buffered@.subrange(0, i as int)).filter(take)),
                rows@ == imm_rows(imm_views(self.buffered@.subrange(0, i as int)).filter(take)),
                size == saturated_size(
                    imm_views(self.buffered@.subrange(0, i as int)).filter(take),
                ),
            decreases self.buffered@.len() - i,
        {
            let imm = &self.buffered[i];
            let ghost prev = imm_views(rest@);
            let ghost group = imm_views(self.buffered@.subrange(0, i as int)).filter(take);
            let ghost s = imm_views(self.buffered@.subrange(0, i + 1));
            proof {
                assert(s.drop_last() =~= imm_views(self.buffered@.subrange(0, i as int)));
                assert(s =~= s.drop_last().push(self.buffered@[i as int]@));
                lemma_filter_push(s.drop_last(), self.buffered@[i as int]@, keep);
                lemma_filter_push(s.drop_last(), self.buffered@[i as int]@, take);
                lemma_total_size_nonneg(group);
            }
            if imm.table_id == table && imm.epoch == epoch {
                let ghost g2 = group.push(imm@);
                let ghost base = rows@;
                imm_ids.push(imm.imm_id);
                size = size.saturating_add(imm.size);
                let mut j: usize = 0;
                while j < imm.rows.len()
                    invariant
                        j <= imm.rows@.len(),
                        imm.table_id == table,
                        imm.epoch == epoch,
                        rows@ == base + imm.rows@.subrange(0, j as int).map_values(
                            |r: KeyedRow| row_of(table, epoch, r),
                        ),
                    decreases imm.rows@.len() - j,
                {
                    let row = imm.rows[j];
                    rows.push(SstRow { table_id: table, key: row.key, epoch, value: row.value });
                    j = j + 1;
                    assert(rows@ =~= base + imm.rows@.subrange(0, j as int).map_values(
                        |r: KeyedRow| row_of(table, epoch, r),
                    ));
                }
                proof {
                    assert(imm.rows@.subrange(0, imm.rows@.len() as int) =~= imm.rows@);
                    assert(g2.drop_last() =~= group);
                    assert(rows@ =~= imm_rows(g2));
                    assert(imm_ids@ =~= imm_ids_of(g2));
                }
            } else {
                rest.push(imm.duplicate());
                proof {
                    assert(imm_views(rest@) =~= prev.push(self.buffered@[i as int]@));
                }
            }
            i = i + 1;
        }
        assert(self.buffered@.subrange(0, self.buffered@.len() as int) =~= self.buffered@);
        proof {
            let b = imm_views(rest@);
            assert forall|k: int| 0 <= k < b.len() implies (#[trigger] b[k]).3
                > self.max_syncing_epoch by {
                old(self).buffered_spec().lemma_filter_pred(keep, k);
                lemma_filter_elements_from(old(self).buffered_spec(), keep, k);
            }
        }
        self.buffered = rest;
        let task_id = self.next_task_id;
        self.next_task_id = self.next_task_id.wrapping_add(1);
        let task_rows = copy_vec(&rows);
        self.uploading.push(
            UploadingTask { task_id, table_id: table, epoch, size, imm_ids, rows: task_rows },
        );
        assert(self.uploading_spec().drop_last() =~= old(self).uploading_spec());
        assert(self.uploaded_spec() == old(self).uploaded_spec());
        assert(self.pending_syncs_spec() == old(self).pending_syncs_spec());
        proof {
            assert forall|k: int| 0 <= k < self.uploading_spec().len() implies (
            #[trigger] self.uploading_spec()[k]).2 > self.max_synced_epoch by {
                if k < old(self).uploading_spec().len() {
                    assert(self.uploading_spec()[k] == old(self).uploading_spec()[k]);
                }
            }
            assert(self.received_spec() == old(self).received_spec());
            assert(self.synced_spec() == old(self).synced_spec());
            let ob = old(self).buffered_spec();
            let take = |m: ImmModel| in_group(m, table, epoch);
            let n = old(self).uploading_spec().len() as int;
            assert(self.uploading_spec()[n].4 == imm_ids_of(ob.filter(take)));
            assert(self.uploading_spec()[n].2 == epoch);
            assert forall|k: int| 0 <= k < self.received_spec().len() implies self.accounted(
                #[trigger] self.received_spec()[k],
            ) by {
                let y = self.received_spec()[k];
                assert(old(self).received_spec()[k] == y);
                assert(old(self).accounted(y));
                if in_buffer(ob, y) {
                    let i = choose|i: int| 0 <= i < ob.len() && (#[trigger] ob[i]).0 == y.0 && ob[i].3 == y.1;
                    if take(ob[i]) {
                        ob.lemma_filter_contains(take, i);
                        let f = ob.filter(take);
                        let i2 = choose|i2: int| 0 <= i2 < f.len() && f[i2] == ob[i];
                        assert(imm_ids_of(f)[i2] == y.0);
                        assert(self.uploading_spec()[n].4[i2] == y.0);
                        assert(in_flight(self.uploading_spec(), y));
                    } else {
                        ob.lemma_filter_contains(keep, i);
                        let f = ob.filter(keep);
                        let i2 = choose|i2: int| 0 <= i2 < f.len() && f[i2] == ob[i];
                        assert(self.buffered_spec()[i2] == ob[i]);
                        assert(in_buffer(self.buffered_spec(), y));
                    }
                } else if in_flight(old(self).uploading_spec(), y) {
                    let (i, j) = choose|i: int, j: int|
                        0 <= i < old(self).uploading_spec().len() && old(self).uploading_spec()[i].2
                            == y.1 && 0 <= j < old(self).uploading_spec()[i].4.len() && (
                        #[trigger] old(self).uploading_spec()[i].4[j]) == y.0;
                    assert(self.uploading_spec()[i] == old(self).uploading_spec()[i]);
                    assert(self.uploading_spec()[i].4[j] == y.0);
                }
            }
        }
        UploadTaskInput { task_id, table_id: table, epoch, size, rows }
    }

    /// Position of the first buffered memtable of an epoch up to `bound`.
    fn first_at_or_below(&self, bound: u64) -> (r: Option<usize>)
        ensures
            match r {
                Some(k) => k < self.buffered_spec().len() && self.buffered_spec()[k as int].3
                    <= bound,
                None => forall|i: int|
                    0 <= i < self.buffered_spec().len() ==> (#[trigger] self.buffered_spec()[i]).3
                        > bound,
            },
    {
        let mut i: usize = 0;
        while i < self.buffered.len()
            invariant
                i <= self.buffered@.len(),
                forall|j: int| 0 <= j < i ==> (#[trigger] self.buffered@[j]).epoch > bound,
            decreases self.buffered@.len() - i,
        {
            if self.buffered[i].epoch <= bound {
                return Some(i);
            }
            i = i + 1;
        }
        None
    }

    /// Hands every buffered memtable of an epoch up to `bound` to new
    /// flushes, one per table and epoch.
    fn flush_up_to(&mut self, bound: u64) -> (r: Vec<UploadTaskInput>)
        requires
            old(self).wf(),
            old(self).conserved(),
        ensures
            final(self).wf(),
            final(self).conserved(),
            final(self).received_spec() == old(self).received_spec(),
            final(self).synced_spec() == old(self).synced_spec(),
            final(self).buffered_spec() == epoch_above(old(self).buffered_spec(), bound),
            final(self).uploading_spec().len() >= old(self).uploading_spec().len(),
            final(self).uploading_spec().subrange(0, old(self).uploading_spec().len() as int)
                == old(self).uploading_spec(),
            forall|i: int|
                old(self).uploading_spec().len() <= i < final(self).uploading_spec().len()
                    ==> (#[trigger] final(self).uploading_spec()[i]).2 <= bound,
            hands_out(r@, final(self).uploading_spec(), old(self).uploading_spec().len() as int),
            final(self).uploaded_spec() == old(self).uploaded_spec(),
            final(self).pending_syncs_spec() == old(self).pending_syncs_spec(),
            final(self).failed_epoch_spec() == old(self).failed_epoch_spec(),
            final(self).max_sealed_epoch_spec() == old(self).max_sealed_epoch_spec(),
            final(self).max_syncing_epoch_spec() == old(self).max_syncing_epoch_spec(),
            final(self).max_synced_epoch_spec() == old(self).max_synced_epoch_spec(),
            final(self).flush_threshold_spec() == old(self).flush_threshold_spec(),
    {
        let mut out: Vec<UploadTaskInput> = Vec::new();
        let ghost above = |m: ImmModel| m.3 > bound;
        loop
            invariant
                self.wf(),
                above == (|m: ImmModel| m.3 > bound),
                self.buffered_spec().filter(above) == old(self).buffered_spec().filter(above),
                self.uploading_spec().len() >= old(self).uploading_spec().len(),
                self.uploading_spec().subrange(0, old(self).uploading_spec().len() as int)
                    == old(self).uploading_spec(),
                forall|i: int|
                    old(self).uploading_spec().len() <= i < self.uploading_spec().len()
                        ==> (#[trigger] self.uploading_spec()[i]).2 <= bound,
                hands_out(out@, self.uploading_spec(), old(self).uploading_spec().len() as int),
                self.conserved(),
                self.received_spec() == old(self).received_spec(),
                self.synced_spec() == old(self).synced_spec(),
                self.uploaded_spec() == old(self).uploaded_spec(),
                self.pending_syncs_spec() == old(self).pending_syncs_spec(),
                self.failed_epoch_spec() == old(self).failed_epoch_spec(),
                self.max_sealed_epoch_spec() == old(self).max_sealed_epoch_spec(),
                self.max_syncing_epoch_spec() == old(self).max_syncing_epoch_spec(),
                self.max_synced_epoch_spec() == old(self).max_synced_epoch_spec(),
                self.flush_threshold_spec() == old(self).flush_threshold_spec(),
            ensures
                self.wf(),
                self.conserved(),
                self.received_spec() == old(self).received_spec(),
                self.synced_spec() == old(self).synced_spec(),
                hands_out(out@, self.uploading_spec(), old(self).uploading_spec().len() as int),
                self.buffered_spec() == epoch_above(old(self).buffered_spec(), bound),
                self.uploading_spec().len() >= old(self).uploading_spec().len(),
                self.uploading_spec().subrange(0, old(self).uploading_spec().len() as int)
                    == old(self).uploading_spec(),
                forall|i: int|
                    old(self).uploading_spec().len() <= i < self.uploading_spec().len()
                        ==> (#[trigger] self.uploading_spec()[i]).2 <= bound,
                self.uploaded_spec() == old(self).uploaded_spec(),
                self.pending_syncs_spec() == old(self).pending_syncs_spec(),
                self.failed_epoch_spec() == old(self).failed_epoch_spec(),
                self.max_sealed_epoch_spec() == old(self).max_sealed_epoch_spec(),
                self.max_syncing_epoch_spec() == old(self).max_syncing_epoch_spec(),
                self.max_synced_epoch_spec() == old(self).max_synced_epoch_spec(),
                self.flush_threshold_spec() == old(self).flush_threshold_spec(),
            decreases self.buffered_spec().len(),
        {
            match self.first_at_or_below(bound) {
                None => {
                    proof {
                        lemma_filter_all(self.buffered_spec(), above);
                    }
                    break;
                },
                Some(k) => {
                    let table = self.buffered[k].table_id;
                    let epoch = self.buffered[k].epoch;
                    let ghost before = self.buffered_spec();
                    let ghost prev_up = self.uploading_spec();
                    assert(before[k as int] == self.buffered@[k as int]@);
                    let ghost prev_out = out@;
                    let task = self.take_group(table, epoch);
                    out.push(task);
                    proof {
                        let n0 = old(self).uploading_spec().len() as int;
                        let up = self.uploading_spec();
                        assert forall|i: int| 0 <= i < out@.len() implies {
                            &&& (#[trigger] out@[i]).task_id == up[n0 + i].0
                            &&& out@[i].table_id == up[n0 + i].1
                            &&& out@[i].epoch == up[n0 + i].2
                            &&& out@[i].size == up[n0 + i].3
                            &&& out@[i].rows@ == up[n0 + i].5
                        } by {
                            if i < prev_out.len() {
                                assert(out@[i] == prev_out[i]);
                                assert(up[n0 + i] == prev_up[n0 + i]);
                            }
                        }
                        let keep = |m: ImmModel| !in_group(m, table, epoch);
                        assert forall|x: ImmModel| #[trigger] above(x) implies keep(x) by {}
                        lemma_filter_filter(before, keep, above);
                        lemma_filter_len_lt(before, keep, k as int);
                        assert(self.uploading_spec().subrange(
                            0,
                            old(self).uploading_spec().len() as int,
                        ) =~= prev_up.subrange(0, old(self).uploading_spec().len() as int));
                        assert forall|i: int|
                            old(self).uploading_spec().len() <= i < self.uploading_spec().len()
                                implies (#[trigger] self.uploading_spec()[i]).2 <= bound by {
                            if i < prev_up.len() {
                                assert(self.uploading_spec()[i] == self.uploading_spec().drop_last()[i]);
                            }
                        }
                    }
                },
            }
        }
        out
    }

    /// Starts syncing every epoch up to `epoch`: flushes what is still
    /// buffered there and records the request. Fails when `epoch` is not
    /// sealed yet or a sync up to it was already asked for.
    pub fn start_sync(&mut self, epoch: u64, request_id: u64) -> (r: Result<
        Vec<UploadTaskInput>,
        HummockError,
    >)
        requires
            old(self).wf(),
            old(self).conserved(),
        ensures
            final(self).wf(),
            final(self).conserved(),
            final(self).received_spec() == old(self).received_spec(),
            final(self).synced_spec() == old(self).synced_spec(),
            r is Ok <==> (old(self).max_syncing_epoch_spec() < epoch && epoch
                <= old(self).max_sealed_epoch_spec()),
            r is Err ==> r == Err::<Vec<UploadTaskInput>, HummockError>(
                HummockError::InvalidSyncEpoch { epoch },
            ) && *final(self) == *old(self),
            r matches Ok(tasks) ==> hands_out(
                tasks@,
                final(self).uploading_spec(),
                old(self).uploading_spec().len() as int,
            ),
            r is Ok ==> {
                &&& final(self).buffered_spec() == epoch_above(old(self).buffered_spec(), epoch)
                &&& final(self).max_syncing_epoch_spec() == epoch
                &&& final(self).pending_syncs_spec() == old(self).pending_syncs_spec().push(
                    (request_id, epoch),
                )
                &&& final(self).uploading_spec().subrange(
                    0,
                    old(self).uploading_spec().len() as int,
                ) == old(self).uploading_spec()
                &&& final(self).uploaded_spec() == old(self).uploaded_spec()
                &&& final(self).failed_epoch_spec() == old(self).failed_epoch_spec()
                &&& final(self).max_sealed_epoch_spec() == old(self).max_sealed_epoch_spec()
                &&& final(self).max_synced_epoch_spec() == old(self).max_synced_epoch_spec()
            },
            final(self).flush_threshold_spec() == old(self).flush_threshold_spec(),
    {
        if epoch <= self.max_syncing_epoch || epoch > self.max_sealed_epoch {
            return Err(HummockError::InvalidSyncEpoch { epoch });
        }
        let tasks = self.flush_up_to(epoch);
        let ghost b = self.buffered_spec();
        proof {
            epoch_above_elements(old(self).buffered_spec(), epoch);
        }
        self.max_syncing_epoch = epoch;
        self.pending_syncs.push((request_id, epoch));
        assert(self.buffered_spec() == b);
        assert(self.received_spec() == old(self).received_spec());
        assert(self.synced_spec() == old(self).synced_spec());
        proof {
            let p = self.pending_syncs_spec();
            assert forall|i: int, j: int| 0 <= i < j < p.len() implies (#[trigger] p[i]).1 < (
            #[trigger] p[j]).1 by {
                if j == p.len() - 1 {
                    assert(p[i] == old(self).pending_syncs_spec()[i]);
                } else {
                    assert(p[i] == old(self).pending_syncs_spec()[i]);
                    assert(p[j] == old(self).pending_syncs_spec()[j]);
                }
            }
            assert forall|i: int| 0 <= i < p.len() implies self.max_synced_epoch < (
            #[trigger] p[i]).1 && p[i].1 <= epoch by {
                if i < p.len() - 1 {
                    assert(p[i] == old(self).pending_syncs_spec()[i]);
                }
            }
        }
        Ok(tasks)
    }

    /// Sum of the buffered sizes, saturating at `u64::MAX`.
    fn buffered_size(&self) -> (r: u64)
        ensures
            r == saturated_size(self.buffered_spec()),
    {
        let mut sum: u64 = 0;
        let mut i: usize = 0;
        while i < self.buffered.len()
            invariant
                i <= self.buffered@.len(),
                sum == if total_size(imm_views(self.buffered@.subrange(0, i as int))) > u64::MAX {
                    u64::MAX as int
                } else {
                    total_size(imm_views(self.buffered@.subrange(0, i as int)))
                },
            decreases self.buffered@.len() - i,
        {
            proof {
                let s = imm_views(self.buffered@.subrange(0, i + 1));
                assert(s.drop_last() =~= imm_views(self.buffered@.subrange(0, i as int)));
                assert(s.last() == self.buffered@[i as int]@);
                lemma_total_size_nonneg(s.drop_last());
            }
            sum = sum.saturating_add(self.buffered[i].size);
            i = i + 1;
        }
        assert(self.buffered@.subrange(0, self.buffered@.len() as int) =~= self.buffered@);
        sum
    }

    /// Oldest epoch among the buffered memtables of sealed epochs.
    fn oldest_sealed_epoch(&self) -> (r: Option<u64>)
        ensures
            r is None <==> !has_sealed(self.buffered_spec(), self.max_sealed_epoch_spec()),
            r matches Some(e) ==> {
                &&& e <= self.max_sealed_epoch_spec()
                &&& exists|i: int|
                    0 <= i < self.buffered_spec().len() && (#[trigger] self.buffered_spec()[i]).3
                        == e
                &&& forall|i: int|
                    0 <= i < self.buffered_spec().len() && (#[trigger] self.buffered_spec()[i]).3
                        <= self.max_sealed_epoch_spec() ==> e <= self.buffered_spec()[i].3
            },
    {
        let mut best: Option<u64> = None;
        let mut i: usize = 0;
        while i < self.buffered.len()
            invariant
                i <= self.buffered@.len(),
                best is None <==> forall|j: int|
                    0 <= j < i ==> (#[trigger] self.buffered@[j]).epoch > self.max_sealed_epoch,
                best matches Some(e) ==> {
                    &&& e <= self.max_sealed_epoch
                    &&& exists|j: int| 0 <= j < i && (#[trigger] self.buffered@[j]).epoch == e
                    &&& forall|j: int|
                        0 <= j < i && (#[trigger] self.buffered@[j]).epoch <= self.max_sealed_epoch
                            ==> e <= self.buffered@[j].epoch
                },
            decreases self.buffered@.len() - i,
        {
            let e = self.buffered[i].epoch;
            if e <= self.max_sealed_epoch {
                match best {
                    None => {
                        best = Some(e);
                    },
                    Some(b) => {
                        if e < b {
                            best = Some(e);
                        }
                    },
                }
            }
            i = i + 1;
        }
        proof {
            if best is None {
                assert forall|j: int| 0 <= j < self.buffered_spec().len() implies (
                #[trigger] self.buffered_spec()[j]).3 > self.max_sealed_epoch by {
                    assert(self.buffered_spec()[j] == self.buffered@[j]@);
                }
            } else {
                let e = best.unwrap();
                let j = choose|j: int| 0 <= j < self.buffered@.len() && (
                #[trigger] self.buffered@[j]).epoch == e;
                assert(self.buffered_spec()[j] == self.buffered@[j]@);
                assert forall|k: int|
                    0 <= k < self.buffered_spec().len() && (
                    #[trigger] self.buffered_spec()[k]).3 <= self.max_sealed_epoch implies e
                    <= self.buffered_spec()[k].3 by {
                    assert(self.buffered_spec()[k] == self.buffered@[k]@);
                }
            }
        }
        best
    }

    /// A hint that memory may be short: while the buffered size exceeds
    /// the threshold, flushes the oldest sealed epoch still buffered.
    pub fn may_flush(&mut self) -> (r: Vec<UploadTaskInput>)
        requires
            old(self).wf(),
            old(self).conserved(),
        ensures
            final(self).wf(),
            final(self).conserved(),
            final(self).received_spec() == old(self).received_spec(),
            final(self).synced_spec() == old(self).synced_spec(),
            exists|bound: u64|
                final(self).buffered_spec() == #[trigger] epoch_above(
                    old(self).buffered_spec(),
                    bound,
                ),
            saturated_size(final(self).buffered_spec()) <= final(self).flush_threshold_spec()
                || !has_sealed(final(self).buffered_spec(), final(self).max_sealed_epoch_spec()),
            final(self).uploading_spec().subrange(0, old(self).uploading_spec().len() as int)
                == old(self).uploading_spec(),
            hands_out(r@, final(self).uploading_spec(), old(self).uploading_spec().len() as int),
            final(self).uploaded_spec() == old(self).uploaded_spec(),
            final(self).pending_syncs_spec() == old(self).pending_syncs_spec(),
            final(self).failed_epoch_spec() == old(self).failed_epoch_spec(),
            final(self).max_sealed_epoch_spec() == old(self).max_sealed_epoch_spec(),
            final(self).max_syncing_epoch_spec() == old(self).max_syncing_epoch_spec(),
            final(self).max_synced_epoch_spec() == old(self).max_synced_epoch_spec(),
            final(self).flush_threshold_spec() == old(self).flush_threshold_spec(),
    {
        let mut out: Vec<UploadTaskInput> = Vec::new();
        let ghost mut flushed_bound: u64 = 0;
        proof {
            lemma_epoch_above_everything(old(self).buffered_spec(), old(self).max_syncing_epoch);
            flushed_bound = old(self).max_syncing_epoch;
        }
        loop
            invariant
                self.wf(),
                self.buffered_spec() == epoch_above(old(self).buffered_spec(), flushed_bound),
                self.uploading_spec().len() >= old(self).uploading_spec().len(),
                self.uploading_spec().subrange(0, old(self).uploading_spec().len() as int)
                    == old(self).uploading_spec(),
                hands_out(out@, self.uploading_spec(), old(self).uploading_spec().len() as int),
                self.conserved(),
                self.received_spec() == old(self).received_spec(),
                self.synced_spec() == old(self).synced_spec(),
                self.uploaded_spec() == old(self).uploaded_spec(),
                self.pending_syncs_spec() == old(self).pending_syncs_spec(),
                self.failed_epoch_spec() == old(self).failed_epoch_spec(),
                self.max_sealed_epoch_spec() == old(self).max_sealed_epoch_spec(),
                self.max_syncing_epoch_spec() == old(self).max_syncing_epoch_spec(),
                self.max_synced_epoch_spec() == old(self).max_synced_epoch_spec(),
                self.flush_threshold_spec() == old(self).flush_threshold_spec(),
            ensures
                self.wf(),
                self.conserved(),
                self.received_spec() == old(self).received_spec(),
                self.synced_spec() == old(self).synced_spec(),
                self.buffered_spec() == epoch_above(old(self).buffered_spec(), flushed_bound),
                saturated_size(self.buffered_spec()) <= self.flush_threshold_spec() || !has_sealed(
                    self.buffered_spec(),
                    self.max_sealed_epoch_spec(),
                ),
                self.uploading_spec().subrange(0, old(self).uploading_spec().len() as int)
                    == old(self).uploading_spec(),
                hands_out(out@, self.uploading_spec(), old(self).uploading_spec().len() as int),
                self.uploaded_spec() == old(self).uploaded_spec(),
                self.pending_syncs_spec() == old(self).pending_syncs_spec(),
                self.failed_epoch_spec() == old(self).failed_epoch_spec(),
                self.max_sealed_epoch_spec() == old(self).max_sealed_epoch_spec(),
                self.max_syncing_epoch_spec() == old(self).max_syncing_epoch_spec(),
                self.max_synced_epoch_spec() == old(self).max_synced_epoch_spec(),
                self.flush_threshold_spec() == old(self).flush_threshold_spec(),
            decreases self.buffered_spec().len(),
        {
            let size = self.buffered_size();
            if size <= self.flush_threshold {
                break;
            }
            match self.oldest_sealed_epoch() {
                None => {
                    break;
                },
                Some(e) => {
                    let ghost before = self.buffered_spec();
                    let ghost prev_up = self.uploading_spec();
                    let ghost fb = flushed_bound;
                    proof {
                        let i = choose|i: int|
                            0 <= i < before.len() && (#[trigger] before[i]).3 == e;
                        epoch_above_elements(old(self).buffered_spec(), fb);
                        assert(before[i].3 > fb);
                        lemma_epoch_above_compose(old(self).buffered_spec(), fb, e);
                        lemma_filter_len_lt(before, |m: ImmModel| m.3 > e, i);
                    }
                    let ghost prev_out = out@;
                    let mut tasks = self.flush_up_to(e);
                    let ghost new_tasks = tasks@;
                    out.append(&mut tasks);
                    proof {
                        flushed_bound = e;
                        let n0 = old(self).uploading_spec().len() as int;
                        let m = prev_up.len() as int;
                        let up = self.uploading_spec();
                        assert(out@ =~= prev_out + new_tasks);
                        assert forall|i: int| 0 <= i < out@.len() implies {
                            &&& (#[trigger] out@[i]).task_id == up[n0 + i].0
                            &&& out@[i].table_id == up[n0 + i].1
                            &&& out@[i].epoch == up[n0 + i].2
                            &&& out@[i].size == up[n0 + i].3
                            &&& out@[i].rows@ == up[n0 + i].5
                        } by {
                            if i < prev_out.len() {
                                assert(out@[i] == prev_out[i]);
                                assert(up.subrange(0, m)[n0 + i] == prev_up[n0 + i]);
                            } else {
                                assert(out@[i] == new_tasks[i - prev_out.len()]);
                            }
                        }
                        assert(self.uploading_spec().subrange(
                            0,
                            old(self).uploading_spec().len() as int,
                        ) =~= prev_up.subrange(0, old(self).uploading_spec().len() as int));
                    }
                },
            }
        }
        out
    }
}

/// The file a finished flush `t` wrote as object `object_id`.
pub open spec fn flushed_sst_of(t: TaskModel, object_id: u64) -> SstModel {
    (
        SstableInfo {
            object_id,
            table_id: t.1,
            min_epoch: t.2,
            max_epoch: t.2,
            file_size: t.3,
        },
        t.5,
        t.4,
    )
}

/// Sum of the file sizes of `ssts`.
pub open spec fn total_file_size(ssts: Seq<SstModel>) -> int
    decreases ssts.len(),
{
    if ssts.len() == 0 {
        0
    } else {
        total_file_size(ssts.drop_last()) + ssts.last().0.file_size
    }
}

pub open spec fn synced_part(ssts: Seq<SstModel>, epoch: u64) -> Seq<SstModel> {
    ssts.filter(|f: SstModel| f.0.max_epoch <= epoch)
}

pub open spec fn unsynced_part(ssts: Seq<SstModel>, epoch: u64) -> Seq<SstModel> {
    ssts.filter(|f: SstModel| f.0.max_epoch > epoch)
}

impl HummockUploader {
    /// Records the outcome of flush `task_id`: on success its file joins
    /// the finished ones and is returned; on failure every sync at or above
    /// its epoch will fail until the next clear. An unknown task, one that
    /// a clear cancelled, changes nothing.
    pub fn on_task_finished(&mut self, task_id: u64, result: Result<u64, ()>) -> (r: Option<
        FlushedSst,
    >)
        requires
            old(self).wf(),
            old(self).conserved(),
        ensures
            final(self).wf(),
            final(self).conserved(),
            final(self).received_spec() == old(self).received_spec(),
            final(self).synced_spec() == old(self).synced_spec(),
            (forall|j: int|
                0 <= j < old(self).uploading_spec().len() ==> (
                #[trigger] old(self).uploading_spec()[j]).0 != task_id) ==> r is None
                && final(self).uploading_spec() == old(self).uploading_spec()
                && final(self).uploaded_spec() == old(self).uploaded_spec()
                && final(self).failed_epoch_spec() == old(self).failed_epoch_spec(),
            forall|k: int|
                0 <= k < old(self).uploading_spec().len() && (#[trigger] old(self).uploading_spec()[k]).0 == task_id && (forall|j: int|
                    0 <= j < k ==> (#[trigger] old(self).uploading_spec()[j]).0 != task_id)
                    ==> {
                    let t = old(self).uploading_spec()[k];
                    &&& final(self).uploading_spec() == old(self).uploading_spec().remove(k)
                    &&& match result {
                        Ok(object_id) => {
                            &&& r matches Some(f) && f@ == flushed_sst_of(t, object_id)
                            &&& final(self).uploaded_spec() == old(self).uploaded_spec().push(
                                flushed_sst_of(t, object_id),
                            )
                            &&& final(self).failed_epoch_spec() == old(self).failed_epoch_spec()
                        },
                        Err(_) => {
                            &&& r is None
                            &&& final(self).uploaded_spec() == old(self).uploaded_spec()
                            &&& final(self).failed_epoch_spec() == Some(
                                match old(self).failed_epoch_spec() {
                                    Some(f) => if f < t.2 {
                                        f
                                    } else {
                                        t.2
                                    },
                                    None => t.2,
                                },
                            )
                        },
                    }
                },
            final(self).buffered_spec() == old(self).buffered_spec(),
            final(self).pending_syncs_spec() == old(self).pending_syncs_spec(),
            final(self).max_sealed_epoch_spec() == old(self).max_sealed_epoch_spec(),
            final(self).max_syncing_epoch_spec() == old(self).max_syncing_epoch_spec(),
            final(self).max_synced_epoch_spec() == old(self).max_synced_epoch_spec(),
            final(self).flush_threshold_spec() == old(self).flush_threshold_spec(),
    {
        let found = self.find_task(task_id);
        if found.is_none() {
            assert(self.received_spec() == old(self).received_spec());
            assert(self.synced_spec() == old(self).synced_spec());
            assert(self.buffered_spec() == old(self).buffered_spec());
            assert(self.uploading_spec() == old(self).uploading_spec());
            assert(self.uploaded_spec() == old(self).uploaded_spec());
            return None;
        }
        let k = found.unwrap();
        let ghost up = self.uploading_spec();
        proof {
            assert forall|k2: int|
                0 <= k2 < up.len() && (#[trigger] up[k2]).0 == task_id && (forall|j: int|
                    0 <= j < k2 ==> (#[trigger] up[j]).0 != task_id) implies k2 == k by {
                if k2 > k {
                    assert(up[k as int].0 == task_id);
                }
            }
        }
        let task = self.uploading.remove(k);
        assert(task@ == up[k as int]);
        assert(self.uploading_spec() =~= up.remove(k as int));
        assert(self.buffered_spec() == old(self).buffered_spec());
        assert(self.pending_syncs_spec() == old(self).pending_syncs_spec());
        assert(self.received_spec() == old(self).received_spec());
        assert(self.synced_spec() == old(self).synced_spec());
        proof {
            assert forall|i: int| 0 <= i < self.uploading_spec().len() implies (
            #[trigger] self.uploading_spec()[i]).2 > self.max_synced_epoch by {
                if i < k {
                    assert(self.uploading_spec()[i] == up[i]);
                } else {
                    assert(self.uploading_spec()[i] == up[i + 1]);
                }
            }
        }
        match result {
            Ok(object_id) => {
                let sst = FlushedSst {
                    info: SstableInfo {
                        object_id,
                        table_id: task.table_id,
                        min_epoch: task.epoch,
                        max_epoch: task.epoch,
                        file_size: task.size,
                    },
                    rows: task.rows,
                    imm_ids: task.imm_ids,
                };
                self.uploaded.push(sst.duplicate());
                assert(self.uploaded_spec() =~= old(self).uploaded_spec().push(sst@));
                proof {
                    assert forall|i: int| 0 <= i < self.uploaded_spec().len() implies (
                    #[trigger] self.uploaded_spec()[i]).0.max_epoch > self.max_synced_epoch by {
                        if i < old(self).uploaded_spec().len() {
                            assert(self.uploaded_spec()[i] == old(self).uploaded_spec()[i]);
                        }
                    }
                    let n = old(self).uploaded_spec().len() as int;
                    assert(self.uploaded_spec()[n] == sst@);
                    assert forall|q: int| 0 <= q < self.received_spec().len() implies self.accounted(
                        #[trigger] self.received_spec()[q],
                    ) by {
                        let y = self.received_spec()[q];
                        assert(old(self).received_spec()[q] == y);
                        assert(old(self).accounted(y));
                        lemma_flight_after_remove(up, k as int, y);
                        if in_flight(up, y) && !in_flight(self.uploading_spec(), y) {
                            let j = choose|j: int|
                                0 <= j < up[k as int].4.len() && (#[trigger] up[k as int].4[j]) == y.0;
                            assert(self.uploaded_spec()[n].2[j] == y.0);
                        }
                        if in_file(old(self).uploaded_spec(), y) {
                            let (i, j) = choose|i: int, j: int|
                                0 <= i < old(self).uploaded_spec().len()
                                    && old(self).uploaded_spec()[i].0.max_epoch == y.1 && 0 <= j
                                    < old(self).uploaded_spec()[i].2.len() && (
                                #[trigger] old(self).uploaded_spec()[i].2[j]) == y.0;
                            assert(self.uploaded_spec()[i] == old(self).uploaded_spec()[i]);
                            assert(self.uploaded_spec()[i].2[j] == y.0);
                        }
                    }
                }
                Some(sst)
            },
            Err(()) => {
                let f = match self.failed_epoch {
                    Some(f) => if f < task.epoch {
                        f
                    } else {
                        task.epoch
                    },
                    None => task.epoch,
                };
                self.failed_epoch = Some(f);
                assert(self.uploaded_spec() == old(self).uploaded_spec());
                proof {
                    assert forall|q: int| 0 <= q < self.received_spec().len() implies self.accounted(
                        #[trigger] self.received_spec()[q],
                    ) by {
                        let y = self.received_spec()[q];
                        assert(old(self).received_spec()[q] == y);
                        assert(old(self).accounted(y));
                        lemma_flight_after_remove(up, k as int, y);
                    }
                }
                None
            },
        }
    }

    /// Position of the first flush in flight with id `task_id`.
    fn find_task(&self, task_id: u64) -> (r: Option<usize>)
        ensures
            match r {
                Some(k) => {
                    &&& k < self.uploading_spec().len()
                    &&& self.uploading_spec()[k as int].0 == task_id
                    &&& forall|j: int|
                        0 <= j < k ==> (#[trigger] self.uploading_spec()[j]).0 != task_id
                },
                None => forall|j: int|
                    0 <= j < self.uploading_spec().len() ==> (
                    #[trigger] self.uploading_spec()[j]).0 != task_id,
            },
    {
        let mut k: usize = 0;
        while k < self.uploading.len()
            invariant
                k <= self.uploading@.len(),
                forall|j: int| 0 <= j < k ==> (#[trigger] self.uploading@[j]).task_id != task_id,
            decreases self.uploading@.len() - k,
        {
            if self.uploading[k].task_id == task_id {
                proof {
                    assert(self.uploading_spec()[k as int] == self.uploading@[k as int]@);
                    assert forall|j: int| 0 <= j < k implies (
                    #[trigger] self.uploading_spec()[j]).0 != task_id by {
                        assert(self.uploading_spec()[j] == self.uploading@[j]@);
                    }
                }
                return Some(k);
            }
            k = k + 1;
        }
        proof {
            assert forall|j: int| 0 <= j < self.uploading_spec().len() implies (
            #[trigger] self.uploading_spec()[j]).0 != task_id by {
                assert(self.uploading_spec()[j] == self.uploading@[j]@);
            }
        }
        None
    }

    /// Whether a flush of an epoch up to `epoch` is in flight.
    fn has_task_at_or_below(&self, epoch: u64) -> (r: bool)
        ensures
            r <==> exists|i: int|
                0 <= i < self.uploading_spec().len() && (#[trigger] self.uploading_spec()[i]).2
                    <= epoch,
    {
        let mut i: usize = 0;
        while i < self.uploading.len()
            invariant
                i <= self.uploading@.len(),
                forall|j: int| 0 <= j < i ==> (#[trigger] self.uploading@[j]).epoch > epoch,
            decreases self.uploading@.len() - i,
        {
            if self.uploading[i].epoch <= epoch {
                assert(self.uploading_spec()[i as int] == self.uploading@[i as int]@);
                return true;
            }
            i = i + 1;
        }
        proof {
            assert forall|j: int| 0 <= j < self.uploading_spec().len() implies (
            #[trigger] self.uploading_spec()[j]).2 > epoch by {
                assert(self.uploading_spec()[j] == self.uploading@[j]@);
            }
        }
        false
    }

    /// Settles the oldest pending sync if it can be settled: it fails when
    /// a flush at or below its epoch failed; it succeeds once no flush at
    /// or below its epoch is in flight, returning the finished files up to
    /// its epoch. Returns `None` while it must wait, or when none is
    /// pending.
    pub fn poll_sync(&mut self) -> (r: Option<SyncCompletion>)
        requires
            old(self).wf(),
            old(self).conserved(),
        ensures
            final(self).wf(),
            final(self).conserved(),
            final(self).received_spec() == old(self).received_spec(),
            old(self).synced_spec().subset_of(final(self).synced_spec()),
            r matches Some(c) ==> c.result is Ok ==> forall|k: int|
                0 <= k < final(self).received_spec().len() && (#[trigger] final(self).received_spec()[k]).1
                    <= c.epoch ==> final(self).synced_spec().contains(final(self).received_spec()[k]),
            r is None ==> final(self).synced_spec() == old(self).synced_spec(),
            old(self).pending_syncs_spec().len() == 0 ==> r is None,
            r is None ==> {
                &&& final(self).uploaded_spec() == old(self).uploaded_spec()
                &&& final(self).pending_syncs_spec() == old(self).pending_syncs_spec()
                &&& final(self).max_synced_epoch_spec() == old(self).max_synced_epoch_spec()
            },
            old(self).pending_syncs_spec().len() > 0 && r is None ==> {
                let e = old(self).pending_syncs_spec()[0].1;
                &&& !(old(self).failed_epoch_spec() matches Some(f) && f <= e)
                &&& exists|i: int|
                    0 <= i < old(self).uploading_spec().len() && (#[trigger] old(self).uploading_spec()[i]).2 <= e
            },
            r matches Some(c) ==> {
                &&& old(self).pending_syncs_spec().len() > 0
                &&& c.request_id == old(self).pending_syncs_spec()[0].0
                &&& c.epoch == old(self).pending_syncs_spec()[0].1
                &&& final(self).pending_syncs_spec() == old(self).pending_syncs_spec().drop_first()
            },
            r matches Some(c) ==> c.result is Err ==> {
                &&& old(self).failed_epoch_spec() matches Some(f) && f <= c.epoch
                    && c.result == Err::<SyncResult, HummockError>(
                    HummockError::FlushFailed { epoch: f },
                )
                &&& final(self).uploaded_spec() == old(self).uploaded_spec()
                &&& final(self).max_synced_epoch_spec() == old(self).max_synced_epoch_spec()
            },
            r matches Some(c) ==> c.result is Ok ==> {
                &&& final(self).flushed_up_to(c.epoch)
                &&& !(final(self).failed_epoch_spec() matches Some(f) && f <= c.epoch)
                &&& final(self).max_synced_epoch_spec() == c.epoch
                &&& c.result matches Ok(res) && res.epoch == c.epoch && res.uncommitted_ssts@
                    == sst_infos(synced_part(old(self).uploaded_spec(), c.epoch))
                    && res.sync_size == if total_file_size(
                    synced_part(old(self).uploaded_spec(), c.epoch),
                ) > u64::MAX {
                    u64::MAX as int
                } else {
                    total_file_size(synced_part(old(self).uploaded_spec(), c.epoch))
                }
                &&& final(self).uploaded_spec() == unsynced_part(old(self).uploaded_spec(), c.epoch)
            },
            final(self).buffered_spec() == old(self).buffered_spec(),
            final(self).uploading_spec() == old(self).uploading_spec(),
            final(self).failed_epoch_spec() == old(self).failed_epoch_spec(),
            final(self).max_sealed_epoch_spec() == old(self).max_sealed_epoch_spec(),
            final(self).max_syncing_epoch_spec() == old(self).max_syncing_epoch_spec(),
            final(self).flush_threshold_spec() == old(self).flush_threshold_spec(),
    {
        if self.pending_syncs.len() == 0 {
            return None;
        }
        let (request_id, epoch) = self.pending_syncs[0];
        let ghost p = self.pending_syncs_spec();
        if let Some(f) = self.failed_epoch {
            if f <= epoch {
                self.pending_syncs.remove(0);
                proof {
                    assert(self.pending_syncs_spec() =~= p.drop_first());
                    lemma_pending_drop_first_wf(p, self.max_synced_epoch, self.max_syncing_epoch);
                }
                assert(self.buffered_spec() == old(self).buffered_spec());
                assert(self.uploading_spec() == old(self).uploading_spec());
                assert(self.uploaded_spec() == old(self).uploaded_spec());
                assert(self.received_spec() == old(self).received_spec());
                assert(self.synced_spec() == old(self).synced_spec());
                return Some(
                    SyncCompletion {
                        request_id,
                        epoch,
                        result: Err(HummockError::FlushFailed { epoch: f }),
                    },
                );
            }
        }
        if self.has_task_at_or_below(epoch) {
            return None;
        }
        assert(self.received_spec() == old(self).received_spec());
        let ghost old_uploaded = self.uploaded_spec();
        let ghost lo = |f: SstModel| f.0.max_epoch <= epoch;
        let ghost hi = |f: SstModel| f.0.max_epoch > epoch;
        let mut synced: Vec<SstableInfo> = Vec::new();
        let mut kept: Vec<FlushedSst> = Vec::new();
        let mut size: u64 = 0;
        let mut j: usize = 0;
        while j < self.uploaded.len()
            invariant
                j <= self.uploaded@.len(),
                sst_views(self.uploaded@) == old_uploaded,
                lo == (|f: SstModel| f.0.max_epoch <= epoch),
                hi == (|f: SstModel| f.0.max_epoch > epoch),
                synced@ == sst_infos(sst_views(self.uploaded@.subrange(0, j as int)).filter(lo)),
                size == if total_file_size(
                    sst_views(self.uploaded@.subrange(0, j as int)).filter(lo),
                ) > u64::MAX {
                    u64::MAX as int
                } else {
                    total_file_size(sst_views(self.uploaded@.subrange(0, j as int)).filter(lo))
                },
                sst_views(kept@) == sst_views(self.uploaded@.subrange(0, j as int)).filter(hi),
            decreases self.uploaded@.len() - j,
        {
            let ghost prev_k = sst_views(kept@);
            let ghost s = sst_views(self.uploaded@.subrange(0, j + 1));
            proof {
                assert(s.drop_last() =~= sst_views(self.uploaded@.subrange(0, j as int)));
                assert(s =~= s.drop_last().push(self.uploaded@[j as int]@));
                lemma_filter_push(s.drop_last(), self.uploaded@[j as int]@, lo);
                lemma_filter_push(s.drop_last(), self.uploaded@[j as int]@, hi);
                lemma_total_file_size_nonneg(s.drop_last().filter(lo));
            }
            if self.uploaded[j].info.max_epoch <= epoch {
                synced.push(self.uploaded[j].info);
                size = size.saturating_add(self.uploaded[j].info.file_size);
                proof {
                    assert(s.filter(lo).drop_last() =~= s.drop_last().filter(lo));
                    assert(synced@ =~= sst_infos(s.filter(lo)));
                }
            } else {
                kept.push(self.uploaded[j].duplicate());
                assert(sst_views(kept@) =~= prev_k.push(self.uploaded@[j as int]@));
                assert(synced@ =~= sst_infos(s.filter(lo)));
            }
            j = j + 1;
        }
        assert(self.uploaded@.subrange(0, self.uploaded@.len() as int) =~= self.uploaded@);
        let ghost newly = Set::new(|x: (u64, u64)| in_file(synced_part(old_uploaded, epoch), x));
        self.uploaded = kept;
        self.pending_syncs.remove(0);
        self.max_synced_epoch = epoch;
        self.synced = Ghost(self.synced@.union(newly));
        proof {
            let ou = old_uploaded;
            assert(self.received_spec() == old(self).received_spec());
            assert(self.uploaded_spec() == ou.filter(hi));
            assert(self.buffered_spec() == old(self).buffered_spec());
            assert(self.uploading_spec() == old(self).uploading_spec());
            assert forall|q: int| 0 <= q < self.received_spec().len() implies self.accounted(
                #[trigger] self.received_spec()[q],
            ) && (self.received_spec()[q].1 <= epoch ==> self.synced_spec().contains(
                self.received_spec()[q],
            )) by {
                let y = self.received_spec()[q];
                assert(old(self).received_spec()[q] == y);
                assert(old(self).accounted(y));
                if in_buffer(old(self).buffered_spec(), y) {
                    let i = choose|i: int|
                        0 <= i < old(self).buffered_spec().len() && (
                        #[trigger] old(self).buffered_spec()[i]).0 == y.0
                            && old(self).buffered_spec()[i].3 == y.1;
                    assert(old(self).buffered_spec()[i].3 > old(self).max_syncing_epoch);
                }
                if in_flight(old(self).uploading_spec(), y) {
                    let (i, j) = choose|i: int, j: int|
                        0 <= i < old(self).uploading_spec().len() && old(self).uploading_spec()[i].2
                            == y.1 && 0 <= j < old(self).uploading_spec()[i].4.len() && (
                        #[trigger] old(self).uploading_spec()[i].4[j]) == y.0;
                    assert(old(self).uploading_spec()[i].2 > epoch);
                }
                if in_file(ou, y) {
                    let (i, j) = choose|i: int, j: int|
                        0 <= i < ou.len() && ou[i].0.max_epoch == y.1 && 0 <= j < ou[i].2.len() && (
                        #[trigger] ou[i].2[j]) == y.0;
                    if ou[i].0.max_epoch <= epoch {
                        ou.lemma_filter_contains(lo, i);
                        let f = ou.filter(lo);
                        let i2 = choose|i2: int| 0 <= i2 < f.len() && f[i2] == ou[i];
                        assert(f[i2].2[j] == y.0);
                        assert(in_file(synced_part(ou, epoch), y));
                        assert(newly.contains(y));
                    } else {
                        ou.lemma_filter_contains(hi, i);
                        let f = ou.filter(hi);
                        let i2 = choose|i2: int| 0 <= i2 < f.len() && f[i2] == ou[i];
                        assert(self.uploaded_spec()[i2].2[j] == y.0);
                        assert(in_file(self.uploaded_spec(), y));
                    }
                }
            }
        }
        proof {
            assert(self.pending_syncs_spec() =~= p.drop_first());
            lemma_pending_drop_first_wf(p, old(self).max_synced_epoch, self.max_syncing_epoch);
            assert(self.buffered_spec() == old(self).buffered_spec());
            assert(self.uploading_spec() == old(self).uploading_spec());
            crate::seq_lemmas::lemma_filter_elements(old_uploaded, hi);
            assert(p[0].1 <= self.max_syncing_epoch);
            assert forall|k: int| 0 <= k < self.pending_syncs_spec().len() implies epoch < (
            #[trigger] self.pending_syncs_spec()[k]).1 by {
                assert(self.pending_syncs_spec()[k] == p[k + 1]);
                assert(p[0].1 < p[k + 1].1);
            }
        }
        Some(
            SyncCompletion {
                request_id,
                epoch,
                result: Ok(SyncResult { epoch, sync_size: size, uncommitted_ssts: synced }),
            },
        )
    }

    /// Cancels every flush and every pending sync and drops everything
    /// buffered or finished: all epochs restart at `prev_epoch`. Returns
    /// the cancelled flushes and the requests of the cancelled syncs.
    pub fn clear(&mut self, prev_epoch: u64) -> (r: (Vec<u64>, Vec<(u64, u64)>))
        requires
            old(self).wf(),
        ensures
            final(self).wf(),
            final(self).conserved(),
            final(self).received_spec().len() == 0,
            r.0@ == old(self).uploading_spec().map_values(|t: TaskModel| t.0),
            r.1@ == old(self).pending_syncs_spec(),
            final(self).buffered_spec().len() == 0,
            final(self).uploading_spec().len() == 0,
            final(self).uploaded_spec().len() == 0,
            final(self).pending_syncs_spec().len() == 0,
            final(self).failed_epoch_spec() is None,
            final(self).max_sealed_epoch_spec() == prev_epoch,
            final(self).max_syncing_epoch_spec() == prev_epoch,
            final(self).max_synced_epoch_spec() == prev_epoch,
            final(self).flush_threshold_spec() == old(self).flush_threshold_spec(),
    {
        let mut tasks: Vec<u64> = Vec::new();
        let mut i: usize = 0;
        while i < self.uploading.len()
            invariant
                i <= self.uploading@.len(),
                tasks@ == task_views(self.uploading@).subrange(0, i as int).map_values(
                    |t: TaskModel| t.0,
                ),
            decreases self.uploading@.len() - i,
        {
            tasks.push(self.uploading[i].task_id);
            i = i + 1;
            assert(tasks@ =~= task_views(self.uploading@).subrange(0, i as int).map_values(
                |t: TaskModel| t.0,
            ));
        }
        assert(task_views(self.uploading@).subrange(0, i as int) =~= task_views(self.uploading@));
        let requests = copy_vec(&self.pending_syncs);
        self.buffered = Vec::new();
        self.uploading = Vec::new();
        self.uploaded = Vec::new();
        self.pending_syncs = Vec::new();
        self.failed_epoch = None;
        self.max_sealed_epoch = prev_epoch;
        self.max_syncing_epoch = prev_epoch;
        self.max_synced_epoch = prev_epoch;
        self.received = Ghost(Seq::empty());
        self.synced = Ghost(Set::empty());
        assert(self.buffered_spec().len() == 0);
        assert(self.uploading_spec().len() == 0);
        assert(self.uploaded_spec().len() == 0);
        (tasks, requests)
    }
}

proof fn lemma_total_file_size_nonneg(s: Seq<SstModel>)
    ensures
        total_file_size(s) >= 0,
    decreases s.len(),
{
    if s.len() > 0 {
        lemma_total_file_size_nonneg(s.drop_last());
    }
}

proof fn lemma_pending_drop_first_wf(p: Seq<(u64, u64)>, lo: u64, hi: u64)
    requires
        p.len() > 0,
        forall|i: int, j: int| 0 <= i < j < p.len() ==> (#[trigger] p[i]).1 < (#[trigger] p[j]).1,
        forall|i: int| 0 <= i < p.len() ==> lo < (#[trigger] p[i]).1 && p[i].1 <= hi,
    ensures
        forall|i: int, j: int|
            0 <= i < j < p.drop_first().len() ==> (#[trigger] p.drop_first()[i]).1 < (
            #[trigger] p.drop_first()[j]).1,
        forall|i: int|
            0 <= i < p.drop_first().len() ==> lo < (#[trigger] p.drop_first()[i]).1
                && p.drop_first()[i].1 <= hi,
{
    assert forall|i: int, j: int|
        0 <= i < j < p.drop_first().len() implies (#[trigger] p.drop_first()[i]).1 < (
        #[trigger] p.drop_first()[j]).1 by {
        assert(p.drop_first()[i] == p[i + 1] && p.drop_first()[j] == p[j + 1]);
    }
    assert forall|i: int| 0 <= i < p.drop_first().len() implies lo < (
    #[trigger] p.drop_first()[i]).1 && p.drop_first()[i].1 <= hi by {
        assert(p.drop_first()[i] == p[i + 1]);
    }
}

/// A memtable in a flush of `up` is in the flush at `k`, or still in
/// flight once that one is removed.
proof fn lemma_flight_after_remove(up: Seq<TaskModel>, k: int, y: (u64, u64))
    requires
        0 <= k < up.len(),
    ensures
        in_flight(up, y) ==> in_flight(up.remove(k), y) || (up[k].2 == y.1 && exists|j: int|
            0 <= j < up[k].4.len() && (#[trigger] up[k].4[j]) == y.0),
{
    if in_flight(up, y) {
        let (i, j) = choose|i: int, j: int|
            0 <= i < up.len() && up[i].2 == y.1 && 0 <= j < up[i].4.len() && (#[trigger] up[i].4[j])
                == y.0;
        let r = up.remove(k);
        if i < k {
            assert(r[i] == up[i]);
            assert(r[i].4[j] == y.0);
        } else if i > k {
            assert(r[i - 1] == up[i]);
            assert(r[i - 1].4[j] == y.0);
        }
    }
}

proof fn lemma_total_size_nonneg(s: Seq<ImmModel>)
    ensures
        total_size(s) >= 0,
    decreases s.len(),
{
    if s.len() > 0 {
        lemma_total_size_nonneg(s.drop_last());
    }
}

/// Every memtable left above `bound` lies above it.
proof fn epoch_above_elements(s: Seq<ImmModel>, bound: u64)
    ensures
        forall|i: int|
            0 <= i < epoch_above(s, bound).len() ==> (#[trigger] epoch_above(s, bound)[i]).3
                > bound,
{
    crate::seq_lemmas::lemma_filter_elements(s, |m: ImmModel| m.3 > bound);
}

/// Filtering above `b1` and then above a higher `b2` is filtering above
/// `b2`.
proof fn lemma_epoch_above_compose(s: Seq<ImmModel>, b1: u64, b2: u64)
    requires
        b1 <= b2,
    ensures
        epoch_above(epoch_above(s, b1), b2) == epoch_above(s, b2),
{
    let above_low = |m: ImmModel| m.3 > b1;
    let above_high = |m: ImmModel| m.3 > b2;
    assert forall|x: ImmModel| #[trigger] above_high(x) implies above_low(x) by {}
    lemma_filter_filter(s, above_low, above_high);
}

/// Filtering above a bound that every memtable lies above keeps them all.
proof fn lemma_epoch_above_everything(s: Seq<ImmModel>, bound: u64)
    requires
        forall|i: int| 0 <= i < s.len() ==> (#[trigger] s[i]).3 > bound,
    ensures
        epoch_above(s, bound) == s,
{
    lemma_filter_all(s, |m: ImmModel| m.3 > bound);
}

/// Each element of a filtered sequence is an element of the sequence.
proof fn lemma_filter_elements_from<A>(s: Seq<A>, p: spec_fn(A) -> bool, k: int)
    requires
        0 <= k < s.filter(p).len(),
    ensures
        exists|j: int| 0 <= j < s.len() && s[j] == s.filter(p)[k],
    decreases s.len(),
{
    reveal(Seq::filter);
    let t = s.drop_last().filter(p);
    if p(s.last()) && k == t.len() {
        assert(s[s.len() - 1] == s.filter(p)[k]);
    } else {
        assert(s.filter(p)[k] == t[k]);
        lemma_filter_elements_from(s.drop_last(), p, k);
        let j = choose|j: int| 0 <= j < s.drop_last().len() && s.drop_last()[j] == t[k];
        assert(s[j] == s.filter(p)[k]);
    }
}

} // verus!
