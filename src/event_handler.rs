use vstd::prelude::*;
use vstd::string::StringExecFns;

use crate::bitmap::Bitmap;
use crate::decimal::{append_decimal, decimal};
use crate::imm::{
    imm_views, push_imm_once, push_sst_once, sst_views, FlushedSst, ImmModel, ImmutableMemtable,
    SstModel,
};
use crate::read_version::{HummockReadVersion, HummockVersion};
use crate::uploader::{epoch_above, has_sealed, saturated_size, TaskModel, HummockError, HummockUploader, SyncCompletion, UploadTaskInput};

verus! {

/// Identifier of one writer instance of a table.
pub type LocalInstanceId = u64;

/// How a local epoch boundary is closed.
#[derive(Clone, Copy, Debug, PartialEq, Eq, Structural)]
pub struct SealCurrentEpochOptions {
    /// Whether the boundary emits watermark signals.
    pub emit_watermark: bool,
}

/// An increment of the persisted version.
pub struct HummockVersionDelta {
    pub id: u64,
    pub prev_id: u64,
    pub max_committed_epoch: u64,
    pub new_ssts: Vec<FlushedSst>,
}

/// A change of the persisted version that the handler is told about.
pub enum HummockVersionUpdate {
    VersionDeltas(Vec<HummockVersionDelta>),
    PinnedVersion(HummockVersion),
}

/// The events that the handler processes, one at a time, in send order.
pub enum HummockEvent {
    /// Memory may be short: flushing may start.
    BufferMayFlush,
    /// Reply to `request_id` once every flush up to `new_sync_epoch` has
    /// settled.
    AwaitSyncEpoch { new_sync_epoch: u64, request_id: u64 },
    /// Cancel everything uncommitted and restart at `prev_epoch`.
    Clear { request_id: u64, prev_epoch: u64 },
    Shutdown,
    ImmToUploader(ImmutableMemtable),
    SealEpoch { epoch: u64, is_checkpoint: bool },
    LocalSealEpoch {
        instance_id: LocalInstanceId,
        table_id: u32,
        epoch: u64,
        opts: SealCurrentEpochOptions,
    },
    RegisterReadVersion { table_id: u32, request_id: u64, is_replicated: bool, vnodes: Bitmap },
    DestroyReadVersion { table_id: u32, instance_id: LocalInstanceId },
    /// Flush `task_id` ended: the object it wrote, or a failure.
    UploadTaskFinished { task_id: u64, result: Result<u64, ()> },
    VersionUpdate(HummockVersionUpdate),
}

/// What the outside is to do after an event.
pub enum HandlerAction {
    /// Write the rows of a flush and report back with `UploadTaskFinished`.
    Upload(UploadTaskInput),
    /// Reply to a sync request.
    SyncFinished(SyncCompletion),
    /// Abort these flushes.
    CancelUploads(Vec<u64>),
    /// Reply to a clear request.
    ClearFinished { request_id: u64 },
    /// Reply to a registration; `None` when no instance id is left.
    ReadVersionRegistered { request_id: u64, table_id: u32, instance_id: Option<LocalInstanceId> },
    /// A deregistration of an instance that is not registered: log it.
    DestroyIgnored { table_id: u32, instance_id: LocalInstanceId },
    /// Stop the event loop.
    Shutdown,
}

/// Every memtable staged in one of `rvs` is one of `received`, as (id,
/// epoch).
pub open spec fn staged_received(rvs: Seq<HummockReadVersion>, received: Seq<(u64, u64)>) -> bool {
    forall|j: int, m: ImmModel|
        0 <= j < rvs.len() && #[trigger] rvs[j].imms_spec().contains(m) ==> received.contains(
            (m.0, m.3),
        )
}

/// After a sound sync of `epoch`, no read version of `h` stages a memtable
/// of that epoch or below that a successful sync did not write out: every
/// one of them is in a file that a sync returned.
pub proof fn lemma_sound_sync_covers_read_versions(h: HummockEventHandler, epoch: u64)
    requires
        h.wf(),
        sync_sound(h.uploader_spec(), epoch),
    ensures
        forall|j: int, m: ImmModel|
            0 <= j < h.read_versions_spec().len() && #[trigger] h.read_versions_spec()[j].imms_spec().contains(m)
                && m.3 <= epoch ==> h.uploader_spec().synced_spec().contains((m.0, m.3)),
{
    let u = h.uploader_spec();
    assert forall|j: int, m: ImmModel|
        0 <= j < h.read_versions_spec().len() && #[trigger] h.read_versions_spec()[j].imms_spec().contains(m)
            && m.3 <= epoch implies u.synced_spec().contains((m.0, m.3)) by {
        let x = (m.0, m.3);
        assert(u.received_spec().contains(x));
        let k = choose|k: int| 0 <= k < u.received_spec().len() && u.received_spec()[k] == x;
        assert(u.received_spec()[k].1 <= epoch);
    }
}

/// `rv` holds every memtable and file staged in a read version of its
/// table among `rvs`.
pub open spec fn sees_staged(rvs: Seq<HummockReadVersion>, rv: HummockReadVersion) -> bool {
    &&& forall|j: int, m: ImmModel|
        0 <= j < rvs.len() && rvs[j].table_id_spec() == rv.table_id_spec() && #[trigger] rvs[j].imms_spec().contains(m) ==> rv.imms_spec().contains(m)
    &&& forall|j: int, f: SstModel|
        0 <= j < rvs.len() && rvs[j].table_id_spec() == rv.table_id_spec() && #[trigger] rvs[j].staging_ssts_spec().contains(f) ==> rv.staging_ssts_spec().contains(f)
}

/// `keys` without `k`.
pub open spec fn remove_key(keys: Seq<(u32, u64)>, k: (u32, u64)) -> Seq<(u32, u64)> {
    keys.filter(not_key(k))
}

pub open spec fn not_key(k: (u32, u64)) -> spec_fn((u32, u64)) -> bool {
    |e: (u32, u64)| e != k
}

pub open spec fn keys_unique(keys: Seq<(u32, u64)>) -> bool {
    forall|i: int, j: int| 0 <= i < j < keys.len() ==> keys[i] != keys[j]
}

/// Registering a new instance and dropping its guard removes its entry
/// exactly once: the new entry is the only one under its key, removing it
/// gives back the registry as it was, keys and read versions alike, and
/// deregistering it again finds nothing and changes nothing.
pub proof fn lemma_register_then_destroy(
    keys: Seq<(u32, u64)>,
    read_versions: Seq<HummockReadVersion>,
    registered: HummockReadVersion,
    table_id: u32,
    instance_id: u64,
)
    requires
        !keys.contains((table_id, instance_id)),
    ensures
        keys.push((table_id, instance_id)).contains((table_id, instance_id)),
        forall|i: int|
            0 <= i < keys.len() + 1 && #[trigger] keys.push((table_id, instance_id))[i] == (
                table_id,
                instance_id,
            ) ==> i == keys.len(),
        read_versions.push(registered).remove(read_versions.len() as int) == read_versions,
        remove_key(keys.push((table_id, instance_id)), (table_id, instance_id)) == keys,
        !remove_key(keys.push((table_id, instance_id)), (table_id, instance_id)).contains(
            (table_id, instance_id),
        ),
        remove_key(
            remove_key(keys.push((table_id, instance_id)), (table_id, instance_id)),
            (table_id, instance_id),
        ) == remove_key(keys.push((table_id, instance_id)), (table_id, instance_id)),
{
    let k = (table_id, instance_id);
    let s = keys.push(k);
    assert(s[s.len() - 1] == k);
    assert forall|i: int| 0 <= i < keys.len() + 1 && #[trigger] s[i] == k implies i
        == keys.len() by {
        if i < keys.len() {
            assert(s[i] == keys[i]);
            assert(keys.contains(k));
        }
    }
    assert(read_versions.push(registered).remove(read_versions.len() as int) =~= read_versions);
    crate::seq_lemmas::lemma_filter_push(keys, k, not_key(k));
    assert forall|i: int| 0 <= i < keys.len() implies #[trigger] not_key(k)(keys[i]) by {
        if keys[i] == k {
            assert(keys.contains(k));
        }
    }
    crate::seq_lemmas::lemma_filter_all(keys, not_key(k));
}

/// The single owner of the buffer state: the registry of read versions,
/// the uploader and the persisted version.
pub struct HummockEventHandler {
    uploader: HummockUploader,
    read_versions: Vec<HummockReadVersion>,
    version: HummockVersion,
    next_instance_id: u64,
}

impl HummockEventHandler {
    /// Registered instances as (table, instance), in registration order.
    pub closed spec fn keys(&self) -> Seq<(u32, u64)> {
        self.read_versions@.map_values(
            |rv: HummockReadVersion| (rv.table_id_spec(), rv.instance_id_spec()),
        )
    }

    pub closed spec fn uploader_spec(&self) -> HummockUploader {
        self.uploader
    }

    pub closed spec fn committed_epoch_spec(&self) -> u64 {
        self.version.max_committed_epoch
    }

    pub closed spec fn version_ssts(&self) -> Seq<SstModel> {
        sst_views(self.version.ssts@)
    }

    pub closed spec fn next_instance_id_spec(&self) -> u64 {
        self.next_instance_id
    }

    pub open spec fn wf(&self) -> bool {
        &&& self.uploader_spec().wf()
        &&& self.uploader_spec().conserved()
        &&& staged_received(self.read_versions_spec(), self.uploader_spec().received_spec())
        &&& keys_unique(self.keys())
        &&& forall|i: int|
            0 <= i < self.keys().len() ==> (#[trigger] self.keys()[i]).1
                < self.next_instance_id_spec()
    }

    pub fn new(version: HummockVersion, flush_threshold: u64) -> (r: Self)
        ensures
            r.wf(),
            r.keys().len() == 0,
            r.committed_epoch_spec() == version.max_committed_epoch,
            r.uploader_spec().max_sealed_epoch_spec() == version.max_committed_epoch,
            r.uploader_spec().max_synced_epoch_spec() == version.max_committed_epoch,
            r.uploader_spec().flush_threshold_spec() == flush_threshold,
    {
        let uploader = HummockUploader::new(flush_threshold, version.max_committed_epoch);
        let r = HummockEventHandler {
            uploader,
            read_versions: Vec::new(),
            version,
            next_instance_id: 0,
        };
        assert(r.keys().len() == 0);
        r
    }

    pub fn uploader(&self) -> (r: &HummockUploader)
        ensures
            *r == self.uploader_spec(),
    {
        &self.uploader
    }

    pub fn version(&self) -> (r: &HummockVersion)
        ensures
            r.max_committed_epoch == self.committed_epoch_spec(),
            sst_views(r.ssts@) == self.version_ssts(),
    {
        &self.version
    }

    pub fn read_version_count(&self) -> (r: usize)
        ensures
            r == self.keys().len(),
    {
        self.read_versions.len()
    }

    /// Position of the read version of `(table_id, instance_id)`.
    fn find(&self, table_id: u32, instance_id: u64) -> (r: Option<usize>)
        ensures
            match r {
                Some(i) => i < self.keys().len() && self.keys()[i as int] == (
                    table_id,
                    instance_id,
                ),
                None => !self.keys().contains((table_id, instance_id)),
            },
    {
        let mut i: usize = 0;
        while i < self.read_versions.len()
            invariant
                i <= self.read_versions@.len(),
                forall|j: int|
                    0 <= j < i ==> (#[trigger] self.keys()[j]) != (table_id, instance_id),
            decreases self.read_versions@.len() - i,
        {
            let rv = &self.read_versions[i];
            if rv.table_id() == table_id && rv.instance_id() == instance_id {
                return Some(i);
            }
            i = i + 1;
        }
        None
    }

    /// The read version of `(table_id, instance_id)`, if registered.
    pub fn read_version(&self, table_id: u32, instance_id: u64) -> (r: Option<
        &HummockReadVersion,
    >)
        ensures
            r is Some <==> self.keys().contains((table_id, instance_id)),
            r matches Some(rv) ==> rv.table_id_spec() == table_id && rv.instance_id_spec()
                == instance_id,
    {
        match self.find(table_id, instance_id) {
            Some(i) => Some(&self.read_versions[i]),
            None => None,
        }
    }

    /// Every memtable and file staged in a read version of `table_id`,
    /// each once.
    fn staged_of_table(&self, table_id: u32) -> (r: (Vec<ImmutableMemtable>, Vec<FlushedSst>))
        requires
            self.wf(),
        ensures
            forall|m: ImmModel|
                #[trigger] imm_views(r.0@).contains(m) ==> self.uploader_spec().received_spec().contains(
                    (m.0, m.3),
                ),
            forall|j: int, m: ImmModel|
                0 <= j < self.read_versions_spec().len()
                    && self.read_versions_spec()[j].table_id_spec() == table_id
                    && #[trigger] self.read_versions_spec()[j].imms_spec().contains(m)
                    ==> imm_views(r.0@).contains(m),
            forall|j: int, f: SstModel|
                0 <= j < self.read_versions_spec().len()
                    && self.read_versions_spec()[j].table_id_spec() == table_id
                    && #[trigger] self.read_versions_spec()[j].staging_ssts_spec().contains(f)
                    ==> sst_views(r.1@).contains(f),
    {
        let mut imms: Vec<ImmutableMemtable> = Vec::new();
        let mut ssts: Vec<FlushedSst> = Vec::new();
        let mut j: usize = 0;
        while j < self.read_versions.len()
            invariant
                j <= self.read_versions@.len(),
                self.wf(),
                forall|m: ImmModel|
                    #[trigger] imm_views(imms@).contains(m) ==> self.uploader_spec().received_spec().contains(
                        (m.0, m.3),
                    ),
                forall|j2: int, m: ImmModel|
                    0 <= j2 < j && self.read_versions@[j2].table_id_spec() == table_id && #[trigger] self.read_versions@[j2].imms_spec().contains(m) ==> imm_views(
                        imms@,
                    ).contains(m),
                forall|j2: int, f: SstModel|
                    0 <= j2 < j && self.read_versions@[j2].table_id_spec() == table_id && #[trigger] self.read_versions@[j2].staging_ssts_spec().contains(f)
                        ==> sst_views(ssts@).contains(f),
            decreases self.read_versions@.len() - j,
        {
            let rv = &self.read_versions[j];
            if rv.table_id() == table_id {
                let n = rv.imm_count();
                let mut i: usize = 0;
                while i < n
                    invariant
                        i <= n,
                        j < self.read_versions@.len(),
                        self.wf(),
                        forall|m: ImmModel|
                            #[trigger] imm_views(imms@).contains(m) ==> self.uploader_spec().received_spec().contains(
                                (m.0, m.3),
                            ),
                        n == rv.imms_spec().len(),
                        *rv == self.read_versions@[j as int],
                        forall|j2: int, m: ImmModel|
                            0 <= j2 < j && self.read_versions@[j2].table_id_spec() == table_id && #[trigger] self.read_versions@[j2].imms_spec().contains(m)
                                ==> imm_views(imms@).contains(m),
                        forall|q: int| 0 <= q < i ==> imm_views(imms@).contains(
                            #[trigger] rv.imms_spec()[q],
                        ),
                    decreases n - i,
                {
                    let ghost before = imm_views(imms@);
                    push_imm_once(&mut imms, rv.imm_at(i));
                    proof {
                        let x = rv.imms_spec()[i as int];
                        assert(self.read_versions_spec()[j as int].imms_spec().contains(x));
                        assert forall|m: ImmModel| #[trigger] imm_views(imms@).contains(m) implies self.uploader_spec().received_spec().contains(
                            (m.0, m.3),
                        ) by {
                            if m != x {
                                assert(before.contains(m));
                            }
                        }
                    }
                    i = i + 1;
                }
                let c = rv.staging_sst_count();
                let mut k: usize = 0;
                while k < c
                    invariant
                        k <= c,
                        forall|m: ImmModel|
                            #[trigger] imm_views(imms@).contains(m) ==> self.uploader_spec().received_spec().contains(
                                (m.0, m.3),
                            ),
                        c == rv.staging_ssts_spec().len(),
                        *rv == self.read_versions@[j as int],
                        forall|j2: int, f: SstModel|
                            0 <= j2 < j && self.read_versions@[j2].table_id_spec() == table_id && #[trigger] self.read_versions@[j2].staging_ssts_spec().contains(f)
                                ==> sst_views(ssts@).contains(f),
                        forall|q: int| 0 <= q < k ==> sst_views(ssts@).contains(
                            #[trigger] rv.staging_ssts_spec()[q],
                        ),
                    decreases c - k,
                {
                    push_sst_once(&mut ssts, rv.staging_sst_at(k));
                    k = k + 1;
                }
                proof {
                    assert forall|m: ImmModel| rv.imms_spec().contains(m) implies imm_views(
                        imms@,
                    ).contains(m) by {
                        let q = choose|q: int| 0 <= q < rv.imms_spec().len() && rv.imms_spec()[q] == m;
                        assert(imm_views(imms@).contains(rv.imms_spec()[q]));
                    }
                    assert forall|f: SstModel| rv.staging_ssts_spec().contains(f) implies sst_views(
                        ssts@,
                    ).contains(f) by {
                        let q = choose|q: int|
                            0 <= q < rv.staging_ssts_spec().len() && rv.staging_ssts_spec()[q] == f;
                        assert(sst_views(ssts@).contains(rv.staging_ssts_spec()[q]));
                    }
                }
            }
            j = j + 1;
        }
        (imms, ssts)
    }

    /// Registers a new read version of `table_id` under a fresh instance
    /// id; `None` when every instance id has been handed out. The new read
    /// version starts with every memtable and file staged for the table, so
    /// it sees every write handed over before it.
    pub fn register_read_version(
        &mut self,
        table_id: u32,
        is_replicated: bool,
        vnodes: Bitmap,
    ) -> (r: Option<LocalInstanceId>)
        requires
            old(self).wf(),
        ensures
            final(self).wf(),
            r is None <==> old(self).next_instance_id_spec() == u64::MAX,
            r is None ==> final(self).keys() == old(self).keys() && final(self).read_versions_spec()
                == old(self).read_versions_spec(),
            r matches Some(id) ==> {
                &&& id == old(self).next_instance_id_spec()
                &&& forall|i: int|
                    0 <= i < old(self).keys().len() ==> (#[trigger] old(self).keys()[i]).1 != id
                &&& final(self).keys() == old(self).keys().push((table_id, id))
                &&& final(self).read_versions_spec().drop_last() == old(self).read_versions_spec()
                &&& final(self).read_versions_spec().last().table_id_spec() == table_id
                &&& final(self).read_versions_spec().last().instance_id_spec() == id
                &&& sees_staged(old(self).read_versions_spec(), final(self).read_versions_spec().last())
                &&& final(self).read_versions_spec().last().committed_epoch_spec()
                    == old(self).committed_epoch_spec()
            },
            final(self).uploader_spec() == old(self).uploader_spec(),
            final(self).committed_epoch_spec() == old(self).committed_epoch_spec(),
            final(self).version_model_spec() == old(self).version_model_spec(),
    {
        if self.next_instance_id == u64::MAX {
            return None;
        }
        let id = self.next_instance_id;
        let (imms, ssts) = self.staged_of_table(table_id);
        self.next_instance_id = id + 1;
        let rv = HummockReadVersion::with_staged(
            table_id,
            id,
            is_replicated,
            vnodes,
            self.version.max_committed_epoch,
            imms,
            ssts,
        );
        let ghost k0 = old(self).keys();
        self.read_versions.push(rv);
        assert(self.keys() =~= k0.push((table_id, id)));
        assert(self.read_versions_spec().drop_last() =~= old(self).read_versions_spec());
        proof {
            assert forall|i: int| 0 <= i < k0.len() implies (#[trigger] k0[i]).1 != id by {}
            if k0.contains((table_id, id)) {
                let j = choose|j: int| 0 <= j < k0.len() && k0[j] == (table_id, id);
                assert(k0[j].1 < id);
            }
            assert forall|i: int, j: int|
                0 <= i < j < self.keys().len() implies self.keys()[i] != self.keys()[j] by {
                if j == k0.len() {
                    assert(self.keys()[i] == k0[i]);
                    assert(k0[i].1 < id);
                } else {
                    assert(self.keys()[i] == k0[i] && self.keys()[j] == k0[j]);
                }
            }
            assert forall|i: int| 0 <= i < self.keys().len() implies (
            #[trigger] self.keys()[i]).1 < self.next_instance_id by {
                if i < k0.len() {
                    assert(self.keys()[i] == k0[i]);
                }
            }
        }
        Some(id)
    }

    /// Removes the read version of `(table_id, instance_id)`. Removing one
    /// that is not registered changes nothing and returns `false`.
    pub fn destroy_read_version(&mut self, table_id: u32, instance_id: u64) -> (r: bool)
        requires
            old(self).wf(),
        ensures
            final(self).wf(),
            r == old(self).keys().contains((table_id, instance_id)),
            final(self).keys() == remove_key(old(self).keys(), (table_id, instance_id)),
            !final(self).keys().contains((table_id, instance_id)),
            forall|i: int|
                0 <= i < old(self).keys().len() && #[trigger] old(self).keys()[i] == (
                    table_id,
                    instance_id,
                ) ==> final(self).read_versions_spec() == old(self).read_versions_spec().remove(i),
            !old(self).keys().contains((table_id, instance_id)) ==> final(self).read_versions_spec()
                == old(self).read_versions_spec(),
            final(self).uploader_spec() == old(self).uploader_spec(),
            final(self).committed_epoch_spec() == old(self).committed_epoch_spec(),
            final(self).version_model_spec() == old(self).version_model_spec(),
            final(self).next_instance_id_spec() == old(self).next_instance_id_spec(),
    {
        let k = (table_id, instance_id);
        let ghost k0 = old(self).keys();
        match self.find(table_id, instance_id) {
            None => {
                proof {
                    assert forall|i: int| 0 <= i < k0.len() implies #[trigger] not_key(k)(k0[i]) by {
                        if k0[i] == k {
                            assert(k0.contains(k));
                        }
                    }
                    crate::seq_lemmas::lemma_filter_all(k0, not_key(k));
                }
                false
            },
            Some(i) => {
                self.read_versions.remove(i);
                proof {
                    let s = self.keys();
                    assert(s =~= k0.remove(i as int));
                    lemma_remove_unique(k0, i as int);
                    assert forall|i2: int|
                        0 <= i2 < k0.len() && #[trigger] k0[i2] == k implies i2 == i by {
                        if i2 != i {
                            assert(k0[i2] != k0[i as int]);
                        }
                    }
                    assert forall|j: int| 0 <= j < s.len() implies (#[trigger] s[j]).1
                        < self.next_instance_id by {
                        if j < i {
                            assert(s[j] == k0[j]);
                        } else {
                            assert(s[j] == k0[j + 1]);
                        }
                    }
                }
                true
            },
        }
    }
}

/// A successful sync of `epoch` in `u`: nothing of its epoch or below is
/// left buffered or in flight, no flush there failed, and every memtable of
/// its epoch or below received since the last clear is in a file that a
/// successful sync returned.
pub open spec fn sync_sound(u: HummockUploader, epoch: u64) -> bool {
    &&& u.flushed_up_to(epoch)
    &&& !(u.failed_epoch_spec() matches Some(f) && f <= epoch)
    &&& forall|k: int|
        0 <= k < u.received_spec().len() && (#[trigger] u.received_spec()[k]).1 <= epoch
            ==> u.synced_spec().contains(u.received_spec()[k])
}

/// The oldest pending sync of `u`, if any, is covered by no failed flush
/// and waits for a flush in flight: every sync that could be settled has
/// been replied to, a sync covering a failed flush with an error.
pub open spec fn front_sync_waits(u: HummockUploader) -> bool {
    u.pending_syncs_spec().len() > 0 ==> {
        let e = u.pending_syncs_spec()[0].1;
        &&& !(u.failed_epoch_spec() matches Some(f) && f <= e)
        &&& exists|i: int|
            0 <= i < u.uploading_spec().len() && (#[trigger] u.uploading_spec()[i]).2 <= e
    }
}

/// `a` replies to sync request `request_id` of `epoch` that a clear
/// cancelled.
pub open spec fn is_cancelled_reply(a: HandlerAction, request_id: u64, epoch: u64) -> bool {
    a matches HandlerAction::SyncFinished(c) && c.request_id == request_id && c.epoch == epoch
        && c.result == Err::<crate::uploader::SyncResult, HummockError>(HummockError::Cancelled)
}

/// A successful reply returns its epoch and only files of that epoch or
/// below.
pub open spec fn reply_files_within(c: SyncCompletion) -> bool {
    c.result matches Ok(res) ==> res.epoch == c.epoch && forall|i: int|
        0 <= i < res.uncommitted_ssts@.len() ==> (#[trigger] res.uncommitted_ssts@[i]).max_epoch
            <= c.epoch
}

/// Whether every successful sync among `actions` is sound in `u` and
/// returns only files up to its epoch.
pub open spec fn syncs_flushed(actions: Seq<HandlerAction>, u: HummockUploader) -> bool {
    forall|i: int|
        0 <= i < actions.len() ==> match #[trigger] actions[i] {
            HandlerAction::SyncFinished(c) => (c.result is Ok ==> sync_sound(u, c.epoch))
                && reply_files_within(c),
            _ => true,
        }
}

/// `after` is `before` once the persisted version covers `epoch`: the
/// memtables and staged files up to `epoch` are dropped.
pub open spec fn committed_applied(
    before: HummockReadVersion,
    after: HummockReadVersion,
    epoch: u64,
) -> bool {
    &&& after.committed_epoch_spec() == epoch
    &&& after.imms_spec() == before.imms_spec().filter(|m: crate::imm::ImmModel| m.3 > epoch)
    &&& after.staging_ssts_spec() == before.staging_ssts_spec().filter(
        |f: SstModel| f.0.max_epoch > epoch,
    )
    &&& after.table_id_spec() == before.table_id_spec()
    &&& after.instance_id_spec() == before.instance_id_spec()
    &&& after.local_sealed_epoch_spec() == before.local_sealed_epoch_spec()
}

/// Id, committed epoch and files of a persisted version.
pub type VersionModel = (u64, u64, Seq<SstModel>);

/// Id, previous id, committed epoch and new files of a delta.
pub type DeltaModel = (u64, u64, u64, Seq<SstModel>);

pub open spec fn delta_model(d: HummockVersionDelta) -> DeltaModel {
    (d.id, d.prev_id, d.max_committed_epoch, sst_views(d.new_ssts@))
}

pub open spec fn version_model(v: HummockVersion) -> VersionModel {
    (v.id, v.max_committed_epoch, sst_views(v.ssts@))
}

/// A delta applies when it follows `v` and does not move the committed
/// epoch back; it then gives its id and epoch and appends its files.
pub open spec fn apply_delta(v: VersionModel, d: DeltaModel) -> VersionModel {
    if d.1 == v.0 && d.2 >= v.1 {
        (d.0, d.2, v.2 + d.3)
    } else {
        v
    }
}

/// `v` after the deltas `ds`, in order.
pub open spec fn apply_deltas(v: VersionModel, ds: Seq<DeltaModel>) -> VersionModel
    decreases ds.len(),
{
    if ds.len() == 0 {
        v
    } else {
        apply_delta(apply_deltas(v, ds.drop_last()), ds.last())
    }
}

/// `v` after `update`: its deltas in order, or a newer pinned version that
/// does not move the committed epoch back.
pub open spec fn updated_version(v: VersionModel, update: HummockVersionUpdate) -> VersionModel {
    match update {
        HummockVersionUpdate::VersionDeltas(ds) => apply_deltas(
            v,
            ds@.map_values(|d: HummockVersionDelta| delta_model(d)),
        ),
        HummockVersionUpdate::PinnedVersion(p) => if p.id > v.0 && p.max_committed_epoch >= v.1 {
            version_model(p)
        } else {
            v
        },
    }
}

/// Appends a copy of each of `src` to `dst`.
fn append_ssts(dst: &mut Vec<FlushedSst>, src: &Vec<FlushedSst>)
    ensures
        sst_views(final(dst)@) == sst_views(old(dst)@) + sst_views(src@),
{
    let mut i: usize = 0;
    while i < src.len()
        invariant
            i <= src@.len(),
            sst_views(dst@) == sst_views(old(dst)@) + sst_views(src@.subrange(0, i as int)),
        decreases src@.len() - i,
    {
        let ghost prev = sst_views(dst@);
        dst.push(src[i].duplicate());
        proof {
            assert(sst_views(dst@) =~= prev.push(src@[i as int]@));
            assert(sst_views(src@.subrange(0, i + 1)) =~= sst_views(src@.subrange(0, i as int)).push(
                src@[i as int]@,
            ));
        }
        i = i + 1;
        assert(sst_views(dst@) =~= sst_views(old(dst)@) + sst_views(src@.subrange(0, i as int)));
    }
    assert(src@.subrange(0, src@.len() as int) =~= src@);
}

impl HummockEventHandler {
    pub closed spec fn read_versions_spec(&self) -> Seq<HummockReadVersion> {
        self.read_versions@
    }

    /// Appends the replies of every sync that can be settled now.
    fn drain_syncs(&mut self, out: &mut Vec<HandlerAction>)
        requires
            old(self).wf(),
            syncs_flushed(old(out)@, old(self).uploader_spec()),
        ensures
            final(self).wf(),
            syncs_flushed(final(out)@, final(self).uploader_spec()),
            front_sync_waits(final(self).uploader_spec()),
            final(out)@.subrange(0, old(out)@.len() as int) == old(out)@,
            final(self).uploader_spec().buffered_spec() == old(self).uploader_spec().buffered_spec(),
            final(self).uploader_spec().uploading_spec()
                == old(self).uploader_spec().uploading_spec(),
            final(self).uploader_spec().failed_epoch_spec()
                == old(self).uploader_spec().failed_epoch_spec(),
            final(self).uploader_spec().max_sealed_epoch_spec()
                == old(self).uploader_spec().max_sealed_epoch_spec(),
            final(self).uploader_spec().max_syncing_epoch_spec()
                == old(self).uploader_spec().max_syncing_epoch_spec(),
            final(self).keys() == old(self).keys(),
            final(self).read_versions_spec() == old(self).read_versions_spec(),
            final(self).committed_epoch_spec() == old(self).committed_epoch_spec(),
            final(self).next_instance_id_spec() == old(self).next_instance_id_spec(),
    {
        loop
            invariant
                self.wf(),
                syncs_flushed(out@, self.uploader_spec()),
                out@.subrange(0, old(out)@.len() as int) == old(out)@,
                out@.len() >= old(out)@.len(),
                self.uploader.buffered_spec() == old(self).uploader.buffered_spec(),
                self.uploader.uploading_spec() == old(self).uploader.uploading_spec(),
                self.uploader.failed_epoch_spec() == old(self).uploader.failed_epoch_spec(),
                self.uploader.max_sealed_epoch_spec() == old(self).uploader.max_sealed_epoch_spec(),
                self.uploader.max_syncing_epoch_spec() == old(self).uploader.max_syncing_epoch_spec(),
                self.uploader.received_spec() == old(self).uploader.received_spec(),
                self.read_versions == old(self).read_versions,
                self.version == old(self).version,
                self.next_instance_id == old(self).next_instance_id,
            ensures
                self.wf(),
                syncs_flushed(out@, self.uploader_spec()),
                front_sync_waits(self.uploader_spec()),
                out@.subrange(0, old(out)@.len() as int) == old(out)@,
                self.uploader.buffered_spec() == old(self).uploader.buffered_spec(),
                self.uploader.uploading_spec() == old(self).uploader.uploading_spec(),
                self.uploader.failed_epoch_spec() == old(self).uploader.failed_epoch_spec(),
                self.uploader.max_sealed_epoch_spec() == old(self).uploader.max_sealed_epoch_spec(),
                self.uploader.max_syncing_epoch_spec() == old(self).uploader.max_syncing_epoch_spec(),
                self.read_versions == old(self).read_versions,
                self.version == old(self).version,
                self.next_instance_id == old(self).next_instance_id,
            decreases self.uploader.pending_syncs_spec().len(),
        {
            let ghost before = self.uploader;
            let ghost prev = out@;
            match self.uploader.poll_sync() {
                None => {
                    break;
                },
                Some(c) => {
                    proof {
                        let ou = before.uploaded_spec();
                        crate::seq_lemmas::lemma_filter_elements(
                            ou,
                            |f: SstModel| f.0.max_epoch <= c.epoch,
                        );
                        if let Ok(res) = &c.result {
                            assert forall|i: int| 0 <= i < res.uncommitted_ssts@.len() implies (
                            #[trigger] res.uncommitted_ssts@[i]).max_epoch <= c.epoch by {
                                assert(res.uncommitted_ssts@[i] == crate::uploader::synced_part(
                                    ou,
                                    c.epoch,
                                )[i].0);
                            }
                        }
                        assert(reply_files_within(c));
                    }
                    out.push(HandlerAction::SyncFinished(c));
                    proof {
                        assert(self.uploader.pending_syncs_spec() =~= before.pending_syncs_spec().drop_first());
                        assert forall|i: int| 0 <= i < out@.len() implies match #[trigger] out@[i] {
                            HandlerAction::SyncFinished(c) => (c.result is Ok ==> sync_sound(
                                self.uploader,
                                c.epoch,
                            )) && reply_files_within(c),
                            _ => true,
                        } by {
                            if i < prev.len() {
                                assert(out@[i] == prev[i]);
                                assert(syncs_flushed(prev, before));
                                if let HandlerAction::SyncFinished(c0) = prev[i] {
                                    if c0.result is Ok {
                                        assert(sync_sound(before, c0.epoch));
                                        assert forall|k: int|
                                            0 <= k < self.uploader.received_spec().len() && (
                                            #[trigger] self.uploader.received_spec()[k]).1
                                                <= c0.epoch implies self.uploader.synced_spec().contains(
                                            self.uploader.received_spec()[k],
                                        ) by {
                                            assert(before.synced_spec().contains(
                                                before.received_spec()[k],
                                            ));
                                        }
                                    }
                                }
                            }
                        }
                        assert(out@.subrange(0, old(out)@.len() as int) =~= prev.subrange(
                            0,
                            old(out)@.len() as int,
                        ));
                    }
                },
            }
        }
    }

    /// Hands a memtable to the uploader and, before it is durable, to the
    /// read version of its instance, where readers see it at once.
    pub fn handle_imm(&mut self, imm: ImmutableMemtable)
        requires
            old(self).wf(),
            imm.epoch > old(self).uploader_spec().max_sealed_epoch_spec(),
        ensures
            final(self).wf(),
            final(self).uploader_spec().buffered_spec()
                == old(self).uploader_spec().buffered_spec().push(imm@),
            final(self).uploader_spec().received_spec()
                == old(self).uploader_spec().received_spec().push((imm.imm_id, imm.epoch)),
            final(self).keys() == old(self).keys(),
            final(self).read_versions_spec().len() == old(self).read_versions_spec().len(),
            forall|i: int|
                0 <= i < old(self).keys().len() ==> (#[trigger] final(self).read_versions_spec()[i]).imms_spec() == if old(self).keys()[i] == (
                    imm.table_id,
                    imm.instance_id,
                ) {
                    seq![imm@] + old(self).read_versions_spec()[i].imms_spec()
                } else {
                    old(self).read_versions_spec()[i].imms_spec()
                },
            final(self).committed_epoch_spec() == old(self).committed_epoch_spec(),
    {
        let ghost rvs = self.read_versions@;
        match self.find(imm.table_id, imm.instance_id) {
            Some(i) => {
                let dup = imm.duplicate();
                self.read_versions[i].add_imm(dup);
                proof {
                    assert forall|j: int| 0 <= j < rvs.len() implies (
                    #[trigger] self.read_versions@[j]).imms_spec() == if old(self).keys()[j] == (
                        imm.table_id,
                        imm.instance_id,
                    ) {
                        seq![imm@] + rvs[j].imms_spec()
                    } else {
                        rvs[j].imms_spec()
                    } by {
                        if j != i {
                            assert(self.read_versions@[j] == rvs[j]);
                            assert(old(self).keys()[j] != old(self).keys()[i as int]);
                        }
                    }
                    assert(self.keys() =~= old(self).keys());
                }
            },
            None => {
                proof {
                    assert forall|j: int| 0 <= j < rvs.len() implies old(self).keys()[j] != (
                        imm.table_id,
                        imm.instance_id,
                    ) by {
                        assert(old(self).keys().contains(old(self).keys()[j]));
                    }
                }
            },
        }
        let ghost x = (imm.imm_id, imm.epoch);
        let ghost iv = imm@;
        let ghost rec = self.uploader.received_spec();
        self.uploader.add_imm(imm);
        proof {
            let rec2 = self.uploader.received_spec();
            assert(rec2 == rec.push(x));
            assert(rec2[rec.len() as int] == x);
            assert forall|j: int, m: ImmModel|
                0 <= j < self.read_versions_spec().len() && #[trigger] self.read_versions_spec()[j].imms_spec().contains(m)
                    implies rec2.contains((m.0, m.3)) by {
                let q = choose|q: int|
                    0 <= q < self.read_versions_spec()[j].imms_spec().len()
                        && self.read_versions_spec()[j].imms_spec()[q] == m;
                if old(self).keys()[j] == (iv.1, iv.2) && q == 0 {
                    assert(m == iv);
                } else {
                    let q0 = if old(self).keys()[j] == (iv.1, iv.2) { q - 1 } else { q };
                    assert(rvs[j].imms_spec()[q0] == m);
                    assert(rvs[j].imms_spec().contains(m));
                    assert(old(self).read_versions_spec()[j] == rvs[j]);
                    assert(rec.contains((m.0, m.3)));
                    let w = choose|w: int| 0 <= w < rec.len() && rec[w] == (m.0, m.3);
                    assert(rec2[w] == (m.0, m.3));
                }
            }
        }
    }

    /// Gives a flushed file to every read version of its table, in place
    /// of the memtables it was written from.
    fn stage_sst(&mut self, sst: &FlushedSst)
        requires
            old(self).wf(),
        ensures
            final(self).wf(),
            final(self).keys() == old(self).keys(),
            final(self).uploader_spec() == old(self).uploader_spec(),
            final(self).committed_epoch_spec() == old(self).committed_epoch_spec(),
            final(self).next_instance_id_spec() == old(self).next_instance_id_spec(),
            final(self).read_versions_spec().len() == old(self).read_versions_spec().len(),
            forall|i: int|
                0 <= i < old(self).keys().len() && old(self).keys()[i].0 == sst.info.table_id
                    ==> (#[trigger] final(self).read_versions_spec()[i]).staging_ssts_spec()
                    == seq![sst@] + old(self).read_versions_spec()[i].staging_ssts_spec(),
    {
        let mut i: usize = 0;
        while i < self.read_versions.len()
            invariant
                i <= self.read_versions@.len(),
                self.read_versions@.len() == old(self).read_versions@.len(),
                self.uploader == old(self).uploader,
                self.version == old(self).version,
                self.next_instance_id == old(self).next_instance_id,
                forall|j: int|
                    0 <= j < self.read_versions@.len() ==> (#[trigger] self.read_versions@[j]).table_id_spec()
                        == old(self).read_versions@[j].table_id_spec()
                        && self.read_versions@[j].instance_id_spec()
                        == old(self).read_versions@[j].instance_id_spec(),
                forall|j: int|
                    0 <= j < i && old(self).read_versions@[j].table_id_spec() == sst.info.table_id
                        ==> (#[trigger] self.read_versions@[j]).staging_ssts_spec() == seq![sst@]
                        + old(self).read_versions@[j].staging_ssts_spec(),
                forall|j: int|
                    i <= j < self.read_versions@.len() ==> #[trigger] self.read_versions@[j]
                        == old(self).read_versions@[j],
                forall|j: int, m: ImmModel|
                    0 <= j < self.read_versions@.len() && #[trigger] self.read_versions@[j].imms_spec().contains(m)
                        ==> old(self).read_versions@[j].imms_spec().contains(m),
            decreases self.read_versions@.len() - i,
        {
            let ghost prev = self.read_versions@;
            if self.read_versions[i].table_id() == sst.info.table_id {
                let dup = sst.duplicate();
                let ghost dv = dup@;
                self.read_versions[i].add_staging_sst(dup);
                proof {
                    assert forall|j: int| 0 <= j < self.read_versions@.len() && j != i implies
                        #[trigger] self.read_versions@[j] == prev[j] by {}
                    assert forall|j: int, m: ImmModel|
                        0 <= j < self.read_versions@.len() && #[trigger] self.read_versions@[j].imms_spec().contains(m)
                            implies old(self).read_versions@[j].imms_spec().contains(m) by {
                        if j == i {
                            crate::seq_lemmas::lemma_filter_subset(
                                prev[j].imms_spec(),
                                |m: ImmModel| !dv.2.contains(m.0),
                                m,
                            );
                        }
                    }
                }
            }
            i = i + 1;
        }
        assert(self.keys() =~= old(self).keys());
        assert(self.uploader_spec() == old(self).uploader_spec());
    }

    /// Every read version drops what the persisted version now covers.
    fn apply_committed(&mut self)
        requires
            old(self).wf(),
        ensures
            final(self).wf(),
            final(self).keys() == old(self).keys(),
            final(self).uploader_spec() == old(self).uploader_spec(),
            final(self).committed_epoch_spec() == old(self).committed_epoch_spec(),
            final(self).version_ssts() == old(self).version_ssts(),
            final(self).version_model_spec() == old(self).version_model_spec(),
            final(self).next_instance_id_spec() == old(self).next_instance_id_spec(),
            final(self).read_versions_spec().len() == old(self).read_versions_spec().len(),
            forall|i: int|
                0 <= i < old(self).keys().len() ==> committed_applied(
                    old(self).read_versions_spec()[i],
                    #[trigger] final(self).read_versions_spec()[i],
                    old(self).committed_epoch_spec(),
                ),
    {
        let epoch = self.version.max_committed_epoch;
        let mut i: usize = 0;
        while i < self.read_versions.len()
            invariant
                i <= self.read_versions@.len(),
                self.read_versions@.len() == old(self).read_versions@.len(),
                self.uploader == old(self).uploader,
                self.version == old(self).version,
                epoch == self.version.max_committed_epoch,
                self.next_instance_id == old(self).next_instance_id,
                forall|j: int|
                    0 <= j < self.read_versions@.len() ==> (#[trigger] self.read_versions@[j]).table_id_spec()
                        == old(self).read_versions@[j].table_id_spec()
                        && self.read_versions@[j].instance_id_spec()
                        == old(self).read_versions@[j].instance_id_spec(),
                forall|j: int|
                    0 <= j < i ==> committed_applied(
                        old(self).read_versions@[j],
                        #[trigger] self.read_versions@[j],
                        epoch,
                    ),
                forall|j: int|
                    i <= j < self.read_versions@.len() ==> #[trigger] self.read_versions@[j]
                        == old(self).read_versions@[j],
            decreases self.read_versions@.len() - i,
        {
            let ghost prev = self.read_versions@;
            self.read_versions[i].apply_committed_epoch(epoch);
            proof {
                assert forall|j: int| 0 <= j < self.read_versions@.len() && j != i implies
                    #[trigger] self.read_versions@[j] == prev[j] by {}
            }
            i = i + 1;
        }
        assert(self.keys() =~= old(self).keys());
        proof {
            assert forall|j: int, m: ImmModel|
                0 <= j < self.read_versions@.len() && #[trigger] self.read_versions@[j].imms_spec().contains(m)
                    implies self.uploader.received_spec().contains((m.0, m.3)) by {
                crate::seq_lemmas::lemma_filter_subset(
                    old(self).read_versions@[j].imms_spec(),
                    |m: ImmModel| m.3 > epoch,
                    m,
                );
                assert(old(self).read_versions_spec()[j].imms_spec().contains(m));
            }
        }
    }

    /// Every read version drops its staged memtables and files.
    fn clear_read_versions(&mut self)
        requires
            old(self).wf(),
        ensures
            final(self).wf(),
            final(self).keys() == old(self).keys(),
            final(self).uploader_spec() == old(self).uploader_spec(),
            final(self).committed_epoch_spec() == old(self).committed_epoch_spec(),
            final(self).next_instance_id_spec() == old(self).next_instance_id_spec(),
            final(self).read_versions_spec().len() == old(self).read_versions_spec().len(),
            forall|i: int|
                0 <= i < old(self).keys().len() ==> (#[trigger] final(self).read_versions_spec()[i]).imms_spec().len() == 0 && final(self).read_versions_spec()[i].staging_ssts_spec().len() == 0,
    {
        let mut i: usize = 0;
        while i < self.read_versions.len()
            invariant
                i <= self.read_versions@.len(),
                self.read_versions@.len() == old(self).read_versions@.len(),
                self.uploader == old(self).uploader,
                self.version == old(self).version,
                self.next_instance_id == old(self).next_instance_id,
                forall|j: int|
                    0 <= j < self.read_versions@.len() ==> (#[trigger] self.read_versions@[j]).table_id_spec()
                        == old(self).read_versions@[j].table_id_spec()
                        && self.read_versions@[j].instance_id_spec()
                        == old(self).read_versions@[j].instance_id_spec(),
                forall|j: int|
                    0 <= j < i ==> (#[trigger] self.read_versions@[j]).imms_spec().len() == 0
                        && self.read_versions@[j].staging_ssts_spec().len() == 0,
            decreases self.read_versions@.len() - i,
        {
            self.read_versions[i].clear_staging();
            i = i + 1;
        }
        assert(self.keys() =~= old(self).keys());
    }
}

pub open spec fn bool_text(b: bool) -> Seq<char> {
    if b {
        "true"@
    } else {
        "false"@
    }
}

/// One-line description of an event, for logs.
pub open spec fn event_debug_string(e: HummockEvent) -> Seq<char> {
    match e {
        HummockEvent::BufferMayFlush => "BufferMayFlush"@,
        HummockEvent::AwaitSyncEpoch { new_sync_epoch, .. } => "AwaitSyncEpoch epoch "@ + decimal(
            new_sync_epoch as nat,
        ) + " "@,
        HummockEvent::Clear { prev_epoch, .. } => "Clear "@ + decimal(prev_epoch as nat),
        HummockEvent::Shutdown => "Shutdown"@,
        HummockEvent::ImmToUploader(imm) => "ImmToUploader imm_id "@ + decimal(imm.imm_id as nat)
            + " table_id "@ + decimal(imm.table_id as nat) + " epoch "@ + decimal(imm.epoch as nat),
        HummockEvent::SealEpoch { epoch, is_checkpoint } => "SealEpoch epoch "@ + decimal(
            epoch as nat,
        ) + " is_checkpoint "@ + bool_text(is_checkpoint),
        HummockEvent::LocalSealEpoch { instance_id, table_id, epoch, opts } => "LocalSealEpoch epoch: "@
            + decimal(epoch as nat) + ", table_id: "@ + decimal(table_id as nat)
            + ", instance_id: "@ + decimal(instance_id as nat) + ", opts: emit_watermark "@
            + bool_text(opts.emit_watermark),
        HummockEvent::RegisterReadVersion { table_id, is_replicated, .. } => "RegisterReadVersion table_id "@
            + decimal(table_id as nat) + ", is_replicated: "@ + bool_text(is_replicated),
        HummockEvent::DestroyReadVersion { table_id, instance_id } => "DestroyReadVersion table_id "@
            + decimal(table_id as nat) + " instance_id "@ + decimal(instance_id as nat),
        HummockEvent::UploadTaskFinished { task_id, result } => "UploadTaskFinished task_id "@
            + decimal(task_id as nat) + match result {
            Ok(object_id) => " object_id "@ + decimal(object_id as nat),
            Err(_) => " failed"@,
        },
        HummockEvent::VersionUpdate(HummockVersionUpdate::VersionDeltas(d)) => "VersionUpdate deltas "@
            + decimal(d@.len()),
        HummockEvent::VersionUpdate(HummockVersionUpdate::PinnedVersion(v)) => "VersionUpdate pinned version "@
            + decimal(v.id as nat),
    }
}

fn append_bool(s: &mut String, b: bool)
    ensures
        final(s)@ == old(s)@ + bool_text(b),
{
    if b {
        s.append("true");
    } else {
        s.append("false");
    }
}

impl HummockEvent {
    /// One-line description of the event, for logs.
    pub fn to_debug_string(&self) -> (r: String)
        ensures
            r@ == event_debug_string(*self),
    {
        let mut s = String::new();
        match self {
            HummockEvent::BufferMayFlush => {
                s.append("BufferMayFlush");
            },
            HummockEvent::AwaitSyncEpoch { new_sync_epoch, .. } => {
                s.append("AwaitSyncEpoch epoch ");
                append_decimal(&mut s, *new_sync_epoch);
                s.append(" ");
            },
            HummockEvent::Clear { prev_epoch, .. } => {
                s.append("Clear ");
                append_decimal(&mut s, *prev_epoch);
            },
            HummockEvent::Shutdown => {
                s.append("Shutdown");
            },
            HummockEvent::ImmToUploader(imm) => {
                s.append("ImmToUploader imm_id ");
                append_decimal(&mut s, imm.imm_id);
                s.append(" table_id ");
                append_decimal(&mut s, imm.table_id as u64);
                s.append(" epoch ");
                append_decimal(&mut s, imm.epoch);
            },
            HummockEvent::SealEpoch { epoch, is_checkpoint } => {
                s.append("SealEpoch epoch ");
                append_decimal(&mut s, *epoch);
                s.append(" is_checkpoint ");
                append_bool(&mut s, *is_checkpoint);
            },
            HummockEvent::LocalSealEpoch { instance_id, table_id, epoch, opts } => {
                s.append("LocalSealEpoch epoch: ");
                append_decimal(&mut s, *epoch);
                s.append(", table_id: ");
                append_decimal(&mut s, *table_id as u64);
                s.append(", instance_id: ");
                append_decimal(&mut s, *instance_id);
                s.append(", opts: emit_watermark ");
                append_bool(&mut s, opts.emit_watermark);
            },
            HummockEvent::RegisterReadVersion { table_id, is_replicated, .. } => {
                s.append("RegisterReadVersion table_id ");
                append_decimal(&mut s, *table_id as u64);
                s.append(", is_replicated: ");
                append_bool(&mut s, *is_replicated);
            },
            HummockEvent::DestroyReadVersion { table_id, instance_id } => {
                s.append("DestroyReadVersion table_id ");
                append_decimal(&mut s, *table_id as u64);
                s.append(" instance_id ");
                append_decimal(&mut s, *instance_id);
            },
            HummockEvent::UploadTaskFinished { task_id, result } => {
                s.append("UploadTaskFinished task_id ");
                append_decimal(&mut s, *task_id);
                match result {
                    Ok(object_id) => {
                        s.append(" object_id ");
                        append_decimal(&mut s, *object_id);
                    },
                    Err(_) => {
                        s.append(" failed");
                    },
                }
            },
            HummockEvent::VersionUpdate(HummockVersionUpdate::VersionDeltas(d)) => {
                s.append("VersionUpdate deltas ");
                append_decimal(&mut s, d.len() as u64);
            },
            HummockEvent::VersionUpdate(HummockVersionUpdate::PinnedVersion(v)) => {
                s.append("VersionUpdate pinned version ");
                append_decimal(&mut s, v.id);
            },
        }
        assert(s@ =~= event_debug_string(*self));
        s
    }
}

/// Appends an upload action for each of `tasks`, in order.
fn push_uploads(out: &mut Vec<HandlerAction>, tasks: Vec<UploadTaskInput>)
    ensures
        final(out)@.len() == old(out)@.len() + tasks@.len(),
        final(out)@.subrange(0, old(out)@.len() as int) == old(out)@,
        forall|i: int|
            old(out)@.len() <= i < final(out)@.len() ==> #[trigger] final(out)@[i] is Upload,
{
    let mut tasks = tasks;
    let ghost n = tasks@.len();
    while tasks.len() > 0
        invariant
            out@.len() + tasks@.len() == old(out)@.len() + n,
            out@.subrange(0, old(out)@.len() as int) == old(out)@,
            out@.len() >= old(out)@.len(),
            forall|i: int| old(out)@.len() <= i < out@.len() ==> #[trigger] out@[i] is Upload,
        decreases tasks@.len(),
    {
        let t = tasks.remove(0);
        let ghost prev = out@;
        out.push(HandlerAction::Upload(t));
        assert(out@.subrange(0, old(out)@.len() as int) =~= prev.subrange(
            0,
            old(out)@.len() as int,
        ));
        assert forall|i: int| old(out)@.len() <= i < out@.len() implies #[trigger] out@[i] is Upload by {
            if i < prev.len() {
                assert(out@[i] == prev[i]);
            }
        }
    }
}

/// Actions that reply to no sync keep every sync reply before them sound.
proof fn lemma_syncs_flushed_extend(
    a: Seq<HandlerAction>,
    b: Seq<HandlerAction>,
    u: HummockUploader,
    n: int,
)
    requires
        0 <= n <= b.len(),
        b.subrange(0, n) == a,
        syncs_flushed(a, u),
        forall|i: int| n <= i < b.len() ==> !(#[trigger] b[i] is SyncFinished),
    ensures
        syncs_flushed(b, u),
{
    assert forall|i: int| 0 <= i < b.len() implies match #[trigger] b[i] {
        HandlerAction::SyncFinished(c) => (c.result is Ok ==> sync_sound(
                                u,
                                c.epoch,
                            )) && reply_files_within(c),
        _ => true,
    } by {
        if i < n {
            assert(b[i] == a[i]);
        }
    }
}

impl HummockEventHandler {
    pub closed spec fn version_model_spec(&self) -> VersionModel {
        version_model(self.version)
    }

    /// Applies a change of the persisted version: deltas in order, each
    /// only when it follows the current version and does not move the
    /// committed epoch back; a pinned version only when it is newer and
    /// does not move it back. Read versions then drop what the persisted
    /// version covers.
    pub fn handle_version_update(&mut self, update: HummockVersionUpdate)
        requires
            old(self).wf(),
        ensures
            final(self).wf(),
            final(self).version_model_spec() == updated_version(
                old(self).version_model_spec(),
                update,
            ),
            final(self).committed_epoch_spec() >= old(self).committed_epoch_spec(),
            final(self).keys() == old(self).keys(),
            final(self).uploader_spec() == old(self).uploader_spec(),
            final(self).next_instance_id_spec() == old(self).next_instance_id_spec(),
            final(self).read_versions_spec().len() == old(self).read_versions_spec().len(),
            forall|i: int|
                0 <= i < final(self).keys().len() ==> committed_applied(
                    old(self).read_versions_spec()[i],
                    #[trigger] final(self).read_versions_spec()[i],
                    final(self).committed_epoch_spec(),
                ),
    {
        let ghost v0 = version_model(self.version);
        match update {
            HummockVersionUpdate::VersionDeltas(deltas) => {
                let ghost ds = deltas@.map_values(|d: HummockVersionDelta| delta_model(d));
                let mut i: usize = 0;
                while i < deltas.len()
                    invariant
                        i <= deltas@.len(),
                        ds == deltas@.map_values(|d: HummockVersionDelta| delta_model(d)),
                        self.wf(),
                        version_model(self.version) == apply_deltas(v0, ds.subrange(0, i as int)),
                        self.committed_epoch_spec() >= old(self).committed_epoch_spec(),
                        self.keys() == old(self).keys(),
                        self.uploader == old(self).uploader,
                        self.read_versions == old(self).read_versions,
                        self.next_instance_id == old(self).next_instance_id,
                    decreases deltas@.len() - i,
                {
                    let delta = &deltas[i];
                    proof {
                        let t = ds.subrange(0, i + 1);
                        assert(t.drop_last() =~= ds.subrange(0, i as int));
                        assert(t.last() == delta_model(deltas@[i as int]));
                    }
                    if delta.prev_id == self.version.id && delta.max_committed_epoch
                        >= self.version.max_committed_epoch {
                        self.version.id = delta.id;
                        self.version.max_committed_epoch = delta.max_committed_epoch;
                        append_ssts(&mut self.version.ssts, &delta.new_ssts);
                    }
                    i = i + 1;
                    assert(self.keys() == old(self).keys());
                }
                assert(ds.subrange(0, deltas@.len() as int) =~= ds);
            },
            HummockVersionUpdate::PinnedVersion(v) => {
                if v.id > self.version.id && v.max_committed_epoch
                    >= self.version.max_committed_epoch {
                    self.version = v;
                }
                assert(self.keys() == old(self).keys());
            },
        }
        self.apply_committed();
    }

    /// Processes one event and says what the outside is to do. A sync
    /// reply is a success only when nothing of its epoch or below is left
    /// buffered or in flight, and no flush there failed.
    pub fn handle_event(&mut self, event: HummockEvent) -> (r: Vec<HandlerAction>)
        requires
            old(self).wf(),
            event matches HummockEvent::ImmToUploader(imm) ==> imm.epoch > old(self).uploader_spec().max_sealed_epoch_spec(),
        ensures
            final(self).wf(),
            syncs_flushed(r@, final(self).uploader_spec()),
            final(self).committed_epoch_spec() >= old(self).committed_epoch_spec(),
            event matches HummockEvent::ImmToUploader(imm) ==> {
                &&& final(self).uploader_spec().buffered_spec()
                    == old(self).uploader_spec().buffered_spec().push(imm@)
                &&& final(self).uploader_spec().received_spec()
                    == old(self).uploader_spec().received_spec().push((imm.imm_id, imm.epoch))
                &&& final(self).keys() == old(self).keys()
                &&& final(self).read_versions_spec().len() == old(self).read_versions_spec().len()
                &&& forall|i: int|
                    0 <= i < old(self).keys().len() ==> (#[trigger] final(self).read_versions_spec()[i]).imms_spec()
                        == if old(self).keys()[i] == (imm.table_id, imm.instance_id) {
                        seq![imm@] + old(self).read_versions_spec()[i].imms_spec()
                    } else {
                        old(self).read_versions_spec()[i].imms_spec()
                    }
            },
            event matches HummockEvent::SealEpoch { epoch, .. } ==> {
                &&& final(self).uploader_spec().max_sealed_epoch_spec() == if epoch > old(
                    self).uploader_spec().max_sealed_epoch_spec() {
                    epoch
                } else {
                    old(self).uploader_spec().max_sealed_epoch_spec()
                }
                &&& final(self).uploader_spec().buffered_spec()
                    == old(self).uploader_spec().buffered_spec()
            },
            event matches HummockEvent::RegisterReadVersion { table_id, request_id, .. } ==> {
                &&& r@.len() == 1
                &&& r@[0] matches HandlerAction::ReadVersionRegistered {
                    request_id: rq,
                    table_id: t,
                    instance_id,
                } && rq == request_id && t == table_id && match instance_id {
                    Some(id) => {
                        &&& id == old(self).next_instance_id_spec()
                        &&& forall|i: int|
                            0 <= i < old(self).keys().len() ==> (#[trigger] old(self).keys()[i]).1
                                != id
                        &&& final(self).keys() == old(self).keys().push((table_id, id))
                        &&& final(self).read_versions_spec().drop_last()
                            == old(self).read_versions_spec()
                        &&& final(self).read_versions_spec().last().table_id_spec() == table_id
                        &&& sees_staged(
                            old(self).read_versions_spec(),
                            final(self).read_versions_spec().last(),
                        )
                    },
                    None => final(self).keys() == old(self).keys() && final(self).read_versions_spec() == old(self).read_versions_spec(),
                }
            },
            event matches HummockEvent::DestroyReadVersion { table_id, instance_id } ==> {
                &&& final(self).keys() == remove_key(old(self).keys(), (table_id, instance_id))
                &&& (r@.len() == 0 <==> old(self).keys().contains((table_id, instance_id)))
                &&& forall|i: int|
                    0 <= i < old(self).keys().len() && #[trigger] old(self).keys()[i] == (
                        table_id,
                        instance_id,
                    ) ==> final(self).read_versions_spec() == old(self).read_versions_spec().remove(
                        i,
                    )
                &&& !old(self).keys().contains((table_id, instance_id)) ==> final(self).read_versions_spec() == old(self).read_versions_spec() && final(self).uploader_spec()
                    == old(self).uploader_spec()
            },
            event matches HummockEvent::Clear { request_id, prev_epoch } ==> {
                &&& final(self).uploader_spec().buffered_spec().len() == 0
                &&& final(self).uploader_spec().uploading_spec().len() == 0
                &&& final(self).uploader_spec().uploaded_spec().len() == 0
                &&& final(self).uploader_spec().pending_syncs_spec().len() == 0
                &&& final(self).uploader_spec().received_spec().len() == 0
                &&& final(self).uploader_spec().max_sealed_epoch_spec() == prev_epoch
                &&& final(self).uploader_spec().max_synced_epoch_spec() == prev_epoch
                &&& final(self).keys() == old(self).keys()
                &&& forall|i: int|
                    0 <= i < final(self).keys().len() ==> (#[trigger] final(self).read_versions_spec()[i]).imms_spec().len()
                        == 0 && final(self).read_versions_spec()[i].staging_ssts_spec().len() == 0
                &&& r@.len() == old(self).uploader_spec().pending_syncs_spec().len() + 2
                &&& r@[0] matches HandlerAction::CancelUploads(ids) && ids@
                    == old(self).uploader_spec().uploading_spec().map_values(|t: TaskModel| t.0)
                &&& forall|k: int|
                    0 <= k < old(self).uploader_spec().pending_syncs_spec().len()
                        ==> is_cancelled_reply(
                        #[trigger] r@[k + 1],
                        old(self).uploader_spec().pending_syncs_spec()[k].0,
                        old(self).uploader_spec().pending_syncs_spec()[k].1,
                    )
                &&& r@.last() matches HandlerAction::ClearFinished { request_id: rq }
                    && rq == request_id
            },
            event matches HummockEvent::AwaitSyncEpoch { new_sync_epoch, request_id } ==> {
                if old(self).uploader_spec().max_syncing_epoch_spec() < new_sync_epoch
                    && new_sync_epoch <= old(self).uploader_spec().max_sealed_epoch_spec() {
                    &&& final(self).uploader_spec().max_syncing_epoch_spec() == new_sync_epoch
                    &&& final(self).uploader_spec().buffered_spec() == epoch_above(
                        old(self).uploader_spec().buffered_spec(),
                        new_sync_epoch,
                    )
                } else {
                    &&& r@.len() == 1
                    &&& r@[0] matches HandlerAction::SyncFinished(c) && c.request_id == request_id
                        && c.epoch == new_sync_epoch && c.result == Err::<
                        crate::uploader::SyncResult,
                        HummockError,
                    >(HummockError::InvalidSyncEpoch { epoch: new_sync_epoch })
                }
            },
            event is Shutdown ==> r@.len() == 1 && r@[0] is Shutdown,
            event is BufferMayFlush ==> {
                &&& exists|bound: u64|
                    final(self).uploader_spec().buffered_spec() == #[trigger] epoch_above(
                        old(self).uploader_spec().buffered_spec(),
                        bound,
                    )
                &&& saturated_size(final(self).uploader_spec().buffered_spec())
                    <= final(self).uploader_spec().flush_threshold_spec() || !has_sealed(
                    final(self).uploader_spec().buffered_spec(),
                    final(self).uploader_spec().max_sealed_epoch_spec(),
                )
                &&& final(self).keys() == old(self).keys()
                &&& forall|i: int| 0 <= i < r@.len() ==> #[trigger] r@[i] is Upload
            },
            event matches HummockEvent::LocalSealEpoch { instance_id, table_id, epoch, .. } ==> {
                &&& final(self).keys() == old(self).keys()
                &&& final(self).uploader_spec() == old(self).uploader_spec()
                &&& forall|i: int|
                    0 <= i < final(self).keys().len() && final(self).keys()[i] == (
                        table_id,
                        instance_id,
                    ) ==> (#[trigger] final(self).read_versions_spec()[i]).local_sealed_epoch_spec()
                        == epoch
            },
            event matches HummockEvent::VersionUpdate(update) ==> {
                &&& final(self).version_model_spec() == updated_version(
                    old(self).version_model_spec(),
                    update,
                )
                &&& final(self).keys() == old(self).keys()
                &&& final(self).uploader_spec() == old(self).uploader_spec()
                &&& final(self).read_versions_spec().len() == old(self).read_versions_spec().len()
                &&& forall|i: int|
                    0 <= i < final(self).keys().len() ==> committed_applied(
                        old(self).read_versions_spec()[i],
                        #[trigger] final(self).read_versions_spec()[i],
                        final(self).committed_epoch_spec(),
                    )
            },
            event is UploadTaskFinished ==> {
                &&& final(self).keys() == old(self).keys()
                &&& final(self).uploader_spec().buffered_spec()
                    == old(self).uploader_spec().buffered_spec()
                &&& front_sync_waits(final(self).uploader_spec())
            },
    {
        let mut out: Vec<HandlerAction> = Vec::new();
        match event {
            HummockEvent::BufferMayFlush => {
                let tasks = self.uploader.may_flush();
                push_uploads(&mut out, tasks);
                assert(out@.subrange(0, 0) =~= Seq::<HandlerAction>::empty());
                proof {
                    lemma_syncs_flushed_extend(Seq::empty(), out@, self.uploader, 0);
                }
            },
            HummockEvent::AwaitSyncEpoch { new_sync_epoch, request_id } => {
                match self.uploader.start_sync(new_sync_epoch, request_id) {
                    Ok(tasks) => {
                        push_uploads(&mut out, tasks);
                        proof {
                            lemma_syncs_flushed_extend(Seq::empty(), out@, self.uploader, 0);
                        }
                        self.drain_syncs(&mut out);
                    },
                    Err(e) => {
                        out.push(
                            HandlerAction::SyncFinished(
                                SyncCompletion { request_id, epoch: new_sync_epoch, result: Err(e) },
                            ),
                        );
                    },
                }
            },
            HummockEvent::Clear { request_id, prev_epoch } => {
                self.clear_read_versions();
                let (tasks, syncs) = self.uploader.clear(prev_epoch);
                proof {
                    assert forall|j: int, m: ImmModel|
                        0 <= j < self.read_versions_spec().len() && #[trigger] self.read_versions_spec()[j].imms_spec().contains(m)
                            implies self.uploader_spec().received_spec().contains((m.0, m.3)) by {
                        assert(self.read_versions_spec()[j].imms_spec().len() == 0);
                    }
                }
                let ghost task_ids = tasks@;
                out.push(HandlerAction::CancelUploads(tasks));
                let mut k: usize = 0;
                while k < syncs.len()
                    invariant
                        k <= syncs@.len(),
                        syncs_flushed(out@, self.uploader),
                        out@.len() == k + 1,
                        out@[0] matches HandlerAction::CancelUploads(ids) && ids@ == task_ids,
                        forall|q: int|
                            0 <= q < k ==> is_cancelled_reply(#[trigger] out@[q + 1], syncs@[q].0, syncs@[q].1),
                    decreases syncs@.len() - k,
                {
                    let (rq, ep) = syncs[k];
                    let ghost prev = out@;
                    out.push(
                        HandlerAction::SyncFinished(
                            SyncCompletion {
                                request_id: rq,
                                epoch: ep,
                                result: Err(HummockError::Cancelled),
                            },
                        ),
                    );
                    proof {
                        assert(out@.subrange(0, prev.len() as int) =~= prev);
                        assert forall|i: int| 0 <= i < out@.len() implies match #[trigger] out@[i] {
                            HandlerAction::SyncFinished(c) => (c.result is Ok ==> sync_sound(
                                self.uploader,
                                c.epoch,
                            )) && reply_files_within(c),
                            _ => true,
                        } by {
                            if i < prev.len() {
                                assert(out@[i] == prev[i]);
                            }
                        }
                        assert(out@[0] == prev[0]);
                        assert forall|q: int| 0 <= q < k + 1 implies is_cancelled_reply(#[trigger] out@[q + 1], syncs@[q].0, syncs@[q].1) by {
                            if q < k {
                                assert(out@[q + 1] == prev[q + 1]);
                            }
                        }
                    }
                    k = k + 1;
                }
                let ghost prev = out@;
                out.push(HandlerAction::ClearFinished { request_id });
                proof {
                    assert(out@.subrange(0, prev.len() as int) =~= prev);
                    lemma_syncs_flushed_extend(prev, out@, self.uploader, prev.len() as int);
                    assert(out@[0] == prev[0]);
                    assert forall|q: int| 0 <= q < syncs@.len() implies is_cancelled_reply(#[trigger] out@[q + 1], syncs@[q].0, syncs@[q].1) by {
                        assert(out@[q + 1] == prev[q + 1]);
                    }
                }
            },
            HummockEvent::Shutdown => {
                out.push(HandlerAction::Shutdown);
            },
            HummockEvent::ImmToUploader(imm) => {
                self.handle_imm(imm);
            },
            HummockEvent::SealEpoch { epoch, is_checkpoint: _ } => {
                self.uploader.seal_epoch(epoch);
            },
            HummockEvent::LocalSealEpoch { instance_id, table_id, epoch, opts: _ } => {
                match self.find(table_id, instance_id) {
                    Some(i) => {
                        let ghost rvs = self.read_versions@;
                        self.read_versions[i].local_seal_epoch(epoch);
                        assert(self.keys() =~= old(self).keys());
                        proof {
                            assert forall|j: int|
                                0 <= j < self.keys().len() && self.keys()[j] == (
                                    table_id,
                                    instance_id,
                                ) implies (#[trigger] self.read_versions@[j]).local_sealed_epoch_spec()
                                == epoch by {
                                if j != i {
                                    assert(old(self).keys()[j] != old(self).keys()[i as int]);
                                }
                            }
                        }
                    },
                    None => {},
                }
            },
            HummockEvent::RegisterReadVersion { table_id, request_id, is_replicated, vnodes } => {
                let instance_id = self.register_read_version(table_id, is_replicated, vnodes);
                out.push(HandlerAction::ReadVersionRegistered { request_id, table_id, instance_id });
            },
            HummockEvent::DestroyReadVersion { table_id, instance_id } => {
                if !self.destroy_read_version(table_id, instance_id) {
                    out.push(HandlerAction::DestroyIgnored { table_id, instance_id });
                }
            },
            HummockEvent::UploadTaskFinished { task_id, result } => {
                match self.uploader.on_task_finished(task_id, result) {
                    Some(sst) => {
                        self.stage_sst(&sst);
                    },
                    None => {},
                }
                self.drain_syncs(&mut out);
            },
            HummockEvent::VersionUpdate(update) => {
                self.handle_version_update(update);
            },
        }
        out
    }
}

/// Removing the one position of a unique key removes exactly that key.
proof fn lemma_remove_unique(keys: Seq<(u32, u64)>, i: int)
    requires
        keys_unique(keys),
        0 <= i < keys.len(),
    ensures
        keys.remove(i) == remove_key(keys, keys[i]),
        keys_unique(keys.remove(i)),
        !keys.remove(i).contains(keys[i]),
{
    let k = keys[i];
    let r = keys.remove(i);
    let pre = keys.subrange(0, i);
    let post = keys.subrange(i + 1, keys.len() as int);
    assert forall|a: int, b: int| 0 <= a < b < r.len() implies r[a] != r[b] by {
        let a0 = if a < i { a } else { a + 1 };
        let b0 = if b < i { b } else { b + 1 };
        assert(r[a] == keys[a0] && r[b] == keys[b0]);
    }
    assert forall|a: int| 0 <= a < r.len() implies #[trigger] not_key(k)(r[a]) by {
        let a0 = if a < i { a } else { a + 1 };
        assert(r[a] == keys[a0]);
    }
    assert forall|a: int| 0 <= a < pre.len() implies #[trigger] not_key(k)(pre[a]) by {
        assert(pre[a] == keys[a]);
    }
    assert forall|a: int| 0 <= a < post.len() implies #[trigger] not_key(k)(post[a]) by {
        assert(post[a] == keys[a + i + 1]);
    }
    assert(keys =~= pre.push(k) + post);
    assert(r =~= pre + post);
    Seq::filter_distributes_over_add(pre.push(k), post, not_key(k));
    crate::seq_lemmas::lemma_filter_push(pre, k, not_key(k));
    crate::seq_lemmas::lemma_filter_all(pre, not_key(k));
    crate::seq_lemmas::lemma_filter_all(post, not_key(k));
}

} // verus!
