use vstd::prelude::*;

use crate::bitmap::Bitmap;
use crate::imm::{imm_views, sst_views, FlushedSst, ImmModel, ImmutableMemtable, KeyedRow, SstModel};
use crate::sstable::SstRow;

verus! {

/// Versions `(epoch, value)` of `key` among `rows`, all written at `epoch`.
pub open spec fn rows_versions(rows: Seq<KeyedRow>, key: u64, epoch: u64) -> Seq<(u64, u64)>
    decreases rows.len(),
{
    if rows.len() == 0 {
        Seq::empty()
    } else {
        rows_versions(rows.drop_last(), key, epoch) + if rows.last().key == key {
            seq![(epoch, rows.last().value)]
        } else {
            Seq::empty()
        }
    }
}

/// Versions of `key` in the memtables, in their order, that a read at
/// `read_epoch` sees.
pub open spec fn imm_versions(imms: Seq<ImmModel>, key: u64, read_epoch: u64) -> Seq<(u64, u64)>
    decreases imms.len(),
{
    if imms.len() == 0 {
        Seq::empty()
    } else {
        imm_versions(imms.drop_last(), key, read_epoch) + if imms.last().3 <= read_epoch {
            rows_versions(imms.last().5, key, imms.last().3)
        } else {
            Seq::empty()
        }
    }
}

/// Versions of `key` of table `table` among `rows` that a read at
/// `read_epoch` sees.
pub open spec fn sst_rows_versions(rows: Seq<SstRow>, table: u32, key: u64, read_epoch: u64) -> Seq<
    (u64, u64),
>
    decreases rows.len(),
{
    if rows.len() == 0 {
        Seq::empty()
    } else {
        let r = rows.last();
        sst_rows_versions(rows.drop_last(), table, key, read_epoch) + if r.table_id == table
            && r.key == key && r.epoch <= read_epoch {
            seq![(r.epoch, r.value)]
        } else {
            Seq::empty()
        }
    }
}

/// Versions of `key` of table `table` in the files, in their order.
pub open spec fn ssts_versions(ssts: Seq<SstModel>, table: u32, key: u64, read_epoch: u64) -> Seq<
    (u64, u64),
>
    decreases ssts.len(),
{
    if ssts.len() == 0 {
        Seq::empty()
    } else {
        ssts_versions(ssts.drop_last(), table, key, read_epoch) + sst_rows_versions(
            ssts.last().1,
            table,
            key,
            read_epoch,
        )
    }
}

/// `r` is the value of a newest version among `vs`, one with the largest
/// epoch, or `None` when `vs` is empty.
pub open spec fn is_newest(vs: Seq<(u64, u64)>, r: Option<u64>) -> bool {
    match r {
        None => vs.len() == 0,
        Some(v) => exists|i: int|
            0 <= i < vs.len() && (#[trigger] vs[i]).1 == v && forall|j: int|
                0 <= j < vs.len() ==> (#[trigger] vs[j]).0 <= vs[i].0,
    }
}

/// The persisted version: files committed up to an epoch.
pub struct HummockVersion {
    pub id: u64,
    pub max_committed_epoch: u64,
    pub ssts: Vec<FlushedSst>,
}

fn push_rows_versions(out: &mut Vec<(u64, u64)>, rows: &Vec<KeyedRow>, key: u64, epoch: u64)
    ensures
        final(out)@ == old(out)@ + rows_versions(rows@, key, epoch),
{
    let mut i: usize = 0;
    while i < rows.len()
        invariant
            i <= rows@.len(),
            out@ == old(out)@ + rows_versions(rows@.subrange(0, i as int), key, epoch),
        decreases rows@.len() - i,
    {
        let ghost prev = out@;
        if rows[i].key == key {
            out.push((epoch, rows[i].value));
        }
        proof {
            let s = rows@.subrange(0, i + 1);
            assert(s.drop_last() =~= rows@.subrange(0, i as int));
        }
        i = i + 1;
        assert(out@ =~= old(out)@ + rows_versions(rows@.subrange(0, i as int), key, epoch));
    }
    assert(rows@.subrange(0, rows@.len() as int) =~= rows@);
}

fn push_sst_rows_versions(
    out: &mut Vec<(u64, u64)>,
    rows: &Vec<SstRow>,
    table: u32,
    key: u64,
    read_epoch: u64,
)
    ensures
        final(out)@ == old(out)@ + sst_rows_versions(rows@, table, key, read_epoch),
{
    let mut i: usize = 0;
    while i < rows.len()
        invariant
            i <= rows@.len(),
            out@ == old(out)@ + sst_rows_versions(rows@.subrange(0, i as int), table, key, read_epoch),
        decreases rows@.len() - i,
    {
        let r = rows[i];
        if r.table_id == table && r.key == key && r.epoch <= read_epoch {
            out.push((r.epoch, r.value));
        }
        proof {
            let s = rows@.subrange(0, i + 1);
            assert(s.drop_last() =~= rows@.subrange(0, i as int));
        }
        i = i + 1;
        assert(out@ =~= old(out)@ + sst_rows_versions(
            rows@.subrange(0, i as int),
            table,
            key,
            read_epoch,
        ));
    }
    assert(rows@.subrange(0, rows@.len() as int) =~= rows@);
}

fn push_ssts_versions(
    out: &mut Vec<(u64, u64)>,
    ssts: &Vec<FlushedSst>,
    table: u32,
    key: u64,
    read_epoch: u64,
)
    ensures
        final(out)@ == old(out)@ + ssts_versions(sst_views(ssts@), table, key, read_epoch),
{
    let mut i: usize = 0;
    while i < ssts.len()
        invariant
            i <= ssts@.len(),
            out@ == old(out)@ + ssts_versions(
                sst_views(ssts@.subrange(0, i as int)),
                table,
                key,
                read_epoch,
            ),
        decreases ssts@.len() - i,
    {
        push_sst_rows_versions(out, &ssts[i].rows, table, key, read_epoch);
        proof {
            let s = sst_views(ssts@.subrange(0, i + 1));
            assert(s.drop_last() =~= sst_views(ssts@.subrange(0, i as int)));
            assert(s.last() == ssts@[i as int]@);
        }
        i = i + 1;
        assert(out@ =~= old(out)@ + ssts_versions(
            sst_views(ssts@.subrange(0, i as int)),
            table,
            key,
            read_epoch,
        ));
    }
    assert(ssts@.subrange(0, ssts@.len() as int) =~= ssts@);
}

/// The value of the newest version among `vs`.
pub fn newest_value(vs: &Vec<(u64, u64)>) -> (r: Option<u64>)
    ensures
        is_newest(vs@, r),
{
    if vs.len() == 0 {
        return None;
    }
    let mut best: usize = 0;
    let mut i: usize = 1;
    while i < vs.len()
        invariant
            1 <= i <= vs@.len(),
            best < i,
            forall|j: int| 0 <= j < i ==> (#[trigger] vs@[j]).0 <= vs@[best as int].0,
        decreases vs@.len() - i,
    {
        if vs[i].0 > vs[best].0 {
            best = i;
        }
        i = i + 1;
    }
    let v = vs[best].1;
    assert(vs@[best as int].1 == v);
    Some(v)
}

/// What one reader instance of a table sees: the memtables it wrote that
/// the persisted version does not yet cover, newest first, the files they
/// were flushed into, newest first, and the committed epoch it reads on.
pub struct HummockReadVersion {
    table_id: u32,
    instance_id: u64,
    is_replicated: bool,
    vnodes: Bitmap,
    imms: Vec<ImmutableMemtable>,
    staging_ssts: Vec<FlushedSst>,
    committed_epoch: u64,
    local_sealed_epoch: u64,
}

impl HummockReadVersion {
    pub closed spec fn table_id_spec(&self) -> u32 {
        self.table_id
    }

    pub closed spec fn instance_id_spec(&self) -> u64 {
        self.instance_id
    }

    /// Staged memtables, newest first.
    pub closed spec fn imms_spec(&self) -> Seq<ImmModel> {
        imm_views(self.imms@)
    }

    /// Staged files, newest first.
    pub closed spec fn staging_ssts_spec(&self) -> Seq<SstModel> {
        sst_views(self.staging_ssts@)
    }

    pub closed spec fn committed_epoch_spec(&self) -> u64 {
        self.committed_epoch
    }

    pub closed spec fn local_sealed_epoch_spec(&self) -> u64 {
        self.local_sealed_epoch
    }

    /// Versions of `key` that a read at `read_epoch` sees over `version`:
    /// staged memtables, then staged files, then committed files.
    pub open spec fn versions(
        &self,
        version: Seq<SstModel>,
        key: u64,
        read_epoch: u64,
    ) -> Seq<(u64, u64)> {
        imm_versions(self.imms_spec(), key, read_epoch) + ssts_versions(
            self.staging_ssts_spec(),
            self.table_id_spec(),
            key,
            read_epoch,
        ) + ssts_versions(version, self.table_id_spec(), key, read_epoch)
    }

    pub fn new(
        table_id: u32,
        instance_id: u64,
        is_replicated: bool,
        vnodes: Bitmap,
        committed_epoch: u64,
    ) -> (r: Self)
        ensures
            r.table_id_spec() == table_id,
            r.instance_id_spec() == instance_id,
            r.imms_spec() == Seq::<ImmModel>::empty(),
            r.staging_ssts_spec() == Seq::<SstModel>::empty(),
            r.committed_epoch_spec() == committed_epoch,
            r.local_sealed_epoch_spec() == committed_epoch,
            r.is_replicated_spec() == is_replicated,
            r.vnodes_spec() == vnodes.bits@,
    {
        let r = HummockReadVersion {
            table_id,
            instance_id,
            is_replicated,
            vnodes,
            imms: Vec::new(),
            staging_ssts: Vec::new(),
            committed_epoch,
            local_sealed_epoch: committed_epoch,
        };
        assert(r.imms_spec() =~= Seq::<ImmModel>::empty());
        assert(r.staging_ssts_spec() =~= Seq::<SstModel>::empty());
        r
    }

    /// A read version that starts with staged memtables and files.
    pub fn with_staged(
        table_id: u32,
        instance_id: u64,
        is_replicated: bool,
        vnodes: Bitmap,
        committed_epoch: u64,
        imms: Vec<ImmutableMemtable>,
        staging_ssts: Vec<FlushedSst>,
    ) -> (r: Self)
        ensures
            r.table_id_spec() == table_id,
            r.instance_id_spec() == instance_id,
            r.imms_spec() == imm_views(imms@),
            r.staging_ssts_spec() == sst_views(staging_ssts@),
            r.committed_epoch_spec() == committed_epoch,
            r.local_sealed_epoch_spec() == committed_epoch,
            r.is_replicated_spec() == is_replicated,
            r.vnodes_spec() == vnodes.bits@,
    {
        HummockReadVersion {
            table_id,
            instance_id,
            is_replicated,
            vnodes,
            imms,
            staging_ssts,
            committed_epoch,
            local_sealed_epoch: committed_epoch,
        }
    }

    /// The staged memtable at `i`, newest first.
    pub fn imm_at(&self, i: usize) -> (r: &ImmutableMemtable)
        requires
            i < self.imms_spec().len(),
        ensures
            r@ == self.imms_spec()[i as int],
    {
        &self.imms[i]
    }

    /// The staged file at `i`, newest first.
    pub fn staging_sst_at(&self, i: usize) -> (r: &FlushedSst)
        requires
            i < self.staging_ssts_spec().len(),
        ensures
            r@ == self.staging_ssts_spec()[i as int],
    {
        &self.staging_ssts[i]
    }

    pub fn table_id(&self) -> (r: u32)
        ensures
            r == self.table_id_spec(),
    {
        self.table_id
    }

    pub fn instance_id(&self) -> (r: u64)
        ensures
            r == self.instance_id_spec(),
    {
        self.instance_id
    }

    pub closed spec fn is_replicated_spec(&self) -> bool {
        self.is_replicated
    }

    pub closed spec fn vnodes_spec(&self) -> Seq<bool> {
        self.vnodes.bits@
    }

    pub fn is_replicated(&self) -> (r: bool)
        ensures
            r == self.is_replicated_spec(),
    {
        self.is_replicated
    }

    pub fn vnodes(&self) -> (r: &Bitmap)
        ensures
            r.bits@ == self.vnodes_spec(),
    {
        &self.vnodes
    }

    pub fn committed_epoch(&self) -> (r: u64)
        ensures
            r == self.committed_epoch_spec(),
    {
        self.committed_epoch
    }

    pub fn local_sealed_epoch(&self) -> (r: u64)
        ensures
            r == self.local_sealed_epoch_spec(),
    {
        self.local_sealed_epoch
    }

    pub fn imm_count(&self) -> (r: usize)
        ensures
            r == self.imms_spec().len(),
    {
        self.imms.len()
    }

    pub fn staging_sst_count(&self) -> (r: usize)
        ensures
            r == self.staging_ssts_spec().len(),
    {
        self.staging_ssts.len()
    }

    /// Stages a new memtable as the newest one.
    pub fn add_imm(&mut self, imm: ImmutableMemtable)
        ensures
            final(self).imms_spec() == seq![imm@] + old(self).imms_spec(),
            final(self).staging_ssts_spec() == old(self).staging_ssts_spec(),
            final(self).table_id_spec() == old(self).table_id_spec(),
            final(self).instance_id_spec() == old(self).instance_id_spec(),
            final(self).committed_epoch_spec() == old(self).committed_epoch_spec(),
            final(self).local_sealed_epoch_spec() == old(self).local_sealed_epoch_spec(),
    {
        self.imms.insert(0, imm);
        assert(self.imms_spec() =~= seq![imm@] + old(self).imms_spec());
    }

    /// Closes the instance's local epoch at `epoch`.
    pub fn local_seal_epoch(&mut self, epoch: u64)
        ensures
            final(self).local_sealed_epoch_spec() == epoch,
            final(self).imms_spec() == old(self).imms_spec(),
            final(self).staging_ssts_spec() == old(self).staging_ssts_spec(),
            final(self).table_id_spec() == old(self).table_id_spec(),
            final(self).instance_id_spec() == old(self).instance_id_spec(),
            final(self).committed_epoch_spec() == old(self).committed_epoch_spec(),
    {
        self.local_sealed_epoch = epoch;
    }

    /// Replaces the memtables that `sst` was flushed from by `sst`, staged
    /// as the newest file.
    pub fn add_staging_sst(&mut self, sst: FlushedSst)
        ensures
            final(self).imms_spec() == old(self).imms_spec().filter(
                |m: ImmModel| !sst@.2.contains(m.0),
            ),
            final(self).staging_ssts_spec() == seq![sst@] + old(self).staging_ssts_spec(),
            final(self).table_id_spec() == old(self).table_id_spec(),
            final(self).instance_id_spec() == old(self).instance_id_spec(),
            final(self).committed_epoch_spec() == old(self).committed_epoch_spec(),
            final(self).local_sealed_epoch_spec() == old(self).local_sealed_epoch_spec(),
    {
        let ghost pred = |m: ImmModel| !sst@.2.contains(m.0);
        let mut kept: Vec<ImmutableMemtable> = Vec::new();
        let mut i: usize = 0;
        while i < self.imms.len()
            invariant
                i <= self.imms@.len(),
                imm_views(self.imms@) == old(self).imms_spec(),
                pred == (|m: ImmModel| !sst@.2.contains(m.0)),
                imm_views(kept@) == imm_views(self.imms@.subrange(0, i as int)).filter(pred),
            decreases self.imms@.len() - i,
        {
            let id = self.imms[i].imm_id;
            let contained = contains_id(&sst.imm_ids, id);
            let ghost prev = imm_views(kept@);
            if !contained {
                kept.push(self.imms[i].duplicate());
            }
            proof {
                let s = imm_views(self.imms@.subrange(0, i + 1));
                assert(s.drop_last() =~= imm_views(self.imms@.subrange(0, i as int)));
                assert(s.last() == self.imms@[i as int]@);
                reveal(Seq::filter);
                assert(s.filter(pred) == (if pred(s.last()) {
                    s.drop_last().filter(pred).push(s.last())
                } else {
                    s.drop_last().filter(pred)
                }));
                if !contained {
                    assert(imm_views(kept@) =~= prev.push(self.imms@[i as int]@));
                } else {
                    assert(imm_views(kept@) =~= prev);
                }
            }
            i = i + 1;
        }
        assert(self.imms@.subrange(0, self.imms@.len() as int) =~= self.imms@);
        self.imms = kept;
        self.staging_ssts.insert(0, sst);
        assert(self.staging_ssts_spec() =~= seq![sst@] + old(self).staging_ssts_spec());
    }

    /// Drops what the persisted version now covers: memtables of epochs up
    /// to `epoch`, and files whose newest epoch is at most `epoch`.
    pub fn apply_committed_epoch(&mut self, epoch: u64)
        ensures
            final(self).committed_epoch_spec() == epoch,
            final(self).imms_spec() == old(self).imms_spec().filter(|m: ImmModel| m.3 > epoch),
            final(self).staging_ssts_spec() == old(self).staging_ssts_spec().filter(
                |f: SstModel| f.0.max_epoch > epoch,
            ),
            final(self).table_id_spec() == old(self).table_id_spec(),
            final(self).instance_id_spec() == old(self).instance_id_spec(),
            final(self).local_sealed_epoch_spec() == old(self).local_sealed_epoch_spec(),
    {
        let ghost ipred = |m: ImmModel| m.3 > epoch;
        let ghost spred = |f: SstModel| f.0.max_epoch > epoch;
        let mut kept: Vec<ImmutableMemtable> = Vec::new();
        let mut i: usize = 0;
        while i < self.imms.len()
            invariant
                i <= self.imms@.len(),
                imm_views(self.imms@) == old(self).imms_spec(),
                ipred == (|m: ImmModel| m.3 > epoch),
                imm_views(kept@) == imm_views(self.imms@.subrange(0, i as int)).filter(ipred),
            decreases self.imms@.len() - i,
        {
            let ghost prev = imm_views(kept@);
            if self.imms[i].epoch > epoch {
                kept.push(self.imms[i].duplicate());
            }
            proof {
                let s = imm_views(self.imms@.subrange(0, i + 1));
                assert(s.drop_last() =~= imm_views(self.imms@.subrange(0, i as int)));
                assert(s.last() == self.imms@[i as int]@);
                reveal(Seq::filter);
                assert(s.filter(ipred) == (if ipred(s.last()) {
                    s.drop_last().filter(ipred).push(s.last())
                } else {
                    s.drop_last().filter(ipred)
                }));
                if self.imms@[i as int].epoch > epoch {
                    assert(imm_views(kept@) =~= prev.push(self.imms@[i as int]@));
                } else {
                    assert(imm_views(kept@) =~= prev);
                }
            }
            i = i + 1;
        }
        assert(self.imms@.subrange(0, self.imms@.len() as int) =~= self.imms@);
        self.imms = kept;
        let mut kept_ssts: Vec<FlushedSst> = Vec::new();
        let mut j: usize = 0;
        while j < self.staging_ssts.len()
            invariant
                j <= self.staging_ssts@.len(),
                sst_views(self.staging_ssts@) == old(self).staging_ssts_spec(),
                spred == (|f: SstModel| f.0.max_epoch > epoch),
                sst_views(kept_ssts@) == sst_views(self.staging_ssts@.subrange(0, j as int)).filter(
                    spred,
                ),
            decreases self.staging_ssts@.len() - j,
        {
            let ghost prev = sst_views(kept_ssts@);
            if self.staging_ssts[j].info.max_epoch > epoch {
                kept_ssts.push(self.staging_ssts[j].duplicate());
            }
            proof {
                let s = sst_views(self.staging_ssts@.subrange(0, j + 1));
                assert(s.drop_last() =~= sst_views(self.staging_ssts@.subrange(0, j as int)));
                assert(s.last() == self.staging_ssts@[j as int]@);
                reveal(Seq::filter);
                assert(s.filter(spred) == (if spred(s.last()) {
                    s.drop_last().filter(spred).push(s.last())
                } else {
                    s.drop_last().filter(spred)
                }));
                if self.staging_ssts@[j as int].info.max_epoch > epoch {
                    assert(sst_views(kept_ssts@) =~= prev.push(self.staging_ssts@[j as int]@));
                } else {
                    assert(sst_views(kept_ssts@) =~= prev);
                }
            }
            j = j + 1;
        }
        assert(self.staging_ssts@.subrange(0, self.staging_ssts@.len() as int) =~= self.staging_ssts@);
        self.staging_ssts = kept_ssts;
        self.committed_epoch = epoch;
    }

    /// Drops every staged memtable and file, keeping the committed epoch.
    pub fn clear_staging(&mut self)
        ensures
            final(self).imms_spec() == Seq::<ImmModel>::empty(),
            final(self).staging_ssts_spec() == Seq::<SstModel>::empty(),
            final(self).table_id_spec() == old(self).table_id_spec(),
            final(self).instance_id_spec() == old(self).instance_id_spec(),
            final(self).committed_epoch_spec() == old(self).committed_epoch_spec(),
            final(self).local_sealed_epoch_spec() == old(self).local_sealed_epoch_spec(),
    {
        self.imms = Vec::new();
        self.staging_ssts = Vec::new();
        assert(self.imms_spec() =~= Seq::<ImmModel>::empty());
        assert(self.staging_ssts_spec() =~= Seq::<SstModel>::empty());
    }

    /// Every version of `key` visible to a read at `read_epoch` over
    /// `version`, each once, in lookup order.
    pub fn row_versions(&self, version: &HummockVersion, key: u64, read_epoch: u64) -> (r: Vec<
        (u64, u64),
    >)
        ensures
            r@ == self.versions(sst_views(version.ssts@), key, read_epoch),
    {
        let mut out: Vec<(u64, u64)> = Vec::new();
        let mut i: usize = 0;
        while i < self.imms.len()
            invariant
                i <= self.imms@.len(),
                out@ == imm_versions(imm_views(self.imms@.subrange(0, i as int)), key, read_epoch),
            decreases self.imms@.len() - i,
        {
            let imm = &self.imms[i];
            if imm.epoch <= read_epoch {
                push_rows_versions(&mut out, &imm.rows, key, imm.epoch);
            }
            proof {
                let s = imm_views(self.imms@.subrange(0, i + 1));
                assert(s.drop_last() =~= imm_views(self.imms@.subrange(0, i as int)));
                assert(s.last() == self.imms@[i as int]@);
            }
            i = i + 1;
            assert(out@ =~= imm_versions(
                imm_views(self.imms@.subrange(0, i as int)),
                key,
                read_epoch,
            ));
        }
        assert(self.imms@.subrange(0, self.imms@.len() as int) =~= self.imms@);
        push_ssts_versions(&mut out, &self.staging_ssts, self.table_id, key, read_epoch);
        push_ssts_versions(&mut out, &version.ssts, self.table_id, key, read_epoch);
        out
    }

    /// Range lookup: every key in `[lo, hi]` with a version visible at
    /// `read_epoch` over `version`, ascending, each with the value of its
    /// newest version.
    #[verifier::rlimit(60)]
    pub fn range(&self, version: &HummockVersion, lo: u64, hi: u64, read_epoch: u64) -> (r: Vec<
        (u64, u64),
    >)
        ensures
            strictly_ascending_keys(r@),
            forall|i: int|
                0 <= i < r@.len() ==> lo <= (#[trigger] r@[i]).0 <= hi && is_newest(
                    self.versions(sst_views(version.ssts@), r@[i].0, read_epoch),
                    Some(r@[i].1),
                ),
            forall|k: u64|
                lo <= k <= hi && #[trigger] self.versions(
                    sst_views(version.ssts@),
                    k,
                    read_epoch,
                ).len() > 0 ==> exists|i: int| 0 <= i < r@.len() && (#[trigger] r@[i]).0 == k,
    {
        let mut keys: Vec<u64> = Vec::new();
        let mut i: usize = 0;
        while i < self.imms.len()
            invariant
                i <= self.imms@.len(),
                strictly_ascending(keys@),
                forall|q: int| 0 <= q < keys@.len() ==> lo <= #[trigger] keys@[q] <= hi,
                forall|k: u64, q: int|
                    0 <= q < i && lo <= k <= hi && #[trigger] imm_has_key(imm_views(self.imms@)[q], k)
                        ==> keys@.contains(k),
            decreases self.imms@.len() - i,
        {
            collect_row_keys(&mut keys, &self.imms[i].rows, lo, hi);
            proof {
                assert forall|k: u64, q: int|
                    0 <= q < i + 1 && lo <= k <= hi && #[trigger] imm_has_key(imm_views(self.imms@)[q], k)
                        implies keys@.contains(k) by {
                    if q == i {
                        let j = choose|j: int|
                            0 <= j < imm_views(self.imms@)[q].5.len() && (#[trigger] imm_views(self.imms@)[q].5[j]).key == k;
                        assert(self.imms@[q].rows@[j].key == k);
                    }
                }
            }
            i = i + 1;
        }
        collect_ssts_keys(&mut keys, &self.staging_ssts, lo, hi);
        collect_ssts_keys(&mut keys, &version.ssts, lo, hi);
        let ghost vs = sst_views(version.ssts@);
        proof {
            assert forall|k: u64|
                lo <= k <= hi && #[trigger] self.versions(vs, k, read_epoch).len() > 0 implies keys@.contains(k) by {
                let a = imm_versions(self.imms_spec(), k, read_epoch);
                let b = ssts_versions(self.staging_ssts_spec(), self.table_id, k, read_epoch);
                let c = ssts_versions(vs, self.table_id, k, read_epoch);
                if a.len() > 0 {
                    lemma_imm_versions_key(self.imms_spec(), k, read_epoch);
                } else if b.len() > 0 {
                    lemma_ssts_versions_key(self.staging_ssts_spec(), self.table_id, k, read_epoch);
                } else {
                    assert(c.len() > 0);
                    lemma_ssts_versions_key(vs, self.table_id, k, read_epoch);
                }
            }
        }
        let mut out: Vec<(u64, u64)> = Vec::new();
        let mut p: usize = 0;
        while p < keys.len()
            invariant
                p <= keys@.len(),
                strictly_ascending(keys@),
                vs == sst_views(version.ssts@),
                forall|k: u64|
                    lo <= k <= hi && #[trigger] self.versions(vs, k, read_epoch).len() > 0
                        ==> keys@.contains(k),
                forall|q: int| 0 <= q < keys@.len() ==> lo <= #[trigger] keys@[q] <= hi,
                strictly_ascending_keys(out@),
                forall|q: int|
                    0 <= q < out@.len() ==> exists|w: int|
                        0 <= w < p && (#[trigger] out@[q]).0 == keys@[w],
                forall|q: int|
                    0 <= q < out@.len() ==> lo <= (#[trigger] out@[q]).0 <= hi && is_newest(
                        self.versions(vs, out@[q].0, read_epoch),
                        Some(out@[q].1),
                    ),
                forall|w: int|
                    0 <= w < p && self.versions(vs, keys@[w], read_epoch).len() > 0 ==> exists|
                        q: int,
                    | 0 <= q < out@.len() && (#[trigger] out@[q]).0 == keys@[w],
            decreases keys@.len() - p,
        {
            let k = keys[p];
            let versions = self.row_versions(version, k, read_epoch);
            if versions.len() > 0 {
                let v = newest_value(&versions).unwrap();
                let ghost prev = out@;
                out.push((k, v));
                proof {
                    assert forall|a: int, b: int| 0 <= a < b < out@.len() implies out@[a].0 < out@[b].0 by {
                        if b == prev.len() {
                            let w = choose|w: int| 0 <= w < p && (#[trigger] prev[a]).0 == keys@[w];
                            assert(out@[a] == prev[a]);
                        } else {
                            assert(out@[a] == prev[a] && out@[b] == prev[b]);
                        }
                    }
                    assert forall|q: int| 0 <= q < out@.len() implies exists|w: int|
                        0 <= w < p + 1 && (#[trigger] out@[q]).0 == keys@[w] by {
                        if q < prev.len() {
                            assert(out@[q] == prev[q]);
                            let w = choose|w: int| 0 <= w < p && (#[trigger] prev[q]).0 == keys@[w];
                        } else {
                            assert(out@[q].0 == keys@[p as int]);
                        }
                    }
                    assert forall|q: int| 0 <= q < out@.len() implies lo <= (#[trigger] out@[q]).0 <= hi && is_newest(
                        self.versions(vs, out@[q].0, read_epoch),
                        Some(out@[q].1),
                    ) by {
                        if q < prev.len() {
                            assert(out@[q] == prev[q]);
                        }
                    }
                    assert forall|w: int|
                        0 <= w < p + 1 && self.versions(vs, keys@[w], read_epoch).len() > 0 implies exists|q: int|
                        0 <= q < out@.len() && (#[trigger] out@[q]).0 == keys@[w] by {
                        if w < p {
                            let q = choose|q: int| 0 <= q < prev.len() && (#[trigger] prev[q]).0 == keys@[w];
                            assert(out@[q] == prev[q]);
                        } else {
                            assert(out@[prev.len() as int].0 == keys@[w]);
                        }
                    }
                }
            }
            p = p + 1;
        }
        proof {
            assert forall|k: u64|
                lo <= k <= hi && #[trigger] self.versions(vs, k, read_epoch).len() > 0 implies exists|i: int|
                0 <= i < out@.len() && (#[trigger] out@[i]).0 == k by {
                let w = choose|w: int| 0 <= w < keys@.len() && keys@[w] == k;
                assert(self.versions(vs, keys@[w], read_epoch).len() > 0);
            }
        }
        out
    }

    /// Point lookup: the value of the newest version of `key` visible at
    /// `read_epoch`, most recent write winning across memtables and files.
    pub fn get(&self, version: &HummockVersion, key: u64, read_epoch: u64) -> (r: Option<u64>)
        ensures
            is_newest(self.versions(sst_views(version.ssts@), key, read_epoch), r),
    {
        let vs = self.row_versions(version, key, read_epoch);
        newest_value(&vs)
    }
}

/// Whether some row of memtable `m` writes `key`.
pub open spec fn imm_has_key(m: ImmModel, key: u64) -> bool {
    exists|j: int| 0 <= j < m.5.len() && (#[trigger] m.5[j]).key == key
}

/// Whether some row of file `f` writes `key`.
pub open spec fn sst_has_key(f: SstModel, key: u64) -> bool {
    exists|j: int| 0 <= j < f.1.len() && (#[trigger] f.1[j]).key == key
}

pub open spec fn strictly_ascending(s: Seq<u64>) -> bool {
    forall|i: int, j: int| 0 <= i < j < s.len() ==> s[i] < s[j]
}

pub open spec fn strictly_ascending_keys(s: Seq<(u64, u64)>) -> bool {
    forall|i: int, j: int| 0 <= i < j < s.len() ==> s[i].0 < s[j].0
}

proof fn lemma_rows_versions_key(rows: Seq<KeyedRow>, key: u64, epoch: u64)
    requires
        rows_versions(rows, key, epoch).len() > 0,
    ensures
        exists|j: int| 0 <= j < rows.len() && (#[trigger] rows[j]).key == key,
    decreases rows.len(),
{
    if rows.last().key != key {
        lemma_rows_versions_key(rows.drop_last(), key, epoch);
        let j = choose|j: int| 0 <= j < rows.drop_last().len() && (#[trigger] rows.drop_last()[j]).key == key;
        assert(rows[j] == rows.drop_last()[j]);
    } else {
        assert(rows[rows.len() - 1].key == key);
    }
}

proof fn lemma_imm_versions_key(imms: Seq<ImmModel>, key: u64, read_epoch: u64)
    requires
        imm_versions(imms, key, read_epoch).len() > 0,
    ensures
        exists|i: int| 0 <= i < imms.len() && imm_has_key(#[trigger] imms[i], key),
    decreases imms.len(),
{
    let last_part = if imms.last().3 <= read_epoch {
        rows_versions(imms.last().5, key, imms.last().3)
    } else {
        Seq::empty()
    };
    if last_part.len() > 0 {
        lemma_rows_versions_key(imms.last().5, key, imms.last().3);
        assert(imm_has_key(imms[imms.len() - 1], key));
    } else {
        lemma_imm_versions_key(imms.drop_last(), key, read_epoch);
        let i = choose|i: int| 0 <= i < imms.drop_last().len() && imm_has_key(#[trigger] imms.drop_last()[i], key);
        assert(imms[i] == imms.drop_last()[i]);
    }
}

proof fn lemma_sst_rows_versions_key(rows: Seq<SstRow>, table: u32, key: u64, read_epoch: u64)
    requires
        sst_rows_versions(rows, table, key, read_epoch).len() > 0,
    ensures
        exists|j: int| 0 <= j < rows.len() && (#[trigger] rows[j]).key == key,
    decreases rows.len(),
{
    let r = rows.last();
    if r.table_id == table && r.key == key && r.epoch <= read_epoch {
        assert(rows[rows.len() - 1].key == key);
    } else {
        lemma_sst_rows_versions_key(rows.drop_last(), table, key, read_epoch);
        let j = choose|j: int| 0 <= j < rows.drop_last().len() && (#[trigger] rows.drop_last()[j]).key == key;
        assert(rows[j] == rows.drop_last()[j]);
    }
}

proof fn lemma_ssts_versions_key(ssts: Seq<SstModel>, table: u32, key: u64, read_epoch: u64)
    requires
        ssts_versions(ssts, table, key, read_epoch).len() > 0,
    ensures
        exists|i: int| 0 <= i < ssts.len() && sst_has_key(#[trigger] ssts[i], key),
    decreases ssts.len(),
{
    if sst_rows_versions(ssts.last().1, table, key, read_epoch).len() > 0 {
        lemma_sst_rows_versions_key(ssts.last().1, table, key, read_epoch);
        assert(sst_has_key(ssts[ssts.len() - 1], key));
    } else {
        lemma_ssts_versions_key(ssts.drop_last(), table, key, read_epoch);
        let i = choose|i: int| 0 <= i < ssts.drop_last().len() && sst_has_key(#[trigger] ssts.drop_last()[i], key);
        assert(ssts[i] == ssts.drop_last()[i]);
    }
}

/// Adds `k` to an ascending list of distinct keys.
fn insert_key(keys: &mut Vec<u64>, k: u64)
    requires
        strictly_ascending(old(keys)@),
    ensures
        strictly_ascending(final(keys)@),
        forall|x: u64| final(keys)@.contains(x) <==> (old(keys)@.contains(x) || x == k),
{
    let mut p: usize = 0;
    while p < keys.len() && keys[p] < k
        invariant
            p <= keys@.len(),
            keys@ == old(keys)@,
            forall|j: int| 0 <= j < p ==> keys@[j] < k,
        decreases keys@.len() - p,
    {
        p = p + 1;
    }
    if p < keys.len() && keys[p] == k {
        return;
    }
    let ghost s = keys@;
    keys.insert(p, k);
    proof {
        let t = keys@;
        assert(t =~= s.subrange(0, p as int).push(k) + s.subrange(p as int, s.len() as int));
        assert forall|i: int, j: int| 0 <= i < j < t.len() implies t[i] < t[j] by {
            if j < p {
                assert(t[i] == s[i] && t[j] == s[j]);
            } else if j == p {
                assert(t[i] == s[i]);
            } else if i < p {
                assert(t[i] == s[i] && t[j] == s[j - 1]);
                assert(s[j - 1] >= k);
            } else if i == p {
                assert(t[j] == s[j - 1]);
                assert(s[j - 1] >= k);
                assert(s[p as int] > k);
                if j - 1 > p {
                    assert(s[p as int] < s[j - 1]);
                }
            } else {
                assert(t[i] == s[i - 1] && t[j] == s[j - 1]);
            }
        }
        assert forall|x: u64| t.contains(x) <==> (s.contains(x) || x == k) by {
            if t.contains(x) {
                let i = choose|i: int| 0 <= i < t.len() && t[i] == x;
                if i < p {
                    assert(s[i] == x);
                } else if i > p {
                    assert(s[i - 1] == x);
                }
            }
            if s.contains(x) {
                let i = choose|i: int| 0 <= i < s.len() && s[i] == x;
                if i < p {
                    assert(t[i] == x);
                } else {
                    assert(t[i + 1] == x);
                }
            }
            if x == k {
                assert(t[p as int] == k);
            }
        }
    }
}

/// Adds to `keys` every key in `[lo, hi]` of `rows`.
fn collect_row_keys(keys: &mut Vec<u64>, rows: &Vec<KeyedRow>, lo: u64, hi: u64)
    requires
        strictly_ascending(old(keys)@),
        forall|q: int| 0 <= q < old(keys)@.len() ==> lo <= #[trigger] old(keys)@[q] <= hi,
    ensures
        strictly_ascending(final(keys)@),
        forall|q: int| 0 <= q < final(keys)@.len() ==> lo <= #[trigger] final(keys)@[q] <= hi,
        forall|x: u64| old(keys)@.contains(x) ==> final(keys)@.contains(x),
        forall|j: int|
            0 <= j < rows@.len() && lo <= (#[trigger] rows@[j]).key <= hi ==> final(keys)@.contains(
                rows@[j].key,
            ),
{
    let mut j: usize = 0;
    while j < rows.len()
        invariant
            j <= rows@.len(),
            strictly_ascending(keys@),
            forall|q: int| 0 <= q < keys@.len() ==> lo <= #[trigger] keys@[q] <= hi,
            forall|x: u64| old(keys)@.contains(x) ==> keys@.contains(x),
            forall|q: int|
                0 <= q < j && lo <= (#[trigger] rows@[q]).key <= hi ==> keys@.contains(rows@[q].key),
        decreases rows@.len() - j,
    {
        let k = rows[j].key;
        if lo <= k && k <= hi {
            let ghost before = keys@;
            insert_key(keys, k);
            proof {
                assert forall|q: int| 0 <= q < keys@.len() implies lo <= #[trigger] keys@[q] <= hi by {
                    assert(keys@.contains(keys@[q]));
                    if before.contains(keys@[q]) {
                        let w = choose|w: int| 0 <= w < before.len() && before[w] == keys@[q];
                        assert(lo <= before[w] <= hi);
                    }
                }
            }
        }
        j = j + 1;
    }
}

/// Adds to `keys` every key in `[lo, hi]` of `rows`.
fn collect_sst_keys(keys: &mut Vec<u64>, rows: &Vec<SstRow>, lo: u64, hi: u64)
    requires
        strictly_ascending(old(keys)@),
        forall|q: int| 0 <= q < old(keys)@.len() ==> lo <= #[trigger] old(keys)@[q] <= hi,
    ensures
        strictly_ascending(final(keys)@),
        forall|q: int| 0 <= q < final(keys)@.len() ==> lo <= #[trigger] final(keys)@[q] <= hi,
        forall|x: u64| old(keys)@.contains(x) ==> final(keys)@.contains(x),
        forall|j: int|
            0 <= j < rows@.len() && lo <= (#[trigger] rows@[j]).key <= hi ==> final(keys)@.contains(
                rows@[j].key,
            ),
{
    let mut j: usize = 0;
    while j < rows.len()
        invariant
            j <= rows@.len(),
            strictly_ascending(keys@),
            forall|q: int| 0 <= q < keys@.len() ==> lo <= #[trigger] keys@[q] <= hi,
            forall|x: u64| old(keys)@.contains(x) ==> keys@.contains(x),
            forall|q: int|
                0 <= q < j && lo <= (#[trigger] rows@[q]).key <= hi ==> keys@.contains(rows@[q].key),
        decreases rows@.len() - j,
    {
        let k = rows[j].key;
        if lo <= k && k <= hi {
            let ghost before = keys@;
            insert_key(keys, k);
            proof {
                assert forall|q: int| 0 <= q < keys@.len() implies lo <= #[trigger] keys@[q] <= hi by {
                    assert(keys@.contains(keys@[q]));
                    if before.contains(keys@[q]) {
                        let w = choose|w: int| 0 <= w < before.len() && before[w] == keys@[q];
                        assert(lo <= before[w] <= hi);
                    }
                }
            }
        }
        j = j + 1;
    }
}

/// Adds to `keys` every key in `[lo, hi]` written by one of `ssts`.
fn collect_ssts_keys(keys: &mut Vec<u64>, ssts: &Vec<FlushedSst>, lo: u64, hi: u64)
    requires
        strictly_ascending(old(keys)@),
        forall|q: int| 0 <= q < old(keys)@.len() ==> lo <= #[trigger] old(keys)@[q] <= hi,
    ensures
        strictly_ascending(final(keys)@),
        forall|q: int| 0 <= q < final(keys)@.len() ==> lo <= #[trigger] final(keys)@[q] <= hi,
        forall|x: u64| old(keys)@.contains(x) ==> final(keys)@.contains(x),
        forall|k: u64|
            lo <= k <= hi && (exists|i: int|
                0 <= i < ssts@.len() && #[trigger] sst_has_key(sst_views(ssts@)[i], k))
                ==> final(keys)@.contains(k),
{
    let mut i: usize = 0;
    while i < ssts.len()
        invariant
            i <= ssts@.len(),
            strictly_ascending(keys@),
            forall|q: int| 0 <= q < keys@.len() ==> lo <= #[trigger] keys@[q] <= hi,
            forall|x: u64| old(keys)@.contains(x) ==> keys@.contains(x),
            forall|k: u64, q: int|
                0 <= q < i && lo <= k <= hi && #[trigger] sst_has_key(sst_views(ssts@)[q], k)
                    ==> keys@.contains(k),
        decreases ssts@.len() - i,
    {
        collect_sst_keys(keys, &ssts[i].rows, lo, hi);
        proof {
            assert forall|k: u64, q: int|
                0 <= q < i + 1 && lo <= k <= hi && #[trigger] sst_has_key(sst_views(ssts@)[q], k)
                    implies keys@.contains(k) by {
                if q == i {
                    let j = choose|j: int|
                        0 <= j < sst_views(ssts@)[q].1.len() && (#[trigger] sst_views(ssts@)[q].1[j]).key == k;
                    assert(ssts@[q].rows@[j].key == k);
                }
            }
        }
        i = i + 1;
    }
}

/// Whether `id` is among `ids`.
pub fn contains_id(ids: &Vec<u64>, id: u64) -> (r: bool)
    ensures
        r == ids@.contains(id),
{
    let mut i: usize = 0;
    while i < ids.len()
        invariant
            i <= ids@.len(),
            forall|j: int| 0 <= j < i ==> ids@[j] != id,
        decreases ids@.len() - i,
    {
        if ids[i] == id {
            assert(ids@[i as int] == id);
            return true;
        }
        i = i + 1;
    }
    false
}

} // verus!
