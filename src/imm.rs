use vstd::prelude::*;

use crate::sstable::{copy_vec, SstRow, SstableInfo};

verus! {

/// One write of a memtable: a key and its new value.
#[derive(Clone, Copy, Debug, PartialEq, Eq, Structural)]
pub struct KeyedRow {
    pub key: u64,
    pub value: u64,
}

/// A frozen batch of writes of one table instance at one epoch.
pub struct ImmutableMemtable {
    pub imm_id: u64,
    pub table_id: u32,
    pub instance_id: u64,
    pub epoch: u64,
    /// Estimated memory size, in bytes.
    pub size: u64,
    pub rows: Vec<KeyedRow>,
}

/// Identity, table, instance, epoch, size and rows of a memtable.
pub type ImmModel = (u64, u32, u64, u64, u64, Seq<KeyedRow>);

impl View for ImmutableMemtable {
    type V = ImmModel;

    open spec fn view(&self) -> ImmModel {
        (self.imm_id, self.table_id, self.instance_id, self.epoch, self.size, self.rows@)
    }
}

impl ImmutableMemtable {
    /// An equal memtable.
    pub fn duplicate(&self) -> (r: Self)
        ensures
            r@ == self@,
    {
        ImmutableMemtable {
            imm_id: self.imm_id,
            table_id: self.table_id,
            instance_id: self.instance_id,
            epoch: self.epoch,
            size: self.size,
            rows: copy_vec(&self.rows),
        }
    }
}

/// A durable file with its rows and the memtables it was written from.
pub struct FlushedSst {
    pub info: SstableInfo,
    pub rows: Vec<SstRow>,
    pub imm_ids: Vec<u64>,
}

/// Metadata, rows and source memtables of a durable file.
pub type SstModel = (SstableInfo, Seq<SstRow>, Seq<u64>);

impl View for FlushedSst {
    type V = SstModel;

    open spec fn view(&self) -> SstModel {
        (self.info, self.rows@, self.imm_ids@)
    }
}

impl FlushedSst {
    /// An equal file.
    pub fn duplicate(&self) -> (r: Self)
        ensures
            r@ == self@,
    {
        FlushedSst {
            info: self.info,
            rows: copy_vec(&self.rows),
            imm_ids: copy_vec(&self.imm_ids),
        }
    }
}

/// Views of a sequence of memtables.
pub open spec fn imm_views(s: Seq<ImmutableMemtable>) -> Seq<ImmModel> {
    s.map_values(|i: ImmutableMemtable| i@)
}

/// Views of a sequence of files.
pub open spec fn sst_views(s: Seq<FlushedSst>) -> Seq<SstModel> {
    s.map_values(|f: FlushedSst| f@)
}

fn rows_equal(a: &Vec<KeyedRow>, b: &Vec<KeyedRow>) -> (r: bool)
    ensures
        r == (a@ == b@),
{
    if a.len() != b.len() {
        return false;
    }
    let mut i: usize = 0;
    while i < a.len()
        invariant
            i <= a@.len(),
            a@.len() == b@.len(),
            forall|j: int| 0 <= j < i ==> a@[j] == b@[j],
        decreases a@.len() - i,
    {
        if a[i] != b[i] {
            return false;
        }
        i = i + 1;
    }
    assert(a@ =~= b@);
    true
}

fn sst_rows_equal(a: &Vec<SstRow>, b: &Vec<SstRow>) -> (r: bool)
    ensures
        r == (a@ == b@),
{
    if a.len() != b.len() {
        return false;
    }
    let mut i: usize = 0;
    while i < a.len()
        invariant
            i <= a@.len(),
            a@.len() == b@.len(),
            forall|j: int| 0 <= j < i ==> a@[j] == b@[j],
        decreases a@.len() - i,
    {
        if a[i] != b[i] {
            return false;
        }
        i = i + 1;
    }
    assert(a@ =~= b@);
    true
}

fn ids_equal(a: &Vec<u64>, b: &Vec<u64>) -> (r: bool)
    ensures
        r == (a@ == b@),
{
    if a.len() != b.len() {
        return false;
    }
    let mut i: usize = 0;
    while i < a.len()
        invariant
            i <= a@.len(),
            a@.len() == b@.len(),
            forall|j: int| 0 <= j < i ==> a@[j] == b@[j],
        decreases a@.len() - i,
    {
        if a[i] != b[i] {
            return false;
        }
        i = i + 1;
    }
    assert(a@ =~= b@);
    true
}

impl ImmutableMemtable {
    /// Whether both memtables are the same.
    pub fn same_as(&self, other: &Self) -> (r: bool)
        ensures
            r == (self@ == other@),
    {
        self.imm_id == other.imm_id && self.table_id == other.table_id && self.instance_id
            == other.instance_id && self.epoch == other.epoch && self.size == other.size
            && rows_equal(&self.rows, &other.rows)
    }
}

impl FlushedSst {
    /// Whether both files are the same.
    pub fn same_as(&self, other: &Self) -> (r: bool)
        ensures
            r == (self@ == other@),
    {
        self.info == other.info && sst_rows_equal(&self.rows, &other.rows) && ids_equal(
            &self.imm_ids,
            &other.imm_ids,
        )
    }
}

/// Appends a copy of `m` to `v` unless `v` already holds the same one.
pub fn push_imm_once(v: &mut Vec<ImmutableMemtable>, m: &ImmutableMemtable)
    ensures
        imm_views(final(v)@).contains(m@),
        forall|x: ImmModel| imm_views(old(v)@).contains(x) ==> imm_views(final(v)@).contains(x),
        forall|x: ImmModel|
            imm_views(final(v)@).contains(x) ==> imm_views(old(v)@).contains(x) || x == m@,
{
    let mut i: usize = 0;
    while i < v.len()
        invariant
            i <= v@.len(),
            forall|j: int| 0 <= j < i ==> v@[j]@ != m@,
        decreases v@.len() - i,
    {
        if v[i].same_as(m) {
            assert(imm_views(v@)[i as int] == m@);
            return;
        }
        i = i + 1;
    }
    let ghost prev = imm_views(v@);
    v.push(m.duplicate());
    assert(imm_views(v@) =~= prev.push(m@));
    assert(imm_views(v@)[prev.len() as int] == m@);
    assert forall|x: ImmModel| prev.contains(x) implies imm_views(v@).contains(x) by {
        let j = choose|j: int| 0 <= j < prev.len() && prev[j] == x;
        assert(imm_views(v@)[j] == x);
    }
    assert forall|x: ImmModel| imm_views(v@).contains(x) implies prev.contains(x) || x == m@ by {
        let j = choose|j: int| 0 <= j < imm_views(v@).len() && imm_views(v@)[j] == x;
        if j < prev.len() {
            assert(prev[j] == x);
        }
    }
}

/// Appends a copy of `f` to `v` unless `v` already holds the same one.
pub fn push_sst_once(v: &mut Vec<FlushedSst>, f: &FlushedSst)
    ensures
        sst_views(final(v)@).contains(f@),
        forall|x: SstModel| sst_views(old(v)@).contains(x) ==> sst_views(final(v)@).contains(x),
        forall|x: SstModel|
            sst_views(final(v)@).contains(x) ==> sst_views(old(v)@).contains(x) || x == f@,
{
    let mut i: usize = 0;
    while i < v.len()
        invariant
            i <= v@.len(),
            forall|j: int| 0 <= j < i ==> v@[j]@ != f@,
        decreases v@.len() - i,
    {
        if v[i].same_as(f) {
            assert(sst_views(v@)[i as int] == f@);
            return;
        }
        i = i + 1;
    }
    let ghost prev = sst_views(v@);
    v.push(f.duplicate());
    assert(sst_views(v@) =~= prev.push(f@));
    assert(sst_views(v@)[prev.len() as int] == f@);
    assert forall|x: SstModel| prev.contains(x) implies sst_views(v@).contains(x) by {
        let j = choose|j: int| 0 <= j < prev.len() && prev[j] == x;
        assert(sst_views(v@)[j] == x);
    }
    assert forall|x: SstModel| sst_views(v@).contains(x) implies prev.contains(x) || x == f@ by {
        let j = choose|j: int| 0 <= j < sst_views(v@).len() && sst_views(v@)[j] == x;
        if j < prev.len() {
            assert(prev[j] == x);
        }
    }
}

} // verus!
