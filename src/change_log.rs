use vstd::prelude::*;

use crate::bitmap::{
    bits_of_body, body_well_formed, is_bitmap_body, lemma_bitmap_round_trip, Bitmap, PbBuffer,
    COMPRESSION_NONE,
};
use crate::sstable::{copy_vec, SstableInfo};

verus! {

/// The files that one flush wrote for one part of a table's key space.
pub struct ChangeLogShard {
    pub new_value: Vec<SstableInfo>,
    pub old_value: Vec<SstableInfo>,
    pub vnode_bitmap: Bitmap,
}

/// One change-log entry: the epochs it covers and its shards.
pub struct EpochNewChangeLog {
    pub epochs: Vec<u64>,
    pub shards: Vec<ChangeLogShard>,
}

/// The change log of one table, oldest entry first.
pub struct TableChangeLog(pub Vec<EpochNewChangeLog>);

/// Wire form of a [`ChangeLogShard`].
pub struct PbChangeLogShard {
    pub new_value: Vec<SstableInfo>,
    pub old_value: Vec<SstableInfo>,
    pub vnode_bitmap: Option<PbBuffer>,
}

/// Wire form of an [`EpochNewChangeLog`].
pub struct PbEpochNewChangeLog {
    pub epochs: Vec<u64>,
    pub shards: Vec<PbChangeLogShard>,
}

/// Wire form of a [`TableChangeLog`].
pub struct PbTableChangeLog {
    pub change_logs: Vec<PbEpochNewChangeLog>,
}

/// Why a wire change log could not be read.
#[derive(Clone, Copy, Debug, PartialEq, Eq, Structural)]
pub enum ChangeLogDecodeError {
    /// The shard at `shard` of the entry at `entry` carries no bitmap.
    MissingVnodeBitmap { entry: usize, shard: usize },
    /// The shard's bitmap is compressed or its body is malformed.
    MalformedVnodeBitmap { entry: usize, shard: usize },
}

/// New files, old files, bits of the key-space bitmap.
pub type ShardModel = (Seq<SstableInfo>, Seq<SstableInfo>, Seq<bool>);

/// Epochs and shards of one entry.
pub type EntryModel = (Seq<u64>, Seq<ShardModel>);

/// New files, old files and the bitmap's compression tag and body, if any.
pub type PbShardModel = (Seq<SstableInfo>, Seq<SstableInfo>, Option<(i32, Seq<u8>)>);

pub type PbEntryModel = (Seq<u64>, Seq<PbShardModel>);

impl View for ChangeLogShard {
    type V = ShardModel;

    open spec fn view(&self) -> ShardModel {
        (self.new_value@, self.old_value@, self.vnode_bitmap.bits@)
    }
}

impl View for EpochNewChangeLog {
    type V = EntryModel;

    open spec fn view(&self) -> EntryModel {
        (self.epochs@, self.shards@.map_values(|s: ChangeLogShard| s@))
    }
}

impl View for TableChangeLog {
    type V = Seq<EntryModel>;

    open spec fn view(&self) -> Seq<EntryModel> {
        self.0@.map_values(|e: EpochNewChangeLog| e@)
    }
}

impl View for PbChangeLogShard {
    type V = PbShardModel;

    open spec fn view(&self) -> PbShardModel {
        (
            self.new_value@,
            self.old_value@,
            match self.vnode_bitmap {
                Some(b) => Some((b.compression, b.body@)),
                None => None,
            },
        )
    }
}

impl View for PbEpochNewChangeLog {
    type V = PbEntryModel;

    open spec fn view(&self) -> PbEntryModel {
        (self.epochs@, self.shards@.map_values(|s: PbChangeLogShard| s@))
    }
}

impl View for PbTableChangeLog {
    type V = Seq<PbEntryModel>;

    open spec fn view(&self) -> Seq<PbEntryModel> {
        self.change_logs@.map_values(|e: PbEpochNewChangeLog| e@)
    }
}

/// Number of shards whose bitmap has `vnode` set.
pub open spec fn owners(shards: Seq<ShardModel>, vnode: int) -> nat
    decreases shards.len(),
{
    if shards.len() == 0 {
        0
    } else {
        owners(shards.drop_last(), vnode) + if shards.last().2[vnode] {
            1nat
        } else {
            0nat
        }
    }
}

/// The shards' bitmaps all cover `vnode_count` virtual nodes, and each
/// virtual node belongs to exactly one shard.
pub open spec fn partitions_key_space(shards: Seq<ShardModel>, vnode_count: nat) -> bool {
    &&& forall|i: int| 0 <= i < shards.len() ==> (#[trigger] shards[i]).2.len() == vnode_count
    &&& forall|v: int| 0 <= v < vnode_count ==> #[trigger] owners(shards, v) == 1
}

/// Every bitmap of the log is small enough to be written out.
pub open spec fn encodable(log: Seq<EntryModel>) -> bool {
    forall|i: int, j: int|
        0 <= i < log.len() && 0 <= j < log[i].1.len() ==> #[trigger] log[i].1[j].2.len()
            <= usize::MAX / 8
}

pub open spec fn shard_encodes(s: ShardModel, p: PbShardModel) -> bool {
    &&& p.0 == s.0
    &&& p.1 == s.1
    &&& p.2 matches Some((c, body)) && c == COMPRESSION_NONE && is_bitmap_body(s.2, body)
}

/// `pb` is the wire form of `log`.
pub open spec fn log_encodes(log: Seq<EntryModel>, pb: Seq<PbEntryModel>) -> bool {
    &&& pb.len() == log.len()
    &&& forall|i: int|
        0 <= i < log.len() ==> {
            &&& (#[trigger] pb[i]).0 == log[i].0
            &&& pb[i].1.len() == log[i].1.len()
            &&& forall|j: int|
                0 <= j < log[i].1.len() ==> shard_encodes(log[i].1[j], #[trigger] pb[i].1[j])
        }
}

pub open spec fn shard_decodable(p: PbShardModel) -> bool {
    p.2 matches Some((c, body)) && c == COMPRESSION_NONE && body_well_formed(body)
}

/// Every shard of `pb` carries a well-formed, uncompressed bitmap.
pub open spec fn log_decodable(pb: Seq<PbEntryModel>) -> bool {
    forall|i: int, j: int|
        0 <= i < pb.len() && 0 <= j < pb[i].1.len() ==> shard_decodable(#[trigger] pb[i].1[j])
}

pub open spec fn decode_shard(p: PbShardModel) -> ShardModel {
    (p.0, p.1, bits_of_body(p.2.unwrap().1))
}

/// What a decodable `pb` reads as.
pub open spec fn decode_log(pb: Seq<PbEntryModel>) -> Seq<EntryModel> {
    pb.map_values(|e: PbEntryModel| (e.0, e.1.map_values(|s: PbShardModel| decode_shard(s))))
}

/// The error that decoding `pb` reports: the first shard, in entry order
/// and then shard order, whose bitmap is missing or malformed.
pub open spec fn first_bad_shard(pb: Seq<PbEntryModel>, e: ChangeLogDecodeError) -> bool {
    let (i, j) = match e {
        ChangeLogDecodeError::MissingVnodeBitmap { entry, shard } => (entry as int, shard as int),
        ChangeLogDecodeError::MalformedVnodeBitmap { entry, shard } => (entry as int, shard as int),
    };
    &&& 0 <= i < pb.len()
    &&& 0 <= j < pb[i].1.len()
    &&& !shard_decodable(pb[i].1[j])
    &&& (e is MissingVnodeBitmap <==> pb[i].1[j].2 is None)
    &&& forall|a: int, b: int|
        0 <= a < pb.len() && 0 <= b < pb[a].1.len() && (a < i || (a == i && b < j))
            ==> shard_decodable(#[trigger] pb[a].1[b])
}

impl EpochNewChangeLog {
    /// Whether the shards split a key space of `vnode_count` virtual
    /// nodes: every bitmap has that length and each node is set in exactly
    /// one shard.
    pub fn partitions_key_space(&self, vnode_count: usize) -> (r: bool)
        ensures
            r == partitions_key_space(self@.1, vnode_count as nat),
    {
        let ghost sh = self@.1;
        let mut i: usize = 0;
        while i < self.shards.len()
            invariant
                i <= self.shards@.len(),
                sh == self@.1,
                forall|j: int| 0 <= j < i ==> (#[trigger] sh[j]).2.len() == vnode_count,
            decreases self.shards@.len() - i,
        {
            if self.shards[i].vnode_bitmap.bits.len() != vnode_count {
                assert(sh[i as int].2.len() != vnode_count);
                return false;
            }
            i = i + 1;
        }
        let mut v: usize = 0;
        while v < vnode_count
            invariant
                v <= vnode_count,
                sh == self@.1,
                forall|j: int| 0 <= j < sh.len() ==> (#[trigger] sh[j]).2.len() == vnode_count,
                forall|w: int| 0 <= w < v ==> #[trigger] owners(sh, w) == 1,
            decreases vnode_count - v,
        {
            let mut count: usize = 0;
            let mut k: usize = 0;
            while k < self.shards.len()
                invariant
                    k <= self.shards@.len(),
                    v < vnode_count,
                    sh == self@.1,
                    forall|j: int| 0 <= j < sh.len() ==> (#[trigger] sh[j]).2.len() == vnode_count,
                    count == owners(sh.subrange(0, k as int), v as int),
                    count <= k,
                decreases self.shards@.len() - k,
            {
                proof {
                    let t = sh.subrange(0, k + 1);
                    assert(t.drop_last() =~= sh.subrange(0, k as int));
                    assert(t.last() == sh[k as int]);
                }
                if self.shards[k].vnode_bitmap.bits[v] {
                    count = count + 1;
                }
                k = k + 1;
            }
            assert(sh.subrange(0, sh.len() as int) =~= sh);
            if count != 1 {
                return false;
            }
            v = v + 1;
        }
        true
    }
}

impl TableChangeLog {
    pub fn to_protobuf(&self) -> (r: PbTableChangeLog)
        requires
            encodable(self@),
        ensures
            log_encodes(self@, r@),
    {
        let mut change_logs: Vec<PbEpochNewChangeLog> = Vec::new();
        let mut i: usize = 0;
        while i < self.0.len()
            invariant
                i <= self.0@.len(),
                encodable(self@),
                change_logs@.len() == i,
                forall|a: int|
                    0 <= a < i ==> {
                        &&& (#[trigger] change_logs@[a])@.0 == self@[a].0
                        &&& change_logs@[a]@.1.len() == self@[a].1.len()
                        &&& forall|b: int|
                            0 <= b < self@[a].1.len() ==> shard_encodes(
                                self@[a].1[b],
                                #[trigger] change_logs@[a]@.1[b],
                            )
                    },
            decreases self.0@.len() - i,
        {
            let entry = &self.0[i];
            let mut shards: Vec<PbChangeLogShard> = Vec::new();
            let mut j: usize = 0;
            while j < entry.shards.len()
                invariant
                    i < self.0@.len(),
                    *entry == self.0@[i as int],
                    encodable(self@),
                    j <= entry.shards@.len(),
                    shards@.len() == j,
                    forall|b: int|
                        0 <= b < j ==> shard_encodes(
                            self@[i as int].1[b],
                            #[trigger] shards@[b]@,
                        ),
                decreases entry.shards@.len() - j,
            {
                let shard = &entry.shards[j];
                assert(self@[i as int].1[j as int].2.len() <= usize::MAX / 8);
                shards.push(
                    PbChangeLogShard {
                        new_value: copy_vec(&shard.new_value),
                        old_value: copy_vec(&shard.old_value),
                        vnode_bitmap: Some(shard.vnode_bitmap.to_protobuf()),
                    },
                );
                j = j + 1;
            }
            change_logs.push(PbEpochNewChangeLog { epochs: copy_vec(&entry.epochs), shards });
            i = i + 1;
        }
        PbTableChangeLog { change_logs }
    }

    /// Reads a change log from its wire form. Fails on the first shard, in
    /// entry order and then shard order, whose bitmap is missing or is not
    /// an uncompressed, well-formed bitmap body.
    pub fn from_protobuf(val: &PbTableChangeLog) -> (r: Result<TableChangeLog, ChangeLogDecodeError>)
        ensures
            r is Ok <==> log_decodable(val@),
            r matches Ok(log) ==> log@ == decode_log(val@),
            r matches Err(e) ==> first_bad_shard(val@, e),
    {
        let mut entries: Vec<EpochNewChangeLog> = Vec::new();
        let mut i: usize = 0;
        while i < val.change_logs.len()
            invariant
                i <= val.change_logs@.len(),
                entries@.len() == i,
                forall|a: int, b: int|
                    0 <= a < i && 0 <= b < val@[a].1.len() ==> shard_decodable(
                        #[trigger] val@[a].1[b],
                    ),
                forall|a: int|
                    0 <= a < i ==> (#[trigger] entries@[a])@ == decode_log(val@)[a],
            decreases val.change_logs@.len() - i,
        {
            let pb_entry = &val.change_logs[i];
            let mut shards: Vec<ChangeLogShard> = Vec::new();
            let mut j: usize = 0;
            while j < pb_entry.shards.len()
                invariant
                    i < val.change_logs@.len(),
                    *pb_entry == val.change_logs@[i as int],
                    j <= pb_entry.shards@.len(),
                    shards@.len() == j,
                    forall|a: int, b: int|
                        0 <= a < i && 0 <= b < val@[a].1.len() ==> shard_decodable(
                            #[trigger] val@[a].1[b],
                        ),
                    forall|b: int|
                        0 <= b < j ==> shard_decodable(#[trigger] val@[i as int].1[b]),
                    forall|b: int|
                        0 <= b < j ==> (#[trigger] shards@[b])@ == decode_shard(
                            val@[i as int].1[b],
                        ),
                decreases pb_entry.shards@.len() - j,
            {
                let pb_shard = &pb_entry.shards[j];
                assert(pb_shard@ == val@[i as int].1[j as int]);
                let vnode_bitmap = match &pb_shard.vnode_bitmap {
                    None => {
                        return Err(
                            ChangeLogDecodeError::MissingVnodeBitmap { entry: i, shard: j },
                        );
                    },
                    Some(buf) => match Bitmap::from_protobuf(buf) {
                        None => {
                            return Err(
                                ChangeLogDecodeError::MalformedVnodeBitmap { entry: i, shard: j },
                            );
                        },
                        Some(bm) => bm,
                    },
                };
                shards.push(
                    ChangeLogShard {
                        new_value: copy_vec(&pb_shard.new_value),
                        old_value: copy_vec(&pb_shard.old_value),
                        vnode_bitmap,
                    },
                );
                j = j + 1;
            }
            let entry = EpochNewChangeLog { epochs: copy_vec(&pb_entry.epochs), shards };
            assert(entry@ =~= decode_log(val@)[i as int]);
            entries.push(entry);
            i = i + 1;
        }
        let log = TableChangeLog(entries);
        assert(log@ =~= decode_log(val@));
        Ok(log)
    }
}

/// Decoding the wire form of a table change log reproduces the log.
pub proof fn lemma_change_log_round_trip(log: Seq<EntryModel>, pb: Seq<PbEntryModel>)
    requires
        encodable(log),
        log_encodes(log, pb),
    ensures
        log_decodable(pb),
        decode_log(pb) == log,
{
    assert forall|i: int, j: int|
        0 <= i < pb.len() && 0 <= j < pb[i].1.len() implies shard_decodable(
        #[trigger] pb[i].1[j],
    ) && decode_shard(pb[i].1[j]) == log[i].1[j] by {
        assert(shard_encodes(log[i].1[j], pb[i].1[j]));
        assert(log[i].1[j].2.len() <= usize::MAX / 8);
        lemma_bitmap_round_trip(log[i].1[j].2, pb[i].1[j].2.unwrap().1);
    }
    assert forall|i: int| 0 <= i < pb.len() implies #[trigger] decode_log(pb)[i] == log[i] by {
        assert(decode_log(pb)[i].1 =~= log[i].1);
    }
    assert(decode_log(pb) =~= log);
}

} // verus!
