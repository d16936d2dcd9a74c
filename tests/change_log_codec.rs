use hummock_core::{
    Bitmap, ChangeLogDecodeError, ChangeLogShard, EpochNewChangeLog, PbBuffer, PbChangeLogShard,
    PbEpochNewChangeLog, PbTableChangeLog, SstableInfo, TableChangeLog,
};

fn sst(object_id: u64, epoch: u64) -> SstableInfo {
    SstableInfo { object_id, table_id: 1, min_epoch: epoch, max_epoch: epoch, file_size: 100 }
}

fn sample_log() -> TableChangeLog {
    let bits_a: Vec<bool> = (0..10).map(|i| i % 3 == 0).collect();
    let bits_b: Vec<bool> = (0..10).map(|i| i % 3 != 0).collect();
    TableChangeLog(vec![
        EpochNewChangeLog {
            epochs: vec![1, 2],
            shards: vec![
                ChangeLogShard {
                    new_value: vec![sst(1, 2)],
                    old_value: vec![],
                    vnode_bitmap: Bitmap { bits: bits_a },
                },
                ChangeLogShard {
                    new_value: vec![sst(2, 2)],
                    old_value: vec![sst(3, 1)],
                    vnode_bitmap: Bitmap { bits: bits_b },
                },
            ],
        },
        EpochNewChangeLog {
            epochs: vec![3],
            shards: vec![ChangeLogShard {
                new_value: vec![],
                old_value: vec![],
                vnode_bitmap: Bitmap { bits: vec![true; 8] },
            }],
        },
        EpochNewChangeLog { epochs: vec![], shards: vec![] },
    ])
}

fn assert_same(a: &TableChangeLog, b: &TableChangeLog) {
    assert_eq!(a.0.len(), b.0.len());
    for (x, y) in a.0.iter().zip(b.0.iter()) {
        assert_eq!(x.epochs, y.epochs);
        assert_eq!(x.shards.len(), y.shards.len());
        for (s, t) in x.shards.iter().zip(y.shards.iter()) {
            assert_eq!(s.new_value, t.new_value);
            assert_eq!(s.old_value, t.old_value);
            assert_eq!(s.vnode_bitmap, t.vnode_bitmap);
        }
    }
}

#[test]
fn change_log_round_trip() {
    let log = sample_log();
    let pb = log.to_protobuf();
    let back = TableChangeLog::from_protobuf(&pb).unwrap();
    assert_same(&log, &back);
}

#[test]
fn bitmap_wire_form_is_packed_lsb_first() {
    let bm = Bitmap { bits: vec![true, false, true, true, false, false, false, false, true, true] };
    let pb = bm.to_protobuf();
    assert_eq!(pb.compression, 0);
    assert_eq!(pb.body, vec![2, 0b0000_1101, 0b0000_0011]);
    assert_eq!(Bitmap::from_protobuf(&pb), Some(bm));
    let empty = Bitmap { bits: vec![] };
    assert_eq!(empty.to_protobuf().body, vec![0]);
    let eight = Bitmap { bits: vec![true; 8] };
    assert_eq!(eight.to_protobuf().body, vec![0, 0xff]);
    assert_eq!(Bitmap::from_protobuf(&eight.to_protobuf()), Some(eight));
}

#[test]
fn malformed_bitmaps_are_refused() {
    assert_eq!(Bitmap::from_protobuf(&PbBuffer { compression: 0, body: vec![] }), None);
    assert_eq!(Bitmap::from_protobuf(&PbBuffer { compression: 0, body: vec![8, 1] }), None);
    assert_eq!(Bitmap::from_protobuf(&PbBuffer { compression: 0, body: vec![3] }), None);
    assert_eq!(Bitmap::from_protobuf(&PbBuffer { compression: 1, body: vec![0] }), None);
}

#[test]
fn missing_bitmap_is_a_decode_error() {
    let pb = PbTableChangeLog {
        change_logs: vec![
            PbEpochNewChangeLog {
                epochs: vec![1],
                shards: vec![PbChangeLogShard {
                    new_value: vec![],
                    old_value: vec![],
                    vnode_bitmap: Some(PbBuffer { compression: 0, body: vec![0] }),
                }],
            },
            PbEpochNewChangeLog {
                epochs: vec![2],
                shards: vec![
                    PbChangeLogShard {
                        new_value: vec![],
                        old_value: vec![],
                        vnode_bitmap: Some(PbBuffer { compression: 0, body: vec![1, 1] }),
                    },
                    PbChangeLogShard { new_value: vec![], old_value: vec![], vnode_bitmap: None },
                ],
            },
        ],
    };
    match TableChangeLog::from_protobuf(&pb) {
        Err(e) => assert_eq!(e, ChangeLogDecodeError::MissingVnodeBitmap { entry: 1, shard: 1 }),
        Ok(_) => panic!("decoded a shard without a bitmap"),
    }
}

#[test]
fn malformed_bitmap_is_a_decode_error() {
    let pb = PbTableChangeLog {
        change_logs: vec![PbEpochNewChangeLog {
            epochs: vec![1],
            shards: vec![PbChangeLogShard {
                new_value: vec![],
                old_value: vec![],
                vnode_bitmap: Some(PbBuffer { compression: 0, body: vec![9] }),
            }],
        }],
    };
    match TableChangeLog::from_protobuf(&pb) {
        Err(e) => {
            assert_eq!(e, ChangeLogDecodeError::MalformedVnodeBitmap { entry: 0, shard: 0 })
        }
        Ok(_) => panic!("decoded a malformed bitmap"),
    }
}

#[test]
fn shard_partition_check() {
    let log = sample_log();
    assert!(log.0[0].partitions_key_space(10));
    assert!(!log.0[0].partitions_key_space(9));
    assert!(log.0[1].partitions_key_space(8));
    let overlapping = EpochNewChangeLog {
        epochs: vec![1],
        shards: vec![
            ChangeLogShard { new_value: vec![], old_value: vec![], vnode_bitmap: Bitmap { bits: vec![true, false] } },
            ChangeLogShard { new_value: vec![], old_value: vec![], vnode_bitmap: Bitmap { bits: vec![true, true] } },
        ],
    };
    assert!(!overlapping.partitions_key_space(2));
    let gap = EpochNewChangeLog {
        epochs: vec![1],
        shards: vec![ChangeLogShard { new_value: vec![], old_value: vec![], vnode_bitmap: Bitmap { bits: vec![true, false] } }],
    };
    assert!(!gap.partitions_key_space(2));
}
