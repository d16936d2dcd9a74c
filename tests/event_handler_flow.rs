use hummock_core::{
    Bitmap, HandlerAction, HummockError, HummockEvent, HummockEventHandler, HummockVersion,
    HummockVersionDelta, HummockVersionUpdate, ImmutableMemtable, KeyedRow,
    SealCurrentEpochOptions, UploadTaskInput,
};

fn empty_version() -> HummockVersion {
    HummockVersion { id: 1, max_committed_epoch: 0, ssts: vec![] }
}

fn imm(imm_id: u64, table_id: u32, instance_id: u64, epoch: u64, rows: Vec<(u64, u64)>) -> ImmutableMemtable {
    ImmutableMemtable {
        imm_id,
        table_id,
        instance_id,
        epoch,
        size: 10 * rows.len() as u64,
        rows: rows.into_iter().map(|(key, value)| KeyedRow { key, value }).collect(),
    }
}

fn register(h: &mut HummockEventHandler, table_id: u32, request_id: u64) -> u64 {
    let actions = h.handle_event(HummockEvent::RegisterReadVersion {
        table_id,
        request_id,
        is_replicated: false,
        vnodes: Bitmap { bits: vec![true; 4] },
    });
    assert_eq!(actions.len(), 1);
    match &actions[0] {
        HandlerAction::ReadVersionRegistered { request_id: r, table_id: t, instance_id } => {
            assert_eq!(*r, request_id);
            assert_eq!(*t, table_id);
            instance_id.expect("instance ids left")
        }
        _ => panic!("expected a registration reply"),
    }
}

fn uploads(actions: Vec<HandlerAction>) -> Vec<UploadTaskInput> {
    actions
        .into_iter()
        .filter_map(|a| match a {
            HandlerAction::Upload(t) => Some(t),
            _ => None,
        })
        .collect()
}

#[test]
fn sync_after_flush_returns_each_epoch_once() {
    let mut h = HummockEventHandler::new(empty_version(), u64::MAX);
    let inst = register(&mut h, 1, 100);
    for epoch in 1..=3u64 {
        let actions = h.handle_event(HummockEvent::ImmToUploader(imm(
            epoch,
            1,
            inst,
            epoch,
            vec![(7, epoch * 100)],
        )));
        assert!(actions.is_empty());
    }
    let rv = h.read_version(1, inst).unwrap();
    assert_eq!(rv.imm_count(), 3);
    // data is visible before it is durable
    assert_eq!(rv.get(h.version(), 7, 3), Some(300));
    assert_eq!(rv.get(h.version(), 7, 2), Some(200));
    assert_eq!(rv.get(h.version(), 8, 3), None);

    h.handle_event(HummockEvent::SealEpoch { epoch: 3, is_checkpoint: true });
    let tasks = uploads(h.handle_event(HummockEvent::AwaitSyncEpoch {
        new_sync_epoch: 3,
        request_id: 9,
    }));
    assert_eq!(tasks.len(), 3);
    let mut epochs: Vec<u64> = tasks.iter().map(|t| t.epoch).collect();
    epochs.sort();
    assert_eq!(epochs, vec![1, 2, 3]);

    let mut reply = None;
    for (n, t) in tasks.iter().enumerate() {
        let actions = h.handle_event(HummockEvent::UploadTaskFinished {
            task_id: t.task_id,
            result: Ok(1000 + n as u64),
        });
        for a in actions {
            if let HandlerAction::SyncFinished(c) = a {
                assert!(reply.is_none());
                assert_eq!(n, tasks.len() - 1, "sync settled before every flush finished");
                reply = Some(c);
            }
        }
    }
    let c = reply.expect("sync settled");
    assert_eq!(c.request_id, 9);
    assert_eq!(c.epoch, 3);
    let res = c.result.ok().unwrap();
    let mut sst_epochs: Vec<u64> = res.uncommitted_ssts.iter().map(|s| s.max_epoch).collect();
    sst_epochs.sort();
    assert_eq!(sst_epochs, vec![1, 2, 3]);
    assert_eq!(res.sync_size, 30);

    let rv = h.read_version(1, inst).unwrap();
    assert_eq!(rv.imm_count(), 0);
    assert_eq!(rv.staging_sst_count(), 3);
    let mut versions = rv.row_versions(h.version(), 7, 3);
    versions.sort();
    assert_eq!(versions, vec![(1, 100), (2, 200), (3, 300)]);
    assert_eq!(rv.get(h.version(), 7, 3), Some(300));
}

#[test]
fn committed_version_replaces_staged_data() {
    let mut h = HummockEventHandler::new(empty_version(), u64::MAX);
    let inst = register(&mut h, 1, 1);
    h.handle_event(HummockEvent::ImmToUploader(imm(1, 1, inst, 1, vec![(5, 50)])));
    h.handle_event(HummockEvent::ImmToUploader(imm(2, 1, inst, 2, vec![(5, 51)])));
    h.handle_event(HummockEvent::SealEpoch { epoch: 1, is_checkpoint: true });
    let tasks = uploads(h.handle_event(HummockEvent::AwaitSyncEpoch {
        new_sync_epoch: 1,
        request_id: 2,
    }));
    assert_eq!(tasks.len(), 1);
    let t = &tasks[0];
    let actions = h.handle_event(HummockEvent::UploadTaskFinished { task_id: t.task_id, result: Ok(77) });
    let ssts = match actions.into_iter().next() {
        Some(HandlerAction::SyncFinished(c)) => c.result.ok().unwrap().uncommitted_ssts,
        _ => panic!("expected the sync reply"),
    };
    assert_eq!(ssts.len(), 1);
    assert_eq!(ssts[0].object_id, 77);
    let sst_rows = t.rows.clone();
    h.handle_event(HummockEvent::VersionUpdate(HummockVersionUpdate::VersionDeltas(vec![
        HummockVersionDelta {
            id: 2,
            prev_id: 1,
            max_committed_epoch: 1,
            new_ssts: vec![hummock_core::FlushedSst { info: ssts[0], rows: sst_rows, imm_ids: vec![1] }],
        },
    ])));
    assert_eq!(h.version().max_committed_epoch, 1);
    let rv = h.read_version(1, inst).unwrap();
    assert_eq!(rv.committed_epoch(), 1);
    assert_eq!(rv.staging_sst_count(), 0);
    assert_eq!(rv.imm_count(), 1);
    let mut versions = rv.row_versions(h.version(), 5, 10);
    versions.sort();
    assert_eq!(versions, vec![(1, 50), (2, 51)]);
    assert_eq!(rv.get(h.version(), 5, 10), Some(51));
    assert_eq!(rv.get(h.version(), 5, 1), Some(50));
}

#[test]
fn stale_delta_is_ignored() {
    let mut h = HummockEventHandler::new(empty_version(), u64::MAX);
    h.handle_event(HummockEvent::VersionUpdate(HummockVersionUpdate::VersionDeltas(vec![
        HummockVersionDelta { id: 5, prev_id: 4, max_committed_epoch: 9, new_ssts: vec![] },
    ])));
    assert_eq!(h.version().id, 1);
    assert_eq!(h.version().max_committed_epoch, 0);
    h.handle_event(HummockEvent::VersionUpdate(HummockVersionUpdate::PinnedVersion(
        HummockVersion { id: 3, max_committed_epoch: 4, ssts: vec![] },
    )));
    assert_eq!(h.version().id, 3);
    assert_eq!(h.version().max_committed_epoch, 4);
}

#[test]
fn register_then_destroy_removes_once() {
    let mut h = HummockEventHandler::new(empty_version(), u64::MAX);
    let a = register(&mut h, 1, 1);
    let b = register(&mut h, 1, 2);
    assert_ne!(a, b);
    assert_eq!(h.read_version_count(), 2);
    let first = h.handle_event(HummockEvent::DestroyReadVersion { table_id: 1, instance_id: a });
    assert!(first.is_empty());
    assert_eq!(h.read_version_count(), 1);
    assert!(h.read_version(1, a).is_none());
    assert!(h.read_version(1, b).is_some());
    let second = h.handle_event(HummockEvent::DestroyReadVersion { table_id: 1, instance_id: a });
    assert_eq!(second.len(), 1);
    assert!(matches!(second[0], HandlerAction::DestroyIgnored { table_id: 1, instance_id } if instance_id == a));
    assert_eq!(h.read_version_count(), 1);
}

#[test]
fn sync_waits_for_flushes_and_fails_on_flush_error() {
    let mut h = HummockEventHandler::new(empty_version(), u64::MAX);
    let inst = register(&mut h, 2, 1);
    h.handle_event(HummockEvent::ImmToUploader(imm(1, 2, inst, 1, vec![(1, 1)])));
    h.handle_event(HummockEvent::ImmToUploader(imm(2, 2, inst, 2, vec![(1, 2)])));
    h.handle_event(HummockEvent::SealEpoch { epoch: 2, is_checkpoint: false });
    let tasks = uploads(h.handle_event(HummockEvent::AwaitSyncEpoch { new_sync_epoch: 2, request_id: 5 }));
    assert_eq!(tasks.len(), 2);
    let first = h.handle_event(HummockEvent::UploadTaskFinished { task_id: tasks[0].task_id, result: Ok(1) });
    assert!(first.is_empty(), "a flush is still in flight");
    let second = h.handle_event(HummockEvent::UploadTaskFinished { task_id: tasks[1].task_id, result: Err(()) });
    assert_eq!(second.len(), 1);
    match &second[0] {
        HandlerAction::SyncFinished(c) => {
            assert_eq!(c.request_id, 5);
            assert!(matches!(c.result, Err(HummockError::FlushFailed { .. })));
        }
        _ => panic!("expected the sync reply"),
    }
}

#[test]
fn sync_of_unsealed_epoch_is_refused() {
    let mut h = HummockEventHandler::new(empty_version(), u64::MAX);
    let actions = h.handle_event(HummockEvent::AwaitSyncEpoch { new_sync_epoch: 4, request_id: 3 });
    assert_eq!(actions.len(), 1);
    match &actions[0] {
        HandlerAction::SyncFinished(c) => {
            assert_eq!(c.request_id, 3);
            assert!(matches!(c.result, Err(HummockError::InvalidSyncEpoch { epoch: 4 })));
        }
        _ => panic!("expected the sync reply"),
    }
    h.handle_event(HummockEvent::SealEpoch { epoch: 4, is_checkpoint: true });
    let ok = h.handle_event(HummockEvent::AwaitSyncEpoch { new_sync_epoch: 4, request_id: 4 });
    assert!(matches!(&ok[0], HandlerAction::SyncFinished(c) if c.result.is_ok()));
    let again = h.handle_event(HummockEvent::AwaitSyncEpoch { new_sync_epoch: 4, request_id: 5 });
    assert!(matches!(&again[0], HandlerAction::SyncFinished(c) if matches!(c.result, Err(HummockError::InvalidSyncEpoch { epoch: 4 }))));
}

#[test]
fn clear_cancels_flushes_and_pending_syncs() {
    let mut h = HummockEventHandler::new(empty_version(), u64::MAX);
    let inst = register(&mut h, 3, 1);
    h.handle_event(HummockEvent::ImmToUploader(imm(1, 3, inst, 1, vec![(1, 1)])));
    h.handle_event(HummockEvent::SealEpoch { epoch: 1, is_checkpoint: true });
    let tasks = uploads(h.handle_event(HummockEvent::AwaitSyncEpoch { new_sync_epoch: 1, request_id: 8 }));
    assert_eq!(tasks.len(), 1);
    h.handle_event(HummockEvent::ImmToUploader(imm(2, 3, inst, 2, vec![(1, 2)])));
    let actions = h.handle_event(HummockEvent::Clear { request_id: 11, prev_epoch: 0 });
    assert_eq!(actions.len(), 3);
    assert!(matches!(&actions[0], HandlerAction::CancelUploads(ids) if ids == &vec![tasks[0].task_id]));
    assert!(matches!(&actions[1], HandlerAction::SyncFinished(c) if c.request_id == 8 && matches!(c.result, Err(HummockError::Cancelled))));
    assert!(matches!(actions[2], HandlerAction::ClearFinished { request_id: 11 }));
    let rv = h.read_version(3, inst).unwrap();
    assert_eq!(rv.imm_count(), 0);
    assert_eq!(h.uploader().buffered_count(), 0);
    assert_eq!(h.uploader().uploading_count(), 0);
    // a late completion of a cancelled flush changes nothing
    let late = h.handle_event(HummockEvent::UploadTaskFinished { task_id: tasks[0].task_id, result: Ok(3) });
    assert!(late.is_empty());
    assert_eq!(h.read_version(3, inst).unwrap().staging_sst_count(), 0);
}

#[test]
fn buffer_may_flush_takes_oldest_sealed_epoch_first() {
    let mut h = HummockEventHandler::new(empty_version(), 15);
    let inst = register(&mut h, 4, 1);
    h.handle_event(HummockEvent::ImmToUploader(imm(1, 4, inst, 1, vec![(1, 1)])));
    h.handle_event(HummockEvent::ImmToUploader(imm(2, 4, inst, 2, vec![(1, 2)])));
    h.handle_event(HummockEvent::ImmToUploader(imm(3, 4, inst, 3, vec![(1, 3)])));
    // nothing sealed yet: nothing can be flushed
    assert!(uploads(h.handle_event(HummockEvent::BufferMayFlush)).is_empty());
    h.handle_event(HummockEvent::SealEpoch { epoch: 2, is_checkpoint: false });
    let tasks = uploads(h.handle_event(HummockEvent::BufferMayFlush));
    assert_eq!(tasks.len(), 2);
    assert_eq!(tasks[0].epoch, 1);
    assert_eq!(tasks[1].epoch, 2);
    assert_eq!(h.uploader().buffered_count(), 1);
    // under the threshold now: the hint does nothing
    assert!(uploads(h.handle_event(HummockEvent::BufferMayFlush)).is_empty());
}

#[test]
fn local_seal_and_shutdown() {
    let mut h = HummockEventHandler::new(empty_version(), u64::MAX);
    let inst = register(&mut h, 6, 1);
    h.handle_event(HummockEvent::LocalSealEpoch {
        instance_id: inst,
        table_id: 6,
        epoch: 12,
        opts: SealCurrentEpochOptions { emit_watermark: true },
    });
    assert_eq!(h.read_version(6, inst).unwrap().local_sealed_epoch(), 12);
    let actions = h.handle_event(HummockEvent::Shutdown);
    assert_eq!(actions.len(), 1);
    assert!(matches!(actions[0], HandlerAction::Shutdown));
}

#[test]
fn event_debug_strings() {
    assert_eq!(HummockEvent::BufferMayFlush.to_debug_string(), "BufferMayFlush");
    assert_eq!(
        HummockEvent::AwaitSyncEpoch { new_sync_epoch: 42, request_id: 1 }.to_debug_string(),
        "AwaitSyncEpoch epoch 42 "
    );
    assert_eq!(HummockEvent::Clear { request_id: 1, prev_epoch: 7 }.to_debug_string(), "Clear 7");
    assert_eq!(HummockEvent::Shutdown.to_debug_string(), "Shutdown");
    assert_eq!(
        HummockEvent::SealEpoch { epoch: 10, is_checkpoint: true }.to_debug_string(),
        "SealEpoch epoch 10 is_checkpoint true"
    );
    assert_eq!(
        HummockEvent::LocalSealEpoch {
            instance_id: 3,
            table_id: 2,
            epoch: 1,
            opts: SealCurrentEpochOptions { emit_watermark: false },
        }
        .to_debug_string(),
        "LocalSealEpoch epoch: 1, table_id: 2, instance_id: 3, opts: emit_watermark false"
    );
    assert_eq!(
        HummockEvent::RegisterReadVersion {
            table_id: 5,
            request_id: 0,
            is_replicated: false,
            vnodes: Bitmap { bits: vec![] },
        }
        .to_debug_string(),
        "RegisterReadVersion table_id 5, is_replicated: false"
    );
    assert_eq!(
        HummockEvent::DestroyReadVersion { table_id: 5, instance_id: 9 }.to_debug_string(),
        "DestroyReadVersion table_id 5 instance_id 9"
    );
    assert_eq!(
        HummockEvent::ImmToUploader(imm(4, 2, 1, 8, vec![])).to_debug_string(),
        "ImmToUploader imm_id 4 table_id 2 epoch 8"
    );
    assert_eq!(
        HummockEvent::UploadTaskFinished { task_id: 3, result: Err(()) }.to_debug_string(),
        "UploadTaskFinished task_id 3 failed"
    );
    assert_eq!(
        HummockEvent::UploadTaskFinished { task_id: 3, result: Ok(12) }.to_debug_string(),
        "UploadTaskFinished task_id 3 object_id 12"
    );
}

#[test]
fn range_lookup_merges_memtables_and_files() {
    let mut h = HummockEventHandler::new(empty_version(), u64::MAX);
    let inst = register(&mut h, 1, 1);
    h.handle_event(HummockEvent::ImmToUploader(imm(1, 1, inst, 1, vec![(3, 30), (1, 10), (9, 90)])));
    h.handle_event(HummockEvent::SealEpoch { epoch: 1, is_checkpoint: true });
    let tasks = uploads(h.handle_event(HummockEvent::AwaitSyncEpoch { new_sync_epoch: 1, request_id: 1 }));
    h.handle_event(HummockEvent::UploadTaskFinished { task_id: tasks[0].task_id, result: Ok(5) });
    h.handle_event(HummockEvent::ImmToUploader(imm(2, 1, inst, 2, vec![(3, 31), (2, 20)])));
    let rv = h.read_version(1, inst).unwrap();
    assert_eq!(rv.range(h.version(), 1, 5, 2), vec![(1, 10), (2, 20), (3, 31)]);
    assert_eq!(rv.range(h.version(), 1, 5, 1), vec![(1, 10), (3, 30)]);
    assert_eq!(rv.range(h.version(), 4, 8, 2), vec![]);
    assert_eq!(rv.range(h.version(), 0, u64::MAX, 2), vec![(1, 10), (2, 20), (3, 31), (9, 90)]);
}

#[test]
fn reader_registered_later_sees_earlier_writes() {
    let mut h = HummockEventHandler::new(empty_version(), u64::MAX);
    let writer = register(&mut h, 7, 1);
    h.handle_event(HummockEvent::ImmToUploader(imm(1, 7, writer, 1, vec![(4, 40)])));
    let reader = register(&mut h, 7, 2);
    assert_ne!(reader, writer);
    let rv = h.read_version(7, reader).unwrap();
    assert_eq!(rv.imm_count(), 1);
    assert_eq!(rv.get(h.version(), 4, 1), Some(40));
    // a third reader does not see the memtable twice
    let third = register(&mut h, 7, 3);
    let rv3 = h.read_version(7, third).unwrap();
    assert_eq!(rv3.imm_count(), 1);
    assert_eq!(rv3.row_versions(h.version(), 4, 1), vec![(1, 40)]);
    // another table sees nothing
    let other = register(&mut h, 8, 4);
    assert_eq!(h.read_version(8, other).unwrap().imm_count(), 0);
}

#[test]
fn second_destroy_changes_nothing() {
    let mut h = HummockEventHandler::new(empty_version(), u64::MAX);
    let a = register(&mut h, 1, 1);
    let b = register(&mut h, 1, 2);
    h.handle_event(HummockEvent::ImmToUploader(imm(1, 1, b, 1, vec![(1, 1)])));
    h.handle_event(HummockEvent::DestroyReadVersion { table_id: 1, instance_id: a });
    let again = h.handle_event(HummockEvent::DestroyReadVersion { table_id: 1, instance_id: a });
    assert_eq!(again.len(), 1);
    assert_eq!(h.read_version_count(), 1);
    assert_eq!(h.read_version(1, b).unwrap().imm_count(), 1);
    assert_eq!(h.uploader().buffered_count(), 1);
}
