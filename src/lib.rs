//! Epoch-driven buffer lifecycle of an LSM-tree storage layer: the event
//! state machine that owns the read-version registry and the uploader, the
//! epoch-watermarked cache, the table change log and the compaction policy.

pub mod bitmap;
pub mod change_log;
pub mod compaction_config;
pub mod decimal;
pub mod event_handler;
pub mod imm;
pub mod managed_lru;
pub mod postgres_offset;
pub mod read_version;
pub mod seq_lemmas;
pub mod sstable;
pub mod tempo_gen;
pub mod uploader;

pub use bitmap::{Bitmap, PbBuffer};
pub use change_log::{
    ChangeLogDecodeError, ChangeLogShard, EpochNewChangeLog, PbChangeLogShard,
    PbEpochNewChangeLog, PbTableChangeLog, TableChangeLog,
};
pub use compaction_config::{
    validate_compaction_config, CompactionConfig, CompactionConfigBuilder, CompactionConfigOpt,
};
pub use event_handler::{
    HandlerAction, HummockEvent, HummockEventHandler, HummockVersionDelta, HummockVersionUpdate,
    LocalInstanceId, SealCurrentEpochOptions,
};
pub use imm::{FlushedSst, ImmutableMemtable, KeyedRow};
pub use managed_lru::{
    new_unbounded, new_unbounded_with_metrics, new_with_hasher, ManagedLruCache, MetricsInfo,
};
pub use postgres_offset::PostgresOffset;
pub use read_version::{HummockReadVersion, HummockVersion};
pub use sstable::{SstRow, SstableInfo};
pub use tempo_gen::{TempoConfig, TempoGen};
pub use uploader::{
    HummockError, HummockUploader, SyncCompletion, SyncResult, UploadTaskInput,
};
