use vstd::prelude::*;
use vstd::string::StringExecFns;

use crate::decimal::{append_decimal, decimal};

verus! {

/// Number of levels below level 0.
pub const MAX_LEVEL: u64 = 6;

/// Compaction picks key ranges.
pub const COMPACTION_MODE_RANGE: i32 = 1;

/// Smallest accepted `level0_stop_write_threshold_sub_level_number`.
pub const SUB_LEVEL_NUMBER_THRESHOLD_MIN: u64 = 1;

pub const DEFAULT_MAX_BYTES_FOR_LEVEL_BASE: u64 = 536870912;
pub const DEFAULT_MAX_BYTES_FOR_LEVEL_MULTIPLIER: u64 = 5;
pub const DEFAULT_MAX_COMPACTION_BYTES: u64 = 2147483648;
pub const DEFAULT_SUB_LEVEL_MAX_COMPACTION_BYTES: u64 = 134217728;
pub const DEFAULT_LEVEL0_TIER_COMPACT_FILE_NUMBER: u64 = 12;
pub const DEFAULT_TARGET_FILE_SIZE_BASE: u64 = 33554432;
/// State-clean and time-to-live filters.
pub const DEFAULT_COMPACTION_FILTER_MASK: u32 = 6;
pub const DEFAULT_MAX_SUB_COMPACTION: u32 = 4;
pub const DEFAULT_MAX_SPACE_RECLAIM_BYTES: u64 = 536870912;
pub const DEFAULT_LEVEL0_STOP_WRITE_THRESHOLD_SUB_LEVEL_NUMBER: u64 = 300;
pub const DEFAULT_LEVEL0_MAX_COMPACT_FILE_NUMBER: u64 = 100;
pub const DEFAULT_LEVEL0_SUB_LEVEL_COMPACT_LEVEL_COUNT: u32 = 3;
pub const DEFAULT_LEVEL0_OVERLAPPING_SUB_LEVEL_COMPACT_LEVEL_COUNT: u32 = 12;
pub const DEFAULT_LEVEL0_STOP_WRITE_THRESHOLD_MERGE_ITER_COUNT: u64 = 128;
pub const DEFAULT_LEVEL0_STOP_WRITE_THRESHOLD_OVERLAPPING_FILE_COUNT: u64 = 1000;

/// The leveling policy handed to the compaction scheduler.
#[derive(Clone, Debug, PartialEq)]
pub struct CompactionConfig {
    pub max_bytes_for_level_base: u64,
    pub max_bytes_for_level_multiplier: u64,
    pub max_level: u64,
    pub max_compaction_bytes: u64,
    pub sub_level_max_compaction_bytes: u64,
    pub level0_tier_compact_file_number: u64,
    pub compaction_mode: i32,
    /// Compression algorithm of each level, level 0 first.
    pub compression_algorithm: Vec<String>,
    pub compaction_filter_mask: u32,
    pub target_file_size_base: u64,
    pub max_sub_compaction: u32,
    pub max_space_reclaim_bytes: u64,
    pub split_by_state_table: bool,
    pub split_weight_by_vnode: u32,
    pub level0_stop_write_threshold_sub_level_number: u64,
    pub level0_max_compact_file_number: u64,
    pub level0_sub_level_compact_level_count: u32,
    pub level0_overlapping_sub_level_compact_level_count: u32,
    pub level0_stop_write_threshold_merge_iter_count: u64,
    pub level0_stop_write_threshold_overlapping_file_count: u64,
}

/// Externally parsed compaction settings.
#[derive(Clone, Debug, PartialEq)]
pub struct CompactionConfigOpt {
    pub max_bytes_for_level_base: u64,
    pub max_bytes_for_level_multiplier: u64,
    pub max_compaction_bytes: u64,
    pub sub_level_max_compaction_bytes: u64,
    pub level0_tier_compact_file_number: u64,
    pub target_file_size_base: u64,
    pub compaction_filter_mask: u32,
    pub max_sub_compaction: u32,
    pub level0_stop_write_threshold_sub_level_number: u64,
    pub level0_sub_level_compact_level_count: u32,
    pub level0_overlapping_sub_level_compact_level_count: u32,
    pub max_space_reclaim_bytes: u64,
    pub level0_max_compact_file_number: u64,
}

/// Levels 0 to 2 are stored uncompressed, levels 3 and 4 with Lz4, the
/// deeper ones with Zstd.
pub open spec fn default_compression() -> Seq<Seq<char>> {
    seq!["None"@, "None"@, "None"@, "Lz4"@, "Lz4"@, "Zstd"@, "Zstd"@]
}

pub open spec fn strings_view(v: Seq<String>) -> Seq<Seq<char>> {
    v.map_values(|s: String| s@)
}

/// The policy with every setting at its default.
pub open spec fn is_default_config(c: CompactionConfig) -> bool {
    &&& c.max_bytes_for_level_base == DEFAULT_MAX_BYTES_FOR_LEVEL_BASE
    &&& c.max_bytes_for_level_multiplier == DEFAULT_MAX_BYTES_FOR_LEVEL_MULTIPLIER
    &&& c.max_level == MAX_LEVEL
    &&& c.max_compaction_bytes == DEFAULT_MAX_COMPACTION_BYTES
    &&& c.sub_level_max_compaction_bytes == DEFAULT_SUB_LEVEL_MAX_COMPACTION_BYTES
    &&& c.level0_tier_compact_file_number == DEFAULT_LEVEL0_TIER_COMPACT_FILE_NUMBER
    &&& c.target_file_size_base == DEFAULT_TARGET_FILE_SIZE_BASE
    &&& c.compaction_mode == COMPACTION_MODE_RANGE
    &&& strings_view(c.compression_algorithm@) == default_compression()
    &&& c.compaction_filter_mask == DEFAULT_COMPACTION_FILTER_MASK
    &&& c.max_sub_compaction == DEFAULT_MAX_SUB_COMPACTION
    &&& c.max_space_reclaim_bytes == DEFAULT_MAX_SPACE_RECLAIM_BYTES
    &&& !c.split_by_state_table
    &&& c.split_weight_by_vnode == 0
    &&& c.level0_stop_write_threshold_sub_level_number
        == DEFAULT_LEVEL0_STOP_WRITE_THRESHOLD_SUB_LEVEL_NUMBER
    &&& c.level0_max_compact_file_number == DEFAULT_LEVEL0_MAX_COMPACT_FILE_NUMBER
    &&& c.level0_sub_level_compact_level_count == DEFAULT_LEVEL0_SUB_LEVEL_COMPACT_LEVEL_COUNT
    &&& c.level0_overlapping_sub_level_compact_level_count
        == DEFAULT_LEVEL0_OVERLAPPING_SUB_LEVEL_COMPACT_LEVEL_COUNT
    &&& c.level0_stop_write_threshold_merge_iter_count
        == DEFAULT_LEVEL0_STOP_WRITE_THRESHOLD_MERGE_ITER_COUNT
    &&& c.level0_stop_write_threshold_overlapping_file_count
        == DEFAULT_LEVEL0_STOP_WRITE_THRESHOLD_OVERLAPPING_FILE_COUNT
}

/// The policy that `opt` describes: the defaults, with every setting that
/// `opt` carries taken from it.
pub open spec fn is_config_of_opt(c: CompactionConfig, opt: CompactionConfigOpt) -> bool {
    &&& c.max_bytes_for_level_base == opt.max_bytes_for_level_base
    &&& c.max_bytes_for_level_multiplier == opt.max_bytes_for_level_multiplier
    &&& c.max_level == MAX_LEVEL
    &&& c.max_compaction_bytes == opt.max_compaction_bytes
    &&& c.sub_level_max_compaction_bytes == opt.sub_level_max_compaction_bytes
    &&& c.level0_tier_compact_file_number == opt.level0_tier_compact_file_number
    &&& c.target_file_size_base == opt.target_file_size_base
    &&& c.compaction_mode == COMPACTION_MODE_RANGE
    &&& strings_view(c.compression_algorithm@) == default_compression()
    &&& c.compaction_filter_mask == opt.compaction_filter_mask
    &&& c.max_sub_compaction == opt.max_sub_compaction
    &&& c.max_space_reclaim_bytes == opt.max_space_reclaim_bytes
    &&& !c.split_by_state_table
    &&& c.split_weight_by_vnode == 0
    &&& c.level0_stop_write_threshold_sub_level_number
        == opt.level0_stop_write_threshold_sub_level_number
    &&& c.level0_max_compact_file_number == opt.level0_max_compact_file_number
    &&& c.level0_sub_level_compact_level_count == opt.level0_sub_level_compact_level_count
    &&& c.level0_overlapping_sub_level_compact_level_count
        == opt.level0_overlapping_sub_level_compact_level_count
    &&& c.level0_stop_write_threshold_merge_iter_count
        == DEFAULT_LEVEL0_STOP_WRITE_THRESHOLD_MERGE_ITER_COUNT
    &&& c.level0_stop_write_threshold_overlapping_file_count
        == DEFAULT_LEVEL0_STOP_WRITE_THRESHOLD_OVERLAPPING_FILE_COUNT
}

/// Whether the policy passes validation.
pub open spec fn config_is_valid(c: CompactionConfig) -> bool {
    c.level0_stop_write_threshold_sub_level_number >= SUB_LEVEL_NUMBER_THRESHOLD_MIN
}

pub open spec fn too_small_message(v: u64) -> Seq<char> {
    decimal(v as nat)
        + " is too small for level0_stop_write_threshold_sub_level_number, expect >= "@
        + decimal(SUB_LEVEL_NUMBER_THRESHOLD_MIN as nat)
}

/// Builder of a [`CompactionConfig`].
pub struct CompactionConfigBuilder {
    pub config: CompactionConfig,
}

fn default_compression_algorithm() -> (r: Vec<String>)
    ensures
        strings_view(r@) == default_compression(),
{
    let mut r: Vec<String> = Vec::new();
    r.push(String::from_str("None"));
    r.push(String::from_str("None"));
    r.push(String::from_str("None"));
    r.push(String::from_str("Lz4"));
    r.push(String::from_str("Lz4"));
    r.push(String::from_str("Zstd"));
    r.push(String::from_str("Zstd"));
    assert(strings_view(r@) =~= default_compression());
    r
}

impl CompactionConfigBuilder {
    pub fn new() -> (r: Self)
        ensures
            is_default_config(r.config),
    {
        CompactionConfigBuilder {
            config: CompactionConfig {
                max_bytes_for_level_base: DEFAULT_MAX_BYTES_FOR_LEVEL_BASE,
                max_bytes_for_level_multiplier: DEFAULT_MAX_BYTES_FOR_LEVEL_MULTIPLIER,
                max_level: MAX_LEVEL,
                max_compaction_bytes: DEFAULT_MAX_COMPACTION_BYTES,
                sub_level_max_compaction_bytes: DEFAULT_SUB_LEVEL_MAX_COMPACTION_BYTES,
                level0_tier_compact_file_number: DEFAULT_LEVEL0_TIER_COMPACT_FILE_NUMBER,
                target_file_size_base: DEFAULT_TARGET_FILE_SIZE_BASE,
                compaction_mode: COMPACTION_MODE_RANGE,
                compression_algorithm: default_compression_algorithm(),
                compaction_filter_mask: DEFAULT_COMPACTION_FILTER_MASK,
                max_sub_compaction: DEFAULT_MAX_SUB_COMPACTION,
                max_space_reclaim_bytes: DEFAULT_MAX_SPACE_RECLAIM_BYTES,
                split_by_state_table: false,
                split_weight_by_vnode: 0,
                level0_stop_write_threshold_sub_level_number:
                    DEFAULT_LEVEL0_STOP_WRITE_THRESHOLD_SUB_LEVEL_NUMBER,
                // Larger than `level0_tier_compact_file_number`, and times
                // `target_file_size_base` larger than `max_bytes_for_level_base`.
                level0_max_compact_file_number: DEFAULT_LEVEL0_MAX_COMPACT_FILE_NUMBER,
                level0_sub_level_compact_level_count: DEFAULT_LEVEL0_SUB_LEVEL_COMPACT_LEVEL_COUNT,
                level0_overlapping_sub_level_compact_level_count:
                    DEFAULT_LEVEL0_OVERLAPPING_SUB_LEVEL_COMPACT_LEVEL_COUNT,
                level0_stop_write_threshold_merge_iter_count:
                    DEFAULT_LEVEL0_STOP_WRITE_THRESHOLD_MERGE_ITER_COUNT,
                level0_stop_write_threshold_overlapping_file_count:
                    DEFAULT_LEVEL0_STOP_WRITE_THRESHOLD_OVERLAPPING_FILE_COUNT,
            },
        }
    }

    pub fn with_config(config: CompactionConfig) -> (r: Self)
        ensures
            r.config == config,
    {
        CompactionConfigBuilder { config }
    }

    pub fn with_opt(opt: &CompactionConfigOpt) -> (r: Self)
        ensures
            is_config_of_opt(r.config, *opt),
    {
        Self::new()
            .max_bytes_for_level_base(opt.max_bytes_for_level_base)
            .max_bytes_for_level_multiplier(opt.max_bytes_for_level_multiplier)
            .max_compaction_bytes(opt.max_compaction_bytes)
            .sub_level_max_compaction_bytes(opt.sub_level_max_compaction_bytes)
            .level0_tier_compact_file_number(opt.level0_tier_compact_file_number)
            .target_file_size_base(opt.target_file_size_base)
            .compaction_filter_mask(opt.compaction_filter_mask)
            .max_sub_compaction(opt.max_sub_compaction)
            .level0_stop_write_threshold_sub_level_number(
                opt.level0_stop_write_threshold_sub_level_number,
            )
            .level0_sub_level_compact_level_count(opt.level0_sub_level_compact_level_count)
            .level0_overlapping_sub_level_compact_level_count(
                opt.level0_overlapping_sub_level_compact_level_count,
            )
            .max_space_reclaim_bytes(opt.max_space_reclaim_bytes)
            .level0_max_compact_file_number(opt.level0_max_compact_file_number)
    }

    /// Returns the policy as it stands. An invalid policy is returned
    /// unchanged: validation is advisory, and callers that want to warn
    /// about it ask [`validate_compaction_config`].
    pub fn build(self) -> (r: CompactionConfig)
        ensures
            r == self.config,
    {
        self.config
    }
}

/// Returns `Ok` if `config` is valid, or the reason why it is not.
pub fn validate_compaction_config(config: &CompactionConfig) -> (r: Result<(), String>)
    ensures
        r is Ok <==> config_is_valid(*config),
        r matches Err(msg) ==> msg@ == too_small_message(
            config.level0_stop_write_threshold_sub_level_number,
        ),
{
    let sub_level_number_threshold_min = SUB_LEVEL_NUMBER_THRESHOLD_MIN;
    if config.level0_stop_write_threshold_sub_level_number < sub_level_number_threshold_min {
        let mut msg = String::new();
        append_decimal(&mut msg, config.level0_stop_write_threshold_sub_level_number);
        msg.append(" is too small for level0_stop_write_threshold_sub_level_number, expect >= ");
        append_decimal(&mut msg, sub_level_number_threshold_min);
        assert(msg@ =~= too_small_message(config.level0_stop_write_threshold_sub_level_number));
        return Err(msg);
    }
    Ok(())
}

impl Default for CompactionConfigBuilder {
    fn default() -> (r: Self)
        ensures
            is_default_config(r.config),
    {
        Self::new()
    }
}

/// Setters: each replaces one setting and keeps the others.
impl CompactionConfigBuilder {
    pub fn max_bytes_for_level_base(self, v: u64) -> (r: Self)
        ensures
            r.config == (CompactionConfig { max_bytes_for_level_base: v, ..self.config }),
    {
        let mut s = self;
        s.config.max_bytes_for_level_base = v;
        s
    }

    pub fn max_bytes_for_level_multiplier(self, v: u64) -> (r: Self)
        ensures
            r.config == (CompactionConfig { max_bytes_for_level_multiplier: v, ..self.config }),
    {
        let mut s = self;
        s.config.max_bytes_for_level_multiplier = v;
        s
    }

    pub fn max_level(self, v: u64) -> (r: Self)
        ensures
            r.config == (CompactionConfig { max_level: v, ..self.config }),
    {
        let mut s = self;
        s.config.max_level = v;
        s
    }

    pub fn max_compaction_bytes(self, v: u64) -> (r: Self)
        ensures
            r.config == (CompactionConfig { max_compaction_bytes: v, ..self.config }),
    {
        let mut s = self;
        s.config.max_compaction_bytes = v;
        s
    }

    pub fn sub_level_max_compaction_bytes(self, v: u64) -> (r: Self)
        ensures
            r.config == (CompactionConfig { sub_level_max_compaction_bytes: v, ..self.config }),
    {
        let mut s = self;
        s.config.sub_level_max_compaction_bytes = v;
        s
    }

    pub fn level0_tier_compact_file_number(self, v: u64) -> (r: Self)
        ensures
            r.config == (CompactionConfig { level0_tier_compact_file_number: v, ..self.config }),
    {
        let mut s = self;
        s.config.level0_tier_compact_file_number = v;
        s
    }

    pub fn compaction_mode(self, v: i32) -> (r: Self)
        ensures
            r.config == (CompactionConfig { compaction_mode: v, ..self.config }),
    {
        let mut s = self;
        s.config.compaction_mode = v;
        s
    }

    pub fn compression_algorithm(self, v: Vec<String>) -> (r: Self)
        ensures
            r.config == (CompactionConfig { compression_algorithm: v, ..self.config }),
    {
        let mut s = self;
        s.config.compression_algorithm = v;
        s
    }

    pub fn compaction_filter_mask(self, v: u32) -> (r: Self)
        ensures
            r.config == (CompactionConfig { compaction_filter_mask: v, ..self.config }),
    {
        let mut s = self;
        s.config.compaction_filter_mask = v;
        s
    }

    pub fn target_file_size_base(self, v: u64) -> (r: Self)
        ensures
            r.config == (CompactionConfig { target_file_size_base: v, ..self.config }),
    {
        let mut s = self;
        s.config.target_file_size_base = v;
        s
    }

    pub fn max_sub_compaction(self, v: u32) -> (r: Self)
        ensures
            r.config == (CompactionConfig { max_sub_compaction: v, ..self.config }),
    {
        let mut s = self;
        s.config.max_sub_compaction = v;
        s
    }

    pub fn max_space_reclaim_bytes(self, v: u64) -> (r: Self)
        ensures
            r.config == (CompactionConfig { max_space_reclaim_bytes: v, ..self.config }),
    {
        let mut s = self;
        s.config.max_space_reclaim_bytes = v;
        s
    }

    pub fn level0_stop_write_threshold_sub_level_number(self, v: u64) -> (r: Self)
        ensures
            r.config == (CompactionConfig { level0_stop_write_threshold_sub_level_number: v, ..self.config }),
    {
        let mut s = self;
        s.config.level0_stop_write_threshold_sub_level_number = v;
        s
    }

    pub fn level0_max_compact_file_number(self, v: u64) -> (r: Self)
        ensures
            r.config == (CompactionConfig { level0_max_compact_file_number: v, ..self.config }),
    {
        let mut s = self;
        s.config.level0_max_compact_file_number = v;
        s
    }

    pub fn level0_sub_level_compact_level_count(self, v: u32) -> (r: Self)
        ensures
            r.config == (CompactionConfig { level0_sub_level_compact_level_count: v, ..self.config }),
    {
        let mut s = self;
        s.config.level0_sub_level_compact_level_count = v;
        s
    }

    pub fn level0_overlapping_sub_level_compact_level_count(self, v: u32) -> (r: Self)
        ensures
            r.config == (CompactionConfig { level0_overlapping_sub_level_compact_level_count: v, ..self.config }),
    {
        let mut s = self;
        s.config.level0_overlapping_sub_level_compact_level_count = v;
        s
    }

    pub fn level0_stop_write_threshold_merge_iter_count(self, v: u64) -> (r: Self)
        ensures
            r.config == (CompactionConfig { level0_stop_write_threshold_merge_iter_count: v, ..self.config }),
    {
        let mut s = self;
        s.config.level0_stop_write_threshold_merge_iter_count = v;
        s
    }

    pub fn level0_stop_write_threshold_overlapping_file_count(self, v: u64) -> (r: Self)
        ensures
            r.config == (CompactionConfig { level0_stop_write_threshold_overlapping_file_count: v, ..self.config }),
    {
        let mut s = self;
        s.config.level0_stop_write_threshold_overlapping_file_count = v;
        s
    }
}

} // verus!
