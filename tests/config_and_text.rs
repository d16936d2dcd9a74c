use hummock_core::compaction_config::{
    DEFAULT_LEVEL0_STOP_WRITE_THRESHOLD_SUB_LEVEL_NUMBER, DEFAULT_MAX_BYTES_FOR_LEVEL_BASE,
    MAX_LEVEL,
};
use hummock_core::{
    validate_compaction_config, CompactionConfigBuilder, CompactionConfigOpt, PostgresOffset,
    TempoConfig, TempoGen,
};

#[test]
fn tempo_yml_is_rendered_exactly() {
    let config = TempoConfig {
        listen_address: "127.0.0.1".to_string(),
        port: 3200,
        otlp_port: 4317,
    };
    let yml = TempoGen.gen_tempo_yml(&config);
    let expected = "# --- THIS FILE IS AUTO GENERATED BY RISEDEV ---\nserver:\n  http_listen_address: \"127.0.0.1\"\n  http_listen_port: 3200\n\ndistributor:\n  receivers:\n      otlp:\n        protocols:\n          grpc:\n            endpoint: \"127.0.0.1:4317\"\n    ";
    assert_eq!(yml, expected);
}

#[test]
fn tempo_yml_zero_port() {
    let config = TempoConfig { listen_address: "h".to_string(), port: 0, otlp_port: 65535 };
    let yml = TempoGen.gen_tempo_yml(&config);
    assert!(yml.contains("http_listen_port: 0\n"));
    assert!(yml.contains("endpoint: \"h:65535\""));
}

#[test]
fn builder_defaults() {
    let config = CompactionConfigBuilder::new().build();
    assert_eq!(config.max_level, MAX_LEVEL);
    assert_eq!(config.max_level, 6);
    assert_eq!(config.max_bytes_for_level_base, DEFAULT_MAX_BYTES_FOR_LEVEL_BASE);
    assert_eq!(
        config.level0_stop_write_threshold_sub_level_number,
        DEFAULT_LEVEL0_STOP_WRITE_THRESHOLD_SUB_LEVEL_NUMBER
    );
    assert_eq!(
        config.compression_algorithm,
        vec!["None", "None", "None", "Lz4", "Lz4", "Zstd", "Zstd"]
    );
    assert_eq!(config.compaction_mode, 1);
    assert!(!config.split_by_state_table);
    assert!(validate_compaction_config(&config).is_ok());
    let default_config = CompactionConfigBuilder::default().build();
    assert_eq!(default_config, config);
}

#[test]
fn builder_with_opt_takes_every_setting() {
    let opt = CompactionConfigOpt {
        max_bytes_for_level_base: 1,
        max_bytes_for_level_multiplier: 2,
        max_compaction_bytes: 3,
        sub_level_max_compaction_bytes: 4,
        level0_tier_compact_file_number: 5,
        target_file_size_base: 6,
        compaction_filter_mask: 7,
        max_sub_compaction: 8,
        level0_stop_write_threshold_sub_level_number: 9,
        level0_sub_level_compact_level_count: 10,
        level0_overlapping_sub_level_compact_level_count: 11,
        max_space_reclaim_bytes: 12,
        level0_max_compact_file_number: 13,
    };
    let c = CompactionConfigBuilder::with_opt(&opt).build();
    assert_eq!(c.max_bytes_for_level_base, 1);
    assert_eq!(c.max_bytes_for_level_multiplier, 2);
    assert_eq!(c.max_compaction_bytes, 3);
    assert_eq!(c.sub_level_max_compaction_bytes, 4);
    assert_eq!(c.level0_tier_compact_file_number, 5);
    assert_eq!(c.target_file_size_base, 6);
    assert_eq!(c.compaction_filter_mask, 7);
    assert_eq!(c.max_sub_compaction, 8);
    assert_eq!(c.level0_stop_write_threshold_sub_level_number, 9);
    assert_eq!(c.level0_sub_level_compact_level_count, 10);
    assert_eq!(c.level0_overlapping_sub_level_compact_level_count, 11);
    assert_eq!(c.max_space_reclaim_bytes, 12);
    assert_eq!(c.level0_max_compact_file_number, 13);
    assert_eq!(c.max_level, 6);
}

#[test]
fn zero_sub_level_threshold_is_kept_and_reported() {
    let config = CompactionConfigBuilder::new()
        .level0_stop_write_threshold_sub_level_number(0)
        .build();
    assert_eq!(config.level0_stop_write_threshold_sub_level_number, 0);
    let err = validate_compaction_config(&config).unwrap_err();
    assert_eq!(
        err,
        "0 is too small for level0_stop_write_threshold_sub_level_number, expect >= 1"
    );
}

#[test]
fn with_config_keeps_the_config() {
    let mut config = CompactionConfigBuilder::new().build();
    config.max_level = 3;
    let built = CompactionConfigBuilder::with_config(config.clone()).build();
    assert_eq!(built, config);
    let one = CompactionConfigBuilder::new()
        .level0_stop_write_threshold_sub_level_number(1)
        .build();
    assert!(validate_compaction_config(&one).is_ok());
}

#[test]
fn postgres_offset_default_is_zero() {
    let offset = PostgresOffset::default();
    assert_eq!(offset, PostgresOffset { txid: 0, lsn: 0 });
    assert!(PostgresOffset { txid: 1, lsn: 0 } < PostgresOffset { txid: 1, lsn: 5 });
}
