use std::path::PathBuf;
use veil_proxy::buffering::config::{
    default_adaptive_threshold, default_client_write_timeout, default_max_disk_buffer,
    default_max_memory_buffer, default_true, BufferingConfig, BufferingMode,
};

#[test]
fn test_buffering_mode_default() {
    let config = BufferingConfig::default();
    assert_eq!(config.mode, BufferingMode::Streaming);
    assert!(!config.is_enabled());
}

#[test]
fn test_buffering_mode_equality() {
    assert_eq!(BufferingMode::Streaming, BufferingMode::Streaming);
    assert_eq!(BufferingMode::Full, BufferingMode::Full);
    assert_eq!(BufferingMode::Adaptive, BufferingMode::Adaptive);
    assert_ne!(BufferingMode::Streaming, BufferingMode::Full);
    assert_ne!(BufferingMode::Full, BufferingMode::Adaptive);
}

#[test]
fn test_should_buffer_streaming() {
    let config = BufferingConfig { mode: BufferingMode::Streaming, ..Default::default() };
    assert!(!config.should_buffer(Some(100)));
    assert!(!config.should_buffer(Some(10_000_000)));
    assert!(!config.should_buffer(None));
}

#[test]
fn test_should_buffer_full() {
    let config = BufferingConfig { mode: BufferingMode::Full, ..Default::default() };
    assert!(config.should_buffer(Some(100)));
    assert!(config.should_buffer(Some(10_000_000)));
    assert!(config.should_buffer(None));
}

#[test]
fn test_should_buffer_adaptive() {
    let config = BufferingConfig {
        mode: BufferingMode::Adaptive,
        adaptive_threshold: 1024 * 1024,
        ..Default::default()
    };
    assert!(config.should_buffer(Some(1024)));
    assert!(config.should_buffer(Some(1024 * 1024)));
    assert!(!config.should_buffer(Some(1024 * 1024 + 1)));
    assert!(!config.should_buffer(None));
}

#[test]
fn test_should_buffer_adaptive_boundary() {
    let config = BufferingConfig {
        mode: BufferingMode::Adaptive,
        adaptive_threshold: 1000,
        ..Default::default()
    };
    assert!(config.should_buffer(Some(999)));
    assert!(config.should_buffer(Some(1000)));
    assert!(!config.should_buffer(Some(1001)));
}

#[test]
fn test_is_enabled() {
    let streaming = BufferingConfig { mode: BufferingMode::Streaming, ..Default::default() };
    assert!(!streaming.is_enabled());

    let full = BufferingConfig { mode: BufferingMode::Full, ..Default::default() };
    assert!(full.is_enabled());

    let adaptive = BufferingConfig { mode: BufferingMode::Adaptive, ..Default::default() };
    assert!(adaptive.is_enabled());
}

#[test]
fn test_disk_buffer_available() {
    let without_disk = BufferingConfig::default();
    assert!(!without_disk.disk_buffer_available());

    let with_disk = BufferingConfig {
        disk_buffer_path: Some(PathBuf::from("/tmp/buffer")),
        ..Default::default()
    };
    assert!(with_disk.disk_buffer_available());
}

#[test]
fn test_default_values() {
    let config = BufferingConfig::default();
    assert_eq!(config.max_memory_buffer, 10 * 1024 * 1024);
    assert_eq!(config.adaptive_threshold, 1024 * 1024);
    assert_eq!(config.max_disk_buffer, 100 * 1024 * 1024);
    assert_eq!(config.client_write_timeout_secs, 60);
    assert!(config.buffer_headers);
    assert!(config.disk_buffer_path.is_none());
}

#[test]
fn test_custom_config() {
    let config = BufferingConfig {
        mode: BufferingMode::Adaptive,
        max_memory_buffer: 5 * 1024 * 1024,
        adaptive_threshold: 512 * 1024,
        disk_buffer_path: Some(PathBuf::from("/var/tmp/veil")),
        max_disk_buffer: 50 * 1024 * 1024,
        client_write_timeout_secs: 120,
        buffer_headers: false,
    };
    assert_eq!(config.max_memory_buffer, 5 * 1024 * 1024);
    assert_eq!(config.adaptive_threshold, 512 * 1024);
    assert_eq!(config.disk_buffer_path, Some(PathBuf::from("/var/tmp/veil")));
    assert_eq!(config.max_disk_buffer, 50 * 1024 * 1024);
    assert_eq!(config.client_write_timeout_secs, 120);
    assert!(!config.buffer_headers);
}

#[test]
fn test_streaming_never_buffers() {
    let config = BufferingConfig {
        mode: BufferingMode::Streaming,
        adaptive_threshold: 0,
        ..Default::default()
    };
    assert!(!config.should_buffer(Some(0)));
    assert!(!config.should_buffer(Some(1)));
    assert!(!config.should_buffer(Some(usize::MAX)));
}

#[test]
fn test_full_always_buffers() {
    let config = BufferingConfig {
        mode: BufferingMode::Full,
        adaptive_threshold: usize::MAX,
        ..Default::default()
    };
    assert!(config.should_buffer(Some(0)));
    assert!(config.should_buffer(Some(usize::MAX)));
    assert!(config.should_buffer(None));
}

#[test]
fn test_adaptive_zero_threshold() {
    let config = BufferingConfig {
        mode: BufferingMode::Adaptive,
        adaptive_threshold: 0,
        ..Default::default()
    };
    assert!(config.should_buffer(Some(0)));
    assert!(!config.should_buffer(Some(1)));
    assert!(!config.should_buffer(None));
}

#[test]
fn test_adaptive_one_mebibyte_threshold() {
    let config = BufferingConfig {
        mode: BufferingMode::Adaptive,
        adaptive_threshold: 1024 * 1024,
        ..Default::default()
    };
    assert!(config.should_buffer(Some(500_000)));
    assert!(!config.should_buffer(Some(5_000_000)));
    assert!(!config.should_buffer(None));
}

#[test]
fn test_default_functions() {
    assert_eq!(default_max_memory_buffer(), 10 * 1024 * 1024);
    assert_eq!(default_adaptive_threshold(), 1024 * 1024);
    assert_eq!(default_max_disk_buffer(), 100 * 1024 * 1024);
    assert_eq!(default_client_write_timeout(), 60);
    assert!(default_true());
}

#[test]
fn test_buffering_mode_parse() {
    assert_eq!(BufferingMode::parse("streaming"), Some(BufferingMode::Streaming));
    assert_eq!(BufferingMode::parse("FULL"), Some(BufferingMode::Full));
    assert_eq!(BufferingMode::parse("Adaptive"), Some(BufferingMode::Adaptive));
    assert_eq!(BufferingMode::parse("buffered"), None);
    assert_eq!(BufferingMode::parse(""), None);
}
