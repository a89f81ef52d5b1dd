use munera::Error;
use munera::logger::{LogLevel, Logger, LoggerMessage, enabled};
use munera::math::{Vec2i, Vec2u};
use munera::to_mem_size_str;

#[test]
fn error_keeps_message() {
    let e = Error::new("something went wrong");
    assert_eq!(e.message(), "something went wrong");
    let e2 = e.clone();
    assert_eq!(e2.message(), "something went wrong");
}

#[test]
fn vectors_construct_and_compare() {
    let a = Vec2i::new(-3, 4);
    assert!(a.x == -3 && a.y == 4);
    assert!(a == Vec2i::new(-3, 4));
    assert!(a != Vec2i::new(4, -3));
    assert!(Vec2i::default() == Vec2i::new(0, 0));
    let b = Vec2u::new(7, 9);
    assert!(b.x == 7 && b.y == 9);
    assert!(b == Vec2u::new(7, 9));
    assert!(Vec2u::default() == Vec2u::new(0, 0));
}

#[test]
fn mem_size_rendering() {
    assert_eq!(to_mem_size_str(0), "0 B");
    assert_eq!(to_mem_size_str(123), "123 B");
    assert_eq!(to_mem_size_str(1024), "1 KiB");
    assert_eq!(to_mem_size_str(1536), "1 KiB");
    assert_eq!(to_mem_size_str(10 * 1024 * 1024), "10 MiB");
    assert_eq!(to_mem_size_str(3 * 1024 * 1024 * 1024), "3 GiB");
    assert_eq!(to_mem_size_str(5 * 1024 * 1024 * 1024 * 1024), "5 TiB");
}

#[test]
fn logger_filters_gfx_chatter() {
    assert!(enabled("game::engine", &LogLevel::Trace));
    assert!(enabled("wgpu_core::device", &LogLevel::Warn));
    assert!(enabled("wgpu_core::device", &LogLevel::Error));
    assert!(!enabled("wgpu_core::device", &LogLevel::Info));
    assert!(!enabled("wgpu_hal", &LogLevel::Debug));
    assert!(enabled("wgp", &LogLevel::Trace));

    let mut log = Logger::new();
    log.log("wgpu_core::device", LogLevel::Info, String::from("dropped"));
    assert_eq!(log.len(), 0);
    log.log("game::engine", LogLevel::Info, String::from("kept"));
    assert_eq!(log.len(), 1);
    assert_eq!(log.at(0).message(), "kept");
    assert!(log.at(0).level() == LogLevel::Info);
}

#[test]
fn logger_message_accessors() {
    let m = LoggerMessage::new(LogLevel::Warn, String::from("careful"));
    assert!(m.level() == LogLevel::Warn);
    assert_eq!(m.message(), "careful");
}
