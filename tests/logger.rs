use std::sync::RwLock;

use singleton_sort::logger::{LogLevel, Logger};

#[test]
fn test_logger_initialization() {
    let shared = RwLock::new(Logger::new());
    let logger = shared.read().unwrap();
    assert_eq!(logger.get_level(), LogLevel::Info);
}

#[test]
fn test_logger_basic_logging() {
    let shared = RwLock::new(Logger::new());
    {
        let mut logger = shared.write().unwrap();
        logger.log(LogLevel::Info, "Test message");
    }

    {
        let logger = shared.read().unwrap();
        assert!(logger.get_logs().len() > 0);
    }
}

#[test]
fn test_logger_level_filtering() {
    let shared = RwLock::new(Logger::new());
    {
        let mut logger = shared.write().unwrap();
        logger.set_level(LogLevel::Warning);
        logger.log(LogLevel::Debug, "This should not appear");
        logger.log(LogLevel::Warning, "This should appear");
    }

    {
        let logger = shared.read().unwrap();
        let logs = logger.get_logs();
        assert!(logs.iter().any(|log| log.contains("This should appear")));
    }
}

#[test]
fn logger_formats_lines_and_drops_lower_levels() {
    let mut logger = Logger::new();
    logger.log(LogLevel::Debug, "hidden");
    logger.log(LogLevel::Info, "Processing request");
    logger.log(LogLevel::Error, "Connection failed");
    assert_eq!(
        logger.get_logs(),
        &["[Info] Processing request".to_string(), "[Error] Connection failed".to_string()]
    );
    logger.set_level(LogLevel::Debug);
    logger.log(LogLevel::Debug, "now shown");
    assert_eq!(logger.get_logs().len(), 3);
    assert_eq!(logger.get_logs()[2], "[Debug] now shown");
    assert_eq!(logger.get_level(), LogLevel::Debug);
}

#[test]
fn logger_at_error_keeps_only_errors() {
    let mut logger = Logger::new();
    logger.set_level(LogLevel::Error);
    logger.log(LogLevel::Warning, "Low memory warning");
    logger.log(LogLevel::Error, "Disk failure");
    assert_eq!(logger.get_logs(), &["[Error] Disk failure".to_string()]);
}
