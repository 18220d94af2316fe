use mtg_forge_rs::logger::{is_stopping_message, is_valid_stopping_point, GameLogger, OutputMode, VerbosityLevel};

#[test]
fn logger_test_logger_creation() {
    let logger = GameLogger::new();
    assert_eq!(logger.verbosity(), VerbosityLevel::Normal);
}

#[test]
fn logger_test_logger_with_verbosity() {
    let logger = GameLogger::with_verbosity(VerbosityLevel::Silent);
    assert_eq!(logger.verbosity(), VerbosityLevel::Silent);
}

#[test]
fn logger_test_log_capture() {
    let mut logger = GameLogger::new();
    logger.enable_capture();

    logger.normal("test message");
    logger.minimal("minimal message");

    let logs = logger.logs();
    assert_eq!(logs.len(), 2);
    assert_eq!(logs.as_slice()[0].message, "test message");
    assert_eq!(logs.as_slice()[1].message, "minimal message");
}

#[test]
fn logger_test_zero_copy_iteration() {
    let mut logger = GameLogger::new();
    logger.enable_capture();

    for i in 0..100 {
        logger.normal(&format!("message {}", i));
    }

    // Iterate without copying
    let count = logger.logs().iter().filter(|log| log.message.contains("5")).count();

    // Should match: 5, 15, 25, ..., 95, 50-59
    assert!(count > 10);
}

#[test]
fn test_capture_suppresses_stdout() {
    let mut logger = GameLogger::new();
    logger.enable_capture();

    assert!(logger.is_capturing());

    // Captured, not printed: no line comes back to print.
    assert_eq!(logger.normal("message 1"), None);
    assert_eq!(logger.normal("message 2"), None);
    assert_eq!(logger.minimal("minimal message"), None);

    let logs = logger.logs();
    assert_eq!(logs.len(), 3);
    assert_eq!(logs.as_slice()[0].message, "message 1");
    assert_eq!(logs.as_slice()[1].message, "message 2");
    assert_eq!(logs.as_slice()[2].message, "minimal message");
}

#[test]
fn test_flush_buffer() {
    let mut logger = GameLogger::new();
    logger.enable_capture();

    logger.normal("message 1");
    logger.normal("message 2");

    assert_eq!(logger.logs().len(), 2);

    // Flush gives the lines to print and clears the buffer
    let lines = logger.flush_buffer();
    assert_eq!(lines, vec!["  message 1".to_string(), "  message 2".to_string()]);
    assert_eq!(logger.logs().len(), 0);
}

#[test]
fn test_disable_capture() {
    let mut logger = GameLogger::new();
    logger.enable_capture();
    assert!(logger.is_capturing());

    logger.disable_capture();
    assert!(!logger.is_capturing());
}

#[test]
fn logger_printing_follows_verbosity_and_mode() {
    let mut logger = GameLogger::with_verbosity(VerbosityLevel::Minimal);
    assert_eq!(logger.minimal("done"), Some("done".to_string()));
    assert_eq!(logger.normal("step"), None);
    logger.set_output_mode(OutputMode::Both);
    assert_eq!(logger.verbose("detail"), None);
    assert_eq!(logger.logs().len(), 1);
    logger.set_verbosity(VerbosityLevel::Verbose);
    assert_eq!(logger.verbose("detail"), Some("  detail".to_string()));
    // Flushing shows only what the verbosity allows at flush time.
    logger.set_verbosity(VerbosityLevel::Minimal);
    assert_eq!(logger.flush_buffer().len(), 0);
}

#[test]
fn logger_flush_tail_and_choices() {
    let mut logger = GameLogger::new();
    logger.enable_capture();
    for i in 0..5 {
        logger.normal(&format!("line {}", i));
    }
    let (notice, lines) = logger.flush_tail(2);
    assert_eq!(notice, Some(">>> 3 LOG LINES ELIDED. PRINTING LAST 2 LINES <<<".to_string()));
    assert_eq!(lines, vec!["  line 3".to_string(), "  line 4".to_string()]);
    assert_eq!(logger.logs().len(), 0);

    logger.set_output_mode(OutputMode::Both);
    logger.set_debug_state_hash(true);
    let (debug, out) = logger.controller_choice("SCRIPT", "chose 1");
    assert_eq!(debug, Some("  >>> SCRIPT: chose 1".to_string()));
    assert_eq!(out, Some("  chose 1".to_string()));
    let logs = logger.get_logs();
    assert_eq!(logs.len(), 1);
    assert_eq!(logs[0].category, Some("controller_choice".to_string()));
}

fn entry(message: &str) -> mtg_forge_rs::logger::LogEntry {
    mtg_forge_rs::logger::LogEntry { level: VerbosityLevel::Normal, message: message.to_string(), category: None }
}

#[test]
fn stopping_point_after_choice_or_game_end() {
    assert!(is_valid_stopping_point(&[]));
    assert!(is_stopping_message(">>> Alice chose Forest"));
    assert!(is_stopping_message(">>> RANDOM picks"));
    assert!(is_stopping_message("=== Game Over ==="));
    assert!(is_stopping_message("Bob wins!"));
    assert!(!is_stopping_message("Alice chose Forest"));
    assert!(!is_stopping_message(">>> draws a card"));

    let logs = vec![entry(">>> HEURISTIC attacks"), entry("a"), entry("b"), entry("c"), entry("d")];
    assert!(is_valid_stopping_point(&logs));
    let logs = vec![entry(">>> ZERO passes"), entry("a"), entry("b"), entry("c"), entry("d"), entry("e")];
    assert!(!is_valid_stopping_point(&logs));
    let logs = vec![entry("Turn 3"), entry("untap")];
    assert!(!is_valid_stopping_point(&logs));
}
