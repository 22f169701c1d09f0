use image_plugins::logger::{get_log_level, get_logger_filter, LogLevel};

#[test]
fn log_level_names_map_to_levels() {
    assert_eq!(get_log_level("error"), LogLevel::Error);
    assert_eq!(get_log_level("warn"), LogLevel::Warn);
    assert_eq!(get_log_level("info"), LogLevel::Info);
    assert_eq!(get_log_level("debug"), LogLevel::Debug);
    assert_eq!(get_log_level("trace"), LogLevel::Trace);
}

#[test]
fn unknown_log_level_defaults_to_error() {
    assert_eq!(get_log_level("unknown"), LogLevel::Error);
    assert_eq!(get_log_level(""), LogLevel::Error);
    assert_eq!(get_log_level("Info"), LogLevel::Error);
}

#[test]
fn logger_filter_names_map_to_levels() {
    assert_eq!(get_logger_filter("debug"), LogLevel::Debug);
    assert_eq!(get_logger_filter("error"), LogLevel::Error);
    assert_eq!(get_logger_filter("warn"), LogLevel::Warn);
    assert_eq!(get_logger_filter("trace"), LogLevel::Trace);
}

#[test]
fn unknown_logger_filter_defaults_to_info() {
    assert_eq!(get_logger_filter("verbose"), LogLevel::Info);
    assert_eq!(get_logger_filter("info"), LogLevel::Info);
}
