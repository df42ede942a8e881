use crabwatch::logging::{log_level, LogLevel};

#[test]
fn unset_variable_means_info() {
    assert_eq!(log_level(None).unwrap(), LogLevel::Info);
}

#[test]
fn info_and_debug_in_any_case() {
    for v in ["info", "INFO", "Info", "iNfO"] {
        assert_eq!(log_level(Some(v)).unwrap(), LogLevel::Info);
    }
    for v in ["debug", "DEBUG", "Debug"] {
        assert_eq!(log_level(Some(v)).unwrap(), LogLevel::Debug);
    }
}

#[test]
fn other_levels_are_refused() {
    for v in ["off", "error", "WARN", "trace"] {
        let error = log_level(Some(v)).unwrap_err();
        assert_eq!(
            error.message,
            format!("invalid CRABWATCH_LOG value `{v}`; expected one of: info, debug")
        );
        assert!(error.cause.is_none());
    }
}

#[test]
fn unknown_values_are_refused_with_their_cause() {
    for v in ["", "verbose", "info ", "ınfo"] {
        let error = log_level(Some(v)).unwrap_err();
        assert_eq!(error.message, format!("invalid CRABWATCH_LOG value `{v}`"));
        assert_eq!(
            error.cause.unwrap(),
            v.parse::<log::LevelFilter>().unwrap_err().to_string()
        );
    }
}
