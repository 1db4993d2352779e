use schedulecommit::diagnostics::{
    filter_for_file_stem, init_logger_for_test_path, log_exec_details, CommittedTransaction,
    LogFilter, LogLevel,
};

fn replaced(rust_log: Option<&str>, path: &str, level: Option<&str>) -> Option<String> {
    let filter = init_logger_for_test_path(
        rust_log.map(|s| s.to_string()),
        path,
        level.map(|s| s.to_string()),
    );
    match filter {
        LogFilter::Replace(filter) => Some(filter),
        LogFilter::Keep => None,
        LogFilter::NoFileName => panic!("no file name"),
    }
}

#[test]
fn file_is_added_to_an_empty_filter() {
    let path = "programs/tests/01_commit.rs";
    assert_eq!(replaced(None, path, None).unwrap(), "01_commit=info");
    assert_eq!(replaced(Some(""), path, None).unwrap(), "01_commit=info");
    assert_eq!(replaced(None, path, Some("debug")).unwrap(), "01_commit=debug");
}

#[test]
fn file_is_added_behind_a_comma() {
    let path = "programs/tests/01_commit.rs";
    assert_eq!(replaced(Some("warn,"), path, None).unwrap(), "warn,01_commit=info");
    assert_eq!(replaced(Some("warn,"), path, Some("trace")).unwrap(), "warn,01_commit=trace");
}

#[test]
fn other_filters_stay() {
    assert!(replaced(Some("warn"), "tests/a.rs", None).is_none());
    assert!(replaced(Some("warn,01_commit=info"), "tests/a.rs", Some("trace")).is_none());
    let once = replaced(Some("warn,"), "tests/a.rs", None).unwrap();
    assert!(replaced(Some(&once), "tests/b.rs", None).is_none());
}

#[test]
fn extension_is_cut_at_the_last_dot() {
    assert_eq!(replaced(None, "a.b.rs", None).unwrap(), "a.b=info");
    assert_eq!(replaced(None, "x/.hidden", None).unwrap(), ".hidden=info");
    assert_eq!(replaced(None, "x/.hidden.rs", None).unwrap(), ".hidden=info");
    assert_eq!(replaced(None, "x.y/plain", None).unwrap(), "plain=info");
    assert_eq!(replaced(None, "/abs/t.rs", None).unwrap(), "t=info");
    assert_eq!(replaced(None, "x/end.", None).unwrap(), "end=info");
}

#[test]
fn trailing_slashes_and_single_dots_do_not_count() {
    assert_eq!(replaced(None, "x/tests.d/", None).unwrap(), "tests=info");
    assert_eq!(replaced(None, "x/tests.d/.", None).unwrap(), "tests=info");
    assert_eq!(replaced(None, "foo.txt/.//", None).unwrap(), "foo=info");
    assert_eq!(replaced(None, "a//b.rs", None).unwrap(), "b=info");
    assert_eq!(replaced(None, "...", None).unwrap(), "..=info");
}

#[test]
fn file_is_found_whatever_the_separators() {
    for path in ["\\tests\\a_test.rs", "tests\\a_test.rs"] {
        let filter = replaced(Some("warn,"), path, None).unwrap();
        assert!(filter.starts_with("warn,"));
        assert!(filter.ends_with("a_test=info"));
    }
}

#[test]
fn last_name_is_found_behind_a_drive_and_backslashes() {
    assert_eq!(replaced(None, "C:/t/a.rs", None).unwrap(), "a=info");
    assert_eq!(replaced(None, "C:\\t/a.b.rs/", None).unwrap(), "a.b=info");
    let filter = replaced(None, "C:a.rs", None).unwrap();
    assert!(filter == "a=info" || filter == "C:a=info");
    assert!(matches!(init_logger_for_test_path(None, "C:/..", None), LogFilter::NoFileName));
}

#[test]
fn path_without_a_file_is_told() {
    for path in ["", "/", ".", "./", "./.", "..", "a/../", "/."] {
        assert!(matches!(init_logger_for_test_path(None, path, None), LogFilter::NoFileName));
    }
    assert!(matches!(init_logger_for_test_path(None, "a/..", None), LogFilter::NoFileName));
    assert!(matches!(
        init_logger_for_test_path(Some("warn".to_string()), "a/..", None),
        LogFilter::Keep
    ));
    assert!(matches!(filter_for_file_stem(None, None, None), LogFilter::NoFileName));
}

fn told(status: Result<(), String>, log_messages: Option<Vec<String>>) -> Vec<(LogLevel, String)> {
    log_exec_details(&CommittedTransaction { status, log_messages })
        .into_iter()
        .map(|line| (line.level, line.text))
        .collect()
}

#[test]
fn logs_of_a_transaction_are_told() {
    let logs = vec!["Program log: one".to_string(), "two".to_string()];
    let info = |s: &str| (LogLevel::Info, s.to_string());
    assert_eq!(
        told(Ok(()), Some(logs)),
        vec![
            info(""),
            info("=============== Logs ==============="),
            info("> Program log: one"),
            info("> two"),
            info(""),
        ]
    );
    assert_eq!(
        told(Ok(()), None),
        vec![info(""), info("=============== Logs ==============="), info("")]
    );
}

#[test]
fn failed_transaction_tells_only_its_error() {
    let lines = told(Err("AccountNotFound".to_string()), Some(vec!["hidden".to_string()]));
    assert_eq!(lines.len(), 3);
    assert_eq!(
        lines[2],
        (LogLevel::Error, "error executing transaction: AccountNotFound".to_string())
    );
}
