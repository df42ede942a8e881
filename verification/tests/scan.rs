use crabwatch::scan::{
    config_sync_action, scan_report, zizmor_invocation, ConfigAction, ConfigRead, ScanOutcome,
};

#[test]
fn clean_run_combines_stderr_then_stdout() {
    let report = scan_report(Some(0), "exit status: 0", b"out", b"err\n").unwrap();
    assert_eq!(report.outcome, ScanOutcome::Clean);
    assert_eq!(report.output, "err\nout");
}

#[test]
fn exit_code_three_means_no_workflows() {
    let report = scan_report(Some(3), "exit status: 3", b"ignored", b"ignored").unwrap();
    assert_eq!(report.outcome, ScanOutcome::NoWorkflows);
    assert_eq!(report.output, "no workflows to scan");
}

#[test]
fn exit_codes_eleven_to_fourteen_mean_findings() {
    for code in 11..=14 {
        let report = scan_report(Some(code), "s", b"findings", b"").unwrap();
        assert_eq!(report.outcome, ScanOutcome::Findings);
        assert_eq!(report.output, "findings");
    }
}

#[test]
fn other_exits_fail() {
    for code in [Some(1), Some(2), Some(10), Some(15), Some(-1), None] {
        let message = scan_report(code, "exit status: 2", b"o", b"e\xff").unwrap_err();
        assert_eq!(message, "zizmor failed (exit status: 2)\nstdout:\no\nstderr:\ne\u{FFFD}");
    }
}

#[test]
fn keeps_identical_config() {
    let bundled = b"rules: {}\n";
    assert_eq!(
        config_sync_action(&ConfigRead::Contents(bundled.to_vec()), bundled),
        ConfigAction::Keep
    );
}

#[test]
fn rewrites_different_or_missing_config() {
    let bundled = b"rules: {}\n";
    assert_eq!(
        config_sync_action(&ConfigRead::Contents(b"different config".to_vec()), bundled),
        ConfigAction::Write
    );
    assert_eq!(
        config_sync_action(&ConfigRead::Contents(b"rules: {}".to_vec()), bundled),
        ConfigAction::Write
    );
    assert_eq!(config_sync_action(&ConfigRead::NotFound, bundled), ConfigAction::Write);
    assert_eq!(config_sync_action(&ConfigRead::Failed, bundled), ConfigAction::Fail);
}

#[test]
fn zizmor_gets_the_token_through_its_environment() {
    let zizmor = zizmor_invocation(b"/c/repos/o/r/abc", b"/c/zizmor-default.yml", "secret");
    assert_eq!(zizmor.program, "zizmor");
    let expected: Vec<&[u8]> = vec![
        b"--config",
        b"/c/zizmor-default.yml",
        b"--strict-collection",
        b"/c/repos/o/r/abc",
    ];
    assert_eq!(zizmor.args, expected);
    assert_eq!(
        zizmor.env,
        vec![("ZIZMOR_GITHUB_TOKEN".to_string(), "secret".to_string())]
    );
}
