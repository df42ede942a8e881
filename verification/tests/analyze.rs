use std::path::{Path, PathBuf};

use crabwatch::command::analyze::{
    analysis_report, cache_path, crabwatch_dir, crabwatch_dir_from, github_token,
    incomplete_org_scan_error, parse_repo, sort_failures, OrgScan, ParsedRepo,
};

fn test_repo() -> ParsedRepo {
    ParsedRepo {
        org: "rust-lang".to_string(),
        repo: "crabwatch".to_string(),
    }
}

fn repo(org: &str, name: &str) -> ParsedRepo {
    ParsedRepo {
        org: org.to_string(),
        repo: name.to_string(),
    }
}

#[test]
fn parses_valid_input() {
    let parsed = parse_repo("rust-lang/crabwatch").unwrap();
    assert_eq!(parsed, test_repo());
}

#[test]
fn rejects_input_without_slash() {
    assert!(parse_repo("rust-lang").is_err());
}

#[test]
fn rejects_empty_owner() {
    assert!(parse_repo("/crabwatch").is_err());
}

#[test]
fn rejects_empty_name() {
    assert!(parse_repo("rust-lang/").is_err());
}

#[test]
fn rejects_too_many_parts() {
    assert!(parse_repo("a/b/c").is_err());
}

#[test]
fn cache_path_default_uses_cache_dir() {
    let repo = test_repo();
    let sha = "abc123";
    let crabwatch_dir = crabwatch_dir(None).unwrap();
    let path = String::from_utf8(cache_path(&repo, &crabwatch_dir, sha)).unwrap();
    let expected = dirs::cache_dir()
        .unwrap()
        .join("crabwatch")
        .join("repos")
        .join("rust-lang")
        .join("crabwatch")
        .join(sha);
    assert_eq!(PathBuf::from(path), expected);
}

#[test]
fn cache_path_override_replaces_base() {
    let repo = test_repo();
    let sha = "abc123";
    let override_dir = Path::new("/tmp/test-cache");
    let crabwatch_dir = crabwatch_dir(Some(override_dir.to_str().unwrap().as_bytes())).unwrap();
    let path = String::from_utf8(cache_path(&repo, &crabwatch_dir, sha)).unwrap();
    assert_eq!(
        PathBuf::from(path),
        PathBuf::from("/tmp/test-cache/repos/rust-lang/crabwatch").join(sha)
    );
}

#[test]
fn parse_error_names_the_expected_form() {
    assert_eq!(
        parse_repo("a/b/c").unwrap_err(),
        "--repo must be in the form owner/name"
    );
    assert_eq!(parse_repo("").unwrap_err(), "--repo must be in the form owner/name");
    assert!(parse_repo("/").is_err());
}

#[test]
fn parsed_parts_rejoin_to_the_input() {
    for input in ["a/b", "rust-lang/crabwatch", "ünï/cödé"] {
        let parsed = parse_repo(input).unwrap();
        assert_eq!(format!("{}/{}", parsed.org, parsed.repo), input);
    }
}

#[test]
fn crabwatch_dir_from_cache_dir() {
    assert_eq!(
        crabwatch_dir_from(None, Some(b"/home/alice/.cache")).unwrap(),
        b"/home/alice/.cache/crabwatch"
    );
    assert_eq!(
        crabwatch_dir_from(Some(b"/srv/cache"), Some(b"/home/alice/.cache")).unwrap(),
        b"/srv/cache"
    );
    // A directory whose name is not UTF-8 is kept as it is.
    assert_eq!(
        crabwatch_dir_from(None, Some(b"/home/\xff/.cache")).unwrap(),
        b"/home/\xff/.cache/crabwatch"
    );
    assert_eq!(
        crabwatch_dir_from(None, None).unwrap_err(),
        "no cache directory available; try passing --cache-dir"
    );
}

#[test]
fn cache_path_under_trailing_slash() {
    let path = cache_path(&test_repo(), b"/tmp/cache/", "deadbeef");
    assert_eq!(path, b"/tmp/cache/repos/rust-lang/crabwatch/deadbeef");
}

#[test]
fn token_is_required() {
    assert_eq!(github_token(Some("t0k")).unwrap(), "t0k");
    assert_eq!(
        github_token(None).unwrap_err(),
        "a GitHub token is required (--github-token or GITHUB_TOKEN env var)"
    );
}

#[test]
fn report_of_a_cached_repository() {
    let out = analysis_report("abc123", b"/c/repos/o/r/abc123", true, "all good\n\n  ");
    assert_eq!(
        out,
        "HEAD commit: abc123\ncache hit: /c/repos/o/r/abc123\nall good\n"
    );
    let out = analysis_report("abc123", b"/c/x", false, "");
    assert_eq!(out, "HEAD commit: abc123\ncloning into: /c/x\n\n");
    let out = analysis_report("abc123", b"/c/\xff", false, "ok");
    assert_eq!(out, "HEAD commit: abc123\ncloning into: /c/\u{FFFD}\nok\n");
}

#[test]
fn failures_are_sorted_by_repository_name_stably() {
    let failures = vec![
        (repo("o", "zeta"), "e1".to_string()),
        (repo("o", "alpha"), "e2".to_string()),
        (repo("o", "mid"), "e3".to_string()),
        (repo("o", "alpha"), "e4".to_string()),
        (repo("o", "Alpha"), "e5".to_string()),
    ];
    let sorted = sort_failures(failures);
    let keys: Vec<(&str, &str)> = sorted
        .iter()
        .map(|(p, e)| (p.repo.as_str(), e.as_str()))
        .collect();
    assert_eq!(
        keys,
        vec![
            ("Alpha", "e5"),
            ("alpha", "e2"),
            ("alpha", "e4"),
            ("mid", "e3"),
            ("zeta", "e1")
        ]
    );
}

#[test]
fn sort_agrees_with_the_standard_sort() {
    let names = ["b", "ab", "a", "", "abc", "é", "z", "aa", "b"];
    let failures: Vec<(ParsedRepo, String)> = names
        .iter()
        .enumerate()
        .map(|(i, n)| (repo("o", n), i.to_string()))
        .collect();
    let mut expected: Vec<(String, String)> = failures
        .iter()
        .map(|(p, e)| (p.repo.clone(), e.clone()))
        .collect();
    expected.sort_by(|l, r| l.0.cmp(&r.0));
    let sorted: Vec<(String, String)> = sort_failures(failures)
        .into_iter()
        .map(|(p, e)| (p.repo, e))
        .collect();
    assert_eq!(sorted, expected);
}

#[test]
fn incomplete_scan_message_lists_failures() {
    let failures = vec![
        (repo("rust-lang", "a"), "boom".to_string()),
        (repo("rust-lang", "b"), "bang".to_string()),
    ];
    assert_eq!(
        incomplete_org_scan_error("rust-lang", 12, &failures),
        "organization scan for rust-lang incomplete: 2 of 12 repositories failed:\n  rust-lang/a: boom\n  rust-lang/b: bang"
    );
    assert_eq!(
        incomplete_org_scan_error("x", 0, &[]),
        "organization scan for x incomplete: 0 of 0 repositories failed:\n"
    );
}

#[test]
fn org_scan_collects_failures_and_reports_them_sorted() {
    let mut scan = OrgScan::new("rust-lang".to_string(), 3);
    assert_eq!(scan.found_message(), "found 3 repos in rust-lang");
    let (out, err) = scan.record(repo("rust-lang", "zz"), Err("no".to_string()));
    assert_eq!(out, "\n=== rust-lang/zz ===\n");
    assert_eq!(err.unwrap(), "failed to scan rust-lang/zz: no\n");
    let (out, err) = scan.record(repo("rust-lang", "ok"), Ok("fine\n".to_string()));
    assert_eq!(out, "\n=== rust-lang/ok ===\nfine\n");
    assert!(err.is_none());
    let _ = scan.record(repo("rust-lang", "aa"), Err("nope".to_string()));
    assert_eq!(scan.failures.len(), 2);
    assert_eq!(
        scan.finish().unwrap_err(),
        "organization scan for rust-lang incomplete: 2 of 3 repositories failed:\n  rust-lang/aa: nope\n  rust-lang/zz: no"
    );
}

#[test]
fn org_scan_without_failures_succeeds() {
    let mut scan = OrgScan::new("o".to_string(), 1);
    let _ = scan.record(repo("o", "r"), Ok(String::new()));
    assert!(scan.finish().is_ok());
}
