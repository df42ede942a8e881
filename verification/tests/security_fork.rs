use crabwatch::security_fork::{is_ghsa_id_suffix, is_security_advisory_fork};

#[test]
fn identifies_security_advisory_fork() {
    assert!(is_security_advisory_fork(
        "example-ghsa-5wrv-w8mc-fq5j",
        true
    ));
}

#[test]
fn retains_public_repository_with_advisory_name() {
    assert!(!is_security_advisory_fork(
        "example-ghsa-5wrv-w8mc-fq5j",
        false
    ));
}

#[test]
fn rejects_invalid_security_advisory_names() {
    let names = [
        // Missing the `-ghsa-` separator and advisory ID.
        "private-repository",
        // The advisory ID contains characters outside the GHSA alphabet.
        "example-ghsa-abcd-1234-efgh",
        // The final advisory ID group has only three characters.
        "example-ghsa-5wrv-w8mc-fq5",
        // The `-ghsa-` separator is case-sensitive.
        "example-GHSA-5wrv-w8mc-fq5j",
        // Missing a repository name and its separating hyphen before `ghsa`.
        "ghsa-5wrv-w8mc-fq5j",
    ];

    for name in names {
        assert!(!is_security_advisory_fork(name, true), "accepted {name}");
    }
}

#[test]
fn fork_name_uses_the_last_separator() {
    // A repository name may itself contain the separator.
    assert!(is_security_advisory_fork("a-ghsa-b-ghsa-5wrv-w8mc-fq5j", true));
    // The shortest fork name: a one-character repository.
    assert!(is_security_advisory_fork("x-ghsa-2345-6789-cfgh", true));
    // Nothing before the separator.
    assert!(!is_security_advisory_fork("-ghsa-2345-6789-cfgh", true));
    // A fourth group.
    assert!(!is_security_advisory_fork("x-ghsa-2345-6789-cfgh-jmpq", true));
    // Text after the identifier.
    assert!(!is_security_advisory_fork("x-ghsa-2345-6789-cfghx", true));
}

#[test]
fn advisory_identifiers() {
    assert!(is_ghsa_id_suffix("5wrv-w8mc-fq5j"));
    assert!(is_ghsa_id_suffix("xwvr-qpmj-hgfc"));
    assert!(!is_ghsa_id_suffix("5wrv-w8mc-fq5"));
    assert!(!is_ghsa_id_suffix("5wrv-w8mcfq5j-"));
    assert!(!is_ghsa_id_suffix("5wrv-w8mc-fq5a"));
    assert!(!is_ghsa_id_suffix("1wrv-w8mc-fq5j"));
    assert!(!is_ghsa_id_suffix("5WRV-w8mc-fq5j"));
    assert!(!is_ghsa_id_suffix(""));
    assert!(!is_ghsa_id_suffix("5wrv-w8mc-fq5é"));
}
