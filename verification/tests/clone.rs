use crabwatch::clone::{
    append_diagnostic, check_cloned_sha, clone_failure, clone_invocation, clone_url,
    rev_parse_invocation, rev_parse_sha,
};

#[test]
fn clone_url_carries_the_token() {
    assert_eq!(
        clone_url("rust-lang", "crabwatch", "tok"),
        "https://tok@github.com/rust-lang/crabwatch.git"
    );
}

#[test]
fn empty_output_adds_nothing() {
    let mut message = "base".to_string();
    append_diagnostic(&mut message, "stdout", b"");
    assert_eq!(message, "base");
}

#[test]
fn output_is_trimmed_and_labelled() {
    let mut message = "base".to_string();
    append_diagnostic(&mut message, "stderr", b"  \n fatal: nope \n\t");
    assert_eq!(message, "base\nstderr:\nfatal: nope");
}

#[test]
fn clone_failure_message() {
    assert_eq!(
        clone_failure("o", "r", "exit status: 128", b"", b"fatal: bad\n"),
        "git clone failed for https://github.com/o/r (status = exit status: 128)\nstderr:\nfatal: bad"
    );
    assert_eq!(
        clone_failure("o", "r", "x", b"a", b"b"),
        "git clone failed for https://github.com/o/r (status = x)\nstdout:\na\nstderr:\nb"
    );
}

#[test]
fn cloned_sha_must_match() {
    assert!(check_cloned_sha("abc", "abc").is_ok());
    assert_eq!(
        check_cloned_sha("abc", "def").unwrap_err(),
        "cloned SHA abc does not match expected SHA def (the repository may have been updated during the clone)"
    );
}

#[test]
fn rev_parse_output() {
    assert_eq!(
        rev_parse_sha(true, "exit status: 0", b"0123abc\n".to_vec()).unwrap(),
        "0123abc"
    );
    let failed = rev_parse_sha(false, "exit status: 128", b"".to_vec()).unwrap_err();
    assert_eq!(failed.message, "git rev-parse failed (exit status: 128)");
    assert!(failed.cause.is_none());
    let not_utf8 = rev_parse_sha(true, "exit status: 0", vec![b'a', 0xff, 0xfe]).unwrap_err();
    assert_eq!(not_utf8.message, "git rev-parse output was not valid UTF-8");
    assert_eq!(
        not_utf8.cause.unwrap(),
        String::from_utf8(vec![b'a', 0xff, 0xfe]).unwrap_err().to_string()
    );
}

#[test]
fn git_command_lines() {
    let clone = clone_invocation("https://t@github.com/o/r.git", b"/c/repos/o/r/abc.tmp");
    assert_eq!(clone.program, "git");
    let expected: Vec<&[u8]> = vec![
        b"clone",
        b"--depth",
        b"1",
        b"https://t@github.com/o/r.git",
        b"/c/repos/o/r/abc.tmp",
    ];
    assert_eq!(clone.args, expected);
    assert!(clone.env.is_empty());
    let rev_parse = rev_parse_invocation(b"/c/x");
    assert_eq!(rev_parse.program, "git");
    let expected: Vec<&[u8]> = vec![b"-C", b"/c/x", b"rev-parse", b"--verify", b"HEAD^{commit}"];
    assert_eq!(rev_parse.args, expected);
    assert!(rev_parse.env.is_empty());
}
