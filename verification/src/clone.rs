use vstd::prelude::*;

use crate::error::ErrorChain;
use crate::process::{arg, arg_bytes, ProcessInvocation};
use crate::text::{from_utf8, from_utf8_lossy, trim, trim_chars, utf8_error_text, utf8_lossy};
use vstd::utf8::{decode_utf8, encode_utf8, valid_utf8};

verus! {

/// The URL that a shallow clone of `org/repo` is fetched from, the token
/// authenticating the request.
pub open spec fn spec_clone_url(org: Seq<char>, repo: Seq<char>, github_token: Seq<char>) -> Seq<
    char,
> {
    "https://"@ + github_token + "@github.com/"@ + org + "/"@ + repo + ".git"@
}

pub fn clone_url(org: &str, repo: &str, github_token: &str) -> (url: String)
    ensures
        url@ == spec_clone_url(org@, repo@, github_token@),
{
    let mut url = "https://".to_owned();
    url.append(github_token);
    url.append("@github.com/");
    url.append(org);
    url.append("/");
    url.append(repo);
    url.append(".git");
    url
}

/// A labelled block of process output, as added to an error message: nothing
/// for empty output, else a line with the label and the output's text without
/// surrounding whitespace.
pub open spec fn diagnostic(label: Seq<char>, output: Seq<u8>) -> Seq<char> {
    if output.len() == 0 {
        Seq::empty()
    } else {
        "\n"@ + label + ":\n"@ + trim_chars(utf8_lossy(output))
    }
}

/// Adds the process output `output` under `label` to `message`.
pub fn append_diagnostic(message: &mut String, label: &str, output: &[u8])
    ensures
        final(message)@ == old(message)@ + diagnostic(label@, output@),
{
    if output.len() == 0 {
        assert(old(message)@ + diagnostic(label@, output@) =~= old(message)@);
        return ;
    }
    let text = from_utf8_lossy(output);
    message.append("\n");
    message.append(label);
    message.append(":\n");
    message.append(trim(text.as_str()).as_str());
}

/// The message of the error for a failed clone of `org/repo`.
pub open spec fn clone_failure_message(
    org: Seq<char>,
    repo: Seq<char>,
    status: Seq<char>,
    stdout: Seq<u8>,
    stderr: Seq<u8>,
) -> Seq<char> {
    "git clone failed for https://github.com/"@ + org + "/"@ + repo + " (status = "@ + status
        + ")"@ + diagnostic("stdout"@, stdout) + diagnostic("stderr"@, stderr)
}

/// The error for a clone of `org/repo` that exited with `status`, having
/// written `stdout` and `stderr`.
pub fn clone_failure(org: &str, repo: &str, status: &str, stdout: &[u8], stderr: &[u8]) -> (message:
    String)
    ensures
        message@ == clone_failure_message(org@, repo@, status@, stdout@, stderr@),
{
    let mut message = "git clone failed for https://github.com/".to_owned();
    message.append(org);
    message.append("/");
    message.append(repo);
    message.append(" (status = ");
    message.append(status);
    message.append(")");
    append_diagnostic(&mut message, "stdout", stdout);
    append_diagnostic(&mut message, "stderr", stderr);
    message
}

/// The message of the error when the clone holds another commit than expected.
pub open spec fn sha_mismatch_message(actual: Seq<char>, expected: Seq<char>) -> Seq<char> {
    "cloned SHA "@ + actual + " does not match expected SHA "@ + expected
        + " (the repository may have been updated during the clone)"@
}

/// Succeeds when the clone holds the expected commit.
pub fn check_cloned_sha(actual: &str, expected: &str) -> (r: Result<(), String>)
    ensures
        actual@ == expected@ ==> r is Ok,
        actual@ != expected@ ==> (r matches Err(e) && e@ == sha_mismatch_message(
            actual@,
            expected@,
        )),
{
    if actual.to_owned() == expected.to_owned() {
        Ok(())
    } else {
        let mut message = "cloned SHA ".to_owned();
        message.append(actual);
        message.append(" does not match expected SHA ");
        message.append(expected);
        message.append(" (the repository may have been updated during the clone)");
        Err(message)
    }
}

/// The messages of the errors of `git rev-parse`.
pub open spec fn rev_parse_failure_message(status: Seq<char>) -> Seq<char> {
    "git rev-parse failed ("@ + status + ")"@
}

pub open spec fn rev_parse_not_utf8_message() -> Seq<char> {
    "git rev-parse output was not valid UTF-8"@
}

/// The commit that `git rev-parse --verify HEAD^{commit}` printed: its output
/// without surrounding whitespace, when it succeeded and printed UTF-8. Output
/// that is not UTF-8 gives an error caused by the decoding error.
pub fn rev_parse_sha(success: bool, status: &str, stdout: Vec<u8>) -> (r: Result<String, ErrorChain>)
    ensures
        !success ==> (r matches Err(e) && e.message@ == rev_parse_failure_message(status@)
            && e.cause is None),
        success && !valid_utf8(stdout@) ==> (r matches Err(e) && e.message@
            == rev_parse_not_utf8_message() && (e.cause matches Some(c) && c@ == utf8_error_text(
            stdout@,
        ))),
        success && valid_utf8(stdout@) ==> (r matches Ok(sha) && sha@ == trim_chars(
            decode_utf8(stdout@),
        )),
{
    if !success {
        let mut message = "git rev-parse failed (".to_owned();
        message.append(status);
        message.append(")");
        return Err(ErrorChain { message, cause: None });
    }
    let ghost bytes = stdout@;
    match from_utf8(stdout) {
        Ok(text) => Ok(trim(text.as_str())),
        Err(cause) => Err(
            ErrorChain {
                message: "git rev-parse output was not valid UTF-8".to_owned(),
                cause: Some(cause),
            },
        ),
    }
}

/// `git clone --depth 1 <url> <dest>`: a shallow clone of `url` into `dest`.
pub fn clone_invocation(url: &str, dest: &[u8]) -> (p: ProcessInvocation)
    ensures
        p.program@ == "git"@,
        arg_bytes(p.args@) == seq![
            encode_utf8("clone"@),
            encode_utf8("--depth"@),
            encode_utf8("1"@),
            encode_utf8(url@),
            dest@,
        ],
        p.env@.len() == 0,
{
    let mut args: Vec<Vec<u8>> = Vec::new();
    args.push(arg("clone".as_bytes()));
    args.push(arg("--depth".as_bytes()));
    args.push(arg("1".as_bytes()));
    args.push(arg(url.as_bytes()));
    args.push(arg(dest));
    assert(arg_bytes(args@) =~= seq![
        encode_utf8("clone"@),
        encode_utf8("--depth"@),
        encode_utf8("1"@),
        encode_utf8(url@),
        dest@,
    ]);
    ProcessInvocation { program: "git".to_owned(), args, env: Vec::new() }
}

/// `git -C <repo_path> rev-parse --verify HEAD^{commit}`: the commit that the
/// checkout at `repo_path` holds.
pub fn rev_parse_invocation(repo_path: &[u8]) -> (p: ProcessInvocation)
    ensures
        p.program@ == "git"@,
        arg_bytes(p.args@) == seq![
            encode_utf8("-C"@),
            repo_path@,
            encode_utf8("rev-parse"@),
            encode_utf8("--verify"@),
            encode_utf8("HEAD^{commit}"@),
        ],
        p.env@.len() == 0,
{
    let mut args: Vec<Vec<u8>> = Vec::new();
    args.push(arg("-C".as_bytes()));
    args.push(arg(repo_path));
    args.push(arg("rev-parse".as_bytes()));
    args.push(arg("--verify".as_bytes()));
    args.push(arg("HEAD^{commit}".as_bytes()));
    assert(arg_bytes(args@) =~= seq![
        encode_utf8("-C"@),
        repo_path@,
        encode_utf8("rev-parse"@),
        encode_utf8("--verify"@),
        encode_utf8("HEAD^{commit}"@),
    ]);
    ProcessInvocation { program: "git".to_owned(), args, env: Vec::new() }
}

} // verus!
