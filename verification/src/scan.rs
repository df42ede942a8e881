use vstd::prelude::*;

use crate::process::{arg, arg_bytes, env_texts, ProcessInvocation};
use vstd::utf8::encode_utf8;
use crate::text::{from_utf8_lossy, utf8_lossy};

verus! {

/// How a run of zizmor ended.
#[derive(Debug, PartialEq, Eq, Structural)]
pub enum ScanOutcome {
    Clean,
    Findings,
    NoWorkflows,
}

/// What a run of zizmor reported.
#[derive(Debug)]
pub struct ScanReport {
    pub output: String,
    pub outcome: ScanOutcome,
}

/// The outcome that zizmor's exit code stands for, if any: 0 is a clean run,
/// 3 means there was no workflow to audit (with `--strict-collection` an
/// invalid workflow fails differently), and 11 to 14 mean findings, the code
/// giving the top severity.
pub open spec fn spec_scan_outcome(exit_code: Option<i32>) -> Option<ScanOutcome> {
    match exit_code {
        Some(code) => if code == 0 {
            Some(ScanOutcome::Clean)
        } else if code == 3 {
            Some(ScanOutcome::NoWorkflows)
        } else if 11 <= code <= 14 {
            Some(ScanOutcome::Findings)
        } else {
            None
        },
        None => None,
    }
}

/// The output of a run with findings or none: the standard error, then the
/// standard output, as text.
pub open spec fn combined_output(stdout: Seq<u8>, stderr: Seq<u8>) -> Seq<char> {
    utf8_lossy(stderr) + utf8_lossy(stdout)
}

/// The message of the error for a run that ended otherwise, `status` being how
/// the process exited.
pub open spec fn scan_failure_message(status: Seq<char>, stdout: Seq<u8>, stderr: Seq<u8>) -> Seq<
    char,
> {
    "zizmor failed ("@ + status + ")\nstdout:\n"@ + utf8_lossy(stdout) + "\nstderr:\n"@
        + utf8_lossy(stderr)
}

/// The report of a finished run of zizmor, from its exit code (none when a
/// signal ended it), its exit status as text, and what it wrote.
pub fn scan_report(exit_code: Option<i32>, status: &str, stdout: &[u8], stderr: &[u8]) -> (r: Result<
    ScanReport,
    String,
>)
    ensures
        (exit_code == Some(0i32) || (exit_code matches Some(c) && 11 <= c <= 14)) ==> (r is Ok
            && r->Ok_0.output@ == utf8_lossy(stderr@) + utf8_lossy(stdout@)),
        exit_code == Some(0i32) ==> (r is Ok && r->Ok_0.outcome == ScanOutcome::Clean),
        (exit_code matches Some(c) && 11 <= c <= 14) ==> (r is Ok && r->Ok_0.outcome
            == ScanOutcome::Findings),
        exit_code == Some(3i32) ==> (r is Ok && r->Ok_0.outcome == ScanOutcome::NoWorkflows
            && r->Ok_0.output@ == "no workflows to scan"@),
        (exit_code is None || (exit_code matches Some(c) && c != 0 && c != 3 && !(11 <= c
            <= 14))) ==> (r is Err && r->Err_0@ == "zizmor failed ("@ + status@
            + ")\nstdout:\n"@ + utf8_lossy(stdout@) + "\nstderr:\n"@ + utf8_lossy(stderr@)),
        match spec_scan_outcome(exit_code) {
            Some(ScanOutcome::NoWorkflows) => r matches Ok(report) && report.outcome
                == ScanOutcome::NoWorkflows && report.output@ == "no workflows to scan"@,
            Some(outcome) => r matches Ok(report) && report.outcome == outcome
                && report.output@ == combined_output(stdout@, stderr@),
            None => r matches Err(e) && e@ == scan_failure_message(status@, stdout@, stderr@),
        },
{
    let outcome = match exit_code {
        Some(code) => if code == 0 {
            Some(ScanOutcome::Clean)
        } else if code == 3 {
            Some(ScanOutcome::NoWorkflows)
        } else if 11 <= code && code <= 14 {
            Some(ScanOutcome::Findings)
        } else {
            None
        },
        None => None,
    };
    match outcome {
        Some(ScanOutcome::NoWorkflows) => Ok(
            ScanReport { output: "no workflows to scan".to_owned(), outcome: ScanOutcome::NoWorkflows },
        ),
        Some(outcome) => {
            let mut combined = from_utf8_lossy(stderr);
            combined.append(from_utf8_lossy(stdout).as_str());
            Ok(ScanReport { output: combined, outcome })
        },
        None => {
            let mut message = "zizmor failed (".to_owned();
            message.append(status);
            message.append(")\nstdout:\n");
            message.append(from_utf8_lossy(stdout).as_str());
            message.append("\nstderr:\n");
            message.append(from_utf8_lossy(stderr).as_str());
            Err(message)
        },
    }
}

/// What reading the zizmor configuration in the cache gave.
pub enum ConfigRead {
    /// The file's contents.
    Contents(Vec<u8>),
    /// There is no such file.
    NotFound,
    /// The file could not be read for another reason.
    Failed,
}

/// What to do with the zizmor configuration in the cache.
#[derive(Debug, PartialEq, Eq, Structural)]
pub enum ConfigAction {
    /// It is identical to the bundled one: leave it be.
    Keep,
    /// It is missing or differs: write the bundled one.
    Write,
    /// It could not be read: report the error.
    Fail,
}

pub open spec fn spec_config_action(read: ConfigRead, bundled: Seq<u8>) -> ConfigAction {
    match read {
        ConfigRead::Contents(contents) => if contents@ == bundled {
            ConfigAction::Keep
        } else {
            ConfigAction::Write
        },
        ConfigRead::NotFound => ConfigAction::Write,
        ConfigRead::Failed => ConfigAction::Fail,
    }
}

fn bytes_equal(a: &[u8], b: &[u8]) -> (r: bool)
    ensures
        r == (a@ == b@),
{
    if a.len() != b.len() {
        return false;
    }
    let mut i: usize = 0;
    while i < a.len()
        invariant
            a@.len() == b@.len(),
            i <= a@.len(),
            forall|k: int| 0 <= k < i ==> a@[k] == b@[k],
        decreases a@.len() - i,
    {
        if a[i] != b[i] {
            return false;
        }
        i += 1;
    }
    assert(a@ =~= b@);
    true
}

/// Decides how to bring the cached zizmor configuration in line with the
/// bundled one, `bundled`, given what reading the cached file gave.
pub fn config_sync_action(read: &ConfigRead, bundled: &[u8]) -> (action: ConfigAction)
    ensures
        action == spec_config_action(*read, bundled@),
        read is Contents ==> ((action == ConfigAction::Keep) == (read->Contents_0@ == bundled@)),
        read is Contents && read->Contents_0@ != bundled@ ==> action == ConfigAction::Write,
        read is NotFound ==> action == ConfigAction::Write,
        read is Failed ==> action == ConfigAction::Fail,
{
    match read {
        ConfigRead::Contents(contents) => if bytes_equal(contents.as_slice(), bundled) {
            ConfigAction::Keep
        } else {
            ConfigAction::Write
        },
        ConfigRead::NotFound => ConfigAction::Write,
        ConfigRead::Failed => ConfigAction::Fail,
    }
}


/// `zizmor --config <config_path> --strict-collection <repo_path>`, with the
/// GitHub token in the environment variable `ZIZMOR_GITHUB_TOKEN` (and not on
/// the command line). `--strict-collection` makes an invalid workflow fail.
pub fn zizmor_invocation(repo_path: &[u8], config_path: &[u8], github_token: &str) -> (p:
    ProcessInvocation)
    ensures
        p.program@ == "zizmor"@,
        arg_bytes(p.args@) == seq![
            encode_utf8("--config"@),
            config_path@,
            encode_utf8("--strict-collection"@),
            repo_path@,
        ],
        env_texts(p.env@) == seq![("ZIZMOR_GITHUB_TOKEN"@, github_token@)],
{
    let mut args: Vec<Vec<u8>> = Vec::new();
    args.push(arg("--config".as_bytes()));
    args.push(arg(config_path));
    args.push(arg("--strict-collection".as_bytes()));
    args.push(arg(repo_path));
    let mut env: Vec<(String, String)> = Vec::new();
    env.push(("ZIZMOR_GITHUB_TOKEN".to_owned(), github_token.to_owned()));
    assert(arg_bytes(args@) =~= seq![
        encode_utf8("--config"@),
        config_path@,
        encode_utf8("--strict-collection"@),
        repo_path@,
    ]);
    assert(env_texts(env@) =~= seq![("ZIZMOR_GITHUB_TOKEN"@, github_token@)]);
    ProcessInvocation { program: "zizmor".to_owned(), args, env }
}


/// A cached configuration is kept exactly when its bytes are the bundled ones,
/// and (over)written whenever they differ or it is missing, whatever the
/// lengths involved; one that cannot be read is reported.
pub proof fn lemma_config_action(read: ConfigRead, bundled: Seq<u8>)
    ensures
        read is Contents ==> (spec_config_action(read, bundled) == ConfigAction::Keep
            <==> read->Contents_0@ == bundled),
        read is Contents && read->Contents_0@ != bundled ==> spec_config_action(read, bundled)
            == ConfigAction::Write,
        read is NotFound ==> spec_config_action(read, bundled) == ConfigAction::Write,
        read is Failed ==> spec_config_action(read, bundled) == ConfigAction::Fail,
{
}

/// A run that exits with 0 or with 11 to 14 reports the standard error's text
/// followed by the standard output's text, both whole; exit code 3 reports no
/// workflows; any other ending is a failure.
pub proof fn lemma_scan_outcome_and_output(exit_code: Option<i32>, stdout: Seq<u8>, stderr: Seq<u8>)
    ensures
        exit_code == Some(0i32) ==> spec_scan_outcome(exit_code) == Some(ScanOutcome::Clean),
        exit_code == Some(3i32) ==> spec_scan_outcome(exit_code) == Some(ScanOutcome::NoWorkflows),
        (exit_code matches Some(c) && 11 <= c <= 14) ==> spec_scan_outcome(exit_code) == Some(
            ScanOutcome::Findings,
        ),
        (exit_code is None || (exit_code matches Some(c) && c != 0 && c != 3 && !(11 <= c
            <= 14))) ==> spec_scan_outcome(exit_code) is None,
        combined_output(stdout, stderr) == utf8_lossy(stderr) + utf8_lossy(stdout),
        combined_output(stdout, stderr).len() == utf8_lossy(stderr).len() + utf8_lossy(stdout).len(),
{
}

} // verus!
