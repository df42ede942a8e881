# crabwatch

Crabwatch audits the GitHub Actions workflows of Rust project repositories
with [zizmor](https://docs.zizmor.sh/).

- `src/` is the library, verified with Verus: parsing of `owner/name`
  arguments, recognition of temporary private security-advisory forks, the
  GraphQL request bodies and the reading of GitHub's answers (including the
  paging through an organization's repositories), cache paths, the
  interpretation of zizmor's exit codes, the command lines of `git` and
  `zizmor`, the messages of clone failures, the `CRABWATCH_LOG` level, and the
  collection and sorted report of failed repositories. Paths are Unix paths,
  held as their bytes.
- `app/` is the command-line program around it (for Unix, whose paths are
  bytes): argument handling, HTTP
  requests, running the `git` and `zizmor` processes, and the cache on disk.
  It embeds the bundled zizmor configuration from `app/zizmor-default.yml`,
  which is not part of this tree and must be supplied there to build it.
- `tests/` holds the tests of the library.
