use vstd::prelude::*;

use crate::error::ErrorChain;

verus! {

/// The log levels that Crabwatch can be run at.
#[derive(Debug, PartialEq, Eq, Structural)]
pub enum LogLevel {
    Info,
    Debug,
}

/// The code point of `c`, with an ASCII capital turned into its small letter.
pub open spec fn ascii_lower(c: char) -> u32 {
    let u = c as u32;
    if 0x41 <= u <= 0x5A {
        (u + 32) as u32
    } else {
        u
    }
}

/// `a` and `b` are equal when ASCII letters are compared without case.
pub open spec fn eq_ignore_ascii_case(a: Seq<char>, b: Seq<char>) -> bool {
    &&& a.len() == b.len()
    &&& forall|i: int| 0 <= i < a.len() ==> ascii_lower(#[trigger] a[i]) == ascii_lower(b[i])
}

/// The names of the filters of the `log` crate, by index: OFF, ERROR, WARN,
/// INFO, DEBUG, TRACE.
pub open spec fn level_filter_name(i: int) -> Seq<char> {
    if i == 0 {
        "OFF"@
    } else if i == 1 {
        "ERROR"@
    } else if i == 2 {
        "WARN"@
    } else if i == 3 {
        "INFO"@
    } else if i == 4 {
        "DEBUG"@
    } else {
        "TRACE"@
    }
}

/// The index of the filter that `raw` names, case aside, if any.
pub open spec fn level_filter_index(raw: Seq<char>) -> Option<int> {
    if eq_ignore_ascii_case(level_filter_name(0), raw) {
        Some(0)
    } else if eq_ignore_ascii_case(level_filter_name(1), raw) {
        Some(1)
    } else if eq_ignore_ascii_case(level_filter_name(2), raw) {
        Some(2)
    } else if eq_ignore_ascii_case(level_filter_name(3), raw) {
        Some(3)
    } else if eq_ignore_ascii_case(level_filter_name(4), raw) {
        Some(4)
    } else if eq_ignore_ascii_case(level_filter_name(5), raw) {
        Some(5)
    } else {
        None
    }
}

/// The text of the error of `LevelFilter::from_str`.
pub open spec fn level_parse_error_text() -> Seq<char> {
    "attempted to convert a string that doesn't match an existing log level"@
}

/// Calls `log::LevelFilter::from_str` and gives the filter's index. As the
/// crate's source shows, it tries the names OFF, ERROR, WARN, INFO, DEBUG and
/// TRACE in order with `eq_ignore_ascii_case`, and otherwise fails with a
/// `ParseLevelError`, whose text is fixed.
#[verifier::external_body]
fn parse_level_filter(raw: &str) -> (r: Result<usize, String>)
    ensures
        match level_filter_index(raw@) {
            Some(i) => r == Ok::<usize, String>(i as usize),
            None => r matches Err(e) && e@ == level_parse_error_text(),
        },
{
    match raw.parse::<log::LevelFilter>() {
        Ok(filter) => Ok(filter as usize),
        Err(error) => Err(error.to_string()),
    }
}

/// The name of the environment variable that sets the log level.
pub open spec fn log_env() -> Seq<char> {
    "CRABWATCH_LOG"@
}

/// The value used when the variable is not set.
pub open spec fn level_value(raw: Option<Seq<char>>) -> Seq<char> {
    match raw {
        Some(v) => v,
        None => "info"@,
    }
}

/// The message for a value that is not a log level.
pub open spec fn invalid_level_message(value: Seq<char>) -> Seq<char> {
    "invalid CRABWATCH_LOG value `"@ + value + "`"@
}

pub open spec fn opt_text(raw: Option<&str>) -> Option<Seq<char>> {
    match raw {
        Some(s) => Some(s@),
        None => None,
    }
}

/// The log level that `CRABWATCH_LOG` asks for, given the variable's value
/// (`info` when it is not set): `info` or `debug`, in any case of the ASCII
/// letters. A value that is no level of the `log` crate, or another level,
/// is refused.
pub fn log_level(raw: Option<&str>) -> (r: Result<LogLevel, ErrorChain>)
    ensures
        ({
            let value = level_value(opt_text(raw));
            match level_filter_index(value) {
                Some(i) => if i == 3 {
                    r == Ok::<LogLevel, ErrorChain>(LogLevel::Info)
                } else if i == 4 {
                    r == Ok::<LogLevel, ErrorChain>(LogLevel::Debug)
                } else {
                    r matches Err(e) && e.message@ == invalid_level_message(value)
                        + "; expected one of: info, debug"@ && e.cause is None
                },
                None => r matches Err(e) && e.message@ == invalid_level_message(value)
                    && (e.cause matches Some(c) && c@ == level_parse_error_text()),
            }
        }),
{
    let value = match raw {
        Some(v) => v,
        None => "info",
    };
    let mut message = "invalid CRABWATCH_LOG value `".to_owned();
    message.append(value);
    message.append("`");
    match parse_level_filter(value) {
        Err(cause) => Err(ErrorChain { message, cause: Some(cause) }),
        Ok(index) => if index == 3 {
            Ok(LogLevel::Info)
        } else if index == 4 {
            Ok(LogLevel::Debug)
        } else {
            message.append("; expected one of: info, debug");
            Err(ErrorChain { message, cause: None })
        },
    }
}


/// `CRABWATCH_LOG` is accepted exactly when it is `info` or `debug`, the case
/// of its letters aside.
pub proof fn lemma_accepted_levels(value: Seq<char>)
    ensures
        level_filter_index(value) == Some(3int) <==> eq_ignore_ascii_case("info"@, value),
        level_filter_index(value) == Some(4int) <==> eq_ignore_ascii_case("debug"@, value),
{
    reveal_strlit("OFF");
    reveal_strlit("ERROR");
    reveal_strlit("WARN");
    reveal_strlit("INFO");
    reveal_strlit("DEBUG");
    reveal_strlit("TRACE");
    reveal_strlit("info");
    reveal_strlit("debug");
    if eq_ignore_ascii_case("info"@, value) {
        assert(ascii_lower("info"@[0]) == ascii_lower(value[0]));
        assert(!eq_ignore_ascii_case(level_filter_name(2), value)) by {
            assert(level_filter_name(2)[0] == 'W');
        }
        assert(eq_ignore_ascii_case(level_filter_name(3), value)) by {
            assert forall|i: int| 0 <= i < 4 implies ascii_lower(
                #[trigger] level_filter_name(3)[i],
            ) == ascii_lower(value[i]) by {
                assert(ascii_lower("info"@[i]) == ascii_lower(value[i]));
            }
        }
    }
    if eq_ignore_ascii_case(level_filter_name(3), value) {
        assert forall|i: int| 0 <= i < 4 implies ascii_lower(#[trigger] "info"@[i]) == ascii_lower(
            value[i],
        ) by {
            assert(ascii_lower(level_filter_name(3)[i]) == ascii_lower(value[i]));
        }
        assert(!eq_ignore_ascii_case(level_filter_name(2), value)) by {
            assert(ascii_lower(level_filter_name(3)[0]) == ascii_lower(value[0]));
        }
    }
    if eq_ignore_ascii_case("debug"@, value) {
        assert(ascii_lower("debug"@[0]) == ascii_lower(value[0]));
        assert(!eq_ignore_ascii_case(level_filter_name(1), value)) by {
            assert(level_filter_name(1)[0] == 'E');
        }
        assert(!eq_ignore_ascii_case(level_filter_name(5), value)) by {
            assert(level_filter_name(5)[0] == 'T');
        }
        assert(eq_ignore_ascii_case(level_filter_name(4), value)) by {
            assert forall|i: int| 0 <= i < 5 implies ascii_lower(
                #[trigger] level_filter_name(4)[i],
            ) == ascii_lower(value[i]) by {
                assert(ascii_lower("debug"@[i]) == ascii_lower(value[i]));
            }
        }
    }
    if eq_ignore_ascii_case(level_filter_name(4), value) {
        assert forall|i: int| 0 <= i < 5 implies ascii_lower(#[trigger] "debug"@[i])
            == ascii_lower(value[i]) by {
            assert(ascii_lower(level_filter_name(4)[i]) == ascii_lower(value[i]));
        }
        assert(!eq_ignore_ascii_case(level_filter_name(1), value)) by {
            assert(ascii_lower(level_filter_name(4)[0]) == ascii_lower(value[0]));
        }
    }
}

} // verus!
