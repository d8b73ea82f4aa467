//! The log bridge protocol: each inbound text frame from the served page has
//! the shape `level,payload`, where the payload may itself begin with a
//! redundant severity prefix token (`TRACE `, `DEBUG `, `INFO `, `WARN `,
//! `ERROR `) that overrides the outer level before being stripped.
//!
//! A frame without a separator, or with an unrecognized outer level and no
//! inner prefix, is reported as a recoverable parse error rather than
//! terminating the bridge.

use vstd::prelude::*;
use vstd::string::StrSliceExecFns;

use crate::strutil::{find_char, first_index, lemma_first_index_none, lemma_first_index_some, occurs_at, starts_with_at, substring_copy};

verus! {

/// Severity at which a relayed message is re-emitted by the host.
#[derive(Clone, Copy, PartialEq, Eq, Structural, Debug)]
pub enum LogLevel {
    Trace,
    Debug,
    Info,
    Warn,
    Error,
}

/// Why an inbound frame could not be relayed.
#[derive(Clone, Copy, PartialEq, Eq, Structural, Debug)]
pub enum LogParseError {
    /// The frame holds no `,` separating level from payload.
    MissingSeparator,
    /// The outer level token is not one of the recognized set and the
    /// payload carries no overriding prefix.
    UnknownLevel,
}

/// The severity override carried by a payload prefix token, with the
/// remaining payload after stripping it.
pub open spec fn inner_override(text: Seq<char>) -> Option<(LogLevel, Seq<char>)> {
    if occurs_at(text, "TRACE "@, 0) {
        Some((LogLevel::Trace, text.skip("TRACE "@.len() as int)))
    } else if occurs_at(text, "DEBUG "@, 0) {
        Some((LogLevel::Debug, text.skip("DEBUG "@.len() as int)))
    } else if occurs_at(text, "INFO "@, 0) {
        Some((LogLevel::Info, text.skip("INFO "@.len() as int)))
    } else if occurs_at(text, "WARN "@, 0) {
        Some((LogLevel::Warn, text.skip("WARN "@.len() as int)))
    } else if occurs_at(text, "ERROR "@, 0) {
        Some((LogLevel::Error, text.skip("ERROR "@.len() as int)))
    } else {
        None
    }
}

/// The severity named by an outer level token; `log` is emitted at info.
pub open spec fn outer_level(level: Seq<char>) -> Option<LogLevel> {
    if level == "log"@ {
        Some(LogLevel::Info)
    } else if level == "trace"@ {
        Some(LogLevel::Trace)
    } else if level == "debug"@ {
        Some(LogLevel::Debug)
    } else if level == "info"@ {
        Some(LogLevel::Info)
    } else if level == "warn"@ {
        Some(LogLevel::Warn)
    } else if level == "error"@ {
        Some(LogLevel::Error)
    } else {
        None
    }
}

/// The whole protocol: split on the first `,`, let an inner payload prefix
/// override the outer level, otherwise resolve the outer token.
pub open spec fn spec_parse_log(msg: Seq<char>) -> Result<(LogLevel, Seq<char>), LogParseError> {
    match first_index(msg, ',') {
        None => Err(LogParseError::MissingSeparator),
        Some(i) => {
            let level = msg.take(i);
            let text = msg.skip(i + 1);
            match inner_override(text) {
                Some(r) => Ok(r),
                None => match outer_level(level) {
                    Some(l) => Ok((l, text)),
                    None => Err(LogParseError::UnknownLevel),
                },
            }
        },
    }
}

/// Strip the given payload prefix token and return the rest of the payload.
fn strip_token(text: &str, token: &str) -> (r: String)
    requires
        occurs_at(text@, token@, 0),
    ensures
        r@ == text@.skip(token@.len() as int),
{
    let tlen = token.unicode_len();
    let len = text.unicode_len();
    let r = substring_copy(text, tlen, len);
    proof {
        assert(r@ =~= text@.skip(token@.len() as int));
    }
    r
}

/// Parse one inbound log bridge frame into the severity to emit at and the
/// payload to relay.
pub fn parse_log_message(msg: &str) -> (r: Result<(LogLevel, String), LogParseError>)
    ensures
        match r {
            Ok(p) => spec_parse_log(msg@) == Ok::<_, LogParseError>((p.0, p.1@)),
            Err(e) => spec_parse_log(msg@) == Err::<(LogLevel, Seq<char>), _>(e),
        },
{
    let len = msg.unicode_len();
    let comma = match find_char(msg, ',') {
        Some(i) => {
            proof {
                lemma_first_index_some(msg@, ',', i as int);
            }
            i
        },
        None => {
            proof {
                lemma_first_index_none(msg@, ',');
            }
            return Err(LogParseError::MissingSeparator);
        },
    };
    let level = substring_copy(msg, 0, comma);
    let text = substring_copy(msg, comma + 1, len);
    proof {
        assert(level@ =~= msg@.take(comma as int));
        assert(text@ =~= msg@.skip(comma + 1));
    }

    if starts_with_at(text.as_str(), "TRACE ", 0) {
        return Ok((LogLevel::Trace, strip_token(text.as_str(), "TRACE ")));
    }
    if starts_with_at(text.as_str(), "DEBUG ", 0) {
        return Ok((LogLevel::Debug, strip_token(text.as_str(), "DEBUG ")));
    }
    if starts_with_at(text.as_str(), "INFO ", 0) {
        return Ok((LogLevel::Info, strip_token(text.as_str(), "INFO ")));
    }
    if starts_with_at(text.as_str(), "WARN ", 0) {
        return Ok((LogLevel::Warn, strip_token(text.as_str(), "WARN ")));
    }
    if starts_with_at(text.as_str(), "ERROR ", 0) {
        return Ok((LogLevel::Error, strip_token(text.as_str(), "ERROR ")));
    }

    if crate::strutil::str_eq(level.as_str(), "log") {
        return Ok((LogLevel::Info, text));
    }
    if crate::strutil::str_eq(level.as_str(), "trace") {
        return Ok((LogLevel::Trace, text));
    }
    if crate::strutil::str_eq(level.as_str(), "debug") {
        return Ok((LogLevel::Debug, text));
    }
    if crate::strutil::str_eq(level.as_str(), "info") {
        return Ok((LogLevel::Info, text));
    }
    if crate::strutil::str_eq(level.as_str(), "warn") {
        return Ok((LogLevel::Warn, text));
    }
    if crate::strutil::str_eq(level.as_str(), "error") {
        return Ok((LogLevel::Error, text));
    }
    Err(LogParseError::UnknownLevel)
}

} // verus!
