//! Record synthesis: the seven-value severity enumeration, the fixed
//! message vocabularies, and the per-tick log record. A message is composed
//! from a chosen action phrase and, depending on the severity, a user
//! identifier or an error description.

use vstd::prelude::*;

verus! {

/// How many severity levels there are.
pub const LEVEL_COUNT: u64 = 7;

/// How many action phrases the vocabulary holds.
pub const ACTION_COUNT: u64 = 7;

/// How many user identifiers the vocabulary holds.
pub const USER_COUNT: u64 = 5;

/// How many error descriptions the vocabulary holds.
pub const ERROR_COUNT: u64 = 5;

/// The severity of a log record, from least to most severe.
#[derive(Clone, Copy, Debug, PartialEq, Eq, Structural)]
pub enum Level {
    Trace,
    Debug,
    Info,
    Warn,
    Error,
    Critical,
    Fatal,
}

/// The level each index selects, in severity order.
pub open spec fn index_level(i: int) -> Level {
    if i == 0 {
        Level::Trace
    } else if i == 1 {
        Level::Debug
    } else if i == 2 {
        Level::Info
    } else if i == 3 {
        Level::Warn
    } else if i == 4 {
        Level::Error
    } else if i == 5 {
        Level::Critical
    } else {
        Level::Fatal
    }
}

/// The severity a sink with the usual five levels renders a record at:
/// the two levels above `Error` collapse onto `Error`, the rest map to
/// themselves.
#[derive(Clone, Copy, Debug, PartialEq, Eq, Structural)]
pub enum SinkLevel {
    Trace,
    Debug,
    Info,
    Warn,
    Error,
}

/// The sink severity of each level.
pub open spec fn sink_of(l: Level) -> SinkLevel {
    match l {
        Level::Trace => SinkLevel::Trace,
        Level::Debug => SinkLevel::Debug,
        Level::Info => SinkLevel::Info,
        Level::Warn => SinkLevel::Warn,
        _ => SinkLevel::Error,
    }
}

impl Level {
    /// Pick the level an index selects.
    pub fn from_index(i: u64) -> (l: Level)
        requires
            i < LEVEL_COUNT,
        ensures
            l == index_level(i as int),
    {
        if i == 0 {
            Level::Trace
        } else if i == 1 {
            Level::Debug
        } else if i == 2 {
            Level::Info
        } else if i == 3 {
            Level::Warn
        } else if i == 4 {
            Level::Error
        } else if i == 5 {
            Level::Critical
        } else {
            Level::Fatal
        }
    }

    /// The severity the sink renders this level at.
    pub fn sink_level(self) -> (s: SinkLevel)
        ensures
            s == sink_of(self),
    {
        match self {
            Level::Trace => SinkLevel::Trace,
            Level::Debug => SinkLevel::Debug,
            Level::Info => SinkLevel::Info,
            Level::Warn => SinkLevel::Warn,
            Level::Error => SinkLevel::Error,
            Level::Critical => SinkLevel::Error,
            Level::Fatal => SinkLevel::Error,
        }
    }
}

/// The action phrase at each index of the vocabulary.
pub open spec fn action_text(i: int) -> Seq<char> {
    if i == 0 {
        "processing request"@
    } else if i == 1 {
        "connecting to database"@
    } else if i == 2 {
        "fetching user data"@
    } else if i == 3 {
        "updating cache"@
    } else if i == 4 {
        "validating input"@
    } else if i == 5 {
        "generating report"@
    } else {
        "sending notification"@
    }
}

/// The user identifier at each index of the vocabulary.
pub open spec fn user_text(i: int) -> Seq<char> {
    if i == 0 {
        "user123"@
    } else if i == 1 {
        "admin"@
    } else if i == 2 {
        "guest"@
    } else if i == 3 {
        "service_account"@
    } else {
        "api_client"@
    }
}

/// The error description at each index of the vocabulary.
pub open spec fn error_text(i: int) -> Seq<char> {
    if i == 0 {
        "connection timeout"@
    } else if i == 1 {
        "invalid credentials"@
    } else if i == 2 {
        "resource not found"@
    } else if i == 3 {
        "permission denied"@
    } else {
        "internal server error"@
    }
}

/// Look up an action phrase.
pub fn action_at(i: u64) -> (r: &'static str)
    requires
        i < ACTION_COUNT,
    ensures
        r@ == action_text(i as int),
{
    if i == 0 {
        "processing request"
    } else if i == 1 {
        "connecting to database"
    } else if i == 2 {
        "fetching user data"
    } else if i == 3 {
        "updating cache"
    } else if i == 4 {
        "validating input"
    } else if i == 5 {
        "generating report"
    } else {
        "sending notification"
    }
}

/// Look up a user identifier.
pub fn user_at(i: u64) -> (r: &'static str)
    requires
        i < USER_COUNT,
    ensures
        r@ == user_text(i as int),
{
    if i == 0 {
        "user123"
    } else if i == 1 {
        "admin"
    } else if i == 2 {
        "guest"
    } else if i == 3 {
        "service_account"
    } else {
        "api_client"
    }
}

/// Look up an error description.
pub fn error_at(i: u64) -> (r: &'static str)
    requires
        i < ERROR_COUNT,
    ensures
        r@ == error_text(i as int),
{
    if i == 0 {
        "connection timeout"
    } else if i == 1 {
        "invalid credentials"
    } else if i == 2 {
        "resource not found"
    } else if i == 3 {
        "permission denied"
    } else {
        "internal server error"
    }
}

/// The message a record carries, as a function of its level and the three
/// vocabulary choices. The action is always present; levels below `Info`
/// show the action alone, `Info` adds the user, `Warn` flags a possible
/// issue, and everything above renders the error description and the user.
pub open spec fn message_text(l: Level, a: int, u: int, e: int) -> Seq<char> {
    match l {
        Level::Trace => "trace "@ + action_text(a),
        Level::Debug => "debug "@ + action_text(a),
        Level::Info => "info "@ + action_text(a) + " user="@ + user_text(u),
        Level::Warn => "warn possible issue action="@ + action_text(a),
        _ => "error "@ + error_text(e) + " user="@ + user_text(u),
    }
}

/// Compose the message for a level from the chosen vocabulary entries.
pub fn build_message(level: Level, a: u64, u: u64, e: u64) -> (m: String)
    requires
        a < ACTION_COUNT,
        u < USER_COUNT,
        e < ERROR_COUNT,
    ensures
        m@ == message_text(level, a as int, u as int, e as int),
{
    match level {
        Level::Trace => {
            let mut m = String::from_str("trace ");
            m.append(action_at(a));
            m
        },
        Level::Debug => {
            let mut m = String::from_str("debug ");
            m.append(action_at(a));
            m
        },
        Level::Info => {
            let mut m = String::from_str("info ");
            m.append(action_at(a));
            m.append(" user=");
            m.append(user_at(u));
            m
        },
        Level::Warn => {
            let mut m = String::from_str("warn possible issue action=");
            m.append(action_at(a));
            m
        },
        Level::Error | Level::Critical | Level::Fatal => {
            let mut m = String::from_str("error ");
            m.append(error_at(e));
            m.append(" user=");
            m.append(user_at(u));
            m
        },
    }
}

/// One synthesized log record. The sleep interval and the sink are outside
/// concerns; the record itself is plain data.
#[derive(Debug)]
pub struct Record {
    /// Position in the emission run, starting at 1.
    pub sequence: i64,
    /// The chosen severity.
    pub level: Level,
    /// The composed message text.
    pub message: String,
    /// Optional request identifier, below 10000 when present.
    pub request_id: Option<u32>,
    /// Optional duration in microseconds, below one second when present.
    pub duration_us: Option<u32>,
}

impl Record {
    /// Well-formedness: the optional fields lie in their ranges and the
    /// message is composed from the fixed vocabularies for this level.
    pub open spec fn wf(self) -> bool {
        &&& (self.request_id matches Some(r) ==> r < 10000)
        &&& (self.duration_us matches Some(d) ==> d < 1000000)
        &&& exists|a: int, u: int, e: int|
            0 <= a < ACTION_COUNT && 0 <= u < USER_COUNT && 0 <= e < ERROR_COUNT
                && self.message@ == message_text(self.level, a, u, e)
    }
}

/// Assemble the record for one tick from the chosen level, vocabulary
/// indices and optional fields.
pub fn make_record(
    sequence: i64,
    level_idx: u64,
    a: u64,
    u: u64,
    e: u64,
    request_id: Option<u32>,
    duration_us: Option<u32>,
) -> (r: Record)
    requires
        level_idx < LEVEL_COUNT,
        a < ACTION_COUNT,
        u < USER_COUNT,
        e < ERROR_COUNT,
        request_id matches Some(x) ==> x < 10000,
        duration_us matches Some(d) ==> d < 1000000,
    ensures
        r.sequence == sequence,
        r.level == index_level(level_idx as int),
        r.message@ == message_text(r.level, a as int, u as int, e as int),
        r.request_id == request_id,
        r.duration_us == duration_us,
        r.wf(),
{
    let level = Level::from_index(level_idx);
    let message = build_message(level, a, u, e);
    let r = Record { sequence, level, message, request_id, duration_us };
    proof {
        assert(r.message@ == message_text(r.level, a as int, u as int, e as int));
    }
    r
}

} // verus!
