//! Whether the service is there and alive.

use crate::timestamps::{calendar_millis, common, millis_between, parse_rfc3339, rfc3339_moment, whole_millis};
use crate::types::Timestamp;
use vstd::prelude::*;

verus! {

/// The name under which the service is registered.
pub const SERVICE_NAME: &'static str = "FindStutter";

/// From which age in milliseconds a heartbeat is stale.
pub const HEARTBEAT_STALE_MS: i64 = 5000;

/// The state of the service.
#[derive(Clone, Copy, Debug, PartialEq, Eq, Structural)]
pub enum ScmState {
    Running,
    Stopped,
    StartPending,
    StopPending,
    ContinuePending,
    PausePending,
    Paused,
    NotFound,
}

/// The exit code for a state: zero where the service runs, two where it is not registered, else one.
pub open spec fn state_code(s: ScmState) -> i32 {
    match s {
        ScmState::Running => 0,
        ScmState::NotFound => 2,
        _ => 1,
    }
}

impl ScmState {
    /// The word for the state.
    pub fn as_str(self) -> (r: &'static str)
        ensures
            r@ == match self {
                ScmState::Running => "running"@,
                ScmState::Stopped => "stopped"@,
                ScmState::StartPending => "start_pending"@,
                ScmState::StopPending => "stop_pending"@,
                ScmState::ContinuePending => "continue_pending"@,
                ScmState::PausePending => "pause_pending"@,
                ScmState::Paused => "paused"@,
                ScmState::NotFound => "not_found"@,
            },
    {
        match self {
            ScmState::Running => "running",
            ScmState::Stopped => "stopped",
            ScmState::StartPending => "start_pending",
            ScmState::StopPending => "stop_pending",
            ScmState::ContinuePending => "continue_pending",
            ScmState::PausePending => "pause_pending",
            ScmState::Paused => "paused",
            ScmState::NotFound => "not_found",
        }
    }

    /// The exit code for the state.
    pub fn exit_code(self) -> (r: i32)
        ensures
            r == state_code(self),
    {
        match self {
            ScmState::Running => 0,
            ScmState::NotFound => 2,
            _ => 1,
        }
    }
}

/// Whether the service is alive, by its heartbeat.
#[derive(Clone, Copy, Debug, PartialEq, Eq, Structural)]
pub enum HeartbeatHealth {
    Running,
    Stale,
    Stopped,
    NoDatabase,
}

impl HeartbeatHealth {
    /// The word for the health.
    pub fn as_str(self) -> (r: &'static str)
        ensures
            r@ == match self {
                HeartbeatHealth::Running => "running"@,
                HeartbeatHealth::Stale => "stale"@,
                HeartbeatHealth::Stopped => "stopped"@,
                HeartbeatHealth::NoDatabase => "no_database"@,
            },
    {
        match self {
            HeartbeatHealth::Running => "running",
            HeartbeatHealth::Stale => "stale",
            HeartbeatHealth::Stopped => "stopped",
            HeartbeatHealth::NoDatabase => "no_database",
        }
    }
}

/// What was found when the heartbeat was looked up.
#[derive(Debug)]
pub enum HeartbeatFound {
    /// The database is not there or cannot be opened.
    NoDatabase,
    /// It holds no heartbeat.
    NoHeartbeat,
    /// The stored text of the last heartbeat.
    Last(String),
}

/// The health of the service with the last heartbeat and its age.
#[derive(Debug)]
pub struct HeartbeatInfo {
    pub health: HeartbeatHealth,
    pub last_ts: Option<String>,
    pub age_ms: Option<i64>,
}

/// What a [`HeartbeatInfo`] holds.
pub struct HeartbeatModel {
    pub health: HeartbeatHealth,
    pub last_ts: Option<Seq<char>>,
    pub age_ms: Option<i64>,
}

impl View for HeartbeatInfo {
    type V = HeartbeatModel;

    open spec fn view(&self) -> HeartbeatModel {
        HeartbeatModel {
            health: self.health,
            last_ts: match self.last_ts {
                Some(s) => Some(s@),
                None => None,
            },
            age_ms: self.age_ms,
        }
    }
}

/// The age of a heartbeat is not negative.
pub open spec fn held_age(ms: i64) -> i64 {
    if ms < 0 {
        0
    } else {
        ms
    }
}

/// The health by a heartbeat; `age` is how long ago it was, if its text names a moment.
pub open spec fn judged(last: Seq<char>, age: Option<i64>) -> HeartbeatModel {
    match age {
        Some(ms) => HeartbeatModel {
            health: if held_age(ms) < HEARTBEAT_STALE_MS {
                HeartbeatHealth::Running
            } else {
                HeartbeatHealth::Stale
            },
            last_ts: Some(last),
            age_ms: Some(held_age(ms)),
        },
        None => HeartbeatModel { health: HeartbeatHealth::Stale, last_ts: Some(last), age_ms: None },
    }
}

/// How long ago a text lies, if it names a moment.
pub open spec fn age_of(last: Seq<char>, now: Timestamp) -> Option<i64> {
    match rfc3339_moment(last) {
        Some(t) => calendar_millis(t, now),
        None => None,
    }
}

/// The health by what was found.
pub open spec fn health_of(found: HeartbeatFound, now: Timestamp) -> HeartbeatModel {
    match found {
        HeartbeatFound::NoDatabase => HeartbeatModel {
            health: HeartbeatHealth::NoDatabase,
            last_ts: None,
            age_ms: None,
        },
        HeartbeatFound::NoHeartbeat => HeartbeatModel { health: HeartbeatHealth::Stopped, last_ts: None, age_ms: None },
        HeartbeatFound::Last(s) => judged(s@, age_of(s@, now)),
    }
}

/// The health by a heartbeat, given how long ago it was.
pub fn judge(last: String, age: Option<i64>) -> (r: HeartbeatInfo)
    ensures
        r@ == judged(last@, age),
{
    match age {
        Some(ms) => {
            let held: i64 = if ms < 0 {
                0
            } else {
                ms
            };
            let health = if held < HEARTBEAT_STALE_MS {
                HeartbeatHealth::Running
            } else {
                HeartbeatHealth::Stale
            };
            HeartbeatInfo { health, last_ts: Some(last), age_ms: Some(held) }
        },
        None => HeartbeatInfo { health: HeartbeatHealth::Stale, last_ts: Some(last), age_ms: None },
    }
}

/// The health of the service by what was found when its heartbeat was looked up. Between moments of the
/// years 0 to 9999 outside leap seconds, the age of the heartbeat is their difference.
pub fn query_heartbeat(found: HeartbeatFound, now: Timestamp) -> (r: HeartbeatInfo)
    ensures
        r@ == health_of(found, now),
        match found {
            HeartbeatFound::Last(s) => match rfc3339_moment(s@) {
                Some(t) => common(t) && common(now) ==> r@ == judged(s@, Some(whole_millis(t, now))),
                None => r@ == judged(s@, None),
            },
            _ => true,
        },
{
    match found {
        HeartbeatFound::NoDatabase => HeartbeatInfo {
            health: HeartbeatHealth::NoDatabase,
            last_ts: None,
            age_ms: None,
        },
        HeartbeatFound::NoHeartbeat => HeartbeatInfo { health: HeartbeatHealth::Stopped, last_ts: None, age_ms: None },
        HeartbeatFound::Last(s) => {
            let age = match parse_rfc3339(s.as_str()) {
                Some(t) => millis_between(t, now),
                None => None,
            };
            judge(s, age)
        },
    }
}

} // verus!
