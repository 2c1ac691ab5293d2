//! The loop of the service: what each tick owes, and what an event sets in motion.

use crate::cause::{EventModel, StutterEvent};
use crate::event_log::Window;
use vstd::prelude::*;

verus! {

/// The name under which the service is shown.
pub const SERVICE_DISPLAY_NAME: &'static str = "Find Stutter Monitor";

/// Every how many ticks samples are written.
pub const FLUSH_EVERY_TICKS: u64 = 10;

/// Every how many ticks old data is removed.
pub const CLEANUP_EVERY_TICKS: u64 = 3600;

/// How many seconds before its beginning the event log is searched for an event.
pub const LOOKBACK_SECS: i64 = 30;

/// The state of the loop.
#[derive(Clone, Copy, Debug, PartialEq, Eq, Structural)]
pub struct LoopState {
    pub running: bool,
    /// How many ticks have begun.
    pub count: u64,
}

/// What a tick owes besides its sample.
#[derive(Clone, Copy, Debug, PartialEq, Eq, Structural)]
pub struct TickDuties {
    pub flush: bool,
    pub cleanup: bool,
    /// Whether failures of this tick are noted in detail.
    pub verbose: bool,
}

/// What tick number `count` owes.
pub open spec fn duties(count: int) -> TickDuties {
    TickDuties {
        flush: count % (FLUSH_EVERY_TICKS as int) == 0,
        cleanup: count % (CLEANUP_EVERY_TICKS as int) == 0,
        verbose: count <= 3,
    }
}

/// The loop once a tick has begun, and what the tick owes.
pub open spec fn begun(state: LoopState) -> (LoopState, Option<TickDuties>) {
    if state.running {
        (LoopState { count: (state.count + 1) as u64, ..state }, Some(duties(state.count + 1)))
    } else {
        (state, None)
    }
}

impl LoopState {
    /// The loop before its first tick.
    pub fn new() -> (s: LoopState)
        ensures
            s == (LoopState { running: true, count: 0 }),
    {
        LoopState { running: true, count: 0 }
    }

    /// Begins a tick and says what it owes; none where the loop is to end.
    pub fn begin_tick(&mut self) -> (r: Option<TickDuties>)
        requires
            old(self).count < u64::MAX,
        ensures
            !old(self).running ==> r is None && *final(self) == *old(self),
            old(self).running ==> {
                &&& final(self).running
                &&& final(self).count == old(self).count + 1
                &&& r == Some(duties(final(self).count as int))
            },
            (*final(self), r) == begun(*old(self)),
    {
        if !self.running {
            return None;
        }
        self.count = self.count + 1;
        let count = self.count;
        Some(
            TickDuties {
                flush: count % FLUSH_EVERY_TICKS == 0,
                cleanup: count % CLEANUP_EVERY_TICKS == 0,
                verbose: count <= 3,
            },
        )
    }
}

/// Asks the loop to end before its next tick.
pub fn request_stop(state: &mut LoopState)
    ensures
        *final(state) == (LoopState { running: false, ..*old(state) }),
{
    state.running = false;
}

/// Whole seconds of milliseconds, towards zero.
pub open spec fn whole_secs(ms: int) -> int {
    if ms >= 0 {
        ms / 1000
    } else {
        -((-ms) / 1000)
    }
}

/// When an event began, in Unix seconds: by its noted beginning, or by its end where none was noted.
pub open spec fn onset_secs(e: EventModel) -> int {
    match e.onset_ts {
        Some(ms) => whole_secs(ms as int),
        None => e.timestamp.secs as int,
    }
}

/// A difference held within what seconds can express.
pub open spec fn held_difference(n: int) -> i64 {
    if n < i64::MIN {
        i64::MIN
    } else {
        n as i64
    }
}

/// The window in which the event log is searched: from a while before the event to now.
pub open spec fn window_searched(e: EventModel, now_secs: i64) -> Window {
    Window { since: held_difference(onset_secs(e) - LOOKBACK_SECS), until: now_secs }
}

/// The window in which the event log is searched: from a while before the event to now.
pub fn search_window(event: &StutterEvent, now_secs: i64) -> (w: Window)
    ensures
        w == window_searched(event@, now_secs),
{
    let onset: i128 = match event.onset_ts {
        Some(ms) => if ms >= 0 {
            ms as i128 / 1000
        } else {
            -((-(ms as i128)) / 1000)
        },
        None => event.timestamp.secs as i128,
    };
    let since: i128 = onset - LOOKBACK_SECS as i128;
    let held: i64 = if since < i64::MIN as i128 {
        i64::MIN
    } else {
        since as i64
    };
    Window { since: held, until: now_secs }
}

/// What the service manager sends.
#[derive(Clone, Copy, Debug, PartialEq, Eq, Structural)]
pub enum ControlEvent {
    Stop,
    Shutdown,
    Interrogate,
    Other,
}

/// The answer to the service manager.
#[derive(Clone, Copy, Debug, PartialEq, Eq, Structural)]
pub enum ControlReply {
    NoError,
    NotImplemented,
}

/// The loop after the service manager has sent something, and the answer to it.
pub open spec fn controlled(state: LoopState, event: ControlEvent) -> (LoopState, ControlReply) {
    (
        if event == ControlEvent::Stop || event == ControlEvent::Shutdown {
            LoopState { running: false, ..state }
        } else {
            state
        },
        if event == ControlEvent::Other {
            ControlReply::NotImplemented
        } else {
            ControlReply::NoError
        },
    )
}

/// Answers the service manager; a stop or a shutdown ends the loop.
pub fn on_control(state: &mut LoopState, event: ControlEvent) -> (r: ControlReply)
    ensures
        (*final(state), r) == controlled(*old(state), event),
{
    match event {
        ControlEvent::Stop | ControlEvent::Shutdown => {
            request_stop(state);
            ControlReply::NoError
        },
        ControlEvent::Interrogate => ControlReply::NoError,
        ControlEvent::Other => ControlReply::NotImplemented,
    }
}

/// The exit code that the service reports: zero where its loop ended well, else one.
pub fn service_exit_code(ok: bool) -> (c: u32)
    ensures
        c == if ok { 0u32 } else { 1u32 },
{
    if ok {
        0
    } else {
        1
    }
}

/// How the service goes on when it was started without a command.
#[derive(Clone, Copy, Debug, PartialEq, Eq, Structural)]
pub enum ScmRun {
    /// The service manager ran it to its end.
    Dispatched,
    /// No service manager started it: it runs in the foreground.
    Foreground,
}

/// How the service goes on when it was started without a command. `dispatched` says whether the
/// service manager took it over.
pub fn run_scm(windows: bool, dispatched: bool) -> (r: Result<ScmRun, String>)
    ensures
        match r {
            Ok(x) => windows && x == (if dispatched {
                ScmRun::Dispatched
            } else {
                ScmRun::Foreground
            }),
            Err(e) => !windows && e@ == "Windows service mode is only available on Windows; use `run` instead"@,
        },
{
    if !windows {
        Err(String::from_str("Windows service mode is only available on Windows; use `run` instead"))
    } else if dispatched {
        Ok(ScmRun::Dispatched)
    } else {
        Ok(ScmRun::Foreground)
    }
}

} // verus!
