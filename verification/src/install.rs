//! The registration of the service: what is to be done, and how its state is told.

use crate::service_status::{state_code, ScmState};
use crate::text::{chars_of, string_of};
use vstd::prelude::*;

verus! {

/// The error code of a service that is registered already.
pub const ERROR_SERVICE_EXISTS: i32 = 1073;

/// How often it is looked whether a service has stopped.
pub const STOP_POLLS: u32 = 10;

/// The state of the service as it is told.
#[derive(Clone, Copy, Debug, PartialEq, Eq, Structural)]
pub enum ServiceStatusInfo {
    Stopped,
    StartPending,
    StopPending,
    Running,
    ContinuePending,
    PausePending,
    Paused,
    NotFound,
}

/// How a state is told.
pub open spec fn status_text(s: ServiceStatusInfo) -> Seq<char> {
    match s {
        ServiceStatusInfo::Stopped => "Stopped (未运行)"@,
        ServiceStatusInfo::StartPending => "Start Pending (正在启动)"@,
        ServiceStatusInfo::StopPending => "Stop Pending (正在停止)"@,
        ServiceStatusInfo::Running => "Running (运行中)"@,
        ServiceStatusInfo::ContinuePending => "Continue Pending"@,
        ServiceStatusInfo::PausePending => "Pause Pending"@,
        ServiceStatusInfo::Paused => "Paused"@,
        ServiceStatusInfo::NotFound => "Not Found (服务未注册)"@,
    }
}

/// How a state is told.
pub fn status_to_string(s: &ServiceStatusInfo) -> (r: String)
    ensures
        r@ == status_text(*s),
{
    match s {
        ServiceStatusInfo::Stopped => String::from_str("Stopped (未运行)"),
        ServiceStatusInfo::StartPending => String::from_str("Start Pending (正在启动)"),
        ServiceStatusInfo::StopPending => String::from_str("Stop Pending (正在停止)"),
        ServiceStatusInfo::Running => String::from_str("Running (运行中)"),
        ServiceStatusInfo::ContinuePending => String::from_str("Continue Pending"),
        ServiceStatusInfo::PausePending => String::from_str("Pause Pending"),
        ServiceStatusInfo::Paused => String::from_str("Paused"),
        ServiceStatusInfo::NotFound => String::from_str("Not Found (服务未注册)"),
    }
}

/// The exit code for a state: zero where the service runs, two where it is not registered, else one.
pub open spec fn status_code(s: ServiceStatusInfo) -> i32 {
    match s {
        ServiceStatusInfo::Running => 0,
        ServiceStatusInfo::NotFound => 2,
        _ => 1,
    }
}

/// The exit code of a state.
pub fn status_exit_code(s: &ServiceStatusInfo) -> (c: i32)
    ensures
        c == status_code(*s),
{
    match s {
        ServiceStatusInfo::Running => 0,
        ServiceStatusInfo::NotFound => 2,
        _ => 1,
    }
}

/// The state as it is told of a state of the service manager.
pub open spec fn told_state(s: ScmState) -> ServiceStatusInfo {
    match s {
        ScmState::Running => ServiceStatusInfo::Running,
        ScmState::Stopped => ServiceStatusInfo::Stopped,
        ScmState::StartPending => ServiceStatusInfo::StartPending,
        ScmState::StopPending => ServiceStatusInfo::StopPending,
        ScmState::ContinuePending => ServiceStatusInfo::ContinuePending,
        ScmState::PausePending => ServiceStatusInfo::PausePending,
        ScmState::Paused => ServiceStatusInfo::Paused,
        ScmState::NotFound => ServiceStatusInfo::NotFound,
    }
}

/// The service's own command and the command line give the same exit code for the same state, and
/// zero means that the service runs.
pub proof fn lemma_exit_codes_agree(s: ScmState)
    ensures
        state_code(s) == status_code(told_state(s)),
        state_code(s) == 0 <==> s == ScmState::Running,
        state_code(s) == 2 <==> s == ScmState::NotFound,
{
}

/// The text in lower case.
pub uninterp spec fn lower_text(s: Seq<char>) -> Seq<char>;

/// `str::to_lowercase`: the text in lower case by the Unicode rules.
#[verifier::external_body]
pub(crate) fn to_lower(s: &str) -> (r: String)
    ensures
        r@ == lower_text(s@),
{
    s.to_lowercase()
}

/// A path with backslashes for slashes.
pub open spec fn backslashed(s: Seq<char>) -> Seq<char> {
    Seq::new(
        s.len(),
        |i: int|
            if s[i] == '/' {
                '\\'
            } else {
                s[i]
            },
    )
}

fn turn_slashes(s: &str) -> (r: String)
    ensures
        r@ == backslashed(s@),
{
    let v = chars_of(s);
    let mut out: Vec<char> = Vec::new();
    let mut i: usize = 0;
    while i < v.len()
        invariant
            i <= v@.len(),
            out@ == backslashed(v@).take(i as int),
        decreases v@.len() - i,
    {
        out.push(
            if v[i] == '/' {
                '\\'
            } else {
                v[i]
            },
        );
        i += 1;
        proof {
            assert(out@ =~= backslashed(v@).take(i as int));
        }
    }
    proof {
        assert(out@ =~= backslashed(v@));
    }
    string_of(&out)
}

/// Whether two paths in lower case name the same file, whichever slashes they have.
pub fn same_lowered(a: &str, b: &str) -> (r: bool)
    ensures
        r == (backslashed(a@) == backslashed(b@)),
{
    turn_slashes(a) == turn_slashes(b)
}

/// Whether two paths name the same file: letters of either case and slashes of either kind.
pub fn paths_equal(a: &str, b: &str) -> (r: bool)
    ensures
        r == (backslashed(lower_text(a@)) == backslashed(lower_text(b@))),
{
    same_lowered(to_lower(a).as_str(), to_lower(b).as_str())
}

/// Whether a failure to register says that the service is registered already.
pub fn is_service_exists_error(code: Option<i32>) -> (r: bool)
    ensures
        r == (code == Some(ERROR_SERVICE_EXISTS)),
{
    match code {
        Some(c) => c == ERROR_SERVICE_EXISTS,
        None => false,
    }
}

/// What is to be done with the service manager.
#[derive(Clone, Copy, Debug, PartialEq, Eq, Structural)]
pub enum InstallAction {
    /// Let the manager restart the service when it fails.
    EnsureRecovery,
    /// Register the present program in place of the former.
    ChangeConfig,
    Stop,
    /// Wait until it has stopped, for a limited time.
    AwaitStopped,
    Start,
}

/// What was found when the service was to be registered.
#[derive(Clone, Copy, Debug, PartialEq, Eq, Structural)]
pub enum InstallFound {
    /// It was not registered before.
    Created,
    /// It was: whether with the present program, and whether it runs.
    Existing(bool, bool),
}

/// What is to be done: a new service is started; a service of the present program is left alone but
/// for being started; one of another program is changed over, and restarted where it runs.
pub open spec fn install_actions(found: InstallFound) -> Seq<InstallAction> {
    match found {
        InstallFound::Created => seq![InstallAction::EnsureRecovery, InstallAction::Start],
        InstallFound::Existing(same, running) => if same {
            if running {
                seq![]
            } else {
                seq![InstallAction::Start]
            }
        } else if running {
            seq![
                InstallAction::ChangeConfig,
                InstallAction::Stop,
                InstallAction::AwaitStopped,
                InstallAction::Start,
            ]
        } else {
            seq![InstallAction::ChangeConfig, InstallAction::Start]
        },
    }
}

/// What is to be done with the service manager, in order.
pub fn plan_install(found: InstallFound) -> (r: Vec<InstallAction>)
    ensures
        r@ == install_actions(found),
{
    let mut r: Vec<InstallAction> = Vec::new();
    match found {
        InstallFound::Created => {
            r.push(InstallAction::EnsureRecovery);
            r.push(InstallAction::Start);
        },
        InstallFound::Existing(same, running) => {
            if !same {
                r.push(InstallAction::ChangeConfig);
            }
            if !same && running {
                r.push(InstallAction::Stop);
                r.push(InstallAction::AwaitStopped);
            }
            if !same || !running {
                r.push(InstallAction::Start);
            }
        },
    }
    proof {
        assert(r@ =~= install_actions(found));
    }
    r
}

/// A service that runs the present program is never interrupted, and in every other case it is
/// started in the end.
pub proof fn lemma_install_interrupts_only_old(found: InstallFound)
    ensures
        found == InstallFound::Existing(true, true) <==> install_actions(found).len() == 0,
        found != InstallFound::Existing(true, true) ==> install_actions(found).last() == InstallAction::Start,
        install_actions(found).contains(InstallAction::Stop) <==> found == InstallFound::Existing(false, true),
{
    let a = install_actions(found);
    if found == InstallFound::Existing(false, true) {
        assert(a[1] == InstallAction::Stop);
    }
}

/// A failure of the service manager.
#[derive(Debug)]
pub enum ScmError {
    Win(String),
    Io(String),
    NotFound,
    NotWindows,
}

/// The exit code of the command that tells the state; `state` is none where it could not be found out.
pub open spec fn command_code(state: Option<ServiceStatusInfo>) -> i32 {
    match state {
        Some(s) => status_code(s),
        None => 3,
    }
}

/// The exit code of the command that tells the state: by the state, or three where it could not be
/// found out.
pub fn status_command_code(found: &Result<ServiceStatusInfo, ScmError>) -> (c: i32)
    ensures
        c == command_code(
            match *found {
                Ok(s) => Some(s),
                Err(_) => None,
            },
        ),
        c == match *found {
            Ok(s) => status_code(s),
            Err(_) => 3,
        },
{
    match found {
        Ok(s) => status_exit_code(s),
        Err(_) => 3,
    }
}

impl ScmError {
    /// How the failure is told.
    pub fn to_text(&self) -> (s: String)
        ensures
            s@ == match *self {
                ScmError::Win(e) => "SCM 操作失败: "@ + e@,
                ScmError::Io(e) => "IO 错误: "@ + e@,
                ScmError::NotFound => "服务不存在"@,
                ScmError::NotWindows => "非 Windows 平台"@,
            },
    {
        match self {
            ScmError::Win(e) => String::from_str("SCM 操作失败: ").concat(e.as_str()),
            ScmError::Io(e) => String::from_str("IO 错误: ").concat(e.as_str()),
            ScmError::NotFound => String::from_str("服务不存在"),
            ScmError::NotWindows => String::from_str("非 Windows 平台"),
        }
    }
}

} // verus!
