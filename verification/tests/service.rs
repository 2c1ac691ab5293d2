use find_stutter::cause::{StutterEvent, CauseKind};
use find_stutter::install::{
    is_service_exists_error, paths_equal, plan_install, status_command_code, status_exit_code, status_to_string, InstallAction,
    InstallFound, ScmError, ServiceStatusInfo,
};
use find_stutter::maintenance::{choose_vacuum, maintenance_hint, reclaimable_bytes, thins_cold_samples, VacuumChoice};
use find_stutter::service::{
    on_control, request_stop, run_scm, search_window, service_exit_code, ControlEvent, ControlReply, LoopState, ScmRun,
    SERVICE_DISPLAY_NAME,
};
use find_stutter::service_status::{judge, query_heartbeat, HeartbeatFound, HeartbeatHealth, ScmState, SERVICE_NAME};
use find_stutter::types::Timestamp;

const NOW: Timestamp = Timestamp { secs: 1_786_838_400, nanos: 0 };

#[test]
fn service_name_constants() {
    assert_eq!(SERVICE_NAME, "FindStutter");
    assert_eq!(SERVICE_DISPLAY_NAME, "Find Stutter Monitor");
}

#[test]
fn service_name_is_stable() {
    assert_eq!(SERVICE_NAME, "FindStutter");
}

#[test]
fn status_to_string_known_states() {
    assert_eq!(status_to_string(&ServiceStatusInfo::Running), "Running (运行中)");
    assert_eq!(status_to_string(&ServiceStatusInfo::Stopped), "Stopped (未运行)");
    assert_eq!(status_to_string(&ServiceStatusInfo::NotFound), "Not Found (服务未注册)");
}

#[test]
fn scm_error_not_found_message() {
    let e = ScmError::NotFound;
    assert_eq!(e.to_text(), "服务不存在");
}

#[test]
fn scm_errors_are_told() {
    assert_eq!(ScmError::Win("x".to_string()).to_text(), "SCM 操作失败: x");
    assert_eq!(ScmError::Io("x".to_string()).to_text(), "IO 错误: x");
    assert_eq!(ScmError::NotWindows.to_text(), "非 Windows 平台");
}

#[test]
fn scm_state_strings_stable() {
    assert_eq!(ScmState::Running.as_str(), "running");
    assert_eq!(ScmState::NotFound.as_str(), "not_found");
    assert_eq!(ScmState::StopPending.as_str(), "stop_pending");
}

#[test]
fn scm_exit_code_protocol() {
    assert_eq!(ScmState::Running.exit_code(), 0);
    assert_eq!(ScmState::Stopped.exit_code(), 1);
    assert_eq!(ScmState::StartPending.exit_code(), 1);
    assert_eq!(ScmState::Paused.exit_code(), 1);
    assert_eq!(ScmState::NotFound.exit_code(), 2);
}

#[test]
fn both_programs_agree_on_exit_codes() {
    for (told, asked) in [
        (ServiceStatusInfo::Running, ScmState::Running),
        (ServiceStatusInfo::Stopped, ScmState::Stopped),
        (ServiceStatusInfo::NotFound, ScmState::NotFound),
        (ServiceStatusInfo::Paused, ScmState::Paused),
    ] {
        assert_eq!(status_exit_code(&told), asked.exit_code());
    }
}

#[test]
fn status_commands_fail_with_three() {
    assert_eq!(status_command_code(&Ok(ServiceStatusInfo::Running)), 0);
    assert_eq!(status_command_code(&Ok(ServiceStatusInfo::StopPending)), 1);
    assert_eq!(status_command_code(&Ok(ServiceStatusInfo::NotFound)), 2);
    assert_eq!(status_command_code(&Err(ScmError::NotWindows)), 3);
}

#[test]
fn heartbeat_strings() {
    assert_eq!(HeartbeatHealth::Running.as_str(), "running");
    assert_eq!(HeartbeatHealth::Stale.as_str(), "stale");
    assert_eq!(HeartbeatHealth::Stopped.as_str(), "stopped");
    assert_eq!(HeartbeatHealth::NoDatabase.as_str(), "no_database");
}

#[test]
fn heartbeat_missing_db() {
    let hb = query_heartbeat(HeartbeatFound::NoDatabase, NOW);
    assert_eq!(hb.health, HeartbeatHealth::NoDatabase);
    assert!(hb.last_ts.is_none());
    assert!(hb.age_ms.is_none());
}

#[test]
fn heartbeat_empty_table_is_stopped() {
    let hb = query_heartbeat(HeartbeatFound::NoHeartbeat, NOW);
    assert_eq!(hb.health, HeartbeatHealth::Stopped);
    assert!(hb.last_ts.is_none());
}

#[test]
fn heartbeat_fresh_is_running() {
    let hb = query_heartbeat(HeartbeatFound::Last("2026-08-16T00:00:00+00:00".to_string()), NOW);
    assert_eq!(hb.health, HeartbeatHealth::Running);
    assert!(hb.last_ts.is_some());
    assert!(hb.age_ms.unwrap() < 5000);
}

#[test]
fn heartbeat_old_is_stale() {
    let hb = query_heartbeat(HeartbeatFound::Last("2026-08-15T22:00:00+00:00".to_string()), NOW);
    assert_eq!(hb.health, HeartbeatHealth::Stale);
    assert!(hb.age_ms.unwrap() > 7_000_000);
    assert_eq!(hb.age_ms, Some(7_200_000));
}

#[test]
fn heartbeats_go_stale_at_five_seconds() {
    let health = |s: &str| query_heartbeat(HeartbeatFound::Last(s.to_string()), NOW);
    assert_eq!(health("2026-08-15T23:59:55.001+00:00").health, HeartbeatHealth::Running);
    assert_eq!(health("2026-08-15T23:59:55+00:00").health, HeartbeatHealth::Stale);
    assert_eq!(health("2026-08-16T09:00:00+00:00").age_ms, Some(0));
    let odd = health("26-01-01T00:00:00Z");
    assert_eq!((odd.health, odd.age_ms), (HeartbeatHealth::Stale, None));
    assert_eq!(judge("t".to_string(), Some(4999)).health, HeartbeatHealth::Running);
}

#[test]
fn request_stop_sets_flag() {
    let mut state = LoopState::new();
    assert!(state.begin_tick().is_some());
    request_stop(&mut state);
    assert!(!state.running);
    assert_eq!(state.begin_tick(), None);
}

#[test]
fn ticks_have_duties() {
    let mut state = LoopState::new();
    let duties: Vec<(bool, bool, bool)> =
        (0..3600).map(|_| state.begin_tick().unwrap()).map(|d| (d.flush, d.cleanup, d.verbose)).collect();
    assert_eq!(duties[0], (false, false, true));
    assert_eq!(duties[3], (false, false, false));
    assert_eq!(duties[9], (true, false, false));
    assert_eq!(duties[3599], (true, true, false));
    assert_eq!(duties.iter().filter(|d| d.0).count(), 360);
}

#[test]
fn controls_are_answered() {
    let mut state = LoopState::new();
    assert_eq!(on_control(&mut state, ControlEvent::Interrogate), ControlReply::NoError);
    assert_eq!(on_control(&mut state, ControlEvent::Other), ControlReply::NotImplemented);
    assert!(state.running);
    assert_eq!(on_control(&mut state, ControlEvent::Stop), ControlReply::NoError);
    assert!(!state.running);
    let mut other = LoopState::new();
    on_control(&mut other, ControlEvent::Shutdown);
    assert!(!other.running);
    assert_eq!((service_exit_code(true), service_exit_code(false)), (0, 1));
}

#[test]
fn service_mode_needs_windows() {
    assert!(run_scm(false, false).is_err());
    assert_eq!(run_scm(true, true), Ok(ScmRun::Dispatched));
    assert_eq!(run_scm(true, false), Ok(ScmRun::Foreground));
}

#[test]
fn searches_begin_before_the_event() {
    let mut e = StutterEvent { onset_ts: Some(100_999), primary_cause: Some(CauseKind::CpuHigh), ..StutterEvent::default() };
    let w = search_window(&e, 500);
    assert_eq!((w.since, w.until), (70, 500));
    e.onset_ts = None;
    e.timestamp = Timestamp { secs: 200, nanos: 0 };
    assert_eq!(search_window(&e, 500).since, 170);
}

#[test]
fn installing_interrupts_only_an_old_program() {
    assert_eq!(plan_install(InstallFound::Created), vec![InstallAction::EnsureRecovery, InstallAction::Start]);
    assert_eq!(plan_install(InstallFound::Existing(true, true)), vec![]);
    assert_eq!(plan_install(InstallFound::Existing(true, false)), vec![InstallAction::Start]);
    assert_eq!(
        plan_install(InstallFound::Existing(false, true)),
        vec![InstallAction::ChangeConfig, InstallAction::Stop, InstallAction::AwaitStopped, InstallAction::Start]
    );
    assert_eq!(plan_install(InstallFound::Existing(false, false)), vec![InstallAction::ChangeConfig, InstallAction::Start]);
}

#[test]
fn paths_compare_without_case_and_slashes() {
    assert!(paths_equal("C:/Apps/Service.EXE", "c:\\apps\\service.exe"));
    assert!(paths_equal("C:\\ÄÖÜ", "c:/äöü"));
    assert!(!paths_equal("C:\\a", "C:\\b"));
    assert!(is_service_exists_error(Some(1073)));
    assert!(!is_service_exists_error(Some(1072)));
    assert!(!is_service_exists_error(None));
}

#[test]
fn vacuum_runs_from_a_twentieth_on() {
    assert_eq!(choose_vacuum(true, 100, 100), VacuumChoice::SkippedByRequest);
    assert_eq!(choose_vacuum(false, 0, 0), VacuumChoice::NothingToReclaim);
    assert_eq!(choose_vacuum(false, 4, 100), VacuumChoice::NothingToReclaim);
    assert_eq!(choose_vacuum(false, 5, 100), VacuumChoice::Run);
    assert!(thins_cold_samples(7));
    assert!(!thins_cold_samples(0));
    assert_eq!(reclaimable_bytes(3, 4096), 12_288);
    assert_eq!(reclaimable_bytes(-1, 4096), 0);
    assert_eq!(maintenance_hint(false), "");
    assert!(maintenance_hint(true).contains("VACUUM"));
}
