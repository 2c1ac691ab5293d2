use find_stutter::collector::{
    aggregate_gpu_utilization, assemble, sample_top_pids, select_top_pid_order, NetRates, ProcessFingerprint, ProcessFingerprintSampler, RawCounters,
    Schedule,
};
use find_stutter::elevate::{join_args, refused_early, start_failed, waited, wide_string, ElevateOutcome, WaitResult};
use find_stutter::level::Level;
use find_stutter::types::ProcessBrief;

fn lv(x: f32) -> Level {
    Level::of_bits((x as f64).to_bits())
}

fn picks(v: &[(u32, f32, u64)]) -> Vec<(u32, Level, u64)> {
    v.iter().map(|(p, c, m)| (*p, lv(*c), *m)).collect()
}

#[test]
fn select_top_pid_order_matches_merge_top_semantics() {
    assert_eq!(select_top_pid_order(picks(&[(1, 90.0, 100), (2, 80.0, 200), (3, 70.0, 900)]), 2, 2, 12), vec![1, 2, 3]);
    assert_eq!(
        select_top_pid_order(picks(&[(1, 90.0, 10), (2, 80.0, 20), (4, 5.0, 800), (5, 4.0, 700)]), 2, 2, 12),
        vec![1, 2, 4, 5]
    );
    let many: Vec<(u32, f32, u64)> = (1..=20).map(|i| (i as u32, 100.0 - i as f32, (i as u64) * 10)).collect();
    let out = select_top_pid_order(picks(&many), 8, 8, 12);
    assert_eq!(out.len(), 12);
    assert_eq!(&out[..8], &[1, 2, 3, 4, 5, 6, 7, 8]);
    assert_eq!(sample_top_pids(picks(&many)), out);
    assert!(select_top_pid_order(picks(&many), 8, 8, 0).is_empty());
}

#[test]
fn select_top_pid_order_handles_small_input() {
    assert!(select_top_pid_order(Vec::new(), 8, 8, 12).is_empty());
    assert_eq!(select_top_pid_order(picks(&[(7, 1.0, 1)]), 8, 8, 12), vec![7]);
}

#[test]
fn picks_and_briefs_rank_alike() {
    let raw = [(1u32, 3.0f32, 50u64), (2, 9.0, 5), (3, 1.0, 80), (4, 9.0, 90)];
    let briefs: Vec<ProcessBrief> = raw
        .iter()
        .map(|(p, c, m)| ProcessBrief { pid: *p, cpu_usage: lv(*c), mem_used_mb: *m, ..ProcessBrief::default() })
        .collect();
    let merged: Vec<u32> = ProcessBrief::merge_top(briefs, 2, 2, 3).iter().map(|p| p.pid).collect();
    assert_eq!(merged, select_top_pid_order(picks(&raw), 2, 2, 3));
    assert_eq!(merged, vec![2, 4, 3]);
}

#[test]
fn gpu_empty_returns_none() {
    assert_eq!(aggregate_gpu_utilization(&[]), None);
}

#[test]
fn gpu_single_engine() {
    assert_eq!(aggregate_gpu_utilization(&[Some(42)]), Some(42));
}

#[test]
fn gpu_multi_engine_sum() {
    assert_eq!(aggregate_gpu_utilization(&[Some(30), Some(40)]), Some(70));
}

#[test]
fn gpu_caps_at_100() {
    assert_eq!(aggregate_gpu_utilization(&[Some(50), Some(40), Some(30)]), Some(100));
}

#[test]
fn gpu_missing_engine_treated_as_zero() {
    assert_eq!(aggregate_gpu_utilization(&[Some(30), None, Some(40)]), Some(70));
}

#[test]
fn gpu_all_missing_returns_zero() {
    assert_eq!(aggregate_gpu_utilization(&[None, None]), Some(0));
}

#[test]
fn gpu_overflow_saturates() {
    assert_eq!(aggregate_gpu_utilization(&[Some(u64::MAX), Some(u64::MAX)]), Some(100));
}

#[test]
fn collector_new() {
    assert_eq!(Schedule::new(0, 0).tick, 0);
}

#[test]
fn collector_collect_increments_tick() {
    let mut s = Schedule::new(0, 0);
    assert_eq!(s.tick, 0);
    s.begin(true);
    assert_eq!(s.tick, 1);
    s.begin(true);
    assert_eq!(s.tick, 2);
}

#[test]
fn collector_collect_with_controls_top_processes() {
    let mut s = Schedule::new(0, 0);
    assert!(!s.begin(false).top_processes);
    assert!(s.begin(true).top_processes);
}

#[test]
fn collector_network_delta_tracking() {
    let mut s = Schedule::new(1000, 2000);
    assert_eq!(s.net_rates(1500, 2600), NetRates { sent: 500, recv: 600 });
    assert_eq!(s.net_rates(1200, 2700), NetRates { sent: 0, recv: 100 });
}

#[test]
fn slow_readings_come_by_turns() {
    let mut s = Schedule::new(0, 0);
    let plans: Vec<(bool, bool)> = (0..30).map(|_| s.begin(false)).map(|p| (p.freq_temp, p.gpu)).collect();
    assert_eq!(plans.iter().filter(|p| p.0).count(), 6);
    assert_eq!(plans.iter().filter(|p| p.1).count(), 2);
}

#[test]
fn counters_become_readings() {
    let c = RawCounters {
        cpu_usage: lv(12.5),
        cpu_freq_mhz: Some(lv(3000.0)),
        cpu_temp: None,
        gpu_usage: None,
        mem_total_bytes: 16 * 1024 * 1024 * 1024,
        mem_used_bytes: 3 * 1024 * 1024 + 7,
        mem_available_bytes: 5 * 1024 * 1024 - 1,
        mem_usage_percent: lv(40.0),
        swap_usage_percent: lv(1.0),
        commit_bytes: 1,
        commit_limit: 2,
        page_reads_per_sec: lv(3.0),
        disk_read_bps: 4,
        disk_write_bps: 5,
        disk_busy_percent: lv(6.0),
        disk_avg_io_ms: lv(7.0),
        dpc_percent: lv(8.0),
        interrupt_percent: lv(9.0),
        context_switches_per_sec: lv(10.0),
        net_sent_total: 11,
        net_recv_total: 12,
        process_count: 13,
    };
    let r = assemble(&c, NetRates { sent: 14, recv: 15 });
    assert_eq!((r.mem_total_mb, r.mem_used_mb, r.mem_available_mb), (16384, 3, 4));
    assert_eq!((r.net_sent_bps, r.net_recv_bps, r.net_sent_total, r.net_recv_total), (14, 15, 11, 12));
    assert_eq!(r.cpu_freq_mhz, Some(lv(3000.0)));
    assert_eq!(r.disk_avg_io_ms, lv(7.0));
    assert_eq!(r.process_count, 13);
}

#[test]
fn transfers_are_counted_from_the_second_look_on() {
    let mut s = ProcessFingerprintSampler::new();
    assert_eq!(s.io_since(7, 100, 10), None);
    assert_eq!(s.io_since(7, 250, 5), Some((150, 0)));
    assert_eq!(s.io_since(8, 1, 1), None);
}

#[test]
fn fingerprints_fill_a_brief() {
    let f = ProcessFingerprint {
        exe_path: Some("C:\\a.exe".to_string()),
        handle_count: Some(5),
        gdi_objects: Some(6),
        user_objects: None,
        io_read_bps: Some(7),
        io_write_bps: None,
    };
    let mut p = ProcessBrief { pid: 9, ..ProcessBrief::default() };
    f.apply_to(&mut p);
    assert_eq!(p.pid, 9);
    assert_eq!(p.exe_path.as_deref(), Some("C:\\a.exe"));
    assert_eq!((p.handle_count, p.gdi_objects, p.user_objects), (Some(5), Some(6), None));
    assert_eq!((p.io_read_bps, p.io_write_bps), (Some(7), None));
}

#[test]
fn message_contains_keywords() {
    assert!(ElevateOutcome::Exited(0).message().contains("成功"));
    assert!(ElevateOutcome::Exited(1).message().contains("非 0"));
    assert!(ElevateOutcome::UacDenied.message().contains("UAC"));
    assert!(ElevateOutcome::ShellFailed(31).message().contains("ShellExecuteExW"));
    assert!(ElevateOutcome::Timeout.message().contains("超时"));
    assert!(ElevateOutcome::Unsupported.message().contains("UAC"));
    assert_eq!(ElevateOutcome::Exited(-2).message(), "提权进程完成但退出码非 0: -2");
}

#[test]
fn is_ok_predicate() {
    assert!(ElevateOutcome::Exited(0).is_ok());
    assert!(!ElevateOutcome::Exited(1).is_ok());
    assert!(!ElevateOutcome::UacDenied.is_ok());
    assert!(!ElevateOutcome::ShellFailed(0).is_ok());
    assert!(!ElevateOutcome::Timeout.is_ok());
    assert!(!ElevateOutcome::Unsupported.is_ok());
    assert!(!ElevateOutcome::Os("x".to_string()).is_ok());
}

#[test]
fn partial_eq() {
    assert_eq!(ElevateOutcome::Exited(0), ElevateOutcome::Exited(0));
    assert_ne!(ElevateOutcome::Exited(0), ElevateOutcome::Exited(1));
    assert_eq!(ElevateOutcome::UacDenied, ElevateOutcome::UacDenied);
}

#[test]
fn debug_impl_works() {
    let s = format!("{:?}", ElevateOutcome::Timeout);
    assert!(s.contains("Timeout"));
}

#[test]
fn wide_string_ends_with_null() {
    let s = wide_string("runas");
    assert_eq!(s.last(), Some(&0));
    let s2 = wide_string("");
    assert_eq!(s2, vec![0]);
}

#[test]
fn wide_string_handles_chinese() {
    let s = wide_string("安装");
    assert!(s.contains(&0x5B89));
    assert!(s.contains(&0x88C5));
    assert_eq!(s.last(), Some(&0));
}

#[test]
fn roundtrip_wide_string() {
    for s in ["hello world", "😀 a"] {
        let w = wide_string(s);
        let trimmed = &w[..w.len() - 1];
        assert_eq!(String::from_utf16(trimmed).unwrap(), s);
    }
}

#[test]
fn spawn_with_nonexistent_exe_returns_shell_failed() {
    assert!(matches!(refused_early(true, false), Some(ElevateOutcome::ShellFailed(0))));
}

#[test]
fn spawn_on_non_windows_returns_unsupported() {
    assert_eq!(refused_early(false, false), Some(ElevateOutcome::Unsupported));
}

#[test]
fn spawn_with_empty_args_on_nonexistent_exe() {
    assert_eq!(join_args(&vec![]), "");
    assert!(matches!(refused_early(true, false), Some(ElevateOutcome::ShellFailed(0))));
    assert_eq!(refused_early(true, true), None);
}

#[test]
fn failed_starts_and_waits_have_outcomes() {
    assert_eq!(start_failed(1223), ElevateOutcome::UacDenied);
    assert_eq!(start_failed(0x8007_04c7), ElevateOutcome::UacDenied);
    assert_eq!(start_failed(0x8007_0002), ElevateOutcome::Os(format!("ShellExecuteExW HRESULT 0x{:08X}", 0x8007_0002u32)));
    assert_eq!(waited(WaitResult::Ended(Some(3))), ElevateOutcome::Exited(3));
    assert_eq!(waited(WaitResult::Ended(Some(u32::MAX))), ElevateOutcome::Exited(-1));
    assert_eq!(waited(WaitResult::TimedOut), ElevateOutcome::Timeout);
    assert_eq!(waited(WaitResult::Ended(None)), ElevateOutcome::Os("GetExitCodeProcess failed".to_string()));
}

#[test]
fn arguments_with_blanks_are_quoted() {
    let args: Vec<String> = ["install", "--config", "C:\\my dir\\c.toml"].iter().map(|s| s.to_string()).collect();
    assert_eq!(join_args(&args), "install --config \"C:\\my dir\\c.toml\"");
}
