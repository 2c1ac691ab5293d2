use find_stutter::cause::{cause_key, CauseKind, Severity, StutterEvent};
use find_stutter::config::{Config, DetectionConfig, SamplingConfig, StorageConfig};
use find_stutter::labels::{cause_kind_from_key, cause_kind_label, parse_severity, severity_cn};
use find_stutter::level::Level;
use find_stutter::types::{ProcessBrief, Sample, Timestamp};

fn lv(x: f32) -> Level {
    Level::of_bits((x as f64).to_bits())
}

#[test]
fn sample_default_values() {
    let s = Sample::at(Timestamp { secs: 0, nanos: 0 });
    let r = s.readings;
    assert_eq!(r.cpu_usage, lv(0.0));
    assert!(s.cpu_per_core.is_empty());
    assert!(r.cpu_freq_mhz.is_none());
    assert_eq!(r.mem_usage_percent, lv(0.0));
    assert_eq!(r.mem_used_mb, 0);
    assert_eq!(r.mem_total_mb, 0);
    assert_eq!(r.mem_available_mb, 0);
    assert_eq!(r.swap_usage_percent, lv(0.0));
    assert_eq!(r.disk_read_bps, 0);
    assert_eq!(r.disk_write_bps, 0);
    assert_eq!(r.disk_busy_percent, lv(0.0));
    assert_eq!(r.disk_avg_io_ms, lv(0.0));
    assert_eq!(r.dpc_percent, lv(0.0));
    assert_eq!(r.interrupt_percent, lv(0.0));
    assert_eq!(r.context_switches_per_sec, lv(0.0));
    assert_eq!(r.net_sent_bps, 0);
    assert_eq!(r.net_recv_bps, 0);
    assert_eq!(r.net_sent_total, 0);
    assert_eq!(r.net_recv_total, 0);
    assert!(r.gpu_usage.is_none());
    assert!(r.cpu_temp.is_none());
    assert!(r.gpu_temp.is_none());
    assert_eq!(r.process_count, 0);
    assert_eq!(r.thread_count, 0);
    assert!(s.top_processes.is_empty());
}

#[test]
fn severity_display_minor() {
    assert_eq!(Severity::Minor.to_text(), "minor");
}

#[test]
fn severity_display_major() {
    assert_eq!(Severity::Major.to_text(), "major");
}

#[test]
fn severity_display_critical() {
    assert_eq!(Severity::Critical.to_text(), "critical");
}

#[test]
fn detection_config_defaults() {
    let c = DetectionConfig::default().lines;
    assert_eq!(c.cpu_threshold, lv(90.0));
    assert_eq!(c.mem_threshold_percent, lv(90.0));
    assert_eq!(c.mem_threshold_mb, 500);
    assert_eq!(c.commit_threshold_percent, lv(90.0));
    assert_eq!(c.page_reads_threshold, lv(300.0));
    assert_eq!(c.disk_rate_spike_ratio, lv(10.0));
    assert_eq!(c.spike_ratio, lv(3.0));
    assert_eq!(c.spike_min_bps, lv(2_000_000.0));
    assert_eq!(c.sustained_seconds, 3);
    assert_eq!(c.disk_busy_threshold_percent, lv(95.0));
    assert_eq!(c.disk_io_threshold_ms, lv(50.0));
    assert_eq!(c.dpc_threshold_percent, lv(10.0));
    assert_eq!(c.interrupt_threshold_percent, lv(10.0));
    assert_eq!(c.context_switch_threshold_per_sec, lv(50_000.0));
    assert_eq!(c.disk_busy_exit, lv(95.0 * 0.5));
    assert_eq!(c.disk_io_exit, lv(50.0 * 0.5));
    assert_eq!(c.dpc_exit, lv(10.0 * 0.5));
    assert_eq!(c.interrupt_exit, lv(10.0 * 0.5));
    assert_eq!(c.context_switch_exit, lv(50_000.0 * 0.5));
    assert_eq!(c.cpu_exit, lv(90.0 - 10.0));
    assert_eq!(c.spike_release, lv(3.0 * 0.5));
    assert_eq!(c.ui_freeze_timeout_ms, 200);
    assert_eq!(c.thermal_threshold_celsius, lv(85.0));
    assert_eq!(c.thermal_freq_drop_ratio, lv(0.85));
    assert_eq!(c.handle_leak_threshold, 10_000);
    assert_eq!(c.gdi_leak_threshold, 10_000);
    let t = DetectionConfig::default().texts;
    assert_eq!(t.cpu_threshold, format!("{}", 90.0f32));
    assert_eq!(t.context_switch_threshold_per_sec, format!("{:.0}", 50_000.0f32));
}

#[test]
fn sampling_config_defaults() {
    let c = SamplingConfig::default();
    assert_eq!(c.interval_ms, 1000);
    assert_eq!(c.slow_interval_factor, 5);
}

#[test]
fn storage_config_defaults() {
    let c = StorageConfig::default();
    assert_eq!(c.db_path, "stutter.db");
    assert_eq!(c.retention_days, 30);
}

#[test]
fn config_defaults() {
    let c = Config::default();
    assert_eq!(c.sampling.interval_ms, 1000);
    assert_eq!(c.detection.lines.cpu_threshold, lv(90.0));
    assert_eq!(c.ui.skin, "default");
    assert!(c.ui.always_on_top);
    assert_eq!(c.storage.retention_days, 30);
    assert!(c.notifications.stutter_alert);
    assert_eq!(c.notifications.min_severity, "major");
    assert_eq!(c.logging.level, "info");
}

#[test]
fn overlay_defaults() {
    let ui = Config::default().ui;
    assert!(ui.show_upload && ui.show_download && ui.show_cpu && ui.show_memory && ui.show_gpu && ui.show_disk);
    assert!(!ui.show_cpu_freq && !ui.show_temperature && !ui.mouse_transparent && !ui.click_through && !ui.taskbar);
    assert!(ui.auto_start_service);
}

#[test]
fn severity_equality() {
    assert_eq!(Severity::Minor, Severity::Minor);
    assert_ne!(Severity::Minor, Severity::Major);
    assert_ne!(Severity::Major, Severity::Critical);
}

#[test]
fn sample_clone() {
    let mut s = Sample::at(Timestamp { secs: 5, nanos: 6 });
    s.readings.cpu_usage = lv(75.5);
    s.cpu_per_core = vec![lv(50.0), lv(60.0)];
    let cloned = s.copy();
    assert_eq!(cloned.readings.cpu_usage, lv(75.5));
    assert_eq!(cloned.cpu_per_core, vec![lv(50.0), lv(60.0)]);
    assert_eq!(cloned.timestamp, Timestamp { secs: 5, nanos: 6 });
}

#[test]
fn cause_kind_from_cause_maps_known_keys() {
    assert_eq!(CauseKind::from_cause("CPU usage 95.0% > 90%"), Some(CauseKind::CpuHigh));
    assert_eq!(CauseKind::from_cause("CPU usage 85.0%（滞回保持，阈值 90%）"), Some(CauseKind::CpuHigh));
    assert_eq!(CauseKind::from_cause("CPU spike: 1.0% → 3.0%"), Some(CauseKind::CpuSpike));
    assert_eq!(CauseKind::from_cause("Disk write spike: 1B/s → 3B/s"), Some(CauseKind::DiskSpike));
    assert_eq!(CauseKind::from_cause("Disk busy 98.0% (IO 12.5ms)"), Some(CauseKind::DiskBusy));
    assert_eq!(CauseKind::from_cause("DPC time 12.0% > 10%"), Some(CauseKind::DpcInterrupt));
    assert_eq!(CauseKind::from_cause("Interrupt time 14.0% > 10%"), Some(CauseKind::InterruptStorm));
    assert_eq!(CauseKind::from_cause("Context switches 60000/s > 50000/s"), Some(CauseKind::ContextSwitchStorm));
    assert_eq!(CauseKind::from_cause("Network spike: 1B/s → 3B/s"), Some(CauseKind::NetSpike));
    assert_eq!(CauseKind::from_cause("Available memory 100MB < 500MB"), Some(CauseKind::MemLow));
    assert_eq!(CauseKind::from_cause("Memory usage 95.0% > 90%"), Some(CauseKind::MemLow));
    assert_eq!(CauseKind::from_cause("Memory paging 200.0/s > 50/s"), Some(CauseKind::MemLow));
    assert_eq!(CauseKind::from_cause("Commit charge 95.0% > 90%"), Some(CauseKind::MemLow));
}

#[test]
fn cause_kind_from_cause_none_for_unmapped() {
    assert_eq!(CauseKind::from_cause("GPU usage 99%"), None);
    assert_eq!(CauseKind::from_cause("something else"), None);
}

#[test]
fn cause_kind_from_cause_maps_ui_frozen() {
    assert_eq!(CauseKind::from_cause("UI frozen (前台窗口无响应 200ms)"), Some(CauseKind::UiFrozen));
}

#[test]
fn cause_kind_from_cause_maps_thermal_throttle() {
    assert_eq!(
        CauseKind::from_cause("Thermal throttle: CPU 95°C, freq 2000MHz < 3000MHz (drop 33%)"),
        Some(CauseKind::ThermalThrottle)
    );
}

#[test]
fn cause_key_relocated_groups_hysteresis_variants() {
    assert_eq!(cause_key("CPU usage 95.0% > 90%"), cause_key("CPU usage 85.0%（滞回保持，阈值 90%）"));
    assert_eq!(cause_key("Commit charge 95.0% > 90%"), cause_key("Commit charge 85.0%"));
    assert_eq!(cause_key("Memory paging 200.0/s > 50/s"), cause_key("Memory paging 80.5/s > 50/s"));
    assert_ne!(cause_key("CPU usage 95.0% > 90%"), cause_key("CPU spike: 1.0% → 3.0%"));
    assert_ne!(cause_key("Disk write spike: 1B/s → 3B/s"), cause_key("Network spike: 1B/s → 3B/s"));
    assert_ne!(cause_key("Memory available spike: 1MB → 3MB"), cause_key("Available memory 100MB < 500MB"));
    assert_eq!(cause_key("no known beginning"), "no known beginning");
}

#[test]
fn severity_default_is_minor() {
    assert_eq!(Severity::default(), Severity::Minor);
}

#[test]
fn stutter_event_default_has_empty_structured_fields() {
    let e = StutterEvent::default();
    assert_eq!(e.id, 0);
    assert!(e.cause_kinds.is_empty());
    assert_eq!(e.primary_cause, None);
    assert!(e.cause_first_touch.is_empty());
    assert_eq!(e.onset_ts, None);
    assert!(e.culprits.is_empty());
}

#[test]
fn kinds_survive_their_names() {
    for k in [CauseKind::CpuHigh, CauseKind::HandleHigh, CauseKind::UiFrozen, CauseKind::DiskIoError] {
        assert_eq!(cause_kind_from_key(k.name()), Some(k));
    }
    assert_eq!(CauseKind::MemLow.name(), "MemLow");
    assert_eq!(cause_kind_from_key("cpuhigh"), None);
    assert_eq!(cause_kind_label(CauseKind::MemLow), "内存不足");
    assert_eq!(cause_kind_label(CauseKind::HardwareError), "硬件错误");
}

#[test]
fn severities_survive_their_words() {
    for s in [Severity::Minor, Severity::Major, Severity::Critical] {
        assert_eq!(parse_severity(s.as_str()), s);
    }
    assert_eq!(parse_severity("worse"), Severity::Minor);
    assert_eq!(severity_cn("critical"), "危急");
    assert_eq!(severity_cn("worse"), "worse");
}

#[test]
fn software_kinds_rank() {
    assert_eq!(CauseKind::HardwareError.software_priority(), Some(0));
    assert_eq!(CauseKind::HandleHigh.software_priority(), Some(6));
    assert_eq!(CauseKind::CpuHigh.software_priority(), None);
    assert!(CauseKind::HandleHigh.is_software());
    assert!(!CauseKind::MemLow.is_software());
    assert!(!CauseKind::NetSpike.is_pressure());
    assert!(CauseKind::UiFrozen.is_pressure());
}

#[test]
fn levels_rank_like_numbers() {
    let xs = [-1.5f32, -0.0, 0.0, 0.1, 50.0, 90.0, 90.1, f32::INFINITY];
    for a in xs {
        for b in xs {
            assert_eq!(lv(a).gt(lv(b)), a > b);
            assert_eq!(lv(a).le(lv(b)), a <= b);
            assert_eq!(f64::from_bits(lv(a).max(lv(b)).to_bits()), (a as f64).max(b as f64));
        }
    }
    let nan = lv(f32::NAN);
    assert_eq!(nan, Level::Unordered);
    assert!(!nan.gt(lv(1.0)) && !nan.le(lv(1.0)) && !lv(1.0).gt(nan));
    assert_eq!(nan.max(lv(2.0)), lv(2.0));
    assert_eq!(f64::from_bits(lv(-1.5).to_bits()), -1.5);
    assert!(f64::from_bits(nan.to_bits()).is_nan());
}

fn brief(pid: u32, cpu: f32, mem: u64) -> ProcessBrief {
    ProcessBrief { pid, name: format!("p{}.exe", pid), cpu_usage: lv(cpu), mem_used_mb: mem, ..ProcessBrief::default() }
}

#[test]
fn merge_takes_cpu_first_then_memory_each_once() {
    let all = vec![brief(1, 10.0, 900), brief(2, 80.0, 10), brief(3, 90.0, 20), brief(4, 1.0, 800), brief(5, 1.0, 700)];
    let ids: Vec<u32> = ProcessBrief::merge_top(all, 2, 3, 4).iter().map(|p| p.pid).collect();
    assert_eq!(ids, vec![3, 2, 1, 4]);
    assert!(ProcessBrief::merge_top(vec![], 3, 3, 6).is_empty());
    let same: Vec<u32> =
        ProcessBrief::merge_top(vec![brief(7, 1.0, 1), brief(8, 1.0, 1)], 2, 2, 6).iter().map(|p| p.pid).collect();
    assert_eq!(same, vec![7, 8]);
    assert!(ProcessBrief::merge_top(vec![brief(1, 10.0, 900)], 1, 1, 0).is_empty());
    assert_eq!(ProcessBrief::merge_top(vec![brief(1, 10.0, 900), brief(2, 5.0, 1)], 2, 2, 1).len(), 1);
}
