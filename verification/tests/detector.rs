use find_stutter::cause::{cause_key, CauseKind, Severity, StutterEvent};
use find_stutter::config::DetectionConfig;
use find_stutter::detector::{
    band_hold_step, check_spike, determine_severity, spike_check, sys_signal_hysteresis, window_columns, Clock, Detector,
    DropFigures, Figures, HistoryPoint, Latch, Rise, Signals, SpikeFigures, ThermalFigures,
};
use find_stutter::level::Level;
use find_stutter::types::{ProcessBrief, Readings, Sample, Timestamp};

const SEC: u64 = 1_000_000_000;
const START: u64 = 1_780_000_000 * SEC;

fn lv(x: f32) -> Level {
    Level::of_bits((x as f64).to_bits())
}

fn value(l: Level) -> f32 {
    f64::from_bits(l.to_bits()) as f32
}

/// The numbers of a sample before they are ranked.
#[derive(Clone)]
struct Raw {
    cpu: f32,
    mem_percent: f32,
    mem_available_mb: u64,
    swap: f32,
    commit_bytes: u64,
    commit_limit: u64,
    page_reads: f32,
    disk_read_bps: u64,
    disk_write_bps: u64,
    disk_busy: f32,
    disk_io: f32,
    dpc: f32,
    interrupt: f32,
    ctx: f32,
    net_sent: u64,
    net_recv: u64,
    temp: Option<f32>,
    freq: Option<f32>,
    top: Vec<(u32, &'static str, f32, u64)>,
}

fn make_sample(cpu: f32, mem_available_mb: u64, swap: f32) -> Raw {
    Raw {
        cpu,
        mem_percent: 0.0,
        mem_available_mb,
        swap,
        commit_bytes: 0,
        commit_limit: 0,
        page_reads: 0.0,
        disk_read_bps: 0,
        disk_write_bps: 0,
        disk_busy: 0.0,
        disk_io: 0.0,
        dpc: 0.0,
        interrupt: 0.0,
        ctx: 0.0,
        net_sent: 0,
        net_recv: 0,
        temp: None,
        freq: None,
        top: vec![],
    }
}

fn make_sample_thermal(cpu: f32, mem: u64, temp: Option<f32>, freq: Option<f32>) -> Raw {
    let mut s = make_sample(cpu, mem, 10.0);
    s.temp = temp;
    s.freq = freq;
    s
}

fn make_sample_net(cpu: f32, mem: u64, swap: f32, net_bps: u64) -> Raw {
    let mut s = make_sample(cpu, mem, swap);
    s.net_sent = net_bps;
    s
}

fn ranked(raw: &Raw) -> Sample {
    let mut s = Sample::at(Timestamp { secs: 0, nanos: 0 });
    s.readings = Readings {
        cpu_usage: lv(raw.cpu),
        cpu_freq_mhz: raw.freq.map(lv),
        mem_usage_percent: lv(raw.mem_percent),
        mem_available_mb: raw.mem_available_mb,
        swap_usage_percent: lv(raw.swap),
        commit_bytes: raw.commit_bytes,
        commit_limit: raw.commit_limit,
        page_reads_per_sec: lv(raw.page_reads),
        disk_read_bps: raw.disk_read_bps,
        disk_write_bps: raw.disk_write_bps,
        disk_busy_percent: lv(raw.disk_busy),
        disk_avg_io_ms: lv(raw.disk_io),
        dpc_percent: lv(raw.dpc),
        interrupt_percent: lv(raw.interrupt),
        context_switches_per_sec: lv(raw.ctx),
        net_sent_bps: raw.net_sent,
        net_recv_bps: raw.net_recv,
        cpu_temp: raw.temp.map(lv),
        ..Readings::default()
    };
    for (pid, name, cpu, mem) in &raw.top {
        s.top_processes.push(ProcessBrief {
            pid: *pid,
            name: name.to_string(),
            cpu_usage: lv(*cpu),
            mem_used_mb: *mem,
            ..ProcessBrief::default()
        });
    }
    s
}

fn avg(v: &[f32]) -> f32 {
    if v.is_empty() {
        0.0
    } else {
        v.iter().sum::<f32>() / v.len() as f32
    }
}

fn spike_figures(recent: &[f32], baseline: &[f32]) -> SpikeFigures {
    let r_avg = avg(recent);
    let b_avg = avg(baseline);
    SpikeFigures {
        baseline: lv(b_avg),
        baseline_text: format!("{:.1}", b_avg),
        recent_text: format!("{:.1}", r_avg),
        rises: recent.iter().map(|v| Rise { value: lv(*v), rise: lv((v - b_avg) / b_avg) }).collect(),
        mean_rise: lv((r_avg - b_avg).max(0.0) / b_avg),
    }
}

fn drop_figures(recent: &[f32], baseline: &[f32]) -> DropFigures {
    let r_avg = avg(recent);
    let b_avg = avg(baseline);
    DropFigures {
        baseline: lv(b_avg),
        fall: lv((b_avg - r_avg).max(0.0) / b_avg),
        baseline_text: format!("{:.0}", b_avg),
        recent_text: format!("{:.0}", r_avg),
    }
}

fn figures(d: &Detector, raw: &Raw, s: &Sample, now: Clock) -> Figures {
    let lines = d.config().lines;
    let faded = d.freq_peak().map_or(0.0, |p| value(p) * value(lines.thermal_freq_peak_decay));
    let peak = d.peak_after(raw.freq.map(lv), lv(faded)).map(value);
    let freq = raw.freq.unwrap_or(0.0);
    let shown_peak = peak.unwrap_or(freq);
    let points: Vec<HistoryPoint> = d.window(&s.readings, now).unwrap_or_default();
    let (baseline, recent) = window_columns(&points);
    let levels = |v: &[Level]| -> Vec<f32> { v.iter().map(|l| value(*l)).collect() };
    let sums = |v: &[u128]| -> Vec<f32> { v.iter().map(|n| *n as f32).collect() };
    let sizes = |v: &[u64]| -> Vec<f32> { v.iter().map(|n| *n as f32).collect() };
    Figures {
        cpu_text: format!("{:.1}", raw.cpu),
        mem_text: format!("{:.1}", raw.mem_percent),
        page_reads_text: format!("{:.1}", raw.page_reads),
        disk_busy_text: format!("{:.1}", raw.disk_busy),
        disk_io_text: format!("{:.1}", raw.disk_io),
        dpc_text: format!("{:.1}", raw.dpc),
        interrupt_text: format!("{:.1}", raw.interrupt),
        ctx_switch_text: format!("{:.0}", raw.ctx),
        commit_percent: Level::of_bits(
            if raw.commit_limit > 0 { raw.commit_bytes as f64 / raw.commit_limit as f64 * 100.0 } else { 0.0 }.to_bits(),
        ),
        thermal: ThermalFigures {
            faded_peak: lv(faded),
            drop_line: lv(peak.unwrap_or(0.0) * value(lines.thermal_freq_drop_ratio)),
            temp_text: format!("{:.0}", raw.temp.unwrap_or(0.0)),
            freq_text: format!("{:.0}", freq),
            peak_text: format!("{:.0}", shown_peak),
            drop_percent: if shown_peak > 0.0 { ((1.0 - freq / shown_peak) * 100.0) as i32 } else { 0 },
        },
        cpu_spike: spike_figures(&levels(&recent.cpu), &levels(&baseline.cpu)),
        net_spike: spike_figures(&sums(&recent.net), &sums(&baseline.net)),
        mem_drop: drop_figures(&sizes(&recent.mem), &sizes(&baseline.mem)),
    }
}

/// A detector with a clock of its own and an answer for the foreground window.
struct Rig {
    d: Detector,
    now: u64,
    frozen: bool,
    probes: u32,
}

impl Rig {
    fn new(config: &DetectionConfig) -> Rig {
        Rig { d: Detector::new(config), now: START, frozen: false, probes: 0 }
    }

    fn analyze(&mut self, raw: &Raw) -> Option<StutterEvent> {
        let now = Clock { wall_ns: self.now, steady_ns: self.now - START };
        let s = ranked(raw);
        let f = figures(&self.d, raw, &s, now);
        let due = self.d.probe_due(&s, &f, now);
        if due {
            self.probes += 1;
        }
        self.d.analyze(&s, &f, now, due && self.frozen)
    }

    fn sleep_ms(&mut self, ms: u64) {
        self.now += ms * 1_000_000;
    }

    fn causes(&self) -> &Vec<String> {
        self.d.current_causes()
    }

    fn any(&self, part: &str) -> bool {
        self.causes().iter().any(|c| c.contains(part))
    }
}

fn sustained(secs: u32) -> DetectionConfig {
    let mut c = DetectionConfig::default();
    c.lines.sustained_seconds = secs;
    c
}

#[test]
fn detector_new_initial_state() {
    let config = DetectionConfig::default();
    let d = Detector::new(&config);
    assert_eq!(d.history_len(), 0);
    assert!(d.stutter_start().is_none());
    assert!(d.current_causes().is_empty());
    assert_eq!(d.config().lines.cpu_threshold, lv(90.0));
}

#[test]
fn analyze_normal_sample_returns_none() {
    let mut d = Rig::new(&DetectionConfig::default());
    assert!(d.analyze(&make_sample(30.0, 2000, 10.0)).is_none());
}

#[test]
fn analyze_normal_sample_no_causes() {
    let mut d = Rig::new(&DetectionConfig::default());
    d.analyze(&make_sample(30.0, 2000, 10.0));
    assert!(d.causes().is_empty());
    assert!(d.d.stutter_start().is_none());
}

#[test]
fn analyze_high_cpu_starts_stutter_tracking() {
    let mut d = Rig::new(&sustained(1));
    assert!(d.analyze(&make_sample(95.0, 2000, 10.0)).is_none());
    assert!(!d.causes().is_empty());
    assert!(d.d.stutter_start().is_some());
    assert!(d.causes()[0].contains("CPU usage"));
    assert_eq!(d.causes()[0], "CPU usage 95.0% > 90%");
}

#[test]
fn analyze_low_memory_starts_stutter_tracking() {
    let mut d = Rig::new(&sustained(1));
    d.analyze(&make_sample(30.0, 100, 10.0));
    assert!(!d.causes().is_empty());
    assert!(d.causes()[0].contains("Available memory"));
    assert_eq!(d.causes()[0], "Available memory 100MB < 500MB");
}

#[test]
fn analyze_high_mem_usage_percent_starts_stutter_tracking() {
    let mut d = Rig::new(&sustained(1));
    let mut s = make_sample(30.0, 2000, 10.0);
    s.mem_percent = 95.0;
    d.analyze(&s);
    assert!(!d.causes().is_empty());
    assert!(d.any("Memory usage"));
    assert!(!d.any("Available memory"));
}

#[test]
fn analyze_high_page_reads_starts_stutter_tracking() {
    let config = sustained(1);
    let mut d = Rig::new(&config);
    let mut s = make_sample(30.0, 2000, 10.0);
    s.mem_percent = 95.0;
    s.page_reads = 400.0;
    d.analyze(&s);
    assert!(!d.causes().is_empty());
    assert!(d.any("Memory paging"));

    let mut spike = make_sample(30.0, 2000, 10.0);
    spike.mem_percent = 30.0;
    spike.page_reads = 400.0;
    let mut d3 = Rig::new(&config);
    d3.analyze(&spike);
    assert!(d3.causes().is_empty());

    let mut normal = make_sample(30.0, 2000, 10.0);
    normal.mem_percent = 95.0;
    normal.page_reads = 5.0;
    let mut d2 = Rig::new(&config);
    d2.analyze(&normal);
    assert!(!d2.any("Memory paging"));
}

#[test]
fn analyze_disk_busy_triggers() {
    let config = sustained(1);
    let mut d = Rig::new(&config);
    let mut s = make_sample(30.0, 2000, 10.0);
    s.disk_busy = 98.0;
    d.analyze(&s);
    assert!(d.any("Disk busy"));

    let mut s2 = make_sample(30.0, 2000, 10.0);
    s2.disk_io = 120.0;
    let mut d2 = Rig::new(&config);
    d2.analyze(&s2);
    assert!(d2.any("Disk busy"));

    for _ in 0..2 {
        d.analyze(&s);
    }
    d.sleep_ms(1200);
    let event = d.analyze(&make_sample(20.0, 2000, 10.0)).unwrap();
    assert!(event.cause_kinds.contains(&CauseKind::DiskBusy));
}

#[test]
fn analyze_dpc_triggers() {
    let mut d = Rig::new(&sustained(1));
    let mut s = make_sample(30.0, 2000, 10.0);
    s.dpc = 15.0;
    d.analyze(&s);
    assert!(d.any("DPC time"));
    for _ in 0..2 {
        d.analyze(&s);
    }
    d.sleep_ms(1200);
    let event = d.analyze(&make_sample(20.0, 2000, 10.0)).unwrap();
    assert!(event.cause_kinds.contains(&CauseKind::DpcInterrupt));
}

#[test]
fn analyze_interrupt_triggers() {
    let mut d = Rig::new(&sustained(1));
    let mut s = make_sample(30.0, 2000, 10.0);
    s.interrupt = 18.0;
    d.analyze(&s);
    assert!(d.any("Interrupt time"));
    for _ in 0..2 {
        d.analyze(&s);
    }
    d.sleep_ms(1200);
    let event = d.analyze(&make_sample(20.0, 2000, 10.0)).unwrap();
    assert!(event.cause_kinds.contains(&CauseKind::InterruptStorm));
}

#[test]
fn analyze_context_switch_triggers() {
    let mut d = Rig::new(&sustained(1));
    let mut s = make_sample(30.0, 2000, 10.0);
    s.ctx = 80_000.0;
    d.analyze(&s);
    assert!(d.any("Context switches"));
    assert_eq!(d.causes()[0], "Context switches 80000/s > 50000/s");
    for _ in 0..2 {
        d.analyze(&s);
    }
    d.sleep_ms(1200);
    let event = d.analyze(&make_sample(20.0, 2000, 10.0)).unwrap();
    assert!(event.cause_kinds.contains(&CauseKind::ContextSwitchStorm));
}

#[test]
fn analyze_thermal_throttle_triggers() {
    let mut d = Rig::new(&sustained(1));
    d.analyze(&make_sample_thermal(80.0, 2000, Some(70.0), Some(3000.0)));
    let hot = make_sample_thermal(80.0, 2000, Some(95.0), Some(2000.0));
    d.analyze(&hot);
    assert!(d.any("Thermal throttle"));
    for _ in 0..2 {
        d.analyze(&hot);
    }
    d.sleep_ms(1200);
    let event = d.analyze(&make_sample_thermal(20.0, 2000, Some(95.0), Some(2000.0))).unwrap();
    assert!(event.cause_kinds.contains(&CauseKind::ThermalThrottle));
}

#[test]
fn analyze_thermal_no_trigger_when_temp_low() {
    let mut d = Rig::new(&sustained(1));
    d.analyze(&make_sample_thermal(80.0, 2000, Some(70.0), Some(3000.0)));
    d.analyze(&make_sample_thermal(80.0, 2000, Some(60.0), Some(2000.0)));
    assert!(!d.any("Thermal throttle"));
}

#[test]
fn analyze_thermal_no_trigger_when_freq_not_dropped() {
    let mut d = Rig::new(&sustained(1));
    d.analyze(&make_sample_thermal(80.0, 2000, Some(70.0), Some(3000.0)));
    d.analyze(&make_sample_thermal(80.0, 2000, Some(95.0), Some(3000.0)));
    assert!(!d.any("Thermal throttle"));
}

#[test]
fn analyze_thermal_no_trigger_when_no_freq() {
    let mut d = Rig::new(&sustained(1));
    d.analyze(&make_sample_thermal(80.0, 2000, Some(95.0), None));
    assert!(!d.any("Thermal throttle"));
}

#[test]
fn analyze_no_disk_write_spike_cause() {
    let mut d = Rig::new(&sustained(1));
    let mut s = make_sample(30.0, 2000, 10.0);
    s.disk_write_bps = 50_000_000;
    d.analyze(&s);
    assert!(!d.any("Disk write"));
}

#[test]
fn analyze_multiple_thresholds_collects_all_causes() {
    let mut d = Rig::new(&sustained(1));
    d.analyze(&make_sample(95.0, 100, 10.0));
    assert_eq!(d.causes().len(), 2);
}

#[test]
fn analyze_event_generated_after_sustained_period() {
    let mut d = Rig::new(&sustained(1));
    for _ in 0..3 {
        d.analyze(&make_sample(95.0, 2000, 10.0));
    }
    d.sleep_ms(1200);
    let event = d.analyze(&make_sample(20.0, 2000, 10.0));
    assert!(event.is_some());
    let event = event.unwrap();
    assert!(!event.causes.is_empty());
    assert!(event.duration_ms >= 1000);
    assert_eq!(event.duration_ms, 1200);
    assert_eq!(event.severity, Severity::Minor);
}

#[test]
fn analyze_no_event_if_stutter_too_short() {
    let mut d = Rig::new(&sustained(3));
    d.analyze(&make_sample(95.0, 2000, 10.0));
    d.sleep_ms(500);
    let event = d.analyze(&make_sample(20.0, 2000, 10.0));
    assert!(event.is_none());
    assert!(d.causes().is_empty());
    assert!(d.d.stutter_start().is_none());
}

#[test]
fn analyze_network_spike_alone_no_event() {
    let mut d = Rig::new(&sustained(1));
    for _ in 0..60 {
        d.analyze(&make_sample_net(30.0, 2000, 10.0, 1_000_000));
    }
    for _ in 0..10 {
        d.analyze(&make_sample_net(30.0, 2000, 10.0, 5_000_000));
    }
    assert!(d.any("Network spike"));
    d.sleep_ms(1200);
    for _ in 0..15 {
        assert!(d.analyze(&make_sample_net(20.0, 2000, 10.0, 1_000_000)).is_none());
    }
    assert!(d.d.stutter_start().is_none());
    assert!(d.causes().is_empty());
}

#[test]
fn analyze_network_spike_with_cpu_high_records_event() {
    let mut d = Rig::new(&sustained(1));
    for _ in 0..60 {
        d.analyze(&make_sample_net(30.0, 2000, 10.0, 1_000_000));
    }
    for _ in 0..10 {
        d.analyze(&make_sample_net(95.0, 2000, 10.0, 5_000_000));
    }
    d.sleep_ms(1200);
    let mut captured = None;
    for _ in 0..16 {
        if let Some(e) = d.analyze(&make_sample_net(20.0, 2000, 10.0, 1_000_000)) {
            captured = Some(e);
            break;
        }
    }
    let event = captured.expect("the stutter should be recorded");
    assert!(event.cause_kinds.contains(&CauseKind::CpuHigh));
    assert!(event.cause_kinds.contains(&CauseKind::NetSpike));
    assert_eq!(event.severity, Severity::Minor);
}

#[test]
fn analyze_event_carries_structured_causes() {
    let mut d = Rig::new(&sustained(1));
    for _ in 0..3 {
        d.analyze(&make_sample(95.0, 2000, 10.0));
    }
    d.sleep_ms(1200);
    let event = d.analyze(&make_sample(20.0, 2000, 10.0)).unwrap();
    assert!(event.cause_kinds.contains(&CauseKind::CpuHigh));
    assert_eq!(event.primary_cause, Some(CauseKind::CpuHigh));
    let onset = event.onset_ts.expect("the beginning should be noted");
    assert!(onset > 1_700_000_000_000);
    assert_eq!(onset, 1_780_000_000_000);
    assert_eq!(find_stutter::cause::first_touch(&event.cause_first_touch, CauseKind::CpuHigh), Some(0));
}

#[test]
fn analyze_severity_minor_single_cause() {
    let mut d = Rig::new(&sustained(1));
    for _ in 0..3 {
        d.analyze(&make_sample(95.0, 2000, 10.0));
    }
    d.sleep_ms(1200);
    let event = d.analyze(&make_sample(20.0, 2000, 10.0)).unwrap();
    assert_eq!(event.severity, Severity::Minor);
}

#[test]
fn analyze_severity_major_two_causes() {
    let mut d = Rig::new(&sustained(1));
    for _ in 0..3 {
        d.analyze(&make_sample(95.0, 100, 10.0));
    }
    d.sleep_ms(1200);
    let event = d.analyze(&make_sample(20.0, 2000, 10.0)).unwrap();
    assert_eq!(event.severity, Severity::Major);
}

#[test]
fn analyze_severity_critical_three_causes() {
    let mut d = Rig::new(&sustained(1));
    let mut bad = make_sample(95.0, 100, 10.0);
    bad.mem_percent = 95.0;
    for _ in 0..3 {
        d.analyze(&bad);
    }
    d.sleep_ms(1200);
    let event = d.analyze(&make_sample(20.0, 2000, 10.0)).unwrap();
    assert_eq!(event.severity, Severity::Critical);
}

#[test]
fn analyze_cpu_at_threshold_no_trigger() {
    let mut d = Rig::new(&DetectionConfig::default());
    d.analyze(&make_sample(90.0, 2000, 10.0));
    assert!(d.causes().is_empty());
}

#[test]
fn analyze_cpu_above_threshold_triggers() {
    let mut d = Rig::new(&sustained(1));
    d.analyze(&make_sample(90.1, 2000, 10.0));
    assert!(!d.causes().is_empty());
}

#[test]
fn analyze_mem_at_threshold_no_trigger() {
    let mut d = Rig::new(&sustained(1));
    d.analyze(&make_sample(30.0, 500, 10.0));
    assert!(d.causes().is_empty());
}

#[test]
fn analyze_mem_below_threshold_triggers() {
    let mut d = Rig::new(&sustained(1));
    d.analyze(&make_sample(30.0, 499, 10.0));
    assert!(!d.causes().is_empty());
}

#[test]
fn analyze_history_capped_at_120() {
    let mut d = Rig::new(&DetectionConfig::default());
    for _ in 0..130 {
        d.analyze(&make_sample(30.0, 2000, 10.0));
    }
    assert!(d.d.history_len() <= 120);
    assert_eq!(d.d.history_len(), 120);
}

#[test]
fn analyze_merges_new_causes_during_stutter() {
    let mut d = Rig::new(&sustained(5));
    d.analyze(&make_sample(95.0, 2000, 10.0));
    assert_eq!(d.causes().len(), 1);
    d.analyze(&make_sample(95.0, 100, 10.0));
    assert_eq!(d.causes().len(), 2);
}

#[test]
fn cpu_hysteresis_keeps_active_within_band() {
    let mut d = Rig::new(&DetectionConfig::default());
    d.analyze(&make_sample(95.0, 2000, 10.0));
    assert!(!d.causes().is_empty());
    assert!(d.causes()[0].contains("CPU usage"));
    d.analyze(&make_sample(85.0, 2000, 10.0));
    assert!(!d.causes().is_empty());
    assert_eq!(d.causes().len(), 1);
    assert!(d.causes()[0].contains("CPU usage"));
    assert!(d.causes()[0].contains("滞回保持"));
    assert_eq!(d.causes()[0], "CPU usage 85.0%（滞回保持，阈值 90%）");
}

#[test]
fn cpu_hysteresis_releases_below_exit_line() {
    let mut d = Rig::new(&DetectionConfig::default());
    d.analyze(&make_sample(95.0, 2000, 10.0));
    assert!(!d.causes().is_empty());
    d.analyze(&make_sample(75.0, 2000, 10.0));
    assert!(d.causes().is_empty());
}

#[test]
fn spike_min_cpu_floor_ignores_low_absolute() {
    let config = sustained(1);
    let mut d = Rig::new(&config);
    for _ in 0..60 {
        d.analyze(&make_sample(10.0, 2000, 10.0));
    }
    for _ in 0..10 {
        d.analyze(&make_sample(40.0, 2000, 10.0));
    }
    assert!(!d.any("CPU spike"));

    let mut d2 = Rig::new(&config);
    for _ in 0..60 {
        d2.analyze(&make_sample(15.0, 2000, 10.0));
    }
    for _ in 0..10 {
        d2.analyze(&make_sample(65.0, 2000, 10.0));
    }
    assert!(d2.any("CPU spike"));
    assert_eq!(d2.causes()[0], "CPU spike: 15.0% → 65.0%");
}

#[test]
fn commit_charge_alone_no_longer_triggers() {
    let mut d = Rig::new(&sustained(1));
    let mut s = make_sample(30.0, 2000, 10.0);
    s.commit_limit = 1_000_000;
    s.commit_bytes = 950_000;
    d.analyze(&s);
    assert!(d.causes().is_empty());
}

#[test]
fn commit_charge_still_serves_as_paging_evidence() {
    let mut d = Rig::new(&sustained(1));
    let mut s = make_sample(30.0, 2000, 10.0);
    s.commit_limit = 1_000_000;
    s.commit_bytes = 950_000;
    s.page_reads = 400.0;
    d.analyze(&s);
    assert!(d.any("Memory paging"));
    assert!(!d.any("Commit charge"));
}

#[test]
fn mem_level_hysteresis_band_and_exit() {
    let mut d = Rig::new(&sustained(5));
    let mut high = make_sample(30.0, 2000, 10.0);
    high.mem_percent = 92.0;
    d.analyze(&high);
    assert!(d.d.signals().mem_level.active);
    assert!(d.any("Memory usage"));

    let mut band = make_sample(30.0, 2000, 10.0);
    band.mem_percent = 87.0;
    d.analyze(&band);
    assert!(d.d.signals().mem_level.active);
    assert!(d.causes().is_empty());

    d.analyze(&high);
    assert!(d.any("Memory usage"));

    let mut exit_s = make_sample(30.0, 2000, 10.0);
    exit_s.mem_percent = 84.0;
    d.analyze(&exit_s);
    assert!(!d.d.signals().mem_level.active);
    assert!(d.causes().is_empty());
}

#[test]
fn mem_level_chronic_suppression() {
    let mut config = sustained(1);
    config.lines.mem_chronic_seconds = 1;
    let mut d = Rig::new(&config);
    let mut high = make_sample(30.0, 2000, 10.0);
    high.mem_percent = 92.0;
    d.analyze(&high);
    assert!(d.d.stutter_start().is_some());

    d.sleep_ms(1200);
    let event = d.analyze(&high).expect("one bounded event");
    assert!(event.causes.iter().any(|c| c.contains("Memory usage")));

    d.analyze(&high);
    assert!(d.d.stutter_start().is_none());
    assert!(d.causes().is_empty());

    let mut recover = make_sample(30.0, 2000, 10.0);
    recover.mem_percent = 84.0;
    d.analyze(&recover);
    assert!(!d.d.signals().mem_level.suppressed);

    d.analyze(&high);
    assert!(d.d.signals().mem_level.active);
    assert!(d.any("Memory usage"));
}

#[test]
fn cpu_band_hold_expires_after_max_hold() {
    let mut config = sustained(5);
    config.lines.hysteresis_hold_max_secs = 1;
    let mut d = Rig::new(&config);
    d.analyze(&make_sample(95.0, 2000, 10.0));
    d.analyze(&make_sample(85.0, 2000, 10.0));
    assert!(d.d.signals().cpu.active);
    d.sleep_ms(1200);
    d.analyze(&make_sample(85.0, 2000, 10.0));
    assert!(!d.d.signals().cpu.active);
    assert!(!d.any("CPU usage"));
    d.analyze(&make_sample(95.0, 2000, 10.0));
    assert!(d.d.signals().cpu.active);
}

#[test]
fn analyze_resets_session_after_sampling_gap() {
    let mut config = sustained(1);
    config.lines.max_tick_gap_secs = 1;
    let mut d = Rig::new(&config);
    d.analyze(&make_sample(95.0, 2000, 10.0));
    assert!(d.d.stutter_start().is_some());
    d.sleep_ms(1500);
    let r = d.analyze(&make_sample(20.0, 2000, 10.0));
    assert!(r.is_none());
    assert!(d.causes().is_empty());
    assert_eq!(d.d.history_len(), 1);
    d.analyze(&make_sample(95.0, 2000, 10.0));
    assert!(d.d.stutter_start().is_some());
    assert!(d.analyze(&make_sample(20.0, 2000, 10.0)).is_none());
}

#[test]
fn thermal_peak_decay_clears_stale_turbo_peak() {
    let mut config = sustained(5);
    config.lines.thermal_freq_peak_decay = lv(0.95);
    let mut d = Rig::new(&config);
    d.analyze(&make_sample_thermal(80.0, 2000, Some(70.0), Some(5000.0)));
    let load = make_sample_thermal(80.0, 2000, Some(95.0), Some(3900.0));
    d.analyze(&load);
    assert!(d.any("Thermal throttle"));
    for _ in 0..4 {
        d.analyze(&load);
    }
    assert!(!d.any("Thermal throttle"));
}

#[test]
fn spike_min_floor_ignores_small_rates() {
    let mut d = Rig::new(&DetectionConfig::default());
    for _ in 0..60 {
        d.analyze(&make_sample_net(30.0, 2000, 10.0, 1_000));
    }
    for _ in 0..10 {
        d.analyze(&make_sample_net(30.0, 2000, 10.0, 10_000));
    }
    assert!(!d.any("spike"));
}

#[test]
fn spike_min_floor_allows_large_rates() {
    let mut d = Rig::new(&DetectionConfig::default());
    for _ in 0..60 {
        d.analyze(&make_sample_net(30.0, 2000, 10.0, 1_000_000));
    }
    for _ in 0..10 {
        d.analyze(&make_sample_net(30.0, 2000, 10.0, 5_000_000));
    }
    assert!(d.any("Network spike"));
}

#[test]
fn cause_key_groups_hysteresis_variants() {
    assert_eq!(cause_key("CPU usage 95.0% > 90%"), cause_key("CPU usage 85.0%（滞回保持，阈值 90%）"));
    assert_eq!(cause_key("Commit charge 95.0% > 90%"), cause_key("Commit charge 85.0%"));
    assert_eq!(cause_key("Memory paging 200.0/s > 50/s"), cause_key("Memory paging 80.5/s > 50/s"));
    assert_ne!(cause_key("CPU usage 95.0% > 90%"), cause_key("CPU spike: 1.0% → 3.0%"));
    assert_ne!(cause_key("Disk write spike: 1B/s → 3B/s"), cause_key("Network spike: 1B/s → 3B/s"));
    assert_ne!(cause_key("Memory available spike: 1MB → 3MB"), cause_key("Available memory 100MB < 500MB"));
}

#[test]
fn spike_ignores_rate_drop() {
    let mut d = Rig::new(&DetectionConfig::default());
    for _ in 0..60 {
        d.analyze(&make_sample_net(30.0, 2000, 10.0, 10_000_000));
    }
    for _ in 0..10 {
        d.analyze(&make_sample_net(30.0, 2000, 10.0, 1_000_000));
    }
    assert!(!d.any("spike"));
}

#[test]
fn spike_requires_confirmation() {
    let mut d = Rig::new(&DetectionConfig::default());
    for _ in 0..60 {
        d.analyze(&make_sample_net(30.0, 2000, 10.0, 1_000_000));
    }
    for _ in 0..7 {
        d.analyze(&make_sample_net(30.0, 2000, 10.0, 1_000_000));
    }
    for _ in 0..3 {
        d.analyze(&make_sample_net(30.0, 2000, 10.0, 5_000_000));
    }
    assert!(!d.any("Network spike"));
}

#[test]
fn spike_hysteresis_keeps_active_in_band() {
    let mut active = false;
    let baseline = vec![1.5f32; 60];
    let check = |recent: f32, active: &mut bool| -> Vec<String> {
        let mut causes = Vec::new();
        let f = spike_figures(&vec![recent; 10], &baseline);
        spike_check(&mut causes, "Network", "B/s", &f, lv(3.0), lv(1.5), lv(2.0), active);
        causes
    };
    let causes = check(8.0, &mut active);
    assert!(active);
    assert!(causes.iter().any(|c| c.contains("Network spike")));
    assert_eq!(causes[0], "Network spike: 1.5B/s → 8.0B/s");
    let causes2 = check(5.0, &mut active);
    assert!(active);
    assert!(causes2.iter().any(|c| c.contains("Network spike")));
    let causes3 = check(2.0, &mut active);
    assert!(!active);
    assert!(causes3.is_empty());
}

#[test]
fn analyze_records_culprits() {
    let mut d = Rig::new(&sustained(1));
    let mut s = make_sample(95.0, 2000, 10.0);
    s.top = vec![(1001, "heavy.exe", 88.0, 1024), (1002, "bg.exe", 5.0, 2048)];
    for _ in 0..3 {
        d.analyze(&s);
    }
    d.sleep_ms(1200);
    let event = d.analyze(&make_sample(20.0, 2000, 10.0)).unwrap();
    assert!(!event.culprits.is_empty());
    assert_eq!(event.culprits[0].name, "heavy.exe");
    assert_eq!(event.culprits[0].pid, 1001);
    assert_eq!(event.culprits.len(), 2);
}

#[test]
fn analyze_empty_culprits_when_no_top_processes() {
    let mut d = Rig::new(&sustained(1));
    for _ in 0..3 {
        d.analyze(&make_sample(95.0, 2000, 10.0));
    }
    d.sleep_ms(1200);
    let event = d.analyze(&make_sample(20.0, 2000, 10.0)).unwrap();
    assert!(event.culprits.is_empty());
}

#[test]
fn need_process_snapshot_tracks_stutter_state() {
    let mut d = Rig::new(&sustained(1));
    assert!(!d.d.needs_process_snapshot());
    let high = make_sample(95.0, 2000, 10.0);
    assert!(d.analyze(&high).is_none());
    assert!(d.d.needs_process_snapshot());
    for _ in 0..2 {
        d.analyze(&high);
    }
    assert!(d.d.needs_process_snapshot());
    d.sleep_ms(1200);
    assert!(d.analyze(&make_sample(20.0, 2000, 10.0)).is_some());
    assert!(!d.d.needs_process_snapshot());
}

#[test]
fn analyze_ui_frozen_triggers_when_probe_says_frozen() {
    let mut d = Rig::new(&sustained(1));
    d.frozen = true;
    let high = make_sample(95.0, 2000, 10.0);
    d.analyze(&high);
    assert!(d.any("UI frozen"));
    assert_eq!(d.causes()[1], "UI frozen (前台窗口无响应 200ms)");
    for _ in 0..2 {
        d.analyze(&high);
    }
    d.sleep_ms(1200);
    let event = d.analyze(&make_sample(20.0, 2000, 10.0)).unwrap();
    assert!(event.cause_kinds.contains(&CauseKind::UiFrozen));
}

#[test]
fn analyze_ui_frozen_absent_when_probe_says_responsive() {
    let mut d = Rig::new(&sustained(1));
    d.frozen = false;
    d.analyze(&make_sample(95.0, 2000, 10.0));
    assert!(!d.any("UI frozen"));
    assert_eq!(d.probes, 1);
}

#[test]
fn analyze_ui_probe_not_called_on_normal_frame() {
    let mut d = Rig::new(&DetectionConfig::default());
    d.frozen = true;
    d.analyze(&make_sample(30.0, 2000, 10.0));
    assert_eq!(d.probes, 0);
    assert!(d.causes().is_empty());
}

#[test]
fn probes_keep_two_seconds_apart_and_keep_their_answer() {
    let mut d = Rig::new(&sustained(60));
    d.frozen = true;
    let high = make_sample(95.0, 2000, 10.0);
    d.analyze(&high);
    d.frozen = false;
    d.sleep_ms(1999);
    d.analyze(&high);
    assert_eq!(d.probes, 1);
    assert!(d.d.signals().ui_freeze_active);
    d.sleep_ms(1);
    d.analyze(&high);
    assert_eq!(d.probes, 2);
    assert!(!d.d.signals().ui_freeze_active);
}

#[test]
fn detector_normal_sample_no_event() {
    let mut d = Rig::new(&sustained(1));
    let mut s = make_sample(30.0, 8000, 10.0);
    s.disk_read_bps = 1000;
    s.disk_write_bps = 1000;
    s.net_sent = 500;
    s.net_recv = 500;
    for _ in 0..5 {
        assert!(d.analyze(&s).is_none());
    }
}

#[test]
fn detector_cpu_threshold_triggers_event() {
    let mut config = sustained(1);
    config.lines.cpu_threshold = lv(90.0);
    config.lines.mem_threshold_mb = 500;
    let mut d = Rig::new(&config);
    assert!(d.analyze(&make_sample(95.0, 8000, 10.0)).is_none());
    d.sleep_ms(1100);
    let event = d.analyze(&make_sample(30.0, 8000, 10.0));
    assert!(event.is_some());
    let e = event.unwrap();
    assert!(!e.causes.is_empty());
    assert!(e.duration_ms >= 1000);
    assert_eq!(e.duration_ms, 1100);
}

#[test]
fn detector_low_memory_triggers() {
    let mut config = sustained(1);
    config.lines.cpu_threshold = lv(90.0);
    config.lines.mem_threshold_mb = 500;
    let mut d = Rig::new(&config);
    assert!(d.analyze(&make_sample(30.0, 200, 0.0)).is_none());
    d.sleep_ms(1100);
    let event = d.analyze(&make_sample(30.0, 8000, 0.0));
    assert!(event.is_some());
    assert_eq!(event.unwrap().primary_cause, Some(CauseKind::MemLow));
}

#[test]
fn detector_severity_levels() {
    let mut d = Rig::new(&sustained(1));
    d.analyze(&make_sample(95.0, 8000, 0.0));
    d.sleep_ms(1100);
    let event = d.analyze(&make_sample(30.0, 8000, 10.0)).unwrap();
    assert_eq!(event.severity, Severity::Minor);
}

#[test]
fn severity_follows_pressure_and_duration() {
    let causes = vec!["CPU usage 95.0% > 90%".to_string()];
    assert_eq!(determine_severity(&causes, 1_000), Severity::Minor);
    assert_eq!(determine_severity(&causes, 10_000), Severity::Minor);
    assert_eq!(determine_severity(&causes, 10_001), Severity::Major);
    assert_eq!(determine_severity(&causes, 30_000), Severity::Major);
    assert_eq!(determine_severity(&causes, 30_001), Severity::Critical);
    let two = vec!["CPU usage".to_string(), "Network spike: 1B/s → 3B/s".to_string()];
    assert_eq!(determine_severity(&two, 1_000), Severity::Minor);
    let unknown = vec!["CPU usage".to_string(), "something".to_string()];
    assert_eq!(determine_severity(&unknown, 1_000), Severity::Major);
}

#[test]
fn a_reading_without_rank_changes_nothing() {
    let mut d = Rig::new(&DetectionConfig::default());
    d.analyze(&make_sample(95.0, 2000, 10.0));
    d.analyze(&make_sample(f32::NAN, 2000, 10.0));
    assert!(d.d.signals().cpu.active);
    assert_eq!(d.causes()[0], "CPU usage NaN%（滞回保持，阈值 90%）");
}

#[test]
fn band_hold_releases_at_the_limit() {
    let mut l = Latch { active: true, band_since: None };
    band_hold_step(&mut l, false, 1, 5 * SEC);
    assert_eq!(l, Latch { active: true, band_since: Some(5 * SEC) });
    band_hold_step(&mut l, false, 1, 6 * SEC - 1);
    assert!(l.active);
    band_hold_step(&mut l, false, 1, 6 * SEC);
    assert_eq!(l, Latch { active: false, band_since: None });
    let mut over = Latch { active: true, band_since: Some(1) };
    band_hold_step(&mut over, true, 1, 9 * SEC);
    assert_eq!(over, Latch { active: true, band_since: None });
}

#[test]
fn hysteresis_has_two_lines() {
    assert!(sys_signal_hysteresis(false, lv(10.5), lv(10.0), lv(5.0)));
    assert!(!sys_signal_hysteresis(false, lv(10.0), lv(10.0), lv(5.0)));
    assert!(sys_signal_hysteresis(true, lv(5.1), lv(10.0), lv(5.0)));
    assert!(sys_signal_hysteresis(true, lv(5.0), lv(10.0), lv(5.0)));
    assert!(!sys_signal_hysteresis(true, lv(4.9), lv(10.0), lv(5.0)));
}

#[test]
fn a_signal_at_its_exit_line_is_kept() {
    let mut d = Rig::new(&sustained(1));
    d.analyze(&make_sample(95.0, 2000, 10.0));
    d.analyze(&make_sample(80.0, 2000, 10.0));
    assert!(d.any("CPU usage"));
    d.sleep_ms(1200);
    let event = d.analyze(&make_sample(79.5, 2000, 10.0)).unwrap();
    assert_eq!(event.cause_kinds, vec![CauseKind::CpuHigh]);
}

#[test]
fn an_event_lists_each_kind_once() {
    let mut d = Rig::new(&sustained(1));
    let mut first = make_sample(30.0, 100, 10.0);
    first.commit_bytes = 95;
    first.commit_limit = 100;
    first.disk_busy = 99.0;
    first.disk_io = 60.0;
    d.analyze(&first);
    assert!(!d.any("Memory usage"));
    d.sleep_ms(200);
    let mut later = first.clone();
    later.mem_percent = 95.0;
    d.analyze(&later);
    assert!(d.any("Memory usage"));
    d.sleep_ms(1200);
    let event = d.analyze(&make_sample(20.0, 2000, 10.0)).unwrap();
    let low = event.causes.iter().filter(|c| CauseKind::from_cause(c) == Some(CauseKind::MemLow)).count();
    assert!(low >= 2);
    assert_eq!(event.cause_kinds.iter().filter(|k| **k == CauseKind::MemLow).count(), 1);
    assert_eq!(event.cause_kinds.iter().filter(|k| **k == CauseKind::DiskBusy).count(), 1);
    assert_eq!(event.primary_cause, event.cause_kinds.first().copied());
}

#[test]
fn windows_split_into_baseline_and_recent() {
    let points: Vec<HistoryPoint> = (0..12u64)
        .map(|i| HistoryPoint { cpu_usage: lv(i as f32), net_sent_bps: u64::MAX, net_recv_bps: i, mem_available_mb: 100 + i })
        .collect();
    let (baseline, recent) = window_columns(&points);
    assert_eq!(baseline.cpu, vec![lv(0.0), lv(1.0)]);
    assert_eq!(baseline.mem, vec![100, 101]);
    assert_eq!(baseline.net, vec![u64::MAX as u128, u64::MAX as u128 + 1]);
    assert_eq!(recent.mem, (102..112).collect::<Vec<u64>>());
    let (none, few) = window_columns(&points[..3].to_vec());
    assert!(none.cpu.is_empty() && none.net.is_empty() && none.mem.is_empty());
    assert_eq!(few.mem, vec![100, 101, 102]);
}

#[test]
fn memory_loss_is_a_spike() {
    let config = DetectionConfig::default();
    let d = Detector::new(&config);
    let raw = make_sample(30.0, 2000, 10.0);
    let now = Clock { wall_ns: START, steady_ns: 0 };
    let mut f = figures(&d, &raw, &ranked(&raw), now);
    f.mem_drop = DropFigures {
        baseline: lv(8000.0),
        fall: lv(3.5),
        baseline_text: "8000".to_string(),
        recent_text: "100".to_string(),
    };
    let mut causes = Vec::new();
    let s: Signals = check_spike(&config.lines, d.signals(), 70, &f, &mut causes);
    assert!(s.mem_spike_active);
    assert_eq!(causes, vec!["Memory available spike: 8000MB → 100MB".to_string()]);
    let mut none = Vec::new();
    assert!(!check_spike(&config.lines, d.signals(), 69, &f, &mut none).mem_spike_active);
    assert!(none.is_empty());
}

#[test]
fn the_earliest_cause_is_the_main_one() {
    let mut d = Rig::new(&sustained(1));
    d.analyze(&make_sample(30.0, 100, 10.0));
    d.sleep_ms(700);
    let mut both = make_sample(95.0, 100, 10.0);
    both.disk_busy = 99.0;
    d.analyze(&both);
    d.sleep_ms(700);
    let event = d.analyze(&make_sample(20.0, 2000, 10.0)).unwrap();
    assert_eq!(event.primary_cause, Some(CauseKind::MemLow));
    assert_eq!(event.cause_kinds, vec![CauseKind::MemLow, CauseKind::CpuHigh, CauseKind::DiskBusy]);
    assert_eq!(event.cause_first_touch, vec![(CauseKind::MemLow, 0), (CauseKind::CpuHigh, 700), (CauseKind::DiskBusy, 700)]);
    assert_eq!(event.timestamp, Timestamp { secs: 1_780_000_001, nanos: 400_000_000 });
}
