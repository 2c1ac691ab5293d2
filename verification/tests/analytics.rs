use chrono::{DateTime, Local, TimeZone, Timelike, Utc};
use find_stutter::analytics::{
    count_cause_types, culprit_groups, load_cause_types, load_culprits, load_kpi, longest_duration, peak_hour, weighted_culprits,
    word_after_space, CulpritRow, TrendBucket, TrendPoint, WeightedCulprit,
};
use find_stutter::cause::{first_touch, CauseKind, Severity, StutterEvent};
use find_stutter::config::DetectionConfig;
use find_stutter::detector::{DropFigures, Figures, SpikeFigures, ThermalFigures};
use find_stutter::event_rows::{
    events_csv_header, events_csv_record, load_events, load_events_sorted, parse_event_sort_column, EventSort, EventSortColumn,
    StoredEvent,
};
use find_stutter::json::{list_json, list_of};
use find_stutter::labels::{cause_kind_label, classify_cause};
use find_stutter::level::Level;
use find_stutter::resource::{
    choose_snapshot, downsample_plan, max_disk, plan_buckets, window_bounds, EventSnapshot, ResourceView, WindowMeans,
};
use find_stutter::root_cause::{
    cause_chain, causal_direction, cause_strength, cluster_profiles, cooccurrence_pairs, detect_core, deviation_flags,
    logical_core_count, match_profile, primary_strength, process_baseline, rival_cause, root_cause_confidence, signature_of,
    sorted_causes_by_first_touch, typical_cpus, Confidence, CoreFigures, Deviation, ProcessBaseline, Strength,
};
use find_stutter::store::{restore_event, EventColumns};
use find_stutter::time_range::TimeRange;
use find_stutter::types::{ProcessBrief, Readings, Sample, Timestamp};

fn lv(x: f64) -> Level {
    Level::of_bits(x.to_bits())
}

fn value(l: Level) -> f64 {
    f64::from_bits(l.to_bits())
}

fn pb(pid: u32, name: &str, cpu: f32, mem: u64) -> ProcessBrief {
    ProcessBrief { pid, name: name.to_string(), cpu_usage: lv(cpu as f64), mem_used_mb: mem, ..ProcessBrief::default() }
}

fn row(duration_ms: u64, culprits: Vec<ProcessBrief>) -> CulpritRow {
    CulpritRow { culprits, duration_ms }
}

fn blank() -> Sample {
    Sample::at(Timestamp { secs: 0, nanos: 0 })
}

fn mk_event(
    duration_ms: u64,
    cause_kinds: Vec<CauseKind>,
    primary_cause: Option<CauseKind>,
    touches: &[(CauseKind, i64)],
    snapshot: Sample,
    culprits: Vec<ProcessBrief>,
) -> StutterEvent {
    StutterEvent {
        duration_ms,
        cause_kinds,
        primary_cause,
        cause_first_touch: touches.to_vec(),
        snapshot,
        culprits,
        ..StutterEvent::default()
    }
}

/// The number that a strength stands for.
fn strength(s: Strength) -> f64 {
    match s {
        Strength::Percent(l) => (value(l) as f32 / 100.0) as f64,
        Strength::Middle => 0.5,
    }
}

fn weigh(events: &Vec<StutterEvent>, limit: usize) -> Vec<WeightedCulprit> {
    let longest = longest_duration(events).max(1) as f64;
    let groups = culprit_groups(events);
    let weights: Vec<Level> = groups
        .iter()
        .map(|g| lv(g.events.iter().map(|&i| events[i].duration_ms as f64 / longest * strength(primary_strength(&events[i]))).sum()))
        .collect();
    weighted_culprits(&groups, &weights, limit)
}

fn baselines(events: &Vec<StutterEvent>) -> Vec<ProcessBaseline> {
    let groups = culprit_groups(events);
    let means: Vec<(Level, Level)> = groups
        .iter()
        .map(|g| {
            let n = g.count as f64;
            (lv(g.cpus.iter().map(|c| value(*c)).sum::<f64>() / n), lv(g.mems.iter().map(|m| *m as f64).sum::<f64>() / n))
        })
        .collect();
    process_baseline(&groups, &means)
}

fn deviations(event: &StutterEvent, known: &Vec<ProcessBaseline>) -> Vec<Deviation> {
    let quotients: Vec<Level> = event
        .culprits
        .iter()
        .zip(typical_cpus(event, known))
        .map(|(p, typical)| lv(value(p.cpu_usage) / typical.map_or(1.0, value)))
        .collect();
    deviation_flags(event, known, &quotients)
}

fn confidence(event: &StutterEvent) -> (f64, &'static str) {
    let ratio = match rival_cause(event) {
        Some(k) if strength(cause_strength(event, k)) > 0.0 => {
            strength(primary_strength(event)) / strength(cause_strength(event, k))
        }
        Some(_) => strength(primary_strength(event)),
        None => 1.0,
    };
    let c = root_cause_confidence(event, lv(ratio));
    (c.hundredths() as f64 / 100.0, c.label())
}

fn recount(s: &Sample, cfg: &DetectionConfig) -> Vec<String> {
    let r = s.readings;
    let spike = || SpikeFigures {
        baseline: lv(0.0),
        baseline_text: String::new(),
        recent_text: String::new(),
        rises: vec![],
        mean_rise: lv(0.0),
    };
    let f = Figures {
        cpu_text: format!("{:.1}", value(r.cpu_usage)),
        mem_text: format!("{:.1}", value(r.mem_usage_percent)),
        page_reads_text: format!("{:.1}", value(r.page_reads_per_sec)),
        disk_busy_text: format!("{:.1}", value(r.disk_busy_percent)),
        disk_io_text: format!("{:.1}", value(r.disk_avg_io_ms)),
        dpc_text: format!("{:.1}", value(r.dpc_percent)),
        interrupt_text: format!("{:.1}", value(r.interrupt_percent)),
        ctx_switch_text: format!("{:.0}", value(r.context_switches_per_sec)),
        commit_percent: lv(if r.commit_limit > 0 { r.commit_bytes as f64 / r.commit_limit as f64 * 100.0 } else { 0.0 }),
        thermal: ThermalFigures {
            faded_peak: lv(0.0),
            drop_line: lv(0.0),
            temp_text: format!("{:.0}", r.cpu_temp.map_or(0.0, value)),
            freq_text: format!("{:.0}", r.cpu_freq_mhz.map_or(0.0, value)),
            peak_text: String::new(),
            drop_percent: 0,
        },
        cpu_spike: spike(),
        net_spike: spike(),
        mem_drop: DropFigures { baseline: lv(0.0), fall: lv(0.0), baseline_text: String::new(), recent_text: String::new() },
    };
    let per_core = value(r.context_switches_per_sec) / logical_core_count(s.cpu_per_core.len()) as f64;
    let c = CoreFigures { ctx_per_core: lv(per_core), ctx_per_core_text: format!("{:.0}", per_core) };
    detect_core(&r, &f, &c, cfg)
}

#[test]
fn load_culprits_aggregates_by_name() {
    let rows = vec![
        row(1000, vec![pb(1, "app.exe", 90.0, 500), pb(2, "bg.exe", 10.0, 100)]),
        row(2000, vec![pb(3, "app.exe", 80.0, 600)]),
        row(3000, vec![pb(4, "bg.exe", 20.0, 200)]),
    ];
    let top = load_culprits(&rows, 10);
    assert_eq!(top.len(), 2);
    let app = top.iter().find(|c| c.name == "app.exe").unwrap();
    assert_eq!(app.count, 2);
    assert_eq!(app.total_duration_ms, 3000);
    assert_eq!(app.max_cpu, lv(90.0));
    assert_eq!(app.max_mem_mb, 600);
    let bg = top.iter().find(|c| c.name == "bg.exe").unwrap();
    assert_eq!(bg.count, 2);
    assert_eq!(bg.total_duration_ms, 4000);
    assert_eq!(top[0].name, "bg.exe");
}

#[test]
fn load_culprits_limit_and_missing_column() {
    let rows = vec![
        row(1000, vec![pb(1, "a.exe", 50.0, 100)]),
        row(2000, vec![pb(2, "b.exe", 50.0, 100)]),
        row(3000, vec![pb(3, "c.exe", 50.0, 100)]),
    ];
    let top = load_culprits(&rows, 2);
    assert_eq!(top.len(), 2);
    assert_eq!(top[0].name, "c.exe");
    let empty = load_culprits(&vec![row(2000, vec![])], 10);
    assert!(empty.is_empty());
}

#[test]
fn classify_cause_covers_detector_text() {
    assert_eq!(classify_cause("CPU usage 95.0% > 90.0%"), "CPU 过高");
    assert_eq!(classify_cause("CPU usage 85.0%（滞回保持，阈值 90%）"), "CPU 过高");
    assert_eq!(classify_cause("CPU spike: 1.0% → 3.0%"), "CPU 突增");
    assert_eq!(classify_cause("Disk write spike: 1B/s → 3B/s"), "磁盘突增");
    assert_eq!(classify_cause("Network spike: 1B/s → 3B/s"), "网络突增");
    assert_eq!(classify_cause("Memory available spike: 1000MB → 200MB"), "内存骤降");
    assert_eq!(classify_cause("Memory usage 95.0% > 90%"), "内存过高");
    assert_eq!(classify_cause("Available memory 100MB < 500MB"), "内存不足");
    assert_eq!(classify_cause("Commit charge 95.0% > 90%"), "提交电荷");
    assert_eq!(classify_cause("Memory paging 200.0/s > 50/s"), "内存分页");
    assert_eq!(classify_cause("weird unknown text"), "其他");
}

#[test]
fn load_cause_types_counts_and_percent() {
    let rows = vec![
        r#"["CPU usage 95.0% > 90.0%"]"#.to_string(),
        r#"["CPU usage 95.0% > 90.0%"]"#.to_string(),
        r#"["Network spike: 1B/s → 3B/s","Available memory 100MB < 500MB"]"#.to_string(),
    ];
    let res = load_cause_types(&rows);
    assert_eq!(res.len(), 3);
    let total: u64 = res.iter().map(|c| c.count).sum();
    assert_eq!(total, 4);
    let cpu = res.iter().find(|c| c.cause_type == "CPU 过高").unwrap();
    assert_eq!(cpu.count, 2);
    assert_eq!(cpu.total, 4);
    assert!((cpu.count as f64 / cpu.total as f64 * 100.0 - 50.0).abs() < 0.01);
    assert_eq!(res[0].cause_type, "CPU 过高");
}

#[test]
fn load_cause_types_empty_when_no_events() {
    assert!(load_cause_types(&vec![]).is_empty());
}

#[test]
fn broken_lists_hold_nothing() {
    assert!(list_of("not json").is_empty());
    assert!(list_of("[1]").is_empty());
    assert_eq!(list_of(r#"["a","b\n"]"#), vec!["a".to_string(), "b\n".to_string()]);
    assert!(load_cause_types(&vec!["{".to_string()]).is_empty());
    let odd = vec!["a\"b\\".to_string(), "换\n行".to_string(), String::new()];
    assert_eq!(list_of(&list_json(&odd)), odd);
    assert_eq!(list_json(&vec!["a".to_string(), "b\n".to_string()]), r#"["a","b\n"]"#);
}

#[test]
fn class_counts_add_up() {
    let causes: Vec<String> =
        ["CPU usage 1", "x", "CPU usage 2", "DPC time", "y"].iter().map(|s| s.to_string()).collect();
    let r = count_cause_types(&causes);
    assert_eq!(r.iter().map(|c| c.count).sum::<u64>(), 5);
    assert!(r.iter().all(|c| c.total == 5));
    assert!(r.windows(2).all(|w| w[0].count >= w[1].count));
}

fn stored(id: i64, minute: u32, duration_ms: u64, severity: &str, causes: &str, names: &[&str]) -> StoredEvent {
    StoredEvent {
        id,
        timestamp: format!("2026-08-16T00:{:02}:00+00:00", minute),
        local_time: format!("2026-08-16 08:{:02}:00", minute),
        duration_ms,
        severity: severity.to_string(),
        causes_json: causes.to_string(),
        culprit_names: names.iter().map(|n| n.to_string()).collect(),
    }
}

#[test]
fn load_events_returns_sorted_with_local_time_and_cn_severity() {
    let events = vec![
        stored(1, 0, 1000, "minor", r#"["CPU usage 95.0% > 90.0%"]"#, &["app.exe"]),
        stored(2, 1, 2000, "minor", r#"["Network spike: 1B/s → 3B/s"]"#, &["svc.exe"]),
    ];
    let rows = load_events(&events);
    assert_eq!(rows.len(), 2);
    assert!(rows[0].duration_ms < rows[1].duration_ms);
    assert!(rows[0].time_local.contains(' '));
    assert_eq!(rows[0].severity_cn, "轻微");
    assert!(rows[0].causes_text.contains("CPU"));
    assert_eq!(rows[0].culprits_text, "app.exe");
    assert_eq!(rows[0].culprit_names, vec!["app.exe".to_string()]);
    assert_eq!(rows[0].ts_secs, 1_786_838_400);
}

#[test]
fn a_moment_that_cannot_be_read_is_shown_as_it_stands() {
    let mut e = stored(1, 0, 1000, "odd", "[]", &[]);
    e.timestamp = "yesterday".to_string();
    let rows = load_events(&vec![e]);
    assert_eq!(rows[0].time_local, "yesterday");
    assert_eq!(rows[0].ts_secs, 0);
    assert_eq!(rows[0].severity_cn, "odd");
}

#[test]
fn export_events_csv_writes_chinese_header_and_rows() {
    let events = vec![stored(
        1,
        0,
        1000,
        "minor",
        r#"["CPU usage 95.0% > 90.0%","Available memory 100MB < 500MB"]"#,
        &["app.exe", "bg.exe"],
    )];
    let rows = load_events(&events);
    assert_eq!(events_csv_header(), vec!["时间", "持续毫秒", "严重程度", "触发原因", "元凶进程"]);
    let records: Vec<Vec<String>> = rows.iter().map(|r| events_csv_record(r)).collect();
    assert_eq!(records.len(), 1);
    assert_eq!(records[0][4], "app.exe,bg.exe");
    assert!(records[0][3].contains("；"));
    assert_eq!(records[0][1], "1000");
}

#[test]
fn load_events_sorted_by_duration_and_severity() {
    let events = vec![
        stored(1, 0, 1000, "minor", r#"["CPU usage 95.0% > 90.0%"]"#, &["app.exe"]),
        stored(2, 1, 3000, "major", r#"["Network spike: 1B/s -> 3B/s"]"#, &["svc.exe"]),
        stored(3, 2, 2000, "critical", r#"["Available memory 100MB < 500MB"]"#, &["bg.exe"]),
    ];
    let rows = load_events(&events);
    assert_eq!(rows.len(), 3);
    assert_eq!(rows[0].duration_ms, 1000);
    assert_eq!(rows[2].duration_ms, 2000);
    let asc = load_events_sorted(&events, &EventSort { column: EventSortColumn::Duration, asc: true });
    assert_eq!(asc[0].duration_ms, 1000);
    assert_eq!(asc[1].duration_ms, 2000);
    assert_eq!(asc[2].duration_ms, 3000);
    let desc = load_events_sorted(&events, &EventSort { column: EventSortColumn::Duration, asc: false });
    assert_eq!(desc[0].duration_ms, 3000);
    assert_eq!(desc[2].duration_ms, 1000);
    let by_sev = load_events_sorted(&events, &EventSort { column: EventSortColumn::Severity, asc: false });
    assert_eq!(by_sev[0].severity_cn, "危急");
    assert_eq!(by_sev[1].severity_cn, "严重");
    assert_eq!(by_sev[2].severity_cn, "轻微");
    assert_eq!(parse_event_sort_column("pid"), EventSortColumn::Time);
    assert_eq!(parse_event_sort_column("culprits"), EventSortColumn::Culprits);
    let by_name = load_events_sorted(&events, &EventSort { column: EventSortColumn::Culprits, asc: true });
    let names: Vec<&str> = by_name.iter().map(|r| r.culprits_text.as_str()).collect();
    assert_eq!(names, vec!["app.exe", "bg.exe", "svc.exe"]);
}

#[test]
fn rc5_weighted_culprits_orders_by_weight_and_aggregates() {
    let mut s1 = blank();
    s1.readings.cpu_usage = lv(100.0);
    let mut s2 = blank();
    s2.readings.mem_usage_percent = lv(100.0);
    let mut s3 = blank();
    s3.readings.disk_busy_percent = lv(100.0);
    let e1 = mk_event(5000, vec![CauseKind::CpuHigh], Some(CauseKind::CpuHigh), &[], s1, vec![pb(1, "appA.exe", 90.0, 100)]);
    let e2 = mk_event(2000, vec![CauseKind::MemLow], Some(CauseKind::MemLow), &[], s2, vec![pb(2, "appB.exe", 50.0, 100)]);
    let e3 = mk_event(1000, vec![CauseKind::DiskBusy], Some(CauseKind::DiskBusy), &[], s3, vec![pb(3, "appA.exe", 10.0, 100)]);
    let top = weigh(&vec![e1, e2, e3], 10);
    assert_eq!(top.len(), 2);
    assert_eq!(top[0].name, "appA.exe");
    assert!((value(top[0].weight) - 1.2).abs() < 1e-9);
    assert_eq!(top[0].count, 2);
    assert_eq!(top[0].total_duration_ms, 6000);
    assert_eq!(top[1].name, "appB.exe");
    assert!((value(top[1].weight) - 0.4).abs() < 1e-9);
    assert_eq!(top[1].count, 1);
    assert_eq!(top[1].total_duration_ms, 2000);
}

#[test]
fn rc6_causal_direction_marks_trigger_and_amplifiers() {
    let e = mk_event(
        2000,
        vec![CauseKind::MemLow, CauseKind::DiskBusy],
        Some(CauseKind::MemLow),
        &[(CauseKind::MemLow, 0), (CauseKind::DiskBusy, 1200)],
        blank(),
        vec![],
    );
    let (trigger, amplifiers) = causal_direction(&e);
    assert_eq!(trigger, Some(CauseKind::MemLow));
    assert_eq!(amplifiers, vec![CauseKind::DiskBusy]);
}

#[test]
fn typical_use_is_found_by_name() {
    let known = vec![
        ProcessBaseline { name: "a.exe".to_string(), typical_cpu: lv(4.0), typical_mem_mb: lv(1.0), appearances: 3 },
        ProcessBaseline { name: "a.exe".to_string(), typical_cpu: lv(9.0), typical_mem_mb: lv(1.0), appearances: 3 },
    ];
    let mut e = StutterEvent::default();
    e.culprits = vec![pb(1, "b.exe", 1.0, 1), pb(2, "a.exe", 8.0, 1)];
    assert_eq!(typical_cpus(&e, &known), vec![None, Some(lv(4.0))]);
}

#[test]
fn rc7_deviation_flags_significant_only_when_baseline_stable_and_spiking() {
    let mut events: Vec<StutterEvent> = (0..3)
        .map(|i| {
            let mut s = blank();
            s.readings.cpu_usage = lv(50.0);
            mk_event(1000, vec![], None, &[], s, vec![pb(100 + i, "appA.exe", 50.0, 100)])
        })
        .collect();
    let mut s = blank();
    s.readings.cpu_usage = lv(30.0);
    events.push(mk_event(1000, vec![], None, &[], s, vec![pb(200, "appB.exe", 30.0, 80)]));
    let baseline = baselines(&events);
    let a_base = baseline.iter().find(|b| b.name == "appA.exe").unwrap();
    assert_eq!(a_base.appearances, 3);
    assert_eq!(a_base.typical_cpu, lv(50.0));
    assert_eq!(a_base.typical_mem_mb, lv(100.0));
    let ev = mk_event(1500, vec![], None, &[], blank(), vec![pb(1, "appA.exe", 100.0, 200), pb(2, "appB.exe", 30.0, 80)]);
    let flags = deviations(&ev, &baseline);
    let a = flags.iter().find(|d| d.name == "appA.exe").unwrap();
    assert_eq!(a.significant, true);
    assert!((value(a.multiple) - 2.0).abs() < 1e-6);
    let bb = flags.iter().find(|d| d.name == "appB.exe").unwrap();
    assert_eq!(bb.significant, false);
}

#[test]
fn rc8_cooccurrence_pairs_count_and_order() {
    let p = |pid: u32, name: &str| pb(pid, name, 10.0, 50);
    let ev1 = mk_event(1000, vec![], None, &[], blank(), vec![p(1, "appA.exe"), p(2, "appB.exe"), p(3, "appC.exe")]);
    let ev2 = mk_event(1000, vec![], None, &[], blank(), vec![p(4, "appA.exe"), p(5, "appB.exe")]);
    let ev3 = mk_event(1000, vec![], None, &[], blank(), vec![p(6, "appA.exe"), p(7, "appB.exe")]);
    let pairs = cooccurrence_pairs(&vec![ev1, ev2, ev3]);
    let ab = pairs
        .iter()
        .find(|p| {
            (p.pair.0 == "appA.exe" && p.pair.1 == "appB.exe") || (p.pair.0 == "appB.exe" && p.pair.1 == "appA.exe")
        })
        .unwrap();
    assert_eq!(ab.count, 3);
    assert_eq!(pairs[0].count, 3);
    assert!(pairs[0].pair.0 <= pairs[0].pair.1);
    assert_eq!(pairs.len(), 3);
}

#[test]
fn rc9_cause_chain_orders_by_first_touch() {
    let e = mk_event(
        2000,
        vec![CauseKind::MemLow, CauseKind::DiskBusy],
        Some(CauseKind::MemLow),
        &[(CauseKind::MemLow, 0), (CauseKind::DiskBusy, 1200)],
        blank(),
        vec![],
    );
    assert_eq!(cause_chain(&e), vec![CauseKind::MemLow, CauseKind::DiskBusy]);
}

#[test]
fn the_chain_reorders_and_puts_untouched_kinds_last() {
    let e = mk_event(
        2000,
        vec![CauseKind::UiFrozen, CauseKind::CpuHigh, CauseKind::DiskBusy],
        None,
        &[(CauseKind::CpuHigh, 900), (CauseKind::DiskBusy, 100)],
        blank(),
        vec![],
    );
    assert_eq!(cause_chain(&e), vec![CauseKind::DiskBusy, CauseKind::CpuHigh, CauseKind::UiFrozen]);
    let touched = sorted_causes_by_first_touch(&e);
    assert_eq!(touched[0], (CauseKind::DiskBusy, 100));
    let none = mk_event(1, vec![], None, &[], blank(), vec![]);
    assert_eq!(causal_direction(&none), (None, vec![]));
}

#[test]
fn rc11_confidence_single_cause_is_high() {
    let e = mk_event(2000, vec![CauseKind::CpuHigh], Some(CauseKind::CpuHigh), &[], blank(), vec![]);
    let (conf, label) = confidence(&e);
    assert_eq!(conf, 0.9);
    assert_eq!(label, "高");
}

#[test]
fn rc11_confidence_multi_leading_primary_is_highish() {
    let mut s = blank();
    s.readings.cpu_usage = lv(100.0);
    s.readings.disk_busy_percent = lv(50.0);
    let e = mk_event(
        2000,
        vec![CauseKind::CpuHigh, CauseKind::DiskBusy],
        Some(CauseKind::CpuHigh),
        &[(CauseKind::CpuHigh, 0), (CauseKind::DiskBusy, 1500)],
        s,
        vec![],
    );
    let (conf, label) = confidence(&e);
    assert_eq!(conf, 0.7);
    assert_eq!(label, "较高");
}

#[test]
fn rc11_confidence_multi_overlapping_is_low() {
    let mut s = blank();
    s.readings.cpu_usage = lv(50.0);
    s.readings.disk_busy_percent = lv(50.0);
    let e = mk_event(
        2000,
        vec![CauseKind::CpuHigh, CauseKind::DiskBusy],
        Some(CauseKind::CpuHigh),
        &[(CauseKind::CpuHigh, 0), (CauseKind::DiskBusy, 0)],
        s,
        vec![],
    );
    let (conf, label) = confidence(&e);
    assert_eq!(conf, 0.35);
    assert!(label.contains("多因并发"));
    assert_eq!(rival_cause(&e), Some(CauseKind::DiskBusy));
    assert_eq!(root_cause_confidence(&e, lv(1.5)), Confidence::Leading);
    assert_eq!(root_cause_confidence(&e, lv(1.49)), Confidence::Unclear);
}

#[test]
fn rc12_detect_core_high_cpu_and_thermal_and_clean() {
    let cfg = DetectionConfig::default();
    let mut s = blank();
    s.readings.cpu_usage = lv(95.0);
    s.readings.mem_available_mb = 8000;
    s.readings.mem_usage_percent = lv(30.0);
    s.readings.commit_limit = 1_000_000;
    s.readings.commit_bytes = 100_000;
    let out = recount(&s, &cfg);
    assert!(out.iter().any(|c| c.contains("CPU usage")));

    let mut normal = blank();
    normal.readings.cpu_usage = lv(30.0);
    normal.readings.mem_available_mb = 8000;
    normal.readings.mem_usage_percent = lv(30.0);
    normal.readings.commit_limit = 1_000_000;
    normal.readings.commit_bytes = 100_000;
    normal.readings.page_reads_per_sec = lv(0.0);
    assert!(recount(&normal, &cfg).is_empty());

    let mut hot = blank();
    hot.readings.cpu_temp = Some(lv(95.0));
    hot.readings.cpu_freq_mhz = Some(lv(2000.0));
    hot.readings.cpu_usage = lv(80.0);
    hot.readings.mem_available_mb = 8000;
    hot.readings.mem_usage_percent = lv(30.0);
    let out2 = recount(&hot, &cfg);
    assert!(out2.iter().any(|c| c.contains("Thermal throttle")));

    let mut commit_only = blank();
    commit_only.readings.cpu_usage = lv(30.0);
    commit_only.readings.mem_available_mb = 8000;
    commit_only.readings.mem_usage_percent = lv(30.0);
    commit_only.readings.commit_limit = 1_000_000;
    commit_only.readings.commit_bytes = 950_000;
    assert!(recount(&commit_only, &cfg).is_empty());

    let mut thrash = commit_only.copy();
    thrash.readings.page_reads_per_sec = lv(400.0);
    assert!(recount(&thrash, &cfg).iter().any(|c| c.contains("Memory paging")));
}

#[test]
fn rc_detect_core_ctx_switch_per_core_with_evidence() {
    let cfg = DetectionConfig::default();
    let mut s = blank();
    s.readings.cpu_usage = lv(85.0);
    s.readings.mem_available_mb = 8000;
    s.readings.mem_usage_percent = lv(30.0);
    s.cpu_per_core = vec![lv(85.0); 14];
    s.readings.context_switches_per_sec = lv(150_000.0);
    assert!(recount(&s, &cfg).iter().any(|c| c.contains("Context switches")));

    let mut low = s.copy();
    low.readings.cpu_usage = lv(50.0);
    low.cpu_per_core = vec![lv(50.0); 14];
    assert!(!recount(&low, &cfg).iter().any(|c| c.contains("Context switches")));

    let mut base = low.copy();
    base.readings.context_switches_per_sec = lv(70_000.0);
    assert!(!recount(&base, &cfg).iter().any(|c| c.contains("Context switches")));
}

#[test]
fn rc13_cluster_profiles_and_match() {
    let mk = |dur: u64| {
        let mut s = blank();
        s.readings.cpu_usage = lv(95.0);
        mk_event(dur, vec![CauseKind::CpuHigh], Some(CauseKind::CpuHigh), &[], s, vec![pb(1, "appA.exe", 10.0, 50)])
    };
    let e1 = mk(2000);
    let e2 = mk(3000);
    let mut s3 = blank();
    s3.readings.mem_usage_percent = lv(95.0);
    let e3 = mk_event(8000, vec![CauseKind::MemLow], Some(CauseKind::MemLow), &[], s3, vec![pb(2, "appB.exe", 10.0, 50)]);
    let profiles = cluster_profiles(&vec![e1.copy(), e2.copy(), e3.copy()]);
    assert_eq!(profiles.len(), 2);
    let sig = signature_of(&e1);
    let prof = profiles.iter().find(|p| p.signature == sig).unwrap();
    assert!(prof.count >= 2);
    assert_eq!(prof.count, 2);
    assert!((prof.total_duration_ms as f64 / prof.count as f64 - 2500.0).abs() < 1e-9);
    let m = match_profile(&e1, &profiles);
    assert!(m.is_some());
    assert!(m.unwrap().contains("匹配已知画像"));
    assert!(match_profile(&e3, &profiles).is_none());
}

#[test]
fn load_full_events_roundtrip_structured_fields() {
    let mut snapshot = blank();
    snapshot.readings.cpu_usage = lv(96.0);
    snapshot.readings.mem_usage_percent = lv(92.0);
    let now = Timestamp { secs: 1_800_000_000, nanos: 0 };
    let got = restore_event(
        EventColumns {
            id: 1,
            timestamp: "2026-08-16T00:05:00+00:00".to_string(),
            duration_ms: 1500,
            severity: "major".to_string(),
            causes: r#"["CPU usage 95.0% > 90.0%"]"#.to_string(),
            cause_kinds: vec![CauseKind::CpuHigh, CauseKind::MemLow],
            primary_cause: Some(CauseKind::CpuHigh),
            cause_first_touch: vec![(CauseKind::CpuHigh, 0), (CauseKind::MemLow, 800)],
            snapshot,
            culprits: vec![pb(1, "app.exe", 96.0, 512)],
            onset_ts: 1_786_838_700 - 1500,
        },
        now,
    );
    assert_eq!(got.cause_kinds, vec![CauseKind::CpuHigh, CauseKind::MemLow]);
    assert_eq!(got.primary_cause, Some(CauseKind::CpuHigh));
    assert_eq!(first_touch(&got.cause_first_touch, CauseKind::MemLow), Some(800));
    assert_eq!(got.snapshot.readings.cpu_usage, lv(96.0));
    assert_eq!(got.culprits.len(), 1);
    assert_eq!(got.culprits[0].name, "app.exe");
    assert!(got.onset_ts.is_some());
    assert_eq!(got.severity, Severity::Major);
    assert_eq!(got.causes, vec!["CPU usage 95.0% > 90.0%".to_string()]);
    assert_eq!(got.timestamp, Timestamp { secs: 1_786_838_700, nanos: 0 });
    assert_eq!(cause_kind_label(CauseKind::CpuHigh), "CPU 占用高");
    assert_eq!(cause_kind_label(CauseKind::ThermalThrottle), "温度降频");
    assert_eq!(cause_kind_label(CauseKind::UiFrozen), "界面冻结");
}

fn point(bucket: &str, count: u32) -> TrendPoint {
    TrendPoint { bucket: bucket.to_string(), count, total_ms: 0, critical: 0, major: 0, minor: 0 }
}

#[test]
fn load_kpi_today_aligns_with_event_count() {
    let rows: Vec<CulpritRow> =
        (0..3u32).map(|i| row(1000 * (i as u64 + 1), vec![pb(100 + i, &format!("app{}.exe", i % 2), 80.0, 200)])).collect();
    let kpi = load_kpi(3, 3000, &vec![point("2026-08-16 09:00", 3)], &rows);
    assert_eq!(kpi.today_count, 3);
    assert_eq!(kpi.worst_duration_ms, 3000);
    assert!(kpi.peak_hour.ends_with(":00"));
    assert_ne!(kpi.peak_hour, "—");
    assert_eq!(kpi.peak_hour, "09:00");
    assert_ne!(kpi.top_culprit, "—");
    assert!(kpi.top_culprit.starts_with("app"));
    assert_eq!(kpi.top_culprit, "app0.exe");
}

#[test]
fn an_empty_range_has_dashes() {
    let kpi = load_kpi(0, 0, &vec![], &vec![]);
    assert_eq!(kpi.peak_hour, "—");
    assert_eq!(kpi.top_culprit, "—");
    assert_eq!(word_after_space("2026-08-16"), None);
    assert_eq!(word_after_space("a b c"), Some("b".to_string()));
}

#[test]
fn time_range_bounds_today_starts_at_local_midnight() {
    let now = Utc::now();
    let local = Local::now();
    let midnight = Local
        .from_local_datetime(&local.date_naive().and_hms_opt(0, 0, 0).unwrap())
        .single()
        .unwrap()
        .with_timezone(&Utc);
    let (start, end) = TimeRange::Today.bounds(
        Timestamp { secs: now.timestamp(), nanos: now.timestamp_subsec_nanos() },
        Timestamp { secs: midnight.timestamp(), nanos: 0 },
    );
    let start_dt = DateTime::parse_from_rfc3339(&start).unwrap();
    let start_local = start_dt.with_timezone(&Local);
    assert_eq!((start_local.hour(), start_local.minute(), start_local.second()), (0, 0, 0));
    let end_dt = DateTime::parse_from_rfc3339(&end).unwrap();
    assert!(end_dt >= start_dt);
}

#[test]
fn ranges_by_index_and_by_texts() {
    let now = Timestamp { secs: 1_786_838_400 + 3_600, nanos: 500_000_000 };
    let today = Timestamp { secs: 1_786_838_400, nanos: 0 };
    let (a, b) = TimeRange::from_index(1).bounds(now, today);
    assert_eq!(a, "2026-08-09T01:00:00.500+00:00");
    assert_eq!(b, "2026-08-16T01:00:00.500+00:00");
    assert_eq!(TimeRange::from_index(2).label(), "近30天");
    assert_eq!(TimeRange::from_index(9).label(), "今日");
    let custom = TimeRange::Custom("2026-08-01T08:00:00+08:00".to_string(), "nonsense".to_string());
    let (c, d) = custom.bounds(now, today);
    assert_eq!(c, "2026-08-01T00:00:00+00:00");
    assert_eq!(d, b);
}

#[test]
fn load_resource_downsamples_to_bucket_count() {
    let base = Timestamp { secs: 1_786_838_400, nanos: 0 };
    let now = Timestamp { secs: base.secs + 3600, nanos: 0 };
    let plan = plan_buckets(Some(base), Some(now), now, 200);
    let mut held: Vec<i64> = (0..3600).map(|i| plan.event_bucket(base.secs + i)).collect();
    held.dedup();
    assert!(!held.is_empty());
    assert!(held.len() <= 201);
    assert_eq!(plan.bucket_secs, 18);
    assert_eq!(plan.place(2), (2, base.secs + 36));
}

#[test]
fn load_resource_maps_event_timestamps_to_buckets() {
    let now = Timestamp { secs: 1_786_838_400 + 86_400, nanos: 0 };
    let plan = downsample_plan("2026-08-16T00:00:00+00:00", "2026-08-17T00:00:00+00:00", now, 200);
    assert_eq!(plan.bucket_secs, 432);
    assert!(plan.event_bucket(plan.base_secs + 30) >= 0);
    assert_eq!(plan.event_bucket(plan.base_secs + 30), 0);
    assert_eq!(plan.event_bucket(plan.base_secs - 5), 0);
    assert_eq!(plan.event_bucket(plan.base_secs + 10_000_000), plan.buckets - 1);
    assert!(plan.short_labels());
}

#[test]
fn windows_lie_round_their_middle() {
    let (a, b) = window_bounds(1_786_838_400, 60);
    assert_eq!(a, "2026-08-15T23:59:00+00:00");
    assert_eq!(b, "2026-08-16T00:01:00+00:00");
}

#[test]
fn snapshots_prefer_means() {
    let nearest = EventSnapshot { cpu: lv(1.0), mem: lv(2.0), disk_read: lv(3.0), disk_write: lv(4.0), gpu: None };
    let means = WindowMeans { cpu: Some(lv(9.0)), mem: Some(lv(8.0)), disk_read: Some(lv(7.0)), disk_write: Some(lv(6.0)), gpu: None };
    assert_eq!(choose_snapshot(Some(means), Some(nearest)).unwrap().cpu, lv(9.0));
    assert_eq!(choose_snapshot(Some(WindowMeans { cpu: None, ..means }), Some(nearest)), Some(nearest));
    assert_eq!(choose_snapshot(None, None), None);
    assert_eq!(max_disk(&vec![]), lv(1.0));
    assert_eq!(max_disk(&vec![(lv(5.0), lv(9.0)), (lv(7.0), lv(1.0))]), lv(9.0));
    let v = ResourceView::default();
    assert!(v.cpu && v.mem && v.disk_read && v.disk_write && v.gpu);
}

#[test]
fn peak_hours_and_buckets_by_name() {
    assert_eq!(peak_hour(&vec![point("2026-08-16 09:00", 1), point("2026-08-16 10:00", 4)]), "10:00");
    assert_eq!(TrendBucket::from("15 分钟"), TrendBucket::QuarterHour);
    assert_eq!(TrendBucket::from("天"), TrendBucket::Day);
    assert_eq!(TrendBucket::from("week"), TrendBucket::Hour);
}

#[test]
fn strengths_follow_the_readings() {
    let mut s = blank();
    s.readings = Readings { cpu_usage: lv(150.0), mem_usage_percent: lv(40.0), ..Readings::default() };
    let e = mk_event(1, vec![CauseKind::CpuHigh], Some(CauseKind::MemLow), &[], s, vec![]);
    assert_eq!(cause_strength(&e, CauseKind::CpuHigh), Strength::Percent(lv(150.0)));
    assert_eq!(primary_strength(&e), Strength::Percent(lv(40.0)));
    assert_eq!(cause_strength(&e, CauseKind::UiFrozen), Strength::Middle);
}

#[test]
fn signatures_name_kinds_culprits_and_length() {
    let e = mk_event(
        4999,
        vec![CauseKind::MemLow, CauseKind::CpuHigh],
        None,
        &[],
        blank(),
        vec![pb(1, "b.exe", 1.0, 1), pb(2, "a.exe", 9.0, 1)],
    );
    assert_eq!(signature_of(&e), "CpuHigh|MemLow|a.exe|b.exe|中");
}
