use chrono::{DateTime, Datelike, Local, NaiveDateTime, TimeZone, Timelike, Utc};
use find_stutter::binary64::{format_duration, mean_seconds_text};
use find_stutter::cause::{CauseKind, Severity, StutterEvent};
use find_stutter::config::{Config, StorageConfig};
use find_stutter::level::Level;
use find_stutter::query::{
    blob_text, check_readonly, db_path_from_config, event_fields, latest_events, latest_root_cause, limited_processes,
};
use find_stutter::store::{
    cleanup_cutoffs, csv_header, csv_record, event_columns, restore_event, stored_onset, EventColumns, ExportRow, SampleBuffer,
};
use find_stutter::time_range::{local_today_bounds, resolve_range, LocalMoments, TimeRange};
use find_stutter::timeparse::{parse_time_arg, settle, trim, TimeArg};
use find_stutter::types::{ProcessBrief, Sample, Timestamp};

const NOW: Timestamp = Timestamp { secs: 1_786_872_868, nanos: 403_000_000 };
const TODAY: Timestamp = Timestamp { secs: 1_786_838_400, nanos: 0 };

fn utc(t: Timestamp) -> DateTime<Utc> {
    DateTime::from_timestamp(t.secs, t.nanos).unwrap()
}

fn stamp(d: DateTime<Utc>) -> Timestamp {
    Timestamp { secs: d.timestamp(), nanos: d.timestamp_subsec_nanos() }
}

/// The moment at which the local clock shows a reading.
fn local_moment(arg: Option<TimeArg>) -> Option<Timestamp> {
    match arg {
        Some(TimeArg::LocalClock(t)) => {
            let shown: NaiveDateTime = utc(t).naive_utc();
            Local.from_local_datetime(&shown).single().map(|d| stamp(d.with_timezone(&Utc)))
        }
        _ => None,
    }
}

fn parse(s: &str) -> Option<DateTime<Utc>> {
    let arg = parse_time_arg(s);
    settle(arg, local_moment(arg)).map(utc)
}

fn resolve(from: Option<&str>, to: Option<&str>) -> Result<(String, String), String> {
    let local = LocalMoments {
        from: from.and_then(|s| local_moment(parse_time_arg(s))),
        to: to.and_then(|s| local_moment(parse_time_arg(s))),
    };
    resolve_range(from, to, local, NOW, TODAY)
}

#[test]
fn rfc3339_with_z_suffix() {
    let dt = parse("2026-08-16T09:30:00Z").unwrap();
    assert_eq!(dt.to_rfc3339(), "2026-08-16T09:30:00+00:00");
}

#[test]
fn rfc3339_with_offset() {
    let dt = parse("2026-08-16T09:30:00+08:00").unwrap();
    assert_eq!(dt.to_rfc3339(), "2026-08-16T01:30:00+00:00");
}

#[test]
fn date_only_is_local_midnight() {
    let dt = parse("2026-08-16").unwrap();
    let local = dt.with_timezone(&Local);
    assert_eq!((local.year(), local.month(), local.day()), (2026, 8, 16));
    assert_eq!((local.hour(), local.minute(), local.second()), (0, 0, 0));
}

#[test]
fn datetime_space_and_t_forms() {
    let a = parse("2026-08-16 09:30:00").unwrap();
    let b = parse("2026-08-16T09:30:00").unwrap();
    assert_eq!(a, b);
    let local = a.with_timezone(&Local);
    assert_eq!((local.hour(), local.minute()), (9, 30));
}

#[test]
fn minute_precision_form() {
    let dt = parse("2026-08-16 09:30").unwrap();
    let local = dt.with_timezone(&Local);
    assert_eq!((local.hour(), local.minute(), local.second()), (9, 30, 0));
}

#[test]
fn garbage_returns_none() {
    assert!(parse("").is_none());
    assert!(parse("   ").is_none());
    assert!(parse("yesterday").is_none());
    assert!(parse("2026/08/16").is_none());
    assert!(parse("16-08-2026").is_none());
}

#[test]
fn white_space_round_a_time_is_ignored() {
    for s in ["\u{3000} 2026-08-16\t\n", "a\u{00a0}b", "", " \u{2009}", "x\u{0085}"] {
        assert_eq!(trim(s), s.trim());
    }
    assert_eq!(parse_time_arg("  2026-08-16 "), Some(TimeArg::LocalClock(TODAY)));
}

#[test]
fn resolve_range_defaults_to_today() {
    let (start, end) = resolve(None, None).unwrap();
    let (today_start, today_end) = TimeRange::Today.bounds(NOW, TODAY);
    assert_eq!(start, today_start);
    assert_eq!(end, today_end);
    assert_eq!(local_today_bounds(Some(TODAY), NOW), (start, end));
}

#[test]
fn resolve_range_parses_explicit() {
    let (start, end) = resolve(Some("2026-08-16"), Some("2026-08-16T23:59:59Z")).unwrap();
    assert!(start.ends_with("+00:00"));
    assert_eq!(end, "2026-08-16T23:59:59+00:00");
}

#[test]
fn resolve_range_rejects_garbage() {
    assert!(resolve(Some("not-a-time"), None).is_err());
    assert!(resolve(None, Some("not-a-time")).is_err());
    assert!(resolve(Some("not-a-time"), None).unwrap_err().contains("--from"));
}

#[test]
fn event_to_json_absolute_times_are_iso8601_or_null() {
    let mut ev = StutterEvent {
        id: 7,
        timestamp: stamp(
            DateTime::parse_from_rfc3339("2026-08-16T09:35:03.167447200+00:00").unwrap().with_timezone(&Utc),
        ),
        duration_ms: 3212,
        severity: Severity::Critical,
        onset_ts: Some(1_786_872_868_403),
        ..StutterEvent::default()
    };
    let v = event_fields(&ev);
    let onset = v.onset_ts.expect("the beginning is a text");
    let parsed = DateTime::parse_from_rfc3339(&onset).unwrap();
    assert_eq!(parsed.timestamp_millis(), 1_786_872_868_403);
    DateTime::parse_from_rfc3339(&v.timestamp).unwrap();
    assert_eq!(v.severity, "critical");
    ev.onset_ts = None;
    assert!(event_fields(&ev).onset_ts.is_none());
}

fn event(i: u64) -> StutterEvent {
    StutterEvent {
        id: i as i64,
        timestamp: Timestamp { secs: TODAY.secs + 60 * i as i64, nanos: 0 },
        duration_ms: 1000 * i,
        severity: Severity::Major,
        causes: vec!["CPU usage 95.0% > 90.0%".to_string()],
        cause_kinds: vec![CauseKind::CpuHigh],
        primary_cause: Some(CauseKind::CpuHigh),
        onset_ts: Some(TODAY.secs * 1000),
        cause_first_touch: vec![(CauseKind::CpuHigh, 0)],
        culprits: vec![ProcessBrief { pid: 100, name: "app.exe".to_string(), ..ProcessBrief::default() }],
        ..StutterEvent::default()
    }
}

#[test]
fn events_json_respects_limit_and_fields() {
    let shown = latest_events((1..=5).map(event).collect(), 3);
    assert_eq!(shown.len(), 3);
    assert_eq!(shown[0].duration_ms, 3000);
    assert_eq!(shown[2].duration_ms, 5000);
    let v = event_fields(&shown[0]);
    assert_eq!(v.causes.len(), 1);
    assert_eq!(v.cause_kinds[0], "CpuHigh");
    assert_eq!(v.primary_cause.as_deref(), Some("CpuHigh"));
    assert_eq!(v.severity, "major");
    assert!(v.culprits[0].name.contains("app"));
    for s in [&v.timestamp, v.onset_ts.as_ref().unwrap()] {
        DateTime::parse_from_rfc3339(s).unwrap();
    }
    assert_eq!(v.cause_first_touch_offset_ms, vec![("CpuHigh".to_string(), 0)]);
}

#[test]
fn events_json_empty_db_returns_empty_array() {
    assert!(latest_events(vec![], 100).is_empty());
}

#[test]
fn analysis_json_empty_db_returns_null_placeholders() {
    assert!(latest_root_cause(&vec![], Level::At(0)).is_none());
}

#[test]
fn analysis_json_shape() {
    let events: Vec<StutterEvent> = (1..=3).map(event).collect();
    let rc = latest_root_cause(&events, Level::At(0)).unwrap();
    assert_eq!(rc.event_id, 3);
    assert_eq!(rc.confidence.hundredths(), 90);
    assert_eq!(rc.cause_chain[0], "CpuHigh");
    assert_eq!(rc.trigger.as_deref(), Some("CpuHigh"));
    assert!(rc.amplifiers.is_empty());
    assert!(rc.profile_match.is_some());
}

#[test]
fn sample_to_json_shape_and_limit() {
    let procs: Vec<ProcessBrief> = (0..5)
        .map(|i| ProcessBrief { pid: 1000 + i, name: format!("proc{}.exe", i), mem_used_mb: 500, ..ProcessBrief::default() })
        .collect();
    let top = limited_processes(&procs, 3);
    assert_eq!(top.len(), 3);
    assert_eq!(top[0].name, "proc0.exe");
    assert_eq!(top[0].pid, 1000);
}

#[test]
fn limit_zero_returns_empty_list() {
    let procs = vec![ProcessBrief { pid: 1, name: "a.exe".to_string(), mem_used_mb: 1, ..ProcessBrief::default() }];
    assert!(limited_processes(&procs, 0).is_empty());
}

#[test]
fn writing_statements_are_refused() {
    assert!(check_readonly(true).is_ok());
    assert!(check_readonly(false).unwrap_err().contains("SELECT"));
    assert_eq!(blob_text(&[0, 0x1f, 0xa0]), "001fa0");
    assert_eq!(db_path_from_config(None), "stutter.db");
    let mut c = Config::default();
    c.storage.db_path = "D:/x.db".to_string();
    assert_eq!(db_path_from_config(Some(&c)), "D:/x.db");
}

fn sample(secs: i64) -> Sample {
    Sample::at(Timestamp { secs, nanos: 0 })
}

#[test]
fn logger_write_multiple_samples() {
    let mut b = SampleBuffer::new(0);
    for i in 0..9 {
        assert!(!b.write_sample(&sample(i), 1_000_000_000));
    }
    assert!(b.write_sample(&sample(9), 1_000_000_000));
    assert_eq!(b.pending().len(), 10);
    assert_eq!(b.pending()[3].timestamp.secs, 3);
    b.flushed(1_000_000_000);
    assert!(b.pending().is_empty());
    assert!(!b.write_sample(&sample(10), 5_999_999_999));
    assert!(b.write_sample(&sample(11), 6_000_000_000));
}

#[test]
fn logger_flush_empty_buffer_is_noop() {
    let mut b = SampleBuffer::new(0);
    b.flushed(9_000_000_000);
    assert!(b.pending().is_empty());
    assert!(b.write_sample(&sample(0), 9_000_000_001));
}

#[test]
fn integration_test_logger_cleanup_removes_old_data() {
    let config = StorageConfig { retention_days: 0, event_retention_days: 0, ..StorageConfig::default() };
    let (samples, events) = cleanup_cutoffs(&config, NOW);
    assert_eq!(samples, "2026-08-16T09:34:28.403+00:00");
    assert_eq!(events, samples);
}

#[test]
fn logger_logger_cleanup_removes_old_data() {
    let config = StorageConfig { retention_days: 30, event_retention_days: 7, ..StorageConfig::default() };
    let (samples, events) = cleanup_cutoffs(&config, NOW);
    assert_eq!(samples, "2026-07-17T09:34:28.403+00:00");
    assert_eq!(events, "2026-08-09T09:34:28.403+00:00");
}

#[test]
fn logger_cleanup_removes_old_events() {
    let config = StorageConfig { retention_days: 0, event_retention_days: 0, ..StorageConfig::default() };
    let (_, events) = cleanup_cutoffs(&config, NOW);
    assert!(event_columns(&event(5)).timestamp < events);
}

#[test]
fn logger_cleanup_keeps_recent_data() {
    let config = StorageConfig { retention_days: 30, ..StorageConfig::default() };
    let (samples, events) = cleanup_cutoffs(&config, NOW);
    assert!(event_columns(&event(5)).timestamp > samples);
    assert!(event_columns(&event(5)).timestamp > events);
}

#[test]
fn logger_csv_export() {
    let row = ExportRow {
        timestamp: "2026-08-16T00:00:00+00:00".to_string(),
        cpu_usage: Some(format!("{:.1}", 42.0f64)),
        cpu_freq_mhz: None,
        mem_usage_percent: Some(format!("{:.1}", 55.0f64)),
        mem_used_mb: Some(-3),
        mem_total_mb: None,
        mem_available_mb: None,
        swap_usage_percent: None,
        disk_read_bps: None,
        disk_write_bps: None,
        net_sent_bps: Some(500),
        net_recv_bps: Some(1000),
        net_sent_total: None,
        net_recv_total: None,
        gpu_usage: None,
        cpu_temp: None,
        gpu_temp: None,
        process_count: None,
        thread_count: None,
        commit_bytes: None,
        commit_limit: None,
        page_reads_per_sec: None,
    };
    let record = csv_record(&row);
    assert_eq!(record.len(), csv_header().len());
    assert!(record.join(",").contains("42"));
    assert_eq!(record[1], "42.0");
    assert_eq!(record[4], "-3");
    assert_eq!(record[10], "500");
    assert_eq!(csv_header()[0], "时间戳");
}

#[test]
fn onsets_survive_storing() {
    for onset in [None, Some(1), Some(1_786_872_868_403)] {
        let e = restore_event(
            EventColumns {
                id: 4,
                timestamp: "no moment".to_string(),
                duration_ms: 1,
                severity: "critical".to_string(),
                causes: "broken".to_string(),
                cause_kinds: vec![],
                primary_cause: None,
                cause_first_touch: vec![],
                snapshot: sample(0),
                culprits: vec![],
                onset_ts: stored_onset(onset),
            },
            NOW,
        );
        assert_eq!(e.onset_ts, onset);
        assert_eq!(e.timestamp, NOW);
        assert_eq!(e.severity, Severity::Critical);
        assert!(e.causes.is_empty());
    }
}

fn shown(ms: u64) -> String {
    if ms == 0 {
        return "—".to_string();
    }
    let s = ms as f64 / 1000.0;
    if s >= 60.0 {
        format!("{:.1}min", s / 60.0)
    } else {
        format!("{:.1}s", s)
    }
}

#[test]
fn durations_read_like_floating_point_numbers() {
    for ms in 0..200_000u64 {
        assert_eq!(format_duration(ms), shown(ms), "{}", ms);
    }
    for k in 0..64 {
        for d in [-1i64, 0, 1] {
            let ms = (1u64 << k).wrapping_add(d as u64);
            assert_eq!(format_duration(ms), shown(ms), "{}", ms);
        }
    }
    for ms in [u64::MAX, u64::MAX - 1, 9_007_199_254_740_993, 12_345_678_901_234_567] {
        assert_eq!(format_duration(ms), shown(ms), "{}", ms);
    }
}

#[test]
fn means_read_like_floating_point_numbers() {
    for total in (0..400_000u64).step_by(37) {
        for count in [1u32, 2, 3, 7, 40, 4_000_000_000] {
            assert_eq!(mean_seconds_text(total, count), format!("{:.1}", total as f64 / count as f64 / 1000.0));
        }
    }
}

#[test]
fn events_survive_storing() {
    let mut e = event(3);
    e.snapshot.readings.mem_used_mb = 77;
    let c = event_columns(&e);
    assert_eq!(c.timestamp, "2026-08-16T00:03:00+00:00");
    assert_eq!(c.severity, "major");
    assert_eq!(c.causes, r#"["CPU usage 95.0% > 90.0%"]"#);
    assert_eq!(c.onset_ts, TODAY.secs * 1000);
    let back = restore_event(c, NOW);
    assert_eq!(back.id, e.id);
    assert_eq!(back.timestamp, e.timestamp);
    assert_eq!(back.duration_ms, e.duration_ms);
    assert_eq!(back.severity, e.severity);
    assert_eq!(back.causes, e.causes);
    assert_eq!(back.cause_kinds, e.cause_kinds);
    assert_eq!(back.primary_cause, e.primary_cause);
    assert_eq!(back.cause_first_touch, e.cause_first_touch);
    assert_eq!(back.onset_ts, e.onset_ts);
    assert_eq!(back.snapshot.readings, e.snapshot.readings);
    assert_eq!(back.culprits[0].name, e.culprits[0].name);
}

#[test]
fn events_within_a_leap_second_survive_storing() {
    let mut e = event(3);
    e.timestamp = Timestamp { secs: 1_483_228_799, nanos: 1_250_000_000 };
    let c = event_columns(&e);
    assert_eq!(c.timestamp, "2016-12-31T23:59:60.250+00:00");
    assert_eq!(restore_event(c, NOW).timestamp, e.timestamp);
}
