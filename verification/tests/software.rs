use find_stutter::cause::{CauseKind, StutterEvent};
use find_stutter::event_log::{
    decode_units, decode_utf16, format_ts, parse_record, read_utf16_z, read_utf16_z_at, ChannelReader, Window, EVENT_READ_BUF,
    EVENT_READ_MAX, MAX_RECORDS,
};
use find_stutter::config::DetectionConfig;
use find_stutter::detector::{Clock, DropFigures, Figures, SpikeFigures, ThermalFigures};
use find_stutter::level::Level;
use find_stutter::monitor::Monitor;
use find_stutter::software_root_cause::{
    enrich_software_causes, handle_trend, is_whitelisted_win_event, map_win_event, merge_software_causes, record_handles,
    software_cause_text, telling_records, HandleTrend, WindowsEventRecord,
};
use find_stutter::stack_sampler::{
    aggregate_stack_samples, decode_stack, resolve_address, snapshot_module_addrs, snapshot_process_modules, ModuleEntry,
    ModuleSpan, ProcessModules, RawFrame, StackSampler,
};
use find_stutter::types::{ProcessBrief, Sample, Timestamp};
use std::collections::HashMap;

fn win_event(channel: &str, provider: &str, id: u32) -> WindowsEventRecord {
    WindowsEventRecord {
        channel: channel.to_string(),
        provider: provider.to_string(),
        win_event_id: id,
        level: "Error".to_string(),
        message: String::new(),
        ts: "2026-08-13T00:00:00Z".to_string(),
    }
}

fn culprit(pid: u32, name: &str, handle: u32, gdi: u32, user: u32) -> ProcessBrief {
    ProcessBrief {
        pid,
        name: name.to_string(),
        cpu_usage: Level::of_bits(10.0f64.to_bits()),
        mem_used_mb: 100,
        handle_count: Some(handle),
        gdi_objects: Some(gdi),
        user_objects: Some(user),
        ..ProcessBrief::default()
    }
}

#[test]
fn map_display_4101_is_driver_timeout() {
    let ev = win_event("System", "Display", 4101);
    assert_eq!(map_win_event(&ev), Some(CauseKind::DriverTimeout));
}

#[test]
fn map_disk_ids_map_to_disk_io_error() {
    for id in [7, 51, 153] {
        let ev = win_event("System", "disk", id);
        assert_eq!(map_win_event(&ev), Some(CauseKind::DiskIoError), "id={}", id);
    }
}

#[test]
fn map_kernel_power_41_is_hardware_error() {
    let ev = win_event("System", "Microsoft-Windows-Kernel-Power", 41);
    assert_eq!(map_win_event(&ev), Some(CauseKind::HardwareError));
}

#[test]
fn map_whea_any_id_is_hardware_error() {
    for id in [17, 18, 19, 20, 41] {
        let ev = win_event("System", "Microsoft-Windows-WHEA-Logger", id);
        assert_eq!(map_win_event(&ev), Some(CauseKind::HardwareError), "id={}", id);
    }
}

#[test]
fn map_service_crash_ids() {
    for id in [7031, 7034] {
        let ev = win_event("System", "Service Control Manager", id);
        assert_eq!(map_win_event(&ev), Some(CauseKind::ServiceCrash), "id={}", id);
    }
}

#[test]
fn map_non_whitelist_is_none() {
    let ev = win_event("Application", "SomeApp", 1000);
    assert_eq!(map_win_event(&ev), None);
    assert!(!is_whitelisted_win_event(&ev));
    let ev2 = win_event("System", "Display", 7);
    assert_eq!(map_win_event(&ev2), None);
}

#[test]
fn enrich_leak_causes_by_threshold() {
    let mut history = HashMap::new();
    history.insert(1u32, vec![16000, 18000, 20000]);
    let culprits = vec![culprit(1, "a.exe", 20000, 100, 100), culprit(2, "b.exe", 100, 12000, 100)];
    let causes = enrich_software_causes(&culprits, &vec![], &history, 10_000, 2_000, 10_000);
    assert!(causes.contains(&CauseKind::ProcessHandleLeak));
    assert!(causes.contains(&CauseKind::GdiObjectLeak));
    assert_eq!(causes[0], CauseKind::ProcessHandleLeak);
}

#[test]
fn enrich_no_leak_below_threshold() {
    let culprits = vec![culprit(1, "a.exe", 5000, 100, 100)];
    let causes = enrich_software_causes(&culprits, &vec![], &HashMap::new(), 10_000, 2_000, 10_000);
    assert!(causes.is_empty());
}

#[test]
fn enrich_event_log_causes_sorted_by_severity() {
    let evs = vec![
        win_event("System", "Display", 4101),
        win_event("System", "Service Control Manager", 7031),
        win_event("System", "Microsoft-Windows-WHEA-Logger", 18),
    ];
    let causes = enrich_software_causes(&vec![], &evs, &HashMap::new(), 10_000, 2_000, 10_000);
    assert_eq!(causes, vec![CauseKind::HardwareError, CauseKind::DriverTimeout, CauseKind::ServiceCrash]);
    let dup = vec![win_event("System", "disk", 7), win_event("System", "disk", 51)];
    let causes2 = enrich_software_causes(&vec![], &dup, &HashMap::new(), 10_000, 2_000, 10_000);
    assert_eq!(causes2, vec![CauseKind::DiskIoError]);
}

#[test]
fn merge_sets_software_primary_and_appends_text() {
    let mut ev = StutterEvent::default();
    ev.cause_kinds = vec![CauseKind::CpuHigh, CauseKind::MemLow];
    ev.primary_cause = Some(CauseKind::CpuHigh);
    ev.culprits = vec![culprit(1, "a.exe", 20000, 0, 0)];
    let out = merge_software_causes(ev, vec![CauseKind::ProcessHandleLeak]);
    assert_eq!(out.primary_cause, Some(CauseKind::ProcessHandleLeak));
    assert_eq!(out.cause_kinds[0], CauseKind::ProcessHandleLeak);
    assert!(out.cause_kinds.contains(&CauseKind::CpuHigh));
    assert!(out.causes.iter().any(|c| c.contains("句柄泄漏: a.exe")));
}

#[test]
fn merge_empty_keeps_resource_primary() {
    let mut ev = StutterEvent::default();
    ev.cause_kinds = vec![CauseKind::MemLow];
    ev.primary_cause = Some(CauseKind::MemLow);
    let out = merge_software_causes(ev, vec![]);
    assert_eq!(out.primary_cause, Some(CauseKind::MemLow));
    assert_eq!(out.cause_kinds, vec![CauseKind::MemLow]);
}

#[test]
fn handle_trend_classifies() {
    assert_eq!(handle_trend(&[100, 200, 300], 0, 10_000, 2_000), HandleTrend::Normal);
    assert_eq!(handle_trend(&[28000, 28100, 27900], 0, 10_000, 2_000), HandleTrend::High);
    assert_eq!(handle_trend(&[16000, 18000, 20000], 0, 10_000, 2_000), HandleTrend::Leak);
    assert_eq!(handle_trend(&[], 20000, 10_000, 2_000), HandleTrend::High);
    assert_eq!(handle_trend(&[18000, 18500, 19000], 0, 10_000, 2_000), HandleTrend::High);
}

#[test]
fn enrich_stable_high_handle_is_high_not_leak() {
    let mut history = HashMap::new();
    history.insert(2u32, vec![28000, 28100, 27900]);
    let culprits = vec![culprit(2, "b.exe", 28000, 0, 0)];
    let causes = enrich_software_causes(&culprits, &vec![], &history, 10_000, 2_000, 10_000);
    assert!(!causes.contains(&CauseKind::ProcessHandleLeak));
    assert!(causes.contains(&CauseKind::HandleHigh));
}

#[test]
fn merge_handle_high_does_not_take_primary() {
    let mut ev = StutterEvent::default();
    ev.cause_kinds = vec![CauseKind::CpuHigh];
    ev.primary_cause = Some(CauseKind::CpuHigh);
    ev.culprits = vec![culprit(1, "a.exe", 20000, 0, 0)];
    let out = merge_software_causes(ev, vec![CauseKind::HandleHigh]);
    assert_eq!(out.primary_cause, Some(CauseKind::CpuHigh));
    assert!(out.causes.iter().any(|c| c.contains("句柄数偏高: a.exe")));
}

#[test]
fn merge_keeps_earlier_software_kinds() {
    let ev = StutterEvent {
        cause_kinds: vec![CauseKind::DriverTimeout, CauseKind::CpuHigh],
        primary_cause: Some(CauseKind::DriverTimeout),
        ..StutterEvent::default()
    };
    let out = merge_software_causes(ev, vec![CauseKind::ServiceCrash]);
    assert_eq!(out.cause_kinds, vec![CauseKind::DriverTimeout, CauseKind::ServiceCrash, CauseKind::CpuHigh]);
    assert_eq!(out.primary_cause, Some(CauseKind::DriverTimeout));
    assert_eq!(out.causes, vec!["服务崩溃 (SCM 7031/7034)".to_string()]);
    let graver = merge_software_causes(out, vec![CauseKind::HardwareError]);
    assert_eq!(graver.cause_kinds.len(), 4);
    assert_eq!(graver.primary_cause, Some(CauseKind::HardwareError));
}

#[test]
fn merge_of_a_hint_leaves_the_main_cause() {
    let ev = StutterEvent {
        cause_kinds: vec![CauseKind::MemLow, CauseKind::CpuHigh],
        primary_cause: Some(CauseKind::CpuHigh),
        ..StutterEvent::default()
    };
    let out = merge_software_causes(ev, vec![CauseKind::HandleHigh]);
    assert_eq!(out.primary_cause, Some(CauseKind::CpuHigh));
    assert_eq!(out.cause_kinds, vec![CauseKind::HandleHigh, CauseKind::MemLow, CauseKind::CpuHigh]);
}

#[test]
fn handle_counts_gather_by_process() {
    let mut history: HashMap<u32, Vec<u32>> = HashMap::new();
    record_handles(&mut history, &vec![culprit(1, "a.exe", 5, 0, 0), ProcessBrief { pid: 2, ..ProcessBrief::default() }]);
    record_handles(&mut history, &vec![culprit(1, "a.exe", 7, 0, 0)]);
    assert_eq!(history.get(&1), Some(&vec![5, 7]));
    assert_eq!(history.get(&2), Some(&vec![0]));
}

#[test]
fn texts_of_software_causes_name_the_worst() {
    let procs = vec![culprit(1, "a.exe", 5, 9, 9), culprit(2, "b.exe", 9, 1, 1)];
    assert!(software_cause_text(CauseKind::ProcessHandleLeak, &procs).contains("b.exe"));
    assert!(software_cause_text(CauseKind::GdiObjectLeak, &procs).contains("a.exe"));
}

fn span(path: &str, base: u64, size: u64) -> ModuleSpan {
    ModuleSpan { path: path.to_string(), base, size }
}

#[test]
fn resolve_address_hits_within_module() {
    let mods = vec![span("C:\\app\\a.dll", 0x1000, 0x1000)];
    assert_eq!(resolve_address(&mods, 0x1000), Some(("C:\\app\\a.dll".to_string(), 0)));
    assert_eq!(resolve_address(&mods, 0x1fff), Some(("C:\\app\\a.dll".to_string(), 0xfff)));
    assert_eq!(resolve_address(&mods, 0x2000), None);
    assert_eq!(resolve_address(&mods, 0x0fff), None);
}

#[test]
fn resolve_address_zero_size_module_skipped() {
    let mods = vec![span("x", 0x1000, 0)];
    assert_eq!(resolve_address(&mods, 0x1000), None);
}

#[test]
fn aggregate_stack_samples_tallies_by_module_rva() {
    let culprits = vec![ProcessBrief { pid: 7, name: "a.exe".to_string(), ..ProcessBrief::default() }];
    let frames = vec![
        RawFrame { pid: 7, address: 0x1010 },
        RawFrame { pid: 7, address: 0x1010 },
        RawFrame { pid: 7, address: 0x1020 },
        RawFrame { pid: 7, address: 0x9999 },
    ];
    let maps = vec![ProcessModules { pid: 7, modules: vec![span("a.dll", 0x1000, 0x1000)] }];
    assert!(aggregate_stack_samples(&vec![], &culprits, &maps).is_empty());
    assert!(aggregate_stack_samples(&frames, &vec![], &maps).is_empty());
    let out = aggregate_stack_samples(&frames, &culprits, &maps);
    assert_eq!(out.len(), 2);
    assert_eq!((out[0].rva, out[0].sample_count), (0x10, 2));
    assert_eq!((out[1].rva, out[1].sample_count), (0x20, 1));
    assert_eq!(out[0].process_name, "a.exe");
}

#[test]
fn stack_sampler_disabled_returns_empty() {
    let s = StackSampler::new(false);
    assert!(!s.enabled());
    assert!(!s.samples(&vec![]));
    assert!(!s.samples(&vec![ProcessBrief::default()]));
    assert!(StackSampler::new(true).samples(&vec![ProcessBrief::default()]));
}

#[test]
fn stack_items_hold_addresses_behind_a_stamp() {
    let mut data = vec![0u8; 8];
    data.extend_from_slice(&0x1122_3344_5566_7788u64.to_le_bytes());
    data.extend_from_slice(&9u64.to_le_bytes());
    let wide = decode_stack(3, &data, true);
    assert_eq!(wide, vec![RawFrame { pid: 3, address: 0x1122_3344_5566_7788 }, RawFrame { pid: 3, address: 9 }]);
    assert!(decode_stack(3, &data[..7], true).is_empty());
    let narrow: Vec<u64> = decode_stack(3, &data, false).iter().map(|f| f.address).collect();
    assert_eq!(narrow, vec![0x5566_7788, 0x1122_3344, 9]);
    let narrow_item: Vec<u8> = [1u32, 2, 3, 0, 5].iter().flat_map(|n| n.to_le_bytes()).collect();
    let behind: Vec<u64> = decode_stack(3, &narrow_item, false).iter().map(|f| f.address).collect();
    assert_eq!(behind, vec![2, 3]);
}

#[test]
fn decode_utf16_truncates_at_nul() {
    let arr = [b'a' as u16, 0, b'b' as u16];
    assert_eq!(decode_utf16(&arr), "a");
}

#[test]
fn read_utf16_z_at_reads_until_nul() {
    let mut b = Vec::new();
    for c in "Display".encode_utf16() {
        b.extend_from_slice(&c.to_le_bytes());
    }
    b.extend_from_slice(&0u16.to_le_bytes());
    b.extend_from_slice(&0x58u16.to_le_bytes());
    let (s, next) = read_utf16_z_at(&b, 0).unwrap();
    assert_eq!(s, "Display");
    assert_eq!(next, b.len() - 2);
}

#[test]
fn read_utf16_z_out_of_bounds_empty() {
    assert_eq!(read_utf16_z(&[], 0), "");
    assert_eq!(read_utf16_z(&[1, 2], 5), "");
}

#[test]
fn text_without_an_end_is_read_to_the_last_byte() {
    assert_eq!(read_utf16_z(&[0x41, 0x00], 0), "A");
    assert_eq!(read_utf16_z(&[0x41, 0x00, 0x42, 0x00, 0x43], 0), "AB");
    assert_eq!(read_utf16_z(&[0x41, 0x00, 0x42, 0x00], 2), "B");
    assert_eq!(read_utf16_z(&[0x41], 0), "");
    assert!(read_utf16_z_at(&[0x41, 0x00], 0).is_none());
}

#[test]
fn the_last_address_lies_in_a_module() {
    let mods = vec![
        ModuleSpan { path: "none.dll".to_string(), base: u64::MAX, size: 0 },
        ModuleSpan { path: "top.dll".to_string(), base: u64::MAX - 1, size: 2 },
    ];
    assert_eq!(resolve_address(&mods, u64::MAX), Some(("top.dll".to_string(), 1)));
    assert_eq!(resolve_address(&mods, u64::MAX - 1), Some(("top.dll".to_string(), 0)));
    assert_eq!(resolve_address(&mods, u64::MAX - 2), None);
}

#[test]
fn format_ts_known_epoch() {
    assert_eq!(format_ts(0), "1970-01-01T00:00:00+00:00");
    assert_eq!(format_ts(1_786_838_400), "2026-08-16T00:00:00+00:00");
}

#[test]
fn utf16_reads_like_the_lossy_decoder() {
    for units in [
        vec![0x5b89u16, 0x88c5],
        vec![0xd83d, 0xde00, 0x41],
        vec![0xd83d, 0x41],
        vec![0xde00],
        vec![0xd83d],
        vec![0xd83d, 0xd83d, 0xde00],
        vec![0xffff, 0xe000, 0xd7ff],
    ] {
        assert_eq!(decode_units(&units), String::from_utf16_lossy(&units));
    }
}

fn put_text(b: &mut Vec<u8>, s: &str) {
    for u in s.encode_utf16() {
        b.extend_from_slice(&u.to_le_bytes());
    }
    b.extend_from_slice(&[0, 0]);
}

fn record(secs: u32, id: u32, kind: u16, source: &str, strings: &[&str]) -> Vec<u8> {
    let mut b = vec![0u8; 56];
    put_text(&mut b, source);
    put_text(&mut b, "PC");
    let at = b.len() as u32;
    for s in strings {
        put_text(&mut b, s);
    }
    while b.len() % 4 != 0 {
        b.push(0);
    }
    let len = b.len() as u32;
    b[0..4].copy_from_slice(&len.to_le_bytes());
    b[12..16].copy_from_slice(&secs.to_le_bytes());
    b[20..24].copy_from_slice(&id.to_le_bytes());
    b[24..26].copy_from_slice(&kind.to_le_bytes());
    b[26..28].copy_from_slice(&(strings.len() as u16).to_le_bytes());
    b[36..40].copy_from_slice(&at.to_le_bytes());
    b
}

#[test]
fn records_are_read_from_their_bytes() {
    let b = record(86_400, 0x8000_0007, 2, "disk", &["bad", "", "block"]);
    let r = parse_record(&b, "System").unwrap();
    assert_eq!(r.provider, "disk");
    assert_eq!(r.win_event_id, 7);
    assert_eq!(r.level, "Warning");
    assert_eq!(r.message, "bad block");
    assert_eq!(r.ts, "1970-01-02T00:00:00+00:00");
    assert_eq!(r.channel, "System");
    assert!(parse_record(&b[..55], "System").is_none());
    assert!(parse_record(&record(0, 1, 1, "", &[]), "System").is_none());
    let long = "x".repeat(600);
    assert_eq!(parse_record(&record(0, 1, 9, "a", &[&long]), "System").unwrap().message.len(), 512);
}

#[test]
fn readings_keep_what_lies_in_the_window() {
    let mut data = record(300, 7, 1, "disk", &[]);
    data.extend(record(200, 7, 1, "disk", &[]));
    data.extend(record(50, 51, 1, "disk", &[]));
    data.extend(record(150, 153, 1, "disk", &[]));
    let mut reader = ChannelReader::new("System", Window { since: 100, until: 250 });
    assert_eq!(reader.next_read(), Some(EVENT_READ_BUF));
    reader.absorb(&data);
    assert_eq!(reader.next_read(), None);
    let found = reader.finish();
    assert_eq!(found.len(), 1);
    assert_eq!(found[0].win_event_id, 7);
}

#[test]
fn readings_keep_no_more_than_the_limit() {
    let one = record(200, 7, 1, "disk", &[]);
    let count = MAX_RECORDS as usize + 3;
    let data: Vec<u8> = std::iter::repeat(one).take(count).flatten().collect();
    let mut reader = ChannelReader::new("System", Window { since: 100, until: 250 });
    assert_eq!(reader.next_read(), Some(EVENT_READ_BUF));
    reader.absorb(&data);
    assert_eq!(reader.next_read(), None);
    assert_eq!(reader.finish().len(), MAX_RECORDS as usize);
}

#[test]
fn a_full_batch_at_the_limit_ends_the_reading() {
    let one = record(300, 7, 1, "disk", &[]);
    let mut reader = ChannelReader::new("System", Window { since: 100, until: 250 });
    for _ in 0..7 {
        reader.grow();
    }
    let mut data: Vec<u8> = std::iter::repeat(one).take(MAX_RECORDS as usize - 1).flatten().collect();
    let mut last = record(200, 7, 1, "disk", &[]);
    let size = (EVENT_READ_MAX - data.len()) as u32;
    last.resize(size as usize, 0);
    last[0..4].copy_from_slice(&size.to_le_bytes());
    data.extend(last);
    assert_eq!(reader.next_read(), Some(EVENT_READ_MAX));
    reader.absorb(&data);
    assert_eq!(reader.next_read(), None);
    assert_eq!(reader.finish().len(), 1);
}

#[test]
fn readings_end() {
    let mut reader = ChannelReader::new("System", Window { since: 0, until: 1 });
    let mut n = 0;
    while let Some(size) = reader.next_read() {
        assert!(size <= EVENT_READ_MAX);
        reader.grow();
        n += 1;
    }
    assert_eq!(n, MAX_RECORDS);
    let mut failed = ChannelReader::new("System", Window { since: 0, until: 1 });
    failed.fail();
    assert_eq!(failed.next_read(), None);
}

#[test]
fn only_telling_records_are_kept() {
    let records = vec![
        win_event("System", "Display", 4101),
        win_event("Application", "SomeApp", 1000),
        win_event("System", "disk", 7),
        win_event("System", "disk", 8),
    ];
    let ids: Vec<u32> = telling_records(records).iter().map(|r| r.win_event_id).collect();
    assert_eq!(ids, vec![4101, 7]);
}

fn no_figures() -> Figures {
    let spike = || SpikeFigures {
        baseline: Level::At(0),
        baseline_text: String::new(),
        recent_text: String::new(),
        rises: vec![],
        mean_rise: Level::At(0),
    };
    Figures {
        cpu_text: "95.0".to_string(),
        mem_text: String::new(),
        page_reads_text: String::new(),
        disk_busy_text: String::new(),
        disk_io_text: String::new(),
        dpc_text: String::new(),
        interrupt_text: String::new(),
        ctx_switch_text: String::new(),
        commit_percent: Level::At(0),
        thermal: ThermalFigures {
            faded_peak: Level::At(0),
            drop_line: Level::At(0),
            temp_text: String::new(),
            freq_text: String::new(),
            peak_text: String::new(),
            drop_percent: 0,
        },
        cpu_spike: spike(),
        net_spike: spike(),
        mem_drop: DropFigures {
            baseline: Level::At(0),
            fall: Level::At(0),
            baseline_text: String::new(),
            recent_text: String::new(),
        },
    }
}

#[test]
fn a_monitor_follows_handles_from_event_to_event() {
    let mut monitor = Monitor::new(&DetectionConfig::default());
    let mut sample = Sample::at(Timestamp { secs: 0, nanos: 0 });
    sample.readings.mem_available_mb = 8000;
    sample.readings.cpu_usage = Level::of_bits(95.0f64.to_bits());
    let at = |s: u64| Clock { wall_ns: s * 1_000_000_000, steady_ns: s * 1_000_000_000 };
    for (s, handles) in [16000, 16000, 20000, 20000].iter().enumerate() {
        sample.top_processes = vec![culprit(1, "a.exe", *handles, 0, 0)];
        assert!(monitor.observe(&sample, &no_figures(), at(100 + s as u64), false).is_none());
    }
    let mut calm = Sample::at(Timestamp { secs: 0, nanos: 0 });
    calm.readings.mem_available_mb = 8000;
    let event = monitor.observe(&calm, &no_figures(), at(105), false).unwrap();
    assert_eq!(event.primary_cause, Some(CauseKind::CpuHigh));
    let event = monitor.conclude(event, &vec![]);
    assert_eq!(event.primary_cause, Some(CauseKind::ProcessHandleLeak));
    assert_eq!(event.cause_kinds, vec![CauseKind::ProcessHandleLeak, CauseKind::CpuHigh]);
    assert!(!monitor.detector().needs_process_snapshot());
    let again = StutterEvent { culprits: vec![culprit(1, "a.exe", 20000, 0, 0)], ..StutterEvent::default() };
    assert_eq!(monitor.conclude(again, &vec![]).cause_kinds, vec![CauseKind::HandleHigh]);
}

#[test]
fn modules_are_read_from_the_list_of_the_system() {
    let mut path: Vec<u16> = "C:\\app\\a.dll".encode_utf16().collect();
    path.resize(260, 0);
    let entries = vec![ModuleEntry { path, base: 0x1000, size: 0x200 }];
    let modules = snapshot_process_modules(7, "a.exe", &entries);
    assert_eq!(modules.len(), 1);
    assert_eq!(modules[0].path, "C:\\app\\a.dll");
    assert_eq!((modules[0].pid, modules[0].module_size), (7, 0x200));
    assert_eq!(modules[0].process_name, "a.exe");
    let map = snapshot_module_addrs(7, &entries);
    assert_eq!(resolve_address(&map.modules, 0x1010), Some(("C:\\app\\a.dll".to_string(), 0x10)));
}
