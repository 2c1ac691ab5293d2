//! What is stored, kept, listed and exported.

use crate::config::StorageConfig;
use crate::event_rows::{
    column_keys, column_named, directed, events_header, events_record, row_of, rows_shown, sorted_rows, tidied, EventRowModel, EventSort,
    EventSortColumn, StoredEvent,
};
use crate::json::listed;
use crate::labels::severity_label;
use crate::order::{ascending, lemma_ascending};
use crate::counting_laws::{lemma_digits_stand_for_numbers, lemma_reordered_keeps, read_digits};
use crate::store::{cutoffs, emptied, export_header, export_record, flush_due, gathered, megabytes, BufferModel, ExportRow};
use crate::text::{decimal, decimal_signed, joined, texts};
use crate::text_order::{lemma_count_bound, lemma_count_monotone, text_keys, text_less};
use crate::timeparse::trimmed;
use crate::timestamps::rfc3339_moment;
use crate::types::{SampleModel, Timestamp};
use vstd::prelude::*;

verus! {

/// A column of an export has a title and a field at the same place.
pub open spec fn under(s: ExportRow, i: int, title: Seq<char>, field: Seq<char>) -> bool {
    export_header()[i] == title && export_record(s)[i] == field
}

/// A rendered number, or a zero with one decimal where nothing was measured.
pub open spec fn rendered(s: Option<String>) -> Seq<char> {
    match s {
        Some(x) => x@,
        None => "0.0"@,
    }
}

/// A whole number, or zero where nothing was measured.
pub open spec fn counted(n: Option<i64>) -> Seq<char> {
    match n {
        Some(x) => decimal_signed(x as int),
        None => decimal_signed(0),
    }
}

/// A number of bytes in whole megabytes, or zero where nothing was measured.
pub open spec fn counted_mb(n: Option<i64>) -> Seq<char> {
    match n {
        Some(x) => decimal_signed(megabytes(x as int)),
        None => decimal_signed(0),
    }
}

/// Every column of an export of samples holds the measurement that its title names.
pub proof fn lemma_columns_hold_what_they_name(s: ExportRow)
    ensures
        under(s, 0, "时间戳"@, s.timestamp@),
        under(s, 1, "CPU 使用率(%)"@, rendered(s.cpu_usage)),
        under(s, 2, "CPU 频率(MHz)"@, rendered(s.cpu_freq_mhz)),
        under(s, 3, "内存使用率(%)"@, rendered(s.mem_usage_percent)),
        under(s, 4, "内存已用(MB)"@, counted(s.mem_used_mb)),
        under(s, 5, "内存总量(MB)"@, counted(s.mem_total_mb)),
        under(s, 6, "内存可用(MB)"@, counted(s.mem_available_mb)),
        under(s, 7, "交换分区使用率(%)"@, rendered(s.swap_usage_percent)),
        under(s, 8, "磁盘读速率(B/s)"@, counted(s.disk_read_bps)),
        under(s, 9, "磁盘写速率(B/s)"@, counted(s.disk_write_bps)),
        under(s, 10, "网络发送速率(B/s)"@, counted(s.net_sent_bps)),
        under(s, 11, "网络接收速率(B/s)"@, counted(s.net_recv_bps)),
        under(s, 12, "网络累计发送(B)"@, counted(s.net_sent_total)),
        under(s, 13, "网络累计接收(B)"@, counted(s.net_recv_total)),
        under(s, 14, "GPU 使用率(%)"@, rendered(s.gpu_usage)),
        under(s, 15, "CPU 温度(°C)"@, rendered(s.cpu_temp)),
        under(s, 16, "GPU 温度(°C)"@, rendered(s.gpu_temp)),
        under(s, 17, "进程数"@, counted(s.process_count)),
        under(s, 18, "线程数"@, counted(s.thread_count)),
        under(s, 19, "提交电荷(MB)"@, counted_mb(s.commit_bytes)),
        under(s, 20, "提交上限(MB)"@, counted_mb(s.commit_limit)),
        under(s, 21, "分页速率(/s)"@, rendered(s.page_reads_per_sec)),
        export_header().len() == 22,
        export_record(s).len() == 22,
{
}

/// Bytes are given in whole megabytes of 1024 times 1024 bytes, cut towards zero.
pub proof fn lemma_megabytes_are_whole(n: int)
    ensures
        n >= 0 ==> megabytes(n) * 1_048_576 <= n < (megabytes(n) + 1) * 1_048_576,
        megabytes(-n) == -megabytes(n),
{
}

/// A whole number is written with its digits, and with a sign in front exactly where it is below zero.
pub proof fn lemma_signed_numbers(n: int)
    ensures
        n >= 0 ==> read_digits(decimal_signed(n)) == n && decimal_signed(n)[0] != '-',
        n < 0 ==> decimal_signed(n)[0] == '-' && read_digits(decimal_signed(n).skip(1)) == -n,
{
    if n >= 0 {
        lemma_digits_stand_for_numbers(n as nat);
    } else {
        lemma_digits_stand_for_numbers((-n) as nat);
        assert(decimal_signed(n).skip(1) =~= decimal((-n) as nat));
    }
}

/// Samples are written once there are ten of them or five seconds have passed since the last writing.
pub proof fn lemma_when_samples_are_written(b: BufferModel, now: u64)
    ensures
        flush_due(b, now) <==> b.samples.len() >= 10 || now >= b.last_flush + 5_000_000_000,
{
}

/// Samples are kept for their number of days, and events for theirs.
pub proof fn lemma_what_is_kept(config: StorageConfig, now: Timestamp)
    requires
        now.secs >= -0x4000_0000_0000_0000,
    ensures
        cutoffs(config, now).0 == (Timestamp { secs: (now.secs - config.retention_days * 86_400) as i64, nanos: now.nanos }),
        cutoffs(config, now).1 == (Timestamp {
            secs: (now.secs - config.event_retention_days * 86_400) as i64,
            nanos: now.nanos,
        }),
{
}

/// A row of events comes no later than another in a column.
pub open spec fn no_later(a: EventRowModel, b: EventRowModel, c: EventSortColumn) -> bool {
    match c {
        EventSortColumn::Time => !text_less(b.time_local, a.time_local),
        EventSortColumn::Duration => a.duration_ms <= b.duration_ms,
        EventSortColumn::Severity => gravity(a.severity_cn) <= gravity(b.severity_cn),
        EventSortColumn::Causes => !text_less(b.causes_text, a.causes_text),
        EventSortColumn::Culprits => !text_less(b.culprits_text, a.culprits_text),
    }
}

/// Shown severities from the lightest; what is none of them is lighter.
pub open spec fn gravity(label: Seq<char>) -> int {
    if label == "危急"@ {
        3
    } else if label == "严重"@ {
        2
    } else if label == "轻微"@ {
        1
    } else {
        0
    }
}

proof fn lemma_text_keys(ts: Seq<Seq<char>>, x: int, y: int)
    requires
        ts.len() <= u64::MAX,
        0 <= x < ts.len(),
        0 <= y < ts.len(),
        text_keys(ts)[x] <= text_keys(ts)[y],
    ensures
        !text_less(ts[y], ts[x]),
        0 <= text_keys(ts)[x] <= ts.len(),
{
    let n = ts.len() as int;
    lemma_count_bound(ts, ts[x], n);
    lemma_count_bound(ts, ts[y], n);
    if text_less(ts[y], ts[x]) {
        lemma_count_monotone(ts, ts[y], ts[x], n);
        assert(ts[y] == ts[y]);
    }
}

/// A list of events is the same events, ascending or descending in the column that was chosen.
pub proof fn lemma_rows_stand_in_order(rows: Seq<EventRowModel>, sort: EventSort)
    requires
        rows.len() <= u64::MAX,
    ensures
        ({
            let r = sorted_rows(rows, sort);
            &&& r.len() == rows.len()
            &&& forall|x: EventRowModel| #[trigger] r.contains(x) <==> rows.contains(x)
            &&& sort.asc ==> forall|i: int, j: int| 0 <= i < j < r.len() ==> no_later(#[trigger] r[i], #[trigger] r[j], sort.column)
            &&& !sort.asc ==> forall|i: int, j: int|
                0 <= i < j < r.len() ==> no_later(#[trigger] r[j], #[trigger] r[i], sort.column)
        }),
{
    let r = sorted_rows(rows, sort);
    let plain = column_keys(rows, sort.column);
    let keys = directed(plain, sort.asc);
    let order = ascending(keys);
    lemma_ascending(keys);
    lemma_reordered_keeps(rows, keys);
    assert forall|x: int, y: int| 0 <= x < rows.len() && 0 <= y < rows.len() && plain[x] <= plain[y] implies #[trigger] no_later(
        rows[x],
        rows[y],
        sort.column,
    ) && 0 <= plain[x] <= u64::MAX by {
        let by_time = Seq::new(rows.len(), |i: int| rows[i].time_local);
        let by_causes = Seq::new(rows.len(), |i: int| rows[i].causes_text);
        let by_culprits = Seq::new(rows.len(), |i: int| rows[i].culprits_text);
        if sort.column == EventSortColumn::Time {
            lemma_text_keys(by_time, x, y);
        } else if sort.column == EventSortColumn::Causes {
            lemma_text_keys(by_causes, x, y);
        } else if sort.column == EventSortColumn::Culprits {
            lemma_text_keys(by_culprits, x, y);
        }
    }
    assert forall|i: int, j: int| 0 <= i < j < r.len() implies (sort.asc ==> no_later(
        #[trigger] r[i],
        #[trigger] r[j],
        sort.column,
    )) && (!sort.asc ==> no_later(r[j], r[i], sort.column)) by {
        let x = order[i];
        let y = order[j];
        assert(keys[x] <= keys[y]);
        assert(no_later(rows[x], rows[x], sort.column));
        assert(no_later(rows[y], rows[y], sort.column));
        if sort.asc {
            assert(no_later(rows[x], rows[y], sort.column));
        } else {
            assert(plain[y] <= plain[x]);
            assert(no_later(rows[y], rows[x], sort.column));
        }
    }
}

/// Columns are chosen by their names; every other name chooses the time.
pub proof fn lemma_columns_have_names(name: Seq<char>)
    ensures
        column_named("duration"@) == EventSortColumn::Duration,
        column_named("severity"@) == EventSortColumn::Severity,
        column_named("causes"@) == EventSortColumn::Causes,
        column_named("culprits"@) == EventSortColumn::Culprits,
        name != "duration"@ && name != "severity"@ && name != "causes"@ && name != "culprits"@ ==> column_named(name)
            == EventSortColumn::Time,
{
    reveal_strlit("duration");
    reveal_strlit("severity");
    reveal_strlit("causes");
    reveal_strlit("culprits");
    assert("duration"@[0] == 'd');
    assert("severity"@[0] == 's');
    assert("causes"@.len() == 6);
    assert("culprits"@[0] == 'c');
    assert("culprits"@.len() == 8);
}

/// A row shows its event: the local time where the stored text names a moment and that text otherwise, the
/// seconds, the duration, and the culprits with commas between them.
pub proof fn lemma_rows_show_events(e: StoredEvent, moment: Option<Timestamp>, causes: Seq<Seq<char>>)
    ensures
        ({
            let r = row_of(e, moment, causes);
            &&& r.id == e.id
            &&& r.duration_ms == e.duration_ms
            &&& moment is Some ==> r.time_local == e.local_time@ && r.ts_secs == moment->0.secs
            &&& moment is None ==> r.time_local == e.timestamp@ && r.ts_secs == 0
            &&& r.culprit_names == texts(e.culprit_names@)
            &&& r.culprits_text == joined(r.culprit_names, ","@)
            &&& r.severity_cn == severity_label(e.severity@)
            &&& forall|i: int|
                0 <= i < causes.len() && trimmed(#[trigger] causes[i]).len() > 0 ==> tidied(causes).contains(trimmed(causes[i]))
            &&& r.causes_text == joined(tidied(causes), "；"@)
        }),
{
    assert forall|i: int| 0 <= i < causes.len() && trimmed(#[trigger] causes[i]).len() > 0 implies tidied(causes).contains(
        trimmed(causes[i]),
    ) by {
        lemma_tidied(causes, i);
    }
}

proof fn lemma_tidied(ts: Seq<Seq<char>>, i: int)
    requires
        0 <= i < ts.len(),
        trimmed(ts[i]).len() > 0,
    ensures
        tidied(ts).contains(trimmed(ts[i])),
    decreases ts.len(),
{
    let front = tidied(ts.drop_last());
    if i < ts.len() - 1 {
        lemma_tidied(ts.drop_last(), i);
        let k = choose|k: int| 0 <= k < front.len() && front[k] == trimmed(ts[i]);
        assert(tidied(ts)[k] == trimmed(ts[i]));
    } else {
        assert(tidied(ts)[front.len() as int] == trimmed(ts[i]));
    }
}

/// Tidying keeps every text that is not blank, without white space around it, in order, and drops the rest.
pub proof fn lemma_tidying(ts: Seq<Seq<char>>, t: Seq<char>)
    ensures
        trimmed(t).len() > 0 ==> tidied(ts.push(t)) == tidied(ts).push(trimmed(t)),
        trimmed(t).len() == 0 ==> tidied(ts.push(t)) == tidied(ts),
        tidied(Seq::empty()) == Seq::<Seq<char>>::empty(),
{
    assert(ts.push(t).drop_last() =~= ts);
}

/// Stored severities are shown in words of their own, from the lightest to the gravest; any other word is
/// shown as it is.
pub proof fn lemma_severities_shown(word: Seq<char>)
    ensures
        severity_label("minor"@) == "轻微"@,
        severity_label("major"@) == "严重"@,
        severity_label("critical"@) == "危急"@,
        word != "minor"@ && word != "major"@ && word != "critical"@ ==> severity_label(word) == word,
{
    reveal_strlit("minor");
    reveal_strlit("major");
    reveal_strlit("critical");
    assert("minor"@[1] == 'i');
    assert("major"@[1] == 'a');
    assert("critical"@.len() == 8);
}

/// Every column of an export of events holds what its title names.
pub proof fn lemma_event_columns_hold_what_they_name(row: EventRowModel)
    ensures
        events_header().len() == 5 && events_record(row).len() == 5,
        events_header()[0] == "时间"@ && events_record(row)[0] == row.time_local,
        events_header()[1] == "持续毫秒"@ && read_digits(events_record(row)[1]) == row.duration_ms,
        events_header()[2] == "严重程度"@ && events_record(row)[2] == row.severity_cn,
        events_header()[3] == "触发原因"@ && events_record(row)[3] == row.causes_text,
        events_header()[4] == "元凶进程"@ && events_record(row)[4] == row.culprits_text,
{
    lemma_digits_stand_for_numbers(row.duration_ms as nat);
}

/// Rows show stored events in their order, each by the moment and the causes that its own texts name.
pub proof fn lemma_rows_by_own_texts(events: Seq<StoredEvent>, i: int)
    requires
        0 <= i < events.len(),
    ensures
        rows_shown(events).len() == events.len(),
        rows_shown(events)[i] == row_of(events[i], rfc3339_moment(events[i].timestamp@), listed(events[i].causes_json@)),
{
}

/// A gathered sample waits behind the others; once they are written none waits, and the time of writing is noted.
pub proof fn lemma_samples_wait(b: BufferModel, s: SampleModel, now: u64)
    ensures
        gathered(b, s).samples.len() == b.samples.len() + 1,
        gathered(b, s).samples.last() == s,
        gathered(b, s).samples.drop_last() == b.samples,
        gathered(b, s).last_flush == b.last_flush,
        emptied(b, now).samples.len() == 0,
        b.samples.len() > 0 ==> emptied(b, now).last_flush == now,
        b.samples.len() == 0 ==> emptied(b, now).last_flush == b.last_flush,
{
    assert(gathered(b, s).samples.drop_last() =~= b.samples);
}

} // verus!
