//! What answers tell, what settings are by default, and how an upgrade goes.

use crate::cause::{kind_name, touch_of, CauseKind, EventModel, Severity};
use crate::config::default_lines;
use crate::elevate::{hex_char, hex_digits, command_line, signed_code, ElevateOutcome};
use crate::labels::{lemma_name_ranks, name_rank, ranked_kind};
use crate::level::{above, Level};
use crate::query::{
    fields_of, hex_lower, hex_of, latest_of, latest_start, profile_told, tells_root_cause, touches_by_name, RootCauseFields,
};
use crate::root_cause::{clustered, confidence_of, direction_of, distinct_names, match_text, profile_at, signature, ProfileModel};
use crate::root_cause_laws::{lemma_chain_tells_order, lemma_profile_fits, lemma_what_set_an_event_off, sighted_at};
use crate::sql::{list_column, object_column};
use crate::text::{decimal, joined, occurs, opt_text, texts};
use crate::json::{json_texts, listed};
use crate::timestamps::{millis_moment, rfc3339_text, shown_moment};
use crate::types::{first_of, idle_readings, Timestamp};
use crate::upgrade::{break_from, follows, steps_of, workspace_at, StepResult, UpgradeStep};
use vstd::prelude::*;

verus! {

/// The latest of items are the last ones, as many as are asked for and there are.
pub proof fn lemma_latest_are_last<T>(s: Seq<T>, limit: int)
    requires
        limit >= 0,
    ensures
        ({
            let r = s.skip(latest_start(s.len() as int, limit));
            &&& r.len() == (if s.len() < limit {
                s.len() as int
            } else {
                limit
            })
            &&& r.is_suffix_of(s)
        }),
{
    let r = s.skip(latest_start(s.len() as int, limit));
    assert(r =~= s.subrange(s.len() - r.len(), s.len() as int));
}

/// The fields of an event are those of the event: its moments as RFC 3339 texts, its kinds by their names, its
/// severity in its word.
pub proof fn lemma_fields_tell_events(e: EventModel)
    ensures
        ({
            let f = fields_of(e);
            &&& f.id == e.id && f.duration_ms == e.duration_ms && f.causes == e.causes && f.culprits == e.culprits
            &&& f.timestamp == shown_moment(e.timestamp)
            &&& e.onset_ts is None ==> f.onset_ts is None
            &&& e.onset_ts is Some ==> f.onset_ts == rfc3339_text(millis_moment(e.onset_ts->0 as int))
            &&& e.primary_cause is Some ==> f.primary_cause == Some(kind_name(e.primary_cause->0))
            &&& e.primary_cause is None ==> f.primary_cause is None
            &&& f.cause_kinds.len() == e.cause_kinds.len()
            &&& forall|i: int| 0 <= i < e.cause_kinds.len() ==> #[trigger] f.cause_kinds[i] == kind_name(e.cause_kinds[i])
            &&& e.severity == Severity::Minor ==> f.severity == "minor"@
            &&& e.severity == Severity::Major ==> f.severity == "major"@
            &&& e.severity == Severity::Critical ==> f.severity == "critical"@
        }),
{
}

/// A beginning in milliseconds is told with its whole seconds and the rest.
pub proof fn lemma_milliseconds(ms: int)
    requires
        -0x8000_0000_0000_0000 <= ms <= 0x7fff_ffff_ffff_ffff,
    ensures
        millis_moment(ms).secs * 1000 + millis_moment(ms).nanos / 1_000_000 == ms,
        millis_moment(ms).nanos % 1_000_000 == 0,
        millis_moment(ms).nanos < 1_000_000_000,
{
}

proof fn lemma_touches(touches: Seq<(CauseKind, i64)>, n: int)
    requires
        0 <= n <= 19,
    ensures
        forall|j: int|
            0 <= j < touches_by_name(touches, n).len() ==> exists|i: int|
                0 <= i < n && (#[trigger] touches_by_name(touches, n)[j]).0 == kind_name(#[trigger] ranked_kind(i)) && touch_of(
                    touches,
                    ranked_kind(i),
                ) == Some(touches_by_name(touches, n)[j].1),
        forall|i: int|
            0 <= i < n && touch_of(touches, #[trigger] ranked_kind(i)) is Some ==> touches_by_name(touches, n).contains(
                (kind_name(ranked_kind(i)), touch_of(touches, ranked_kind(i))->0),
            ),
    decreases n,
{
    if n > 0 {
        lemma_touches(touches, n - 1);
        let before = touches_by_name(touches, n - 1);
        let after = touches_by_name(touches, n);
        let k = ranked_kind(n - 1);
        assert forall|j: int| 0 <= j < after.len() implies exists|i: int|
            0 <= i < n && (#[trigger] after[j]).0 == kind_name(#[trigger] ranked_kind(i)) && touch_of(touches, ranked_kind(i)) == Some(
                after[j].1,
            ) by {
            if j < before.len() {
                assert(after[j] == before[j]);
                let i = choose|i: int|
                    0 <= i < n - 1 && before[j].0 == kind_name(#[trigger] ranked_kind(i)) && touch_of(touches, ranked_kind(i))
                        == Some(before[j].1);
                assert(after[j].0 == kind_name(ranked_kind(i)));
            } else {
                assert(after[j].0 == kind_name(ranked_kind(n - 1)));
            }
        }
        assert forall|i: int| 0 <= i < n && touch_of(touches, #[trigger] ranked_kind(i)) is Some implies after.contains(
            (kind_name(ranked_kind(i)), touch_of(touches, ranked_kind(i))->0),
        ) by {
            let x = (kind_name(ranked_kind(i)), touch_of(touches, ranked_kind(i))->0);
            if i < n - 1 {
                assert(before.contains(x));
                let j = choose|j: int| 0 <= j < before.len() && before[j] == x;
                assert(after[j] == x);
            } else {
                assert(after[before.len() as int] == x);
            }
        }
    }
}

/// The first sightings of an event are told by the names of the kinds, all of them and no others.
pub proof fn lemma_sightings_told(e: EventModel, k: CauseKind, t: i64)
    ensures
        fields_of(e).cause_first_touch_offset_ms.contains((kind_name(k), t)) <==> touch_of(e.cause_first_touch, k) == Some(t),
{
    let r = fields_of(e).cause_first_touch_offset_ms;
    lemma_touches(e.cause_first_touch, 19);
    assert(ranked_kind(name_rank(k)) == k);
    if r.contains((kind_name(k), t)) {
        let j = choose|j: int| 0 <= j < r.len() && r[j] == (kind_name(k), t);
        let i = choose|i: int|
            0 <= i < 19 && r[j].0 == kind_name(#[trigger] ranked_kind(i)) && touch_of(e.cause_first_touch, ranked_kind(i)) == Some(
                r[j].1,
            );
        lemma_name_ranks(ranked_kind(i), k);
    }
}

/// The value of a hexadecimal digit.
pub open spec fn hex_value(c: char) -> int {
    let n = c as u32;
    if 0x30 <= n <= 0x39 {
        n - 0x30
    } else if 0x61 <= n <= 0x66 {
        n - 0x61 + 10
    } else if 0x41 <= n <= 0x46 {
        n - 0x41 + 10
    } else {
        -1
    }
}

proof fn lemma_hex_lower(d: int)
    requires
        0 <= d < 16,
    ensures
        hex_value(hex_lower(d)) == d,
        !(0x41 <= hex_lower(d) as u32 <= 0x46),
{
}

/// Bytes are told by two lower-case hexadecimal digits each, in order.
pub proof fn lemma_bytes_told(b: Seq<u8>, i: int)
    requires
        0 <= i < b.len(),
    ensures
        hex_of(b).len() == 2 * b.len(),
        hex_value(hex_of(b)[2 * i]) * 16 + hex_value(hex_of(b)[2 * i + 1]) == b[i],
    decreases b.len(),
{
    lemma_hex_len(b);
    lemma_hex_len(b.drop_last());
    let x = b.last() as int;
    lemma_hex_lower(x / 16);
    lemma_hex_lower(x % 16);
    if i < b.len() - 1 {
        lemma_bytes_told(b.drop_last(), i);
        assert(hex_of(b)[2 * i] == hex_of(b.drop_last())[2 * i]);
        assert(hex_of(b)[2 * i + 1] == hex_of(b.drop_last())[2 * i + 1]);
    }
}

proof fn lemma_hex_len(b: Seq<u8>)
    ensures
        hex_of(b).len() == 2 * b.len(),
    decreases b.len(),
{
    if b.len() > 0 {
        lemma_hex_len(b.drop_last());
    }
}

/// A profile is told of an event exactly where one of its signature was seen twice or more, and the first such
/// one is told.
pub proof fn lemma_profiles_told(e: EventModel, events: Seq<EventModel>)
    ensures
        ({
            let ps = clustered(events);
            let fits = exists|i: int| 0 <= i < ps.len() && (#[trigger] ps[i]).signature == signature(e) && ps[i].count >= 2;
            &&& profile_told(e, events) is Some <==> fits
            &&& fits ==> exists|i: int|
                0 <= i < ps.len() && (#[trigger] ps[i]).signature == signature(e) && ps[i].count >= 2 && profile_told(e, events)
                    == Some(match_text(e, ps[i]))
        }),
{
    let ps = clustered(events);
    lemma_profile_fits(ps, signature(e), 0);
    let at = profile_at(ps, signature(e), 0);
    if at < ps.len() {
        assert(ps[at].signature == signature(e));
    }
}

/// A profile is told with the names of the culprits and how often it was seen.
pub proof fn lemma_how_profiles_are_told(e: EventModel, p: ProfileModel)
    ensures
        ({
            let names = distinct_names(e);
            let who = if names.len() == 0 {
                "未知进程"@
            } else {
                joined(names, "、"@)
            };
            match_text(e, p) == "匹配已知画像：进程"@ + who + "典型卡顿（"@ + decimal(p.count as nat) + " 次，平均 "@
                + crate::binary64::mean_seconds(p.total_duration_ms as nat, p.count as nat) + "s）"@
        }),
{
}

/// A reading and the one half of it: in binary, half is one step of the exponent less.
pub open spec fn is_half(half: Level, of: Level) -> bool {
    half is At && of is At && half->At_0 == of->At_0 - 0x10_0000_0000_0000
}

/// By default a system signal ends at half of its threshold, a spike at half of its ratio, CPU and memory some way
/// below theirs, and the available memory a fifth above.
pub proof fn lemma_default_lines()
    ensures
        ({
            let l = default_lines();
            &&& is_half(l.disk_busy_exit, l.disk_busy_threshold_percent)
            &&& is_half(l.disk_io_exit, l.disk_io_threshold_ms)
            &&& is_half(l.dpc_exit, l.dpc_threshold_percent)
            &&& is_half(l.interrupt_exit, l.interrupt_threshold_percent)
            &&& is_half(l.context_switch_exit, l.context_switch_threshold_per_sec)
            &&& is_half(l.spike_release, l.spike_ratio)
            &&& above(l.cpu_threshold, l.cpu_exit) && above(l.mem_threshold_percent, l.mem_exit_percent)
            &&& l.mem_available_exit_mb * 5 == l.mem_threshold_mb * 6
        }),
{
}

/// A list or an object that a table lacks is read as an empty one.
pub proof fn lemma_missing_columns(column: Seq<char>)
    ensures
        list_column(true, column) == column && object_column(true, column) == column,
        list_column(false, column) == "'[]'"@ && object_column(false, column) == "'{}'"@,
{
}

/// An upgrade stops the service, builds unless that was not wanted, installs and starts, and looks whether it
/// runs, in this order.
pub proof fn lemma_upgrade_order(no_build: bool)
    ensures
        ({
            let s = steps_of(no_build);
            &&& s[0] == UpgradeStep::StopService
            &&& !no_build ==> s.len() == 4 && s[1] == UpgradeStep::BuildRelease && s[2] == UpgradeStep::InstallStart && s[3]
                == UpgradeStep::VerifyStatus
            &&& no_build ==> s.len() == 3 && s[1] == UpgradeStep::InstallStart && s[2] == UpgradeStep::VerifyStatus
        }),
{
}

/// After a step: a refusal stops an upgrade at once, a stop that is not confirmed does not, a failed build, start
/// or check does, and only a running service ends it well.
pub proof fn lemma_after_a_step(rtk: Seq<char>, step: UpgradeStep, result: StepResult)
    ensures
        ({
            let a = follows(rtk, step, result);
            match result {
                StepResult::Elevated(o) => {
                    &&& step == UpgradeStep::StopService && o is Exited ==> a is Continue
                    &&& step == UpgradeStep::StopService && o is UacDenied ==> a is Abort
                    &&& step == UpgradeStep::StopService && !(o is Exited) && !(o is UacDenied) ==> a is ContinueWith
                    &&& step != UpgradeStep::StopService && o == ElevateOutcome::Exited(0) ==> a is Continue
                    &&& step != UpgradeStep::StopService && o != ElevateOutcome::Exited(0) ==> a is Abort
                },
                StepResult::Built(ok, code, complaint) => (a is Continue <==> ok) && (a is Abort <==> !ok),
                StepResult::BuildNotStarted(_) => a is Abort,
                StepResult::Status(c) => (a is Finish <==> c == 0) && (a is Abort <==> c != 0),
                StepResult::StatusNotStarted(_) => a is Abort,
            }
        }),
{
}

/// The repository is the nearest directory whose manifest is that of a workspace.
pub proof fn lemma_nearest_workspace(manifests: Seq<Option<String>>, i: int)
    requires
        0 <= i <= manifests.len(),
    ensures
        ({
            let at = workspace_at(manifests, i);
            &&& i <= at <= manifests.len()
            &&& at < manifests.len() ==> manifests[at] is Some && occurs("[workspace]"@, manifests[at]->0@)
            &&& forall|j: int|
                i <= j < at ==> (#[trigger] manifests[j]) is None || !occurs("[workspace]"@, manifests[j]->0@)
        }),
    decreases manifests.len() - i,
{
    if i < manifests.len() && !(manifests[i] is Some && occurs("[workspace]"@, manifests[i]->0@)) {
        lemma_nearest_workspace(manifests, i + 1);
    }
}

/// The first line ends at the first line break.
pub proof fn lemma_first_break(s: Seq<char>, i: int)
    requires
        0 <= i <= s.len(),
    ensures
        i <= break_from(s, i) <= s.len(),
        break_from(s, i) < s.len() ==> s[break_from(s, i)] == '\n',
        forall|j: int| i <= j < break_from(s, i) ==> s[j] != '\n',
    decreases s.len() - i,
{
    if i < s.len() && s[i] != '\n' {
        lemma_first_break(s, i + 1);
    }
}

/// Arguments stand on a command line with blanks between them, in quotes where they hold a blank or a tab.
pub proof fn lemma_arguments_joined(args: Seq<Seq<char>>, x: Seq<char>)
    ensures
        ({
            let blank = exists|i: int| 0 <= i < x.len() && (x[i] == ' ' || x[i] == '\t');
            let shown = if blank {
                seq!['"'] + x + seq!['"']
            } else {
                x
            };
            &&& command_line(seq![x]) == shown
            &&& args.len() > 0 ==> command_line(args.push(x)) == command_line(args) + seq![' '] + shown
            &&& command_line(Seq::empty()) == Seq::<char>::empty()
        }),
{
    reveal_strlit("\"");
    reveal_strlit(" ");
    assert("\""@ =~= seq!['"']);
    assert(" "@ =~= seq![' ']);
    if exists|i: int| 0 <= i < x.len() && (x[i] == ' ' || x[i] == '\t') {
        let i = choose|i: int| 0 <= i < x.len() && (x[i] == ' ' || x[i] == '\t');
        assert(x.contains(x[i]));
    }
    assert(args.push(x).drop_last() =~= args);
}

/// An exit code above the largest signed number stands for a negative one.
pub proof fn lemma_exit_codes_wrap(code: u32)
    ensures
        code <= 0x7fff_ffff ==> signed_code(code) == code,
        code > 0x7fff_ffff ==> signed_code(code) == code - 0x1_0000_0000,
{
}

/// The first of items are a beginning of them, as many as are asked for and there are.
pub proof fn lemma_first_are_first<T>(s: Seq<T>, n: int)
    requires
        n >= 0,
    ensures
        first_of(s, n).is_prefix_of(s),
        first_of(s, n).len() == (if s.len() < n {
            s.len() as int
        } else {
            n
        }),
{
    let r = first_of(s, n);
    assert(r =~= s.subrange(0, r.len() as int));
}

/// A list is what its JSON text holds, and empty where the text holds none; a moment is shown by its text, and by
/// nothing where the calendar does not reach it.
pub proof fn lemma_lists_and_moments(json: Seq<char>, t: Timestamp)
    ensures
        json_texts(json) is Some ==> listed(json) == json_texts(json)->0,
        json_texts(json) is None ==> listed(json) == Seq::<Seq<char>>::empty(),
        rfc3339_text(t) is Some ==> shown_moment(t) == rfc3339_text(t)->0,
        rfc3339_text(t) is None ==> shown_moment(t) == Seq::<char>::empty(),
{
}

/// A code is told by its upper-case hexadecimal digits, the highest first.
pub proof fn lemma_codes_told(v: int, n: int)
    requires
        v >= 0,
        n > 0,
    ensures
        hex_digits(v, n).drop_last() == hex_digits(v / 16, n - 1),
        hex_value(hex_digits(v, n).last()) == v % 16,
        hex_digits(v, 0) == Seq::<char>::empty(),
{
    lemma_hex_char(v % 16);
    assert(hex_digits(v, n).drop_last() =~= hex_digits(v / 16, n - 1));
}

proof fn lemma_hex_char(d: int)
    requires
        0 <= d < 16,
    ensures
        hex_value(hex_char(d)) == d,
{
}

/// The reading of a whole number `n` that lies from `p`, the power of two with exponent `k`, up to twice that.
pub open spec fn whole_reading(n: int, k: int, p: int) -> Level {
    Level::At(((1023 + k) * 0x10_0000_0000_0000 + (n - p) * (0x10_0000_0000_0000int / p)) as i64)
}

/// The default lines are 90% of CPU and memory, ending below 80% and at 85%, 500 megabytes of available memory,
/// 90% of commit charge, 300 page reads a second, 95% or 50 milliseconds of disk time, 10% of deferred calls and
/// of interrupts, 50,000 context switches a second or 10,000 a core, 85 degrees, and three seconds.
pub proof fn lemma_default_numbers()
    ensures
        ({
            let l = default_lines();
            &&& l.cpu_threshold == whole_reading(90, 6, 64)
            &&& l.cpu_exit == whole_reading(80, 6, 64)
            &&& l.mem_threshold_percent == whole_reading(90, 6, 64)
            &&& l.mem_exit_percent == whole_reading(85, 6, 64)
            &&& l.mem_threshold_mb == 500
            &&& l.mem_chronic_seconds == 300
            &&& l.commit_threshold_percent == whole_reading(90, 6, 64)
            &&& l.page_reads_threshold == whole_reading(300, 8, 256)
            &&& l.spike_ratio == whole_reading(3, 1, 2)
            &&& l.spike_min_cpu_percent == whole_reading(50, 5, 32)
            &&& l.spike_min_bps == whole_reading(2_000_000, 20, 1_048_576)
            &&& l.sustained_seconds == 3
            &&& l.disk_busy_threshold_percent == whole_reading(95, 6, 64)
            &&& l.disk_io_threshold_ms == whole_reading(50, 5, 32)
            &&& l.dpc_threshold_percent == whole_reading(10, 3, 8)
            &&& l.interrupt_threshold_percent == whole_reading(10, 3, 8)
            &&& l.context_switch_threshold_per_sec == whole_reading(50_000, 15, 32_768)
            &&& l.context_switch_threshold_per_core == whole_reading(10_000, 13, 8192)
            &&& l.evidence_cpu_percent == whole_reading(80, 6, 64)
            &&& l.ui_freeze_timeout_ms == 200
            &&& l.thermal_threshold_celsius == whole_reading(85, 6, 64)
            &&& l.hysteresis_hold_max_secs == 30
            &&& l.max_tick_gap_secs == 30
            &&& l.handle_leak_threshold == 10_000
            &&& l.handle_leak_growth_threshold == 2000
            &&& l.gdi_leak_threshold == 10_000
        }),
{
    assert(whole_reading(90, 6, 64) == Level::At(0x4056_8000_0000_0000)) by (nonlinear_arith);
    assert(whole_reading(80, 6, 64) == Level::At(0x4054_0000_0000_0000)) by (nonlinear_arith);
    assert(whole_reading(85, 6, 64) == Level::At(0x4055_4000_0000_0000)) by (nonlinear_arith);
    assert(whole_reading(300, 8, 256) == Level::At(0x4072_c000_0000_0000)) by (nonlinear_arith);
    assert(whole_reading(3, 1, 2) == Level::At(0x4008_0000_0000_0000)) by (nonlinear_arith);
    assert(whole_reading(50, 5, 32) == Level::At(0x4049_0000_0000_0000)) by (nonlinear_arith);
    assert(whole_reading(2000000, 20, 1048576) == Level::At(0x413e_8480_0000_0000)) by (nonlinear_arith);
    assert(whole_reading(95, 6, 64) == Level::At(0x4057_c000_0000_0000)) by (nonlinear_arith);
    assert(whole_reading(10, 3, 8) == Level::At(0x4024_0000_0000_0000)) by (nonlinear_arith);
    assert(whole_reading(50000, 15, 32768) == Level::At(0x40e8_6a00_0000_0000)) by (nonlinear_arith);
    assert(whole_reading(10000, 13, 8192) == Level::At(0x40c3_8800_0000_0000)) by (nonlinear_arith);
}

/// Before anything is measured every reading is zero, and what need not be there is not.
pub proof fn lemma_nothing_measured()
    ensures
        ({
            let r = idle_readings();
            let zero = Level::At(0);
            &&& r.cpu_usage == zero && r.mem_usage_percent == zero && r.swap_usage_percent == zero && r.page_reads_per_sec == zero
            &&& r.disk_busy_percent == zero && r.disk_avg_io_ms == zero && r.dpc_percent == zero && r.interrupt_percent == zero
                && r.context_switches_per_sec == zero
            &&& r.mem_used_mb == 0 && r.mem_total_mb == 0 && r.mem_available_mb == 0 && r.commit_bytes == 0 && r.commit_limit == 0
            &&& r.disk_read_bps == 0 && r.disk_write_bps == 0 && r.net_sent_bps == 0 && r.net_recv_bps == 0
            &&& r.cpu_freq_mhz is None && r.gpu_usage is None && r.cpu_temp is None && r.gpu_temp is None
        }),
{
}

/// The root cause that is told is that of the latest event: its own number and main cause, the kind that was
/// sighted first as what set it off, and the others as what made it worse.
pub proof fn lemma_root_cause_of_the_latest(f: RootCauseFields, events: Seq<EventModel>, ratio: Level)
    requires
        events.len() > 0,
        tells_root_cause(f, latest_of(events), events, ratio),
    ensures
        ({
            let e = events[events.len() - 1];
            &&& f.event_id == e.id
            &&& f.confidence == confidence_of(e, ratio)
            &&& e.primary_cause is Some ==> opt_text(f.primary_cause) == Some(kind_name(e.primary_cause->0))
            &&& e.primary_cause is None ==> f.primary_cause is None
            &&& e.cause_kinds.len() == 0 ==> f.trigger is None && f.amplifiers@.len() == 0
            &&& e.cause_kinds.len() > 0 ==> exists|k: CauseKind|
                #[trigger] e.cause_kinds.contains(k) && opt_text(f.trigger) == Some(kind_name(k)) && (forall|q: CauseKind| #[trigger]
                    e.cause_kinds.contains(q) ==> sighted_at(e, k) <= sighted_at(e, q))
            &&& f.cause_chain@.len() == e.cause_kinds.len()
            &&& opt_text(f.profile_match) == profile_told(e, events)
        }),
{
    let e = events[events.len() - 1];
    lemma_what_set_an_event_off(e);
    lemma_chain_tells_order(e);
    let (trigger, amplifiers) = direction_of(e);
    assert(texts(f.amplifiers@).len() == f.amplifiers@.len());
    assert(texts(f.cause_chain@).len() == f.cause_chain@.len());
    if e.cause_kinds.len() > 0 {
        assert(e.cause_kinds.contains(trigger->0));
    }
}

} // verus!
