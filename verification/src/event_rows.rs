//! Events as rows of a table: how they are shown, sorted and exported.

use crate::cause::{severity_word, Severity};
use crate::json::{list_of, listed};
use crate::labels::{severity_cn, severity_label};
use crate::order::{ascending, ascending_order, lemma_ascending, lists_each, positions, reordered, stably_ascends};
use crate::text::{copy_texts, decimal, decimal_text, join, joined, push_text, same_text, texts};
use crate::text_order::{count_before, keys_of_texts, lemma_count_bound, text_keys};
use crate::timeparse::{trim, trimmed};
use crate::timestamps::{parse_rfc3339, rfc3339_moment};
use crate::types::Timestamp;
use vstd::prelude::*;

verus! {

/// An event as it was stored.
#[derive(Debug)]
pub struct StoredEvent {
    pub id: i64,
    /// The RFC 3339 text of its moment.
    pub timestamp: String,
    /// How the local clock shows that moment; not read where the text names none.
    pub local_time: String,
    pub duration_ms: u64,
    pub severity: String,
    /// A JSON list of texts.
    pub causes_json: String,
    pub culprit_names: Vec<String>,
}

/// An event as a row of a table.
#[derive(Debug)]
pub struct EventRow {
    pub id: i64,
    pub time_local: String,
    /// Unix seconds; zero where the stored text names no moment.
    pub ts_secs: i64,
    pub duration_ms: u64,
    pub severity_cn: String,
    pub causes_text: String,
    pub culprits_text: String,
    pub culprit_names: Vec<String>,
}

/// What an [`EventRow`] holds.
pub struct EventRowModel {
    pub id: i64,
    pub time_local: Seq<char>,
    pub ts_secs: i64,
    pub duration_ms: u64,
    pub severity_cn: Seq<char>,
    pub causes_text: Seq<char>,
    pub culprits_text: Seq<char>,
    pub culprit_names: Seq<Seq<char>>,
}

impl View for EventRow {
    type V = EventRowModel;

    open spec fn view(&self) -> EventRowModel {
        EventRowModel {
            id: self.id,
            time_local: self.time_local@,
            ts_secs: self.ts_secs,
            duration_ms: self.duration_ms,
            severity_cn: self.severity_cn@,
            causes_text: self.causes_text@,
            culprits_text: self.culprits_text@,
            culprit_names: texts(self.culprit_names@),
        }
    }
}

/// What rows hold.
pub open spec fn event_row_models(v: Seq<EventRow>) -> Seq<EventRowModel> {
    Seq::new(v.len(), |i: int| v[i]@)
}

/// Texts without white space around them, the empty ones left out.
pub open spec fn tidied(ts: Seq<Seq<char>>) -> Seq<Seq<char>>
    decreases ts.len(),
{
    if ts.len() == 0 {
        seq![]
    } else {
        let front = tidied(ts.drop_last());
        if trimmed(ts.last()).len() == 0 {
            front
        } else {
            front.push(trimmed(ts.last()))
        }
    }
}

/// Causes as one text.
pub fn join_cause_list(causes: &Vec<String>) -> (s: String)
    ensures
        s@ == joined(tidied(texts(causes@)), "；"@),
{
    let ghost ts = texts(causes@);
    let mut kept: Vec<String> = Vec::new();
    let mut i: usize = 0;
    proof {
        assert(ts.take(0) =~= seq![]);
        assert(texts(kept@) =~= seq![]);
    }
    while i < causes.len()
        invariant
            i <= causes@.len(),
            ts == texts(causes@),
            texts(kept@) == tidied(ts.take(i as int)),
        decreases causes@.len() - i,
    {
        proof {
            let ahead = ts.take(i + 1);
            assert(ahead.drop_last() =~= ts.take(i as int));
            assert(ahead.last() == causes@[i as int]@);
            reveal_strlit("");
        }
        let t = trim(causes[i].as_str());
        proof {
            assert(t@.len() == 0 ==> t@ =~= ""@);
        }
        if !same_text(t.as_str(), "") {
            push_text(&mut kept, t);
        }
        i += 1;
    }
    proof {
        assert(ts.take(ts.len() as int) =~= ts);
    }
    join(&kept, "；")
}

/// The causes of a JSON list as one text; empty where the text is not such a list.
pub fn join_causes(json: &str) -> (s: String)
    ensures
        s@ == joined(tidied(listed(json@)), "；"@),
{
    join_cause_list(&list_of(json))
}

/// The row of a stored event, given the moment and the causes that its texts name.
pub open spec fn row_of(e: StoredEvent, moment: Option<Timestamp>, causes: Seq<Seq<char>>) -> EventRowModel {
    EventRowModel {
        id: e.id,
        time_local: if moment is Some {
            e.local_time@
        } else {
            e.timestamp@
        },
        ts_secs: match moment {
            Some(t) => t.secs,
            None => 0,
        },
        duration_ms: e.duration_ms,
        severity_cn: severity_label(e.severity@),
        causes_text: joined(tidied(causes), "；"@),
        culprits_text: joined(texts(e.culprit_names@), ","@),
        culprit_names: texts(e.culprit_names@),
    }
}

/// The row of a stored event, given the moment and the causes that its texts name.
pub fn show_row(e: &StoredEvent, moment: Option<Timestamp>, causes: &Vec<String>) -> (r: EventRow)
    ensures
        r@ == row_of(*e, moment, texts(causes@)),
{
    let (time_local, ts_secs) = match moment {
        Some(t) => (e.local_time.clone(), t.secs),
        None => (e.timestamp.clone(), 0),
    };
    EventRow {
        id: e.id,
        time_local,
        ts_secs,
        duration_ms: e.duration_ms,
        severity_cn: severity_cn(e.severity.as_str()),
        causes_text: join_cause_list(causes),
        culprits_text: join(&e.culprit_names, ","),
        culprit_names: copy_texts(&e.culprit_names),
    }
}

/// By what rows are sorted.
#[derive(Clone, Copy, Debug, PartialEq, Eq, Structural)]
pub enum EventSortColumn {
    Time,
    Duration,
    Severity,
    Causes,
    Culprits,
}

/// How rows are sorted.
#[derive(Clone, Copy, Debug, PartialEq, Eq, Structural)]
pub struct EventSort {
    pub column: EventSortColumn,
    pub asc: bool,
}

impl Default for EventSort {
    fn default() -> (s: EventSort)
        ensures
            s == (EventSort { column: EventSortColumn::Time, asc: true }),
    {
        EventSort { column: EventSortColumn::Time, asc: true }
    }
}

/// The column with a name; every other name is the time.
pub open spec fn column_named(name: Seq<char>) -> EventSortColumn {
    if name == "duration"@ {
        EventSortColumn::Duration
    } else if name == "severity"@ {
        EventSortColumn::Severity
    } else if name == "causes"@ {
        EventSortColumn::Causes
    } else if name == "culprits"@ {
        EventSortColumn::Culprits
    } else {
        EventSortColumn::Time
    }
}

/// The column with a name; every other name is the time.
pub fn parse_event_sort_column(name: &str) -> (c: EventSortColumn)
    ensures
        c == column_named(name@),
{
    if same_text(name, "duration") {
        EventSortColumn::Duration
    } else if same_text(name, "severity") {
        EventSortColumn::Severity
    } else if same_text(name, "causes") {
        EventSortColumn::Causes
    } else if same_text(name, "culprits") {
        EventSortColumn::Culprits
    } else {
        EventSortColumn::Time
    }
}

/// The rank of a shown severity, the gravest highest.
pub open spec fn label_rank(label: Seq<char>) -> int {
    if label == "危急"@ {
        3
    } else if label == "严重"@ {
        2
    } else if label == "轻微"@ {
        1
    } else {
        0
    }
}

/// The keys of rows by a column.
pub open spec fn column_keys(rows: Seq<EventRowModel>, c: EventSortColumn) -> Seq<i128> {
    match c {
        EventSortColumn::Time => text_keys(Seq::new(rows.len(), |i: int| rows[i].time_local)),
        EventSortColumn::Duration => Seq::new(rows.len(), |i: int| rows[i].duration_ms as i128),
        EventSortColumn::Severity => Seq::new(rows.len(), |i: int| label_rank(rows[i].severity_cn) as i128),
        EventSortColumn::Causes => text_keys(Seq::new(rows.len(), |i: int| rows[i].causes_text)),
        EventSortColumn::Culprits => text_keys(Seq::new(rows.len(), |i: int| rows[i].culprits_text)),
    }
}

/// Keys, or their negations for a falling order.
pub open spec fn directed(keys: Seq<i128>, asc: bool) -> Seq<i128> {
    if asc {
        keys
    } else {
        Seq::new(keys.len(), |i: int| (-(keys[i] as int)) as i128)
    }
}

/// Rows sorted, equal ones as they came.
pub open spec fn sorted_rows(rows: Seq<EventRowModel>, sort: EventSort) -> Seq<EventRowModel> {
    reordered(rows, ascending(directed(column_keys(rows, sort.column), sort.asc)))
}

fn text_column(rows: &Vec<EventRow>, c: EventSortColumn) -> (v: Vec<String>)
    ensures
        texts(v@) == Seq::new(
            rows@.len(),
            |i: int|
                match c {
                    EventSortColumn::Causes => rows@[i].causes_text@,
                    EventSortColumn::Culprits => rows@[i].culprits_text@,
                    _ => rows@[i].time_local@,
                },
        ),
{
    let ghost all = Seq::new(
        rows@.len(),
        |i: int|
            match c {
                EventSortColumn::Causes => rows@[i].causes_text@,
                EventSortColumn::Culprits => rows@[i].culprits_text@,
                _ => rows@[i].time_local@,
            },
    );
    let mut v: Vec<String> = Vec::new();
    let mut i: usize = 0;
    proof {
        assert(texts(v@) =~= all.take(0));
    }
    while i < rows.len()
        invariant
            i <= rows@.len(),
            all == Seq::new(
                rows@.len(),
                |i: int|
                    match c {
                        EventSortColumn::Causes => rows@[i].causes_text@,
                        EventSortColumn::Culprits => rows@[i].culprits_text@,
                        _ => rows@[i].time_local@,
                    },
            ),
            texts(v@) == all.take(i as int),
        decreases rows@.len() - i,
    {
        let t = match c {
            EventSortColumn::Causes => rows[i].causes_text.clone(),
            EventSortColumn::Culprits => rows[i].culprits_text.clone(),
            _ => rows[i].time_local.clone(),
        };
        push_text(&mut v, t);
        i += 1;
        proof {
            assert(texts(v@) =~= all.take(i as int));
        }
    }
    proof {
        assert(all.take(all.len() as int) =~= all);
    }
    v
}

fn rank_of_label(label: &str) -> (r: i128)
    ensures
        r == label_rank(label@),
{
    if same_text(label, "危急") {
        3
    } else if same_text(label, "严重") {
        2
    } else if same_text(label, "轻微") {
        1
    } else {
        0
    }
}

fn number_column(rows: &Vec<EventRow>, by_duration: bool) -> (v: Vec<i128>)
    ensures
        v@ == Seq::new(
            rows@.len(),
            |i: int|
                if by_duration {
                    rows@[i].duration_ms as i128
                } else {
                    label_rank(rows@[i].severity_cn@) as i128
                },
        ),
{
    let ghost all = Seq::new(
        rows@.len(),
        |i: int|
            if by_duration {
                rows@[i].duration_ms as i128
            } else {
                label_rank(rows@[i].severity_cn@) as i128
            },
    );
    let mut v: Vec<i128> = Vec::new();
    let mut i: usize = 0;
    while i < rows.len()
        invariant
            i <= rows@.len(),
            all == Seq::new(
                rows@.len(),
                |i: int|
                    if by_duration {
                        rows@[i].duration_ms as i128
                    } else {
                        label_rank(rows@[i].severity_cn@) as i128
                    },
            ),
            v@ == all.take(i as int),
        decreases rows@.len() - i,
    {
        let k: i128 = if by_duration {
            rows[i].duration_ms as i128
        } else {
            rank_of_label(rows[i].severity_cn.as_str())
        };
        v.push(k);
        i += 1;
        proof {
            assert(v@ =~= all.take(i as int));
        }
    }
    proof {
        assert(v@ =~= all);
    }
    v
}

fn keys_for(rows: &Vec<EventRow>, c: EventSortColumn) -> (keys: Vec<i128>)
    ensures
        keys@ == column_keys(event_row_models(rows@), c),
        forall|i: int| 0 <= i < keys@.len() ==> 0 <= #[trigger] keys@[i],
{
    let ghost ms = event_row_models(rows@);
    match c {
        EventSortColumn::Duration => {
            let v = number_column(rows, true);
            proof {
                assert(v@ =~= column_keys(ms, c));
            }
            v
        },
        EventSortColumn::Severity => {
            let v = number_column(rows, false);
            proof {
                assert(v@ =~= column_keys(ms, c));
            }
            v
        },
        _ => {
            let t = text_column(rows, c);
            let v = keys_of_texts(&t);
            let n = t.len();
            proof {
                let field = Seq::new(
                    ms.len(),
                    |i: int|
                        match c {
                            EventSortColumn::Causes => ms[i].causes_text,
                            EventSortColumn::Culprits => ms[i].culprits_text,
                            _ => ms[i].time_local,
                        },
                );
                assert(texts(t@) =~= field);
                assert(c == EventSortColumn::Causes ==> field =~= Seq::new(ms.len(), |i: int| ms[i].causes_text));
                assert(c == EventSortColumn::Culprits ==> field =~= Seq::new(ms.len(), |i: int| ms[i].culprits_text));
                assert(c == EventSortColumn::Time ==> field =~= Seq::new(ms.len(), |i: int| ms[i].time_local));
                assert forall|i: int| 0 <= i < v@.len() implies 0 <= #[trigger] v@[i] by {
                    lemma_count_bound(field, field[i], field.len() as int);
                    assert(field.len() == n);
                    assert(v@[i] == count_before(field, field[i], field.len() as int) as i128);
                }
            }
            v
        },
    }
}

impl EventRow {
    /// A copy.
    pub fn copy(&self) -> (r: EventRow)
        ensures
            r@ == self@,
    {
        EventRow {
            id: self.id,
            time_local: self.time_local.clone(),
            ts_secs: self.ts_secs,
            duration_ms: self.duration_ms,
            severity_cn: self.severity_cn.clone(),
            causes_text: self.causes_text.clone(),
            culprits_text: self.culprits_text.clone(),
            culprit_names: copy_texts(&self.culprit_names),
        }
    }
}

fn push_row(v: &mut Vec<EventRow>, a: EventRow)
    ensures
        event_row_models(final(v)@) == event_row_models(old(v)@).push(a@),
        final(v)@.len() == old(v)@.len() + 1,
{
    v.push(a);
    proof {
        assert(event_row_models(v@) =~= event_row_models(old(v)@).push(a@));
    }
}

/// Rows sorted by a column, equal ones as they came.
pub fn sort_rows(rows: &Vec<EventRow>, sort: &EventSort) -> (r: Vec<EventRow>)
    ensures
        event_row_models(r@) == sorted_rows(event_row_models(rows@), *sort),
{
    let ghost ms = event_row_models(rows@);
    let plain = keys_for(rows, sort.column);
    let ghost want = directed(column_keys(ms, sort.column), sort.asc);
    let mut keys: Vec<i128> = Vec::new();
    let mut i: usize = 0;
    while i < plain.len()
        invariant
            i <= plain@.len(),
            want == directed(plain@, sort.asc),
            forall|i: int| 0 <= i < plain@.len() ==> 0 <= #[trigger] plain@[i],
            keys@ == want.take(i as int),
        decreases plain@.len() - i,
    {
        keys.push(
            if sort.asc {
                plain[i]
            } else {
                -plain[i]
            },
        );
        i += 1;
        proof {
            assert(keys@ =~= want.take(i as int));
        }
    }
    proof {
        assert(keys@ =~= want);
        assert(column_keys(ms, sort.column).len() == ms.len());
    }
    let order = ascending_order(&keys);
    let ghost whole = reordered(ms, positions(order@));
    let mut r: Vec<EventRow> = Vec::new();
    let mut j: usize = 0;
    proof {
        assert(event_row_models(r@) =~= whole.take(0));
    }
    while j < order.len()
        invariant
            j <= order@.len(),
            ms == event_row_models(rows@),
            forall|i: int| 0 <= i < order@.len() ==> #[trigger] order@[i] < rows@.len(),
            whole == reordered(ms, positions(order@)),
            event_row_models(r@) == whole.take(j as int),
        decreases order@.len() - j,
    {
        push_row(&mut r, rows[order[j]].copy());
        j += 1;
        proof {
            assert(event_row_models(r@) =~= whole.take(j as int));
        }
    }
    proof {
        assert(whole.take(order@.len() as int) =~= whole);
    }
    r
}

/// The rows of stored events as their texts name them.
pub open spec fn rows_shown(events: Seq<StoredEvent>) -> Seq<EventRowModel> {
    Seq::new(
        events.len(),
        |i: int| row_of(events[i], rfc3339_moment(events[i].timestamp@), listed(events[i].causes_json@)),
    )
}

/// The rows of stored events, sorted.
pub fn load_events_sorted(events: &Vec<StoredEvent>, sort: &EventSort) -> (r: Vec<EventRow>)
    ensures
        event_row_models(r@) == sorted_rows(rows_shown(events@), *sort),
{
    let ghost all = rows_shown(events@);
    let mut rows: Vec<EventRow> = Vec::new();
    let mut i: usize = 0;
    proof {
        assert(event_row_models(rows@) =~= all.take(0));
    }
    while i < events.len()
        invariant
            i <= events@.len(),
            all == rows_shown(events@),
            event_row_models(rows@) == all.take(i as int),
        decreases events@.len() - i,
    {
        let e = &events[i];
        push_row(&mut rows, show_row(e, parse_rfc3339(e.timestamp.as_str()), &list_of(e.causes_json.as_str())));
        i += 1;
        proof {
            assert(event_row_models(rows@) =~= all.take(i as int));
        }
    }
    proof {
        assert(all.take(all.len() as int) =~= all);
    }
    sort_rows(&rows, sort)
}

/// The rows of stored events by time.
pub fn load_events(events: &Vec<StoredEvent>) -> (r: Vec<EventRow>)
    ensures
        event_row_models(r@) == sorted_rows(
            rows_shown(events@),
            (EventSort { column: EventSortColumn::Time, asc: true }),
        ),
{
    load_events_sorted(events, &EventSort { column: EventSortColumn::Time, asc: true })
}

/// The header of an export of events.
pub open spec fn events_header() -> Seq<Seq<char>> {
    seq!["时间"@, "持续毫秒"@, "严重程度"@, "触发原因"@, "元凶进程"@]
}

/// The header of an export of events.
pub fn events_csv_header() -> (r: Vec<String>)
    ensures
        texts(r@) == events_header(),
{
    let mut r: Vec<String> = Vec::new();
    push_text(&mut r, String::from_str("时间"));
    push_text(&mut r, String::from_str("持续毫秒"));
    push_text(&mut r, String::from_str("严重程度"));
    push_text(&mut r, String::from_str("触发原因"));
    push_text(&mut r, String::from_str("元凶进程"));
    proof {
        assert(texts(r@) =~= events_header());
    }
    r
}

/// The record of a row in an export.
pub open spec fn events_record(row: EventRowModel) -> Seq<Seq<char>> {
    seq![row.time_local, decimal(row.duration_ms as nat), row.severity_cn, row.causes_text, row.culprits_text]
}

/// The record of a row in an export.
pub fn events_csv_record(row: &EventRow) -> (r: Vec<String>)
    ensures
        texts(r@) == events_record(row@),
{
    let mut r: Vec<String> = Vec::new();
    push_text(&mut r, row.time_local.clone());
    push_text(&mut r, decimal_text(row.duration_ms));
    push_text(&mut r, row.severity_cn.clone());
    push_text(&mut r, row.causes_text.clone());
    push_text(&mut r, row.culprits_text.clone());
    proof {
        assert(texts(r@) =~= events_record(row@));
    }
    r
}

/// Sorted rows are the rows that were there, in the order of the column: their keys never fall, or
/// never rise where the order falls, and rows with equal keys stay as they came.
pub proof fn lemma_rows_are_sorted(rows: Seq<EventRowModel>, sort: EventSort)
    ensures
        ({
            let keys = directed(column_keys(rows, sort.column), sort.asc);
            let order = ascending(keys);
            &&& sorted_rows(rows, sort) == reordered(rows, order)
            &&& lists_each(order, rows.len() as int)
            &&& stably_ascends(keys, order)
        }),
{
    let keys = directed(column_keys(rows, sort.column), sort.asc);
    assert(keys.len() == rows.len());
    lemma_ascending(keys);
}

/// A shown severity ranks as the severity does.
pub proof fn lemma_labels_rank(a: Severity, b: Severity)
    ensures
        label_rank(severity_label(severity_word(a))) <= label_rank(severity_label(severity_word(b))) <==> severity_order(a)
            <= severity_order(b),
{
    reveal_strlit("minor");
    reveal_strlit("major");
    reveal_strlit("critical");
    reveal_strlit("危急");
    reveal_strlit("严重");
    reveal_strlit("轻微");
    assert("minor"@[1] == 'i' && "major"@[1] == 'a' && "critical"@.len() == 8);
    assert("minor"@.len() == 5 && "major"@.len() == 5);
    assert("危急"@[0] == '危' && "严重"@[0] == '严' && "轻微"@[0] == '轻');
}

/// Severities from the lightest.
pub open spec fn severity_order(s: Severity) -> int {
    match s {
        Severity::Minor => 0,
        Severity::Major => 1,
        Severity::Critical => 2,
    }
}

} // verus!
