//! What queries give back: events as fields, the latest of them, and the latest root cause.

use crate::analytics::event_models;
use crate::cause::{first_touch, kind_name, severity_word, touch_of, CauseKind, EventModel, StutterEvent};
use crate::config::Config;
use crate::labels::{kind_at_rank, ranked_kind, KIND_COUNT};
use crate::level::Level;
use crate::root_cause::{
    cause_chain, causal_direction, chain_kinds, chained, cluster_profiles, clustered, confidence_of, direction_of,
    kind_names, match_profile, match_text, profile_at, profiles_fit, root_cause_confidence, signature,
    Confidence,
};
use crate::text::{copy_texts, opt_text, push_text, texts};
use crate::timestamps::{from_millis, millis_moment, rfc3339_moment, rfc3339_text, show_moment, shown_moment, tellable, to_rfc3339};
use crate::types::{briefs, copy_briefs, first_of, ProcessBrief, ProcessModel};
use vstd::prelude::*;

verus! {

/// From where the last `limit` of `len` items begin.
pub open spec fn latest_start(len: int, limit: int) -> int {
    if len > limit {
        len - limit
    } else {
        0
    }
}

/// The latest `limit` events, in their order.
pub fn latest_events(events: Vec<StutterEvent>, limit: usize) -> (r: Vec<StutterEvent>)
    ensures
        r@ == events@.skip(latest_start(events@.len() as int, limit as int)),
{
    let mut events = events;
    if events.len() <= limit {
        proof {
            assert(events@.skip(0) =~= events@);
        }
        return events;
    }
    let split = events.len() - limit;
    events.split_off(split)
}

/// The first `limit` processes of a snapshot.
pub fn limited_processes(procs: &Vec<ProcessBrief>, limit: usize) -> (r: Vec<ProcessBrief>)
    ensures
        briefs(r@) == first_of(briefs(procs@), limit as int),
{
    let mut r = copy_briefs(procs);
    let ghost all = briefs(r@);
    if r.len() > limit {
        r.truncate(limit);
        proof {
            assert(briefs(r@) =~= all.take(limit as int));
        }
    }
    r
}

/// An event as the fields of a query's answer: moments as RFC 3339, kinds by name.
#[derive(Debug)]
pub struct EventFields {
    pub id: i64,
    pub timestamp: String,
    /// When it began; none where that is not known.
    pub onset_ts: Option<String>,
    pub duration_ms: u64,
    pub severity: String,
    pub primary_cause: Option<String>,
    pub cause_kinds: Vec<String>,
    pub causes: Vec<String>,
    pub culprits: Vec<ProcessBrief>,
    /// First sightings in milliseconds after the beginning, by the name of the kind.
    pub cause_first_touch_offset_ms: Vec<(String, i64)>,
}

/// What [`EventFields`] holds.
pub struct FieldsModel {
    pub id: i64,
    pub timestamp: Seq<char>,
    pub onset_ts: Option<Seq<char>>,
    pub duration_ms: u64,
    pub severity: Seq<char>,
    pub primary_cause: Option<Seq<char>>,
    pub cause_kinds: Seq<Seq<char>>,
    pub causes: Seq<Seq<char>>,
    pub culprits: Seq<ProcessModel>,
    pub cause_first_touch_offset_ms: Seq<(Seq<char>, i64)>,
}

/// The contents of named numbers.
pub open spec fn named_numbers(v: Seq<(String, i64)>) -> Seq<(Seq<char>, i64)> {
    Seq::new(v.len(), |i: int| (v[i].0@, v[i].1))
}

impl View for EventFields {
    type V = FieldsModel;

    open spec fn view(&self) -> FieldsModel {
        FieldsModel {
            id: self.id,
            timestamp: self.timestamp@,
            onset_ts: opt_text(self.onset_ts),
            duration_ms: self.duration_ms,
            severity: self.severity@,
            primary_cause: opt_text(self.primary_cause),
            cause_kinds: texts(self.cause_kinds@),
            causes: texts(self.causes@),
            culprits: briefs(self.culprits@),
            cause_first_touch_offset_ms: named_numbers(self.cause_first_touch_offset_ms@),
        }
    }
}

/// The first sightings of the first `n` kinds in the order of their names.
pub open spec fn touches_by_name(touches: Seq<(CauseKind, i64)>, n: int) -> Seq<(Seq<char>, i64)>
    decreases n,
{
    if n <= 0 {
        seq![]
    } else {
        let before = touches_by_name(touches, n - 1);
        let k = ranked_kind(n - 1);
        match touch_of(touches, k) {
            Some(t) => before.push((kind_name(k), t)),
            None => before,
        }
    }
}

/// The RFC 3339 text of a beginning, if it is known and the calendar reaches it.
pub open spec fn onset_text(onset: Option<i64>) -> Option<Seq<char>> {
    match onset {
        Some(ms) => rfc3339_text(millis_moment(ms as int)),
        None => None,
    }
}

/// The name of an optional kind.
pub open spec fn opt_kind_name(k: Option<CauseKind>) -> Option<Seq<char>> {
    match k {
        Some(x) => Some(kind_name(x)),
        None => None,
    }
}

/// The fields of an event.
pub open spec fn fields_of(e: EventModel) -> FieldsModel {
    FieldsModel {
        id: e.id,
        timestamp: shown_moment(e.timestamp),
        onset_ts: onset_text(e.onset_ts),
        duration_ms: e.duration_ms,
        severity: severity_word(e.severity),
        primary_cause: opt_kind_name(e.primary_cause),
        cause_kinds: kind_names(e.cause_kinds),
        causes: e.causes,
        culprits: e.culprits,
        cause_first_touch_offset_ms: touches_by_name(e.cause_first_touch, KIND_COUNT as int),
    }
}

fn list_touches(touches: &Vec<(CauseKind, i64)>) -> (r: Vec<(String, i64)>)
    ensures
        named_numbers(r@) == touches_by_name(touches@, KIND_COUNT as int),
{
    let mut r: Vec<(String, i64)> = Vec::new();
    let mut i: usize = 0;
    proof {
        assert(named_numbers(r@) =~= seq![]);
    }
    while i < KIND_COUNT
        invariant
            i <= KIND_COUNT,
            named_numbers(r@) == touches_by_name(touches@, i as int),
        decreases KIND_COUNT - i,
    {
        let k = kind_at_rank(i);
        if let Some(t) = first_touch(touches, k) {
            let ghost before = r@;
            r.push((String::from_str(k.name()), t));
            proof {
                assert(named_numbers(r@) =~= named_numbers(before).push((kind_name(k), t)));
            }
        }
        i += 1;
    }
    r
}

fn list_names(kinds: &Vec<CauseKind>) -> (r: Vec<String>)
    ensures
        texts(r@) == kind_names(kinds@),
{
    let ghost all = kind_names(kinds@);
    let mut r: Vec<String> = Vec::new();
    let mut i: usize = 0;
    proof {
        assert(texts(r@) =~= all.take(0));
    }
    while i < kinds.len()
        invariant
            i <= kinds@.len(),
            all == kind_names(kinds@),
            texts(r@) == all.take(i as int),
        decreases kinds@.len() - i,
    {
        push_text(&mut r, String::from_str(kinds[i].name()));
        i += 1;
        proof {
            assert(texts(r@) =~= all.take(i as int));
        }
    }
    proof {
        assert(all.take(all.len() as int) =~= all);
    }
    r
}

fn name_of_kind(k: Option<CauseKind>) -> (r: Option<String>)
    ensures
        opt_text(r) == opt_kind_name(k),
{
    match k {
        Some(x) => Some(String::from_str(x.name())),
        None => None,
    }
}

/// The fields of an event. A moment of the years 0 to 9999 is given by a text that names it.
pub fn event_fields(e: &StutterEvent) -> (f: EventFields)
    ensures
        f@ == fields_of(e@),
        tellable(e.timestamp) ==> rfc3339_moment(f.timestamp@) == Some(e.timestamp),
        e.onset_ts is Some && tellable(millis_moment(e.onset_ts->0 as int)) ==> f.onset_ts is Some && rfc3339_moment(
            f.onset_ts->0@,
        ) == Some(millis_moment(e.onset_ts->0 as int)),
{
    let onset_ts = match e.onset_ts {
        Some(ms) => to_rfc3339(from_millis(ms)),
        None => None,
    };
    EventFields {
        id: e.id,
        timestamp: show_moment(e.timestamp),
        onset_ts,
        duration_ms: e.duration_ms,
        severity: e.severity.to_text(),
        primary_cause: name_of_kind(e.primary_cause),
        cause_kinds: list_names(&e.cause_kinds),
        causes: copy_texts(&e.causes),
        culprits: copy_briefs(&e.culprits),
        cause_first_touch_offset_ms: list_touches(&e.cause_first_touch),
    }
}

/// The root cause of the latest event.
#[derive(Debug)]
pub struct RootCauseFields {
    pub event_id: i64,
    pub confidence: Confidence,
    pub primary_cause: Option<String>,
    pub trigger: Option<String>,
    pub amplifiers: Vec<String>,
    pub cause_chain: Vec<String>,
    pub profile_match: Option<String>,
}

/// What is told of the profile that an event fits among events.
pub open spec fn profile_told(e: EventModel, events: Seq<EventModel>) -> Option<Seq<char>> {
    let profiles = clustered(events);
    let i = profile_at(profiles, signature(e), 0);
    if i < profiles.len() {
        Some(match_text(e, profiles[i]))
    } else {
        None
    }
}

/// The latest of events that stand in the order of time.
pub open spec fn latest_of(events: Seq<EventModel>) -> EventModel {
    events.last()
}

/// What is told of the root cause of an event among events.
pub open spec fn tells_root_cause(f: RootCauseFields, e: EventModel, events: Seq<EventModel>, ratio: Level) -> bool {
    let (trigger, amplifiers) = direction_of(e);
    &&& f.event_id == e.id
    &&& f.confidence == confidence_of(e, ratio)
    &&& opt_text(f.primary_cause) == opt_kind_name(e.primary_cause)
    &&& opt_text(f.trigger) == opt_kind_name(trigger)
    &&& texts(f.amplifiers@) == kind_names(amplifiers)
    &&& texts(f.cause_chain@) == kind_names(chain_kinds(chained(e)))
    &&& opt_text(f.profile_match) == profile_told(e, events)
}

/// The root cause of the latest of events, none where there are no events. `ratio` is the strength of
/// its main cause over that of the next one.
pub fn latest_root_cause(events: &Vec<StutterEvent>, ratio: Level) -> (r: Option<RootCauseFields>)
    requires
        profiles_fit(event_models(events@)),
    ensures
        match r {
            None => events@.len() == 0,
            Some(f) => {
                let e = events@.last()@;
                let chain = kind_names(chain_kinds(chained(e)));
                &&& events@.len() > 0
                &&& f.event_id == e.id
                &&& f.confidence == confidence_of(e, ratio)
                &&& opt_text(f.primary_cause) == opt_kind_name(e.primary_cause)
                &&& texts(f.cause_chain@) == chain
                &&& opt_text(f.trigger) == (if chain.len() == 0 {
                    None
                } else {
                    Some(chain[0])
                })
                &&& texts(f.amplifiers@) == (if chain.len() == 0 {
                    seq![]
                } else {
                    chain.skip(1)
                })
                &&& opt_text(f.profile_match) == profile_told(e, event_models(events@))
                &&& tells_root_cause(f, latest_of(event_models(events@)), event_models(events@), ratio)
            },
        },
{
    if events.len() == 0 {
        return None;
    }
    let last = &events[events.len() - 1];
    let (trigger, amplifiers) = causal_direction(last);
    let chain = cause_chain(last);
    let profiles = cluster_profiles(events);
    let profile_match = match_profile(last, &profiles);
    let amplifier_names = list_names(&amplifiers);
    proof {
        let kinds = chain_kinds(chained(last@));
        assert(latest_of(event_models(events@)) == last@);
        if kinds.len() > 0 {
            assert(kind_names(kinds.skip(1)) =~= kind_names(kinds).skip(1));
        } else {
            assert(texts(amplifier_names@) =~= seq![]);
        }
    }
    Some(
        RootCauseFields {
            event_id: last.id,
            confidence: root_cause_confidence(last, ratio),
            primary_cause: name_of_kind(last.primary_cause),
            trigger: name_of_kind(trigger),
            amplifiers: amplifier_names,
            cause_chain: list_names(&chain),
            profile_match,
        },
    )
}

/// The lower-case digit of a number below sixteen.
pub open spec fn hex_lower(d: int) -> char {
    seq!['0', '1', '2', '3', '4', '5', '6', '7', '8', '9', 'a', 'b', 'c', 'd', 'e', 'f'][d]
}

/// Bytes as pairs of lower-case hexadecimal digits.
pub open spec fn hex_of(b: Seq<u8>) -> Seq<char>
    decreases b.len(),
{
    if b.len() == 0 {
        seq![]
    } else {
        hex_of(b.drop_last()).push(hex_lower(b.last() as int / 16)).push(hex_lower(b.last() as int % 16))
    }
}

fn hex_digit(d: u8) -> (c: char)
    requires
        d < 16,
    ensures
        c == hex_lower(d as int),
{
    match d {
        0 => '0',
        1 => '1',
        2 => '2',
        3 => '3',
        4 => '4',
        5 => '5',
        6 => '6',
        7 => '7',
        8 => '8',
        9 => '9',
        10 => 'a',
        11 => 'b',
        12 => 'c',
        13 => 'd',
        14 => 'e',
        _ => 'f',
    }
}

/// A blob of a query's answer: its bytes in hexadecimal.
pub fn blob_text(b: &[u8]) -> (s: String)
    ensures
        s@ == hex_of(b@),
{
    let mut s = String::new();
    let mut i: usize = 0;
    proof {
        assert(s@ =~= hex_of(b@.take(0)));
    }
    while i < b.len()
        invariant
            i <= b@.len(),
            s@ == hex_of(b@.take(i as int)),
        decreases b@.len() - i,
    {
        s.push(hex_digit(b[i] / 16));
        s.push(hex_digit(b[i] % 16));
        i += 1;
        proof {
            let ahead = b@.take(i as int);
            assert(ahead.drop_last() =~= b@.take(i - 1));
            assert(ahead.last() == b@[i - 1]);
        }
    }
    proof {
        assert(b@.take(b@.len() as int) =~= b@);
    }
    s
}

/// A query may run only where its statement does not write.
pub fn check_readonly(readonly: bool) -> (r: Result<(), String>)
    ensures
        match r {
            Ok(_) => readonly,
            Err(e) => !readonly && e@ == "只允许只读语句（SELECT / WITH / PRAGMA），写操作被拒绝"@,
        },
{
    if readonly {
        Ok(())
    } else {
        Err(String::from_str("只允许只读语句（SELECT / WITH / PRAGMA），写操作被拒绝"))
    }
}

/// The path of the database by the settings that were loaded, or by default where none were.
pub fn db_path_from_config(loaded: Option<&Config>) -> (s: String)
    ensures
        s@ == (match loaded {
            Some(c) => c.storage.db_path@,
            None => "stutter.db"@,
        }),
{
    match loaded {
        Some(c) => c.storage.db_path.clone(),
        None => Config::default().storage.db_path,
    }
}

} // verus!
