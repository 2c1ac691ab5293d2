//! The statements by which stored data is read.

use crate::analytics::TrendBucket;
use crate::text::{same_text, texts};
use vstd::prelude::*;

verus! {

/// Whether a table has a column, by the names of its columns.
pub fn has_column(names: &Vec<String>, column: &str) -> (r: bool)
    ensures
        r == texts(names@).contains(column@),
{
    let mut i: usize = 0;
    while i < names.len()
        invariant
            i <= names@.len(),
            forall|j: int| 0 <= j < i ==> names@[j]@ != column@,
        decreases names@.len() - i,
    {
        if same_text(names[i].as_str(), column) {
            proof {
                assert(texts(names@)[i as int] == column@);
            }
            return true;
        }
        i += 1;
    }
    proof {
        assert forall|j: int| 0 <= j < texts(names@).len() implies texts(names@)[j] != column@ by {
            assert(names@[j]@ != column@);
        }
    }
    false
}

/// The expression of a piece of time in local time.
pub open spec fn bucket_text(b: TrendBucket) -> Seq<char> {
    match b {
        TrendBucket::Hour => "strftime('%Y-%m-%d %H:00', datetime(timestamp, 'localtime'))"@,
        TrendBucket::QuarterHour => "strftime('%Y-%m-%d %H:', datetime(timestamp, 'localtime')) || printf('%02d', (CAST(strftime('%M', datetime(timestamp, 'localtime')) AS INTEGER) / 15) * 15)"@,
        TrendBucket::Day => "strftime('%Y-%m-%d', datetime(timestamp, 'localtime'))"@,
    }
}

/// The statement that counts the events of each piece of time.
pub fn trend_sql(b: TrendBucket) -> (s: String)
    ensures
        s@ == "SELECT "@ + bucket_text(b)
            + " AS bucket, COUNT(*) AS cnt, COALESCE(SUM(duration_ms), 0) AS total_ms, SUM(CASE severity WHEN 'critical' THEN 1 ELSE 0 END) AS c_crit, SUM(CASE severity WHEN 'major' THEN 1 ELSE 0 END) AS c_major, SUM(CASE severity WHEN 'minor' THEN 1 ELSE 0 END) AS c_minor FROM stutter_events WHERE timestamp BETWEEN ?1 AND ?2 GROUP BY bucket ORDER BY bucket"@,
{
    let mut s = String::from_str("SELECT ");
    s.append(
        match b {
            TrendBucket::Hour => "strftime('%Y-%m-%d %H:00', datetime(timestamp, 'localtime'))",
            TrendBucket::QuarterHour => "strftime('%Y-%m-%d %H:', datetime(timestamp, 'localtime')) || printf('%02d', (CAST(strftime('%M', datetime(timestamp, 'localtime')) AS INTEGER) / 15) * 15)",
            TrendBucket::Day => "strftime('%Y-%m-%d', datetime(timestamp, 'localtime'))",
        },
    );
    s.append(
        " AS bucket, COUNT(*) AS cnt, COALESCE(SUM(duration_ms), 0) AS total_ms, SUM(CASE severity WHEN 'critical' THEN 1 ELSE 0 END) AS c_crit, SUM(CASE severity WHEN 'major' THEN 1 ELSE 0 END) AS c_major, SUM(CASE severity WHEN 'minor' THEN 1 ELSE 0 END) AS c_minor FROM stutter_events WHERE timestamp BETWEEN ?1 AND ?2 GROUP BY bucket ORDER BY bucket",
    );
    s
}

/// Which columns a table of events has besides the first ones.
#[derive(Clone, Copy, Debug, PartialEq, Eq, Structural)]
pub struct EventColumnsPresent {
    pub causes: bool,
    pub culprits: bool,
    pub cause_kinds: bool,
    pub primary_cause: bool,
    pub cause_first_touch: bool,
    pub snapshot: bool,
    pub onset_ts: bool,
}

/// A column that holds a list, or an empty list where it is missing.
pub open spec fn list_column(present: bool, column: Seq<char>) -> Seq<char> {
    if present {
        column
    } else {
        "'[]'"@
    }
}

/// A column that holds an object, or an empty object where it is missing.
pub open spec fn object_column(present: bool, column: Seq<char>) -> Seq<char> {
    if present {
        column
    } else {
        "'{}'"@
    }
}

/// The statement that reads the rows of a table of events.
pub fn events_sql(c: &EventColumnsPresent) -> (s: String)
    ensures
        s@ == "SELECT id, timestamp, duration_ms, severity, "@ + list_column(c.causes, "COALESCE(causes, '[]')"@) + ", "@
            + list_column(c.culprits, "COALESCE(culprits, '[]')"@)
            + " FROM stutter_events WHERE timestamp BETWEEN ?1 AND ?2 ORDER BY timestamp"@,
{
    let mut s = String::from_str("SELECT id, timestamp, duration_ms, severity, ");
    s.append(
        if c.causes {
            "COALESCE(causes, '[]')"
        } else {
            "'[]'"
        },
    );
    s.append(", ");
    s.append(
        if c.culprits {
            "COALESCE(culprits, '[]')"
        } else {
            "'[]'"
        },
    );
    s.append(" FROM stutter_events WHERE timestamp BETWEEN ?1 AND ?2 ORDER BY timestamp");
    s
}

/// The statement that reads whole events; a column that an old table lacks, or an old row does not fill,
/// is read as empty.
pub fn full_events_sql(c: &EventColumnsPresent) -> (s: String)
    ensures
        s@ == "SELECT id, timestamp, duration_ms, severity, "@ + list_column(c.causes, "COALESCE(causes, '[]')"@) + ", "@
            + list_column(c.culprits, "COALESCE(culprits, '[]')"@) + ", "@ + list_column(
            c.cause_kinds,
            "COALESCE(cause_kinds, '[]')"@,
        ) + ", "@ + (if c.primary_cause {
            "primary_cause"@
        } else {
            "NULL"@
        }) + ", "@ + object_column(c.cause_first_touch, "COALESCE(cause_first_touch, '{}')"@) + ", "@ + object_column(
            c.snapshot,
            "COALESCE(snapshot, '{}')"@,
        ) + ", "@ + (if c.onset_ts {
            "COALESCE(onset_ts, 0)"@
        } else {
            "0"@
        }) + " FROM stutter_events WHERE timestamp BETWEEN ?1 AND ?2 ORDER BY timestamp"@,
{
    let mut s = String::from_str("SELECT id, timestamp, duration_ms, severity, ");
    s.append(
        if c.causes {
            "COALESCE(causes, '[]')"
        } else {
            "'[]'"
        },
    );
    s.append(", ");
    s.append(
        if c.culprits {
            "COALESCE(culprits, '[]')"
        } else {
            "'[]'"
        },
    );
    s.append(", ");
    s.append(
        if c.cause_kinds {
            "COALESCE(cause_kinds, '[]')"
        } else {
            "'[]'"
        },
    );
    s.append(", ");
    s.append(
        if c.primary_cause {
            "primary_cause"
        } else {
            "NULL"
        },
    );
    s.append(", ");
    s.append(
        if c.cause_first_touch {
            "COALESCE(cause_first_touch, '{}')"
        } else {
            "'{}'"
        },
    );
    s.append(", ");
    s.append(
        if c.snapshot {
            "COALESCE(snapshot, '{}')"
        } else {
            "'{}'"
        },
    );
    s.append(", ");
    s.append(
        if c.onset_ts {
            "COALESCE(onset_ts, 0)"
        } else {
            "0"
        },
    );
    s.append(" FROM stutter_events WHERE timestamp BETWEEN ?1 AND ?2 ORDER BY timestamp");
    s
}

} // verus!
