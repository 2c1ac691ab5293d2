use find_stutter::analytics::{load_kpi, TrendBucket};
use find_stutter::query::check_readonly;
use find_stutter::sql::{events_sql, full_events_sql, has_column, trend_sql, EventColumnsPresent};
use rusqlite::Connection;

const FULL: EventColumnsPresent = EventColumnsPresent {
    causes: true,
    culprits: true,
    cause_kinds: true,
    primary_cause: true,
    cause_first_touch: true,
    snapshot: true,
    onset_ts: true,
};

const BARE: EventColumnsPresent = EventColumnsPresent {
    causes: false,
    culprits: false,
    cause_kinds: false,
    primary_cause: false,
    cause_first_touch: false,
    snapshot: false,
    onset_ts: false,
};

fn columns(conn: &Connection) -> Vec<String> {
    let mut stmt = conn.prepare("PRAGMA table_info(stutter_events)").unwrap();
    let names = stmt.query_map([], |r| r.get::<_, String>(1)).unwrap().map(|r| r.unwrap()).collect();
    names
}

fn legacy() -> Connection {
    let conn = Connection::open_in_memory().unwrap();
    conn.execute_batch(
        "CREATE TABLE stutter_events (
            id INTEGER PRIMARY KEY AUTOINCREMENT,
            timestamp TEXT NOT NULL,
            duration_ms INTEGER NOT NULL,
            severity TEXT NOT NULL,
            snapshot TEXT NOT NULL
        );
        INSERT INTO stutter_events (timestamp, duration_ms, severity, snapshot)
        VALUES ('2026-08-16T00:00:00+00:00', 1500, 'major', '{\"cpu_usage\":1.0}');",
    )
    .unwrap();
    conn
}

#[test]
fn load_events_handles_legacy_schema_without_culprits_causes() {
    let conn = legacy();
    let names = columns(&conn);
    assert!(has_column(&names, "snapshot"));
    assert!(!has_column(&names, "culprits"));
    assert!(!has_column(&names, "causes"));
    let (severity, causes, culprits) = conn
        .query_row(&events_sql(&BARE), ["2026-08-16", "2026-08-17"], |r| {
            Ok((r.get::<_, String>(3)?, r.get::<_, String>(4)?, r.get::<_, String>(5)?))
        })
        .unwrap();
    assert_eq!(severity, "major");
    assert_eq!(causes, "[]");
    assert_eq!(culprits, "[]");
    let (touch, onset) = conn
        .query_row(&full_events_sql(&BARE), ["2026-08-16", "2026-08-17"], |r| {
            Ok((r.get::<_, String>(8)?, r.get::<_, i64>(10)?))
        })
        .unwrap();
    assert_eq!(touch, "{}");
    assert_eq!(onset, 0);
}

fn seeded() -> Connection {
    let conn = Connection::open_in_memory().unwrap();
    conn.execute_batch(
        "CREATE TABLE stutter_events (
            id INTEGER PRIMARY KEY AUTOINCREMENT, timestamp TEXT, duration_ms INTEGER, severity TEXT,
            causes TEXT, culprits TEXT, cause_kinds TEXT, primary_cause TEXT, cause_first_touch TEXT,
            snapshot TEXT, onset_ts INTEGER
        );
        INSERT INTO stutter_events (timestamp, duration_ms, severity, causes, onset_ts) VALUES
            ('2026-08-16T09:00:00+00:00', 1000, 'major', '[\"x\"]', 5),
            ('2026-08-16T09:01:00+00:00', 2000, 'minor', NULL, 6),
            ('2026-08-16T10:02:00+00:00', 3000, 'critical', '[]', 7);",
    )
    .unwrap();
    conn
}

#[test]
fn load_trend_buckets_by_local_hour() {
    let conn = seeded();
    let mut stmt = conn.prepare(&trend_sql(TrendBucket::Hour)).unwrap();
    let trend: Vec<(String, u32, i64, u32, u32, u32)> = stmt
        .query_map(["2026-08-16T00:00:00+00:00", "2026-08-16T12:00:00+00:00"], |r| {
            Ok((r.get(0)?, r.get(1)?, r.get(2)?, r.get(3)?, r.get(4)?, r.get(5)?))
        })
        .unwrap()
        .map(|r| r.unwrap())
        .collect();
    assert_eq!(trend.len(), 2);
    let total: u32 = trend.iter().map(|p| p.1).sum();
    assert_eq!(total, 3);
    let big = trend.iter().find(|p| p.1 == 2).unwrap();
    assert_eq!(big.3 + big.4 + big.5, 2);
    assert!(big.0.ends_with(":00"));
    assert_eq!(big.2, 3000);
}

#[test]
fn trends_by_quarter_hour_and_day() {
    let conn = seeded();
    let first = |b: TrendBucket| -> (String, u32) {
        conn.query_row(&trend_sql(b), ["2026-08-16", "2026-08-17"], |r| Ok((r.get(0)?, r.get(1)?))).unwrap()
    };
    assert!(first(TrendBucket::QuarterHour).0.ends_with(":00"));
    assert_eq!(first(TrendBucket::Day).0.len(), 10);
}

#[test]
fn whole_events_are_read_in_order() {
    let conn = seeded();
    let mut stmt = conn.prepare(&full_events_sql(&FULL)).unwrap();
    let onsets: Vec<(String, i64)> = stmt
        .query_map(["2026-08-16T09:00:30+00:00", "2026-08-17"], |r| Ok((r.get(4)?, r.get(10)?)))
        .unwrap()
        .map(|r| r.unwrap())
        .collect();
    assert_eq!(onsets, vec![("[]".to_string(), 6), ("[]".to_string(), 7)]);
}

#[test]
fn rows_without_a_beginning_are_read() {
    let conn = seeded();
    conn.execute_batch(
        "INSERT INTO stutter_events (timestamp, duration_ms, severity) VALUES ('2026-08-16T11:00:00+00:00', 4000, 'major');",
    )
    .unwrap();
    let onset: i64 = conn
        .query_row(&full_events_sql(&FULL), ["2026-08-16T10:30:00+00:00", "2026-08-17"], |r| r.get(10))
        .unwrap();
    assert_eq!(onset, 0);
}

#[test]
fn sql_json_rejects_write_statements() {
    let conn = seeded();
    conn.execute_batch("CREATE TABLE samples (cpu_usage REAL);").unwrap();
    for sql in [
        "INSERT INTO stutter_events (timestamp) VALUES ('x')",
        "DELETE FROM samples",
        "UPDATE samples SET cpu_usage = 0",
        "DROP TABLE samples",
        "CREATE TABLE t (x)",
    ] {
        let stmt = conn.prepare(sql).unwrap();
        assert!(check_readonly(stmt.readonly()).is_err(), "{}", sql);
    }
}

#[test]
fn sql_json_allows_pragma_table_info() {
    let conn = seeded();
    let stmt = conn.prepare("PRAGMA table_info(stutter_events)").unwrap();
    assert!(check_readonly(stmt.readonly()).is_ok());
    let names = columns(&conn);
    assert!(!names.is_empty());
    assert!(has_column(&names, "timestamp"));
}

#[test]
fn legacy_schema_without_culprits_does_not_crash() {
    let conn = legacy();
    assert!(!has_column(&columns(&conn), "culprits"));
    let count: u32 = conn.query_row("SELECT COUNT(*) FROM stutter_events", [], |r| r.get(0)).unwrap();
    let kpi = load_kpi(count, 1500, &vec![], &vec![]);
    assert_eq!(kpi.today_count, 1);
    assert_eq!(kpi.top_culprit, "—");
}
