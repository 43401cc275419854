use rusqlite::{Connection, ToSql};
use std::time::Duration;
use sample_api::query::Statement;
use sample_api::repo::{all_samples_statement, plan_samples_query};
use sample_api::sample::{decode_rows, RawRow, Sample};

fn seed(conn: &Connection) {
    conn.execute(
        "CREATE TABLE samples (moisture REAL, humidity REAL, temperature REAL, DateTime TEXT, uuid BLOB)",
        (),
    )
    .unwrap();
    let rows: [(f64, f64, f64, &str, u8); 3] = [
        (0.1, 40.0, 20.0, "2020-01-01 00:00:00", 1),
        (0.2, 41.0, 21.0, "2020-01-02 00:00:00", 2),
        (0.3, 42.0, 22.0, "2020-01-03 00:00:00", 3),
    ];
    for (m, h, t, ts, tag) in rows {
        let blob = vec![tag; 16];
        let args: [&dyn ToSql; 5] = [&m, &h, &t, &ts, &blob];
        conn.execute("INSERT INTO samples VALUES (?, ?, ?, ?, ?)", &args[..])
            .unwrap();
    }
}

fn run(conn: &Connection, stmt: &Statement) -> Vec<Sample> {
    let mut prep = conn.prepare(stmt.sql().as_str()).unwrap();
    let mut binds: Vec<&dyn ToSql> = Vec::new();
    for p in stmt.params() {
        binds.push(p);
    }
    let limit = stmt.limit().map(|l| l as i64);
    if let Some(ref l) = limit {
        binds.push(l);
    }
    let rows: Vec<RawRow> = prep
        .query_map(&binds[..], |row| {
            Ok(RawRow {
                moisture: f64::to_bits(row.get(0)?),
                humidity: f64::to_bits(row.get(1)?),
                temperature: f64::to_bits(row.get(2)?),
                date_time: row.get(3)?,
                uuid: row.get(4)?,
            })
        })
        .unwrap()
        .collect::<Result<Vec<RawRow>, rusqlite::Error>>()
        .unwrap();
    decode_rows(&rows).unwrap()
}

#[test]
fn get_all_returns_descending_timestamps() {
    let conn = Connection::open_in_memory().unwrap();
    seed(&conn);
    let samples = run(&conn, &all_samples_statement());
    assert_eq!(samples.len(), 3);
    assert_eq!(samples[0].date_time, "2020-01-03 00:00:00");
    assert_eq!(samples[1].date_time, "2020-01-02 00:00:00");
    assert_eq!(samples[2].date_time, "2020-01-01 00:00:00");
    assert_eq!(samples[0].uuid, "03030303-0303-0303-0303-030303030303");
    assert_eq!(f64::from_bits(samples[2].moisture), 0.1);
}

#[test]
fn range_filter_is_inclusive_and_ordered() {
    let conn = Connection::open_in_memory().unwrap();
    seed(&conn);
    let stmt =
        plan_samples_query("from=2020-01-01 00:00:00&to=2020-01-02 00:00:00").unwrap();
    let samples = run(&conn, &stmt);
    assert_eq!(samples.len(), 2);
    assert_eq!(samples[0].date_time, "2020-01-02 00:00:00");
    assert_eq!(samples[1].date_time, "2020-01-01 00:00:00");
}

#[test]
fn range_with_equal_bounds_returns_exactly_that_timestamp() {
    let conn = Connection::open_in_memory().unwrap();
    seed(&conn);
    let stmt =
        plan_samples_query("from=2020-01-02 00:00:00&to=2020-01-02 00:00:00").unwrap();
    let samples = run(&conn, &stmt);
    assert_eq!(samples.len(), 1);
    assert_eq!(samples[0].date_time, "2020-01-02 00:00:00");
}

#[test]
fn from_alone_returns_everything() {
    let conn = Connection::open_in_memory().unwrap();
    seed(&conn);
    let stmt = plan_samples_query("from=2020-01-02 00:00:00").unwrap();
    let samples = run(&conn, &stmt);
    assert_eq!(samples.len(), 3);
}

#[test]
fn limit_caps_the_result_count() {
    let conn = Connection::open_in_memory().unwrap();
    seed(&conn);
    let stmt = plan_samples_query("limit=2").unwrap();
    let samples = run(&conn, &stmt);
    assert_eq!(samples.len(), 2);
    assert_eq!(samples[0].date_time, "2020-01-03 00:00:00");
    assert_eq!(samples[1].date_time, "2020-01-02 00:00:00");
}

#[test]
fn limit_one_returns_latest() {
    let conn = Connection::open_in_memory().unwrap();
    seed(&conn);
    let stmt = plan_samples_query("limit=1").unwrap();
    let samples = run(&conn, &stmt);
    assert_eq!(samples.len(), 1);
    assert_eq!(samples[0].date_time, "2020-01-03 00:00:00");
}

#[test]
fn bad_limit_never_reaches_the_database() {
    assert!(plan_samples_query("limit=abc").is_err());
}

#[test]
fn pool_of_three_serves_queries_without_cross_talk() {
    let manager = r2d2_sqlite::SqliteConnectionManager::file("/tmp/sample_api_pool_test.db");
    let pool = r2d2::Pool::builder().max_size(3).build(manager).unwrap();
    {
        let conn = pool.get().unwrap();
        conn.execute("DROP TABLE IF EXISTS samples", ()).unwrap();
        seed(&conn);
    }
    // Hold all three connections at once, then query on each.
    let c1 = pool.get().unwrap();
    let c2 = pool.get().unwrap();
    let c3 = pool.get().unwrap();
    let all = all_samples_statement();
    let s1 = run(&c1, &all);
    let s2 = run(&c2, &plan_samples_query("limit=1").unwrap());
    let s3 = run(&c3, &all);
    assert_eq!(s1.len(), 3);
    assert_eq!(s2.len(), 1);
    assert_eq!(s3.len(), 3);
    assert_eq!(s2[0].date_time, "2020-01-03 00:00:00");
    drop(c1);
    drop(c2);
    drop(c3);
    // Released connections serve further checkouts.
    for _ in 0..6 {
        let c = pool.get().unwrap();
        let s = run(&c, &all);
        assert_eq!(s.len(), 3);
    }
}

#[test]
fn pool_exhaustion_surfaces_an_error() {
    let manager =
        r2d2_sqlite::SqliteConnectionManager::file("/tmp/sample_api_pool_exhaust_test.db");
    let pool = r2d2::Pool::builder()
        .max_size(3)
        .connection_timeout(Duration::from_millis(200))
        .build(manager)
        .unwrap();
    let _c1 = pool.get().unwrap();
    let _c2 = pool.get().unwrap();
    let _c3 = pool.get().unwrap();
    // All three connections are held: a fourth checkout waits out the bound
    // and fails instead of blocking forever.
    assert!(pool.get().is_err());
}
