use rusqlite::Connection;
use vivaldi_history_extractor::{get_search_records, get_visit_records};

const UNIX_OFFSET: i64 = 11644473600000000;

fn open_history_store() -> Connection {
    let conn = Connection::open_in_memory().unwrap();
    conn.execute_batch(
        "CREATE TABLE urls (
             id INTEGER PRIMARY KEY,
             url TEXT,
             visit_count INTEGER,
             last_visit_time INTEGER
         );
         CREATE TABLE keyword_search_terms (
             keyword_id INTEGER,
             url_id INTEGER,
             term TEXT,
             normalized_term TEXT
         );
         CREATE TABLE visits (
             id INTEGER PRIMARY KEY,
             url INTEGER,
             visit_time INTEGER,
             visit_duration INTEGER
         );",
    )
    .unwrap();
    conn
}

fn add_url(conn: &Connection, id: i64, url: &str, visit_count: i64, last_visit_time: i64) {
    conn.execute(
        "INSERT INTO urls (id, url, visit_count, last_visit_time) VALUES (?1, ?2, ?3, ?4)",
        (id, url, visit_count, last_visit_time),
    )
    .unwrap();
}

fn add_term(conn: &Connection, url_id: i64, normalized_term: &str) {
    conn.execute(
        "INSERT INTO keyword_search_terms (keyword_id, url_id, term, normalized_term)
         VALUES (1, ?1, ?2, ?2)",
        (url_id, normalized_term),
    )
    .unwrap();
}

fn add_visit(conn: &Connection, url_id: i64, visit_time: i64, visit_duration: i64) {
    conn.execute(
        "INSERT INTO visits (url, visit_time, visit_duration) VALUES (?1, ?2, ?3)",
        (url_id, visit_time, visit_duration),
    )
    .unwrap();
}

#[test]
fn no_search_terms_gives_empty_sequence() {
    let conn = open_history_store();
    add_url(&conn, 1, "http://example.com/", 3, 13300000000000000);
    let records = get_search_records(conn).expect("an empty table is no failure");
    assert!(records.is_empty());
}

#[test]
fn search_terms_aggregate_and_order() {
    // "alpha" over two URL entries (counts 2 and 3, times T1 < T2),
    // "beta" over one (count 1, time T3 > T2): expect [beta, alpha],
    // alpha with the summed count and the latest time.
    let t1 = 13300000000000000;
    let t2 = 13300000001000000;
    let t3 = 13300000002000000;
    let conn = open_history_store();
    add_url(&conn, 1, "http://a.example/", 2, t1);
    add_url(&conn, 2, "http://b.example/", 3, t2);
    add_url(&conn, 3, "http://c.example/", 1, t3);
    add_term(&conn, 1, "alpha");
    add_term(&conn, 2, "alpha");
    add_term(&conn, 3, "beta");
    let records = get_search_records(conn).unwrap();
    assert_eq!(records.len(), 2);
    assert_eq!(records[0].normalized_term, "beta");
    assert_eq!(records[0].visit_count, 1);
    assert_eq!(records[0].last_visit_time.micros_since_unix_epoch, t3 - UNIX_OFFSET);
    assert_eq!(records[1].normalized_term, "alpha");
    assert_eq!(records[1].visit_count, 5);
    assert_eq!(records[1].last_visit_time.micros_since_unix_epoch, t2 - UNIX_OFFSET);
}

#[test]
fn nonpositive_count_is_excluded() {
    let conn = open_history_store();
    add_url(&conn, 1, "http://a.example/", 0, 13300000000000000);
    add_url(&conn, 2, "http://b.example/", -7, 13300000001000000);
    add_url(&conn, 3, "http://c.example/", 4, 13300000002000000);
    add_term(&conn, 1, "gamma");
    add_term(&conn, 2, "gamma");
    add_term(&conn, 3, "delta");
    let records = get_search_records(conn).unwrap();
    // gamma had only non-positive counts: no group at all.
    assert_eq!(records.len(), 1);
    assert_eq!(records[0].normalized_term, "delta");
    assert_eq!(records[0].visit_count, 4);
}

#[test]
fn search_overflowing_time_drops_only_that_group() {
    let conn = open_history_store();
    add_url(&conn, 1, "http://a.example/", 2, i64::MAX);
    add_url(&conn, 2, "http://b.example/", 3, 13300000000000000);
    add_term(&conn, 1, "epsilon");
    add_term(&conn, 2, "zeta");
    let records = get_search_records(conn).unwrap();
    assert_eq!(records.len(), 1);
    assert_eq!(records[0].normalized_term, "zeta");
}

#[test]
fn missing_table_is_a_query_failure() {
    let conn = Connection::open_in_memory().unwrap();
    let err = get_search_records(conn).expect_err("no tables exist");
    assert!(!err.message.is_empty());

    let conn = Connection::open_in_memory().unwrap();
    let err = get_visit_records(conn).expect_err("no tables exist");
    assert!(!err.message.is_empty());
}

#[test]
fn no_visits_gives_empty_sequence() {
    let conn = open_history_store();
    add_url(&conn, 1, "http://example.com/", 3, 13300000000000000);
    let records = get_visit_records(conn).expect("an empty table is no failure");
    assert!(records.is_empty());
}

#[test]
fn visits_order_by_duration_descending() {
    let t = 13300000000000000;
    let conn = open_history_store();
    add_url(&conn, 1, "http://a.example/", 1, t);
    add_url(&conn, 2, "http://b.example/", 1, t);
    add_url(&conn, 3, "http://c.example/", 1, t);
    add_visit(&conn, 1, t, 10);
    add_visit(&conn, 2, t + 1, 30);
    add_visit(&conn, 3, t + 2, 20);
    // A visit whose URL id matches no URL row is dropped, not an error.
    add_visit(&conn, 99, t + 3, 40);
    let records = get_visit_records(conn).unwrap();
    let durations: Vec<u64> = records.iter().map(|r| r.visit_duration).collect();
    assert_eq!(durations, vec![30, 20, 10]);
    assert_eq!(records[0].url, "http://b.example/");
    assert_eq!(records[0].visit_time.micros_since_unix_epoch, t + 1 - UNIX_OFFSET);
}

#[test]
fn visit_with_overflowing_time_is_dropped() {
    let t = 13300000000000000;
    let conn = open_history_store();
    add_url(&conn, 1, "http://a.example/", 1, t);
    add_url(&conn, 2, "http://b.example/", 1, t);
    add_visit(&conn, 1, i64::MAX, 50);
    add_visit(&conn, 2, t, 20);
    let records = get_visit_records(conn).unwrap();
    assert_eq!(records.len(), 1);
    assert_eq!(records[0].url, "http://b.example/");
    assert_eq!(records[0].visit_duration, 20);
}

#[test]
fn visit_with_negative_duration_is_dropped() {
    let t = 13300000000000000;
    let conn = open_history_store();
    add_url(&conn, 1, "http://a.example/", 1, t);
    add_url(&conn, 2, "http://b.example/", 1, t);
    add_visit(&conn, 1, t, -1);
    add_visit(&conn, 2, t, 20);
    let records = get_visit_records(conn).unwrap();
    assert_eq!(records.len(), 1);
    assert_eq!(records[0].url, "http://b.example/");
}

#[test]
fn null_columns_drop_the_row_silently() {
    let t = 13300000000000000;
    let conn = open_history_store();
    add_url(&conn, 1, "http://a.example/", 1, t);
    conn.execute("INSERT INTO urls (id, url, visit_count, last_visit_time) VALUES (2, NULL, 1, ?1)", (t,))
        .unwrap();
    add_visit(&conn, 1, t, 10);
    add_visit(&conn, 2, t, 30);
    conn.execute("INSERT INTO visits (url, visit_time, visit_duration) VALUES (1, NULL, 40)", ())
        .unwrap();
    let records = get_visit_records(conn).unwrap();
    assert_eq!(records.len(), 1);
    assert_eq!(records[0].url, "http://a.example/");
    assert_eq!(records[0].visit_duration, 10);
}
