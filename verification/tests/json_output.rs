use rusqlite::Connection;
use vivaldi_history_extractor::cli::{CommonArgs, Commands};
use vivaldi_history_extractor::get_common_args;
use vivaldi_history_extractor::json::{search_records_to_json, visit_records_to_json};
use vivaldi_history_extractor::{get_search_records, get_visit_records};

fn parse_utc_micros(s: &str) -> i64 {
    chrono::DateTime::parse_from_rfc3339(s)
        .unwrap()
        .with_timezone(&chrono::Utc)
        .timestamp_micros()
}

fn store_with_everything() -> Connection {
    let conn = Connection::open_in_memory().unwrap();
    conn.execute_batch(
        "CREATE TABLE urls (
             id INTEGER PRIMARY KEY,
             url TEXT,
             visit_count INTEGER,
             last_visit_time INTEGER
         );
         CREATE TABLE keyword_search_terms (
             keyword_id INTEGER,
             url_id INTEGER,
             term TEXT,
             normalized_term TEXT
         );
         CREATE TABLE visits (
             id INTEGER PRIMARY KEY,
             url INTEGER,
             visit_time INTEGER,
             visit_duration INTEGER
         );",
    )
    .unwrap();
    conn.execute(
        "INSERT INTO urls (id, url, visit_count, last_visit_time) VALUES
         (1, 'http://a.example/?q=\"x\\y\"', 2, 13300000000000000),
         (2, 'http://b.example/', 3, 13300000001000000)",
        (),
    )
    .unwrap();
    conn.execute(
        "INSERT INTO keyword_search_terms (keyword_id, url_id, term, normalized_term) VALUES
         (1, 1, 'a b', 'a b'),
         (1, 2, 'c', 'c')",
        (),
    )
    .unwrap();
    conn.execute(
        "INSERT INTO visits (url, visit_time, visit_duration) VALUES
         (1, 13300000000000000, 25),
         (2, 13300000002000000, 75)",
        (),
    )
    .unwrap();
    conn
}

#[test]
fn empty_sequences_serialize_to_empty_array() {
    assert_eq!(search_records_to_json(&Vec::new()), "[]");
    assert_eq!(visit_records_to_json(&Vec::new()), "[]");
    let parsed: serde_json::Value = serde_json::from_str("[]").unwrap();
    assert!(parsed.as_array().unwrap().is_empty());
}

#[test]
fn search_records_roundtrip_through_json() {
    let records = get_search_records(store_with_everything()).unwrap();
    let text = search_records_to_json(&records);
    let parsed: serde_json::Value = serde_json::from_str(&text).unwrap();
    let items = parsed.as_array().unwrap();
    assert_eq!(items.len(), records.len());
    for (item, record) in items.iter().zip(records.iter()) {
        assert_eq!(
            item.get("normalized_term").unwrap().as_str().unwrap(),
            record.normalized_term
        );
        assert_eq!(
            item.get("visit_count").unwrap().as_u64().unwrap(),
            record.visit_count as u64
        );
        let micros = parse_utc_micros(item.get("last_visit_time").unwrap().as_str().unwrap());
        assert_eq!(micros, record.last_visit_time.micros_since_unix_epoch);
    }
}

#[test]
fn visit_records_roundtrip_through_json() {
    let records = get_visit_records(store_with_everything()).unwrap();
    let text = visit_records_to_json(&records);
    let parsed: serde_json::Value = serde_json::from_str(&text).unwrap();
    let items = parsed.as_array().unwrap();
    assert_eq!(items.len(), records.len());
    assert_eq!(records.len(), 2);
    for (item, record) in items.iter().zip(records.iter()) {
        assert_eq!(item.get("url").unwrap().as_str().unwrap(), record.url);
        assert_eq!(
            item.get("visit_duration").unwrap().as_u64().unwrap(),
            record.visit_duration
        );
        let micros = parse_utc_micros(item.get("visit_time").unwrap().as_str().unwrap());
        assert_eq!(micros, record.visit_time.micros_since_unix_epoch);
    }
    // The quoted-and-escaped URL came back character for character.
    assert_eq!(items[1].get("url").unwrap().as_str().unwrap(), "http://a.example/?q=\"x\\y\"");
}

#[test]
fn timestamps_serialize_as_utc_microsecond_text() {
    let records = get_visit_records(store_with_everything()).unwrap();
    let text = visit_records_to_json(&records);
    // 13300000002000000 store micros = 2022-06-18T04:26:42Z.
    assert!(text.contains("\"visit_time\":\"2022-06-18T04:26:42.000000Z\""));
}

#[test]
fn control_characters_are_escaped() {
    let conn = Connection::open_in_memory().unwrap();
    conn.execute_batch(
        "CREATE TABLE urls (id INTEGER PRIMARY KEY, url TEXT, visit_count INTEGER, last_visit_time INTEGER);
         CREATE TABLE visits (id INTEGER PRIMARY KEY, url INTEGER, visit_time INTEGER, visit_duration INTEGER);",
    )
    .unwrap();
    conn.execute(
        "INSERT INTO urls (id, url, visit_count, last_visit_time) VALUES (1, 'a' || char(10) || 'b', 1, 13300000000000000)",
        (),
    )
    .unwrap();
    conn.execute("INSERT INTO visits (url, visit_time, visit_duration) VALUES (1, 13300000000000000, 5)", ())
        .unwrap();
    let records = get_visit_records(conn).unwrap();
    let text = visit_records_to_json(&records);
    assert!(text.contains("a\\u000ab"));
    let parsed: serde_json::Value = serde_json::from_str(&text).unwrap();
    assert_eq!(
        parsed.as_array().unwrap()[0].get("url").unwrap().as_str().unwrap(),
        "a\nb"
    );
}

#[test]
fn common_args_of_either_subcommand() {
    let cmd = Commands::Search {
        args: CommonArgs {
            input: String::from("History"),
            output: String::from("result.json"),
            force: true,
        },
    };
    let args = get_common_args(&cmd);
    assert_eq!(args.input, "History");
    assert_eq!(args.output, "result.json");
    assert!(args.force);
    let cmd = Commands::Visit {
        args: CommonArgs {
            input: String::from("in"),
            output: String::from("out"),
            force: false,
        },
    };
    let args = get_common_args(&cmd);
    assert_eq!(args.input, "in");
    assert!(!args.force);
}
