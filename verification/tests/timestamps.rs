use chrono::TimeZone;
use vivaldi_history_extractor::convert_timestamp;
use vivaldi_history_extractor::timestamp::{
    store_micros, STORE_EPOCH_TO_UNIX_MICROS, TIMESTAMP_MAX_MICROS, TIMESTAMP_MIN_MICROS,
};

#[test]
fn convert_zero_is_store_epoch() {
    // The store epoch itself: 1601-01-01T00:00:00Z.
    let t = convert_timestamp(0).expect("the store epoch converts");
    assert_eq!(t.micros_since_unix_epoch, -STORE_EPOCH_TO_UNIX_MICROS);
    let epoch = chrono::Utc.with_ymd_and_hms(1601, 1, 1, 0, 0, 0).unwrap();
    assert_eq!(epoch.timestamp_micros(), t.micros_since_unix_epoch);
}

#[test]
fn convert_offset_of_unix_epoch() {
    let t = convert_timestamp(11644473600000000).expect("the Unix epoch converts");
    assert_eq!(t.micros_since_unix_epoch, 0);
    let unix_epoch = chrono::Utc.with_ymd_and_hms(1970, 1, 1, 0, 0, 0).unwrap();
    assert_eq!(unix_epoch.timestamp_micros(), 0);
}

#[test]
fn convert_matches_chrono_addition() {
    // The conversion equals 1601-01-01T00:00:00Z plus the offset.
    let epoch = chrono::Utc.with_ymd_and_hms(1601, 1, 1, 0, 0, 0).unwrap();
    for ts in [0i64, 1, 999999, 11644473600000000, 13300000000000000, 13377210000123456] {
        let ours = convert_timestamp(ts).expect("in range");
        let theirs = epoch
            .checked_add_signed(chrono::Duration::microseconds(ts))
            .expect("in range");
        assert_eq!(ours.micros_since_unix_epoch, theirs.timestamp_micros());
    }
}

#[test]
fn convert_roundtrip() {
    for ts in [0i64, -5, 11644473600000000, 13300000000000000] {
        let t = convert_timestamp(ts).expect("in range");
        let back = store_micros(&t);
        assert_eq!(back, ts);
        let again = convert_timestamp(back).expect("in range");
        assert_eq!(again, t);
    }
}

#[test]
fn convert_out_of_range_fails() {
    assert!(convert_timestamp(i64::MAX).is_none());
    assert!(convert_timestamp(i64::MIN).is_none());
    // The largest store offset that still converts.
    let max_ok = TIMESTAMP_MAX_MICROS + STORE_EPOCH_TO_UNIX_MICROS;
    assert!(convert_timestamp(max_ok).is_some());
    assert!(convert_timestamp(max_ok + 1).is_none());
}

#[test]
fn timestamp_range_matches_chrono() {
    // The representable range is exactly chrono's.
    assert_eq!(
        chrono::DateTime::<chrono::Utc>::MIN_UTC.timestamp_micros(),
        TIMESTAMP_MIN_MICROS
    );
    assert_eq!(
        chrono::DateTime::<chrono::Utc>::MAX_UTC.timestamp_micros(),
        TIMESTAMP_MAX_MICROS
    );
}
