//! Tests for the textual timestamp encoding.

use timekeeper::codec::{encode_ts, parse_ts};
use timekeeper::time::{Timestamp, MAX_TS};

fn ts(utc: i64) -> Timestamp {
    Timestamp { utc, offset: 0 }
}

#[test]
fn encoding_has_the_documented_shape() {
    assert_eq!(encode_ts(ts(0)), "000000000000+00000");
    assert_eq!(encode_ts(ts(1)), "000000000001+00000");
    assert_eq!(encode_ts(ts(1_000_000_000)), "001000000000+00000");
    assert_eq!(encode_ts(ts(MAX_TS)), "253402300800+00000");
    assert_eq!(
        encode_ts(Timestamp { utc: 60, offset: 3600 }),
        "000000000060+03600"
    );
    assert_eq!(
        encode_ts(Timestamp { utc: 60, offset: -18000 }),
        "000000000060-18000"
    );
}

#[test]
fn encode_parse_round_trip() {
    for utc in [0, 1, 59, 86_400, 1_000_000_007, MAX_TS] {
        for offset in [0, 3600, -3600, 86_399, -86_399] {
            let t = Timestamp { utc, offset };
            assert_eq!(parse_ts(&encode_ts(t)), Some(t));
        }
    }
}

#[test]
fn parse_rejects_malformed_text() {
    assert_eq!(parse_ts(""), None);
    assert_eq!(parse_ts("123"), None);
    assert_eq!(parse_ts("000000000000"), None);
    assert_eq!(parse_ts("00000000000a+00000"), None);
    assert_eq!(parse_ts("000000000000 00000"), None);
    assert_eq!(parse_ts("000000000000+0000x"), None);
    assert_eq!(parse_ts("000000000000+000000"), None);
    assert_eq!(parse_ts("000000000000+00000"), Some(ts(0)));
    assert_eq!(
        parse_ts("000000000060-18000"),
        Some(Timestamp { utc: 60, offset: -18000 })
    );
}

#[test]
fn encoding_sorts_by_instant() {
    let samples = [0, 1, 59, 3600, 86_400, 1_000_000_000, MAX_TS];
    for a in samples {
        for b in samples {
            // the offset never disturbs the order of distinct instants:
            // the fixed-width instant is the prefix of the encoding
            let ta = Timestamp { utc: a, offset: 3600 };
            let tb = Timestamp { utc: b, offset: -3600 };
            if a < b {
                assert!(encode_ts(ta) < encode_ts(tb));
            }
            if a > b {
                assert!(encode_ts(ta) > encode_ts(tb));
            }
        }
    }
}
