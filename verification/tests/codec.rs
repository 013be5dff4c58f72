use support_bridge::decimal::{i64_to_dec, parse_i64_at, u64_to_dec};
use support_bridge::snapshot::{decode_snapshot, encode_snapshot};
use support_bridge::state::SavedBinding;

#[test]
fn decimal_printing_exact_values() {
    assert_eq!(u64_to_dec(0).as_str(), "0");
    assert_eq!(u64_to_dec(7).as_str(), "7");
    assert_eq!(u64_to_dec(1234567890).as_str(), "1234567890");
    assert_eq!(i64_to_dec(0).as_str(), "0");
    assert_eq!(i64_to_dec(-123).as_str(), "-123");
    assert_eq!(i64_to_dec(i64::MAX).as_str(), "9223372036854775807");
    assert_eq!(i64_to_dec(i64::MIN).as_str(), "-9223372036854775808");
}

#[test]
fn decimal_parsing_exact_values() {
    let s = "-123,";
    assert_eq!(parse_i64_at(s, 0, s.chars().count()), Some((-123, 4)));
    let s = "0}";
    assert_eq!(parse_i64_at(s, 0, s.chars().count()), Some((0, 1)));
    let s = "9223372036854775807";
    assert_eq!(parse_i64_at(s, 0, s.chars().count()), Some((i64::MAX, 19)));
    let s = "-9223372036854775808";
    assert_eq!(parse_i64_at(s, 0, s.chars().count()), Some((i64::MIN, 20)));
}

#[test]
fn decimal_parsing_rejects_non_canonical_text() {
    for s in ["", "x", "-", "-0", "007", "9223372036854775808", "-9223372036854775809"] {
        assert_eq!(parse_i64_at(s, 0, s.chars().count()), None, "accepted {:?}", s);
    }
}

#[test]
fn encode_exact_text() {
    let recs = vec![
        SavedBinding { chat_id: 5, topic_msg_id: 10 },
        SavedBinding { chat_id: -3, topic_msg_id: 7 },
    ];
    let text = encode_snapshot(&recs);
    assert_eq!(
        text.as_str(),
        "[{\"chat_id\":5,\"topic_msg_id\":10},{\"chat_id\":-3,\"topic_msg_id\":7}]"
    );
    assert_eq!(encode_snapshot(&Vec::new()).as_str(), "[]");
}

#[test]
fn decode_exact_text() {
    let decoded =
        decode_snapshot("[{\"chat_id\":5,\"topic_msg_id\":10},{\"chat_id\":-3,\"topic_msg_id\":7}]")
            .expect("canonical text must decode");
    assert_eq!(
        decoded,
        vec![
            SavedBinding { chat_id: 5, topic_msg_id: 10 },
            SavedBinding { chat_id: -3, topic_msg_id: 7 },
        ]
    );
    assert_eq!(decode_snapshot("[]"), Some(Vec::new()));
}

#[test]
fn snapshot_round_trip() {
    let cases = vec![
        Vec::new(),
        vec![SavedBinding { chat_id: 0, topic_msg_id: 0 }],
        vec![
            SavedBinding { chat_id: i64::MIN, topic_msg_id: i32::MIN },
            SavedBinding { chat_id: i64::MAX, topic_msg_id: i32::MAX },
            SavedBinding { chat_id: -1, topic_msg_id: 1 },
        ],
    ];
    for recs in cases {
        let text = encode_snapshot(&recs);
        assert_eq!(decode_snapshot(text.as_str()), Some(recs));
    }
}

#[test]
fn decode_rejects_malformed_text() {
    for s in [
        "",
        "[",
        "]",
        "{}",
        "[{}]",
        "[{\"chat_id\":5}]",
        "[{\"chat_id\":5,\"topic_msg_id\":10}",
        "[{\"chat_id\":5,\"topic_msg_id\":10}]x",
        "[{\"chat_id\":5,\"topic_msg_id\":2147483648}]",
        "[{\"chat_id\":05,\"topic_msg_id\":10}]",
        "[ {\"chat_id\":5,\"topic_msg_id\":10}]",
    ] {
        assert_eq!(decode_snapshot(s), None, "accepted {:?}", s);
    }
}
