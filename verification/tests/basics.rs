use lightbot::clock::{nanos, seconds};
use lightbot::json::{action_text, parse_json, read_json, Json, Part};
use lightbot::number::{hex_text, i64_text, parse_i64, parse_usize, u64_text};
use lightbot::text::{find, is_before, join, list_entries, next_tag, remove, split, truncate};

#[test]
fn numbers_read_back() {
    for n in [0, 7, -1, i64::MAX, i64::MIN] {
        assert_eq!(i64_text(n), n.to_string());
        assert_eq!(parse_i64(&i64_text(n)), Some(n));
    }
    assert_eq!(u64_text(u64::MAX), u64::MAX.to_string());
    assert_eq!(hex_text(0xdeadbeef), "deadbeef");
    assert_eq!(parse_i64("+5"), Some(5));
    assert_eq!(parse_i64(""), None);
    assert_eq!(parse_i64("9223372036854775808"), None);
    assert_eq!(parse_usize("12"), Some(12));
    assert_eq!(parse_usize("-1"), None);
}

#[test]
fn texts_are_cut_and_joined() {
    assert_eq!(split("a,,b", ','), vec!["a", "", "b"]);
    assert_eq!(join(&split("a,,b", ','), "-"), "a--b");
    assert_eq!(list_entries(" a, ,b "), vec!["a", "b"]);
    assert_eq!(find("你好吗", "好"), Some(1));
    assert_eq!(next_tag("x[t:1]y", "[t:"), Some((1, 6)));
    assert_eq!(next_tag("x[t:1", "[t:"), None);
    assert_eq!(remove("aabaa", "aa"), "b");
    assert_eq!(truncate("你好吗", 2), "你好…");
    assert!(is_before("g1", "g10"));
    assert!(is_before("g10", "g2"));
    assert!(!is_before("b", "a"));
    assert!(!is_before("a", "a"));
}

#[test]
fn documents_are_read() {
    let v = parse_json("{\"b\": [1, -2, \"x\", true, null], \"a\": 1.5}").unwrap();
    assert_eq!(v.text(), "{\"a\":1.5,\"b\":[1,-2,\"x\",true,null]}");
    let b = v.get("b").unwrap();
    assert_eq!(b.array_len(), Some(5));
    assert_eq!(b.at(1).unwrap().as_i64(), Some(-2));
    assert_eq!(b.at(1).unwrap().as_u64(), None);
    assert_eq!(b.at(3).unwrap().as_bool(), Some(true));
    assert!(b.at(4).unwrap().is_null());
    assert!(b.at(5).is_none());
    assert_eq!(b.texts(), vec!["x"]);
    assert_eq!(v.i64_field("a"), None);
    assert_eq!(v.clone().text(), v.text());
    assert_eq!(v.field("none").text(), "null");
    assert_eq!(Json::empty_object().text(), "{}");
    assert!(parse_json("{").is_none());
    assert_eq!(read_json("{").err().unwrap(), "EOF while parsing an object at line 1 column 1");
    assert!(read_json("1").is_ok());
}

#[test]
fn of_two_parts_with_one_name_the_later_stays() {
    let parts = vec![
        ("k".to_string(), Part::Int(1)),
        ("k".to_string(), Part::Value(parse_json("[2.50]").unwrap())),
    ];
    assert_eq!(action_text("a", &parts, "e"), "{\"action\":\"a\",\"echo\":\"e\",\"params\":{\"k\":[2.5]}}");
}

#[test]
fn readings_of_the_clock() {
    assert_eq!(seconds(Some(1_999_999_999)), 1);
    assert_eq!(seconds(None), 0);
    assert_eq!(nanos(Some(5)), 5);
    assert_eq!(nanos(Some(u64::MAX as u128 + 3)), 2);
}

#[test]
fn a_received_number_is_sent_on_as_it_was_read() {
    let got = parse_json("[31.2452701914394378]").unwrap();
    assert_eq!(got.text(), "[31.245270191439438]");
    let parts = vec![("m".to_string(), Part::Value(got.at(0).unwrap().clone()))];
    assert_eq!(
        action_text("a", &parts, "e"),
        "{\"action\":\"a\",\"echo\":\"e\",\"params\":{\"m\":31.245270191439438}}"
    );
    assert_eq!(action_text("a", &vec![], "e"), "{\"action\":\"a\",\"echo\":\"e\",\"params\":{}}");
}
