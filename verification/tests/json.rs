use voicetype::error::Failure;
use voicetype::json::{parse, render, Json};

#[test]
fn every_kind_of_value_is_read() {
    let j = parse(br#"[null, true, 7, -7, 1.5, "s", [], {"k": {"k": 1}}]"#).unwrap();
    let items = j.as_array().unwrap();
    assert_eq!(items[0], Json::Null);
    assert_eq!(items[1], Json::Bool(true));
    assert_eq!(items[2], Json::Uint(7));
    assert_eq!(items[3], Json::Int(-7));
    assert!(matches!(items[4], Json::Real(_)));
    assert_eq!(items[5], Json::Str("s".to_string()));
    assert_eq!(items[6], Json::Array(vec![]));
    assert_eq!(
        items[7].get("k").unwrap().get("k"),
        Some(&Json::Uint(1))
    );
    assert_eq!(
        render(&j),
        r#"[null,true,7,-7,1.5,"s",[],{"k":{"k":1}}]"#
    );
}

#[test]
fn integers_are_written_by_their_value() {
    assert_eq!(render(&Json::Int(5)), "5");
    assert_eq!(parse(b"5").unwrap(), Json::Uint(5));
    assert_eq!(render(&Json::Int(i64::MIN)), "-9223372036854775808");
    assert_eq!(
        parse(b"-9223372036854775808").unwrap(),
        Json::Int(i64::MIN)
    );
    assert_eq!(
        parse(b"18446744073709551615").unwrap(),
        Json::Uint(u64::MAX)
    );
}

#[test]
fn numbers_in_parsed_form_are_written_by_their_value() {
    assert_eq!(render(&Json::Real(serde_json::Number::from(5u64))), "5");
    assert_eq!(render(&Json::Real(serde_json::Number::from(-5i64))), "-5");
    let real = serde_json::Number::from_f64(2.5).unwrap();
    assert_eq!(render(&Json::Real(real.clone())), "2.5");
    assert_eq!(parse(b"2.5").unwrap(), Json::Real(real));
    assert!(matches!(
        parse(b"18446744073709551616").unwrap(),
        Json::Real(_)
    ));
}

#[test]
fn last_entry_with_a_key_counts() {
    let j = Json::Object(vec![
        ("k".to_string(), Json::Uint(1)),
        ("a".to_string(), Json::Null),
        ("k".to_string(), Json::Uint(2)),
    ]);
    assert_eq!(j.get("k"), Some(&Json::Uint(2)));
    assert_eq!(render(&j), r#"{"a":null,"k":2}"#);
    assert_eq!(
        parse(br#"{"k":1,"k":2}"#).unwrap().get("k"),
        Some(&Json::Uint(2))
    );
    assert_eq!(j.get("b"), None);
    assert_eq!(Json::Uint(1).get("k"), None);
    assert_eq!(Json::Null.as_str(), None);
    assert_eq!(Json::Null.as_array(), None);
}

#[test]
fn depth_that_is_read_is_limited() {
    let nested = |n: usize| {
        let mut j = Json::Array(vec![]);
        for _ in 1..n {
            j = Json::Array(vec![j]);
        }
        j
    };
    let deep = nested(127);
    assert_eq!(parse(render(&deep).as_bytes()).unwrap(), deep);
    assert!(parse(render(&nested(128)).as_bytes()).is_err());
}

#[test]
fn no_json_is_an_error() {
    let e = parse(b"{").unwrap_err();
    assert!(matches!(e, Failure::BadJson(_)));
    assert_eq!(
        e.message(),
        "bad ASR JSON: EOF while parsing an object at line 1 column 1"
    );
}
