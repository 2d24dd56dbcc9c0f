use edge_weather::codec::{parse_one_call, to_json};
use edge_weather::report::{Current, Daily, DailyTemp, OneCall};

fn s(x: &str) -> String {
    x.to_string()
}

fn day(morn: &str, d: &str, eve: &str, night: &str, min: &str, max: &str) -> Daily {
    Daily {
        temp: DailyTemp {
            morn: s(morn),
            day: s(d),
            eve: s(eve),
            night: s(night),
            min: s(min),
            max: s(max),
        },
    }
}

fn full_report() -> OneCall {
    OneCall {
        lat: s("48.85"),
        lon: s("2.35"),
        timezone_offset: s("3600"),
        current: Some(Current { temp: s("60.0") }),
        daily: Some(vec![
            day("55", "65", "58", "50", "50", "65"),
            day("41.2", "52.9", "-1.5", "33", "-2", "53"),
        ]),
    }
}

#[test]
fn serializes_full_report() {
    let j = to_json(&full_report());
    assert_eq!(
        j,
        "{\"lat\":48.85,\"lon\":2.35,\"timezone_offset\":3600,\"current\":{\"temp\":60.0},\
         \"daily\":[{\"temp\":{\"morn\":55,\"day\":65,\"eve\":58,\"night\":50,\"min\":50,\"max\":65}},\
         {\"temp\":{\"morn\":41.2,\"day\":52.9,\"eve\":-1.5,\"night\":33,\"min\":-2,\"max\":53}}]}"
    );
}

#[test]
fn serializes_absent_parts_as_null() {
    let oc = OneCall {
        lat: s("42.03"),
        lon: s("-93.62"),
        timezone_offset: s("-18000"),
        current: None,
        daily: None,
    };
    let j = to_json(&oc);
    assert_eq!(
        j,
        "{\"lat\":42.03,\"lon\":-93.62,\"timezone_offset\":-18000,\"current\":null,\"daily\":null}"
    );
}

#[test]
fn round_trip_full_report() {
    let oc = full_report();
    let parsed = parse_one_call(to_json(&oc).as_str());
    assert_eq!(parsed, Some(full_report()));
}

#[test]
fn round_trip_absent_parts() {
    let oc = OneCall {
        lat: s("1"),
        lon: s("2"),
        timezone_offset: s("0"),
        current: None,
        daily: None,
    };
    let parsed = parse_one_call(to_json(&oc).as_str());
    assert_eq!(parsed, Some(oc));
}

#[test]
fn round_trip_empty_daily() {
    let oc = OneCall {
        lat: s("1"),
        lon: s("2"),
        timezone_offset: s("0"),
        current: Some(Current { temp: s("7.5") }),
        daily: Some(vec![]),
    };
    let parsed = parse_one_call(to_json(&oc).as_str());
    assert_eq!(parsed, Some(oc));
}

#[test]
fn parses_literal_payload() {
    let parsed = parse_one_call(
        "{\"lat\":48.85,\"lon\":2.35,\"timezone_offset\":3600,\"current\":{\"temp\":60.0},\
         \"daily\":[{\"temp\":{\"morn\":55,\"day\":65,\"eve\":58,\"night\":50,\"min\":50,\"max\":65}}]}",
    );
    let expected = OneCall {
        lat: s("48.85"),
        lon: s("2.35"),
        timezone_offset: s("3600"),
        current: Some(Current { temp: s("60.0") }),
        daily: Some(vec![day("55", "65", "58", "50", "50", "65")]),
    };
    assert_eq!(parsed, Some(expected));
}

#[test]
fn rejects_garbage() {
    assert_eq!(parse_one_call("not a payload"), None);
}

#[test]
fn rejects_empty_input() {
    assert_eq!(parse_one_call(""), None);
}

#[test]
fn rejects_missing_field() {
    assert_eq!(parse_one_call("{\"lat\":1,\"lon\":2,\"current\":null,\"daily\":null}"), None);
}

#[test]
fn rejects_trailing_text() {
    let oc = OneCall {
        lat: s("1"),
        lon: s("2"),
        timezone_offset: s("0"),
        current: None,
        daily: None,
    };
    let mut j = to_json(&oc);
    j.push_str(" ");
    assert_eq!(parse_one_call(j.as_str()), None);
}

#[test]
fn rejects_empty_number() {
    assert_eq!(
        parse_one_call("{\"lat\":,\"lon\":2,\"timezone_offset\":0,\"current\":null,\"daily\":null}"),
        None
    );
}

#[test]
fn rejects_whitespace_in_payload() {
    assert_eq!(
        parse_one_call(
            "{\"lat\": 1,\"lon\":2,\"timezone_offset\":0,\"current\":null,\"daily\":null}"
        ),
        None
    );
}

#[test]
fn rejects_reordered_keys() {
    assert_eq!(
        parse_one_call(
            "{\"lon\":2,\"lat\":1,\"timezone_offset\":0,\"current\":null,\"daily\":null}"
        ),
        None
    );
}
