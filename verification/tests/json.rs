use cc_limit::json::{
    access_token, config_monitor_device, extract_epoch, find_string_key, reset_epoch,
    usage_window, Json,
};

fn s(t: &str) -> Json {
    Json::Str(t.to_string())
}

fn obj(members: Vec<(&str, Json)>) -> Json {
    Json::Object(members.into_iter().map(|(k, v)| (k.to_string(), v)).collect())
}

#[test]
fn finds_key_in_nested_object() {
    let v = obj(vec![("claudeAiOauth", obj(vec![("accessToken", s("tok"))]))]);
    assert_eq!(find_string_key(&v, "accessToken"), Some("tok".to_string()));
}

#[test]
fn own_member_wins_over_children() {
    let v = obj(vec![
        ("a", obj(vec![("k", s("deep"))])),
        ("k", s("top")),
    ]);
    assert_eq!(find_string_key(&v, "k"), Some("top".to_string()));
}

#[test]
fn non_string_member_is_searched_further() {
    let v = obj(vec![
        ("k", obj(vec![("k", s("inside"))])),
        ("z", s("other")),
    ]);
    assert_eq!(find_string_key(&v, "k"), Some("inside".to_string()));
    let w = obj(vec![("k", Json::Number(Some(1))), ("b", obj(vec![("k", s("x"))]))]);
    assert_eq!(find_string_key(&w, "k"), Some("x".to_string()));
}

#[test]
fn arrays_are_searched_in_order() {
    let v = Json::Array(vec![
        Json::Null,
        obj(vec![("k", s("first"))]),
        obj(vec![("k", s("second"))]),
    ]);
    assert_eq!(find_string_key(&v, "k"), Some("first".to_string()));
    assert_eq!(find_string_key(&Json::Bool(true), "k"), None);
    assert_eq!(find_string_key(&s("k"), "k"), None);
}

#[test]
fn access_token_prefers_camel_case() {
    let v = obj(vec![("access_token", s("snake")), ("accessToken", s("camel"))]);
    assert_eq!(access_token(&v), Ok("camel".to_string()));
    let w = obj(vec![("access_token", s("snake"))]);
    assert_eq!(access_token(&w), Ok("snake".to_string()));
}

#[test]
fn missing_access_token_is_an_error() {
    let v = obj(vec![("refreshToken", s("r"))]);
    assert_eq!(access_token(&v), Err("no accessToken in credentials".to_string()));
}

#[test]
fn config_device_is_read_when_a_string() {
    assert_eq!(
        config_monitor_device(&obj(vec![("monitor_device", s("\\\\.\\DISPLAY2"))])),
        Some("\\\\.\\DISPLAY2".to_string())
    );
    assert_eq!(config_monitor_device(&obj(vec![("monitor_device", Json::Number(Some(2)))])), None);
    assert_eq!(config_monitor_device(&Json::Array(vec![])), None);
}

#[test]
fn usage_window_member() {
    let reply = obj(vec![("five_hour", obj(vec![("utilization", Json::Number(Some(42)))]))]);
    assert!(matches!(usage_window(&reply), Ok(Json::Object(_))));
    let bad = obj(vec![("seven_day", Json::Null)]);
    assert!(matches!(usage_window(&bad), Err(e) if e == "no five_hour field"));
}

#[test]
fn epoch_from_seconds_and_milliseconds() {
    assert_eq!(extract_epoch(&Json::Number(Some(1_700_000_000))), Some(1_700_000_000));
    assert_eq!(extract_epoch(&Json::Number(Some(10_000_000_000))), Some(10_000_000_000));
    assert_eq!(extract_epoch(&Json::Number(Some(10_000_000_001))), Some(10_000_000));
    assert_eq!(extract_epoch(&Json::Number(Some(1_700_000_000_123))), Some(1_700_000_000));
    assert_eq!(extract_epoch(&Json::Number(Some(-5))), Some(-5));
}

#[test]
fn epoch_from_timestamp_text() {
    assert_eq!(extract_epoch(&s("1970-01-01T00:00:10Z")), Some(10));
    assert_eq!(extract_epoch(&s("soon")), None);
    assert_eq!(extract_epoch(&Json::Number(None)), None);
    assert_eq!(extract_epoch(&Json::Bool(false)), None);
}

#[test]
fn reset_keys_are_tried_in_order() {
    let w = obj(vec![("reset", Json::Number(Some(5))), ("reset_at", s("bad"))]);
    assert!(matches!(reset_epoch(&w), Ok(Some(5))));
    let w2 = obj(vec![("reset", Json::Number(Some(5))), ("resets_at", s("1970-01-01T00:01Z"))]);
    assert!(matches!(reset_epoch(&w2), Ok(Some(60))));
    let w3 = obj(vec![("other", Json::Number(Some(5)))]);
    assert!(matches!(reset_epoch(&w3), Ok(None)));
    assert!(matches!(reset_epoch(&Json::Number(Some(5))), Ok(None)));
}

#[test]
fn reset_overflow_is_reported() {
    let w = obj(vec![("resets_at", s("2025-01-01T00:00+9000000000000000"))]);
    assert!(reset_epoch(&w).is_err());
    let w2 = obj(vec![
        ("resets_at", Json::Number(Some(7))),
        ("reset", s("2025-01-01T00:00+9000000000000000")),
    ]);
    assert!(matches!(reset_epoch(&w2), Ok(Some(7))));
}
