use webserver::errors::AppError;
use webserver::plugins::{
    parse_i64, parse_query, plugins_folder, post_payload, query_is_well_formed, CallMethod,
    LibraryPath, PluginCall, PluginError, QueryValue,
};

#[test]
fn integers_parse_like_std() {
    assert_eq!(parse_i64("42"), Some(42));
    assert_eq!(parse_i64("-7"), Some(-7));
    assert_eq!(parse_i64("+3"), Some(3));
    assert_eq!(parse_i64("007"), Some(7));
    assert_eq!(parse_i64(""), None);
    assert_eq!(parse_i64("-"), None);
    assert_eq!(parse_i64("12a"), None);
    assert_eq!(parse_i64(" 1"), None);
    assert_eq!(parse_i64("9223372036854775807"), Some(i64::MAX));
    assert_eq!(parse_i64("9223372036854775808"), None);
    assert_eq!(parse_i64("-9223372036854775808"), Some(i64::MIN));
    assert_eq!(parse_i64("-9223372036854775809"), None);
    assert_eq!(parse_i64("99999999999999999999999999999999"), None);
    for s in ["0", "-0", "123456789", "-42", "+0", "x"] {
        assert_eq!(parse_i64(s), s.parse::<i64>().ok());
    }
}

fn find<'a>(params: &'a [webserver::plugins::QueryParam], name: &str) -> &'a QueryValue {
    &params.iter().find(|p| p.name == name).expect("argument present").value
}

#[test]
fn query_arguments_are_typed() {
    let q = "a=1&b=true&c=hi&d=false&e=";
    assert!(query_is_well_formed(q));
    let params = parse_query(q);
    assert_eq!(params.len(), 5);
    assert!(matches!(find(&params, "a"), QueryValue::Int(1)));
    assert!(matches!(find(&params, "b"), QueryValue::Bool(true)));
    assert!(matches!(find(&params, "d"), QueryValue::Bool(false)));
    match find(&params, "c") {
        QueryValue::Text(t) => assert_eq!(t, "hi"),
        _ => panic!("expected text"),
    }
    match find(&params, "e") {
        QueryValue::Text(t) => assert_eq!(t, ""),
        _ => panic!("expected text"),
    }
}

#[test]
fn later_argument_replaces_earlier_one() {
    let params = parse_query("a=1&b=2&a=3");
    assert_eq!(params.len(), 2);
    assert!(matches!(find(&params, "a"), QueryValue::Int(3)));
    assert!(matches!(find(&params, "b"), QueryValue::Int(2)));
}

#[test]
fn value_stops_at_second_equals() {
    let params = parse_query("x=1=2");
    assert!(matches!(find(&params, "x"), QueryValue::Int(1)));
}

#[test]
fn argument_without_equals_is_malformed() {
    assert!(!query_is_well_formed("a"));
    assert!(!query_is_well_formed("a=1&b"));
    assert!(!query_is_well_formed(""));
    assert!(query_is_well_formed("=5"));
}

#[test]
fn plugin_and_method_come_from_last_segment() {
    let c = PluginCall::from_path("/plugins/math.add").ok().expect("a call");
    assert_eq!(c.plugin, "math");
    assert_eq!(c.method, "add");
    assert_eq!(c.library_file(), "math.dll");
    let c = PluginCall::from_path("/plugins/a.b.c").ok().expect("a call");
    assert_eq!(c.plugin, "a");
    assert_eq!(c.method, "c");
}

#[test]
fn path_without_dot_names_no_program() {
    assert!(matches!(PluginCall::from_path("/plugins/math"), Err(PluginError::MissingProgram)));
    assert!(matches!(PluginCall::from_path("/a.b/c"), Err(PluginError::MissingProgram)));
}

#[test]
fn error_messages_depend_on_method() {
    assert_eq!(
        PluginError::MissingProgram.message(CallMethod::Get),
        "Error missing parameter program to call"
    );
    assert_eq!(PluginError::NoPluginFolder.message(CallMethod::Get), "Invalid path not found");
    assert_eq!(PluginError::NoPluginFolder.message(CallMethod::Post), "Invalid library not found");
    assert_eq!(PluginError::LibraryNotLoaded.message(CallMethod::Get), "Invalid library not found");
    assert_eq!(PluginError::LibraryNotLoaded.message(CallMethod::Post), "Invalid plugin not found");
    assert_eq!(
        PluginError::MethodNotFound.message(CallMethod::Post),
        "Error invalid method not found"
    );
    assert_eq!(PluginError::Raised("boom".to_string()).message(CallMethod::Get), "boom");
    assert_eq!(plugins_folder(), "plugins");
}

#[test]
fn post_body_must_be_json() {
    let v = post_payload(br#"{"a": 1}"#).ok().expect("json");
    assert_eq!(v["a"], serde_json::Value::from(1));
    assert!(matches!(post_payload(b"nope"), Err(PluginError::Raised(_))));
    assert!(post_payload(&[0x7b, 0xff, 0x7d]).is_err());
    let v = post_payload(b"\"a\xffb\"").ok().expect("a JSON string");
    assert_eq!(v, serde_json::Value::from("a\u{FFFD}b"));
    match post_payload(b"[1,") {
        Err(PluginError::Raised(t)) => assert!(!t.is_empty()),
        _ => panic!("expected a parse error"),
    }
}

#[test]
fn app_error_answers_with_500_and_its_text() {
    let e = AppError::from_plugin(&PluginError::MethodNotFound, CallMethod::Get);
    let m = e.error_message();
    assert!(!m.success);
    assert_eq!(m.message, "Error invalid method not found");
    assert_eq!(e.status_code(), 500);
}

#[test]
fn library_location_depends_on_method() {
    let c = PluginCall::from_path("/plugins/math.add").ok().expect("a call");
    match c.library_path(CallMethod::Get) {
        LibraryPath::InPluginFolder(f) => assert_eq!(f, "math.dll"),
        _ => panic!("expected the plugin folder"),
    }
    match c.library_path(CallMethod::Post) {
        LibraryPath::Relative(f) => assert_eq!(f, "plugins/math.dll"),
        _ => panic!("expected a relative path"),
    }
}

#[test]
fn decimal_text_parses_back() {
    for n in [0i64, 1, -1, 42, -9000, i64::MAX, i64::MIN] {
        assert_eq!(parse_i64(&n.to_string()), Some(n));
    }
}
