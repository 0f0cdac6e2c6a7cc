use ddtrace::config::{find_value, payload_valid, script_of, transport_of, ConfigError, ConfigValue};

fn cfg(text: &str) -> Vec<u8> {
    text.as_bytes().to_vec()
}

#[test]
fn script_is_extracted() {
    let payload = cfg("[instrumentation]\nscript = \"syscall::open:entry { trace(pid); }\"\n");
    let script = script_of(&payload).unwrap();
    assert_eq!(script, b"syscall::open:entry { trace(pid); }".to_vec());
}

#[test]
fn script_missing_is_a_configuration_error() {
    let payload = cfg("[instrumentation]\ncomment = \"nothing to run\"\n");
    assert!(matches!(script_of(&payload), Err(ConfigError::Missing)));
    assert!(!payload_valid(&payload));
}

#[test]
fn malformed_line_is_rejected() {
    let payload = cfg("[instrumentation]\nthis is not a pair\n");
    assert!(matches!(script_of(&payload), Err(ConfigError::Malformed)));
}

#[test]
fn unterminated_string_is_rejected() {
    let payload = cfg("[instrumentation]\nscript = \"oops\n");
    assert!(matches!(script_of(&payload), Err(ConfigError::Malformed)));
}

#[test]
fn comments_and_blank_lines_are_skipped() {
    let payload = cfg("# generated by operator tooling\n\n[instrumentation]\n# the script\nscript = \"s\"\n");
    assert_eq!(script_of(&payload).unwrap(), b"s".to_vec());
}

#[test]
fn whitespace_around_keys_and_values_is_trimmed() {
    let payload = cfg("[instrumentation]\r\n  script   =   \"s\"  \r\n");
    assert_eq!(script_of(&payload).unwrap(), b"s".to_vec());
}

#[test]
fn numbers_are_read_exactly() {
    let payload = cfg("[instrumentation.server]\nport = 9000\n");
    let v = find_value(&payload, b"instrumentation.server", b"port").unwrap();
    match v {
        Some(ConfigValue::Number(n)) => assert_eq!(n, 9000),
        _ => panic!("expected a number"),
    }
}

#[test]
fn too_long_number_is_rejected() {
    let payload = cfg("[instrumentation.server]\nport = 1234567890\n");
    assert!(find_value(&payload, b"instrumentation.server", b"port").is_err());
}

#[test]
fn key_outside_requested_table_is_not_found() {
    let payload = cfg("[other]\nscript = \"s\"\n");
    let v = find_value(&payload, b"instrumentation", b"script").unwrap();
    assert!(v.is_none());
}

#[test]
fn root_table_keys_are_reachable() {
    let payload = cfg("answer = 42\n");
    let v = find_value(&payload, b"", b"answer").unwrap();
    match v {
        Some(ConfigValue::Number(n)) => assert_eq!(n, 42),
        _ => panic!("expected a number"),
    }
}

#[test]
fn first_match_wins() {
    let payload = cfg("[t]\nk = \"first\"\nk = \"second\"\n");
    let v = find_value(&payload, b"t", b"k").unwrap();
    match v {
        Some(ConfigValue::Text(s)) => assert_eq!(s, b"first".to_vec()),
        _ => panic!("expected text"),
    }
}

#[test]
fn transport_name_is_extracted() {
    let payload = cfg("[instrumentation]\nscript = \"s\"\ntransport = \"unix\"\n");
    assert_eq!(transport_of(&payload).unwrap(), b"unix".to_vec());
}

#[test]
fn nine_digit_number_is_accepted() {
    let payload = cfg("[t]\nn = 999999999\n");
    let v = find_value(&payload, b"t", b"n").unwrap();
    match v {
        Some(ConfigValue::Number(n)) => assert_eq!(n, 999_999_999),
        _ => panic!("expected a number"),
    }
}

#[test]
fn header_with_inner_whitespace_is_trimmed() {
    let payload = cfg("[ instrumentation ]\nscript = \"s\"\n");
    assert_eq!(script_of(&payload).unwrap(), b"s".to_vec());
}

#[test]
fn empty_header_is_malformed() {
    let payload = cfg("[]\nscript = \"s\"\n");
    assert!(matches!(script_of(&payload), Err(ConfigError::Malformed)));
}

#[test]
fn single_quoted_value_may_hold_double_quotes() {
    let payload = cfg("[instrumentation]\nscript = 'printf(\"%s\", copyinstr(arg0))'\n");
    assert_eq!(
        script_of(&payload).unwrap(),
        b"printf(\"%s\", copyinstr(arg0))".to_vec()
    );
}

#[test]
fn double_quoted_value_may_hold_single_quotes() {
    let payload = cfg("[instrumentation]\nscript = \"it's fine\"\n");
    assert_eq!(script_of(&payload).unwrap(), b"it's fine".to_vec());
}

#[test]
fn unterminated_literal_string_is_rejected() {
    let payload = cfg("[instrumentation]\nscript = 'oops\n");
    assert!(matches!(script_of(&payload), Err(ConfigError::Malformed)));
}
