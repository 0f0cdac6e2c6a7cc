use ddtrace::endpoint::{
    assignment_path, hostname_from_buffer, must_reregister, registration_path,
    registration_payload, CoordinationState, DDTRACE_ENDPOINTS_PATH, DDTRACE_INSTRUMENTATION_PATH,
    DDTRACE_PATH,
};

#[test]
fn hostname_stops_at_the_first_nul() {
    let mut buf = b"myhost".to_vec();
    buf.push(0);
    buf.extend_from_slice(b"junk after the terminator");
    assert_eq!(hostname_from_buffer(&buf), b"myhost".to_vec());
}

#[test]
fn hostname_without_nul_is_taken_whole() {
    assert_eq!(hostname_from_buffer(b"fullbuf"), b"fullbuf".to_vec());
}

#[test]
fn paths_are_fixed() {
    assert_eq!(DDTRACE_PATH, "/ddtrace");
    assert_eq!(DDTRACE_ENDPOINTS_PATH, "/ddtrace/endpoints");
    assert_eq!(DDTRACE_INSTRUMENTATION_PATH, "/ddtrace/instrumentation");
}

#[test]
fn registration_path_is_under_endpoints() {
    assert_eq!(registration_path("myhost"), "/ddtrace/endpoints/myhost".to_string());
}

#[test]
fn assignment_path_is_under_instrumentation() {
    assert_eq!(assignment_path("myhost"), "/ddtrace/instrumentation/myhost".to_string());
}

#[test]
fn registration_payload_names_agent_and_version() {
    assert_eq!(registration_payload("ddtrace", "0.1.0"), "ddtrace (0.1.0)".to_string());
}

#[test]
fn only_a_connected_state_forces_reregistration() {
    assert!(must_reregister(CoordinationState::Connected));
    assert!(!must_reregister(CoordinationState::Disconnected));
    assert!(!must_reregister(CoordinationState::Expired));
}
