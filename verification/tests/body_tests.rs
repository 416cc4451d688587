use tonic_debug::body::{DebugBody, Direction};
use tonic_debug::service::{grpc_status_is_error, is_custom_metadata_header};

#[test]
fn direction_labels() {
    assert_eq!(Direction::Request.as_str(), "request");
    assert_eq!(Direction::Response.as_str(), "response");
}

#[test]
fn capture_stops_at_the_limit() {
    let mut body = DebugBody::new((), "/s/m".to_string(), Direction::Response, true, true, false, 5);
    body.capture(&[1, 2, 3]);
    assert_eq!(body.captured_len(), 3);
    body.capture(&[4, 5, 6, 7]);
    assert_eq!(body.captured_len(), 5);
    body.capture(&[8]);
    assert_eq!(body.captured_len(), 5);
    assert_eq!(body.method(), "/s/m");
    assert_eq!(body.direction(), Direction::Response);
    let (inner, state) = body.split();
    assert_eq!(inner, ());
    assert_eq!(state.captured_len(), 5);
}

#[test]
fn frames_render_by_configuration() {
    let data = [0x00, 0, 0, 0, 2, 0x08, 0x01];
    let plain = DebugBody::new((), String::new(), Direction::Request, true, true, false, 4);
    assert_eq!(plain.render_frame(&data), "gRPC frame (compressed=false, 2 bytes)\n  field 1 (varint): 1");
    let dump = DebugBody::new((), String::new(), Direction::Request, true, true, true, 4);
    assert_eq!(
        dump.render_frame(&data),
        "  0000: 00 00 00 00                                       |....|\n  ... (3 bytes truncated)"
    );
}

#[test]
fn status_zero_alone_is_success() {
    assert!(!grpc_status_is_error("0"));
    assert!(grpc_status_is_error("5"));
    assert!(grpc_status_is_error("00"));
    assert!(grpc_status_is_error("unknown"));
    assert!(grpc_status_is_error(""));
}

#[test]
fn custom_metadata_excludes_pseudo_and_standard_headers() {
    assert!(is_custom_metadata_header("x-request-id"));
    assert!(is_custom_metadata_header("authorization"));
    assert!(!is_custom_metadata_header(":path"));
    assert!(!is_custom_metadata_header("content-type"));
    assert!(!is_custom_metadata_header("user-agent"));
    assert!(!is_custom_metadata_header("te"));
    assert!(!is_custom_metadata_header("grpc-timeout"));
    assert!(!is_custom_metadata_header("grpc-encoding"));
    assert!(!is_custom_metadata_header("grpc-accept-encoding"));
    assert!(is_custom_metadata_header("grpc-message-type"));
}
