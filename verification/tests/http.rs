use hotaru::http::{
    error_response_from, flow_after, is_grpc_content_type, is_keep_alive, not_found_response,
    outgoing_host, request_check,
    on_handler_error, on_no_route, Http1Protocol, HttpError, HttpWireWriter, StatusCode,
};
use hotaru::protocol::{ProtocolFlow, ProtocolRole};
use hotaru::http::transport::{is_empty_request, HttpTransport};

#[test]
fn test_is_keep_alive() {
    // No Connection header: the HTTP/1.1 default keeps the connection.
    assert!(is_keep_alive(None));
    // Connection: close
    assert!(!is_keep_alive(Some("close")));
    // Connection: keep-alive
    assert!(is_keep_alive(Some("keep-alive")));
}

#[test]
fn keep_alive_ignores_letter_case() {
    assert!(!is_keep_alive(Some("Close")));
    assert!(!is_keep_alive(Some("CLOSE")));
    assert!(is_keep_alive(Some("closed")));
}

#[test]
fn test_not_found_response() {
    let resp = not_found_response();
    assert_eq!(resp.status(), StatusCode::from_u16(404));
}

#[test]
fn not_found_page_is_html() {
    let resp = not_found_response();
    assert_eq!(
        resp.body(),
        "<!DOCTYPE html>\n<html>\n<head><title>404 Not Found</title></head>\n<body><h1>404 Not Found</h1></body>\n</html>\n"
    );
}

#[test]
fn protocol_impl_test_http1_detection() {
    assert!(Http1Protocol::detect(b"GET / HTTP/1.1\r\n"));
    assert!(Http1Protocol::detect(b"POST /api HTTP/1.1\r\n"));
    assert!(Http1Protocol::detect(b"PUT /resource HTTP/1.1\r\n"));
    assert!(!Http1Protocol::detect(b"INVALID REQUEST\r\n"));
    assert!(!Http1Protocol::detect(b""));
}

#[test]
fn traits_test_http1_detection() {
    assert!(Http1Protocol::detect(b"GET / HTTP/1.1\r\n"));
    assert!(Http1Protocol::detect(b"POST /api HTTP/1.1\r\n"));
    assert!(Http1Protocol::detect(b"PUT /resource HTTP/1.1\r\n"));
    assert!(!Http1Protocol::detect(b"INVALID REQUEST\r\n"));
    assert!(!Http1Protocol::detect(b""));
}

#[test]
fn every_method_is_detected_and_needs_its_space() {
    for m in ["GET ", "POST ", "PUT ", "DELETE ", "HEAD ", "OPTIONS ", "PATCH ", "CONNECT ", "TRACE "] {
        assert!(Http1Protocol::detect(m.as_bytes()));
        assert!(!Http1Protocol::detect(m.trim_end().as_bytes()));
    }
    assert!(!Http1Protocol::detect(b"get / HTTP/1.1"));
}

#[test]
fn lit_parser_splits_like_the_router() {
    assert!(Http1Protocol::lit_parser("").is_empty());
    assert_eq!(Http1Protocol::lit_parser("/users/42"), vec!["", "users", "42"]);
    assert_eq!(Http1Protocol::lit_parser("/"), vec!["", ""]);
}

#[test]
fn protocol_roles_and_name() {
    assert_eq!(Http1Protocol::server().role(), ProtocolRole::Server);
    assert_eq!(Http1Protocol::client().role(), ProtocolRole::Client);
    assert_eq!(Http1Protocol::server().name(), "http");
}

#[test]
fn errors_map_to_statuses() {
    let io = HttpError::Io(std::io::Error::new(std::io::ErrorKind::Other, "boom"));
    assert_eq!(io.status().as_u16(), 500);
    assert_eq!(HttpError::Connection("x".into()).status().as_u16(), 502);
    assert_eq!(HttpError::ParseError("x".into()).status().as_u16(), 400);
    assert_eq!(HttpError::PayloadTooLarge.status().as_u16(), 413);
    assert_eq!(HttpError::MethodNotAllowed.status().as_u16(), 405);
    assert_eq!(HttpError::UnsupportedMediaType.status().as_u16(), 415);
    assert_eq!(HttpError::TooManyHeaders.status().as_u16(), 431);
    assert_eq!(HttpError::Status(StatusCode::from_u16(418)).status().as_u16(), 418);
    assert_eq!(HttpError::NoRoute("/x".into()).status().as_u16(), 404);
    assert_eq!(HttpError::Timeout.status().as_u16(), 408);
    assert_eq!(HttpError::VersionNotSupported.status().as_u16(), 505);
    assert_eq!(HttpError::Other("x".into()).status().as_u16(), 500);
}

#[test]
fn only_io_and_connection_errors_end_the_connection() {
    let io = HttpError::Io(std::io::Error::new(std::io::ErrorKind::Other, "boom"));
    assert!(!io.can_continue());
    assert!(!HttpError::Connection("reset".into()).can_continue());
    assert!(HttpError::NoRoute("/".into()).can_continue());
    assert!(HttpError::Timeout.can_continue());
    assert!(HttpError::Status(StatusCode::from_u16(400)).can_continue());
}

#[test]
fn error_messages() {
    assert_eq!(HttpError::NoRoute("/x".into()).message(), "No route matched path: /x");
    assert_eq!(HttpError::Timeout.message(), "Request timed out");
    assert_eq!(HttpError::Status(StatusCode::from_u16(404)).message(), "HTTP status error: StatusCode(404)");
    assert_eq!(HttpError::Other("x".into()).message(), "HTTP error: x");
    let io = HttpError::Io(std::io::Error::new(std::io::ErrorKind::Other, "boom"));
    assert_eq!(io.message(), "I/O error: boom");
}

#[test]
fn error_responses_use_the_error_status() {
    let e = HttpError::MethodNotAllowed;
    let resp = error_response_from(Some(&e));
    assert_eq!(resp.status().as_u16(), 405);
    assert!(resp.body().contains("<h1>405 Method Not Allowed</h1>"));
    let other = error_response_from(None);
    assert_eq!(other.status().as_u16(), 500);
    assert!(other.body().contains("500 Internal Server Error"));
}

#[test]
fn exchange_decisions() {
    assert_eq!(flow_after(true), ProtocolFlow::Continue);
    assert_eq!(flow_after(false), ProtocolFlow::Close);
    let (resp, flow) = on_no_route(false);
    assert_eq!(resp.status().as_u16(), 404);
    assert_eq!(flow, ProtocolFlow::Close);
    let e = HttpError::NoRoute("/x".into());
    let (resp, flow) = on_handler_error(true, true, Some(&e));
    assert_eq!(resp.unwrap().status().as_u16(), 404);
    assert_eq!(flow, ProtocolFlow::Continue);
    let (resp, flow) = on_handler_error(true, false, None);
    assert!(resp.is_none());
    assert_eq!(flow, ProtocolFlow::Close);
}

#[test]
fn reason_phrases() {
    assert_eq!(StatusCode::from_u16(404).reason_phrase(), "Not Found");
    assert_eq!(StatusCode::from_u16(431).reason_phrase(), "Request Header Fields Too Large");
    assert_eq!(StatusCode::from_u16(799).reason_phrase(), "");
}

#[test]
fn grpc_content_types() {
    assert!(is_grpc_content_type(Some("application/grpc")));
    assert!(is_grpc_content_type(Some("application/grpc+proto")));
    assert!(!is_grpc_content_type(Some("application/json")));
    assert!(!is_grpc_content_type(None));
}

#[test]
fn wire_writer_wraps_its_writer() {
    let mut w = HttpWireWriter::new(vec![1u8]);
    w.inner_mut().push(2);
    assert_eq!(w.inner(), &vec![1u8, 2]);
    assert_eq!(w.into_inner(), vec![1u8, 2]);
}

#[test]
fn http_transport_starts_kept_alive_and_counts_requests() {
    let mut t: HttpTransport<u32> = HttpTransport::new(ProtocolRole::Server, 1, 2);
    assert!(t.should_keep_alive());
    assert_eq!(t.request_count, 0);
    assert_eq!(t.local_addr, Some(1));
    assert_eq!(t.remote_addr, Some(2));
    t.increment_requests();
    t.increment_requests();
    assert_eq!(t.request_count, 2);
}

#[test]
fn http_transport_unbound_then_addresses_set() {
    let mut t: HttpTransport<u32> = HttpTransport::new_unbound(ProtocolRole::Client);
    assert_eq!(t.local_addr, None);
    assert_eq!(t.remote_addr, None);
    let id = t.id();
    t.set_addresses(Some(7), None);
    assert_eq!(t.local_addr, Some(7));
    assert_eq!(t.remote_addr, None);
    t.set_addresses(None, Some(9));
    assert_eq!(t.local_addr, Some(7));
    assert_eq!(t.remote_addr, Some(9));
    assert_eq!(t.id(), id);
}

#[test]
fn http_transport_keep_alive_follows_connection_header() {
    let mut t: HttpTransport<u32> = HttpTransport::new_unbound(ProtocolRole::Server);
    t.update_keep_alive(Some("Close"));
    assert!(!t.should_keep_alive());
    t.update_keep_alive(None);
    assert!(t.should_keep_alive());
    t.update_keep_alive(Some("close"));
    assert!(!t.should_keep_alive());
    t.update_keep_alive(Some("keep-alive"));
    assert!(t.should_keep_alive());
}

#[test]
fn test_transport_keep_alive() {
    let mut transport: HttpTransport<u32> = HttpTransport::new_unbound(ProtocolRole::Server);
    assert!(transport.keep_alive);

    transport.keep_alive = false;
    assert!(!transport.should_keep_alive());
}

#[test]
fn take_request_sets_missing_host_from_context() {
    assert_eq!(outgoing_host(None, Some("example.com")), Some("example.com".to_string()));
}

#[test]
fn take_request_preserves_existing_request_host() {
    assert_eq!(
        outgoing_host(Some("request.example"), Some("context.example")),
        Some("request.example".to_string())
    );
}

#[test]
fn take_request_ignores_empty_context_host() {
    assert_eq!(outgoing_host(None, Some("")), None);
    assert_eq!(outgoing_host(None, None), None);
}

#[test]
fn empty_request_ends_the_serving_loop() {
    assert!(is_empty_request("", 0));
    assert!(!is_empty_request("/", 0));
    assert!(!is_empty_request("", 1));
}

#[test]
fn request_check_reports_the_first_failing_limit() {
    assert!(request_check(true, true, true).is_ok());
    assert!(matches!(request_check(false, false, false), Err(HttpError::PayloadTooLarge)));
    assert!(matches!(request_check(true, false, false), Err(HttpError::MethodNotAllowed)));
    assert!(matches!(request_check(true, true, false), Err(HttpError::UnsupportedMediaType)));
}
