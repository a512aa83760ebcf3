use hotaru::grpc::{
    is_metadata_header, parse_grpc_path, GrpcMessage, GrpcRequest, GrpcResponse, GrpcService,
    GrpcStatus, INVALID_ARGUMENT, NOT_FOUND,
};

#[test]
fn test_grpc_context_path_parsing() {
    let valid_paths = [
        ("/helloworld.Greeter/SayHello", ("helloworld.Greeter", "SayHello")),
        ("/myservice.Calculator/Add", ("myservice.Calculator", "Add")),
        ("/com.example.UserService/GetUser", ("com.example.UserService", "GetUser")),
    ];

    for (path, (expected_service, expected_method)) in valid_paths {
        let (service, method) = parse_grpc_path(path).unwrap();
        assert_eq!(service, expected_service);
        assert_eq!(method, expected_method);
    }
}

#[test]
fn grpc_paths_need_exactly_two_pieces() {
    let err = parse_grpc_path("/a/b/c").unwrap_err();
    assert_eq!(err.code, INVALID_ARGUMENT);
    assert_eq!(err.message, "Invalid gRPC path format");
    assert!(parse_grpc_path("/only").is_err());
    assert_eq!(parse_grpc_path("//svc/m").unwrap(), ("svc".to_string(), "m".to_string()));
}

#[test]
fn test_grpc_message_encoding() {
    let body = vec![1u8, 2, 3, 4, 5];
    let message = GrpcMessage::new(body.clone());
    let mut buf = Vec::new();
    message.encode(&mut buf);
    assert_eq!(buf.len(), 1 + 4 + body.len());
    assert_eq!(buf[0], 0);
    let length = u32::from_be_bytes([buf[1], buf[2], buf[3], buf[4]]);
    assert_eq!(length as usize, body.len());
}

#[test]
fn test_grpc_message_decoding() {
    let mut buf = Vec::new();
    buf.extend_from_slice(&[0]);
    buf.extend_from_slice(&5u32.to_be_bytes());
    buf.extend_from_slice(&[1, 2, 3, 4, 5]);
    let decoded = GrpcMessage::decode(&mut buf);
    assert!(decoded.is_some());
    let message = decoded.unwrap();
    assert_eq!(message.body().unwrap(), &vec![1u8, 2, 3, 4, 5]);
}

#[test]
fn test_grpc_message_incomplete_decoding() {
    let mut buf = vec![0u8, 0, 0];
    let decoded = GrpcMessage::decode(&mut buf);
    assert!(decoded.is_none(), "Should return None for incomplete header");

    let mut buf = Vec::new();
    buf.extend_from_slice(&[0]);
    buf.extend_from_slice(&10u32.to_be_bytes());
    buf.extend_from_slice(&[1, 2, 3, 4, 5]);
    let decoded = GrpcMessage::decode(&mut buf);
    assert!(decoded.is_none(), "Should return None for incomplete body");
    assert_eq!(buf.len(), 10);
}

#[test]
fn test_grpc_message_with_status() {
    let mut message = GrpcMessage::error(3, "Invalid argument");
    assert_eq!(message.grpc_status, Some(3));
    assert_eq!(message.grpc_message, Some("Invalid argument".to_string()));

    message = message.with_status(5, "Not found");
    assert_eq!(message.grpc_status, Some(5));
    assert_eq!(message.grpc_message, Some("Not found".to_string()));
}

#[test]
fn decoding_an_encoded_frame_gives_the_body_back() {
    let message = GrpcMessage::new(vec![9u8; 300]);
    let mut buf = Vec::new();
    message.encode(&mut buf);
    buf.extend_from_slice(&[7, 7]);
    let decoded = GrpcMessage::decode(&mut buf).unwrap();
    assert_eq!(decoded.body, Some(vec![9u8; 300]));
    assert_eq!(buf, vec![7, 7]);
    assert_eq!(u32::from_be_bytes([0, 0, 1, 44]), 300);
}

#[test]
fn messages_without_body_encode_nothing() {
    let mut message = GrpcMessage::error(13, "internal");
    let mut buf = vec![1u8];
    message.encode(&mut buf);
    assert_eq!(buf, vec![1u8]);
    message.set_body(vec![4]);
    assert!(message.body().is_some());
}

#[test]
fn services_accept_their_own_name_only() {
    let service = GrpcService::new("helloworld.Greeter");
    assert!(service.check_service("helloworld.Greeter").is_ok());
    let err = service.check_service("other.Svc").unwrap_err();
    assert_eq!(err.code, NOT_FOUND);
    assert_eq!(err.message, "Service other.Svc not found");
}

#[test]
fn grpc_request_from_parts_reads_service_and_method() {
    let req = GrpcRequest::from_parts(
        "/helloworld.Greeter/SayHello",
        Some("application/grpc+proto"),
        Some(vec![0, 0, 0, 0, 2, 8, 1]),
    )
    .unwrap();
    assert_eq!(req.service, "helloworld.Greeter");
    assert_eq!(req.method, "SayHello");
    assert_eq!(req.payload().unwrap(), vec![8, 1]);
}

#[test]
fn grpc_request_from_parts_refuses_other_content_types() {
    let err = GrpcRequest::from_parts("/a.B/C", Some("application/json"), None).unwrap_err();
    assert_eq!(err.code, INVALID_ARGUMENT);
    assert_eq!(err.message, "Not a gRPC request");
    let err = GrpcRequest::from_parts("/a.B/C", None, None).unwrap_err();
    assert_eq!(err.message, "Not a gRPC request");
    let err = GrpcRequest::from_parts("/only", Some("application/grpc"), None).unwrap_err();
    assert_eq!(err.message, "Invalid gRPC path format");
}

#[test]
fn grpc_request_payload_errors() {
    let req = GrpcRequest::from_parts("/a.B/C", Some("application/grpc"), None).unwrap();
    let err = req.payload().unwrap_err();
    assert_eq!(err.code, INVALID_ARGUMENT);
    assert_eq!(err.message, "No request body");
    let req = GrpcRequest::from_parts("/a.B/C", Some("application/grpc"), Some(vec![0, 0, 0]))
        .unwrap();
    assert_eq!(req.payload().unwrap_err().message, "Invalid gRPC frame");
    let req = GrpcRequest::from_parts("/a.B/C", Some("application/grpc"), Some(vec![0, 0, 0, 0, 0]))
        .unwrap();
    assert_eq!(req.payload().unwrap(), Vec::<u8>::new());
}

#[test]
fn grpc_metadata_headers() {
    assert!(is_metadata_header("x-request-id"));
    assert!(is_metadata_header("authorization"));
    assert!(!is_metadata_header(":path"));
    assert!(!is_metadata_header("content-type"));
    assert!(!is_metadata_header("user-agent"));
}

#[test]
fn grpc_response_frames_message() {
    let mut resp = GrpcResponse {
        status: GrpcStatus { code: 0, message: String::new() },
        body: None,
    };
    resp.set_message(vec![8, 150, 1]);
    assert_eq!(resp.body, Some(vec![0, 0, 0, 0, 3, 8, 150, 1]));
    resp.set_status(GrpcStatus { code: NOT_FOUND, message: "gone".to_string() });
    assert_eq!(resp.status.code, NOT_FOUND);
    assert_eq!(resp.body, Some(vec![0, 0, 0, 0, 3, 8, 150, 1]));
}

#[test]
fn grpc_service_handles_only_its_own_requests() {
    let svc = GrpcService::new("helloworld.Greeter");
    let req = svc
        .handle_request("/helloworld.Greeter/SayHello", Some("application/grpc"), None)
        .unwrap();
    assert_eq!(req.method, "SayHello");
    let err = svc
        .handle_request("/other.Svc/Call", Some("application/grpc"), None)
        .unwrap_err();
    assert_eq!(err.code, NOT_FOUND);
    assert_eq!(err.message, "Service other.Svc not found");
    let err = svc.handle_request("/helloworld.Greeter/SayHello", Some("text/plain"), None).unwrap_err();
    assert_eq!(err.code, INVALID_ARGUMENT);
}

#[test]
fn grpc_framed_response_reads_back_as_request_payload() {
    let mut resp = GrpcResponse {
        status: GrpcStatus { code: 0, message: String::new() },
        body: None,
    };
    let message = vec![10, 5, 104, 101, 108, 108, 111];
    resp.set_message(message.clone());
    let req = GrpcRequest::from_parts("/a.B/C", Some("application/grpc"), resp.body.clone()).unwrap();
    assert_eq!(req.payload().unwrap(), message);
}
