use tunnelclient::bootstrap::{deployed_message, verify_push, PushBinaryRequest};

#[test]
fn test_sha256_mismatch_rejected() {
    let request = PushBinaryRequest {
        sha256: [0u8; 32],
        payload: b"some binary content".to_vec(),
        run_args: vec!["monitor".to_string()],
        stdin_payload: vec![],
    };
    let err = verify_push(&request).unwrap_err();
    assert!(err.contains("SHA-256 mismatch"));
}

#[test]
fn a_request_built_for_a_payload_carries_its_digest() {
    let request = PushBinaryRequest::for_payload(b"hello world".to_vec(), vec!["monitor".to_string()], vec![1, 2, 3]);
    // The well-known SHA-256 of "hello world".
    let expected: [u8; 32] = [
        0xb9, 0x4d, 0x27, 0xb9, 0x93, 0x4d, 0x3e, 0x08, 0xa5, 0x2e, 0x52, 0xd7, 0xda, 0x7d, 0xab, 0xfa,
        0xc4, 0x84, 0xef, 0xe3, 0x7a, 0x53, 0x80, 0xee, 0x90, 0x88, 0xf7, 0xac, 0xe2, 0xef, 0xcd, 0xe9,
    ];
    assert_eq!(request.sha256, expected);
    assert_eq!(request.payload, b"hello world");
    assert_eq!(request.run_args, ["monitor"]);
    assert_eq!(request.stdin_payload, [1, 2, 3]);
    assert_eq!(verify_push(&request), Ok(()));

    let mut tampered = request;
    tampered.payload.push(b'!');
    assert!(verify_push(&tampered).is_err());
}

#[test]
fn a_deployment_is_confirmed_with_the_binary_status() {
    assert_eq!(deployed_message("OK"), "Deployed successfully: OK");
}
