use xdf_mcp::auth::{check_request, constant_time_eq, is_authorized};

#[test]
fn equal_bytes_compare_equal() {
    assert!(constant_time_eq(b"token", b"token"));
    assert!(constant_time_eq(b"", b""));
    assert!(!constant_time_eq(b"token", b"tokeN"));
    assert!(!constant_time_eq(b"token", b"tokens"));
    assert!(!constant_time_eq(b"", b"x"));
}

#[test]
fn every_position_counts_in_a_comparison() {
    let a = [7u8; 16];
    for i in 0..16 {
        let mut b = a;
        b[i] ^= 0x80;
        assert!(!constant_time_eq(&a, &b));
        assert!(!constant_time_eq(&b, &a));
    }
}

#[test]
fn the_exact_header_is_let_in() {
    assert!(is_authorized(Some(b"Bearer s3cret"), "s3cret"));
    assert!(check_request(Some(b"Bearer s3cret"), "s3cret").is_ok());
    assert!(is_authorized(Some(b"Bearer a\tb"), "a\tb"));
}

#[test]
fn other_headers_are_refused() {
    assert!(!is_authorized(None, "s3cret"));
    assert!(!is_authorized(Some(b""), "s3cret"));
    assert!(!is_authorized(Some(b"s3cret"), "s3cret"));
    assert!(!is_authorized(Some(b"bearer s3cret"), "s3cret"));
    assert!(!is_authorized(Some(b"Bearer  s3cret"), "s3cret"));
    assert!(!is_authorized(Some(b"Bearer s3cret "), "s3cret"));
    assert!(!is_authorized(Some(b"Basic s3cret"), "s3cret"));
    assert!(!is_authorized(Some(b"Bearer "), "s3cret"));
    assert!(!is_authorized(Some("Bearer 秘密".as_bytes()), "秘密"));
    assert!(!is_authorized(Some(b"Bearer s\x7f"), "s\x7f"));
}

#[test]
fn the_empty_token_must_be_presented_too() {
    assert!(is_authorized(Some(b"Bearer "), ""));
    assert!(!is_authorized(None, ""));
    assert!(!is_authorized(Some(b""), ""));
    assert!(!is_authorized(Some(b"Bearer"), ""));
    assert!(!is_authorized(Some(b"whatever"), ""));
    assert!(!is_authorized(Some(b"Bearer x"), ""));
    match check_request(None, "") {
        Ok(()) => panic!("let in"),
        Err(refusal) => assert_eq!(refusal.status, 401),
    }
}

#[test]
fn a_refused_request_is_answered_with_a_challenge() {
    match check_request(None, "s3cret") {
        Ok(()) => panic!("let in"),
        Err(refusal) => {
            assert_eq!(refusal.status, 401);
            assert_eq!(refusal.www_authenticate, "Bearer realm=\"xdf-mcp\"");
            assert_eq!(refusal.body, "Unauthorized: missing or invalid Bearer token\n");
        }
    }
}
