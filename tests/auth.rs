use thunder::auth::{
    admit_request, authorized, base64_decode, basic_secret_of, find_authorization, head_len,
    unauthorized_response,
};

#[test]
fn base64_exact_values() {
    assert_eq!(base64_decode(b"").unwrap(), b"".to_vec());
    assert_eq!(base64_decode(b"TWFu").unwrap(), b"Man".to_vec());
    assert_eq!(base64_decode(b"TWE=").unwrap(), b"Ma".to_vec());
    assert_eq!(base64_decode(b"TQ==").unwrap(), b"M".to_vec());
    assert_eq!(base64_decode(b"OnNlY3JldA==").unwrap(), b":secret".to_vec());
    assert_eq!(base64_decode(b"+/+/").unwrap(), vec![0xfb, 0xff, 0xbf]);
}

#[test]
fn base64_rejects_malformed() {
    assert!(base64_decode(b"TWF").is_none());
    assert!(base64_decode(b"TQ==TWFu").is_none());
    assert!(base64_decode(b"T===").is_none());
    assert!(base64_decode(b"TW!u").is_none());
}

#[test]
fn basic_secret_follows_first_colon() {
    assert_eq!(basic_secret_of(b"Basic OnNlY3JldA==").unwrap(), b"secret".to_vec());
    // "user:pa:ss"
    assert_eq!(basic_secret_of(b"Basic dXNlcjpwYTpzcw==").unwrap(), b"pa:ss".to_vec());
    // "nocolon"
    assert!(basic_secret_of(b"Basic bm9jb2xvbg==").is_none());
    assert!(basic_secret_of(b"Bearer OnNlY3JldA==").is_none());
    assert!(basic_secret_of(b"Basic").is_none());
}

#[test]
fn password_check() {
    let pw = Some("secret".to_string());
    assert!(authorized(&pw, Some(b"Basic OnNlY3JldA==")));
    assert!(!authorized(&pw, Some(b"Basic Om5vcGU=")));
    assert!(!authorized(&pw, None));
    assert!(authorized(&None, None));
}

#[test]
fn serve_without_and_with_credentials() {
    let pw = Some("secret".to_string());
    let bare = b"GET / HTTP/1.1\r\nHost: 127.0.0.1:15055\r\n\r\n";
    assert!(!admit_request(&pw, bare));
    let with = b"GET / HTTP/1.1\r\nHost: 127.0.0.1:15055\r\nauthorization:   Basic OnNlY3JldA==  \r\n\r\n";
    assert!(admit_request(&pw, with));
    assert!(admit_request(&None, bare));
    assert!(unauthorized_response().starts_with("HTTP/1.1 401 "));
    assert!(unauthorized_response().ends_with("\r\n\r\n"));
}

#[test]
fn first_authorization_header_counts() {
    let head = b"GET / HTTP/1.1\r\nAUTHORIZATION: Basic OnNlY3JldA==\r\nAuthorization: other\r\n\r\n";
    assert_eq!(find_authorization(head).unwrap(), b"Basic OnNlY3JldA==".to_vec());
    assert!(find_authorization(b"GET / HTTP/1.1\r\nX-Authorization: a\r\n\r\n").is_none());
}

#[test]
fn head_length() {
    assert_eq!(head_len(b"GET / HTTP/1.1\r\n\r\nbody"), Some(18));
    assert_eq!(head_len(b"GET / HTTP/1.1\r\n"), None);
    assert_eq!(head_len(b"\r\n\r\n"), Some(4));
    assert_eq!(head_len(b""), None);
}
