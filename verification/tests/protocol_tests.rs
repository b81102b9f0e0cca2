use care::protocol::{
    affect_response_ok, format_affect_request, format_affect_response, format_detect_request,
    format_detect_response, format_gather_request, format_gather_response, gather_response_ok,
    handshake_reply_ok, handshake_request_ok, parse_detect_response, parse_request, Request,
    ServeError, HANDSHAKE_RQ, HANDSHAKE_RS,
};
use care::percent::{percent_decode, percent_encode};
use care::paths::{parent_dir, split_effector_path};

#[test]
fn handshake_accepts_exact_reply_only() {
    assert!(handshake_reply_ok(HANDSHAKE_RS));
    assert!(handshake_reply_ok("com.akavel.care.v2.rs\n"));
    assert!(handshake_reply_ok("com.akavel.care.v2.rs\r\n"));
    // Even a prefix match must fail: the reply token plus trailing garbage.
    assert!(!handshake_reply_ok("com.akavel.care.v2.rs-and-more\n"));
    assert!(!handshake_reply_ok("com.akavel.care.v2.rq\n"));
    assert!(!handshake_reply_ok("com.akavel.care.v1.rs\n"));
    assert!(!handshake_reply_ok(""));
}

#[test]
fn handshake_request_is_exact_after_trim() {
    assert!(handshake_request_ok(HANDSHAKE_RQ));
    assert!(handshake_request_ok("com.akavel.care.v2.rq\n"));
    // A differing line must be rejected, even one that merely extends the
    // token.
    assert!(!handshake_request_ok("com.akavel.care.v2.rq trailing"));
    assert!(!handshake_request_ok("com.akavel.care.v2.rq-and-more"));
    assert!(!handshake_request_ok("com.akavel.care.v1.rq"));
}

#[test]
fn percent_encoding_escapes_and_round_trips() {
    let encoded = percent_encode("a b");
    assert_eq!(encoded, "a%20b".to_string());
    assert_eq!(percent_decode(&encoded), Some("a b".to_string()));
    let encoded = percent_encode("etc/motd");
    assert_eq!(encoded, "etc%2Fmotd".to_string());
    assert_eq!(percent_decode(&encoded), Some("etc/motd".to_string()));
    // A lone escape that decodes to bytes that are not UTF-8 is rejected.
    assert_eq!(percent_decode("%ff"), None);
}

#[test]
fn detect_round_trips_through_percent_encoding() {
    // A path containing a space, encoded and sent, decodes on the serving
    // side to the original text.
    let line = format_detect_request("my docs/note 1.txt");
    assert_eq!(line, "detect my%20docs%2Fnote%201.txt".to_string());
    match parse_request(&line) {
        Ok(Request::Detect { path }) => assert_eq!(path, "my docs/note 1.txt".to_string()),
        other => panic!("expected a detect request, got {:?}", result_kind(&other)),
    }
}

#[test]
fn gather_and_affect_requests_carry_two_arguments() {
    let line = format_gather_request("etc/motd", "/shadow/files");
    assert_eq!(line, "gather etc%2Fmotd %2Fshadow%2Ffiles".to_string());
    match parse_request(&line) {
        Ok(Request::Gather { path, shadow_path }) => {
            assert_eq!(path, "etc/motd".to_string());
            assert_eq!(shadow_path, "/shadow/files".to_string());
        }
        other => panic!("expected a gather request, got {:?}", result_kind(&other)),
    }
    let line = format_affect_request("etc/motd", "/shadow/files");
    assert_eq!(line, "affect etc%2Fmotd %2Fshadow%2Ffiles".to_string());
    match parse_request(&line) {
        Ok(Request::Affect { path, shadow_path }) => {
            assert_eq!(path, "etc/motd".to_string());
            assert_eq!(shadow_path, "/shadow/files".to_string());
        }
        other => panic!("expected an affect request, got {:?}", result_kind(&other)),
    }
}

fn result_kind(r: &Result<Request, ServeError>) -> String {
    match r {
        Ok(Request::Detect { .. }) => "detect".to_string(),
        Ok(Request::Gather { .. }) => "gather".to_string(),
        Ok(Request::Affect { .. }) => "affect".to_string(),
        Err(e) => format!("{:?}", e),
    }
}

#[test]
fn parse_request_rejects_each_malformed_line() {
    assert_eq!(
        parse_request("detect").err(),
        Some(ServeError::ExpectedCommandWithArgs)
    );
    assert_eq!(parse_request("bogus x").err(), Some(ServeError::UnknownCommand));
    assert_eq!(
        parse_request("gather onlyone").err(),
        Some(ServeError::ExpectedTwoArguments)
    );
    assert_eq!(
        parse_request("detect %ff").err(),
        Some(ServeError::InvalidArgument)
    );
    assert_eq!(
        parse_request("gather %ff x").err(),
        Some(ServeError::InvalidArgument)
    );
}

#[test]
fn responses_parse_as_the_protocol_demands() {
    assert_eq!(parse_detect_response("detected present\n"), Some(true));
    assert_eq!(parse_detect_response("detected absent\n"), Some(false));
    assert_eq!(parse_detect_response("detected maybe\n"), None);
    assert_eq!(parse_detect_response("gathered\n"), None);
    assert!(gather_response_ok("gathered"));
    assert!(gather_response_ok("gathered\n"));
    assert!(gather_response_ok("gathered etc/motd /shadow"));
    assert!(!gather_response_ok("nope"));
    // A reply whose first token merely extends the verb is a protocol
    // violation.
    assert!(!gather_response_ok("gatheredgarbage"));
    assert!(affect_response_ok("affected with echo"));
    assert!(!affect_response_ok("affectedgarbage"));
    assert!(!affect_response_ok("gathered"));
    assert_eq!(format_detect_response(true), "detected present".to_string());
    assert_eq!(format_detect_response(false), "detected absent".to_string());
    assert_eq!(format_gather_response(), "gathered".to_string());
    assert_eq!(format_affect_response(), "affected".to_string());
}

#[test]
fn split_effector_path_round_trips() {
    let (prefix, subpath) = split_effector_path("files/etc/motd");
    assert_eq!(prefix, "files");
    assert_eq!(subpath, "etc/motd");
    assert_eq!(format!("{}/{}", prefix, subpath), "files/etc/motd");
    let (prefix, subpath) = split_effector_path("pkgs/vim");
    assert_eq!(prefix, "pkgs");
    assert_eq!(subpath, "vim");
}

#[test]
fn parent_dir_strips_the_last_segment() {
    assert_eq!(parent_dir("files/etc/motd"), Some("files/etc"));
    assert_eq!(parent_dir("motd"), None);
}
