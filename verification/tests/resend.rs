use newsletter::resend::{is_success, json_body, reply_outcome, request_body, send_outcome};

#[test]
fn request_body_without_headers() {
    let body = request_body("Blog <a@x.test>", "b@y.test", "Hi \"there\"", "<p>h</p>", "t\n", &vec![]);
    assert_eq!(
        body,
        r#"{"from":"Blog <a@x.test>","html":"<p>h</p>","subject":"Hi \"there\"","text":"t\n","to":["b@y.test"]}"#
    );
}

#[test]
fn request_body_with_headers() {
    let headers = vec![
        ("List-Unsubscribe".to_string(), "<https://u.test/1>".to_string()),
        ("X-Tag".to_string(), "a\\b".to_string()),
    ];
    let body = request_body("a@x.test", "b@y.test", "S", "H", "T", &headers);
    assert_eq!(
        body,
        r#"{"from":"a@x.test","headers":{"List-Unsubscribe":"<https://u.test/1>","X-Tag":"a\\b"},"html":"H","subject":"S","text":"T","to":["b@y.test"]}"#
    );
    let v: serde_json::Value = serde_json::from_str(&body).unwrap();
    assert_eq!(v["headers"]["X-Tag"], "a\\b");
    assert_eq!(v["to"][0], "b@y.test");
}

#[test]
fn request_body_is_valid_json_for_awkward_text() {
    let body = request_body("a", "b", "tab\there", "ctl\u{1}", "quote\" back\\ nl\n \u{e9}", &vec![]);
    let v: serde_json::Value = serde_json::from_str(&body).unwrap();
    assert_eq!(v["subject"], "tab\there");
    assert_eq!(v["html"], "ctl\u{1}");
    assert_eq!(v["text"], "quote\" back\\ nl\n \u{e9}");
}

#[test]
fn json_body_assembles_given_texts() {
    let headers = vec![("\"k\"".to_string(), "\"v\"".to_string())];
    assert_eq!(
        json_body("\"f\"", "\"t\"", "\"s\"", "\"h\"", "\"x\"", &headers),
        r#"{"from":"f","headers":{"k":"v"},"html":"h","subject":"s","text":"x","to":["t"]}"#
    );
}

#[test]
fn is_success_covers_two_hundreds() {
    assert!(!is_success(199));
    assert!(is_success(200));
    assert!(is_success(299));
    assert!(!is_success(300));
    assert!(!is_success(404));
}

#[test]
fn reply_outcome_cases() {
    assert_eq!(reply_outcome(200, "200 OK", Some("id-1".into()), None), Ok("id-1".to_string()));
    assert_eq!(reply_outcome(200, "200 OK", None, None), Err("resend: HTTP 200 OK".to_string()));
    assert_eq!(
        reply_outcome(422, "422 Unprocessable Entity", Some("id".into()), Some("bad from".into())),
        Err("resend: bad from".to_string())
    );
    assert_eq!(
        reply_outcome(500, "500 Internal Server Error", None, None),
        Err("resend: HTTP 500 Internal Server Error".to_string())
    );
}

#[test]
fn send_outcome_reads_reply_body() {
    assert_eq!(send_outcome(200, "200 OK", br#"{"id":"abc"}"#), Ok("abc".to_string()));
    assert_eq!(send_outcome(200, "200 OK", br#"{}"#), Err("resend: HTTP 200 OK".to_string()));
    assert_eq!(send_outcome(200, "200 OK", br#"{"id":5}"#), Err("resend: HTTP 200 OK".to_string()));
    assert_eq!(
        send_outcome(403, "403 Forbidden", br#"{"message":"API key is invalid","name":"x"}"#),
        Err("resend: API key is invalid".to_string())
    );
    assert_eq!(
        send_outcome(502, "502 Bad Gateway", b"<html>oops</html>"),
        Err("resend: HTTP 502 Bad Gateway".to_string())
    );
    assert_eq!(send_outcome(201, "201 Created", br#"{"id":"x","message":"m"}"#), Ok("x".to_string()));
}

#[test]
fn request_body_sorts_headers_and_keeps_last_value() {
    let headers = vec![
        ("X-B".to_string(), "1".to_string()),
        ("List-Unsubscribe".to_string(), "<u>".to_string()),
        ("X-B".to_string(), "2".to_string()),
        ("X-A".to_string(), "3".to_string()),
    ];
    let body = request_body("f", "t", "s", "h", "x", &headers);
    assert_eq!(
        body,
        r#"{"from":"f","headers":{"List-Unsubscribe":"<u>","X-A":"3","X-B":"2"},"html":"h","subject":"s","text":"x","to":["t"]}"#
    );
}

#[test]
fn request_body_escapes_control_characters() {
    let body = request_body("a", "b", "\u{1}\u{1f}\u{8}\u{c}\r", "\u{7f}\u{e9}", "/", &vec![]);
    assert_eq!(
        body,
        "{\"from\":\"a\",\"html\":\"\u{7f}\u{e9}\",\"subject\":\"\\u0001\\u001f\\b\\f\\r\",\"text\":\"/\",\"to\":[\"b\"]}"
    );
}
