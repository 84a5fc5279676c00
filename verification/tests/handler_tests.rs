use termmon::handler::{handle_post, handle_request, handle_request_now, parse_u32, Method};
use termmon::store::CommandStore;

fn fields(pairs: &[(&str, &str)]) -> Vec<(String, String)> {
    pairs.iter().map(|(k, v)| (k.to_string(), v.to_string())).collect()
}

fn form_body(pairs: &[(&str, &str)]) -> String {
    let mut s = url::form_urlencoded::Serializer::new(String::new());
    for (k, v) in pairs {
        s.append_pair(k, v);
    }
    s.finish()
}

#[test]
fn parse_u32_accepts_digits_and_plus() {
    assert_eq!(parse_u32("0"), Some(0));
    assert_eq!(parse_u32("+3"), Some(3));
    assert_eq!(parse_u32("4294967295"), Some(u32::MAX));
}

#[test]
fn parse_u32_rejects_junk() {
    assert_eq!(parse_u32(""), None);
    assert_eq!(parse_u32("+"), None);
    assert_eq!(parse_u32("-1"), None);
    assert_eq!(parse_u32("12a"), None);
    assert_eq!(parse_u32("4294967296"), None);
    assert_eq!(parse_u32(" 7"), None);
}

#[test]
fn post_records_a_command() {
    let mut store = CommandStore::new();
    let f = fields(&[
        ("status", "0"),
        ("pwd", "/home"),
        ("session_id", "s1"),
        ("history", &base64::encode("5 echo foo")),
    ]);
    let r = handle_post(&mut store, &f, 99);
    assert_eq!(r.status, 200);
    assert_eq!(r.body, "");
    let recent = store.get_latest_commands();
    assert_eq!(recent.len(), 1);
    assert_eq!(recent[0].command, "echo foo");
    assert_eq!(recent[0].index, 5);
    assert_eq!(recent[0].pwd, "/home");
    assert_eq!(recent[0].status, 0);
    assert_eq!(recent[0].timestamp, 99);
}

#[test]
fn session_id_is_stored_lowercase() {
    let mut store = CommandStore::new();
    let f = fields(&[
        ("status", "0"),
        ("pwd", "/"),
        ("session_id", "AbC"),
        ("history", &base64::encode("1 ls")),
    ]);
    let r = handle_post(&mut store, &f, 0);
    assert_eq!(r.status, 200);
    assert_eq!(store.get_latest_commands()[0].session_id, "abc");
}

#[test]
fn empty_command_is_a_no_op() {
    let mut store = CommandStore::new();
    let f = fields(&[
        ("status", "0"),
        ("pwd", "/"),
        ("session_id", "s"),
        ("history", &base64::encode("5   ")),
    ]);
    let r = handle_post(&mut store, &f, 0);
    assert_eq!(r.status, 200);
    assert_eq!(r.body, "");
    assert_eq!(store.len(), 0);
}

#[test]
fn non_numeric_status_rejected_store_unchanged() {
    let mut store = CommandStore::new();
    let before = store.len();
    let f = fields(&[
        ("status", "not a number"),
        ("pwd", "/"),
        ("session_id", "s"),
        ("history", &base64::encode("1 ls")),
    ]);
    let r = handle_post(&mut store, &f, 0);
    assert_eq!(r.status, 400);
    assert_eq!(r.body, "status invalid");
    assert_eq!(store.len(), before);
}

#[test]
fn each_missing_field_is_named() {
    let mut store = CommandStore::new();
    let h = base64::encode("1 ls");
    let cases: Vec<(Vec<(String, String)>, &str)> = vec![
        (fields(&[]), "status missing"),
        (fields(&[("status", "0")]), "pwd missing"),
        (fields(&[("status", "0"), ("pwd", "/")]), "session_id missing"),
        (
            fields(&[("status", "0"), ("pwd", "/"), ("session_id", "s")]),
            "history missing",
        ),
        (
            fields(&[("status", "0"), ("pwd", "/"), ("session_id", "s"), ("history", "!!!")]),
            "history invalid",
        ),
        (
            fields(&[("status", "0"), ("pwd", "/"), ("session_id", "s"), ("history", &h), (
                "history",
                &base64::encode("no digits"),
            )]),
            "history invalid",
        ),
    ];
    for (f, want) in cases {
        let r = handle_post(&mut store, &f, 0);
        assert_eq!(r.status, 400);
        assert_eq!(r.body, want);
        assert_eq!(store.len(), 0);
    }
}

#[test]
fn get_on_empty_store_is_one_newline() {
    let mut store = CommandStore::new();
    let r = handle_request(&mut store, Method::Get, "/commands", b"", 0);
    assert_eq!(r.status, 200);
    assert!(r.text_plain);
    assert_eq!(r.body, "\n");
}

#[test]
fn post_then_get_round_trip() {
    let mut store = CommandStore::new();
    let body = form_body(&[
        ("status", "0"),
        ("pwd", "/"),
        ("session_id", "SESSA"),
        ("history", &base64::encode("1 ls -la")),
    ]);
    let r = handle_request(&mut store, Method::Post, "/commands", body.as_bytes(), 5);
    assert_eq!(r.status, 200);
    assert_eq!(r.body, "");
    let g = handle_request(&mut store, Method::Get, "/commands", b"", 6);
    assert_eq!(g.status, 200);
    assert!(g.body.contains("ls -la\n"));
    assert_eq!(g.body, "ls -la\n\n");
}

#[test]
fn get_lists_oldest_of_batch_first() {
    let mut store = CommandStore::new();
    for (i, name) in ["one", "two", "three"].iter().enumerate() {
        let body = form_body(&[
            ("status", "0"),
            ("pwd", "/"),
            ("session_id", "s"),
            ("history", &base64::encode(format!("{} {}", i, name))),
        ]);
        let r = handle_request(&mut store, Method::Post, "/commands", body.as_bytes(), i as i64);
        assert_eq!(r.status, 200);
    }
    let g = handle_request(&mut store, Method::Get, "/commands", b"", 9);
    assert_eq!(g.body, "one\ntwo\nthree\n\n");
}

#[test]
fn percent_encoded_fields_are_decoded() {
    let mut store = CommandStore::new();
    let body = form_body(&[
        ("status", "2"),
        ("pwd", "/tmp/a b+c"),
        ("session_id", "s"),
        ("history", &base64::encode("1 ls")),
    ]);
    let r = handle_request(&mut store, Method::Post, "/commands", body.as_bytes(), 0);
    assert_eq!(r.status, 200);
    let recent = store.get_latest_commands();
    assert_eq!(recent[0].pwd, "/tmp/a b+c");
    assert_eq!(recent[0].status, 2);
}

#[test]
fn other_routes_are_client_errors() {
    let mut store = CommandStore::new();
    let r = handle_request(&mut store, Method::Other, "/commands", b"", 0);
    assert_eq!(r.status, 400);
    assert_eq!(r.body, "error");
    let r2 = handle_request(&mut store, Method::Get, "/nowhere", b"", 0);
    assert_eq!(r2.status, 400);
    assert_eq!(r2.body, "error");
    let r3 = handle_request(&mut store, Method::Post, "/", b"", 0);
    assert_eq!(r3.status, 400);
    assert_eq!(store.len(), 0);
}

#[test]
fn request_now_stamps_server_time() {
    let mut store = CommandStore::new();
    let body = form_body(&[
        ("status", "0"),
        ("pwd", "/"),
        ("session_id", "s"),
        ("history", &base64::encode("1 pwd")),
    ]);
    let r = handle_request_now(&mut store, Method::Post, "/commands", body.as_bytes());
    assert_eq!(r.status, 200);
    assert_eq!(store.get_latest_commands()[0].command, "pwd");
}
