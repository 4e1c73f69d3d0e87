use gpw_uploader::control::{
    backoff, control_next, endpoint, is_accepted, pick_token, refusal_message, reply_body, status_message, ControlNext, Reply,
};
use gpw_uploader::draft::{
    draft_next, draft_progress, draft_reply, error_progress, file_not_found, network_failure,
    preparing_progress, sending_progress, slot_key, trim_quotes, warnings_of, DraftResult, SendNext,
};
use gpw_uploader::json::{field_str, field_u64};

#[test]
fn statuses_have_messages() {
    assert_eq!(status_message(401), "Session expired — log out and log in again.");
    assert_eq!(status_message(403), "Your account is not verified to upload yet.");
    assert_eq!(status_message(409), "You already have a track with this name.");
    assert_eq!(status_message(413), "File too large for the server.");
    assert_eq!(status_message(429), "Too many uploads — try again later.");
    assert_eq!(status_message(500), "Upload failed (HTTP 500).");
    assert_eq!(status_message(0), "Upload failed (HTTP 0).");
}

#[test]
fn routes_are_on_the_site() {
    assert_eq!(endpoint("/api/app/draft-create"), "https://ghostproducerworld.com/api/app/draft-create");
}

#[test]
fn waits_grow() {
    assert_eq!((backoff(1), backoff(2), backoff(3)), (2, 4, 6));
    assert_eq!(backoff(u32::MAX), 8_589_934_590);
}

#[test]
fn success_needs_status_and_body() {
    assert!(is_accepted(200, &reply_body(br#"{"success":true}"#)));
    assert!(is_accepted(299, &reply_body(br#"{"success":true}"#)));
    assert!(!is_accepted(300, &reply_body(br#"{"success":true}"#)));
    assert!(!is_accepted(199, &reply_body(br#"{"success":true}"#)));
    assert!(!is_accepted(200, &reply_body(br#"{"success":false}"#)));
    assert!(!is_accepted(200, &reply_body(br#"{"success":"true"}"#)));
    assert!(!is_accepted(200, &reply_body(b"no json")));
}

#[test]
fn refusals_carry_the_servers_words() {
    assert_eq!(refusal_message(409, &reply_body(br#"{"error":"Taken"}"#)), "Taken");
    assert_eq!(refusal_message(409, &reply_body(br#"{"error":5}"#)), "You already have a track with this name.");
    assert_eq!(refusal_message(502, &reply_body(b"<html>")), "Upload failed (HTTP 502).");
}

#[test]
fn fields_of_replies() {
    let v = reply_body(br#"{"path":"a/b","n":7,"neg":-1,"f":1.5,"big":18446744073709551615}"#);
    assert_eq!(field_str(&v, "path"), "a/b");
    assert_eq!(field_str(&v, "n"), "");
    assert_eq!(field_str(&v, "none"), "");
    assert_eq!(field_u64(&v, "n"), 7);
    assert_eq!(field_u64(&v, "big"), u64::MAX);
    assert_eq!(field_u64(&v, "neg"), 0);
    assert_eq!(field_u64(&v, "f"), 0);
    assert_eq!(field_u64(&v, "path"), 0);
}

#[test]
fn fresh_token_is_preferred() {
    assert_eq!(pick_token(Some("new".to_string()), "old"), "new");
    assert_eq!(pick_token(Some(String::new()), "old"), "old");
    assert_eq!(pick_token(None, "old"), "old");
}

fn answered(status: u16, body: &[u8]) -> Reply {
    Reply::Answered { status, body: reply_body(body) }
}

#[test]
fn answered_calls_end() {
    match control_next(1, answered(200, br#"{"success":true,"x":1}"#)) {
        ControlNext::Answer(v) => assert_eq!(field_u64(&v, "x"), 1),
        _ => panic!("the call succeeded"),
    }
}

#[test]
fn client_errors_are_not_repeated() {
    for status in [400, 401, 404, 409, 499] {
        match control_next(1, answered(status, br#"{"error":"no"}"#)) {
            ControlNext::Failed(e) => assert_eq!((e.status, e.message.as_str()), (status, "no")),
            _ => panic!("{} is final", status),
        }
    }
}

#[test]
fn passing_failures_are_repeated() {
    for status in [429, 500, 503, 302, 200] {
        match control_next(1, answered(status, b"{}")) {
            ControlNext::Again { attempt, wait } => assert_eq!((attempt, wait), (2, 2)),
            _ => panic!("{} may pass", status),
        }
    }
    match control_next(2, Reply::Unreachable { error: "dns".to_string() }) {
        ControlNext::Again { attempt, wait } => assert_eq!((attempt, wait), (3, 4)),
        _ => panic!("a network failure may pass"),
    }
}

#[test]
fn third_failure_is_final() {
    match control_next(3, Reply::Unreachable { error: "dns".to_string() }) {
        ControlNext::Failed(e) => assert_eq!((e.status, e.message.as_str()), (0, "Falha de rede: dns")),
        _ => panic!("no attempt is left"),
    }
    match control_next(3, answered(503, b"")) {
        ControlNext::Failed(e) => assert_eq!((e.status, e.message.as_str()), (503, "Upload failed (HTTP 503).")),
        _ => panic!("no attempt is left"),
    }
}

#[test]
fn accepted_draft_has_its_id() {
    let body = reply_body(br#"{"success":true,"id":"d-1","warnings":["w1",2,"w2"]}"#);
    let r = draft_reply(201, &body);
    assert!(r.ok);
    assert_eq!((r.status, r.id.as_deref(), r.message.as_str()), (201, Some("d-1"), "ok"));
    assert_eq!(r.warnings, vec!["w1".to_string(), "w2".to_string()]);
    // An id that is a number.
    assert_eq!(draft_reply(200, &reply_body(br#"{"success":true,"id":42}"#)).id.as_deref(), Some("42"));
    assert_eq!(draft_reply(200, &reply_body(br#"{"success":true,"id":null}"#)).id.as_deref(), Some("null"));
    assert_eq!(draft_reply(200, &reply_body(br#"{"success":true,"id":true}"#)).id.as_deref(), Some("true"));
    // Quotes inside are escaped, and only those at the ends go.
    assert_eq!(draft_reply(200, &reply_body(br#"{"success":true,"id":"a\"b"}"#)).id.as_deref(), Some("a\\\"b"));
    assert_eq!(draft_reply(200, &reply_body(br#"{"success":true}"#)).id, None);
    let id = |body: &[u8]| draft_reply(200, &reply_body(body)).id.unwrap();
    // Escapes.
    assert_eq!(id(b"{\"success\":true,\"id\":\"a\\n\\u0001\\u001f\\\\\\b\\f\\r\\t\"}"), "a\\n\\u0001\\u001f\\\\\\b\\f\\r\\t");
    // An id that is an array or an object, its members in the order of their names.
    assert_eq!(id(br#"{"success":true,"id":[1, "x", null]}"#), r#"[1,"x",null]"#);
    assert_eq!(id(br#"{"success":true,"id":{"b":1,"a":[true]}}"#), r#"{"a":[true],"b":1}"#);
}

#[test]
fn refused_draft_says_why() {
    let r = draft_reply(409, &reply_body(br#"{"error":"Taken","id":"x","warnings":["w"]}"#));
    assert!(!r.ok);
    assert_eq!((r.status, r.id, r.message.as_str()), (409, None, "Taken"));
    assert_eq!(r.warnings, vec!["w".to_string()]);
    assert_eq!(draft_reply(401, &reply_body(b"")).message, "Session expired — log out and log in again.");
}

#[test]
fn failed_result_is_empty() {
    let r = DraftResult::fail(7, "m".to_string());
    assert!(!r.ok && r.id.is_none() && r.warnings.is_empty());
    assert_eq!((r.status, r.message.as_str()), (7, "m"));
}

#[test]
fn warnings_are_the_strings() {
    assert!(warnings_of(&reply_body(br#"{"warnings":"no list"}"#)).is_empty());
    assert!(warnings_of(&reply_body(b"{}")).is_empty());
}

#[test]
fn quotes_are_trimmed() {
    assert_eq!(trim_quotes("\"\"a\"b\"\""), "a\"b");
    assert_eq!(trim_quotes("\"\""), "");
    assert_eq!(trim_quotes("plain"), "plain");
    assert_eq!(trim_quotes(""), "");
}

#[test]
fn fields_name_slots() {
    assert_eq!(slot_key("file"), "master");
    assert_eq!(slot_key("xf_stems"), "stems");
    assert_eq!(slot_key("cover"), "cover");
    assert_eq!(slot_key("xf_"), "");
    assert_eq!(slot_key("xf_xf_a"), "xf_a");
}

fn unanswered(error: &str) -> Reply {
    Reply::Unreachable { error: error.to_string() }
}

#[test]
fn drafts_are_sent_three_times() {
    match draft_next(1, unanswered("dns"), false) {
        SendNext::Retry { attempt, wait } => assert_eq!((attempt, wait), (2, 2)),
        _ => panic!("attempts are left"),
    }
    match draft_next(3, unanswered("dns"), false) {
        SendNext::GiveUp { message } => assert_eq!(message, "dns"),
        _ => panic!("no attempt is left"),
    }
    match draft_next(1, unanswered("dns"), true) {
        SendNext::GiveUp { message } => assert_eq!(message, "Upload cancelled."),
        _ => panic!("the producer cancelled"),
    }
}

#[test]
fn answered_drafts_are_not_sent_again() {
    for (status, body) in [(200, "{\"success\":true}"), (409, "{}"), (500, ""), (429, "{}")] {
        match draft_next(1, answered(status, body.as_bytes()), false) {
            SendNext::Answered(r) => assert_eq!((r.ok, r.status), (status == 200, status)),
            _ => panic!("{} is an answer", status),
        }
    }
}

#[test]
fn the_window_is_told() {
    let p = preparing_progress();
    assert_eq!((p.stage.as_str(), p.message.as_str()), ("preparing", "Preparing files…"));
    let p = sending_progress(1);
    assert_eq!((p.stage.as_str(), p.message.as_str()), ("uploading", "Uploading to Ghost Producer World…"));
    assert_eq!(sending_progress(2).message, "Network issue — retrying (2/3)…");
    let p = error_progress("bad");
    assert_eq!((p.stage.as_str(), p.message.as_str()), ("error", "bad"));
    let p = draft_progress(&draft_reply(200, &reply_body(br#"{"success":true}"#)));
    assert_eq!((p.stage.as_str(), p.message.as_str()), ("done", "Draft ready — opening the site…"));
    let p = draft_progress(&DraftResult::fail(409, "Taken".to_string()));
    assert_eq!((p.stage.as_str(), p.message.as_str()), ("error", "Taken"));
    assert_eq!(file_not_found("a.wav"), "File not found: a.wav");
    assert_eq!(network_failure("x"), "Falha de rede no upload: x");
}
