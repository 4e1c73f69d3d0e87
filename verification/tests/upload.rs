use gpw_uploader::control::{reply_body, Reply};
use gpw_uploader::draft::{DraftResult, UploadFile};
use gpw_uploader::parts::PART_SIZE;
use gpw_uploader::request::Request;
use gpw_uploader::upload::{result_message, Ask, PutEvent, Upload};

fn file(field: &str, name: &str) -> UploadFile {
    UploadFile { field: field.to_string(), path: format!("/x/{}", name), filename: name.to_string() }
}

fn yes(body: &str) -> Reply {
    Reply::Answered { status: 200, body: reply_body(body.as_bytes()) }
}

fn no(status: u16) -> Reply {
    Reply::Answered { status, body: reply_body(b"{}") }
}

/// The route and the body of the request that is asked for.
fn asked(u: &Upload) -> (String, String) {
    match u.ask() {
        Ask::Post(r) => (r.route().to_string(), r.body().to_string()),
        Ask::Put { part, offset, len, url } => (format!("PUT {}", url), format!("{} {} {}", part, offset, len)),
        Ask::Nothing => ("-".to_string(), "-".to_string()),
    }
}

fn urls(first: u32, last: u32) -> String {
    let items: Vec<String> =
        (first..=last).map(|n| format!("{{\"part\":{},\"url\":\"u{}\"}}", n, n)).collect();
    format!("{{\"success\":true,\"urls\":[{}]}}", items.join(","))
}

/// An upload of `total` bytes whose multipart upload is open.
fn opened(total: u64) -> Upload {
    let u = Upload::start("d1", &file("xf_stems", "Stems.zip"), total);
    let (u, _) = u.on_reply(yes(r#"{"success":true}"#), false);
    let (u, _) = u.on_reply(yes(r#"{"success":true,"uploadId":"U","path":"P"}"#), false);
    u
}

fn done(u: Upload) -> Result<DraftResult, String> {
    match u.result() {
        Some(r) => r,
        None => panic!("not finished"),
    }
}

#[test]
fn file_goes_up_in_parts() {
    let total = PART_SIZE * 11 + 5;
    let u = Upload::start("d1", &file("xf_stems", "Stems.zip"), total);
    assert_eq!(u.total(), total);
    let (route, body) = asked(&u);
    assert_eq!(route, "/api/app/draft-file-url");
    assert_eq!(body, r#"{"draft_id":"d1","filename":"Stems.zip","fkey":"stems"}"#);

    let (u, wait) = u.on_reply(yes(r#"{"success":true}"#), false);
    assert_eq!(wait, 0);
    let (route, body) = asked(&u);
    assert_eq!(route, "/api/tracks/upload-multipart");
    assert_eq!(body, r#"{"action":"create","filename":"Stems.zip","fkey":"stems"}"#);

    let (u, _) = u.on_reply(yes(r#"{"success":true,"uploadId":"U","path":"P"}"#), false);
    let (_, body) = asked(&u);
    assert_eq!(body, r#"{"action":"sign","parts":[1,2,3,4,5,6,7,8,9,10],"path":"P","uploadId":"U"}"#);

    let (mut u, _) = u.on_reply(yes(&urls(1, 10)), false);
    for n in 1..=10u64 {
        let (route, body) = asked(&u);
        assert_eq!(route, format!("PUT u{}", n));
        assert_eq!(body, format!("{} {} {}", n, (n - 1) * PART_SIZE, PART_SIZE));
        u = u.on_put(PutEvent::Status(200), false).0;
    }
    let (_, body) = asked(&u);
    assert_eq!(body, r#"{"action":"sign","parts":[11,12],"path":"P","uploadId":"U"}"#);
    let (u, _) = u.on_reply(yes(&urls(11, 12)), false);
    let (u, _) = u.on_put(PutEvent::Status(200), false);
    assert_eq!(asked(&u).1, format!("12 {} 5", 11 * PART_SIZE));
    let (u, _) = u.on_put(PutEvent::Status(204), false);

    let (_, body) = asked(&u);
    assert_eq!(body, r#"{"action":"complete","path":"P","uploadId":"U"}"#);
    let (u, _) = u.on_reply(yes(r#"{"success":true,"parts":12}"#), false);
    let (route, body) = asked(&u);
    assert_eq!(route, "/api/app/draft-file-commit");
    assert_eq!(body, r#"{"draft_id":"d1","fkey":"stems","name":"Stems.zip","path":"P"}"#);
    let (u, _) = u.on_reply(yes(r#"{"success":true}"#), false);
    assert_eq!(asked(&u).0, "-");
    let outcome = done(u);
    assert_eq!(result_message(&outcome), None);
    let r = outcome.unwrap();
    assert!(r.ok && r.id.is_none() && r.warnings.is_empty());
    assert_eq!((r.status, r.message.as_str()), (200, "stems"));
}

#[test]
fn oversized_file_sends_nothing() {
    let u = Upload::start("d1", &file("file", "a.wav"), 1024 * 1024 * 1024 + 1);
    assert!(matches!(u.ask(), Ask::Nothing));
    let r = done(u).unwrap();
    assert_eq!((r.ok, r.status, r.message.as_str()), (false, 413, "a.wav: file too large (max 1GB)."));
    let u = Upload::start("d1", &file("xf_stems", "s.zip"), 2 * 1024 * 1024 * 1024);
    assert!(matches!(u.ask(), Ask::Post(Request::CheckSlot { .. })));
    let u = Upload::start("d1", &file("xf_stems", "s.zip"), 2 * 1024 * 1024 * 1024 + 1);
    assert_eq!(done(u).unwrap().message, "s.zip: file too large (max 2GB).");
}

#[test]
fn empty_file_is_joined_without_parts() {
    let u = opened(0);
    assert_eq!(asked(&u).1, r#"{"action":"complete","path":"P","uploadId":"U"}"#);
    let (u, _) = u.on_reply(yes(r#"{"success":true,"parts":0}"#), false);
    let (u, _) = u.on_reply(yes(r#"{"success":true}"#), false);
    assert!(done(u).unwrap().ok);
}

#[test]
fn refused_slot_ends_the_upload() {
    let u = Upload::start("d1", &file("file", "a.wav"), 10);
    let (u, _) = u.on_reply(no(403), false);
    let outcome = done(u);
    assert_eq!(result_message(&outcome).as_deref(), Some("Your account is not verified to upload yet."));
    let r = outcome.unwrap();
    assert_eq!((r.ok, r.status), (false, 403));
}

#[test]
fn control_calls_are_repeated() {
    let u = Upload::start("d1", &file("file", "a.wav"), 10);
    let (u, wait) = u.on_reply(no(503), false);
    assert_eq!(wait, 2);
    assert_eq!(asked(&u).0, "/api/app/draft-file-url");
    let (u, wait) = u.on_reply(Reply::Unreachable { error: "dns".to_string() }, false);
    assert_eq!(wait, 4);
    let (u, wait) = u.on_reply(no(503), false);
    assert_eq!(wait, 0);
    assert_eq!(done(u).unwrap().status, 503);
}

#[test]
fn incomplete_answer_opens_nothing() {
    let u = Upload::start("d1", &file("file", "a.wav"), 10);
    let (u, _) = u.on_reply(yes(r#"{"success":true}"#), false);
    let (u, _) = u.on_reply(yes(r#"{"success":true,"uploadId":"U"}"#), false);
    let r = done(u).unwrap();
    assert_eq!((r.status, r.message.as_str()), (500, "Upload em pedacos: resposta incompleta do servidor."));
}

/// The message that an aborted upload ends with.
fn aborted(u: Upload) -> (u16, String) {
    assert_eq!(asked(&u).1, r#"{"action":"abort","path":"P","uploadId":"U"}"#);
    let (u, _) = u.on_reply(yes(r#"{"success":true}"#), false);
    let r = done(u).unwrap();
    assert!(!r.ok);
    (r.status, r.message)
}

#[test]
fn missing_signatures_abort() {
    let (u, _) = opened(PART_SIZE * 2).on_reply(yes(&urls(1, 1)), false);
    assert_eq!(aborted(u), (500, "Upload em pedacos: o servidor devolveu assinaturas a menos.".to_string()));
    let (u, _) = opened(10).on_reply(yes(r#"{"success":true}"#), false);
    assert_eq!(aborted(u), (500, "Upload em pedacos: o servidor devolveu assinaturas a menos.".to_string()));
}

#[test]
fn signature_of_another_part_aborts() {
    let (u, _) = opened(PART_SIZE * 2).on_reply(yes(&urls(2, 3)), false);
    assert_eq!(aborted(u), (500, "Upload em pedacos: assinatura invalida.".to_string()));
    let (u, _) = opened(10).on_reply(yes(r#"{"success":true,"urls":[{"part":1,"url":""}]}"#), false);
    assert_eq!(aborted(u), (500, "Upload em pedacos: assinatura invalida.".to_string()));
}

#[test]
fn signature_of_a_part_beyond_counting_aborts() {
    // 1 in its lowest 32 bits, but another number.
    for part in ["4294967297", "18446744073709551615", "0", "-1", "1.0", "\"1\""] {
        let reply = format!("{{\"success\":true,\"urls\":[{{\"part\":{},\"url\":\"u\"}}]}}", part);
        let (u, _) = opened(10).on_reply(yes(&reply), false);
        assert_eq!(aborted(u), (500, "Upload em pedacos: assinatura invalida.".to_string()), "{}", part);
    }
    // The same for a later part of the batch: the part before it is stored.
    let reply = r#"{"success":true,"urls":[{"part":1,"url":"u1"},{"part":4294967298,"url":"u2"}]}"#;
    let (u, _) = opened(PART_SIZE + 1).on_reply(yes(reply), false);
    assert_eq!(asked(&u).0, "PUT u1");
    let (u, _) = u.on_put(PutEvent::Status(200), false);
    assert_eq!(aborted(u), (500, "Upload em pedacos: assinatura invalida.".to_string()));
}

#[test]
fn part_is_sent_three_times() {
    let (u, _) = opened(10).on_reply(yes(&urls(1, 1)), false);
    let (u, wait) = u.on_put(PutEvent::Unreachable { error: "reset".to_string() }, false);
    assert_eq!((wait, asked(&u).1.as_str()), (2, "1 0 10"));
    let (u, wait) = u.on_put(PutEvent::Unreadable { error: "locked".to_string() }, false);
    assert_eq!((wait, asked(&u).1.as_str()), (4, "1 0 10"));
    let (u, wait) = u.on_put(PutEvent::Status(500), false);
    assert_eq!(wait, 0);
    assert_eq!(aborted(u), (500, "Storage rejected a chunk (HTTP 500).".to_string()));
}

#[test]
fn last_failure_of_a_part_is_told() {
    let send = |event: PutEvent| {
        let (mut u, _) = opened(10).on_reply(yes(&urls(1, 1)), false);
        u = u.on_put(PutEvent::Status(429), false).0;
        u = u.on_put(PutEvent::Status(429), false).0;
        aborted(u.on_put(event, false).0)
    };
    assert_eq!(
        send(PutEvent::Unreachable { error: "reset".to_string() }),
        (0, "Falha de rede no upload: reset".to_string())
    );
    assert_eq!(
        send(PutEvent::Unreadable { error: "locked".to_string() }),
        (0, "Stems.zip: falha ao abrir (locked)".to_string())
    );
}

#[test]
fn rejected_part_aborts_at_once() {
    let (u, _) = opened(10).on_reply(yes(&urls(1, 1)), false);
    let (u, _) = u.on_put(PutEvent::Status(400), false);
    assert_eq!(aborted(u), (400, "Storage rejected a chunk (HTTP 400).".to_string()));
}

#[test]
fn expired_signature_is_renewed() {
    let (u, _) = opened(10).on_reply(yes(&urls(1, 1)), false);
    let (u, wait) = u.on_put(PutEvent::Status(403), false);
    assert_eq!(wait, 0);
    assert_eq!(asked(&u).1, r#"{"action":"sign","parts":[1],"path":"P","uploadId":"U"}"#);
    let (u, wait) = u.on_reply(yes(r#"{"success":true,"urls":[{"part":1,"url":"fresh"}]}"#), false);
    assert_eq!(wait, 2);
    assert_eq!(asked(&u), ("PUT fresh".to_string(), "1 0 10".to_string()));
    let (u, _) = u.on_put(PutEvent::Status(404), false);
    let (u, _) = u.on_reply(yes(r#"{"success":true,"urls":[]}"#), false);
    assert_eq!(aborted(u), (404, "Upload em pedacos: assinatura invalida.".to_string()));
}

#[test]
fn resized_file_aborts() {
    let (u, _) = opened(10).on_reply(yes(&urls(1, 1)), false);
    assert!(u.is_resized(Some(11)));
    assert!(!u.is_resized(Some(10)));
    assert!(!u.is_resized(None));
    let (u, _) = u.on_put(PutEvent::Resized, false);
    assert_eq!(
        aborted(u),
        (0, "Stems.zip: file changed during upload — export it again and retry.".to_string())
    );
}

#[test]
fn hole_in_the_joined_file_aborts() {
    let (u, _) = opened(PART_SIZE + 1).on_reply(yes(&urls(1, 2)), false);
    let (u, _) = u.on_put(PutEvent::Status(200), false);
    let (u, _) = u.on_put(PutEvent::Status(200), false);
    let (u, _) = u.on_reply(yes(r#"{"success":true,"parts":1}"#), false);
    assert_eq!(aborted(u), (500, "Upload em pedacos: o servidor juntou 1 de 2 pedacos.".to_string()));
}

#[test]
fn cancelled_upload_discards_its_parts() {
    let (u, _) = opened(PART_SIZE + 1).on_reply(yes(&urls(1, 2)), false);
    let (u, _) = u.on_put(PutEvent::Status(200), false);
    let u = u.poll(true);
    assert_eq!(asked(&u).1, r#"{"action":"abort","path":"P","uploadId":"U"}"#);
    // The abort is carried through although the producer has cancelled.
    let u = u.poll(true);
    let (u, wait) = u.on_reply(no(500), true);
    assert_eq!(wait, 2);
    let u = u.poll(true);
    let (u, _) = u.on_reply(yes(r#"{"success":true}"#), true);
    let outcome = done(u);
    assert_eq!(result_message(&outcome).as_deref(), Some("Upload cancelled."));
    assert_eq!(outcome.unwrap_err(), "Upload cancelled.");
}

#[test]
fn cancelled_stream_is_not_repeated() {
    let (u, _) = opened(10).on_reply(yes(&urls(1, 1)), false);
    let (u, _) = u.on_put(PutEvent::Unreachable { error: "upload cancelled".to_string() }, true);
    assert_eq!(asked(&u).1, r#"{"action":"abort","path":"P","uploadId":"U"}"#);
}

#[test]
fn cancelled_before_anything_is_open() {
    let u = Upload::start("d1", &file("file", "a.wav"), 10).poll(true);
    let outcome = done(u);
    assert_eq!(result_message(&outcome).as_deref(), Some("Upload cancelled."));
    assert_eq!(outcome.unwrap_err(), "Upload cancelled.");
    let (u, _) = Upload::start("d1", &file("file", "a.wav"), 10).on_reply(yes(r#"{"success":true}"#), false);
    assert_eq!(done(u.poll(true)).unwrap_err(), "Upload cancelled.");
}

/// An empty file that waits to be registered in its draft.
fn committing() -> Upload {
    let (u, _) = opened(0).on_reply(yes(r#"{"success":true,"parts":0}"#), false);
    assert_eq!(asked(&u).0, "/api/app/draft-file-commit");
    u
}

#[test]
fn cancelled_before_the_file_is_registered() {
    assert_eq!(done(committing().poll(true)).unwrap_err(), "Upload cancelled.");
    // Refused while the producer cancels.
    let (u, _) = committing().on_reply(no(409), true);
    assert_eq!(done(u).unwrap_err(), "Upload cancelled.");
    let (u, _) = committing().on_reply(no(409), false);
    assert_eq!(done(u).unwrap().status, 409);
    // A file that was registered is registered.
    let (u, _) = committing().on_reply(yes(r#"{"success":true}"#), true);
    assert!(done(u).unwrap().ok);
}

#[test]
fn unasked_events_change_nothing() {
    let u = Upload::start("d1", &file("file", "a.wav"), 10);
    let (u, _) = u.on_put(PutEvent::Status(200), false);
    assert_eq!(asked(&u).0, "/api/app/draft-file-url");
    assert!(u.poll(false).result().is_none());
}
