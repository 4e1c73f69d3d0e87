//! Drafts on the site: what is sent to create one, and what comes of it.

use vstd::prelude::*;
use serde_json::Value;

use crate::control;
use crate::control::{backoff, is_accepted, refusal_message, Reply, ReplyView};
use crate::json;
use crate::json::{member, value_text, JsonView};
use crate::text;
use crate::text::{after_prefix, cat, cat3, chars_of, decimal, same, text_of};

verus! {

/// How often the creation of a draft is tried.
pub const DRAFT_ATTEMPTS: u32 = 3;

/// The route that creates a draft.
pub const DRAFT_PATH: &'static str = "/api/app/draft-create";

/// How many seconds a request that carries a file may take.
pub const UPLOAD_TIMEOUT_SECS: u64 = 1800;

/// A file to attach.
#[derive(Debug, Clone)]
pub struct UploadFile {
    /// The field of the form: "file", "cover", "xf_extended_mp3", ...
    pub field: String,
    /// The absolute path on disk.
    pub path: String,
    /// The file name that is sent.
    pub filename: String,
}

/// Everything that the review screen collected for a draft.
pub struct UploadPayload {
    pub token: String,
    /// The text fields, as (name, value).
    pub fields: Vec<(String, String)>,
    pub files: Vec<UploadFile>,
}

/// The result of creating a draft, or of attaching a file to one.
#[derive(Debug, Clone)]
pub struct DraftResult {
    pub ok: bool,
    pub status: u16,
    /// The id of the draft that was created.
    pub id: Option<String>,
    pub message: String,
    pub warnings: Vec<String>,
}

/// The model of a [`DraftResult`].
#[verifier::ext_equal]
pub struct DraftView {
    pub ok: bool,
    pub status: u16,
    pub id: Option<Seq<char>>,
    pub message: Seq<char>,
    pub warnings: Seq<Seq<char>>,
}

/// The texts of some strings.
pub open spec fn texts(v: Seq<String>) -> Seq<Seq<char>> {
    v.map_values(|s: String| s@)
}

impl View for DraftResult {
    type V = DraftView;

    open spec fn view(&self) -> DraftView {
        DraftView {
            ok: self.ok,
            status: self.status,
            id: match self.id {
                Some(s) => Some(s@),
                None => None,
            },
            message: self.message@,
            warnings: texts(self.warnings@),
        }
    }
}

/// A step of the upload, as the window shows it.
#[derive(Debug, Clone)]
pub struct UploadProgress {
    /// "preparing", "uploading", "done" or "error".
    pub stage: String,
    pub message: String,
}

/// A failed result.
pub open spec fn failure(status: u16, message: Seq<char>) -> DraftView {
    DraftView { ok: false, status, id: None, message, warnings: seq![] }
}

impl DraftResult {
    /// A failed result.
    pub fn fail(status: u16, message: String) -> (r: DraftResult)
        ensures
            r@ == failure(status, message@),
    {
        let r: DraftResult = DraftResult { ok: false, status, id: None, message, warnings: Vec::new() };
        assert(r@.warnings == Seq::<Seq<char>>::empty());
        r
    }
}

/// The upload slot that a form field names: the master goes to its own slot, an
/// extra file to the slot named behind "xf_".
pub open spec fn slot_of(field: Seq<char>) -> Seq<char> {
    if field == "file"@ {
        "master"@
    } else if text::begins(field, "xf_"@) {
        field.skip("xf_"@.len() as int)
    } else {
        field
    }
}

/// The upload slot that a form field names.
pub fn slot_key(field: &str) -> (r: String)
    ensures
        r@ == slot_of(field@),
{
    if same(field, "file") {
        return "master".to_owned();
    }
    match after_prefix(field, "xf_") {
        Some(rest) => {
            assert(rest@ == field@.skip("xf_"@.len() as int));
            rest
        },
        None => field.to_owned(),
    }
}

/// The slot of an extra file is the name behind "xf_", whatever it is, and the
/// master has a slot of its own.
pub proof fn lemma_slot_is_named_by_field(key: Seq<char>)
    ensures
        slot_of("xf_"@ + key) == key,
        slot_of("file"@) == "master"@,
{
    let field = "xf_"@ + key;
    reveal_strlit("xf_");
    reveal_strlit("file");
    assert(field[0] == 'x' && "file"@[0] == 'f');
    assert(field.subrange(0, 3) == "xf_"@);
    assert(field.skip(3) == key);
}

/// The message for a file that is not on disk.
pub open spec fn not_found_text(filename: Seq<char>) -> Seq<char> {
    "File not found: "@ + filename
}

/// The message for a file that is not on disk.
pub fn file_not_found(filename: &str) -> (r: String)
    ensures
        r@ == not_found_text(filename@),
{
    cat("File not found: ", filename)
}

/// The strings among some JSON values, in order.
pub open spec fn strings_among(items: Seq<JsonView>) -> Seq<Seq<char>>
    decreases items.len(),
{
    if items.len() == 0 {
        seq![]
    } else {
        let rest = strings_among(items.drop_last());
        match items.last() {
            JsonView::Text(s) => rest.push(s),
            _ => rest,
        }
    }
}

/// The warnings in a reply: the strings of its array `warnings`.
pub open spec fn warnings_in(body: JsonView) -> Seq<Seq<char>> {
    match json::member_of(body, "warnings"@) {
        Some(JsonView::Array(items)) => strings_among(items),
        _ => seq![],
    }
}

/// The warnings in a reply.
pub fn warnings_of(body: &Value) -> (r: Vec<String>)
    ensures
        texts(r@) == warnings_in(json::json_view(*body)),
{
    let mut out: Vec<String> = Vec::new();
    assert(texts(out@) == Seq::<Seq<char>>::empty());
    match member(body, "warnings") {
        Some(w) => match w.as_array() {
            Some(items) => {
                let ghost all = items@.map_values(|x: Value| json::json_view(x));
                assert(all.take(0) == Seq::<JsonView>::empty());
                let mut i: usize = 0;
                while i < items.len()
                    invariant
                        i <= items@.len(),
                        all == items@.map_values(|x: Value| json::json_view(x)),
                        texts(out@) == strings_among(all.take(i as int)),
                    decreases items@.len() - i,
                {
                    assert(all.take(i + 1).drop_last() == all.take(i as int));
                    assert(all.take(i + 1).last() == json::json_view(items@[i as int]));
                    match items[i].as_str() {
                        Some(s) => {
                            let ghost had = out@;
                            out.push(s.to_owned());
                            assert(texts(out@) == texts(had).push(s@));
                        },
                        None => {},
                    }
                    i += 1;
                }
                assert(all.take(i as int) == all);
                out
            },
            None => out,
        },
        None => out,
    }
}

/// `s` without the quotes at its beginning and its end.
pub open spec fn unquoted(s: Seq<char>) -> Seq<char>
    decreases s.len(),
{
    if s.len() > 0 && s[0] == '"' {
        unquoted(s.drop_first())
    } else if s.len() > 0 && s.last() == '"' {
        unquoted(s.drop_last())
    } else {
        s
    }
}

/// `s` without the quotes at its beginning and its end.
pub fn trim_quotes(s: &str) -> (r: String)
    ensures
        r@ == unquoted(s@),
{
    let chars: Vec<char> = chars_of(s);
    let mut from: usize = 0;
    let mut to: usize = chars.len();
    assert(chars@.subrange(0, chars@.len() as int) == s@);
    while from < to && chars[from] == '"'
        invariant
            from <= to == chars@.len(),
            unquoted(s@) == unquoted(chars@.subrange(from as int, to as int)),
        decreases to - from,
    {
        assert(chars@.subrange(from as int, to as int).drop_first() == chars@.subrange(from + 1, to as int));
        from += 1;
    }
    while from < to && chars[to - 1] == '"'
        invariant
            from <= to <= chars@.len(),
            from < to ==> chars@[from as int] != '"',
            unquoted(s@) == unquoted(chars@.subrange(from as int, to as int)),
        decreases to - from,
    {
        assert(chars@.subrange(from as int, to as int).drop_last() == chars@.subrange(from as int, to - 1));
        to -= 1;
    }
    text_of(&chars, from, to)
}

/// Taking the quotes off a JSON string in which nothing is escaped gives back the
/// text that it stands for.
proof fn lemma_unquoted_plain(s: Seq<char>)
    requires
        json::needs_no_escape(s),
    ensures
        unquoted(json::quoted(s)) == s,
{
    json::lemma_plain_text_is_not_escaped(s);
    let written = json::quoted(s);
    let open = s.push('"');
    assert(written.drop_first() == open);
    assert(open.drop_last() == s);
    assert(unquoted(s) == s);
    assert(unquoted(open) == s) by {
        if s.len() == 0 {
            assert(open.drop_first() == s);
        }
    }
}

/// `text` is how the id `id` is written in JSON, without quotes around it: a
/// string in which nothing is escaped as it is, and null, a truth value or a
/// number as JSON writes it.
pub open spec fn writes_id(text: Seq<char>, id: JsonView) -> bool {
    &&& text == unquoted(json::json_text(id))
    &&& json::scalar_text(id) matches Some(t) ==> text == unquoted(t)
    &&& id matches JsonView::Text(s) ==> json::needs_no_escape(s) ==> text == s
}

/// The id in a reply, in the notation of JSON but without quotes around it.
pub fn id_text(id: &Value) -> (r: String)
    ensures
        writes_id(r@, json::json_view(*id)),
{
    let written: String = value_text(id);
    proof {
        if let JsonView::Text(s) = json::json_view(*id) {
            if json::needs_no_escape(s) {
                lemma_unquoted_plain(s);
            }
        }
    }
    trim_quotes(written.as_str())
}

/// `r` is the result that the reply to a draft creation stands for: an accepted
/// one carries the draft's id, a refused one the server's message.
pub open spec fn reports_draft(r: DraftView, status: u16, body: JsonView) -> bool {
    &&& r.ok == control::accepted(status, body)
    &&& r.status == status
    &&& r.warnings == warnings_in(body)
    &&& if r.ok {
        &&& r.message == "ok"@
        &&& match json::member_of(body, "id"@) {
            Some(id) => r.id is Some && writes_id(r.id->0, id),
            None => r.id is None,
        }
    } else {
        &&& r.message == control::refusal_text(status, body)
        &&& r.id is None
    }
}

/// The result of a draft creation that the server answered.
pub fn draft_reply(status: u16, body: &Value) -> (r: DraftResult)
    ensures
        reports_draft(r@, status, json::json_view(*body)),
{
    let warnings: Vec<String> = warnings_of(body);
    if is_accepted(status, body) {
        let id: Option<String> = match member(body, "id") {
            Some(x) => Some(id_text(x)),
            None => None,
        };
        DraftResult { ok: true, status, id, message: "ok".to_owned(), warnings }
    } else {
        DraftResult { ok: false, status, id: None, message: refusal_message(status, body), warnings }
    }
}

/// What follows an attempt to send a draft.
pub enum SendNext {
    /// The server answered; this is the result.
    Answered(DraftResult),
    /// Another attempt, as number `attempt`, after `wait` seconds.
    Retry { attempt: u32, wait: u64 },
    /// No further attempt; the message is the result.
    GiveUp { message: String },
}

/// `r` is what follows attempt number `attempt` to send a draft.
pub open spec fn follows_send(r: SendNext, attempt: u32, reply: ReplyView, cancelled: bool) -> bool {
    match reply {
        ReplyView::Answered { status, body } => r matches SendNext::Answered(d) && reports_draft(d@, status, body),
        ReplyView::Unreachable { error } => if cancelled {
            r matches SendNext::GiveUp { message } && message@ == "Upload cancelled."@
        } else if attempt < DRAFT_ATTEMPTS {
            r matches SendNext::Retry { attempt: next, wait } && next == attempt + 1 && wait == 2 * attempt
        } else {
            r matches SendNext::GiveUp { message } && message@ == error
        },
    }
}

/// Decides what follows attempt number `attempt` to send a draft. An answer, good
/// or bad, is final; only where none came is the draft sent again, up to
/// [`DRAFT_ATTEMPTS`] times, and not once the producer has cancelled.
pub fn draft_next(attempt: u32, reply: Reply, cancelled: bool) -> (r: SendNext)
    requires
        1 <= attempt <= DRAFT_ATTEMPTS,
    ensures
        follows_send(r, attempt, reply@, cancelled),
{
    match reply {
        Reply::Answered { status, body } => SendNext::Answered(draft_reply(status, &body)),
        Reply::Unreachable { error } => if cancelled {
            SendNext::GiveUp { message: "Upload cancelled.".to_owned() }
        } else if attempt < DRAFT_ATTEMPTS {
            SendNext::Retry { attempt: attempt + 1, wait: backoff(attempt) }
        } else {
            SendNext::GiveUp { message: error }
        },
    }
}

/// The message for a request that got no answer.
pub open spec fn network_text(error: Seq<char>) -> Seq<char> {
    "Falha de rede no upload: "@ + error
}

/// The message for a request that got no answer.
pub fn network_failure(error: &str) -> (r: String)
    ensures
        r@ == network_text(error@),
{
    cat("Falha de rede no upload: ", error)
}

/// `p` shows `stage` and `message`.
pub open spec fn shows(p: UploadProgress, stage: Seq<char>, message: Seq<char>) -> bool {
    p.stage@ == stage && p.message@ == message
}

/// What the window shows for attempt number `attempt` to send a draft.
pub open spec fn sending_text(attempt: u32) -> Seq<char> {
    if attempt == 1 {
        "Uploading to Ghost Producer World…"@
    } else {
        "Network issue — retrying ("@ + text::dec(attempt as nat) + "/"@ + text::dec(
            DRAFT_ATTEMPTS as nat,
        ) + ")…"@
    }
}

/// What the window shows while attempt number `attempt` to send a draft runs.
pub fn sending_progress(attempt: u32) -> (r: UploadProgress)
    ensures
        shows(r, "uploading"@, sending_text(attempt)),
{
    let message: String = if attempt == 1 {
        "Uploading to Ghost Producer World…".to_owned()
    } else {
        let count: String = cat3(
            "Network issue — retrying (",
            decimal(attempt as u64).as_str(),
            "/",
        );
        cat3(count.as_str(), decimal(DRAFT_ATTEMPTS as u64).as_str(), ")…")
    };
    UploadProgress { stage: "uploading".to_owned(), message }
}

/// What the window shows before a draft is sent.
pub fn preparing_progress() -> (r: UploadProgress)
    ensures
        shows(r, "preparing"@, "Preparing files…"@),
{
    UploadProgress { stage: "preparing".to_owned(), message: "Preparing files…".to_owned() }
}

/// What the window shows when the upload failed.
pub fn error_progress(message: &str) -> (r: UploadProgress)
    ensures
        shows(r, "error"@, message@),
{
    UploadProgress { stage: "error".to_owned(), message: message.to_owned() }
}

/// The stage and the message that the window shows for the result of a draft
/// creation.
pub open spec fn shown_after(d: DraftView) -> (Seq<char>, Seq<char>) {
    if d.ok {
        ("done"@, "Draft ready — opening the site…"@)
    } else {
        ("error"@, d.message)
    }
}

/// What the window shows once the server answered a draft creation.
pub fn draft_progress(result: &DraftResult) -> (r: UploadProgress)
    ensures
        shows(r, shown_after(result@).0, shown_after(result@).1),
{
    if result.ok {
        UploadProgress {
            stage: "done".to_owned(),
            message: "Draft ready — opening the site…".to_owned(),
        }
    } else {
        error_progress(result.message.as_str())
    }
}

// ---------------------------------------------------------------------------
// Laws
// ---------------------------------------------------------------------------

/// A field that is neither the master's nor begins with "xf_" names its slot
/// itself.
pub proof fn lemma_other_fields_name_their_slots(field: Seq<char>)
    requires
        field != "file"@,
        forall|rest: Seq<char>| field != #[trigger] ("xf_"@ + rest),
    ensures
        slot_of(field) == field,
{
    if text::begins(field, "xf_"@) {
        text::lemma_begins_means_cut(field, "xf_"@);
    }
}

/// The warnings of a reply are the strings of its array `warnings`, each of them
/// and in order; what is no string is passed over.
pub proof fn lemma_warnings_are_the_strings(items: Seq<JsonView>, m: Map<Seq<char>, JsonView>)
    ensures
        strings_among(items).len() == items.filter(|x: JsonView| x is Text).len(),
        forall|i: int| 0 <= i < strings_among(items).len() ==> JsonView::Text(#[trigger] strings_among(items)[i]) == items.filter(
            |x: JsonView| x is Text,
        )[i],
        m.contains_key("warnings"@) && m["warnings"@] == JsonView::Array(items) ==> warnings_in(JsonView::Object(m)) == strings_among(items),
        !m.contains_key("warnings"@) || !(m["warnings"@] is Array) ==> warnings_in(JsonView::Object(m)).len() == 0,
    decreases items.len(),
{
    reveal(Seq::filter);
    if items.len() > 0 {
        lemma_warnings_are_the_strings(items.drop_last(), m);
    }
}

/// No character but the quote.
pub open spec fn is_all_quotes(s: Seq<char>) -> bool {
    forall|i: int| 0 <= i < s.len() ==> s[i] == '"'
}

/// Taking off the quotes takes off those at the two ends, all of them and nothing
/// else.
pub proof fn lemma_quotes_at_the_ends_go(front: Seq<char>, core: Seq<char>, back: Seq<char>)
    requires
        is_all_quotes(front),
        is_all_quotes(back),
        core.len() > 0 ==> core[0] != '"' && core.last() != '"',
    ensures
        unquoted(front + core + back) == core,
    decreases front.len() + back.len(),
{
    let all = front + core + back;
    if front.len() > 0 {
        assert(all[0] == front[0]);
        assert(all.drop_first() == front.drop_first() + core + back);
        lemma_quotes_at_the_ends_go(front.drop_first(), core, back);
    } else if back.len() > 0 {
        assert(all.last() == back.last());
        if core.len() == 0 {
            assert(all == back);
            assert(all.drop_first() == front + core + back.drop_first());
            lemma_quotes_at_the_ends_go(front, core, back.drop_first());
        } else {
            assert(all[0] == core[0]);
            assert(all.drop_last() == front + core + back.drop_last());
            lemma_quotes_at_the_ends_go(front, core, back.drop_last());
        }
    } else {
        assert(all == core);
    }
}

/// A draft was created exactly where the status is from 200 to 299 and the reply
/// says so. The result then has the id of the reply, if it has one, and else no id
/// and the message of the refusal; status and warnings are those of the reply.
pub proof fn lemma_draft_result_is_that_of_the_reply(r: DraftView, status: u16, m: Map<Seq<char>, JsonView>)
    requires
        reports_draft(r, status, JsonView::Object(m)),
    ensures
        r.ok <==> 200 <= status <= 299 && m.contains_key("success"@) && m["success"@] == JsonView::Bool(true),
        r.status == status,
        r.warnings == warnings_in(JsonView::Object(m)),
        r.ok ==> r.message == "ok"@,
        r.ok ==> (r.id is Some <==> m.contains_key("id"@)),
        r.ok && m.contains_key("id"@) ==> r.id == Some(unquoted(json::json_text(m["id"@]))),
        r.ok && m.contains_key("id"@) ==> (m["id"@] matches JsonView::Text(s) ==> json::needs_no_escape(s) ==> r.id == Some(s)),
        r.ok && m.contains_key("id"@) ==> (m["id"@] matches JsonView::Number(t) ==> r.id == Some(unquoted(t))),
        !r.ok ==> r.id is None && r.message == control::refusal_text(status, JsonView::Object(m)),
{
}

/// A draft is sent up to three times, after 2 and after 4 seconds. An answer is
/// final at any attempt, and so is a cancel, which is told as such.
pub proof fn lemma_draft_is_sent_up_to_three_times(r: SendNext, attempt: u32, error: Seq<char>, cancelled: bool)
    requires
        follows_send(r, attempt, ReplyView::Unreachable { error }, cancelled),
        1 <= attempt <= 3,
    ensures
        DRAFT_ATTEMPTS == 3,
        cancelled ==> (r matches SendNext::GiveUp { message } && message@ == "Upload cancelled."@),
        !cancelled && attempt == 1 ==> r == (SendNext::Retry { attempt: 2, wait: 2 }),
        !cancelled && attempt == 2 ==> r == (SendNext::Retry { attempt: 3, wait: 4 }),
        !cancelled && attempt == 3 ==> (r matches SendNext::GiveUp { message } && message@ == error),
{
}

/// An answered draft is not sent again, whatever the answer, the attempt and the
/// producer say.
pub proof fn lemma_answered_draft_is_not_sent_again(r: SendNext, attempt: u32, status: u16, body: JsonView, cancelled: bool)
    requires
        follows_send(r, attempt, ReplyView::Answered { status, body }, cancelled),
    ensures
        r matches SendNext::Answered(d) && d.status == status && d.ok == control::accepted(status, body),
{
}

/// What the window shows while a draft is sent, and the limits of it.
pub proof fn lemma_what_is_shown_while_sending(attempt: u32)
    ensures
        sending_text(1) == "Uploading to Ghost Producer World…"@,
        attempt != 1 ==> sending_text(attempt) == "Network issue — retrying ("@ + text::dec(attempt as nat) + "/"@ + text::dec(3) + ")…"@,
        DRAFT_PATH@ == "/api/app/draft-create"@,
        UPLOAD_TIMEOUT_SECS == 1800,
{
}

/// What is shown has the stage and the message that it is said to show, and nothing
/// else does.
pub proof fn lemma_what_is_shown(p: UploadProgress, stage: Seq<char>, message: Seq<char>)
    ensures
        shows(p, p.stage@, p.message@),
        shows(p, stage, message) ==> stage == p.stage@ && message == p.message@,
{
}

/// A draft that was created is told as done, whatever its message; the message of
/// any other is told as an error.
pub proof fn lemma_end_of_a_draft_is_told(d: DraftView)
    ensures
        d.ok ==> shown_after(d) == ("done"@, "Draft ready — opening the site…"@),
        !d.ok ==> shown_after(d) == ("error"@, d.message),
{
}

/// The message for a request that got no answer ends with the error.
pub proof fn lemma_network_error_is_told(error: Seq<char>)
    ensures
        network_text(error) == "Falha de rede no upload: "@ + error,
{
}

/// The message for a missing file names the file.
pub proof fn lemma_missing_file_is_named(filename: Seq<char>)
    ensures
        not_found_text(filename) == "File not found: "@ + filename,
        text::ends(not_found_text(filename), filename),
{
    let t = not_found_text(filename);
    text::lemma_ends_means_cut(t, filename);
    assert(t == "File not found: "@ + filename);
}

/// A failed result has no id and no warnings.
pub proof fn lemma_failure_has_nothing_but_its_message(status: u16, message: Seq<char>)
    ensures
        !failure(status, message).ok,
        failure(status, message).status == status,
        failure(status, message).message == message,
        failure(status, message).id is None,
        failure(status, message).warnings.len() == 0,
{
}

} // verus!
