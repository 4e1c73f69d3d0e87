//! The course of an upload, step by step: what each stage asks for, and where each
//! answer leads. An upload whose every request is answered well succeeds.

use vstd::prelude::*;

use crate::control;
use crate::control::{ApiErrorView, ReplyView};
use crate::draft;
use crate::draft::DraftView;
use crate::json;
use crate::json::JsonView;
use crate::parts;
use crate::request::RequestView;
use crate::text;
use crate::upload;
use crate::upload::{AskView, PutEventView, SignedPartView, StageView, TargetView, UploadView};
use crate::upload_laws;
use crate::upload_laws::Event;

verus! {

/// The number of parts of 64 MiB that hold `total` bytes.
pub open spec fn parts_needed(total: int) -> int {
    (total + 67_108_863) / 67_108_864
}

/// `v` is `u` at the stage `stage`: what the upload is about, and what is stored,
/// has not changed.
pub open spec fn is_at(v: UploadView, u: UploadView, stage: StageView) -> bool {
    &&& v.stage == stage
    &&& v.draft_id == u.draft_id
    &&& v.fkey == u.fkey
    &&& v.filename == u.filename
    &&& v.total == u.total
    &&& v.stored == u.stored
}

/// `v` is `u`, ended: as cancelled where the producer has cancelled, else with the
/// failure.
pub open spec fn has_failed(v: UploadView, u: UploadView, status: u16, message: Seq<char>, cancelled: bool) -> bool {
    if cancelled {
        is_at(v, u, StageView::Finished { outcome: Err("Upload cancelled."@) })
    } else {
        is_at(
            v,
            u,
            StageView::Finished {
                outcome: Ok(DraftView { ok: false, status, id: None, message, warnings: Seq::empty() }),
            },
        )
    }
}

/// `v` is `u`, beginning to discard its parts because of a failure.
pub open spec fn is_discarding(v: UploadView, u: UploadView, target: TargetView, status: u16, message: Seq<char>) -> bool {
    is_at(v, u, StageView::Aborting { target, error: ApiErrorView { status, message }, attempt: 1 })
}

// ---------------------------------------------------------------------------
// The beginning, and what is asked for
// ---------------------------------------------------------------------------

/// An upload begins with the check of its slot, unless the file is larger than the
/// slot takes: 2 GiB of stems, 1 GiB of anything else.
pub proof fn lemma_beginning(draft_id: Seq<char>, field: Seq<char>, filename: Seq<char>, total: u64)
    ensures
        ({
            let u = upload::begun(draft_id, field, filename, total);
            let stems = draft::slot_of(field) == "stems"@;
            let fits = total <= if stems {
                2_147_483_648u64
            } else {
                1_073_741_824u64
            };
            &&& u.draft_id == draft_id && u.fkey == draft::slot_of(field) && u.filename == filename
            &&& u.total == total && u.stored == 0
            &&& fits ==> u.stage == (StageView::Checking { attempt: 1 })
            &&& !fits ==> has_failed(
                u,
                u,
                413,
                filename + ": file too large (max "@ + if stems {
                    "2GB"@
                } else {
                    "1GB"@
                } + ")."@,
                false,
            )
        }),
{
}

/// A file has as many parts as are needed.
pub proof fn lemma_count_of_parts(u: UploadView)
    ensures
        u.count() == parts_needed(u.total as int),
        upload::SIGN_BATCH == 10,
        upload::PART_ATTEMPTS == 3,
{
}

/// What each stage asks for.
pub proof fn lemma_requests_of_the_stages(u: UploadView)
    ensures
        u.stage is Checking ==> upload::ask_of(u) == AskView::Post(
            RequestView::CheckSlot { draft_id: u.draft_id, fkey: u.fkey, filename: u.filename },
        ),
        u.stage is Creating ==> upload::ask_of(u) == AskView::Post(RequestView::Create { fkey: u.fkey, filename: u.filename }),
        u.stage matches StageView::Completing { target, .. } ==> upload::ask_of(u) == AskView::Post(
            RequestView::Complete { path: target.path, upload_id: target.upload_id },
        ),
        u.stage matches StageView::Aborting { target, .. } ==> upload::ask_of(u) == AskView::Post(
            RequestView::Abort { path: target.path, upload_id: target.upload_id },
        ),
        u.stage matches StageView::Committing { path, .. } ==> upload::ask_of(u) == AskView::Post(
            RequestView::Commit { draft_id: u.draft_id, fkey: u.fkey, path, name: u.filename },
        ),
        u.stage matches StageView::Resigning { target, .. } ==> u.stored < 0xFFFF_FFFF ==> (upload::ask_of(u) matches AskView::Post(
            RequestView::Sign { path, upload_id, parts: numbers },
        ) && path == target.path && upload_id == target.upload_id && numbers.len() == 1 && numbers[0] == u.stored + 1),
        u.stage is Finished ==> upload::ask_of(u) is Nothing,
{
}

/// Signatures are asked for, of the upload that is open, for the parts behind the
/// stored ones: ten of them, or as many as are left.
pub proof fn lemma_signatures_of_the_next_parts(u: UploadView, target: TargetView, attempt: u32)
    requires
        u.wf(),
        u.stage == (StageView::Signing { target, attempt }),
    ensures
        upload::ask_of(u) matches AskView::Post(RequestView::Sign { path, upload_id, parts: numbers }) && {
            let left = parts_needed(u.total as int) - u.stored;
            &&& path == target.path && upload_id == target.upload_id
            &&& numbers.len() == if left < 10 {
                left
            } else {
                10
            }
            &&& forall|i: int| 0 <= i < numbers.len() ==> #[trigger] numbers[i] == u.stored + 1 + i
        },
{
    parts::lemma_slot_fits_server(u.fkey, u.total as int);
}

/// A part is sent to its URL with its bytes: 64 MiB from its place on, or what is
/// left of the file.
pub proof fn lemma_part_is_sent(u: UploadView)
    requires
        u.wf(),
        u.stage is Putting,
    ensures
        u.stage matches StageView::Putting { url: to, .. } && (upload::ask_of(u) matches AskView::Put { url, part, offset, len } && {
            &&& url == to
            &&& part == u.stored + 1
            &&& offset == u.stored * 67_108_864
            &&& offset < u.total
            &&& len == if u.total - offset < 67_108_864 {
                u.total - offset
            } else {
                67_108_864
            }
        }),
{
    upload_laws::lemma_part_goes_with_its_bytes(u);
    parts::lemma_parts_tile(u.total as int, u.stored + 1);
}

// ---------------------------------------------------------------------------
// Good answers
// ---------------------------------------------------------------------------

/// A slot that takes the file leads to the opening of a multipart upload.
pub proof fn lemma_checked_slot_is_used(u: UploadView, status: u16, body: JsonView, cancelled: bool)
    requires
        u.wf(),
        u.stage is Checking,
        control::accepted(status, body),
    ensures
        ({
            let (v, wait) = upload::reply_step(u, ReplyView::Answered { status, body }, cancelled);
            is_at(v, u, StageView::Creating { attempt: 1 }) && wait == 0
        }),
{
}

/// An opened upload goes on with its signatures, or is joined at once where the
/// file is empty; an answer without the id or the path of the upload is a failure.
pub proof fn lemma_opened_upload_goes_on(u: UploadView, status: u16, body: JsonView, cancelled: bool)
    requires
        u.wf(),
        u.stage is Creating,
        control::accepted(status, body),
    ensures
        ({
            let (v, wait) = upload::reply_step(u, ReplyView::Answered { status, body }, cancelled);
            let target = TargetView { path: json::str_field(body, "path"@), upload_id: json::str_field(body, "uploadId"@) };
            &&& wait == 0
            &&& target.path.len() == 0 || target.upload_id.len() == 0 ==> has_failed(
                v,
                u,
                500,
                "Upload em pedacos: resposta incompleta do servidor."@,
                cancelled,
            )
            &&& target.path.len() > 0 && target.upload_id.len() > 0 && u.total > 0 ==> is_at(v, u, StageView::Signing { target, attempt: 1 })
            &&& target.path.len() > 0 && target.upload_id.len() > 0 && u.total == 0 ==> is_at(v, u, StageView::Completing { target, attempt: 1 })
        }),
{
    lemma_count_of_parts(u);
}

/// `items` are signatures of the parts from `first` on, with URLs.
pub open spec fn are_signatures_from(items: Seq<JsonView>, first: int) -> bool {
    forall|i: int|
        0 <= i < items.len() ==> json::int_field(#[trigger] items[i], "part"@) == first + i && json::str_field(items[i], "url"@).len() > 0
}

/// `urls` are signatures of the parts from `first` on, with URLs.
pub open spec fn lead_on_from(urls: Seq<SignedPartView>, first: int) -> bool {
    forall|i: int| 0 <= i < urls.len() ==> (#[trigger] urls[i]).part == first + i && urls[i].url.len() > 0
}

/// The signatures that were asked for lead to the sending of the first part; those
/// of the others are kept in order, each for its own part.
pub proof fn lemma_signatures_are_used(u: UploadView, target: TargetView, attempt: u32, status: u16, body: JsonView, items: Seq<JsonView>, cancelled: bool)
    requires
        u.wf(),
        u.stage == (StageView::Signing { target, attempt }),
        control::accepted(status, body),
        json::member_of(body, "urls"@) == Some(JsonView::Array(items)),
        items.len() == if parts_needed(u.total as int) - u.stored < 10 {
            parts_needed(u.total as int) - u.stored
        } else {
            10
        },
        are_signatures_from(items, u.stored + 1),
    ensures
        ({
            let (v, wait) = upload::reply_step(u, ReplyView::Answered { status, body }, cancelled);
            &&& wait == 0
            &&& v.stage matches StageView::Putting { target: t, urls, url, attempt: a }
            &&& is_at(v, u, v.stage)
            &&& t == target && a == 1
            &&& url == json::str_field(items[0], "url"@)
            &&& urls.len() == items.len() - 1
            &&& lead_on_from(urls, u.stored + 2)
            &&& forall|i: int| 0 <= i < urls.len() ==> (#[trigger] urls[i]).url == json::str_field(items[i + 1], "url"@)
        }),
{
    parts::lemma_slot_fits_server(u.fkey, u.total as int);
    let signed = upload::signatures_in(body);
    assert forall|i: int| 0 <= i < items.len() implies (#[trigger] signed[i]).part == u.stored + 1 + i && signed[i].url == json::str_field(items[i], "url"@) by {
        assert(signed[i] == upload::signature_in(items[i]));
        assert(json::int_field(items[i], "part"@) == u.stored + 1 + i);
    }
    let urls = signed.drop_first();
    assert forall|i: int| 0 <= i < urls.len() implies (#[trigger] urls[i]).part == u.stored + 2 + i && urls[i].url == json::str_field(items[i + 1], "url"@) && urls[i].url.len() > 0 by {
        assert(urls[i] == signed[i + 1]);
        assert(json::str_field(items[i + 1], "url"@).len() > 0);
    }
}

/// A signature is read as it stands: one whose member `part` is an integer `n` is
/// for part `n`, whatever the number, and its URL is its member `url`. A number that
/// no part can have stands for none.
pub proof fn lemma_signature_is_read_as_it_stands(m: Map<Seq<char>, JsonView>, n: u64, url: Seq<char>)
    requires
        m.contains_key("part"@),
        m["part"@] == JsonView::Number(text::dec(n as nat)),
        m.contains_key("url"@),
        m["url"@] == JsonView::Text(url),
    ensures
        upload::signature_in(JsonView::Object(m)).url == url,
        n <= 0xFFFF_FFFF ==> upload::signature_in(JsonView::Object(m)).part == n,
        n > 0xFFFF_FFFF ==> upload::signature_in(JsonView::Object(m)).part == 0,
{
    json::lemma_integer_members_are_read(m, "part"@, n);
    json::lemma_string_members_are_read(m, "url"@, url);
}

/// Every item of the list is a signature, in order; a reply without a list has none.
pub proof fn lemma_signatures_of_a_reply(body: JsonView, items: Seq<JsonView>)
    ensures
        json::member_of(body, "urls"@) == Some(JsonView::Array(items)) ==> {
            &&& upload::signatures_in(body).len() == items.len()
            &&& forall|i: int| 0 <= i < items.len() ==> #[trigger] upload::signatures_in(body)[i] == upload::signature_in(items[i])
        },
        json::member_of(body, "urls"@) is None ==> upload::signatures_in(body).len() == 0,
        json::member_of(body, "urls"@) matches Some(list) ==> !(list is Array) ==> upload::signatures_in(body).len() == 0,
{
}

/// Too few or too many signatures, a first one for another part, and a first one
/// without a URL have the parts discarded.
pub proof fn lemma_unusable_signatures(u: UploadView, target: TargetView, attempt: u32, status: u16, body: JsonView, cancelled: bool)
    requires
        u.wf(),
        u.stage == (StageView::Signing { target, attempt }),
        control::accepted(status, body),
    ensures
        ({
            let (v, wait) = upload::reply_step(u, ReplyView::Answered { status, body }, cancelled);
            let signed = upload::signatures_in(body);
            let left = parts_needed(u.total as int) - u.stored;
            let wanted = if left < 10 {
                left
            } else {
                10
            };
            &&& signed.len() != wanted ==> is_discarding(
                v,
                u,
                target,
                500,
                "Upload em pedacos: o servidor devolveu assinaturas a menos."@,
            ) && wait == 0
            &&& signed.len() == wanted && (signed[0].part != u.stored + 1 || signed[0].url.len() == 0) ==> is_discarding(
                v,
                u,
                target,
                500,
                "Upload em pedacos: assinatura invalida."@,
            ) && wait == 0
        }),
{
    lemma_count_of_parts(u);
}

/// A stored part is followed by the next one of the batch, then by the next batch,
/// and the last part by the joining.
pub proof fn lemma_stored_part_is_followed_by_the_next(u: UploadView, target: TargetView, urls: Seq<SignedPartView>, url: Seq<char>, attempt: u32, status: u16, cancelled: bool)
    requires
        u.wf(),
        u.stage == (StageView::Putting { target, urls, url, attempt }),
        200 <= status <= 299,
    ensures
        ({
            let (v, wait) = upload::put_step(u, PutEventView::Status(status), cancelled);
            let stored = (u.stored + 1) as u32;
            let next = UploadView { stored, ..u };
            &&& wait == 0
            &&& v.stored == u.stored + 1
            &&& urls.len() > 0 && urls[0].part == u.stored + 2 && urls[0].url.len() > 0 ==> is_at(
                v,
                next,
                StageView::Putting { target, urls: urls.skip(1), url: urls[0].url, attempt: 1 },
            )
            &&& urls.len() > 0 && (urls[0].part != u.stored + 2 || urls[0].url.len() == 0) ==> is_discarding(
                v,
                next,
                target,
                500,
                "Upload em pedacos: assinatura invalida."@,
            )
            &&& urls.len() == 0 && u.stored + 1 < parts_needed(u.total as int) ==> is_at(v, next, StageView::Signing { target, attempt: 1 })
            &&& urls.len() == 0 && u.stored + 1 == parts_needed(u.total as int) ==> is_at(v, next, StageView::Completing { target, attempt: 1 })
        }),
{
    parts::lemma_slot_fits_server(u.fkey, u.total as int);
    assert(urls.skip(1) == urls.drop_first());
}

/// Joined parts are registered where there are as many as the file has; else the
/// message tells both numbers.
pub proof fn lemma_joined_parts_are_registered(u: UploadView, target: TargetView, attempt: u32, status: u16, body: JsonView, cancelled: bool)
    requires
        u.wf(),
        u.stage == (StageView::Completing { target, attempt }),
        control::accepted(status, body),
    ensures
        ({
            let (v, wait) = upload::reply_step(u, ReplyView::Answered { status, body }, cancelled);
            let joined = json::int_field(body, "parts"@);
            let count = parts_needed(u.total as int);
            &&& wait == 0
            &&& joined == count ==> is_at(v, u, StageView::Committing { path: target.path, attempt: 1 })
            &&& joined != count ==> is_discarding(
                v,
                u,
                target,
                500,
                "Upload em pedacos: o servidor juntou "@ + text::dec(joined as nat) + " de "@ + text::dec(count as nat) + " pedacos."@,
            )
        }),
{
}

/// A registered file is the end of the upload, and its slot is the message.
pub proof fn lemma_registered_file_is_the_end(u: UploadView, status: u16, body: JsonView, cancelled: bool)
    requires
        u.wf(),
        u.stage is Committing,
        control::accepted(status, body),
    ensures
        is_at(
            upload::reply_step(u, ReplyView::Answered { status, body }, cancelled).0,
            u,
            StageView::Finished {
                outcome: Ok(DraftView { ok: true, status: 200, id: None, message: u.fkey, warnings: Seq::empty() }),
            },
        ),
        upload::reply_step(u, ReplyView::Answered { status, body }, cancelled).1 == 0,
{
}

/// A new signature is used for the part whose old one had expired, as its next
/// attempt; after the third attempt, or without a URL, the parts are discarded.
pub proof fn lemma_new_signature_is_used(
    u: UploadView,
    target: TargetView,
    urls: Seq<SignedPartView>,
    rejected: u16,
    put_attempt: u32,
    attempt: u32,
    status: u16,
    body: JsonView,
    items: Seq<JsonView>,
    cancelled: bool,
)
    requires
        u.wf(),
        u.stage == (StageView::Resigning { target, urls, rejected, put_attempt, attempt }),
        control::accepted(status, body),
        match json::member_of(body, "urls"@) {
            Some(JsonView::Array(list)) => list == items,
            _ => items.len() == 0,
        },
    ensures
        ({
            let (v, wait) = upload::reply_step(u, ReplyView::Answered { status, body }, cancelled);
            let url = json::str_field(items[0], "url"@);
            let usable = items.len() > 0 && url.len() > 0;
            &&& usable && put_attempt == 1 ==> is_at(v, u, StageView::Putting { target, urls, url, attempt: 2 }) && wait == 2
            &&& usable && put_attempt == 2 ==> is_at(v, u, StageView::Putting { target, urls, url, attempt: 3 }) && wait == 4
            &&& usable && put_attempt == 3 ==> is_discarding(
                v,
                u,
                target,
                rejected,
                "Storage rejected a chunk (HTTP "@ + text::dec(rejected as nat) + ")."@,
            )
            &&& !usable ==> is_discarding(v, u, target, rejected, "Upload em pedacos: assinatura invalida."@)
            &&& !usable || put_attempt == 3 ==> wait == 0
        }),
{
    let signed = upload::signatures_in(body);
    if items.len() > 0 {
        assert(signed[0] == upload::signature_in(items[0]));
    }
}

// ---------------------------------------------------------------------------
// Bad answers
// ---------------------------------------------------------------------------

/// The reply is no success, and repeating the call may help: no answer came, or
/// the status is none from 400 to 499 but 429.
pub open spec fn may_pass(reply: ReplyView) -> bool {
    match reply {
        ReplyView::Answered { status, body } => !control::accepted(status, body) && (status < 400 || status > 499 || status == 429),
        ReplyView::Unreachable { .. } => true,
    }
}

/// The failure that a reply without success stands for.
pub open spec fn failure_of(reply: ReplyView) -> ApiErrorView {
    match reply {
        ReplyView::Answered { status, body } => ApiErrorView { status, message: control::refusal_text(status, body) },
        ReplyView::Unreachable { error } => ApiErrorView { status: 0, message: "Falha de rede: "@ + error },
    }
}

/// A call that may succeed later is made again, up to three times: the same is
/// asked, after 2 seconds and then after 4, and nothing else changes.
pub proof fn lemma_same_call_is_made_again(u: UploadView, reply: ReplyView, cancelled: bool, attempt: u32)
    requires
        u.wf(),
        upload::call_attempt(u.stage) == Some(attempt),
        attempt < 3,
        may_pass(reply),
    ensures
        ({
            let (v, wait) = upload::reply_step(u, reply, cancelled);
            &&& wait == 2 * attempt
            &&& upload::call_attempt(v.stage) == Some((attempt + 1) as u32)
            &&& upload::ask_of(v) == upload::ask_of(u)
            &&& is_at(v, u, v.stage)
            &&& u.stage matches StageView::Aborting { target, error, .. } ==> v.stage == (StageView::Aborting { target, error, attempt: (attempt + 1) as u32 })
            &&& u.stage matches StageView::Resigning { target, urls, rejected, put_attempt, .. } ==> v.stage == (StageView::Resigning {
                target,
                urls,
                rejected,
                put_attempt,
                attempt: (attempt + 1) as u32,
            })
            &&& u.stage matches StageView::Signing { target, .. } ==> v.stage == (StageView::Signing { target, attempt: (attempt + 1) as u32 })
            &&& u.stage matches StageView::Completing { target, .. } ==> v.stage == (StageView::Completing { target, attempt: (attempt + 1) as u32 })
        }),
{
}

/// A call that fails for good, by a status that repeating does not change or at its
/// third attempt, ends the upload with that failure where nothing is open, and else
/// has the parts discarded first. A failed abort changes nothing of the failure
/// that led to it.
pub proof fn lemma_failed_call(u: UploadView, reply: ReplyView, cancelled: bool, attempt: u32)
    requires
        u.wf(),
        upload::call_attempt(u.stage) == Some(attempt),
        match reply {
            ReplyView::Answered { status, body } => !control::accepted(status, body),
            ReplyView::Unreachable { .. } => true,
        },
        attempt == 3 || !may_pass(reply),
    ensures
        ({
            let (v, wait) = upload::reply_step(u, reply, cancelled);
            let e = failure_of(reply);
            &&& wait == 0
            &&& u.stage is Checking || u.stage is Creating || u.stage is Committing ==> has_failed(v, u, e.status, e.message, cancelled)
            &&& u.stage matches StageView::Signing { target, .. } ==> is_discarding(v, u, target, e.status, e.message)
            &&& u.stage matches StageView::Resigning { target, .. } ==> is_discarding(v, u, target, e.status, e.message)
            &&& u.stage matches StageView::Completing { target, .. } ==> is_discarding(v, u, target, e.status, e.message)
            &&& u.stage matches StageView::Aborting { error, .. } ==> has_failed(v, u, error.status, error.message, cancelled)
        }),
{
}

/// Discarded parts are the end of the upload, which tells the failure that led to
/// it.
pub proof fn lemma_discarded_parts_are_the_end(u: UploadView, target: TargetView, error: ApiErrorView, attempt: u32, status: u16, body: JsonView, cancelled: bool)
    requires
        u.wf(),
        u.stage == (StageView::Aborting { target, error, attempt }),
        control::accepted(status, body),
    ensures
        has_failed(
            upload::reply_step(u, ReplyView::Answered { status, body }, cancelled).0,
            u,
            error.status,
            error.message,
            cancelled,
        ),
        upload::reply_step(u, ReplyView::Answered { status, body }, cancelled).1 == 0,
{
}

/// The failure that an event of a part stands for.
pub open spec fn part_failure_of(u: UploadView, event: PutEventView) -> ApiErrorView {
    match event {
        PutEventView::Resized => ApiErrorView {
            status: 0,
            message: u.filename + ": file changed during upload — export it again and retry."@,
        },
        PutEventView::Unreadable { error } => ApiErrorView {
            status: 0,
            message: u.filename + ": falha ao abrir ("@ + error + ")"@,
        },
        PutEventView::Unreachable { error } => ApiErrorView { status: 0, message: "Falha de rede no upload: "@ + error },
        PutEventView::Status(status) => ApiErrorView {
            status,
            message: "Storage rejected a chunk (HTTP "@ + text::dec(status as nat) + ")."@,
        },
    }
}

/// A part that was not stored is sent again where that may help: after 2 seconds
/// and then after 4, to the same URL and with the same bytes. The third failure,
/// and one that repeating does not change, has the parts discarded.
pub proof fn lemma_part_that_was_not_stored(
    u: UploadView,
    target: TargetView,
    urls: Seq<SignedPartView>,
    url: Seq<char>,
    attempt: u32,
    event: PutEventView,
    cancelled: bool,
)
    requires
        u.wf(),
        u.stage == (StageView::Putting { target, urls, url, attempt }),
        event matches PutEventView::Status(status) ==> status < 200 || status > 299,
        !(cancelled && event is Unreachable),
    ensures
        ({
            let (v, wait) = upload::put_step(u, event, cancelled);
            let e = part_failure_of(u, event);
            let expired = event matches PutEventView::Status(status) && (status == 403 || status == 404);
            let hopeless = event is Resized || (event matches PutEventView::Status(status) && 400 <= status <= 499 && status != 429);
            &&& expired ==> is_at(
                v,
                u,
                StageView::Resigning { target, urls, rejected: e.status, put_attempt: attempt, attempt: 1 },
            ) && wait == 0
            &&& !expired && hopeless ==> is_discarding(v, u, target, e.status, e.message) && wait == 0
            &&& !hopeless && attempt < 3 ==> is_at(v, u, StageView::Putting { target, urls, url, attempt: (attempt + 1) as u32 }) && wait == 2 * attempt
            &&& !hopeless && attempt == 3 ==> is_discarding(v, u, target, e.status, e.message) && wait == 0
        }),
{
}

/// A stream that breaks off because the producer cancelled is not sent again.
pub proof fn lemma_cancelled_part_is_not_repeated(u: UploadView, target: TargetView, urls: Seq<SignedPartView>, url: Seq<char>, attempt: u32, error: Seq<char>)
    requires
        u.wf(),
        u.stage == (StageView::Putting { target, urls, url, attempt }),
    ensures
        is_discarding(
            upload::put_step(u, PutEventView::Unreachable { error }, true).0,
            u,
            target,
            0,
            "Upload cancelled."@,
        ),
        upload::put_step(u, PutEventView::Unreachable { error }, true).1 == 0,
{
}

/// A poll changes nothing unless the producer has cancelled. It then ends an upload
/// that has nothing open, has the parts of an open one discarded, and leaves alone
/// what is being discarded or is over.
pub proof fn lemma_poll(u: UploadView)
    requires
        u.wf(),
    ensures
        upload::poll_step(u, false) == u,
        u.stage is Checking || u.stage is Creating || u.stage is Committing ==> has_failed(upload::poll_step(u, true), u, 0, "Upload cancelled."@, true),
        upload_laws::open_target(u.stage) matches Some(target) ==> is_discarding(upload::poll_step(u, true), u, target, 0, "Upload cancelled."@),
        u.stage is Aborting || u.stage is Finished ==> upload::poll_step(u, true) == u,
{
}

/// What was not asked for changes nothing.
pub proof fn lemma_unasked_events(u: UploadView, reply: ReplyView, event: PutEventView, cancelled: bool)
    ensures
        u.stage is Putting || u.stage is Finished ==> upload::reply_step(u, reply, cancelled) == (u, 0u64),
        !(u.stage is Putting) ==> upload::put_step(u, event, cancelled) == (u, 0u64),
{
}

/// A file counts as changed exactly where it was measured and has another size,
/// smaller or larger.
pub proof fn lemma_changed_size(n: u64, total: u64)
    ensures
        upload::is_other_size(Some(n), total) <==> n < total || n > total,
        !upload::is_other_size(None, total),
{
}

/// The window is told why an upload failed or that it was cancelled, and nothing
/// where it succeeded.
pub proof fn lemma_what_is_shown_at_the_end(d: DraftView, message: Seq<char>)
    ensures
        d.ok ==> upload::shown_for(Ok(d)) is None,
        !d.ok ==> upload::shown_for(Ok(d)) == Some(d.message),
        upload::shown_for(Err(message)) == Some(message),
{
}

// ---------------------------------------------------------------------------
// An upload that goes well
// ---------------------------------------------------------------------------

/// What `u` asked for was answered well.
pub open spec fn answers_well(u: UploadView, e: Event) -> bool {
    match u.stage {
        StageView::Finished { .. } => true,
        StageView::Putting { .. } => e matches Event::Put { event: PutEventView::Status(status), .. } && 200 <= status <= 299,
        _ => {
            &&& e matches Event::Reply { reply: ReplyView::Answered { status, body }, .. }
            &&& control::accepted(status, body)
            &&& match upload::ask_of(u) {
                AskView::Post(RequestView::Create { .. }) => json::str_field(body, "path"@).len() > 0 && json::str_field(body, "uploadId"@).len()
                    > 0,
                AskView::Post(RequestView::Sign { parts: numbers, .. }) => {
                    &&& json::member_of(body, "urls"@) matches Some(JsonView::Array(items))
                    &&& items.len() == numbers.len()
                    &&& forall|i: int|
                        0 <= i < items.len() ==> json::int_field(#[trigger] items[i], "part"@) == numbers[i] && json::str_field(
                            items[i],
                            "url"@,
                        ).len() > 0
                },
                AskView::Post(RequestView::Complete { .. }) => json::int_field(body, "parts"@) == parts_needed(u.total as int),
                _ => true,
            }
        },
    }
}

/// The upload has succeeded: the file is registered in its slot.
pub open spec fn is_attached(u: UploadView) -> bool {
    u.stage == (StageView::Finished {
        outcome: Ok(DraftView { ok: true, status: 200, id: None, message: u.fkey, warnings: Seq::empty() }),
    })
}

/// The upload goes well so far.
spec fn is_on_course(u: UploadView) -> bool {
    match u.stage {
        StageView::Checking { .. } => true,
        StageView::Creating { .. } => true,
        StageView::Signing { .. } => true,
        StageView::Putting { urls, .. } => lead_on_from(urls, u.stored + 2),
        StageView::Completing { .. } => true,
        StageView::Committing { .. } => true,
        StageView::Finished { .. } => is_attached(u),
        _ => false,
    }
}

proof fn lemma_good_answer_keeps_on_course(u: UploadView, e: Event)
    requires
        u.wf(),
        is_on_course(u),
        answers_well(u, e),
    ensures
        is_on_course(upload_laws::step(u, e)),
        u.stage !is Finished ==> upload_laws::rank(upload_laws::step(u, e)) < upload_laws::rank(u),
{
    upload_laws::lemma_upload_ends(u, e);
    match u.stage {
        StageView::Signing { target, attempt } => {
            lemma_signatures_of_the_next_parts(u, target, attempt);
            if let Event::Reply { reply: ReplyView::Answered { status, body }, cancelled } = e {
                if let Some(JsonView::Array(items)) = json::member_of(body, "urls"@) {
                    lemma_signatures_are_used(u, target, attempt, status, body, items, cancelled);
                }
            }
        },
        StageView::Putting { target, urls, url, attempt } => {
            if let Event::Put { event: PutEventView::Status(status), cancelled } = e {
                lemma_stored_part_is_followed_by_the_next(u, target, urls, url, attempt, status, cancelled);
                if urls.len() > 0 {
                    let more = urls.skip(1);
                    assert(urls[0].part == u.stored + 2);
                    assert forall|i: int| 0 <= i < more.len() implies (#[trigger] more[i]).part == u.stored + 3 + i && more[i].url.len() > 0 by {
                        assert(more[i] == urls[i + 1]);
                    }
                }
            }
        },
        StageView::Completing { target, attempt } => {
            if let Event::Reply { reply: ReplyView::Answered { status, body }, cancelled } = e {
                lemma_joined_parts_are_registered(u, target, attempt, status, body, cancelled);
            }
        },
        _ => {},
    }
}

proof fn lemma_good_answers_keep_on_course(u: UploadView, events: Seq<Event>)
    requires
        u.wf(),
        is_on_course(u),
        forall|i: int| 0 <= i < events.len() ==> answers_well(upload_laws::run(u, #[trigger] events.take(i)), events[i]),
    ensures
        is_on_course(upload_laws::run(u, events)),
        upload_laws::run(u, events).wf(),
        upload_laws::run(u, events).fkey == u.fkey,
        upload_laws::run(u, events).stage is Finished || upload_laws::rank(upload_laws::run(u, events)) <= upload_laws::rank(u) - events.len(),
    decreases events.len(),
{
    if events.len() > 0 {
        let before = events.drop_last();
        let last = events.len() - 1;
        assert(before == events.take(last));
        assert forall|i: int| 0 <= i < before.len() implies answers_well(upload_laws::run(u, #[trigger] before.take(i)), before[i]) by {
            assert(before.take(i) == events.take(i));
        }
        lemma_good_answers_keep_on_course(u, before);
        let v = upload_laws::run(u, before);
        assert(answers_well(upload_laws::run(u, events.take(last)), events[last]));
        lemma_good_answer_keeps_on_course(v, events.last());
        upload_laws::lemma_step_keeps_invariant(v, events.last());
    }
}

/// A file that fits its slot can be attached, whatever its size: where every
/// request is answered well (each batch of signatures carries the part numbers that
/// were asked for, each with a URL, every part is stored, and the server joins all
/// of them) the upload never fails, and it succeeds within 15 steps and 20 for each
/// part.
pub proof fn lemma_upload_that_is_answered_well_succeeds(
    draft_id: Seq<char>,
    field: Seq<char>,
    filename: Seq<char>,
    total: u64,
    events: Seq<Event>,
)
    requires
        total <= if draft::slot_of(field) == "stems"@ {
            2_147_483_648u64
        } else {
            1_073_741_824u64
        },
        forall|i: int|
            0 <= i < events.len() ==> answers_well(
                upload_laws::run(upload::begun(draft_id, field, filename, total), #[trigger] events.take(i)),
                events[i],
            ),
    ensures
        ({
            let end = upload_laws::run(upload::begun(draft_id, field, filename, total), events);
            &&& end.stage is Finished ==> is_attached(end) && end.fkey == draft::slot_of(field)
            &&& !(end.stage is Aborting)
            &&& events.len() >= 15 + 20 * parts_needed(total as int) ==> is_attached(end)
        }),
{
    let u = upload::begun(draft_id, field, filename, total);
    upload_laws::lemma_begun_is_sound(draft_id, field, filename, total);
    lemma_good_answers_keep_on_course(u, events);
    upload_laws::lemma_upload_ends(upload_laws::run(u, events), Event::Poll { cancelled: false });
}

} // verus!
