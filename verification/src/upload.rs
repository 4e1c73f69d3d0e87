//! Attaching one file to a draft, as a state machine.
//!
//! An [`Upload`] decides; a driver acts. The driver asks what to do
//! ([`Upload::poll`], then [`Upload::ask`]), does it, and reports what came of it
//! ([`Upload::on_reply`], [`Upload::on_put`]), until the upload is finished.
//!
//! The course of an upload: check the slot, open a multipart upload, store the
//! parts (signed in batches), join them, register the file in the draft. Once
//! the multipart upload is open, whatever fails leads to an abort request, so
//! that no stored part is left behind.

use vstd::prelude::*;
use serde_json::Value;

use crate::control;
use crate::control::{
    backoff, cancelled, control_next, ApiError, ApiErrorView, ControlNext, ControlNextView, Reply,
    ReplyView, CONTROL_ATTEMPTS,
};
use crate::draft;
use crate::draft::{network_failure, slot_key, DraftResult, DraftView, UploadFile};
use crate::json;
use crate::json::{field_str, field_u64, member, JsonView};
use crate::parts;
use crate::parts::{max_bytes_for, max_label_for, part_count, part_range, PART_SIZE};
use crate::request::{Request, RequestView};
use crate::text;
use crate::text::{cat, cat3, decimal};

verus! {

/// How many part signatures are asked for at a time.
pub const SIGN_BATCH: u32 = 10;

/// How often a part is sent.
pub const PART_ATTEMPTS: u32 = 3;

/// An open multipart upload: where the parts go.
pub struct Target {
    pub path: String,
    pub upload_id: String,
}

/// The model of a [`Target`].
#[verifier::ext_equal]
pub struct TargetView {
    pub path: Seq<char>,
    pub upload_id: Seq<char>,
}

impl View for Target {
    type V = TargetView;

    open spec fn view(&self) -> TargetView {
        TargetView { path: self.path@, upload_id: self.upload_id@ }
    }
}

/// A signed URL, and the number of the part that it is for.
pub struct SignedPart {
    pub part: u32,
    pub url: String,
}

/// The model of a [`SignedPart`].
#[verifier::ext_equal]
pub struct SignedPartView {
    pub part: u32,
    pub url: Seq<char>,
}

impl View for SignedPart {
    type V = SignedPartView;

    open spec fn view(&self) -> SignedPartView {
        SignedPartView { part: self.part, url: self.url@ }
    }
}

/// The models of some signed URLs.
pub open spec fn signed_views(urls: Seq<SignedPart>) -> Seq<SignedPartView> {
    urls.map_values(|s: SignedPart| s@)
}

/// Where an upload stands.
pub enum Stage {
    /// Asking the site whether the draft takes the file.
    Checking { attempt: u32 },
    /// Opening the multipart upload.
    Creating { attempt: u32 },
    /// Asking for the signatures of the next parts.
    Signing { target: Target, attempt: u32 },
    /// Storing the next part at `url`; `urls` are the signatures after it.
    Putting { target: Target, urls: Vec<SignedPart>, url: String, attempt: u32 },
    /// Asking for a new signature of the next part, whose old one the storage
    /// rejected with the status `rejected` at attempt `put_attempt`.
    Resigning { target: Target, urls: Vec<SignedPart>, rejected: u16, put_attempt: u32, attempt: u32 },
    /// Joining the parts.
    Completing { target: Target, attempt: u32 },
    /// Discarding the parts after `error`.
    Aborting { target: Target, error: ApiError, attempt: u32 },
    /// Registering the file in the draft.
    Committing { path: String, attempt: u32 },
    /// Nothing is left to do. `Err` is a cancelled upload.
    Finished { outcome: Result<DraftResult, String> },
}

/// The model of a [`Stage`].
pub enum StageView {
    Checking { attempt: u32 },
    Creating { attempt: u32 },
    Signing { target: TargetView, attempt: u32 },
    Putting { target: TargetView, urls: Seq<SignedPartView>, url: Seq<char>, attempt: u32 },
    Resigning { target: TargetView, urls: Seq<SignedPartView>, rejected: u16, put_attempt: u32, attempt: u32 },
    Completing { target: TargetView, attempt: u32 },
    Aborting { target: TargetView, error: ApiErrorView, attempt: u32 },
    Committing { path: Seq<char>, attempt: u32 },
    Finished { outcome: Result<DraftView, Seq<char>> },
}

impl View for Stage {
    type V = StageView;

    open spec fn view(&self) -> StageView {
        match *self {
            Stage::Checking { attempt } => StageView::Checking { attempt },
            Stage::Creating { attempt } => StageView::Creating { attempt },
            Stage::Signing { target, attempt } => StageView::Signing { target: target@, attempt },
            Stage::Putting { target, urls, url, attempt } => StageView::Putting {
                target: target@,
                urls: signed_views(urls@),
                url: url@,
                attempt,
            },
            Stage::Resigning { target, urls, rejected, put_attempt, attempt } => StageView::Resigning {
                target: target@,
                urls: signed_views(urls@),
                rejected,
                put_attempt,
                attempt,
            },
            Stage::Completing { target, attempt } => StageView::Completing { target: target@, attempt },
            Stage::Aborting { target, error, attempt } => StageView::Aborting {
                target: target@,
                error: error@,
                attempt,
            },
            Stage::Committing { path, attempt } => StageView::Committing { path: path@, attempt },
            Stage::Finished { outcome } => StageView::Finished {
                outcome: match outcome {
                    Ok(r) => Ok(r@),
                    Err(m) => Err(m@),
                },
            },
        }
    }
}

/// What an upload is about, and how many parts are stored.
struct Job {
    draft_id: String,
    fkey: String,
    filename: String,
    total: u64,
    stored: u32,
}

/// The upload of one file.
pub struct Upload {
    job: Job,
    stage: Stage,
}

/// The model of an [`Upload`].
#[verifier::ext_equal]
pub struct UploadView {
    pub draft_id: Seq<char>,
    /// The slot of the draft that the file goes to.
    pub fkey: Seq<char>,
    pub filename: Seq<char>,
    /// The size of the file.
    pub total: u64,
    /// How many parts are stored.
    pub stored: u32,
    pub stage: StageView,
}

impl Job {
    /// The upload of this job at some stage.
    spec fn at(self, stage: StageView) -> UploadView {
        UploadView {
            draft_id: self.draft_id@,
            fkey: self.fkey@,
            filename: self.filename@,
            total: self.total,
            stored: self.stored,
            stage,
        }
    }
}

impl View for Upload {
    type V = UploadView;

    closed spec fn view(&self) -> UploadView {
        self.job.at(self.stage@)
    }
}

/// What the driver has to do.
pub enum Ask {
    /// Post this control request and report the reply.
    Post(Request),
    /// Send `len` bytes of the file from `offset` on to `url`, and report.
    Put { url: String, part: u32, offset: u64, len: u64 },
    /// Nothing: take the result.
    Nothing,
}

/// The model of an [`Ask`].
pub enum AskView {
    Post(RequestView),
    Put { url: Seq<char>, part: u32, offset: u64, len: u64 },
    Nothing,
}

impl View for Ask {
    type V = AskView;

    open spec fn view(&self) -> AskView {
        match *self {
            Ask::Post(r) => AskView::Post(r@),
            Ask::Put { url, part, offset, len } => AskView::Put { url: url@, part, offset, len },
            Ask::Nothing => AskView::Nothing,
        }
    }
}

/// What came of sending a part.
pub enum PutEvent {
    /// The file no longer has the size that the upload began with.
    Resized,
    /// The file could not be opened.
    Unreadable { error: String },
    /// No answer came.
    Unreachable { error: String },
    /// The storage answered with this HTTP status.
    Status(u16),
}

/// The model of a [`PutEvent`].
pub enum PutEventView {
    Resized,
    Unreadable { error: Seq<char> },
    Unreachable { error: Seq<char> },
    Status(u16),
}

impl View for PutEvent {
    type V = PutEventView;

    open spec fn view(&self) -> PutEventView {
        match *self {
            PutEvent::Resized => PutEventView::Resized,
            PutEvent::Unreadable { error } => PutEventView::Unreadable { error: error@ },
            PutEvent::Unreachable { error } => PutEventView::Unreachable { error: error@ },
            PutEvent::Status(s) => PutEventView::Status(s),
        }
    }
}

// ---------------------------------------------------------------------------
// Messages
// ---------------------------------------------------------------------------

pub open spec fn server_error(message: Seq<char>) -> ApiErrorView {
    ApiErrorView { status: 500, message }
}

/// The storage answered a part with a status that is no success.
pub open spec fn chunk_rejected(status: u16) -> ApiErrorView {
    ApiErrorView {
        status,
        message: "Storage rejected a chunk (HTTP "@ + text::dec(status as nat) + ")."@,
    }
}

/// The file changed its size during the upload.
pub open spec fn file_resized(filename: Seq<char>) -> ApiErrorView {
    ApiErrorView {
        status: 0,
        message: filename + ": file changed during upload — export it again and retry."@,
    }
}

/// The file could not be opened.
pub open spec fn file_unreadable(filename: Seq<char>, error: Seq<char>) -> ApiErrorView {
    ApiErrorView { status: 0, message: filename + ": falha ao abrir ("@ + error + ")"@ }
}

/// The server joined another number of parts than the file has.
pub open spec fn parts_missing(joined: u64, count: nat) -> ApiErrorView {
    server_error(
        "Upload em pedacos: o servidor juntou "@ + text::dec(joined as nat) + " de "@ + text::dec(
            count,
        ) + " pedacos."@,
    )
}

// ---------------------------------------------------------------------------
// The transitions
// ---------------------------------------------------------------------------

impl UploadView {
    /// How many parts the file has.
    pub open spec fn count(self) -> int {
        parts::pieces(self.total as int, PART_SIZE as int)
    }

    /// How many signatures the next batch asks for.
    pub open spec fn batch_len(self) -> int {
        let left = self.count() - self.stored;
        if left < SIGN_BATCH {
            left
        } else {
            SIGN_BATCH as int
        }
    }

    /// The part numbers of the next batch.
    pub open spec fn batch(self) -> Seq<u32> {
        Seq::new(self.batch_len() as nat, |i: int| (self.stored + 1 + i) as u32)
    }

    /// The same upload at another stage.
    pub open spec fn at(self, stage: StageView) -> UploadView {
        UploadView { stage, ..self }
    }

    /// The same upload, discarding its parts because of `error`.
    pub open spec fn aborting(self, target: TargetView, error: ApiErrorView) -> UploadView {
        self.at(StageView::Aborting { target, error, attempt: 1 })
    }

    /// The upload ended with `error`, or was cancelled.
    pub open spec fn ended(self, error: ApiErrorView, cancelled: bool) -> UploadView {
        self.at(
            StageView::Finished {
                outcome: if cancelled {
                    Err("Upload cancelled."@)
                } else {
                    Ok(draft::failure(error.status, error.message))
                },
            },
        )
    }

    /// What comes after the parts stored so far: the part of the next signature,
    /// which must be for that very part; the next batch; or joining the parts.
    pub open spec fn advanced(self, target: TargetView, urls: Seq<SignedPartView>) -> UploadView {
        if urls.len() > 0 {
            if urls[0].part != self.stored + 1 || urls[0].url.len() == 0 {
                self.aborting(target, server_error("Upload em pedacos: assinatura invalida."@))
            } else {
                self.at(
                    StageView::Putting {
                        target,
                        urls: urls.drop_first(),
                        url: urls[0].url,
                        attempt: 1,
                    },
                )
            }
        } else if self.stored < self.count() {
            self.at(StageView::Signing { target, attempt: 1 })
        } else {
            self.at(StageView::Completing { target, attempt: 1 })
        }
    }
}

/// The signature that an item of the server's list stands for. A number that no
/// part can have counts as 0, which is never asked for.
pub open spec fn signature_in(item: JsonView) -> SignedPartView {
    SignedPartView {
        part: if json::int_field(item, "part"@) <= u32::MAX {
            json::int_field(item, "part"@) as u32
        } else {
            0
        },
        url: json::str_field(item, "url"@),
    }
}

/// The signatures in a reply, in order.
pub open spec fn signatures_in(body: JsonView) -> Seq<SignedPartView> {
    match json::member_of(body, "urls"@) {
        Some(JsonView::Array(items)) => items.map_values(|x: JsonView| signature_in(x)),
        _ => seq![],
    }
}

/// The URL of the first signature in a reply; empty where there is none.
pub open spec fn first_url(body: JsonView) -> Seq<char> {
    if signatures_in(body).len() > 0 {
        signatures_in(body)[0].url
    } else {
        seq![]
    }
}

/// The upload after its control call was answered, and the seconds to wait.
pub open spec fn answered(u: UploadView, body: JsonView, cancelled: bool) -> (UploadView, u64) {
    match u.stage {
        StageView::Checking { .. } => (u.at(StageView::Creating { attempt: 1 }), 0),
        StageView::Creating { .. } => {
            let target = TargetView {
                path: json::str_field(body, "path"@),
                upload_id: json::str_field(body, "uploadId"@),
            };
            if target.upload_id.len() == 0 || target.path.len() == 0 {
                (u.ended(server_error("Upload em pedacos: resposta incompleta do servidor."@), cancelled), 0)
            } else {
                (u.advanced(target, seq![]), 0)
            }
        },
        StageView::Signing { target, .. } => {
            let urls = signatures_in(body);
            if urls.len() != u.batch_len() {
                (u.aborting(target, server_error("Upload em pedacos: o servidor devolveu assinaturas a menos."@)), 0)
            } else {
                (u.advanced(target, urls), 0)
            }
        },
        StageView::Resigning { target, urls, rejected, put_attempt, .. } => {
            let url = first_url(body);
            if url.len() == 0 {
                (u.aborting(target, ApiErrorView { status: rejected, message: "Upload em pedacos: assinatura invalida."@ }), 0)
            } else if put_attempt < PART_ATTEMPTS {
                (u.at(StageView::Putting { target, urls, url, attempt: (put_attempt + 1) as u32 }), (2 * put_attempt) as u64)
            } else {
                (u.aborting(target, chunk_rejected(rejected)), 0)
            }
        },
        StageView::Completing { target, .. } => {
            let joined = json::int_field(body, "parts"@);
            if joined != u.count() {
                (u.aborting(target, parts_missing(joined, u.count() as nat)), 0)
            } else {
                (u.at(StageView::Committing { path: target.path, attempt: 1 }), 0)
            }
        },
        StageView::Aborting { error, .. } => (u.ended(error, cancelled), 0),
        StageView::Committing { .. } => (u.at(
            StageView::Finished {
                outcome: Ok(
                    DraftView { ok: true, status: 200, id: None, message: u.fkey, warnings: seq![] },
                ),
            },
        ), 0),
        _ => (u, 0),
    }
}

/// The upload after its current step failed for good with `error`; `cancelled`
/// tells whether the producer has cancelled, which decides how it ends.
pub open spec fn failed(u: UploadView, error: ApiErrorView, cancelled: bool) -> UploadView {
    match u.stage {
        StageView::Checking { .. } => u.ended(error, cancelled),
        StageView::Creating { .. } => u.ended(error, cancelled),
        StageView::Signing { target, .. } => u.aborting(target, error),
        StageView::Putting { target, .. } => u.aborting(target, error),
        StageView::Resigning { target, .. } => u.aborting(target, error),
        StageView::Completing { target, .. } => u.aborting(target, error),
        StageView::Aborting { error: first, .. } => u.ended(first, cancelled),
        StageView::Committing { .. } => u.ended(error, cancelled),
        StageView::Finished { .. } => u,
    }
}

/// The attempt number of the control call that the upload waits for.
pub open spec fn call_attempt(s: StageView) -> Option<u32> {
    match s {
        StageView::Checking { attempt } => Some(attempt),
        StageView::Creating { attempt } => Some(attempt),
        StageView::Signing { attempt, .. } => Some(attempt),
        StageView::Resigning { attempt, .. } => Some(attempt),
        StageView::Completing { attempt, .. } => Some(attempt),
        StageView::Aborting { attempt, .. } => Some(attempt),
        StageView::Committing { attempt, .. } => Some(attempt),
        StageView::Putting { .. } => None,
        StageView::Finished { .. } => None,
    }
}

/// The same stage at another attempt of its control call.
pub open spec fn reattempted(s: StageView, attempt: u32) -> StageView {
    match s {
        StageView::Checking { .. } => StageView::Checking { attempt },
        StageView::Creating { .. } => StageView::Creating { attempt },
        StageView::Signing { target, .. } => StageView::Signing { target, attempt },
        StageView::Resigning { target, urls, rejected, put_attempt, .. } => StageView::Resigning {
            target,
            urls,
            rejected,
            put_attempt,
            attempt,
        },
        StageView::Completing { target, .. } => StageView::Completing { target, attempt },
        StageView::Aborting { target, error, .. } => StageView::Aborting { target, error, attempt },
        StageView::Committing { path, .. } => StageView::Committing { path, attempt },
        other => other,
    }
}

/// The upload after the reply to its control call, and the seconds to wait.
pub open spec fn reply_step(u: UploadView, reply: ReplyView, cancelled: bool) -> (UploadView, u64) {
    match call_attempt(u.stage) {
        None => (u, 0),
        Some(attempt) => match control::control_step(attempt, reply) {
            ControlNextView::Answer(body) => answered(u, body, cancelled),
            ControlNextView::Failed(error) => (failed(u, error, cancelled), 0),
            ControlNextView::Again { attempt: next, wait } => (u.at(reattempted(u.stage, next)), wait),
        },
    }
}

/// A part failed in a way that may pass: it is sent again while attempts are
/// left.
pub open spec fn put_again(u: UploadView, error: ApiErrorView) -> (UploadView, u64) {
    match u.stage {
        StageView::Putting { target, urls, url, attempt } => if attempt < PART_ATTEMPTS {
            (u.at(StageView::Putting { target, urls, url, attempt: (attempt + 1) as u32 }), (2 * attempt) as u64)
        } else {
            (u.aborting(target, error), 0)
        },
        _ => (u, 0),
    }
}

/// The upload after a part was sent, and the seconds to wait.
pub open spec fn put_step(u: UploadView, event: PutEventView, cancelled: bool) -> (UploadView, u64) {
    match u.stage {
        StageView::Putting { target, urls, url, attempt } => match event {
            PutEventView::Resized => (u.aborting(target, file_resized(u.filename)), 0),
            PutEventView::Unreadable { error } => put_again(u, file_unreadable(u.filename, error)),
            PutEventView::Unreachable { error } => if cancelled {
                (u.aborting(target, control::cancelled_error()), 0)
            } else {
                put_again(u, ApiErrorView { status: 0, message: "Falha de rede no upload: "@ + error })
            },
            PutEventView::Status(status) => if control::is_success(status) {
                let next = UploadView { stored: (u.stored + 1) as u32, ..u };
                (next.advanced(target, urls), 0)
            } else if status == 403 || status == 404 {
                (u.at(StageView::Resigning { target, urls, rejected: status, put_attempt: attempt, attempt: 1 }), 0)
            } else if control::is_deterministic(status) {
                (u.aborting(target, chunk_rejected(status)), 0)
            } else {
                put_again(u, chunk_rejected(status))
            },
        },
        _ => (u, 0),
    }
}

/// The upload once it has seen whether the producer cancelled. An abort is
/// carried through all the same.
pub open spec fn poll_step(u: UploadView, cancelled: bool) -> UploadView {
    if cancelled && !(u.stage is Aborting) {
        failed(u, control::cancelled_error(), true)
    } else {
        u
    }
}

/// What the driver has to do.
pub open spec fn ask_of(u: UploadView) -> AskView {
    match u.stage {
        StageView::Checking { .. } => AskView::Post(
            RequestView::CheckSlot { draft_id: u.draft_id, fkey: u.fkey, filename: u.filename },
        ),
        StageView::Creating { .. } => AskView::Post(
            RequestView::Create { fkey: u.fkey, filename: u.filename },
        ),
        StageView::Signing { target, .. } => AskView::Post(
            RequestView::Sign { path: target.path, upload_id: target.upload_id, parts: u.batch() },
        ),
        StageView::Putting { url, .. } => {
            let (offset, len) = parts::range_of(u.stored + 1, u.total as int)->0;
            AskView::Put { url, part: (u.stored + 1) as u32, offset: offset as u64, len: len as u64 }
        },
        StageView::Resigning { target, .. } => AskView::Post(
            RequestView::Sign {
                path: target.path,
                upload_id: target.upload_id,
                parts: seq![(u.stored + 1) as u32],
            },
        ),
        StageView::Completing { target, .. } => AskView::Post(
            RequestView::Complete { path: target.path, upload_id: target.upload_id },
        ),
        StageView::Aborting { target, .. } => AskView::Post(
            RequestView::Abort { path: target.path, upload_id: target.upload_id },
        ),
        StageView::Committing { path, .. } => AskView::Post(
            RequestView::Commit { draft_id: u.draft_id, fkey: u.fkey, path, name: u.filename },
        ),
        StageView::Finished { .. } => AskView::Nothing,
    }
}

/// The upload as it begins. A file over the limit of its slot is refused before
/// a byte is sent.
pub open spec fn begun(draft_id: Seq<char>, field: Seq<char>, filename: Seq<char>, total: u64) -> UploadView {
    let fkey = draft::slot_of(field);
    UploadView {
        draft_id,
        fkey,
        filename,
        total,
        stored: 0,
        stage: if total > parts::slot_limit(fkey) {
            StageView::Finished {
                outcome: Ok(
                    draft::failure(
                        413,
                        filename + ": file too large (max "@ + parts::slot_limit_label(fkey) + ")."@,
                    ),
                ),
            }
        } else {
            StageView::Checking { attempt: 1 }
        },
    }
}

impl UploadView {
    /// The file fits its slot, and no more parts are stored than it has.
    pub open spec fn in_bounds(self) -> bool {
        self.total <= parts::slot_limit(self.fkey) && self.stored <= self.count()
    }

    /// The invariant of an upload. Every part is stored before the parts are
    /// joined, and so before the file is registered and the upload succeeds.
    pub open spec fn wf(self) -> bool {
        &&& self.stage !is Finished ==> self.in_bounds()
        &&& call_attempt(self.stage) matches Some(attempt) ==> 1 <= attempt <= CONTROL_ATTEMPTS
        &&& match self.stage {
            StageView::Checking { .. } => self.stored == 0,
            StageView::Creating { .. } => self.stored == 0,
            StageView::Signing { .. } => self.stored < self.count(),
            StageView::Putting { urls, url, attempt, .. } => {
                &&& self.stored + urls.len() < self.count()
                &&& url.len() > 0
                &&& 1 <= attempt <= PART_ATTEMPTS
            },
            StageView::Resigning { urls, put_attempt, rejected, .. } => {
                &&& self.stored + urls.len() < self.count()
                &&& 1 <= put_attempt <= PART_ATTEMPTS
                &&& rejected == 403 || rejected == 404
            },
            StageView::Completing { .. } => self.stored == self.count(),
            StageView::Aborting { .. } => true,
            StageView::Committing { .. } => self.stored == self.count(),
            StageView::Finished { outcome } => outcome matches Ok(r) ==> r.ok ==> self.stored == self.count(),
        }
    }
}

/// A file that fits its slot has few parts.
proof fn lemma_count(u: UploadView)
    requires
        u.total <= parts::slot_limit(u.fkey),
    ensures
        0 <= u.count() <= 32,
        u.total <= u32::MAX * PART_SIZE,
{
    parts::lemma_slot_fits_server(u.fkey, u.total as int);
    parts::lemma_parts_tile(u.total as int, 0);
    assert(0xffff_ffff * PART_SIZE >= 0x8000_0000) by (nonlinear_arith)
        requires
            PART_SIZE == 0x400_0000,
    ;
}

fn server_failure(message: &str) -> (r: ApiError)
    ensures
        r@ == server_error(message@),
{
    ApiError { status: 500, message: message.to_owned() }
}

fn chunk_failure(status: u16) -> (r: ApiError)
    ensures
        r@ == chunk_rejected(status),
{
    ApiError {
        status,
        message: cat3("Storage rejected a chunk (HTTP ", decimal(status as u64).as_str(), ")."),
    }
}

fn resized_failure(filename: &str) -> (r: ApiError)
    ensures
        r@ == file_resized(filename@),
{
    ApiError {
        status: 0,
        message: cat(filename, ": file changed during upload — export it again and retry."),
    }
}

fn unreadable_failure(filename: &str, error: &str) -> (r: ApiError)
    ensures
        r@ == file_unreadable(filename@, error@),
{
    let head: String = cat3(filename, ": falha ao abrir (", error);
    ApiError { status: 0, message: cat(head.as_str(), ")") }
}

fn missing_failure(joined: u64, count: u32) -> (r: ApiError)
    ensures
        r@ == parts_missing(joined, count as nat),
{
    let head: String = cat3(
        "Upload em pedacos: o servidor juntou ",
        decimal(joined).as_str(),
        " de ",
    );
    let message: String = cat3(head.as_str(), decimal(count as u64).as_str(), " pedacos.");
    ApiError { status: 500, message }
}

/// The signatures in a reply, in order.
fn signatures(body: &Value) -> (r: Vec<SignedPart>)
    ensures
        signed_views(r@) == signatures_in(json::json_view(*body)),
{
    let mut out: Vec<SignedPart> = Vec::new();
    assert(signed_views(out@) == Seq::<SignedPartView>::empty());
    match member(body, "urls") {
        Some(list) => match list.as_array() {
            Some(items) => {
                let ghost all = signatures_in(json::json_view(*body));
                let mut i: usize = 0;
                while i < items.len()
                    invariant
                        i <= items@.len() == all.len(),
                        all == items@.map_values(|x: Value| json::json_view(x)).map_values(|x: JsonView| signature_in(x)),
                        signed_views(out@) == all.take(i as int),
                    decreases items@.len() - i,
                {
                    let n: u64 = field_u64(&items[i], "part");
                    let part: u32 = if n <= 0xffff_ffff {
                        n as u32
                    } else {
                        0
                    };
                    let ghost had = out@;
                    out.push(SignedPart { part, url: field_str(&items[i], "url") });
                    assert(signed_views(out@) == signed_views(had).push(all[i as int]));
                    i += 1;
                }
                out
            },
            None => out,
        },
        None => out,
    }
}

fn first_signature(body: &Value) -> (r: String)
    ensures
        r@ == first_url(json::json_view(*body)),
{
    let mut urls: Vec<SignedPart> = signatures(body);
    if urls.len() > 0 {
        let ghost all = signed_views(urls@);
        let first: SignedPart = urls.remove(0);
        assert(first@ == all[0]);
        first.url
    } else {
        String::new()
    }
}

impl Job {
    /// How many parts the file has.
    fn count(&self) -> (r: u32)
        requires
            self.total <= parts::slot_limit(self.fkey@),
        ensures
            forall|s: StageView| r == (#[trigger] self.at(s)).count(),
            r <= 32,
    {
        proof {
            lemma_count(self.at(arbitrary()));
        }
        part_count(self.total)
    }
}

/// A job at a stage.
fn at(job: Job, stage: Stage) -> (r: Upload)
    ensures
        r@ == job.at(stage@),
{
    Upload { job, stage }
}

/// A job whose parts are to be discarded because of `error`.
fn abort(job: Job, target: Target, error: ApiError) -> (r: Upload)
    ensures
        r@ == job.at(arbitrary()).aborting(target@, error@),
{
    at(job, Stage::Aborting { target, error, attempt: 1 })
}

/// A job that ended with `error`, or was cancelled.
fn end(job: Job, error: ApiError, cancelled: bool) -> (r: Upload)
    ensures
        r@ == job.at(arbitrary()).ended(error@, cancelled),
{
    if cancelled {
        at(job, Stage::Finished { outcome: Err("Upload cancelled.".to_owned()) })
    } else {
        at(job, Stage::Finished { outcome: Ok(DraftResult::fail(error.status, error.message)) })
    }
}

/// What comes after the parts stored so far.
fn advance(job: Job, target: Target, urls: Vec<SignedPart>) -> (r: Upload)
    requires
        job.at(arbitrary()).in_bounds(),
        job.stored + urls@.len() <= job.at(arbitrary()).count(),
    ensures
        r@ == job.at(arbitrary()).advanced(target@, signed_views(urls@)),
        r@.wf(),
{
    let mut urls: Vec<SignedPart> = urls;
    proof {
        lemma_count(job.at(arbitrary()));
    }
    if urls.len() > 0 {
        let ghost all = signed_views(urls@);
        let first: SignedPart = urls.remove(0);
        assert(first@ == all[0]);
        assert(signed_views(urls@) == all.drop_first());
        if first.part != job.stored + 1 || first.url.as_str().is_empty() {
            abort(job, target, server_failure("Upload em pedacos: assinatura invalida."))
        } else {
            at(job, Stage::Putting { target, urls, url: first.url, attempt: 1 })
        }
    } else if job.stored < job.count() {
        at(job, Stage::Signing { target, attempt: 1 })
    } else {
        at(job, Stage::Completing { target, attempt: 1 })
    }
}

/// The upload after its current step failed for good.
fn fail(up: Upload, error: ApiError, cancelled: bool) -> (r: Upload)
    requires
        up@.wf(),
    ensures
        r@ == failed(up@, error@, cancelled),
        r@.wf(),
{
    let job: Job = up.job;
    match up.stage {
        Stage::Checking { .. } => end(job, error, cancelled),
        Stage::Creating { .. } => end(job, error, cancelled),
        Stage::Signing { target, .. } => abort(job, target, error),
        Stage::Putting { target, .. } => abort(job, target, error),
        Stage::Resigning { target, .. } => abort(job, target, error),
        Stage::Completing { target, .. } => abort(job, target, error),
        Stage::Aborting { error: first, .. } => end(job, first, cancelled),
        Stage::Committing { .. } => end(job, error, cancelled),
        Stage::Finished { outcome } => at(job, Stage::Finished { outcome }),
    }
}

/// The upload after its control call was answered, and the seconds to wait.
fn answer(up: Upload, body: &Value, cancelled: bool) -> (r: (Upload, u64))
    requires
        up@.wf(),
    ensures
        (r.0@, r.1) == answered(up@, json::json_view(*body), cancelled),
        r.0@.wf(),
{
    let job: Job = up.job;
    proof {
        if up@.stage !is Finished {
            lemma_count(up@);
        }
    }
    match up.stage {
        Stage::Checking { .. } => (at(job, Stage::Creating { attempt: 1 }), 0),
        Stage::Creating { .. } => {
            let target: Target = Target {
                path: field_str(body, "path"),
                upload_id: field_str(body, "uploadId"),
            };
            if target.upload_id.as_str().is_empty() || target.path.as_str().is_empty() {
                (end(job, server_failure("Upload em pedacos: resposta incompleta do servidor."), cancelled), 0)
            } else {
                let none: Vec<SignedPart> = Vec::new();
                assert(signed_views(none@) == Seq::<SignedPartView>::empty());
                (advance(job, target, none), 0)
            }
        },
        Stage::Signing { target, .. } => {
            let urls: Vec<SignedPart> = signatures(body);
            assert(signed_views(urls@).len() == urls@.len());
            let left: u32 = job.count() - job.stored;
            let wanted: u32 = if left < SIGN_BATCH {
                left
            } else {
                SIGN_BATCH
            };
            if urls.len() != wanted as usize {
                (abort(job, target, server_failure("Upload em pedacos: o servidor devolveu assinaturas a menos.")), 0)
            } else {
                (advance(job, target, urls), 0)
            }
        },
        Stage::Resigning { target, urls, rejected, put_attempt, .. } => {
            let url: String = first_signature(body);
            if url.as_str().is_empty() {
                let error: ApiError = ApiError {
                    status: rejected,
                    message: "Upload em pedacos: assinatura invalida.".to_owned(),
                };
                (abort(job, target, error), 0)
            } else if put_attempt < PART_ATTEMPTS {
                (at(job, Stage::Putting { target, urls, url, attempt: put_attempt + 1 }), backoff(put_attempt))
            } else {
                (abort(job, target, chunk_failure(rejected)), 0)
            }
        },
        Stage::Completing { target, .. } => {
            let joined: u64 = field_u64(body, "parts");
            let count: u32 = job.count();
            if joined != count as u64 {
                (abort(job, target, missing_failure(joined, count)), 0)
            } else {
                (at(job, Stage::Committing { path: target.path, attempt: 1 }), 0)
            }
        },
        Stage::Aborting { error, .. } => (end(job, error, cancelled), 0),
        Stage::Committing { .. } => {
            let result: DraftResult = DraftResult {
                ok: true,
                status: 200,
                id: None,
                message: job.fkey.clone(),
                warnings: Vec::new(),
            };
            assert(result@.warnings == Seq::<Seq<char>>::empty());
            (at(job, Stage::Finished { outcome: Ok(result) }), 0)
        },
        Stage::Putting { target, urls, url, attempt } => (
            at(job, Stage::Putting { target, urls, url, attempt }),
            0,
        ),
        Stage::Finished { outcome } => (at(job, Stage::Finished { outcome }), 0),
    }
}

/// The upload at another attempt of its control call.
fn reattempt(up: Upload, attempt: u32) -> (r: Upload)
    requires
        up@.wf(),
        1 <= attempt <= CONTROL_ATTEMPTS,
    ensures
        r@ == up@.at(reattempted(up@.stage, attempt)),
        r@.wf(),
{
    let job: Job = up.job;
    match up.stage {
        Stage::Checking { .. } => at(job, Stage::Checking { attempt }),
        Stage::Creating { .. } => at(job, Stage::Creating { attempt }),
        Stage::Signing { target, .. } => at(job, Stage::Signing { target, attempt }),
        Stage::Resigning { target, urls, rejected, put_attempt, .. } => at(
            job,
            Stage::Resigning { target, urls, rejected, put_attempt, attempt },
        ),
        Stage::Completing { target, .. } => at(job, Stage::Completing { target, attempt }),
        Stage::Aborting { target, error, .. } => at(job, Stage::Aborting { target, error, attempt }),
        Stage::Committing { path, .. } => at(job, Stage::Committing { path, attempt }),
        Stage::Putting { target, urls, url, attempt: put_attempt } => at(
            job,
            Stage::Putting { target, urls, url, attempt: put_attempt },
        ),
        Stage::Finished { outcome } => at(job, Stage::Finished { outcome }),
    }
}

/// A part failed in a way that may pass.
fn resend(up: Upload, error: ApiError) -> (r: (Upload, u64))
    requires
        up@.wf(),
        up@.stage is Putting,
    ensures
        (r.0@, r.1) == put_again(up@, error@),
        r.0@.wf(),
{
    let job: Job = up.job;
    match up.stage {
        Stage::Putting { target, urls, url, attempt } => if attempt < PART_ATTEMPTS {
            (at(job, Stage::Putting { target, urls, url, attempt: attempt + 1 }), backoff(attempt))
        } else {
            (abort(job, target, error), 0)
        },
        other => (at(job, other), 0),
    }
}

impl Upload {
    /// Begins to attach `file`, of `total` bytes, to a draft.
    pub fn start(draft_id: &str, file: &UploadFile, total: u64) -> (r: Upload)
        ensures
            r@ == begun(draft_id@, file.field@, file.filename@, total),
            r@.wf(),
    {
        let fkey: String = slot_key(file.field.as_str());
        let limit: u64 = max_bytes_for(fkey.as_str());
        let stage: Stage = if total > limit {
            let head: String = cat3(
                file.filename.as_str(),
                ": file too large (max ",
                max_label_for(fkey.as_str()),
            );
            Stage::Finished { outcome: Ok(DraftResult::fail(413, cat(head.as_str(), ")."))) }
        } else {
            Stage::Checking { attempt: 1 }
        };
        let job: Job = Job {
            draft_id: draft_id.to_owned(),
            fkey,
            filename: file.filename.clone(),
            total,
            stored: 0,
        };
        proof {
            if total <= limit {
                lemma_count(job.at(stage@));
            }
        }
        at(job, stage)
    }

    /// Takes note of whether the producer cancelled. To be called before
    /// [`Upload::ask`].
    pub fn poll(self, cancelled: bool) -> (r: Upload)
        requires
            self@.wf(),
        ensures
            r@ == poll_step(self@, cancelled),
            r@.wf(),
    {
        if !cancelled {
            return self;
        }
        match &self.stage {
            Stage::Aborting { .. } => self,
            _ => fail(self, crate::control::cancelled(), true),
        }
    }

    /// What the driver has to do.
    pub fn ask(&self) -> (r: Ask)
        requires
            self@.wf(),
        ensures
            r@ == ask_of(self@),
    {
        proof {
            if self@.stage !is Finished {
                lemma_count(self@);
                parts::lemma_parts_tile(self@.total as int, self@.stored + 1);
            }
        }
        let job: &Job = &self.job;
        match &self.stage {
            Stage::Checking { .. } => Ask::Post(
                Request::CheckSlot {
                    draft_id: job.draft_id.clone(),
                    fkey: job.fkey.clone(),
                    filename: job.filename.clone(),
                },
            ),
            Stage::Creating { .. } => Ask::Post(
                Request::Create { fkey: job.fkey.clone(), filename: job.filename.clone() },
            ),
            Stage::Signing { target, .. } => {
                let left: u32 = job.count() - job.stored;
                let wanted: u32 = if left < SIGN_BATCH {
                    left
                } else {
                    SIGN_BATCH
                };
                let mut numbers: Vec<u32> = Vec::new();
                let mut i: u32 = 0;
                while i < wanted
                    invariant
                        i <= wanted == self@.batch_len(),
                        job.stored == self@.stored,
                        job.stored + wanted <= 32,
                        numbers@ == self@.batch().take(i as int),
                    decreases wanted - i,
                {
                    numbers.push(job.stored + 1 + i);
                    assert(numbers@ == self@.batch().take(i + 1));
                    i += 1;
                }
                assert(numbers@ == self@.batch());
                Ask::Post(
                    Request::Sign {
                        path: target.path.clone(),
                        upload_id: target.upload_id.clone(),
                        parts: numbers,
                    },
                )
            },
            Stage::Putting { url, .. } => {
                let part: u32 = job.stored + 1;
                match part_range(part, job.total) {
                    Some((offset, len)) => Ask::Put { url: url.clone(), part, offset, len },
                    None => Ask::Nothing,
                }
            },
            Stage::Resigning { target, .. } => {
                let numbers: Vec<u32> = vec![job.stored + 1];
                assert(numbers@ == seq![(self@.stored + 1) as u32]);
                Ask::Post(
                    Request::Sign {
                        path: target.path.clone(),
                        upload_id: target.upload_id.clone(),
                        parts: numbers,
                    },
                )
            },
            Stage::Completing { target, .. } => Ask::Post(
                Request::Complete {
                    path: target.path.clone(),
                    upload_id: target.upload_id.clone(),
                },
            ),
            Stage::Aborting { target, .. } => Ask::Post(
                Request::Abort { path: target.path.clone(), upload_id: target.upload_id.clone() },
            ),
            Stage::Committing { path, .. } => Ask::Post(
                Request::Commit {
                    draft_id: job.draft_id.clone(),
                    fkey: job.fkey.clone(),
                    path: path.clone(),
                    name: job.filename.clone(),
                },
            ),
            Stage::Finished { .. } => Ask::Nothing,
        }
    }

    /// Takes the reply to the control request that was asked for; `cancelled`
    /// tells whether the producer has cancelled by now. Returns the upload, and
    /// the seconds to wait before the next poll.
    pub fn on_reply(self, reply: Reply, cancelled: bool) -> (r: (Upload, u64))
        requires
            self@.wf(),
        ensures
            (r.0@, r.1) == reply_step(self@, reply@, cancelled),
            r.0@.wf(),
    {
        let attempt: u32 = match &self.stage {
            Stage::Checking { attempt } => *attempt,
            Stage::Creating { attempt } => *attempt,
            Stage::Signing { attempt, .. } => *attempt,
            Stage::Resigning { attempt, .. } => *attempt,
            Stage::Completing { attempt, .. } => *attempt,
            Stage::Aborting { attempt, .. } => *attempt,
            Stage::Committing { attempt, .. } => *attempt,
            Stage::Putting { .. } => {
                return (self, 0);
            },
            Stage::Finished { .. } => {
                return (self, 0);
            },
        };
        match control_next(attempt, reply) {
            ControlNext::Answer(body) => answer(self, &body, cancelled),
            ControlNext::Failed(error) => (fail(self, error, cancelled), 0),
            ControlNext::Again { attempt: next, wait } => (reattempt(self, next), wait),
        }
    }

    /// Takes what came of sending a part; `cancelled` tells whether the producer
    /// has cancelled by now. Returns the upload, and the seconds to wait before
    /// the next poll.
    pub fn on_put(self, event: PutEvent, cancelled: bool) -> (r: (Upload, u64))
        requires
            self@.wf(),
        ensures
            (r.0@, r.1) == put_step(self@, event@, cancelled),
            r.0@.wf(),
    {
        match &self.stage {
            Stage::Putting { .. } => {},
            _ => {
                return (self, 0);
            },
        }
        proof {
            lemma_count(self@);
        }
        match event {
            PutEvent::Resized => {
                let error: ApiError = resized_failure(self.job.filename.as_str());
                (fail(self, error, false), 0)
            },
            PutEvent::Unreadable { error } => {
                let failure: ApiError = unreadable_failure(self.job.filename.as_str(), error.as_str());
                resend(self, failure)
            },
            PutEvent::Unreachable { error } => if cancelled {
                (fail(self, crate::control::cancelled(), false), 0)
            } else {
                resend(self, ApiError { status: 0, message: network_failure(error.as_str()) })
            },
            PutEvent::Status(status) => if 200 <= status && status < 300 {
                let mut job: Job = self.job;
                match self.stage {
                    Stage::Putting { target, urls, .. } => {
                        assert(signed_views(urls@).len() == urls@.len());
                        job.stored = job.stored + 1;
                        (advance(job, target, urls), 0)
                    },
                    other => (at(job, other), 0),
                }
            } else if status == 403 || status == 404 {
                let job: Job = self.job;
                match self.stage {
                    Stage::Putting { target, urls, attempt, .. } => (
                        at(
                            job,
                            Stage::Resigning {
                                target,
                                urls,
                                rejected: status,
                                put_attempt: attempt,
                                attempt: 1,
                            },
                        ),
                        0,
                    ),
                    other => (at(job, other), 0),
                }
            } else if 400 <= status && status < 500 && status != 429 {
                (fail(self, chunk_failure(status), false), 0)
            } else {
                resend(self, chunk_failure(status))
            },
        }
    }

    /// Whether the file, measured again, no longer has the size that the upload
    /// began with. A file that could not be measured counts as unchanged.
    pub fn is_resized(&self, measured: Option<u64>) -> (r: bool)
        ensures
            r == is_other_size(measured, self@.total),
    {
        match measured {
            Some(n) => n != self.job.total,
            None => false,
        }
    }

    /// The size that the upload began with.
    pub fn total(&self) -> (r: u64)
        ensures
            r == self@.total,
    {
        self.job.total
    }

    /// The result of a finished upload: `Err` if it was cancelled.
    pub fn result(self) -> (r: Option<Result<DraftResult, String>>)
        ensures
            match r {
                None => self@.stage !is Finished,
                Some(Ok(d)) => self@.stage == (StageView::Finished { outcome: Ok(d@) }),
                Some(Err(m)) => self@.stage == (StageView::Finished { outcome: Err(m@) }),
            },
    {
        match self.stage {
            Stage::Finished { outcome } => Some(outcome),
            _ => None,
        }
    }
}

/// The file was measured, and has another size than `total`.
pub open spec fn is_other_size(measured: Option<u64>, total: u64) -> bool {
    measured is Some && measured->0 != total
}

/// What the window shows for the result of an upload: nothing for a file that
/// was attached, else the message.
pub open spec fn shown_for(outcome: Result<DraftView, Seq<char>>) -> Option<Seq<char>> {
    match outcome {
        Ok(d) => if d.ok {
            None
        } else {
            Some(d.message)
        },
        Err(e) => Some(e),
    }
}

/// The model of the outcome of an upload.
pub open spec fn outcome_view(outcome: Result<DraftResult, String>) -> Result<DraftView, Seq<char>> {
    match outcome {
        Ok(d) => Ok(d@),
        Err(e) => Err(e@),
    }
}

/// What the window shows for the result of an upload.
pub fn result_message(outcome: &Result<DraftResult, String>) -> (r: Option<String>)
    ensures
        r is Some == shown_for(outcome_view(*outcome)) is Some,
        r matches Some(m) ==> shown_for(outcome_view(*outcome)) == Some(m@),
{
    match outcome {
        Ok(d) => if d.ok {
            None
        } else {
            Some(d.message.clone())
        },
        Err(e) => Some(e.clone()),
    }
}

} // verus!
