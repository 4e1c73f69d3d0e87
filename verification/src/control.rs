//! Control calls: the small JSON requests that frame an upload.
//!
//! A control call is tried up to [`CONTROL_ATTEMPTS`] times. The driver makes one
//! attempt and hands its [`Reply`] to [`control_next`], which says what follows.

use vstd::prelude::*;
use serde_json::Value;

use crate::json;
use crate::json::{member, object_value, parse_value, JsonView};
use crate::text;
use crate::text::{cat, cat3, decimal};

verus! {

/// How often a control call is tried.
pub const CONTROL_ATTEMPTS: u32 = 3;

/// How many seconds one attempt of a control call may take.
pub const CONTROL_TIMEOUT_SECS: u64 = 60;

/// How many seconds to wait for a fresh token.
pub const TOKEN_WAIT_SECS: u64 = 10;

/// The site.
pub const APP_BASE_URL: &'static str = "https://ghostproducerworld.com";

/// The route of the multipart upload.
pub const MP_PATH: &'static str = "/api/tracks/upload-multipart";

/// The URL of a route of the site.
pub open spec fn url_of(route: Seq<char>) -> Seq<char> {
    APP_BASE_URL@ + route
}

/// The URL of a route of the site.
pub fn endpoint(route: &str) -> (r: String)
    ensures
        r@ == url_of(route@),
{
    cat(APP_BASE_URL, route)
}

/// The failure of a call to the server or to the storage: the HTTP status (0
/// where it never got that far) and the message for the producer.
#[derive(Debug, Clone)]
pub struct ApiError {
    pub status: u16,
    pub message: String,
}

/// The model of an [`ApiError`].
#[verifier::ext_equal]
pub struct ApiErrorView {
    pub status: u16,
    pub message: Seq<char>,
}

impl View for ApiError {
    type V = ApiErrorView;

    open spec fn view(&self) -> ApiErrorView {
        ApiErrorView { status: self.status, message: self.message@ }
    }
}

/// The failure of an upload that the producer cancelled.
pub open spec fn cancelled_error() -> ApiErrorView {
    ApiErrorView { status: 0, message: "Upload cancelled."@ }
}

/// The failure of an upload that the producer cancelled.
pub fn cancelled() -> (r: ApiError)
    ensures
        r@ == cancelled_error(),
{
    ApiError { status: 0, message: "Upload cancelled.".to_owned() }
}

/// The message for an HTTP status that comes without one.
pub open spec fn status_text(status: u16) -> Seq<char> {
    if status == 401 {
        "Session expired — log out and log in again."@
    } else if status == 403 {
        "Your account is not verified to upload yet."@
    } else if status == 409 {
        "You already have a track with this name."@
    } else if status == 413 {
        "File too large for the server."@
    } else if status == 429 {
        "Too many uploads — try again later."@
    } else {
        "Upload failed (HTTP "@ + text::dec(status as nat) + ")."@
    }
}

/// The message for an HTTP status that comes without one.
pub fn status_message(status: u16) -> (r: String)
    ensures
        r@ == status_text(status),
{
    if status == 401 {
        "Session expired — log out and log in again.".to_owned()
    } else if status == 403 {
        "Your account is not verified to upload yet.".to_owned()
    } else if status == 409 {
        "You already have a track with this name.".to_owned()
    } else if status == 413 {
        "File too large for the server.".to_owned()
    } else if status == 429 {
        "Too many uploads — try again later.".to_owned()
    } else {
        cat3("Upload failed (HTTP ", decimal(status as u64).as_str(), ").")
    }
}

/// The seconds to wait after attempt number `attempt` failed.
pub fn backoff(attempt: u32) -> (r: u64)
    ensures
        r == 2 * attempt,
{
    2 * (attempt as u64)
}

/// A 2xx status.
pub open spec fn is_success(status: u16) -> bool {
    200 <= status < 300
}

/// A 4xx status.
pub open spec fn is_client_error(status: u16) -> bool {
    400 <= status < 500
}

/// A status that repeating the request does not change: 4xx, except 429.
pub open spec fn is_deterministic(status: u16) -> bool {
    is_client_error(status) && status != 429
}

/// The server did what was asked: a 2xx status and `"success": true`.
pub open spec fn accepted(status: u16, body: JsonView) -> bool {
    is_success(status) && json::member_of(body, "success"@) == Some(JsonView::Bool(true))
}

/// The message of a refused request: the member `error`, if it is a string, and
/// else the one for the status.
pub open spec fn refusal_text(status: u16, body: JsonView) -> Seq<char> {
    match json::member_of(body, "error"@) {
        Some(JsonView::Text(s)) => s,
        _ => status_text(status),
    }
}

/// What a reply body holds: an object without members where it is no JSON.
pub open spec fn body_read(bytes: Seq<u8>) -> JsonView {
    match json::json_parsed(bytes) {
        Ok(j) => j,
        Err(_) => JsonView::Object(json::no_members()),
    }
}

/// Reads a reply body; what is no JSON counts as an empty object.
pub fn reply_body(bytes: &[u8]) -> (r: Value)
    ensures
        json::json_view(r) == body_read(bytes@),
{
    match parse_value(bytes) {
        Ok(v) => v,
        Err(_) => object_value(serde_json::Map::new()),
    }
}

/// Whether the server did what was asked.
pub fn is_accepted(status: u16, body: &Value) -> (r: bool)
    ensures
        r == accepted(status, json::json_view(*body)),
{
    if status < 200 || status >= 300 {
        return false;
    }
    match member(body, "success") {
        Some(s) => match s.as_bool() {
            Some(b) => b,
            None => false,
        },
        None => false,
    }
}

/// The message of a refused request.
pub fn refusal_message(status: u16, body: &Value) -> (r: String)
    ensures
        r@ == refusal_text(status, json::json_view(*body)),
{
    match member(body, "error") {
        Some(e) => match e.as_str() {
            Some(s) => s.to_owned(),
            None => status_message(status),
        },
        None => status_message(status),
    }
}

/// The token for the next call: the fresh one, unless none came or it is empty.
pub open spec fn token_among(fresh: Option<Seq<char>>, fallback: Seq<char>) -> Seq<char> {
    match fresh {
        Some(t) => if t.len() > 0 {
            t
        } else {
            fallback
        },
        None => fallback,
    }
}

/// The token for the next call: the fresh one, unless none came or it is empty.
pub fn pick_token(fresh: Option<String>, fallback: &str) -> (r: String)
    ensures
        r@ == token_among(
            match fresh {
                Some(t) => Some(t@),
                None => None,
            },
            fallback@,
        ),
{
    match fresh {
        Some(t) => if t.as_str().is_empty() {
            fallback.to_owned()
        } else {
            t
        },
        None => fallback.to_owned(),
    }
}

/// What came of one attempt of a control call.
pub enum Reply {
    /// The server answered.
    Answered { status: u16, body: Value },
    /// No answer came; the text says why.
    Unreachable { error: String },
}

/// The model of a [`Reply`].
pub enum ReplyView {
    Answered { status: u16, body: JsonView },
    Unreachable { error: Seq<char> },
}

impl View for Reply {
    type V = ReplyView;

    open spec fn view(&self) -> ReplyView {
        match *self {
            Reply::Answered { status, body } => ReplyView::Answered { status, body: json::json_view(body) },
            Reply::Unreachable { error } => ReplyView::Unreachable { error: error@ },
        }
    }
}

/// What follows an attempt of a control call.
pub enum ControlNext {
    /// The call succeeded with this body.
    Answer(Value),
    /// The call failed for good.
    Failed(ApiError),
    /// The call is tried again, as attempt number `attempt`, after `wait` seconds.
    Again { attempt: u32, wait: u64 },
}

/// The model of a [`ControlNext`].
pub enum ControlNextView {
    Answer(JsonView),
    Failed(ApiErrorView),
    Again { attempt: u32, wait: u64 },
}

impl View for ControlNext {
    type V = ControlNextView;

    open spec fn view(&self) -> ControlNextView {
        match *self {
            ControlNext::Answer(v) => ControlNextView::Answer(json::json_view(v)),
            ControlNext::Failed(e) => ControlNextView::Failed(e@),
            ControlNext::Again { attempt, wait } => ControlNextView::Again { attempt, wait },
        }
    }
}

/// A failure that may pass: another attempt where one is left, else the failure.
pub open spec fn retry_or_fail(attempt: u32, error: ApiErrorView) -> ControlNextView {
    if attempt < CONTROL_ATTEMPTS {
        ControlNextView::Again { attempt: (attempt + 1) as u32, wait: (2 * attempt) as u64 }
    } else {
        ControlNextView::Failed(error)
    }
}

/// What follows attempt number `attempt`: success is final, and so is a status
/// that repeating does not change; network failures and other statuses are
/// tried again while attempts are left.
pub open spec fn control_step(attempt: u32, reply: ReplyView) -> ControlNextView {
    match reply {
        ReplyView::Answered { status, body } => {
            let error = ApiErrorView { status, message: refusal_text(status, body) };
            if accepted(status, body) {
                ControlNextView::Answer(body)
            } else if is_deterministic(status) {
                ControlNextView::Failed(error)
            } else {
                retry_or_fail(attempt, error)
            }
        },
        ReplyView::Unreachable { error } => retry_or_fail(
            attempt,
            ApiErrorView { status: 0, message: "Falha de rede: "@ + error },
        ),
    }
}

fn retry(attempt: u32, error: ApiError) -> (r: ControlNext)
    requires
        1 <= attempt <= CONTROL_ATTEMPTS,
    ensures
        r@ == retry_or_fail(attempt, error@),
{
    if attempt < CONTROL_ATTEMPTS {
        ControlNext::Again { attempt: attempt + 1, wait: backoff(attempt) }
    } else {
        ControlNext::Failed(error)
    }
}

/// Decides what follows attempt number `attempt` of a control call.
pub fn control_next(attempt: u32, reply: Reply) -> (r: ControlNext)
    requires
        1 <= attempt <= CONTROL_ATTEMPTS,
    ensures
        r@ == control_step(attempt, reply@),
{
    match reply {
        Reply::Answered { status, body } => {
            if is_accepted(status, &body) {
                return ControlNext::Answer(body);
            }
            let error: ApiError = ApiError { status, message: refusal_message(status, &body) };
            if 400 <= status && status < 500 && status != 429 {
                ControlNext::Failed(error)
            } else {
                retry(attempt, error)
            }
        },
        Reply::Unreachable { error } => retry(
            attempt,
            ApiError { status: 0, message: cat("Falha de rede: ", error.as_str()) },
        ),
    }
}

/// A 4xx other than 429 ends the call at once, whatever attempt it met.
pub proof fn lemma_client_error_is_not_repeated(attempt: u32, status: u16, body: JsonView)
    requires
        is_deterministic(status),
    ensures
        control_step(attempt, ReplyView::Answered { status, body }) == ControlNextView::Failed(
            ApiErrorView { status, message: refusal_text(status, body) },
        ),
{
}

/// A call is repeated only after a network failure, a 429 or a status outside
/// 4xx, and never beyond [`CONTROL_ATTEMPTS`] attempts.
pub proof fn lemma_attempts_are_bounded(attempt: u32, reply: ReplyView)
    requires
        1 <= attempt <= CONTROL_ATTEMPTS,
    ensures
        control_step(attempt, reply) matches ControlNextView::Again { attempt: next, wait } ==> {
            &&& next == attempt + 1
            &&& next <= CONTROL_ATTEMPTS
            &&& wait == 2 * attempt
            &&& reply matches ReplyView::Answered { status, .. } ==> !is_client_error(status) || status == 429
        },
{
}

/// A fresh token is used wherever there is one; an empty one is never used in
/// place of the old one.
pub proof fn lemma_fresh_token_is_used(fresh: Seq<char>, fallback: Seq<char>)
    ensures
        fresh.len() > 0 ==> token_among(Some(fresh), fallback) == fresh,
        fresh.len() == 0 ==> token_among(Some(fresh), fallback) == fallback,
        token_among(None, fallback) == fallback,
{
}

/// A call has succeeded exactly where the status is from 200 to 299 and the body
/// says `"success": true`; it then ends with that body, at any attempt.
pub proof fn lemma_success_is_final(attempt: u32, status: u16, m: Map<Seq<char>, JsonView>)
    ensures
        accepted(status, JsonView::Object(m)) <==> 200 <= status <= 299 && m.contains_key("success"@) && m["success"@] == JsonView::Bool(true),
        accepted(status, JsonView::Object(m)) ==> control_step(attempt, ReplyView::Answered { status, body: JsonView::Object(m) })
            == ControlNextView::Answer(JsonView::Object(m)),
{
}

/// A body that is no object, a failed call, is never taken for success.
pub proof fn lemma_only_objects_succeed(status: u16, body: JsonView)
    requires
        !(body is Object),
    ensures
        !accepted(status, body),
{
}

/// A refused call ends at once with its own status and message where the status is
/// from 400 to 499 and not 429. At any other it is tried again after 2 seconds,
/// then after 4, and the third refusal is final.
pub proof fn lemma_refused_call(attempt: u32, status: u16, body: JsonView)
    requires
        !accepted(status, body),
    ensures
        ({
            let next = control_step(attempt, ReplyView::Answered { status, body });
            let failed = ControlNextView::Failed(ApiErrorView { status, message: refusal_text(status, body) });
            &&& 400 <= status <= 499 && status != 429 ==> next == failed
            &&& status < 400 || status > 499 || status == 429 ==> {
                &&& attempt == 1 ==> next == (ControlNextView::Again { attempt: 2, wait: 2 })
                &&& attempt == 2 ==> next == (ControlNextView::Again { attempt: 3, wait: 4 })
                &&& attempt == 3 ==> next == failed
            }
        }),
{
}

/// A call without an answer is tried again after 2 seconds, then after 4, and the
/// third time fails with the cause and without a status.
pub proof fn lemma_unanswered_call(attempt: u32, error: Seq<char>)
    ensures
        ({
            let next = control_step(attempt, ReplyView::Unreachable { error });
            &&& attempt == 1 ==> next == (ControlNextView::Again { attempt: 2, wait: 2 })
            &&& attempt == 2 ==> next == (ControlNextView::Again { attempt: 3, wait: 4 })
            &&& attempt == 3 ==> next == ControlNextView::Failed(ApiErrorView { status: 0, message: "Falha de rede: "@ + error })
        }),
{
}

/// The message of a refusal is the server's, where it gives one as a string; else
/// it is told by the status.
pub proof fn lemma_refusal_message(status: u16, m: Map<Seq<char>, JsonView>, s: Seq<char>)
    ensures
        m.contains_key("error"@) && m["error"@] == JsonView::Text(s) ==> refusal_text(status, JsonView::Object(m)) == s,
        !m.contains_key("error"@) || !(m["error"@] is Text) ==> refusal_text(status, JsonView::Object(m)) == status_text(status),
        status == 401 ==> status_text(status) == "Session expired — log out and log in again."@,
        status == 403 ==> status_text(status) == "Your account is not verified to upload yet."@,
        status == 409 ==> status_text(status) == "You already have a track with this name."@,
        status == 413 ==> status_text(status) == "File too large for the server."@,
        status == 429 ==> status_text(status) == "Too many uploads — try again later."@,
        status != 401 && status != 403 && status != 409 && status != 413 && status != 429 ==> status_text(status) == "Upload failed (HTTP "@
            + text::dec(status as nat) + ")."@,
{
}

/// A body that is no JSON is read as an object without members, and any other as
/// what it holds.
pub proof fn lemma_bodies_are_read(bytes: Seq<u8>)
    ensures
        json::json_parsed(bytes) matches Ok(j) ==> body_read(bytes) == j,
        json::json_parsed(bytes) is Err ==> body_read(bytes) is Object && forall|key: Seq<char>|
            (#[trigger] json::member_of(body_read(bytes), key)) is None,
{
}

/// The limits of control calls, and what an upload that was cancelled says.
pub proof fn lemma_limits_of_calls()
    ensures
        CONTROL_ATTEMPTS == 3,
        CONTROL_TIMEOUT_SECS == 60,
        TOKEN_WAIT_SECS == 10,
        MP_PATH@ == "/api/tracks/upload-multipart"@,
        APP_BASE_URL@ == "https://ghostproducerworld.com"@,
        cancelled_error().status == 0,
        cancelled_error().message == "Upload cancelled."@,
{
}

/// A route lies on the site, and stands in its URL as it is.
pub proof fn lemma_routes_lie_on_the_site(route: Seq<char>)
    ensures
        url_of(route) == "https://ghostproducerworld.com"@ + route,
{
}

} // verus!
