//! Laws of an upload, over all the ways in which it can go.

use vstd::prelude::*;

use crate::control;
use crate::control::{ApiErrorView, ReplyView};
use crate::draft;
use crate::json;
use crate::parts;
use crate::request::RequestView;
use crate::upload;
use crate::upload::{AskView, PutEventView, StageView, TargetView, UploadView};

verus! {

/// Something that happens to an upload.
pub enum Event {
    Poll { cancelled: bool },
    Reply { reply: ReplyView, cancelled: bool },
    Put { event: PutEventView, cancelled: bool },
}

/// The upload after an event.
pub open spec fn step(u: UploadView, e: Event) -> UploadView {
    match e {
        Event::Poll { cancelled } => upload::poll_step(u, cancelled),
        Event::Reply { reply, cancelled } => upload::reply_step(u, reply, cancelled).0,
        Event::Put { event, cancelled } => upload::put_step(u, event, cancelled).0,
    }
}

/// The upload after some events.
pub open spec fn run(u: UploadView, events: Seq<Event>) -> UploadView
    decreases events.len(),
{
    if events.len() == 0 {
        u
    } else {
        step(run(u, events.drop_last()), events.last())
    }
}

/// The storage accepts the part that `u` asked to send.
pub open spec fn stores_part(u: UploadView, e: Event) -> bool {
    &&& u.stage is Putting
    &&& e matches Event::Put { event: PutEventView::Status(status), .. }
    &&& control::is_success(status)
}

/// The numbers of the parts that the storage accepted, in order.
pub open spec fn accepted_parts(u: UploadView, events: Seq<Event>) -> Seq<int>
    decreases events.len(),
{
    if events.len() == 0 {
        seq![]
    } else {
        let before = run(u, events.drop_last());
        let earlier = accepted_parts(u, events.drop_last());
        if stores_part(before, events.last()) {
            earlier.push(
                match upload::ask_of(before) {
                    AskView::Put { part, .. } => part as int,
                    _ => 0,
                },
            )
        } else {
            earlier
        }
    }
}

/// The multipart upload that is open, if the parts are neither joined nor being
/// discarded.
pub open spec fn open_target(s: StageView) -> Option<TargetView> {
    match s {
        StageView::Signing { target, .. } => Some(target),
        StageView::Putting { target, .. } => Some(target),
        StageView::Resigning { target, .. } => Some(target),
        StageView::Completing { target, .. } => Some(target),
        _ => None,
    }
}

/// The upload ended well.
pub open spec fn succeeded(u: UploadView) -> bool {
    &&& u.stage matches StageView::Finished { outcome: Ok(r) }
    &&& r.ok
}

/// Every event keeps the invariant, and what the upload is about.
pub proof fn lemma_step_keeps_invariant(u: UploadView, e: Event)
    requires
        u.wf(),
    ensures
        step(u, e).wf(),
        step(u, e).draft_id == u.draft_id,
        step(u, e).fkey == u.fkey,
        step(u, e).filename == u.filename,
        step(u, e).total == u.total,
        step(u, e).stored == if stores_part(u, e) { u.stored + 1 } else { u.stored as int },
{
    if u.stage !is Finished {
        parts::lemma_slot_fits_server(u.fkey, u.total as int);
    }
}

/// Every run keeps the invariant, and what the upload is about.
proof fn lemma_run_keeps_invariant(u: UploadView, events: Seq<Event>)
    requires
        u.wf(),
    ensures
        run(u, events).wf(),
        run(u, events).draft_id == u.draft_id,
        run(u, events).fkey == u.fkey,
        run(u, events).filename == u.filename,
        run(u, events).total == u.total,
    decreases events.len(),
{
    if events.len() > 0 {
        lemma_run_keeps_invariant(u, events.drop_last());
        lemma_step_keeps_invariant(run(u, events.drop_last()), events.last());
    }
}

/// The parts that the storage has accepted are 1, 2, 3 and so on, each once and
/// in order, up to the number of stored parts.
pub proof fn lemma_parts_stored_in_order(u: UploadView, events: Seq<Event>)
    requires
        u.wf(),
        u.stored == 0,
    ensures
        accepted_parts(u, events) == Seq::new(run(u, events).stored as nat, |i: int| i + 1),
    decreases events.len(),
{
    if events.len() > 0 {
        let before = run(u, events.drop_last());
        lemma_parts_stored_in_order(u, events.drop_last());
        lemma_run_keeps_invariant(u, events.drop_last());
        lemma_step_keeps_invariant(before, events.last());
        if before.stage !is Finished {
            parts::lemma_slot_fits_server(before.fkey, before.total as int);
        }
    }
}

/// An upload that ends well has stored every part of the file, each once and in
/// order: what the storage holds is the file, byte for byte.
pub proof fn lemma_success_means_whole_file(
    draft_id: Seq<char>,
    field: Seq<char>,
    filename: Seq<char>,
    file: Seq<u8>,
    total: u64,
    events: Seq<Event>,
)
    requires
        file.len() == total,
        succeeded(run(upload::begun(draft_id, field, filename, total), events)),
    ensures
        accepted_parts(upload::begun(draft_id, field, filename, total), events) == Seq::new(
            parts::pieces(total as int, parts::PART_SIZE as int) as nat,
            |i: int| i + 1,
        ),
        parts::joined_parts(
            file,
            accepted_parts(upload::begun(draft_id, field, filename, total), events).len(),
        ) == file,
{
    let u = upload::begun(draft_id, field, filename, total);
    lemma_begun_is_sound(draft_id, field, filename, total);
    lemma_parts_stored_in_order(u, events);
    lemma_run_keeps_invariant(u, events);
    parts::lemma_parts_rebuild_file(file);
}

/// An upload begins with its invariant.
pub proof fn lemma_begun_is_sound(draft_id: Seq<char>, field: Seq<char>, filename: Seq<char>, total: u64)
    ensures
        upload::begun(draft_id, field, filename, total).wf(),
        upload::begun(draft_id, field, filename, total).stored == 0,
{
    let u = upload::begun(draft_id, field, filename, total);
    if total <= parts::slot_limit(u.fkey) {
        lemma_count_is_natural(total as int);
    }
}

proof fn lemma_count_is_natural(total: int)
    requires
        0 <= total,
    ensures
        0 <= parts::pieces(total, parts::PART_SIZE as int),
{
    parts::lemma_parts_tile(total, 1);
    parts::lemma_parts_tile(total, 0);
}

/// A file over the limit of its slot is refused with 413 before anything is sent.
pub proof fn lemma_oversized_sends_nothing(draft_id: Seq<char>, field: Seq<char>, filename: Seq<char>, total: u64, cancelled: bool)
    requires
        total > parts::slot_limit(draft::slot_of(field)),
    ensures
        upload::ask_of(upload::poll_step(upload::begun(draft_id, field, filename, total), cancelled)) is Nothing,
        upload::begun(draft_id, field, filename, total).stage matches StageView::Finished { outcome: Ok(r) } && !r.ok && r.status == 413,
{
}

/// A part is sent with its own place in the file: the driver is asked for the
/// bytes of the part after the stored ones.
pub proof fn lemma_part_goes_with_its_bytes(u: UploadView)
    requires
        u.wf(),
        u.stage is Putting,
    ensures
        upload::ask_of(u) matches AskView::Put { url, part, offset, len } && {
            &&& part == u.stored + 1
            &&& part <= u.count()
            &&& parts::range_of(part as int, u.total as int) == Some((offset as int, len as int))
            &&& 0 < len <= parts::PART_SIZE
            &&& offset + len <= u.total
        },
{
    parts::lemma_slot_fits_server(u.fkey, u.total as int);
    parts::lemma_parts_tile(u.total as int, u.stored + 1);
}

/// Signatures are asked for in batches of one to [`upload::SIGN_BATCH`]: those of
/// the parts after the stored ones, in order, and of no part beyond the last.
pub proof fn lemma_batches_are_small_and_in_order(u: UploadView)
    requires
        u.wf(),
        u.stage is Signing,
    ensures
        upload::ask_of(u) matches AskView::Post(RequestView::Sign { parts: numbers, .. }) && {
            &&& 1 <= numbers.len() <= upload::SIGN_BATCH
            &&& u.stored + numbers.len() <= u.count()
            &&& forall|i: int| 0 <= i < numbers.len() ==> #[trigger] numbers[i] == u.stored + 1 + i
        },
{
    parts::lemma_slot_fits_server(u.fkey, u.total as int);
}

/// A signature stands for the part that the server wrote down, and for no other.
pub proof fn lemma_signature_is_for_its_part(item: json::JsonView)
    ensures
        upload::signature_in(item).part > 0 ==> upload::signature_in(item).part == json::int_field(item, "part"@),
{
}

/// A batch in which a signature is missing, or one is too many, or whose first one
/// is for another part than the next or has no URL, is refused with the status 500
/// before that part is sent.
pub proof fn lemma_wrong_batch_is_refused(u: UploadView, body: json::JsonView, items: Seq<json::JsonView>, cancelled: bool)
    requires
        u.wf(),
        u.stage is Signing,
        json::member_of(body, "urls"@) == Some(json::JsonView::Array(items)),
        items.len() != u.batch_len() || json::int_field(items[0], "part"@) != u.stored + 1 || json::str_field(
            items[0],
            "url"@,
        ).len() == 0,
    ensures
        upload::answered(u, body, cancelled).0.stage matches StageView::Aborting { error, .. } && error.status == 500,
{
    if items.len() == u.batch_len() {
        assert(upload::signatures_in(body)[0] == upload::signature_in(items[0]));
    }
}

/// Later in a batch, a signature for another part than the next, or without a URL,
/// is refused with the status 500 before that part is sent.
pub proof fn lemma_wrong_signature_is_refused(u: UploadView, target: TargetView, items: Seq<json::JsonView>)
    requires
        items.len() > 0,
        json::int_field(items[0], "part"@) != u.stored + 1 || json::str_field(items[0], "url"@).len() == 0,
    ensures
        u.advanced(target, items.map_values(|x: json::JsonView| upload::signature_in(x))).stage matches StageView::Aborting { error, .. } && error.status == 500,
{
}

/// A signature that the storage rejects as expired is not used again: a new one
/// is asked for, for the same part.
pub proof fn lemma_expired_signature_is_renewed(u: UploadView, status: u16, cancelled: bool)
    requires
        u.wf(),
        u.stage is Putting,
        status == 403 || status == 404,
    ensures
        ({
            let v = upload::put_step(u, PutEventView::Status(status), cancelled).0;
            &&& v.stored == u.stored
            &&& Some(upload::ask_of(v)) == match open_target(u.stage) {
                Some(target) => Some(
                    AskView::Post(
                        RequestView::Sign {
                            path: target.path,
                            upload_id: target.upload_id,
                            parts: seq![(u.stored + 1) as u32],
                        },
                    ),
                ),
                None => None,
            }
        }),
{
}

/// A part that the storage refuses for good is not sent again, and neither is one
/// of a file that changed its size: the parts are discarded at once.
pub proof fn lemma_refused_part_is_not_repeated(u: UploadView, event: PutEventView, cancelled: bool)
    requires
        u.wf(),
        u.stage is Putting,
        match event {
            PutEventView::Resized => true,
            PutEventView::Status(status) => control::is_deterministic(status) && status != 403 && status != 404,
            _ => false,
        },
    ensures
        upload::put_step(u, event, cancelled).0.stage is Aborting,
        upload::put_step(u, event, cancelled).1 == 0,
{
}

/// The file is registered only where the server joined as many parts as the file
/// has; a hole in the joined file leads to an abort.
pub proof fn lemma_hole_is_caught(u: UploadView, body: json::JsonView, cancelled: bool)
    requires
        u.wf(),
        u.stage is Completing,
    ensures
        upload::answered(u, body, cancelled).0.stage is Committing <==> json::int_field(body, "parts"@) == u.count(),
        upload::answered(u, body, cancelled).0.stage is Aborting <==> json::int_field(body, "parts"@) != u.count(),
{
}

/// Once the producer has cancelled, nothing goes out any more but the request to
/// discard the parts.
pub proof fn lemma_cancel_stops_sending(u: UploadView)
    requires
        u.wf(),
    ensures
        upload::ask_of(upload::poll_step(u, true)) is Nothing || upload::ask_of(upload::poll_step(u, true)) matches AskView::Post(RequestView::Abort { .. }),
{
}

/// The producer has cancelled by the time of the event.
pub open spec fn is_cancelled_at(e: Event) -> bool {
    match e {
        Event::Poll { cancelled } => cancelled,
        Event::Reply { cancelled, .. } => cancelled,
        Event::Put { cancelled, .. } => cancelled,
    }
}

/// The upload was cancelled: its parts are being discarded, or it ended as
/// cancelled.
pub open spec fn is_stopping(u: UploadView) -> bool {
    u.stage is Aborting || u.stage == (StageView::Finished { outcome: Err("Upload cancelled."@) })
}

/// A cancelled upload never ends as a failure. Once an upload that was still
/// going has been polled as cancelled, it discards its parts, if it has any, and
/// ends as cancelled: with `Err`, and not with a result that is not ok.
pub proof fn lemma_cancelled_upload_ends_as_cancelled(u: UploadView, events: Seq<Event>)
    requires
        u.wf(),
        u.stage !is Finished,
        events.len() > 0,
        events[0] is Poll,
        forall|i: int| 0 <= i < events.len() ==> is_cancelled_at(#[trigger] events[i]),
    ensures
        is_stopping(run(u, events)),
        run(u, events).stage matches StageView::Finished { outcome } ==> outcome is Err,
    decreases events.len(),
{
    let before = events.drop_last();
    assert(events.last() == events[events.len() - 1]);
    if before.len() > 0 {
        assert(before[0] == events[0]);
        assert forall|i: int| 0 <= i < before.len() implies is_cancelled_at(#[trigger] before[i]) by {
            assert(before[i] == events[i]);
        }
        lemma_cancelled_upload_ends_as_cancelled(u, before);
        lemma_run_keeps_invariant(u, before);
    } else {
        assert(run(u, before) == u);
    }
}

/// While a multipart upload is open, an event leaves it open, or has all its
/// parts joined, or begins to discard them: no failure leaves parts behind.
pub proof fn lemma_open_upload_is_joined_or_aborted(u: UploadView, e: Event, target: TargetView)
    requires
        u.wf(),
        open_target(u.stage) == Some(target),
    ensures
        ({
            let v = step(u, e);
            ||| open_target(v.stage) == Some(target)
            ||| v.stage matches StageView::Aborting { target: t, attempt, .. } && t == target && attempt == 1
            ||| v.stage == (StageView::Committing { path: target.path, attempt: 1 }) && v.stored == v.count()
        }),
{
}

/// An abort is carried through: it asks for its parts to be discarded, cancelled
/// or not, until the call ends, and the upload then reports the failure that led
/// to it (or that it was cancelled).
pub proof fn lemma_abort_is_carried_through(u: UploadView, e: Event, target: TargetView, error: ApiErrorView, attempt: u32)
    requires
        u.wf(),
        u.stage == (StageView::Aborting { target, error, attempt }),
    ensures
        upload::ask_of(u) == AskView::Post(
            RequestView::Abort { path: target.path, upload_id: target.upload_id },
        ),
        ({
            let v = step(u, e);
            ||| v.stage matches StageView::Aborting { target: t, error: f, .. } && t == target && f == error
            ||| e is Reply && v == u.ended(error, false)
            ||| e is Reply && v == u.ended(error, true)
        }),
        e is Poll ==> step(u, e) == u,
{
}

/// Every multipart upload that a run opened is joined with all its parts, or an
/// abort was asked for, before the run ends.
pub proof fn lemma_nothing_is_left_behind(u: UploadView, events: Seq<Event>, k: int, target: TargetView)
    requires
        u.wf(),
        0 <= k <= events.len(),
        open_target(run(u, events.take(k)).stage) == Some(target),
        run(u, events).stage is Finished,
    ensures
        exists|j: int|
            k < j <= events.len() && {
                let v = #[trigger] run(u, events.take(j));
                ||| v.stage matches StageView::Aborting { target: t, .. } && t == target
                ||| v.stage matches StageView::Committing { path, .. } && path == target.path && v.stored == v.count()
            },
    decreases events.len() - k,
{
    assert(events.take(events.len() as int) == events);
    if k < events.len() {
        let now = run(u, events.take(k));
        lemma_run_keeps_invariant(u, events.take(k));
        assert(events.take(k + 1).drop_last() == events.take(k));
        assert(events.take(k + 1).last() == events[k]);
        lemma_open_upload_is_joined_or_aborted(now, events[k], target);
        let next = run(u, events.take(k + 1));
        if open_target(next.stage) == Some(target) {
            lemma_nothing_is_left_behind(u, events, k + 1, target);
        }
    }
}

/// A measure of how much of an upload is left at most.
pub open spec fn rank(u: UploadView) -> int {
    let left = u.count() - u.stored;
    match u.stage {
        StageView::Checking { attempt } => 15 + 20 * u.count() - attempt,
        StageView::Creating { attempt } => 12 + 20 * u.count() - attempt,
        StageView::Signing { attempt, .. } => 4 + 20 * left - attempt,
        StageView::Putting { attempt, .. } => 4 + 20 * left - 4 * attempt,
        StageView::Resigning { put_attempt, attempt, .. } => 4 + 20 * left - 4 * put_attempt - attempt,
        StageView::Completing { attempt, .. } => 8 - attempt,
        StageView::Aborting { attempt, .. } => 4 - attempt,
        StageView::Committing { attempt, .. } => 4 - attempt,
        StageView::Finished { .. } => 0,
    }
}

/// An upload comes to an end: each reply to what it asked brings it closer, and
/// a poll never takes it further away.
pub proof fn lemma_upload_ends(u: UploadView, e: Event)
    requires
        u.wf(),
    ensures
        0 <= rank(u),
        u.stage !is Finished ==> 0 < rank(u),
        rank(step(u, e)) <= rank(u),
        e is Reply && upload::call_attempt(u.stage) is Some ==> rank(step(u, e)) < rank(u),
        e is Put && u.stage is Putting ==> rank(step(u, e)) < rank(u),
{
    if u.stage !is Finished {
        parts::lemma_slot_fits_server(u.fkey, u.total as int);
    }
    lemma_count_is_natural(u.total as int);
}

} // verus!
