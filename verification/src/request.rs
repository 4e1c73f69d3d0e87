//! The control requests of an upload: their routes and their JSON bodies.

use vstd::prelude::*;
use serde_json::Value;

use crate::control::MP_PATH;
use crate::json;
use crate::json::{numbers_value, object_value, text_value, JsonView};
use crate::text;

verus! {

/// A control request.
pub enum Request {
    /// Asks the site whether the draft takes a file in this slot.
    CheckSlot { draft_id: String, fkey: String, filename: String },
    /// Opens a multipart upload.
    Create { fkey: String, filename: String },
    /// Asks for the signed URLs of some parts.
    Sign { path: String, upload_id: String, parts: Vec<u32> },
    /// Joins the stored parts.
    Complete { path: String, upload_id: String },
    /// Discards the stored parts.
    Abort { path: String, upload_id: String },
    /// Registers the uploaded file in the draft.
    Commit { draft_id: String, fkey: String, path: String, name: String },
}

/// The model of a [`Request`].
pub enum RequestView {
    CheckSlot { draft_id: Seq<char>, fkey: Seq<char>, filename: Seq<char> },
    Create { fkey: Seq<char>, filename: Seq<char> },
    Sign { path: Seq<char>, upload_id: Seq<char>, parts: Seq<u32> },
    Complete { path: Seq<char>, upload_id: Seq<char> },
    Abort { path: Seq<char>, upload_id: Seq<char> },
    Commit { draft_id: Seq<char>, fkey: Seq<char>, path: Seq<char>, name: Seq<char> },
}

impl View for Request {
    type V = RequestView;

    open spec fn view(&self) -> RequestView {
        match *self {
            Request::CheckSlot { draft_id, fkey, filename } => RequestView::CheckSlot {
                draft_id: draft_id@,
                fkey: fkey@,
                filename: filename@,
            },
            Request::Create { fkey, filename } => RequestView::Create { fkey: fkey@, filename: filename@ },
            Request::Sign { path, upload_id, parts } => RequestView::Sign {
                path: path@,
                upload_id: upload_id@,
                parts: parts@,
            },
            Request::Complete { path, upload_id } => RequestView::Complete {
                path: path@,
                upload_id: upload_id@,
            },
            Request::Abort { path, upload_id } => RequestView::Abort {
                path: path@,
                upload_id: upload_id@,
            },
            Request::Commit { draft_id, fkey, path, name } => RequestView::Commit {
                draft_id: draft_id@,
                fkey: fkey@,
                path: path@,
                name: name@,
            },
        }
    }
}

/// The route of a request.
pub open spec fn route_of(r: RequestView) -> Seq<char> {
    match r {
        RequestView::CheckSlot { .. } => "/api/app/draft-file-url"@,
        RequestView::Commit { .. } => "/api/app/draft-file-commit"@,
        _ => MP_PATH@,
    }
}

/// The JSON body of a request.
pub open spec fn body_of(r: RequestView) -> JsonView {
    JsonView::Object(
        match r {
            RequestView::CheckSlot { draft_id, fkey, filename } => map![
                "draft_id"@ => JsonView::Text(draft_id),
                "fkey"@ => JsonView::Text(fkey),
                "filename"@ => JsonView::Text(filename)
            ],
            RequestView::Create { fkey, filename } => map![
                "action"@ => JsonView::Text("create"@),
                "fkey"@ => JsonView::Text(fkey),
                "filename"@ => JsonView::Text(filename)
            ],
            RequestView::Sign { path, upload_id, parts } => map![
                "action"@ => JsonView::Text("sign"@),
                "path"@ => JsonView::Text(path),
                "uploadId"@ => JsonView::Text(upload_id),
                "parts"@ => JsonView::Array(
                    parts.map_values(|n: u32| JsonView::Number(text::dec(n as nat))),
                )
            ],
            RequestView::Complete { path, upload_id } => map![
                "action"@ => JsonView::Text("complete"@),
                "path"@ => JsonView::Text(path),
                "uploadId"@ => JsonView::Text(upload_id)
            ],
            RequestView::Abort { path, upload_id } => map![
                "action"@ => JsonView::Text("abort"@),
                "path"@ => JsonView::Text(path),
                "uploadId"@ => JsonView::Text(upload_id)
            ],
            RequestView::Commit { draft_id, fkey, path, name } => map![
                "draft_id"@ => JsonView::Text(draft_id),
                "fkey"@ => JsonView::Text(fkey),
                "path"@ => JsonView::Text(path),
                "name"@ => JsonView::Text(name)
            ],
        },
    )
}

/// Sets the string member `key` of an object.
fn put_text(m: &mut serde_json::Map<String, Value>, key: &str, value: &str)
    ensures
        json::json_members(*final(m)) == json::json_members(*old(m)).insert(key@, JsonView::Text(value@)),
{
    let _ = m.insert(key.to_owned(), text_value(value.to_owned()));
}

impl Request {
    /// The route that the request is posted to.
    pub fn route(&self) -> (r: &'static str)
        ensures
            r@ == route_of(self@),
    {
        match self {
            Request::CheckSlot { .. } => "/api/app/draft-file-url",
            Request::Commit { .. } => "/api/app/draft-file-commit",
            _ => MP_PATH,
        }
    }

    /// The JSON body of the request.
    pub fn body(&self) -> (r: Value)
        ensures
            json::json_view(r) == body_of(self@),
    {
        let mut m: serde_json::Map<String, Value> = serde_json::Map::new();
        match self {
            Request::CheckSlot { draft_id, fkey, filename } => {
                put_text(&mut m, "draft_id", draft_id.as_str());
                put_text(&mut m, "fkey", fkey.as_str());
                put_text(&mut m, "filename", filename.as_str());
            },
            Request::Create { fkey, filename } => {
                put_text(&mut m, "action", "create");
                put_text(&mut m, "fkey", fkey.as_str());
                put_text(&mut m, "filename", filename.as_str());
            },
            Request::Sign { path, upload_id, parts } => {
                put_text(&mut m, "action", "sign");
                put_text(&mut m, "path", path.as_str());
                put_text(&mut m, "uploadId", upload_id.as_str());
                let numbers: Vec<u32> = parts.clone();
                assert(numbers@ == parts@);
                let _ = m.insert("parts".to_owned(), numbers_value(numbers));
            },
            Request::Complete { path, upload_id } => {
                put_text(&mut m, "action", "complete");
                put_text(&mut m, "path", path.as_str());
                put_text(&mut m, "uploadId", upload_id.as_str());
            },
            Request::Abort { path, upload_id } => {
                put_text(&mut m, "action", "abort");
                put_text(&mut m, "path", path.as_str());
                put_text(&mut m, "uploadId", upload_id.as_str());
            },
            Request::Commit { draft_id, fkey, path, name } => {
                put_text(&mut m, "draft_id", draft_id.as_str());
                put_text(&mut m, "fkey", fkey.as_str());
                put_text(&mut m, "path", path.as_str());
                put_text(&mut m, "name", name.as_str());
            },
        }
        object_value(m)
    }
}

// ---------------------------------------------------------------------------
// Laws
// ---------------------------------------------------------------------------

/// The object `j` has the string `s` as its member `key`.
pub open spec fn says(j: JsonView, key: Seq<char>, s: Seq<char>) -> bool {
    json::str_field(j, key) == s && json::member_of(j, key) == Some(JsonView::Text(s))
}

/// A request carries what it is about, under the names that the site knows.
pub proof fn lemma_requests_carry_what_they_are_about(a: Seq<char>, b: Seq<char>, c: Seq<char>, d: Seq<char>)
    ensures
        ({
            let j = body_of(RequestView::CheckSlot { draft_id: a, fkey: b, filename: c });
            says(j, "draft_id"@, a) && says(j, "fkey"@, b) && says(j, "filename"@, c)
        }),
        ({
            let j = body_of(RequestView::Create { fkey: b, filename: c });
            says(j, "action"@, "create"@) && says(j, "fkey"@, b) && says(j, "filename"@, c)
        }),
        ({
            let j = body_of(RequestView::Complete { path: a, upload_id: b });
            says(j, "action"@, "complete"@) && says(j, "path"@, a) && says(j, "uploadId"@, b)
        }),
        ({
            let j = body_of(RequestView::Abort { path: a, upload_id: b });
            says(j, "action"@, "abort"@) && says(j, "path"@, a) && says(j, "uploadId"@, b)
        }),
        ({
            let j = body_of(RequestView::Commit { draft_id: a, fkey: b, path: c, name: d });
            says(j, "draft_id"@, a) && says(j, "fkey"@, b) && says(j, "path"@, c) && says(j, "name"@, d)
        }),
{
    lemma_names_differ();
}

/// A request for signatures names the upload, and the numbers of the parts in
/// decimal, all of them and in order.
pub proof fn lemma_signing_names_the_parts(path: Seq<char>, upload_id: Seq<char>, parts: Seq<u32>, i: int)
    ensures
        ({
            let j = body_of(RequestView::Sign { path, upload_id, parts });
            &&& says(j, "action"@, "sign"@) && says(j, "path"@, path) && says(j, "uploadId"@, upload_id)
            &&& json::member_of(j, "parts"@) matches Some(JsonView::Array(numbers))
            &&& numbers.len() == parts.len()
            &&& 0 <= i < parts.len() ==> numbers[i] == JsonView::Number(text::dec(parts[i] as nat))
        }),
{
    lemma_names_differ();
}

/// A request carries nothing under other names.
pub proof fn lemma_requests_carry_nothing_else(r: RequestView, key: Seq<char>)
    requires
        key != "draft_id"@ && key != "fkey"@ && key != "filename"@ && key != "path"@,
        key != "name"@ && key != "action"@ && key != "uploadId"@ && key != "parts"@,
    ensures
        json::member_of(body_of(r), key) is None,
{
}

/// The check and the commit go to routes of their own, and all else to that of the
/// multipart upload.
pub proof fn lemma_routes(r: RequestView)
    ensures
        r is CheckSlot ==> route_of(r) == "/api/app/draft-file-url"@,
        r is Commit ==> route_of(r) == "/api/app/draft-file-commit"@,
        r is Create || r is Sign || r is Complete || r is Abort ==> route_of(r) == "/api/tracks/upload-multipart"@,
{
}

proof fn lemma_names_differ()
    ensures
        "draft_id"@ != "fkey"@ && "draft_id"@ != "filename"@ && "draft_id"@ != "path"@ && "draft_id"@ != "name"@,
        "fkey"@ != "filename"@ && "fkey"@ != "path"@ && "fkey"@ != "name"@ && "fkey"@ != "action"@,
        "filename"@ != "action"@ && "path"@ != "name"@ && "path"@ != "action"@ && "path"@ != "uploadId"@,
        "path"@ != "parts"@ && "action"@ != "uploadId"@ && "action"@ != "parts"@ && "uploadId"@ != "parts"@,
{
    reveal_strlit("draft_id");
    reveal_strlit("fkey");
    reveal_strlit("filename");
    reveal_strlit("path");
    reveal_strlit("name");
    reveal_strlit("action");
    reveal_strlit("uploadId");
    reveal_strlit("parts");
    assert("draft_id"@.len() == 8 && "filename"@.len() == 8 && "uploadId"@.len() == 8);
    assert("draft_id"@[0] == 'd' && "filename"@[0] == 'f' && "uploadId"@[0] == 'u');
    assert("fkey"@.len() == 4 && "path"@.len() == 4 && "name"@.len() == 4);
    assert("fkey"@[0] == 'f' && "path"@[0] == 'p' && "name"@[0] == 'n');
    assert("action"@.len() == 6 && "parts"@.len() == 5);
}

} // verus!
