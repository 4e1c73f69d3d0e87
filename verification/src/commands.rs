//! Small answers to the window: the health check and the producer's profile.

use vstd::prelude::*;
use serde_json::Value;

use crate::control;
use crate::json;
use crate::json::{copy_value, member, null_value, parse_value, JsonView};
use crate::text;
use crate::text::{cat, cat3, decimal};

verus! {

/// The route of the profile.
pub const PROFILE_PATH: &'static str = "/api/user/profile";

/// How many seconds the profile may take.
pub const PROFILE_TIMEOUT_SECS: u64 = 30;

/// The answer to a health check.
#[derive(Debug, Clone)]
pub struct PingResult {
    pub ok: bool,
    pub message: String,
    pub version: String,
}

/// The health check that the window makes when it starts; `version` is that of
/// the program.
pub fn ping(version: &str) -> (r: PingResult)
    ensures
        r.ok,
        r.message@ == "GPW Uploader backend ready"@,
        r.version@ == version@,
{
    PingResult { ok: true, message: "GPW Uploader backend ready".to_owned(), version: version.to_owned() }
}

/// The profile in a reply: the member `profile`, null where there is none, or the
/// message of the failure.
pub open spec fn profile_read(status: u16, body: Seq<u8>) -> Result<JsonView, Seq<char>> {
    if !control::is_success(status) {
        Err("Perfil indisponível (HTTP "@ + text::dec(status as nat) + ")"@)
    } else {
        match json::json_parsed(body) {
            Ok(j) => Ok(profile_in(j)),
            Err(words) => Err("Resposta de perfil inválida: "@ + words),
        }
    }
}

/// The member `profile` of a reply, null where there is none.
pub open spec fn profile_in(reply: JsonView) -> JsonView {
    match json::member_of(reply, "profile"@) {
        Some(p) => p,
        None => JsonView::Null,
    }
}

/// The member `profile` of a reply, null where there is none.
pub fn profile_of(reply: &Value) -> (r: Value)
    ensures
        json::json_view(r) == profile_in(json::json_view(*reply)),
{
    match member(reply, "profile") {
        Some(p) => copy_value(p),
        None => null_value(),
    }
}

/// Reads the profile out of a reply.
pub fn profile_reply(status: u16, body: &[u8]) -> (r: Result<Value, String>)
    ensures
        r matches Ok(v) ==> profile_read(status, body@) == Ok::<JsonView, Seq<char>>(json::json_view(v)),
        r matches Err(e) ==> profile_read(status, body@) == Err::<JsonView, Seq<char>>(e@),
{
    if status < 200 || status >= 300 {
        return Err(cat3("Perfil indisponível (HTTP ", decimal(status as u64).as_str(), ")"));
    }
    match parse_value(body) {
        Ok(v) => Ok(profile_of(&v)),
        Err(words) => Err(cat("Resposta de perfil inválida: ", words.as_str())),
    }
}

/// The profile is the member of that name of the reply, null where there is none.
/// A status outside 200 to 299 and a body that is no JSON are failures, which say
/// what they are.
pub proof fn lemma_profile_is_that_of_the_reply(status: u16, body: Seq<u8>, m: Map<Seq<char>, JsonView>)
    ensures
        status < 200 || status > 299 ==> profile_read(status, body) == Err::<JsonView, Seq<char>>(
            "Perfil indisponível (HTTP "@ + text::dec(status as nat) + ")"@,
        ),
        200 <= status <= 299 ==> (json::json_parsed(body) matches Err(words) ==> profile_read(status, body) == Err::<JsonView, Seq<char>>(
            "Resposta de perfil inválida: "@ + words,
        )),
        200 <= status <= 299 && json::json_parsed(body) == Ok::<JsonView, Seq<char>>(JsonView::Object(m)) ==> profile_read(status, body) == Ok::<
            JsonView,
            Seq<char>,
        >(
            if m.contains_key("profile"@) {
                m["profile"@]
            } else {
                JsonView::Null
            },
        ),
        200 <= status <= 299 ==> (json::json_parsed(body) matches Ok(j) ==> !(j is Object) ==> profile_read(status, body) == Ok::<JsonView, Seq<char>>(
            JsonView::Null,
        )),
        PROFILE_PATH@ == "/api/user/profile"@,
        PROFILE_TIMEOUT_SECS == 30,
{
}

} // verus!
