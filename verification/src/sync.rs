use vstd::prelude::*;
use crate::json::{Json, JsonV, json_parse, object_from, parse_json};
use crate::parser::markdown::concat;

verus! {

/// Sends and takes git patches; the git and HTTP work stands outside the
/// library, the decisions around it here.
pub struct SyncManager;

/// Where a patch is sent: the endpoint given, else the one that the
/// environment names (`KILOCODE_URL`), else the local default.
pub open spec fn endpoint_spec(given: Option<Seq<char>>, env_url: Option<Seq<char>>) -> Seq<char> {
    match given {
        Some(e) => e,
        None => match env_url {
            Some(e) => e,
            None => "http://localhost:8000/sync"@,
        },
    }
}

/// The payload that carries a patch, or the error for an empty patch.
pub open spec fn payload_spec(patch: Seq<char>, timestamp: Seq<char>) -> Result<JsonV, Seq<char>> {
    if patch.len() == 0 {
        Err("No changes to sync - patch is empty"@)
    } else {
        Ok(
            JsonV::Object(
                seq![
                    ("patch"@, JsonV::Str(patch)),
                    ("source"@, JsonV::Str("specgen-cli"@)),
                    ("timestamp"@, JsonV::Str(timestamp)),
                ],
            ),
        )
    }
}

/// What the reply to a sent patch gives: for a success status (2xx) the JSON
/// value of its body, or the decoding error where the body is no JSON; for
/// any other status the error that names the status and the body.
pub open spec fn reply_spec(status: u16, status_text: Seq<char>, body: Seq<char>) -> Result<JsonV, Seq<char>> {
    if 200 <= status <= 299 {
        match json_parse(body) {
            Ok(v) => Ok(v),
            Err(_) => Err("Failed to parse JSON response: error decoding response body"@),
        }
    } else {
        Err("Server returned "@ + status_text + ": "@ + body)
    }
}

impl SyncManager {
    /// The endpoint a patch is sent to, from the endpoint given and the value of
    /// `KILOCODE_URL` (where it is set).
    pub fn endpoint(endpoint_override: Option<&str>, env_url: Option<String>) -> (r: String)
        ensures
            r@ == endpoint_spec(
                match endpoint_override {
                    Some(e) => Some(e@),
                    None => None,
                },
                match env_url {
                    Some(e) => Some(e@),
                    None => None,
                },
            ),
    {
        match endpoint_override {
            Some(e) => e.to_string(),
            None => match env_url {
                Some(e) => e,
                None => "http://localhost:8000/sync".to_string(),
            },
        }
    }

    /// The JSON payload that carries a patch and the time it is sent (RFC 3339),
    /// or the error for an empty patch.
    pub fn payload(patch_content: &str, timestamp: &str) -> (r: Result<Json, String>)
        ensures
            match r {
                Ok(j) => payload_spec(patch_content@, timestamp@) == Ok::<JsonV, Seq<char>>(j@),
                Err(e) => payload_spec(patch_content@, timestamp@) == Err::<JsonV, Seq<char>>(e@),
            },
    {
        if patch_content.is_empty() {
            return Err("No changes to sync - patch is empty".to_string());
        }
        let entries = vec![
            ("patch".to_string(), Json::Str(patch_content.to_string())),
            ("source".to_string(), Json::Str("specgen-cli".to_string())),
            ("timestamp".to_string(), Json::Str(timestamp.to_string())),
        ];
        let j = object_from(entries);
        assert(entries@.map_values(|e: (String, Json)| (e.0@, e.1@)) =~= seq![
            ("patch"@, JsonV::Str(patch_content@)),
            ("source"@, JsonV::Str("specgen-cli"@)),
            ("timestamp"@, JsonV::Str(timestamp@)),
        ]);
        Ok(j)
    }

    /// What the reply to a sent patch gives, from its status code, the status
    /// as written (`404 Not Found`) and the body's text.
    pub fn reply(status: u16, status_text: &str, body: &str) -> (r: Result<Json, String>)
        ensures
            match r {
                Ok(j) => reply_spec(status, status_text@, body@) == Ok::<JsonV, Seq<char>>(j@),
                Err(e) => reply_spec(status, status_text@, body@) == Err::<JsonV, Seq<char>>(e@),
            },
    {
        if 200 <= status && status <= 299 {
            match parse_json(body) {
                Ok(v) => Ok(v),
                Err(_) => Err("Failed to parse JSON response: error decoding response body".to_string()),
            }
        } else {
            let head = concat("Server returned ", status_text);
            let head = concat(head.as_str(), ": ");
            Err(concat(head.as_str(), body))
        }
    }
}

} // verus!
