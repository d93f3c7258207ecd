//! Decoding of one protocol payload.
//!
//! A payload is the JSON text carried by one data frame. The only facts the
//! relay needs from it are whether it is an object holding a string under
//! the key `content` and whether it holds one under the key `error`; the
//! decoding itself is delegated to `serde_json` and its outcome is named by
//! `payload_fields`.

use vstd::prelude::*;

verus! {

/// The two string fields a payload may carry: what stands under `content`
/// and what stands under `error`. A field is absent when the payload is not
/// a JSON object, when the key is missing, or when the value under the key
/// is not a string.
pub struct PayloadFields {
    pub content: Option<String>,
    pub error: Option<String>,
}

impl View for PayloadFields {
    type V = (Option<Seq<char>>, Option<Seq<char>>);

    open spec fn view(&self) -> Self::V {
        (
            match self.content {
                Some(c) => Some(c@),
                None => None,
            },
            match self.error {
                Some(e) => Some(e@),
                None => None,
            },
        )
    }
}

/// The `content` and `error` string fields of a payload text, as
/// `serde_json` decodes them. The decoding depends on the payload text
/// alone.
pub uninterp spec fn payload_fields(s: Seq<char>) -> (Option<Seq<char>>, Option<Seq<char>>);

/// Relies on `serde_json::from_str` to parse the payload, and on
/// `serde_json::Value::get` and `serde_json::Value::as_str` to read the
/// `content` and `error` keys of the parsed object. Each step is a pure
/// function of the payload text; `payload_fields` names the combined
/// outcome.
#[verifier::external_body]
pub(crate) fn decode_payload(data: &str) -> (r: PayloadFields)
    ensures
        r@ == payload_fields(data@),
{
    let v: Option<serde_json::Value> = serde_json::from_str(data).ok();
    let content = v.as_ref().and_then(|o| o.get("content")).and_then(|c| c.as_str());
    let error = v.as_ref().and_then(|o| o.get("error")).and_then(|c| c.as_str());
    PayloadFields {
        content: content.map(|s| s.to_string()),
        error: error.map(|s| s.to_string()),
    }
}

} // verus!
