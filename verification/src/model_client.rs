//! The model gateway's decision layer: framing the completion request body
//! and reading the text field out of the endpoint's response. The transfer
//! itself is the caller's.

use crate::errors::AgentError;
use crate::json::{
    obj_find, parse_json, ser_value, spec_obj_get, spec_parse_json, spec_ser, spec_view_json,
    spec_view_members, JsonValue, SpecJson, lemma_view_members_index,
};
use crate::text::{clone_bytes, spec_str_bytes, str_to_bytes, string_from_utf8};
use vstd::prelude::*;
use vstd::utf8::valid_utf8;

verus! {

/// The raw text the model returned for one query.
#[derive(Debug)]
pub struct ModelResponse {
    pub response: String,
}

/// A gateway to a text-completion model. No retries: one failed call is one
/// failed result.
pub trait ModelClient {
    fn complete(&self, prompt: &str) -> Result<ModelResponse, AgentError>;
}

/// Configuration of a local completion endpoint: which model to query.
pub struct LocalOllamaClient {
    pub model: String,
}

/// The completion request body: `{"model":...,"prompt":...,"stream":false}`.
pub open spec fn spec_completion_body(model: Seq<u8>, prompt: Seq<u8>) -> Seq<u8> {
    spec_ser(
        SpecJson::Obj(
            seq![
                (spec_str_bytes("model"@), SpecJson::Str(model)),
                (spec_str_bytes("prompt"@), SpecJson::Str(prompt)),
                (spec_str_bytes("stream"@), SpecJson::Bool(false)),
            ],
        ),
    )
}

/// The text field of a completion response body, when the body has the
/// expected shape `{"response": string}`.
pub open spec fn spec_completion_response(s: Seq<u8>) -> Option<Seq<u8>> {
    match spec_parse_json(s) {
        Some(SpecJson::Obj(ms)) => match spec_obj_get(ms, spec_str_bytes("response"@)) {
            Some(SpecJson::Str(b)) => Some(b),
            _ => None,
        },
        _ => None,
    }
}

impl LocalOllamaClient {
    pub fn new(model: String) -> (r: Self)
        ensures
            r.model@ == model@,
    {
        LocalOllamaClient { model }
    }

    /// The body to send to the completion endpoint for one prompt.
    pub fn completion_request_body(&self, prompt: &str) -> (body: Vec<u8>)
        ensures
            body@ == spec_completion_body(spec_str_bytes(self.model@), spec_str_bytes(prompt@)),
    {
        let mut ms: Vec<(Vec<u8>, JsonValue)> = Vec::new();
        ms.push((str_to_bytes("model"), JsonValue::Str(str_to_bytes(self.model.as_str()))));
        ms.push((str_to_bytes("prompt"), JsonValue::Str(str_to_bytes(prompt))));
        ms.push((str_to_bytes("stream"), JsonValue::Bool(false)));
        let top = JsonValue::Obj(ms);
        proof {
            lemma_view_members_index(top->Obj_0@);
            assert(spec_view_members(top->Obj_0@) =~= seq![
                (spec_str_bytes("model"@), SpecJson::Str(spec_str_bytes(self.model@))),
                (spec_str_bytes("prompt"@), SpecJson::Str(spec_str_bytes(prompt@))),
                (spec_str_bytes("stream"@), SpecJson::Bool(false)),
            ]);
        }
        ser_value(&top)
    }
}

/// Reads the model's text out of a completion response body; any other
/// shape is `MalformedModelOutput`.
pub fn parse_completion(body: &Vec<u8>) -> (r: Result<ModelResponse, AgentError>)
    ensures
        match spec_completion_response(body@) {
            Some(b) => if valid_utf8(b) {
                r matches Ok(m) && spec_str_bytes(m.response@) == b
            } else {
                r matches Err(AgentError::MalformedModelOutput)
            },
            None => (r matches Err(AgentError::MalformedModelOutput)),
        },
{
    match parse_json(body) {
        Some(v) => match v {
            JsonValue::Obj(ms) => match obj_find(&ms, "response") {
                Some(ix) => match &ms[ix].1 {
                    JsonValue::Str(b) => match string_from_utf8(clone_bytes(b)) {
                        Some(s) => Ok(ModelResponse { response: s }),
                        None => Err(AgentError::MalformedModelOutput),
                    },
                    _ => Err(AgentError::MalformedModelOutput),
                },
                None => Err(AgentError::MalformedModelOutput),
            },
            _ => Err(AgentError::MalformedModelOutput),
        },
        None => Err(AgentError::MalformedModelOutput),
    }
}

} // verus!
