//! The text in the JSON payloads of the known LLM services.
//!
//! JSON is parsed and indexed by the `serde_json` crate. What is said of that crate here is
//! trusted: Verus takes those contracts as they stand, without reading the crate's code.

use serde_json::Value;
use vstd::prelude::*;

use crate::text;

verus! {

/// Declares [`serde_json::Value`] to Verus as an opaque type.
#[verifier::external_type_specification]
#[verifier::external_body]
pub struct ExValue(Value);

/// Declares [`serde_json::Error`] to Verus as an opaque type.
#[verifier::external_type_specification]
#[verifier::external_body]
pub struct ExError(serde_json::Error);

/// A JSON value, as far as it can be indexed and read as a string.
pub enum Json {
    /// `null`.
    Null,
    /// A boolean or a number.
    Other,
    String(Seq<char>),
    Array(Seq<Json>),
    Object(Map<Seq<char>, Json>),
}

/// The JSON value that a [`serde_json::Value`] holds.
pub uninterp spec fn held(value: Value) -> Json;

/// The JSON value that `serde_json::from_str` reads in a text, if it accepts the text.
pub uninterp spec fn parsed(json: Seq<char>) -> Option<Json>;

impl Json {
    /// The member of an object with the given key; `null` if there is none.
    pub open spec fn member(self, key: Seq<char>) -> Json {
        match self {
            Json::Object(members) => if members.contains_key(key) {
                members[key]
            } else {
                Json::Null
            },
            _ => Json::Null,
        }
    }

    /// The element of an array at the given index; `null` if there is none.
    pub open spec fn element(self, index: int) -> Json {
        match self {
            Json::Array(elements) => if 0 <= index < elements.len() {
                elements[index]
            } else {
                Json::Null
            },
            _ => Json::Null,
        }
    }

    /// The text of a string.
    pub open spec fn string(self) -> Option<Seq<char>> {
        match self {
            Json::String(s) => Some(s),
            _ => None,
        }
    }
}

/// Calls `serde_json::from_str` for a [`serde_json::Value`]. The result is a function of the
/// text; which texts are accepted, and what value each of them has, is left unsaid.
#[verifier::external_body]
fn from_str(json: &str) -> (result: Result<Value, serde_json::Error>)
    ensures
        match result {
            Ok(value) => parsed(json@) == Some(held(value)),
            Err(_) => parsed(json@) is None,
        },
{
    serde_json::from_str(json)
}

/// Calls `<serde_json::Value as Index<&str>>::index`: the member of an object, or `null` where
/// the value is no object or has no such key.
#[verifier::external_body]
fn member<'a>(value: &'a Value, key: &str) -> (result: &'a Value)
    ensures
        held(*result) == held(*value).member(key@),
{
    &value[key]
}

/// Calls `<serde_json::Value as Index<usize>>::index`: the element of an array, or `null` where
/// the value is no array or the index is past its end.
#[verifier::external_body]
fn element(value: &Value, index: usize) -> (result: &Value)
    ensures
        held(*result) == held(*value).element(index as int),
{
    &value[index]
}

/// Calls `serde_json::Value::as_str`: the text of a string, and nothing of any other value.
#[verifier::external_body]
fn as_str(value: &Value) -> (result: Option<&str>)
    ensures
        match result {
            Some(s) => held(*value).string() == Some(s@),
            None => held(*value).string() is None,
        },
{
    value.as_str()
}

/// Where the text of a payload is looked for.
#[derive(Debug, Clone, Copy, PartialEq, Eq, Structural)]
pub enum ExtractMode {
    /// Wherever one of the known services puts it.
    Auto,
    /// `choices[0].delta.content`
    OpenAI,
    /// `delta.text`
    Anthropic,
    /// `message.content`
    Ollama,
}

impl Default for ExtractMode {
    fn default() -> (mode: Self)
        ensures
            mode == ExtractMode::Auto,
    {
        ExtractMode::Auto
    }
}

/// The text of a payload in the format of OpenAI.
pub open spec fn openai_text(payload: Json) -> Option<Seq<char>> {
    payload.member("choices"@).element(0).member("delta"@).member("content"@).string()
}

/// The text of a payload in the format of Anthropic.
pub open spec fn anthropic_text(payload: Json) -> Option<Seq<char>> {
    payload.member("delta"@).member("text"@).string()
}

/// The text of a payload in the format of Ollama.
pub open spec fn ollama_text(payload: Json) -> Option<Seq<char>> {
    payload.member("message"@).member("content"@).string()
}

/// The text of a payload. `Auto` takes the first of the formats, in this order, that has one.
pub open spec fn payload_text(payload: Json, mode: ExtractMode) -> Option<Seq<char>> {
    match mode {
        ExtractMode::OpenAI => openai_text(payload),
        ExtractMode::Anthropic => anthropic_text(payload),
        ExtractMode::Ollama => ollama_text(payload),
        ExtractMode::Auto => if openai_text(payload) is Some {
            openai_text(payload)
        } else if anthropic_text(payload) is Some {
            anthropic_text(payload)
        } else {
            ollama_text(payload)
        },
    }
}

/// The text in a JSON document, if it is one and has a text where `mode` says.
pub open spec fn document_text(document: Option<Json>, mode: ExtractMode) -> Option<Seq<char>> {
    match document {
        Some(payload) => payload_text(payload, mode),
        None => None,
    }
}

/// An owned copy of an optional text.
fn owned(s: Option<&str>) -> (result: Option<String>)
    ensures
        match s {
            Some(s) => text::optional(result) == Some(s@),
            None => result is None,
        },
{
    match s {
        Some(s) => Some(s.to_owned()),
        None => None,
    }
}

/// Takes the text out of a parsed payload.
pub fn extract_value(payload: &Value, mode: ExtractMode) -> (result: Option<String>)
    ensures
        text::optional(result) == payload_text(held(*payload), mode),
    decreases
        if mode == ExtractMode::Auto {
            1int
        } else {
            0
        },
{
    match mode {
        ExtractMode::OpenAI => {
            let choice = element(member(payload, "choices"), 0);
            owned(as_str(member(member(choice, "delta"), "content")))
        },
        ExtractMode::Anthropic => owned(as_str(member(member(payload, "delta"), "text"))),
        ExtractMode::Ollama => owned(as_str(member(member(payload, "message"), "content"))),
        ExtractMode::Auto => {
            let openai = extract_value(payload, ExtractMode::OpenAI);
            if openai.is_some() {
                return openai;
            }
            let anthropic = extract_value(payload, ExtractMode::Anthropic);
            if anthropic.is_some() {
                return anthropic;
            }
            extract_value(payload, ExtractMode::Ollama)
        },
    }
}

/// Takes the text out of a payload. There is none if the payload is no JSON, or has no string
/// at the place where `mode` looks for it.
pub fn extract_text(json: &str, mode: ExtractMode) -> (result: Option<String>)
    ensures
        text::optional(result) == document_text(parsed(json@), mode),
{
    match from_str(json) {
        Ok(payload) => extract_value(&payload, mode),
        Err(_) => None,
    }
}

/// `Auto` finds a text exactly if one of the formats has one, and never another text than
/// theirs.
pub proof fn law_auto_covers_formats(payload: Json)
    ensures
        ({
            let found = payload_text(payload, ExtractMode::Auto);
            let openai = payload_text(payload, ExtractMode::OpenAI);
            let anthropic = payload_text(payload, ExtractMode::Anthropic);
            let ollama = payload_text(payload, ExtractMode::Ollama);
            &&& found is Some <==> openai is Some || anthropic is Some || ollama is Some
            &&& found == openai || found == anthropic || found == ollama
            &&& openai is Some ==> found == openai
            &&& openai is None && anthropic is Some ==> found == anthropic
        }),
{
}

/// In the format of Anthropic, the text is the string at `delta.text`, whatever else the payload
/// has: a text is found exactly if there is such a string, and it is that string.
pub proof fn law_anthropic_text(payload: Json, s: Seq<char>)
    ensures
        payload_text(payload, ExtractMode::Anthropic) == Some(s) <==> {
            &&& payload matches Json::Object(members)
            &&& members.contains_key("delta"@)
            &&& members["delta"@] matches Json::Object(delta)
            &&& delta.contains_key("text"@)
            &&& delta["text"@] == Json::String(s)
        },
{
}

/// In the format of Ollama, the text is the string at `message.content`, whatever else the
/// payload has: a text is found exactly if there is such a string, and it is that string.
pub proof fn law_ollama_text(payload: Json, s: Seq<char>)
    ensures
        payload_text(payload, ExtractMode::Ollama) == Some(s) <==> {
            &&& payload matches Json::Object(members)
            &&& members.contains_key("message"@)
            &&& members["message"@] matches Json::Object(message)
            &&& message.contains_key("content"@)
            &&& message["content"@] == Json::String(s)
        },
{
}

/// In the format of OpenAI, the text is the string at `delta.content` of the first choice,
/// whatever else the payload has: a text is found exactly if there is such a string, and it is
/// that string.
pub proof fn law_openai_text(payload: Json, s: Seq<char>)
    ensures
        payload_text(payload, ExtractMode::OpenAI) == Some(s) <==> {
            &&& payload matches Json::Object(members)
            &&& members.contains_key("choices"@)
            &&& members["choices"@] matches Json::Array(choices)
            &&& choices.len() > 0
            &&& choices[0] matches Json::Object(choice)
            &&& choice.contains_key("delta"@)
            &&& choice["delta"@] matches Json::Object(delta)
            &&& delta.contains_key("content"@)
            &&& delta["content"@] == Json::String(s)
        },
{
}

/// `Auto` gives the text of OpenAI's format where that has one, else that of Anthropic's, else
/// what Ollama's has.
pub proof fn law_auto_order(payload: Json)
    ensures
        ({
            let found = payload_text(payload, ExtractMode::Auto);
            let openai = payload_text(payload, ExtractMode::OpenAI);
            let anthropic = payload_text(payload, ExtractMode::Anthropic);
            let ollama = payload_text(payload, ExtractMode::Ollama);
            &&& openai is Some ==> found == openai
            &&& openai is None && anthropic is Some ==> found == anthropic
            &&& openai is None && anthropic is None ==> found == ollama
        }),
{
}

/// A document that is no JSON has no text, and one that is has the text of its value.
pub proof fn law_document_text(payload: Json, mode: ExtractMode)
    ensures
        document_text(None, mode) is None,
        document_text(Some(payload), mode) == payload_text(payload, mode),
{
}

} // verus!
