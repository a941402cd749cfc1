//! The text that goes to a provider and comes back: the prompt as sent,
//! the request's URL and header, the keys
//! under which a turn is stored, and the messages of a failed call.
use vstd::prelude::*;

use crate::model::ProviderConfig;
use crate::text::{concat, decimal, push_decimal, strip_trailing, strip_trailing_char};

verus! {

/// What is sent to a provider's chat-completions endpoint.
#[derive(Debug, Clone)]
pub struct ChatRequest {
    pub url: String,
    pub authorization: String,
    pub model: String,
    pub content: String,
}

/// The text sent to a provider for a user's prompt: the prompt alone, so
/// that nothing from the on-device memory leaves the device.
pub open spec fn provider_text(prompt: Seq<char>) -> Seq<char> {
    "User: "@ + prompt
}

/// The key under which one side of a turn is stored.
pub open spec fn turn_key(ts: nat, side: Seq<char>) -> Seq<char> {
    "turn_"@ + decimal(ts) + side
}

/// The endpoint for a provider's base URL.
pub open spec fn completions_url(base_url: Seq<char>) -> Seq<char> {
    strip_trailing(base_url, '/') + "/chat/completions"@
}

/// The keys under which the user's and the assistant's side of a turn taken
/// at `ts` milliseconds are stored.
pub fn turn_keys(ts: u128) -> (keys: (String, String))
    ensures
        keys.0@ == turn_key(ts as nat, "_user"@),
        keys.1@ == turn_key(ts as nat, "_assistant"@),
{
    let mut stem = String::from_str("turn_");
    push_decimal(&mut stem, ts);
    (concat(stem.as_str(), "_user"), concat(stem.as_str(), "_assistant"))
}

/// The request that asks `provider` to answer the user's `prompt`.  Its
/// content is the prompt alone; no recalled memory goes with it.
pub fn chat_request(provider: &ProviderConfig, prompt: &str) -> (req: ChatRequest)
    ensures
        req.url@ == completions_url(provider.base_url@),
        req.authorization@ == "Bearer "@ + provider.api_key@,
        req.model == provider.model,
        req.content@ == provider_text(prompt@),
{
    let base = strip_trailing_char(provider.base_url.as_str(), '/');
    ChatRequest {
        url: concat(base.as_str(), "/chat/completions"),
        authorization: concat("Bearer ", provider.api_key.as_str()),
        model: provider.model.clone(),
        content: concat("User: ", prompt),
    }
}

/// The answer of a provider whose reply held `content` where the completion
/// text belongs (or nothing there).
pub fn completion_result(content: Option<String>) -> (r: Result<String, String>)
    ensures
        match content {
            Some(text) => r == Ok::<String, String>(text),
            None => r matches Err(m) && m@ == "Failed to extract content from response"@,
        },
{
    match content {
        Some(text) => Ok(text),
        None => Err(String::from_str("Failed to extract content from response")),
    }
}

/// The failure when the request could not be sent.
pub fn request_failure(detail: &str) -> (m: String)
    ensures
        m@ == "HTTP request failed: "@ + detail@,
{
    concat("HTTP request failed: ", detail)
}

/// The failure when the provider answered with an unsuccessful status.
pub fn status_failure(status: &str, body: &str) -> (m: String)
    ensures
        m@ == "API Error "@ + status@ + ": "@ + body@,
{
    let mut m = concat("API Error ", status);
    m.append(": ");
    m.append(body);
    m
}

/// The failure when the provider's answer was not JSON.
pub fn json_failure(detail: &str) -> (m: String)
    ensures
        m@ == "Failed to parse JSON: "@ + detail@,
{
    concat("Failed to parse JSON: ", detail)
}

} // verus!
