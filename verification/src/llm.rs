//! The chat protocol spoken with the model endpoint: a request with exactly
//! two messages — a system message carrying the persona text and a user
//! message carrying a file reference and the task instruction — and the
//! response envelope whose first choice holds the model's raw output.
//! Multimodal message content is an explicit sum type: plain text, or a list
//! of typed parts.

use vstd::prelude::*;
use vstd::string::StrSliceExecFns;
use vstd::string::StringExecFns;

verus! {

/// A reference to a stored file, sent to a vision-capable model.
pub struct FileUrl {
    pub url: String,
}

/// One typed part of a multimodal user message.
pub enum ContentPart {
    Text { text: String },
    FileUrl { file_url: FileUrl },
}

/// Message content: plain text or a list of typed parts.
pub enum MessageContent {
    Text(String),
    MultiModal(Vec<ContentPart>),
}

/// One chat message.
pub struct Message {
    pub role: String,
    pub content: Option<MessageContent>,
}

/// The extended-reasoning capability flag sent with every request.
pub struct ThinkingConfig {
    pub thinking_type: String,
}

/// A chat request. The temperature is carried in tenths so that the request
/// is an exact integer value; the caller serializing the request divides it
/// by ten.
pub struct ChatRequest {
    pub model: String,
    pub messages: Vec<Message>,
    pub temperature_tenths: Option<u32>,
    pub thinking: Option<ThinkingConfig>,
}

/// The model endpoint's response envelope.
pub struct ChatResponse {
    pub choices: Vec<Choice>,
}

/// One choice of the response envelope.
pub struct Choice {
    pub message: ResponseMessage,
}

/// The message inside one choice.
pub struct ResponseMessage {
    pub content: String,
}

/// The deterministic temperature sent with every request, in tenths.
pub const TEMPERATURE_TENTHS: u32 = 7;

/// Builds the chat request for one analysis: a system message carrying the
/// persona text and a user message carrying the file reference and the task
/// instruction in that order, with the fixed temperature and extended
/// reasoning requested unconditionally.
pub fn build_chat_request(
    model: &str,
    system_prompt: &str,
    user_prompt: &str,
    file_url: &str,
) -> (r: ChatRequest)
    ensures
        r.model@ == model@,
        r.messages@.len() == 2,
        r.messages@[0].role@ == "system"@,
        (r.messages@[0].content matches Some(c) && (c matches MessageContent::Text(t)
            && t@ == system_prompt@)),
        r.messages@[1].role@ == "user"@,
        (r.messages@[1].content matches Some(c) && (c matches MessageContent::MultiModal(parts)
            && parts@.len() == 2
            && (parts@[0] matches ContentPart::FileUrl { file_url: f } && f.url@ == file_url@)
            && (parts@[1] matches ContentPart::Text { text: t } && t@ == user_prompt@))),
        r.temperature_tenths == Some(TEMPERATURE_TENTHS),
        (r.thinking matches Some(t) && t.thinking_type@ == "enabled"@),
{
    let mut parts: Vec<ContentPart> = Vec::new();
    parts.push(ContentPart::FileUrl { file_url: FileUrl { url: file_url.to_owned() } });
    parts.push(ContentPart::Text { text: user_prompt.to_owned() });
    let mut messages: Vec<Message> = Vec::new();
    messages.push(
        Message {
            role: String::from_str("system"),
            content: Some(MessageContent::Text(system_prompt.to_owned())),
        },
    );
    messages.push(
        Message { role: String::from_str("user"), content: Some(MessageContent::MultiModal(parts)) },
    );
    ChatRequest {
        model: model.to_owned(),
        messages,
        temperature_tenths: Some(TEMPERATURE_TENTHS),
        thinking: Some(ThinkingConfig { thinking_type: String::from_str("enabled") }),
    }
}

} // verus!
