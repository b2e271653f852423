//! Decisions of the LLM gateway around its one outbound HTTP call: where the
//! request goes, what counts as a transport-level failure, and how the raw
//! model output is pulled out of the response envelope. Sending the request
//! and decoding the response bytes are the caller's concern; every value
//! handed back is judged here, whatever came back.

use vstd::prelude::*;
use vstd::string::StrSliceExecFns;
use vstd::string::StringExecFns;

use crate::error::AppError;
use crate::llm::ChatResponse;
use crate::text::{dec_rep, u64_to_string};

verus! {

/// The message an upstream failure carries: the status and the error body.
pub open spec fn upstream_error_view(status: int, body: Seq<char>) -> Seq<char> {
    "LLM API returned status "@ + dec_rep(status) + ": "@ + body
}

/// The URL chat requests are posted to.
pub fn chat_completions_url(base_url: &str) -> (r: String)
    ensures
        r@ == base_url@ + "/chat/completions"@,
{
    let mut s = base_url.to_owned();
    s.append("/chat/completions");
    s
}

/// The authorization header value for the configured key.
pub fn bearer_header(api_key: &str) -> (r: String)
    ensures
        r@ == "Bearer "@ + api_key@,
{
    let mut s = String::from_str("Bearer ");
    s.append(api_key);
    s
}

/// Judges the HTTP status of the endpoint's reply: success passes, anything
/// else is an upstream failure embedding the status and the reply body.
pub fn check_upstream_status(status: u16, body: &str) -> (r: Result<(), AppError>)
    ensures
        (r is Ok) == (200 <= status < 300),
        r matches Err(e) ==> (e matches AppError::UpstreamError(m)
            && m@ == upstream_error_view(status as int, body@)),
{
    if 200 <= status && status < 300 {
        Ok(())
    } else {
        let mut msg = String::from_str("LLM API returned status ");
        let digits = u64_to_string(status as u64);
        msg.append(digits.as_str());
        msg.append(": ");
        msg.append(body);
        proof {
            assert(msg@ =~= upstream_error_view(status as int, body@));
        }
        Err(AppError::UpstreamError(msg))
    }
}

/// The raw model output: the first choice's message content. An envelope
/// without any choice is a protocol failure.
pub fn first_choice_content(resp: &ChatResponse) -> (r: Result<String, AppError>)
    ensures
        resp.choices@.len() > 0 ==> (r matches Ok(c)
            && c@ == resp.choices@[0].message.content@),
        resp.choices@.len() == 0 ==> (r matches Err(e)
            && (e matches AppError::ProtocolError(m) && m@ == "No choices in response"@)),
{
    if resp.choices.len() == 0 {
        Err(AppError::ProtocolError(String::from_str("No choices in response")))
    } else {
        Ok(resp.choices[0].message.content.clone())
    }
}

} // verus!
