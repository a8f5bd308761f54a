//! Construction of the wire request and of the endpoint URL.

use vstd::prelude::*;
use vstd::string::*;
use crate::config::{AppConfig, Temperature};

verus! {

/// One chat message of the wire request.
#[derive(Debug)]
pub struct ChatMessage {
    pub role: String,
    pub content: String,
}

/// The wire request: model, message list, streaming flag and optional
/// temperature. Built once, serialized once, sent once.
#[derive(Debug)]
pub struct ChatCompletionRequest {
    pub model: String,
    pub messages: Vec<ChatMessage>,
    pub stream: bool,
    pub temperature: Option<Temperature>,
}

/// Builds the request: the configured model, a single `user` message holding
/// the aggregated input, streaming enabled, and the configured temperature.
pub fn build_request(config: &AppConfig, input: String) -> (r: ChatCompletionRequest)
    ensures
        r.model@ == config.model@,
        r.messages@.len() == 1,
        r.messages@[0].role@ == "user"@,
        r.messages@[0].content@ == input@,
        r.stream == true,
        r.temperature == config.temperature,
{
    let mut messages: Vec<ChatMessage> = Vec::new();
    messages.push(ChatMessage { role: String::from_str("user"), content: input });
    ChatCompletionRequest {
        model: config.model.clone(),
        messages,
        stream: true,
        temperature: config.temperature,
    }
}

/// `base` with every trailing slash removed.
pub open spec fn strip_trailing_slashes(s: Seq<char>) -> Seq<char>
    decreases s.len(),
{
    if s.len() > 0 && s[s.len() - 1] == '/' {
        strip_trailing_slashes(s.drop_last())
    } else {
        s
    }
}

/// The full endpoint URL: when the base ends in a slash, all trailing
/// slashes are removed before the fixed suffix is appended, so the composed
/// URL never holds a duplicated slash.
pub open spec fn chat_completions_url(base: Seq<char>) -> Seq<char> {
    if base.len() > 0 && base[base.len() - 1] == '/' {
        strip_trailing_slashes(base) + "/chat/completions"@
    } else {
        base + "/chat/completions"@
    }
}

/// Composes the endpoint URL from the configured base URL.
pub fn endpoint_url(base_url: &str) -> (r: String)
    ensures
        r@ == chat_completions_url(base_url@),
{
    let n = base_url.unicode_len();
    if n > 0 && base_url.get_char(n - 1) == '/' {
        let mut cut: usize = n;
        proof {
            assert(base_url@.take(n as int) =~= base_url@);
        }
        while cut > 0 && base_url.get_char(cut - 1) == '/'
            invariant
                cut <= n,
                n == base_url@.len(),
                strip_trailing_slashes(base_url@) == strip_trailing_slashes(
                    base_url@.take(cut as int),
                ),
            decreases cut,
        {
            proof {
                assert(base_url@.take(cut as int).drop_last() =~= base_url@.take(cut as int - 1));
            }
            cut = cut - 1;
        }
        let prefix = base_url.substring_char(0, cut);
        let mut r = String::from_str(prefix);
        r.append("/chat/completions");
        proof {
            assert(base_url@.take(cut as int) =~= base_url@.subrange(0, cut as int));
        }
        r
    } else {
        let mut r = String::from_str(base_url);
        r.append("/chat/completions");
        r
    }
}

} // verus!
