//! Describing a photo with a vision model: which endpoint, key and model the
//! request uses, what it asks, and what description is taken from the reply.

use vstd::prelude::*;
use crate::llm::Message;
use crate::settings::{or_empty, ModelSettings};
use crate::text::{decimal, decimal_string, push_str};

verus! {

/// A request to the vision model.
pub struct VisionRequest {
    pub endpoint: String,
    pub api_key: String,
    pub model: String,
    /// The instruction sent with the image.
    pub prompt: String,
    pub max_tokens: usize,
}

/// The instruction sent with an image: describe it in Chinese in at most
/// `max_chars` characters.
pub open spec fn vision_prompt_text(max_chars: nat) -> Seq<char> {
    "用中文简洁描述这张图片，"@ + decimal(max_chars) + "字以内。"@
}

/// The vision endpoint: the configured one, else the chat endpoint.
pub open spec fn vision_endpoint_of(s: ModelSettings) -> Seq<char> {
    match s.vision_endpoint {
        Some(e) => e@,
        None => s.endpoint@,
    }
}

/// The vision key: the configured one, else the chat key.
pub open spec fn vision_key_of(s: ModelSettings) -> Seq<char> {
    match s.vision_api_key {
        Some(k) => k@,
        None => s.api_key@,
    }
}

/// The request to describe a photo: an error when no vision model is
/// configured, or when neither a vision key nor a chat key is; the prompt
/// allows the configured number of characters (30 by default) and the reply
/// the configured number of tokens (4000 by default).
pub fn vision_request(s: &ModelSettings) -> (r: Result<VisionRequest, String>)
    ensures
        or_empty(s.vision_model).len() == 0 ==> (r matches Err(m) && m@
            == "未配置 vision 模型，请在设置页填写 vision_model"@),
        or_empty(s.vision_model).len() > 0 && vision_key_of(*s).len() == 0 ==> (r matches Err(m) && m@
            == "未配置 API Key，请在设置页填写 API Key 或 vision_api_key"@),
        or_empty(s.vision_model).len() > 0 && vision_key_of(*s).len() > 0 ==> (r matches Ok(q)
            && q.endpoint@ == vision_endpoint_of(*s) && q.api_key@ == vision_key_of(*s)
            && q.model@ == or_empty(s.vision_model)
            && q.prompt@ == vision_prompt_text(
                (match s.vision_desc_max_chars {
                    Some(n) => n,
                    None => 30,
                }) as nat,
            ) && q.max_tokens == (match s.vision_max_tokens {
                Some(n) => n,
                None => 4000,
            })),
{
    let model = match &s.vision_model {
        Some(m) => m.clone(),
        None => String::new(),
    };
    if model.as_str().is_empty() {
        return Err("未配置 vision 模型，请在设置页填写 vision_model".to_owned());
    }
    let api_key = match &s.vision_api_key {
        Some(k) => k.clone(),
        None => s.api_key.clone(),
    };
    if api_key.as_str().is_empty() {
        return Err("未配置 API Key，请在设置页填写 API Key 或 vision_api_key".to_owned());
    }
    let endpoint = match &s.vision_endpoint {
        Some(e) => e.clone(),
        None => s.endpoint.clone(),
    };
    let max_chars = match s.vision_desc_max_chars {
        Some(n) => n,
        None => 30,
    };
    let mut prompt = String::new();
    push_str(&mut prompt, "用中文简洁描述这张图片，");
    let n = decimal_string(max_chars as u64);
    push_str(&mut prompt, n.as_str());
    push_str(&mut prompt, "字以内。");
    let max_tokens = match s.vision_max_tokens {
        Some(n) => n,
        None => 4000,
    };
    Ok(VisionRequest { endpoint, api_key, model, prompt, max_tokens })
}

/// The message content of a vision reply: a text, a list of parts (each with
/// or without a text), or something else.
pub enum ReplyContent {
    Text(String),
    Parts(Vec<Option<String>>),
    Other,
}

/// The texts of the parts, joined.
pub open spec fn parts_text(ps: Seq<Option<String>>) -> Seq<char>
    decreases ps.len(),
{
    if ps.len() == 0 {
        Seq::empty()
    } else {
        parts_text(ps.drop_last()) + match ps.last() {
            Some(t) => t@,
            None => Seq::empty(),
        }
    }
}

/// The description a reply content carries.
pub open spec fn reply_text(c: ReplyContent) -> Seq<char> {
    match c {
        ReplyContent::Text(s) => s@,
        ReplyContent::Parts(ps) => parts_text(ps@),
        ReplyContent::Other => Seq::empty(),
    }
}

/// The description of a vision reply; an error when it is empty.
pub fn vision_description(content: ReplyContent) -> (r: Result<String, String>)
    ensures
        reply_text(content).len() > 0 ==> (r matches Ok(d) && d@ == reply_text(content)),
        reply_text(content).len() == 0 ==> (r matches Err(m) && m@ == "vision API 未返回有效描述"@),
{
    let ghost c = content;
    let d = match content {
        ReplyContent::Text(s) => s,
        ReplyContent::Parts(ps) => {
            let mut d = String::new();
            let mut i: usize = 0;
            while i < ps.len()
                invariant
                    i <= ps.len(),
                    d@ == parts_text(ps@.take(i as int)),
                decreases ps.len() - i,
            {
                assert(ps@.take(i + 1).drop_last() =~= ps@.take(i as int));
                match &ps[i] {
                    Some(t) => push_str(&mut d, t.as_str()),
                    None => {},
                }
                i = i + 1;
            }
            assert(ps@.take(i as int) =~= ps@);
            d
        },
        ReplyContent::Other => String::new(),
    };
    if d.as_str().is_empty() {
        Err("vision API 未返回有效描述".to_owned())
    } else {
        Ok(d)
    }
}

/// The messages shown for a photo description in the debug view.
pub fn vision_debug_messages(name: &str, description: &str) -> (ms: Vec<Message>)
    ensures
        ms@.len() == 3,
        ms@[0].role@ == "system"@ && ms@[0].content@ == "vision 识图"@,
        ms@[1].role@ == "user"@ && ms@[1].content@ == "识别图片: "@ + name@,
        ms@[2].role@ == "assistant"@ && ms@[2].content@ == description@,
{
    let mut u = String::new();
    push_str(&mut u, "识别图片: ");
    push_str(&mut u, name);
    let mut d = String::new();
    push_str(&mut d, description);
    let mut ms: Vec<Message> = Vec::new();
    ms.push(Message::system("vision 识图".to_owned()));
    ms.push(Message::user(u));
    ms.push(Message::assistant(d));
    ms
}

} // verus!
