//! The client settings of an OpenAI-compatible chat endpoint: which provider, where, with
//! which key, model and timeout, and the URL a request goes to.

use vstd::prelude::*;
use crate::graph::node::{opt_view, copy_opt};
use crate::text::{chars_of, string_from_chars, ends_with_chars, has_suffix};
use super::config::{LlmConfig, LlmProvider};
use crate::json::{Json, JsonView, json_view, parse_json, parsed_json, field, text_of, items_of};

verus! {

/// `s` without its trailing `/` characters.
pub open spec fn trim_slashes(s: Seq<char>) -> Seq<char>
    decreases s.len(),
{
    if s.len() > 0 && s.last() == '/' { trim_slashes(s.drop_last()) } else { s }
}

/// The URL of endpoint `path` under `base`: trailing slashes are dropped, and `/v1` is
/// added unless the base already ends with it.
pub open spec fn versioned_url(base: Seq<char>, path: Seq<char>) -> Seq<char> {
    let b = trim_slashes(base);
    if has_suffix(b, "/v1"@) { b + path } else { b + "/v1"@ + path }
}

proof fn lemma_trim_slashes_prefix(s: Seq<char>, k: int)
    requires
        0 <= k <= s.len(),
        forall|j: int| k <= j < s.len() ==> s[j] == '/',
        k == 0 || s[k - 1] != '/',
    ensures
        trim_slashes(s) == s.subrange(0, k),
    decreases s.len(),
{
    if s.len() > k {
        assert(s.drop_last().subrange(0, k) =~= s.subrange(0, k));
        lemma_trim_slashes_prefix(s.drop_last(), k);
    } else {
        assert(s.subrange(0, k) =~= s);
    }
}

/// The URL of endpoint `path` under `base` (see `versioned_url`).
pub fn endpoint_url(base: &str, path: &str) -> (r: String)
    ensures
        r@ == versioned_url(base@, path@),
{
    let cs = chars_of(base);
    let mut k: usize = cs.len();
    while k > 0 && cs[k - 1] == '/'
        invariant
            k <= cs.len(),
            cs@ == base@,
            forall|j: int| k <= j < cs.len() ==> cs@[j] == '/',
        decreases k,
    {
        k -= 1;
    }
    proof {
        lemma_trim_slashes_prefix(base@, k as int);
    }
    let mut b: Vec<char> = Vec::new();
    let mut i: usize = 0;
    while i < k
        invariant
            k <= cs.len(),
            i <= k,
            b@ == cs@.subrange(0, i as int),
        decreases k - i,
    {
        b.push(cs[i]);
        i += 1;
    }
    let v1 = chars_of("/v1");
    let mut url = string_from_chars(b.as_slice());
    if !ends_with_chars(&b, &v1) {
        url.append("/v1");
    }
    url.append(path);
    url
}

/// Client for a chat-completions endpoint (OpenAI format).
#[derive(Clone)]
pub struct LlmClient {
    provider: LlmProvider,
    base_url: String,
    api_key: Option<String>,
    model: String,
    timeout_secs: u64,
}

/// The content of an `LlmClient`.
pub struct LlmClientView {
    pub provider: LlmProvider,
    pub base_url: Seq<char>,
    pub api_key: Option<Seq<char>>,
    pub model: Seq<char>,
    pub timeout_secs: u64,
}

impl View for LlmClient {
    type V = LlmClientView;

    closed spec fn view(&self) -> LlmClientView {
        LlmClientView {
            provider: self.provider,
            base_url: self.base_url@,
            api_key: opt_view(self.api_key),
            model: self.model@,
            timeout_secs: self.timeout_secs,
        }
    }
}

impl LlmClient {
    /// The client of an LLM configuration; a missing base URL is empty.
    pub fn from_config(cfg: &LlmConfig) -> (c: Self)
        ensures
            c@.provider == cfg.provider,
            c@.base_url == (match cfg.base_url { Some(b) => b@, None => Seq::<char>::empty() }),
            c@.api_key == opt_view(cfg.api_key),
            c@.model == cfg.model@,
            c@.timeout_secs == cfg.timeout_secs,
    {
        LlmClient {
            provider: cfg.provider,
            base_url: match &cfg.base_url {
                Some(b) => b.clone(),
                None => String::new(),
            },
            api_key: copy_opt(&cfg.api_key),
            model: cfg.model.clone(),
            timeout_secs: cfg.timeout_secs,
        }
    }

    /// A client with explicit settings: an OpenAI-compatible provider, 30 s timeout.
    pub fn new(base_url: String, api_key: Option<String>, model: String) -> (c: Self)
        ensures
            c@.provider == LlmProvider::OpenAICompatible,
            c@.base_url == base_url@,
            c@.api_key == opt_view(api_key),
            c@.model == model@,
            c@.timeout_secs == 30,
    {
        LlmClient { provider: LlmProvider::OpenAICompatible, base_url, api_key, model, timeout_secs: 30 }
    }

    /// The same client with timeout `secs`; a zero timeout leaves it unchanged.
    pub fn with_timeout(self, secs: u64) -> (c: Self)
        ensures
            c@.timeout_secs == (if secs > 0 { secs } else { self@.timeout_secs }),
            c@.provider == self@.provider,
            c@.base_url == self@.base_url,
            c@.api_key == self@.api_key,
            c@.model == self@.model,
    {
        let mut c = self;
        if secs > 0 {
            c.timeout_secs = secs;
        }
        c
    }

    /// The provider is neither disabled nor the mock, and a base URL is set.
    pub open spec fn is_enabled_spec(&self) -> bool {
        self@.provider != LlmProvider::Disabled && self@.provider != LlmProvider::Mock && self@.base_url.len() > 0
    }

    /// The LLM can be called: the provider is neither disabled nor the mock, and a base
    /// URL is set.
    pub fn is_enabled(&self) -> (b: bool)
        ensures
            b == self.is_enabled_spec(),
    {
        self.provider != LlmProvider::Disabled && self.provider != LlmProvider::Mock
            && !self.base_url.as_str().is_empty()
    }

    /// The chat-completions URL, with `/v1` added exactly once.
    pub fn chat_completions_url(&self) -> (r: String)
        ensures
            r@ == versioned_url(self@.base_url, "/chat/completions"@),
    {
        endpoint_url(self.base_url.as_str(), "/chat/completions")
    }

    /// The provider.
    pub fn provider(&self) -> (p: LlmProvider)
        ensures
            p == self@.provider,
    {
        self.provider
    }

    /// The API key, if any.
    pub fn api_key(&self) -> (k: Option<String>)
        ensures
            opt_view(k) == self@.api_key,
    {
        copy_opt(&self.api_key)
    }

    /// The model.
    pub fn model(&self) -> (m: String)
        ensures
            m@ == self@.model,
    {
        self.model.clone()
    }

    /// The timeout in seconds.
    pub fn timeout_secs(&self) -> (t: u64)
        ensures
            t == self@.timeout_secs,
    {
        self.timeout_secs
    }
}

} // verus!

verus! {

/// The text of `choices[0].message.content` of a chat-completions body, if the body has
/// that shape: an object whose `choices` array has a first item, whose `message` object
/// has a `content` string.
pub open spec fn chat_reply(j: Option<JsonView>) -> Option<Seq<char>> {
    match j {
        Some(body) => match items_of(field(body, "choices"@)) {
            Some(xs) => if xs.len() > 0 {
                match field(xs[0], "message"@) {
                    Some(m) => text_of(field(m, "content"@)),
                    None => None,
                }
            } else {
                None
            },
            None => None,
        },
        None => None,
    }
}

/// The reply text of a chat-completions value (see `chat_reply`).
pub fn chat_reply_from_json(j: &Json) -> (r: Option<String>)
    ensures
        opt_view(r) == chat_reply(Some(json_view(*j))),
{
    let choices = match j.get("choices") {
        Some(c) => c,
        None => return None,
    };
    let items = match choices.as_items() {
        Some(v) => v,
        None => return None,
    };
    if items.len() == 0 {
        return None;
    }
    let first = &items[0];
    assert(items_of(field(json_view(*j), "choices"@)).unwrap()[0] == json_view(*first));
    let message = match first.get("message") {
        Some(m) => m,
        None => return None,
    };
    match message.get("content") {
        Some(c) => match c.as_text() {
            Some(t) => Some(t.clone()),
            None => None,
        },
        None => None,
    }
}

/// The reply text of a chat-completions response body: the body read as JSON (see
/// `parsed_json`), then `choices[0].message.content` (see `chat_reply`). None when the
/// body is not JSON or has not that shape.
pub fn chat_reply_of(body: &str) -> (r: Option<String>)
    ensures
        opt_view(r) == chat_reply(parsed_json(body@)),
{
    match parse_json(body) {
        Some(j) => chat_reply_from_json(&j),
        None => None,
    }
}

} // verus!
