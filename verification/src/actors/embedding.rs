//! The settings of an OpenAI-compatible embeddings endpoint, taken from the embedding and
//! LLM configurations.

use vstd::prelude::*;
use crate::graph::node::{opt_view, copy_opt};
use super::config::{EmbeddingConfig, EmbeddingProviderKind, LlmConfig};
use super::llm_client::{endpoint_url, versioned_url};

verus! {

/// The first of two optional texts that is present.
pub open spec fn first_present(a: Option<Seq<char>>, b: Option<Seq<char>>) -> Option<Seq<char>> {
    match a {
        Some(x) => Some(x),
        None => b,
    }
}

/// An embeddings client. `api_key` is the key sent with each request.
#[derive(Clone)]
pub struct EmbeddingProvider {
    enabled: bool,
    base_url: String,
    pub api_key: Option<String>,
    model: String,
    dim: usize,
    timeout_secs: u64,
}

/// The content of an `EmbeddingProvider`.
pub struct EmbeddingProviderView {
    pub enabled: bool,
    pub base_url: Seq<char>,
    pub api_key: Option<Seq<char>>,
    pub model: Seq<char>,
    pub dim: usize,
    pub timeout_secs: u64,
}

impl View for EmbeddingProvider {
    type V = EmbeddingProviderView;

    closed spec fn view(&self) -> EmbeddingProviderView {
        EmbeddingProviderView {
            enabled: self.enabled,
            base_url: self.base_url@,
            api_key: opt_view(self.api_key),
            model: self.model@,
            dim: self.dim,
            timeout_secs: self.timeout_secs,
        }
    }
}

impl EmbeddingProvider {
    /// The embeddings client of the two configurations: the embedding endpoint and key
    /// when set, else the LLM's; the embedding model; its dimension (1536 when zero); the
    /// LLM timeout (30 s when zero). It is enabled for the OpenAI provider with a base URL
    /// and a model.
    pub fn from_config(emb: &EmbeddingConfig, llm: &LlmConfig) -> (p: Self)
        ensures
            p@.base_url == (match first_present(opt_view(emb.base_url), opt_view(llm.base_url)) {
                Some(b) => b,
                None => Seq::<char>::empty(),
            }),
            p@.api_key == first_present(opt_view(emb.api_key), opt_view(llm.api_key)),
            p@.enabled == (emb.provider == EmbeddingProviderKind::OpenAI && p@.base_url.len() > 0
                && emb.model@.len() > 0),
            p@.model == emb.model@,
            p@.dim == (if emb.dim > 0 { emb.dim } else { 1536 }),
            p@.timeout_secs == (if llm.timeout_secs > 0 { llm.timeout_secs } else { 30 }),
    {
        let base_url = match &emb.base_url {
            Some(b) => b.clone(),
            None => match &llm.base_url {
                Some(b) => b.clone(),
                None => String::new(),
            },
        };
        let api_key = match &emb.api_key {
            Some(k) => Some(k.clone()),
            None => copy_opt(&llm.api_key),
        };
        let enabled = emb.provider == EmbeddingProviderKind::OpenAI && !base_url.as_str().is_empty()
            && !emb.model.as_str().is_empty();
        EmbeddingProvider {
            enabled,
            base_url,
            api_key,
            model: emb.model.clone(),
            dim: if emb.dim > 0 { emb.dim } else { 1536 },
            timeout_secs: if llm.timeout_secs > 0 { llm.timeout_secs } else { 30 },
        }
    }

    /// Whether embeddings can be requested.
    pub fn is_enabled(&self) -> (b: bool)
        ensures
            b == self@.enabled,
    {
        self.enabled
    }

    /// The embedding dimension.
    pub fn dim(&self) -> (d: usize)
        ensures
            d == self@.dim,
    {
        self.dim
    }

    /// The backend's label: `openai-compatible` when enabled, else `char_bag_fallback`.
    pub fn backend_label(&self) -> (s: &'static str)
        ensures
            s@ == (if self@.enabled { "openai-compatible"@ } else { "char_bag_fallback"@ }),
    {
        if self.enabled { "openai-compatible" } else { "char_bag_fallback" }
    }

    /// The embeddings URL, with `/v1` added exactly once.
    pub fn embeddings_url(&self) -> (r: String)
        ensures
            r@ == versioned_url(self@.base_url, "/embeddings"@),
    {
        endpoint_url(self.base_url.as_str(), "/embeddings")
    }

    /// The model.
    pub fn model(&self) -> (m: String)
        ensures
            m@ == self@.model,
    {
        self.model.clone()
    }

    /// The timeout in seconds.
    pub fn timeout_secs(&self) -> (t: u64)
        ensures
            t == self@.timeout_secs,
    {
        self.timeout_secs
    }
}

} // verus!
