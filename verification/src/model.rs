//! The catalog's records and the provider key derived from a model id.

use vstd::prelude::*;
use vstd::string::*;
use crate::text::{chars_of, find_char, first_index_of};

verus! {

/// Per-token prices of one model, as decimal text.
#[derive(Clone, Debug)]
pub struct Pricing {
    pub prompt: String,
    pub completion: String,
    pub request: Option<String>,
    pub image: Option<String>,
    pub input_cache_read: Option<String>,
    pub input_cache_write: Option<String>,
    pub web_search: Option<String>,
    pub internal_reasoning: Option<String>,
}

#[derive(Clone, Debug)]
pub struct Architecture {
    pub modality: Option<String>,
    pub input_modalities: Option<Vec<String>>,
    pub output_modalities: Option<Vec<String>>,
    pub tokenizer: Option<String>,
    pub instruct_type: Option<String>,
}

#[derive(Clone, Debug)]
pub struct TopProvider {
    pub context_length: Option<u64>,
    pub max_completion_tokens: Option<u64>,
    pub is_moderated: Option<bool>,
}

#[derive(Clone, Debug)]
pub struct PerRequestLimits {
    pub prompt_tokens: Option<String>,
    pub completion_tokens: Option<String>,
}

/// One model of the catalog. Only `id`, `name` and `pricing` take part in
/// filtering, ordering and cost computation; the rest is carried along.
#[derive(Clone, Debug)]
pub struct Model {
    pub id: String,
    pub canonical_slug: Option<String>,
    pub hugging_face_id: Option<String>,
    pub name: Option<String>,
    pub created: Option<u64>,
    pub description: Option<String>,
    pub pricing: Pricing,
    pub context_length: Option<u64>,
    pub architecture: Option<Architecture>,
    pub top_provider: Option<TopProvider>,
    pub per_request_limits: Option<PerRequestLimits>,
    pub supported_parameters: Option<Vec<String>>,
}

/// The provider of ids that name none.
pub open spec fn unknown_provider() -> Seq<char> {
    "unknown"@
}

/// The provider key of a model id: what stands before the first `/`, or
/// `unknown` where the id has no `/`.
pub open spec fn provider_of(id: Seq<char>) -> Seq<char> {
    if first_index_of(id, '/') < id.len() {
        id.take(first_index_of(id, '/'))
    } else {
        unknown_provider()
    }
}

/// Computes the provider key of a model id.
pub fn provider_key(id: &str) -> (r: String)
    ensures
        r@ == provider_of(id@),
{
    let chars = chars_of(id);
    let at: usize = find_char(&chars, '/');
    if at < chars.len() {
        String::from_str(id.substring_char(0, at))
    } else {
        String::from_str("unknown")
    }
}

impl Model {
    /// The provider key of this model.
    pub fn provider(&self) -> (r: String)
        ensures
            r@ == provider_of(self.id@),
    {
        provider_key(self.id.as_str())
    }
}

} // verus!
