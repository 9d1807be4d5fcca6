//! Embeddings by the interface of OpenAI.
use vstd::prelude::*;
use crate::json::{json_views, Json, JsonTree};
use crate::memory::ranking::{rank, ranked};
use crate::providers::http::{header_views, push_header, ProviderRequest, RequestView};
use crate::text::{cat2, cat4, str_trim_end_char, trim_end_char};

verus! {

pub const DEFAULT_MODEL: &'static str = "text-embedding-3-small";

/// The size of an embedding of that model.
pub const DEFAULT_DIM: usize = 1536;

pub struct OpenAiEmbedProvider {
    pub api_key: String,
    pub base_url: String,
    pub model: String,
    pub dim: usize,
}

/// An embedding in an answer, with the number of the text it belongs to.
#[derive(Debug)]
pub struct EmbedData {
    pub embedding: Vec<u32>,
    pub index: usize,
}

pub open spec fn str_trees(s: Seq<&str>) -> Seq<JsonTree> {
    Seq::new(s.len(), |i: int| JsonTree::Str(s[i]@))
}

/// The embeddings with what puts them in the order of their texts.
pub open spec fn indexed(s: Seq<EmbedData>) -> Seq<(u64, Vec<u32>)> {
    Seq::new(s.len(), |i: int| ((u64::MAX - s[i].index) as u64, s[i].embedding))
}

/// The embeddings in the order of the texts; of those with the same number the
/// first that came.
pub open spec fn ordered(s: Seq<EmbedData>) -> Seq<Vec<u32>> {
    let r = ranked(indexed(s));
    Seq::new(r.len(), |i: int| r[i].1)
}

impl OpenAiEmbedProvider {
    pub fn new(api_key: String, base_url: String) -> (r: OpenAiEmbedProvider)
        ensures
            r.api_key == api_key,
            r.base_url == base_url,
            r.model@ == DEFAULT_MODEL@,
            r.dim == DEFAULT_DIM,
    {
        Self::with_model(api_key, base_url, DEFAULT_MODEL.to_owned(), DEFAULT_DIM)
    }

    pub fn with_model(api_key: String, base_url: String, model: String, dim: usize) -> (r:
        OpenAiEmbedProvider)
        ensures
            r == (OpenAiEmbedProvider { api_key, base_url, model, dim }),
    {
        OpenAiEmbedProvider { api_key, base_url, model, dim }
    }

    pub fn name(&self) -> (r: &'static str)
        ensures
            r@ == "openai"@,
    {
        "openai"
    }

    pub fn dim(&self) -> (r: usize)
        ensures
            r == self.dim,
    {
        self.dim
    }

    /// The request that embeds some texts; none for no texts.
    pub fn embed(&self, texts: &[&str]) -> (r: Option<ProviderRequest>)
        ensures
            match r {
                Some(q) => texts@.len() > 0 && q@ == (RequestView {
                    url: trim_end_char(self.base_url@, '/') + "/embeddings"@,
                    headers: seq![("Authorization"@, "Bearer "@ + self.api_key@)],
                    body: JsonTree::Obj(
                        Map::empty().insert("input"@, JsonTree::Arr(str_trees(texts@))).insert(
                            "model"@,
                            JsonTree::Str(self.model@),
                        ),
                    ),
                }),
                None => texts@.len() == 0,
            },
    {
        if texts.len() == 0 {
            return None;
        }
        let mut input: Vec<Json> = Vec::new();
        let mut i: usize = 0;
        while i < texts.len()
            invariant
                i <= texts@.len(),
                input@.len() == i,
                forall|k: int| 0 <= k < i ==> (#[trigger] input@[k])@ == JsonTree::Str(texts@[k]@),
            decreases texts.len() - i,
        {
            input.push(Json::text(texts[i]));
            i = i + 1;
        }
        proof {
            assert(json_views(input@) =~= str_trees(texts@));
        }
        let base = str_trim_end_char(self.base_url.as_str(), '/');
        let mut headers: Vec<(String, String)> = Vec::new();
        let bearer = cat2("Bearer ", self.api_key.as_str());
        push_header(&mut headers, "Authorization", bearer.as_str());
        proof {
            assert(header_views(headers@) =~= seq![("Authorization"@, "Bearer "@ + self.api_key@)]);
        }
        Some(
            ProviderRequest {
                url: cat2(base.as_str(), "/embeddings"),
                headers,
                body: Json::obj().with("input", Json::arr(input)).with(
                    "model",
                    Json::text(self.model.as_str()),
                ),
            },
        )
    }

    /// The failure that an answer without success stands for.
    pub fn failure(status: &str, body: &str) -> (r: String)
        ensures
            r@ == "OpenAI embedding API error "@ + status@ + ": "@ + body@,
    {
        cat4("OpenAI embedding API error ", status, ": ", body)
    }

    /// The embeddings of an answer in the order of the texts.
    pub fn order_embeddings(data: Vec<EmbedData>) -> (r: Vec<Vec<u32>>)
        ensures
            r@ == ordered(data@),
    {
        let ghost all = data@;
        let mut items: Vec<(u64, Vec<u32>)> = Vec::new();
        for d in it: data
            invariant
                it.seq() == all,
                items@.len() == it.index(),
                forall|k: int| 0 <= k < items@.len() ==> #[trigger] items@[k] == indexed(all)[k],
        {
            items.push((u64::MAX - d.index as u64, d.embedding));
        }
        proof {
            assert(items@ =~= indexed(all));
        }
        let sorted = rank(items);
        let ghost order = sorted@;
        let mut out: Vec<Vec<u32>> = Vec::new();
        for x in it: sorted
            invariant
                it.seq() == order,
                out@.len() == it.index(),
                forall|k: int| 0 <= k < out@.len() ==> #[trigger] out@[k] == order[k].1,
        {
            out.push(x.1);
        }
        proof {
            assert(out@ =~= ordered(all));
        }
        out
    }
}

} // verus!
