//! OpenRouter by its own client, which names the application in its requests;
//! the table of compatible providers serves it too.
use vstd::prelude::*;
use crate::json::Json;
use crate::model::provider::{ChatRequest, ProviderCapabilities};
use crate::providers::deepseek::{build_plain_body, plain_body_tree};
use crate::providers::http::{
    base_of, base_url, header_views, push_header, ProviderRequest, RequestView,
};
use crate::providers::openai::{bearer, bearer_headers};
use crate::text::{cat2, cat4, opt_str, opt_string};

verus! {

pub const DEFAULT_BASE_URL: &'static str = "https://openrouter.ai/api/v1";

pub const APP_NAME: &'static str = "AdaClaw";

pub struct OpenRouterProvider {
    pub key: Option<String>,
    pub base_url: String,
    /// The site of the application.
    pub site_url: Option<String>,
    /// The name of the application.
    pub app_name: Option<String>,
}

/// The header `name` with a value, if there is one.
pub open spec fn optional_header(name: Seq<char>, value: Option<Seq<char>>) -> Seq<
    (Seq<char>, Seq<char>),
> {
    match value {
        Some(v) => seq![(name, v)],
        None => Seq::empty(),
    }
}

impl OpenRouterProvider {
    pub fn new(key: Option<&str>, url: Option<&str>) -> (r: Self)
        ensures
            opt_string(r.key) == opt_str(key),
            r.base_url@ == base_of(opt_str(url), DEFAULT_BASE_URL@),
            r.site_url is None,
            opt_string(r.app_name) == Some(APP_NAME@),
    {
        OpenRouterProvider {
            key: match key {
                Some(k) => Some(k.to_owned()),
                None => None,
            },
            base_url: base_url(url, DEFAULT_BASE_URL),
            site_url: None,
            app_name: Some(APP_NAME.to_owned()),
        }
    }

    pub fn with_app_info(self, site_url: Option<String>, app_name: Option<String>) -> (r: Self)
        ensures
            r == (OpenRouterProvider { site_url, app_name, ..self }),
    {
        OpenRouterProvider { site_url, app_name, ..self }
    }

    pub fn name(&self) -> (r: &'static str)
        ensures
            r@ == "openrouter"@,
    {
        "openrouter"
    }

    pub fn capabilities(&self) -> (r: ProviderCapabilities)
        ensures
            r == (ProviderCapabilities {
                native_tool_calling: true,
                vision: true,
                streaming: true,
            }),
    {
        ProviderCapabilities { native_tool_calling: true, vision: true, streaming: true }
    }

    /// The request to send.
    pub fn build_request(&self, req: &ChatRequest<'_>, model: &str, temperature: Json) -> (r:
        ProviderRequest)
        ensures
            r@ == (RequestView {
                url: self.base_url@ + "/chat/completions"@,
                headers: bearer(opt_string(self.key)) + optional_header(
                    "HTTP-Referer"@,
                    opt_string(self.site_url),
                ) + optional_header("X-Title"@, opt_string(self.app_name)),
                body: plain_body_tree(model@, temperature@, req.messages@, req.system),
            }),
    {
        let mut headers = bearer_headers(&self.key);
        let ghost h0 = header_views(headers@);
        if let Some(url) = &self.site_url {
            push_header(&mut headers, "HTTP-Referer", url.as_str());
        }
        let ghost h1 = header_views(headers@);
        proof {
            assert(h1 =~= h0 + optional_header("HTTP-Referer"@, opt_string(self.site_url)));
        }
        if let Some(name) = &self.app_name {
            push_header(&mut headers, "X-Title", name.as_str());
        }
        proof {
            assert(header_views(headers@) =~= h1 + optional_header(
                "X-Title"@,
                opt_string(self.app_name),
            ));
        }
        ProviderRequest {
            url: cat2(self.base_url.as_str(), "/chat/completions"),
            headers,
            body: build_plain_body(req, model, temperature),
        }
    }

    /// The failure that an answer without success stands for.
    pub fn failure(status: &str, body: &str) -> (r: String)
        ensures
            r@ == "OpenRouter API error "@ + status@ + ": "@ + body@,
    {
        cat4("OpenRouter API error ", status, ": ", body)
    }
}

} // verus!
