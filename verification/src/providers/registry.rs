//! All providers, under their names and aliases.
use vstd::prelude::*;
use crate::model::provider::ProviderCapabilities;
use crate::providers::anthropic::AnthropicProvider;
use crate::providers::deepseek::DeepSeekProvider;
use crate::providers::ollama::OllamaProvider;
use crate::providers::openai::OpenAiProvider;
use crate::providers::openai_compat::{
    compat_defs, compat_table, def_views, str_views, DefView, OpenAiCompatDef,
    OpenAiCompatProvider,
};
use crate::providers::http::base_of;
use crate::text::{opt_str, opt_string};

verus! {

/// How a provider is made.
#[derive(Debug)]
pub enum ProviderFactory {
    OpenAi,
    Anthropic,
    Ollama,
    DeepSeek,
    Compat(OpenAiCompatDef),
}

/// An entry of the registry.
#[derive(Debug)]
pub struct ProviderSpec {
    pub name: &'static str,
    pub aliases: Vec<&'static str>,
    pub local: bool,
    pub capabilities: ProviderCapabilities,
    pub factory: ProviderFactory,
}

pub enum FactoryView {
    OpenAi,
    Anthropic,
    Ollama,
    DeepSeek,
    Compat(DefView),
}

pub struct SpecView {
    pub name: Seq<char>,
    pub aliases: Seq<Seq<char>>,
    pub local: bool,
    pub capabilities: ProviderCapabilities,
    pub factory: FactoryView,
}

impl View for ProviderFactory {
    type V = FactoryView;

    open spec fn view(&self) -> FactoryView {
        match *self {
            ProviderFactory::OpenAi => FactoryView::OpenAi,
            ProviderFactory::Anthropic => FactoryView::Anthropic,
            ProviderFactory::Ollama => FactoryView::Ollama,
            ProviderFactory::DeepSeek => FactoryView::DeepSeek,
            ProviderFactory::Compat(def) => FactoryView::Compat(def@),
        }
    }
}

impl View for ProviderSpec {
    type V = SpecView;

    open spec fn view(&self) -> SpecView {
        SpecView {
            name: self.name@,
            aliases: str_views(self.aliases@),
            local: self.local,
            capabilities: self.capabilities,
            factory: self.factory@,
        }
    }
}

pub open spec fn spec_views(s: Seq<ProviderSpec>) -> Seq<SpecView> {
    Seq::new(s.len(), |i: int| s[i]@)
}

pub open spec fn openai_entry() -> SpecView {
    SpecView {
        name: "openai"@,
        aliases: seq!["gpt-4"@, "gpt-4o"@, "gpt-4-turbo"@, "gpt-3.5-turbo"@],
        local: false,
        capabilities: ProviderCapabilities {
            native_tool_calling: true,
            vision: true,
            streaming: true,
        },
        factory: FactoryView::OpenAi,
    }
}

pub open spec fn anthropic_entry() -> SpecView {
    SpecView {
        name: "anthropic"@,
        aliases: Seq::empty(),
        local: false,
        capabilities: ProviderCapabilities {
            native_tool_calling: true,
            vision: true,
            streaming: true,
        },
        factory: FactoryView::Anthropic,
    }
}

pub open spec fn ollama_entry() -> SpecView {
    SpecView {
        name: "ollama"@,
        aliases: seq!["ollama"@, "llama3"@, "llama3.2"@, "deepseek-r1"@],
        local: true,
        capabilities: ProviderCapabilities {
            native_tool_calling: false,
            vision: false,
            streaming: true,
        },
        factory: FactoryView::Ollama,
    }
}

pub open spec fn compat_entry(def: DefView) -> SpecView {
    SpecView {
        name: def.name,
        aliases: def.aliases,
        local: false,
        capabilities: def.capabilities,
        factory: FactoryView::Compat(def),
    }
}

/// The registry: the providers with clients of their own, then the table of
/// compatible ones.
pub open spec fn registry_table() -> Seq<SpecView> {
    seq![openai_entry(), anthropic_entry(), ollama_entry()] + Seq::new(
        compat_table().len(),
        |i: int| compat_entry(compat_table()[i]),
    )
}

/// The registry.
pub fn build_registry() -> (r: Vec<ProviderSpec>)
    ensures
        spec_views(r@) == registry_table(),
{
    let mut out: Vec<ProviderSpec> = Vec::new();
    out.push(crate::providers::openai::provider_spec());
    out.push(crate::providers::anthropic::provider_spec());
    out.push(crate::providers::ollama::provider_spec());
    let defs = compat_defs();
    let ghost all = def_views(defs@);
    for d in it: defs
        invariant
            def_views(it.seq()) == all,
            all == compat_table(),
            out@.len() == 3 + it.index(),
            out@[0]@ == openai_entry(),
            out@[1]@ == anthropic_entry(),
            out@[2]@ == ollama_entry(),
            forall|j: int|
                0 <= j < it.index() ==> (#[trigger] out@[3 + j])@ == compat_entry(
                    compat_table()[j],
                ),
    {
        proof {
            assert(all[it.index() as int] == d@);
        }
        out.push(crate::providers::openai_compat::provider_spec(d));
    }
    proof {
        assert forall|i: int| 0 <= i < registry_table().len() implies spec_views(out@)[i]
            == registry_table()[i] by {
            if i >= 3 {
                assert(out@[3 + (i - 3)]@ == compat_entry(compat_table()[i - 3]));
            }
        }
        assert(spec_views(out@) =~= registry_table());
    }
    out
}

/// A provider that was made.
pub enum AnyProvider {
    OpenAi(OpenAiProvider),
    Anthropic(AnthropicProvider),
    Ollama(OllamaProvider),
    DeepSeek(DeepSeekProvider),
    Compat(OpenAiCompatProvider),
}

/// Whether a provider is what the factory makes of a key and an address.
pub open spec fn made_by(
    p: AnyProvider,
    factory: FactoryView,
    key: Option<Seq<char>>,
    url: Option<Seq<char>>,
) -> bool {
    match (p, factory) {
        (AnyProvider::OpenAi(p), FactoryView::OpenAi) => opt_string(p.key) == key && p.base_url@
            == base_of(url, crate::providers::openai::DEFAULT_BASE_URL@),
        (AnyProvider::Anthropic(p), FactoryView::Anthropic) => opt_string(p.key) == key
            && p.base_url@ == base_of(url, crate::providers::anthropic::DEFAULT_BASE_URL@)
            && p.max_tokens == crate::providers::anthropic::DEFAULT_MAX_TOKENS,
        (AnyProvider::Ollama(p), FactoryView::Ollama) => p.base_url@ == base_of(
            url,
            crate::providers::ollama::DEFAULT_BASE_URL@,
        ),
        (AnyProvider::DeepSeek(p), FactoryView::DeepSeek) => opt_string(p.key) == key
            && p.base_url@ == base_of(url, crate::providers::deepseek::DEFAULT_BASE_URL@),
        (AnyProvider::Compat(p), FactoryView::Compat(def)) => p.def@ == def && opt_string(p.key)
            == key && p.base_url@ == base_of(url, def.default_base_url),
        _ => false,
    }
}

impl ProviderFactory {
    /// Makes a provider for a key and an address.
    pub fn make(self, key: Option<&str>, url: Option<&str>) -> (r: AnyProvider)
        ensures
            made_by(r, self@, opt_str(key), opt_str(url)),
    {
        match self {
            ProviderFactory::OpenAi => AnyProvider::OpenAi(OpenAiProvider::new(key, url)),
            ProviderFactory::Anthropic => AnyProvider::Anthropic(
                AnthropicProvider::new(key, url, None),
            ),
            ProviderFactory::Ollama => AnyProvider::Ollama(OllamaProvider::new(key, url)),
            ProviderFactory::DeepSeek => AnyProvider::DeepSeek(DeepSeekProvider::new(key, url)),
            ProviderFactory::Compat(def) => AnyProvider::Compat(
                OpenAiCompatProvider::new(def, key, url),
            ),
        }
    }
}

} // verus!
