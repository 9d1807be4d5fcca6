//! Which memory a configuration asks for.
use vstd::prelude::*;
use crate::memory::embeddings::{
    create_embedding_provider, either, made_for, Embedder, EmbeddingFeatures, NO_EMBED_KEY,
};
use crate::text::{cat3, opt_str, same_str};

verus! {

/// What a memory is configured by.
pub struct MemoryFactoryConfig<'a> {
    /// `"sqlite"`, `"markdown"` or `"none"`.
    pub backend: &'a str,
    /// The file of the database or the directory of the files.
    pub path: &'a str,
    /// `"fastembed"`, `"openai"` or `"none"`.
    pub embedding_provider: &'a str,
    pub embed_api_key: Option<&'a str>,
    pub embed_base_url: Option<&'a str>,
}

impl<'a> Default for MemoryFactoryConfig<'a> {
    fn default() -> (r: Self)
        ensures
            r.backend@ == "sqlite"@,
            r.path@ == "memory.db"@,
            r.embedding_provider@ == "none"@,
            r.embed_api_key is None,
            r.embed_base_url is None,
    {
        MemoryFactoryConfig {
            backend: "sqlite",
            path: "memory.db",
            embedding_provider: "none",
            embed_api_key: None,
            embed_base_url: None,
        }
    }
}

/// The memory that is to be opened.
pub enum MemoryPlan {
    /// A database, with an embedder if texts are embedded.
    Sqlite { path: String, embedder: Option<Embedder> },
    /// A directory of files.
    Markdown { path: String },
    /// A memory that keeps nothing.
    Nothing,
}

/// The path, or the usual one if it is empty.
pub open spec fn path_or(path: Seq<char>, usual: Seq<char>) -> Seq<char> {
    if path.len() == 0 {
        usual
    } else {
        path
    }
}

/// Whether a plan is what a configuration asks for.
pub open spec fn planned(
    r: Result<MemoryPlan, String>,
    cfg: MemoryFactoryConfig,
    env_key: Option<Seq<char>>,
    features: EmbeddingFeatures,
) -> bool {
    let key = either(opt_str(cfg.embed_api_key), env_key);
    if cfg.backend@ == "sqlite"@ {
        if cfg.embedding_provider@ == "openai"@ && features.openai && key is None {
            r matches Err(e) && e@ == NO_EMBED_KEY@
        } else {
            r matches Ok(MemoryPlan::Sqlite { path, embedder }) && path@ == path_or(
                cfg.path@,
                "memory.db"@,
            ) && match embedder {
                Some(e) => e.size() > 0 && made_for(
                    e,
                    cfg.embedding_provider@,
                    key,
                    opt_str(cfg.embed_base_url),
                    features,
                ),
                None => !(cfg.embedding_provider@ == "fastembed"@ && features.fastembed) && !(
                cfg.embedding_provider@ == "openai"@ && features.openai),
            }
        }
    } else if cfg.backend@ == "markdown"@ {
        r matches Ok(MemoryPlan::Markdown { path }) && path@ == path_or(cfg.path@, "memory"@)
    } else if cfg.backend@ == "none"@ || cfg.backend@.len() == 0 {
        r matches Ok(MemoryPlan::Nothing)
    } else {
        r matches Err(e) && e@ == "Unknown memory backend: '"@ + cfg.backend@
            + "'. Valid options: sqlite, markdown, none"@
    }
}

/// The memory that a configuration asks for.
pub fn create_memory_with_config(
    cfg: &MemoryFactoryConfig<'_>,
    env_key: Option<&str>,
    features: EmbeddingFeatures,
) -> (r: Result<MemoryPlan, String>)
    ensures
        planned(r, *cfg, opt_str(env_key), features),
{
    proof {
        reveal_strlit("sqlite");
        reveal_strlit("markdown");
        reveal_strlit("none");
        reveal_strlit("fastembed");
        reveal_strlit("openai");
        assert("sqlite"@.len() != "markdown"@.len());
        assert("sqlite"@.len() != "none"@.len());
        assert("none"@.len() != "markdown"@.len());
        assert("fastembed"@.len() != "openai"@.len());
    }
    if same_str(cfg.backend, "sqlite") {
        let path = if cfg.path.is_empty() {
            "memory.db".to_owned()
        } else {
            cfg.path.to_owned()
        };
        let embedder = match create_embedding_provider(
            cfg.embedding_provider,
            cfg.embed_api_key,
            env_key,
            cfg.embed_base_url,
            features,
        ) {
            Ok(e) => e,
            Err(e) => {
                return Err(e);
            },
        };
        let embedder = if embedder.dim() > 0 {
            Some(embedder)
        } else {
            None
        };
        return Ok(MemoryPlan::Sqlite { path, embedder });
    }
    if same_str(cfg.backend, "markdown") {
        let path = if cfg.path.is_empty() {
            "memory".to_owned()
        } else {
            cfg.path.to_owned()
        };
        return Ok(MemoryPlan::Markdown { path });
    }
    if same_str(cfg.backend, "none") || cfg.backend.is_empty() {
        return Ok(MemoryPlan::Nothing);
    }
    Err(
        cat3(
            "Unknown memory backend: '",
            cfg.backend,
            "'. Valid options: sqlite, markdown, none",
        ),
    )
}

/// The memory of a backend at a path, without embeddings.
pub fn create_memory(backend: &str, path: &str) -> (r: Result<MemoryPlan, String>)
    ensures
        match r {
            Ok(MemoryPlan::Sqlite { path: p, embedder }) => backend@ == "sqlite"@ && p@ == path_or(
                path@,
                "memory.db"@,
            ) && embedder is None,
            Ok(MemoryPlan::Markdown { path: p }) => backend@ == "markdown"@ && p@ == path_or(
                path@,
                "memory"@,
            ),
            Ok(MemoryPlan::Nothing) => backend@ == "none"@ || backend@.len() == 0,
            Err(e) => backend@ != "sqlite"@ && backend@ != "markdown"@ && backend@ != "none"@
                && backend@.len() > 0 && e@ == "Unknown memory backend: '"@ + backend@
                + "'. Valid options: sqlite, markdown, none"@,
        },
{
    let cfg = MemoryFactoryConfig {
        backend,
        path,
        embedding_provider: "none",
        embed_api_key: None,
        embed_base_url: None,
    };
    proof {
        reveal_strlit("none");
        reveal_strlit("fastembed");
        reveal_strlit("openai");
        reveal_strlit("sqlite");
        reveal_strlit("markdown");
        assert("none"@.len() != "fastembed"@.len());
        assert("none"@.len() != "openai"@.len());
        assert("sqlite"@.len() != "markdown"@.len());
        assert("sqlite"@.len() != "none"@.len());
        assert("none"@.len() != "markdown"@.len());
    }
    create_memory_with_config(
        &cfg,
        None,
        EmbeddingFeatures { fastembed: false, openai: false },
    )
}

} // verus!
