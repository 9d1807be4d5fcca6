use adaclaw::memory::embeddings::openai::{EmbedData, OpenAiEmbedProvider, DEFAULT_DIM};
use adaclaw::memory::embeddings::{
    bytes_to_vec, create_embedding_provider, embed_one, vec_to_bytes, Embedder, EmbeddingFeatures,
    NO_EMBED_KEY,
};
use adaclaw::memory::error::MemoryError;
use adaclaw::memory::factory::{
    create_memory, create_memory_with_config, MemoryFactoryConfig, MemoryPlan,
};
use adaclaw::memory::none::NoneMemory;
use adaclaw::model::memory::{Category, Memory, RecallScope};

const ALL: EmbeddingFeatures = EmbeddingFeatures {
    fastembed: true,
    openai: true,
};

#[test]
fn test_bytes_roundtrip() {
    let original = vec![0.1_f32, 0.5, -0.3, 1.0];
    let bits: Vec<u32> = original.iter().map(|x| x.to_bits()).collect();
    let bytes = vec_to_bytes(&bits);
    let recovered = bytes_to_vec(&bytes);
    for (a, b) in original.iter().zip(recovered.iter()) {
        assert!((a - f32::from_bits(*b)).abs() < 1e-6);
    }
    assert_eq!(recovered.len(), 4);
    assert_eq!(&bytes[12..16], &1.0_f32.to_le_bytes());
}

#[test]
fn test_noop_provider() {
    let p = create_embedding_provider("none", None, None, None, ALL).unwrap();
    assert_eq!(p.name(), "none");
    assert_eq!(p.dim(), 0);
}

#[test]
fn the_key_comes_from_the_settings_or_the_environment() {
    let p = create_embedding_provider("openai", None, Some("env"), None, ALL).unwrap();
    assert_eq!(p.name(), "openai");
    assert_eq!(p.dim(), DEFAULT_DIM);
    match create_embedding_provider("openai", Some("mine"), Some("env"), None, ALL).unwrap() {
        Embedder::OpenAi(p) => {
            assert_eq!(p.api_key, "mine");
            assert_eq!(p.base_url, "https://api.openai.com/v1");
        }
        _ => panic!("another embedder"),
    }
    assert_eq!(
        create_embedding_provider("openai", None, None, None, ALL).err().unwrap(),
        NO_EMBED_KEY
    );
}

#[test]
fn requests_hold_all_texts_and_none_are_made_for_none() {
    let p = OpenAiEmbedProvider::new("k".to_string(), "https://api.openai.com/v1".to_string());
    assert!(p.embed(&[]).is_none());
    let request = p.embed(&["a", "b"]).unwrap();
    assert_eq!(request.url, "https://api.openai.com/v1/embeddings");
    assert_eq!(request.body.field("input").item(1).as_str(), Some("b"));
}

#[test]
fn embeddings_come_in_the_order_of_the_texts() {
    let data = vec![
        EmbedData { embedding: vec![2], index: 1 },
        EmbedData { embedding: vec![1], index: 0 },
    ];
    assert_eq!(OpenAiEmbedProvider::order_embeddings(data), vec![vec![1], vec![2]]);
    assert_eq!(embed_one(vec![vec![7]]).unwrap(), vec![7]);
    assert!(embed_one(vec![]).is_err());
}

#[test]
fn backends_are_chosen_by_name() {
    assert!(matches!(create_memory("none", "").unwrap(), MemoryPlan::Nothing));
    match create_memory("markdown", "/notes").unwrap() {
        MemoryPlan::Markdown { path } => assert_eq!(path, "/notes"),
        _ => panic!("another plan"),
    }
    let cfg = MemoryFactoryConfig {
        backend: "sqlite",
        path: "/db",
        embedding_provider: "openai",
        embed_api_key: Some("k"),
        embed_base_url: None,
    };
    match create_memory_with_config(&cfg, None, ALL).unwrap() {
        MemoryPlan::Sqlite { path, embedder } => {
            assert_eq!(path, "/db");
            assert_eq!(embedder.unwrap().name(), "openai");
        }
        _ => panic!("another plan"),
    }
}

#[test]
fn no_memory_remembers_nothing() {
    let mem = NoneMemory::new();
    mem.store("k", "v", Category::Core, None, None).unwrap();
    assert!(mem.get("k").unwrap().is_none());
    assert!(mem.recall("v", 5, None, RecallScope::Full).unwrap().is_empty());
    assert_eq!(mem.count().unwrap(), 0);
    assert!(!mem.forget("k").unwrap());
    assert!(mem.health_check());
}

#[test]
fn errors_say_what_failed() {
    assert_eq!(
        MemoryError::NotFound("k1".to_string()).to_text(),
        "Entry not found: k1"
    );
}
