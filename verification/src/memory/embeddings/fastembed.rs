//! Embeddings by a model on the same machine.
use vstd::prelude::*;

verus! {

/// The size of an embedding.
pub const DIM: usize = 384;

/// The model that is used.
pub const MODEL: &'static str = "AllMiniLML6V2";

/// Which model embeds texts on the same machine.
#[derive(Debug)]
pub struct FastEmbedProvider {
    pub model: &'static str,
}

impl FastEmbedProvider {
    pub fn new() -> (r: FastEmbedProvider)
        ensures
            r.model@ == MODEL@,
    {
        FastEmbedProvider { model: MODEL }
    }

    pub fn name(&self) -> (r: &'static str)
        ensures
            r@ == "fastembed"@,
    {
        "fastembed"
    }

    pub fn dim(&self) -> (r: usize)
        ensures
            r == DIM,
    {
        DIM
    }
}

} // verus!
