//! No embeddings: recall goes by words alone.
use vstd::prelude::*;

verus! {

/// Embeds nothing.
#[derive(Debug)]
pub struct NoopEmbedProvider;

impl NoopEmbedProvider {
    pub fn name(&self) -> (r: &'static str)
        ensures
            r@ == "none"@,
    {
        "none"
    }

    pub fn dim(&self) -> (r: usize)
        ensures
            r == 0,
    {
        0
    }

    /// An empty embedding for each text.
    pub fn embed(&self, texts: &[&str]) -> (r: Vec<Vec<u32>>)
        ensures
            r@.len() == texts@.len(),
            forall|i: int| 0 <= i < r@.len() ==> (#[trigger] r@[i])@.len() == 0,
    {
        let mut out: Vec<Vec<u32>> = Vec::new();
        let mut i: usize = 0;
        while i < texts.len()
            invariant
                i <= texts@.len(),
                out@.len() == i,
                forall|k: int| 0 <= k < i ==> (#[trigger] out@[k])@.len() == 0,
            decreases texts.len() - i,
        {
            out.push(Vec::new());
            i = i + 1;
        }
        out
    }
}

} // verus!
