//! Embeddings of texts: which backend makes them, and how they are kept as
//! bytes.
//!
//! The numbers of an embedding are 32-bit floating-point numbers; here they
//! are held as their bits.
use vstd::prelude::*;
use crate::memory::embeddings::fastembed::FastEmbedProvider;
use crate::memory::embeddings::none::NoopEmbedProvider;
use crate::memory::embeddings::openai::OpenAiEmbedProvider;
use crate::text::{opt_str, same_str};

pub mod fastembed;
pub mod none;
pub mod openai;

verus! {

/// The byte `i` of a number, the lowest first.
pub open spec fn byte_of(bits: u32, i: int) -> u8 {
    if i == 0 {
        (bits % 0x100) as u8
    } else if i == 1 {
        (bits / 0x100 % 0x100) as u8
    } else if i == 2 {
        (bits / 0x1_0000 % 0x100) as u8
    } else {
        (bits / 0x100_0000) as u8
    }
}

/// Numbers as bytes, the lowest byte of each first.
pub open spec fn bytes_of(v: Seq<u32>) -> Seq<u8> {
    Seq::new(4 * v.len(), |k: int| byte_of(v[k / 4], k % 4))
}

/// The number of four bytes.
pub open spec fn number_of(a: u8, b: u8, c: u8, d: u8) -> u32 {
    (a + 0x100 * b + 0x1_0000 * c + 0x100_0000 * d) as u32
}

/// The numbers of some bytes; bytes that make no whole number are left out.
pub open spec fn numbers_of(b: Seq<u8>) -> Seq<u32> {
    Seq::new(
        b.len() / 4,
        |i: int| number_of(b[4 * i], b[4 * i + 1], b[4 * i + 2], b[4 * i + 3]),
    )
}

/// Numbers are read back from their bytes.
pub proof fn law_bytes_round_trip(v: Seq<u32>)
    ensures
        numbers_of(bytes_of(v)) == v,
{
    let b = bytes_of(v);
    assert(b.len() / 4 == v.len());
    assert forall|i: int| 0 <= i < v.len() implies numbers_of(b)[i] == v[i] by {
        assert((4 * i) / 4 == i && (4 * i) % 4 == 0);
        assert((4 * i + 1) / 4 == i && (4 * i + 1) % 4 == 1);
        assert((4 * i + 2) / 4 == i && (4 * i + 2) % 4 == 2);
        assert((4 * i + 3) / 4 == i && (4 * i + 3) % 4 == 3);
        lemma_number_of_bytes(v[i]);
    }
    assert(numbers_of(b) =~= v);
}

proof fn lemma_number_of_bytes(n: u32)
    ensures
        number_of(byte_of(n, 0), byte_of(n, 1), byte_of(n, 2), byte_of(n, 3)) == n,
{
    let q = n / 0x100;
    let r = q / 0x100;
    assert(n == 0x100 * q + n % 0x100);
    assert(q == 0x100 * r + q % 0x100);
    assert(n / 0x1_0000 == r);
    assert(r == 0x100 * (r / 0x100) + r % 0x100);
    assert(n / 0x100_0000 == r / 0x100);
}

/// Four bytes are read back from their number.
pub proof fn law_whole_numbers_round_trip(b: Seq<u8>)
    requires
        b.len() % 4 == 0,
    ensures
        bytes_of(numbers_of(b)) == b,
{
    let v = numbers_of(b);
    assert forall|k: int| 0 <= k < b.len() implies bytes_of(v)[k] == b[k] by {
        let i = k / 4;
        assert(k == 4 * i + k % 4);
        lemma_bytes_of_number(b[4 * i], b[4 * i + 1], b[4 * i + 2], b[4 * i + 3]);
    }
    assert(bytes_of(v) =~= b);
}

proof fn lemma_bytes_of_number(a: u8, b: u8, c: u8, d: u8)
    ensures
        byte_of(number_of(a, b, c, d), 0) == a,
        byte_of(number_of(a, b, c, d), 1) == b,
        byte_of(number_of(a, b, c, d), 2) == c,
        byte_of(number_of(a, b, c, d), 3) == d,
{
    let n = number_of(a, b, c, d);
    assert(n == a + 0x100 * b + 0x1_0000 * c + 0x100_0000 * d);
    assert(n / 0x100 == b + 0x100 * c + 0x1_0000 * d);
    assert(n / 0x1_0000 == c + 0x100 * d);
    assert(n / 0x100_0000 == d);
}

/// Numbers as bytes.
pub fn vec_to_bytes(v: &[u32]) -> (r: Vec<u8>)
    ensures
        r@ == bytes_of(v@),
{
    let mut out: Vec<u8> = Vec::new();
    let mut i: usize = 0;
    while i < v.len()
        invariant
            i <= v@.len(),
            out@.len() == 4 * i,
            forall|k: int| 0 <= k < 4 * i ==> out@[k] == byte_of(v@[k / 4], k % 4),
        decreases v.len() - i,
    {
        let n: u32 = v[i];
        let ghost before = out@;
        out.push((n % 0x100) as u8);
        out.push((n / 0x100 % 0x100) as u8);
        out.push((n / 0x1_0000 % 0x100) as u8);
        out.push((n / 0x100_0000) as u8);
        proof {
            assert forall|k: int| 0 <= k < 4 * (i + 1) implies out@[k] == byte_of(
                v@[k / 4],
                k % 4,
            ) by {
                if k < 4 * i {
                    assert(out@[k] == before[k]);
                } else {
                    assert(k / 4 == i);
                }
            }
        }
        i = i + 1;
    }
    proof {
        assert(out@ =~= bytes_of(v@));
    }
    out
}

/// The numbers of some bytes.
pub fn bytes_to_vec(b: &[u8]) -> (r: Vec<u32>)
    ensures
        r@ == numbers_of(b@),
{
    let n: usize = b.len();
    let mut out: Vec<u32> = Vec::new();
    let mut at: usize = 0;
    while n - at >= 4
        invariant
            n == b@.len(),
            at <= n,
            at == 4 * out@.len(),
            forall|i: int|
                0 <= i < out@.len() ==> #[trigger] out@[i] == number_of(
                    b@[4 * i],
                    b@[4 * i + 1],
                    b@[4 * i + 2],
                    b@[4 * i + 3],
                ),
        decreases n - at,
    {
        let word: u32 = b[at] as u32 + 0x100 * b[at + 1] as u32 + 0x1_0000 * b[at + 2] as u32
            + 0x100_0000 * b[at + 3] as u32;
        out.push(word);
        at = at + 4;
    }
    proof {
        assert(out@ =~= numbers_of(b@));
    }
    out
}

/// What embeds texts.
pub enum Embedder {
    Fast(FastEmbedProvider),
    OpenAi(OpenAiEmbedProvider),
    Noop(NoopEmbedProvider),
}

/// Which backends the program was built with.
#[derive(Clone, Copy, Debug, PartialEq, Eq, Structural)]
pub struct EmbeddingFeatures {
    pub fastembed: bool,
    pub openai: bool,
}

pub const NO_EMBED_KEY: &'static str = "OpenAI embedding requires an API key";

pub const OPENAI_BASE_URL: &'static str = "https://api.openai.com/v1";

/// The first of two values that is there.
pub open spec fn either(a: Option<Seq<char>>, b: Option<Seq<char>>) -> Option<Seq<char>> {
    match a {
        Some(s) => Some(s),
        None => b,
    }
}

/// Whether an embedder is what a backend's name stands for.
pub open spec fn made_for(
    e: Embedder,
    backend: Seq<char>,
    key: Option<Seq<char>>,
    base_url: Option<Seq<char>>,
    features: EmbeddingFeatures,
) -> bool {
    if backend == "fastembed"@ && features.fastembed {
        e is Fast
    } else if backend == "openai"@ && features.openai {
        e matches Embedder::OpenAi(p) && Some(p.api_key@) == key && p.base_url@ == (
        match base_url {
            Some(u) => u,
            None => OPENAI_BASE_URL@,
        }) && p.model@ == openai::DEFAULT_MODEL@ && p.dim == openai::DEFAULT_DIM
    } else {
        e is Noop
    }
}

impl Embedder {
    pub fn name(&self) -> (r: &'static str)
        ensures
            r@ == match *self {
                Embedder::Fast(_) => "fastembed"@,
                Embedder::OpenAi(_) => "openai"@,
                Embedder::Noop(_) => "none"@,
            },
    {
        match self {
            Embedder::Fast(p) => p.name(),
            Embedder::OpenAi(p) => p.name(),
            Embedder::Noop(p) => p.name(),
        }
    }

    /// The size of an embedding.
    pub open spec fn size(&self) -> usize {
        match *self {
            Embedder::Fast(_) => fastembed::DIM,
            Embedder::OpenAi(p) => p.dim,
            Embedder::Noop(_) => 0,
        }
    }

    /// The size of an embedding.
    pub fn dim(&self) -> (r: usize)
        ensures
            r == self.size(),
    {
        match self {
            Embedder::Fast(p) => p.dim(),
            Embedder::OpenAi(p) => p.dim(),
            Embedder::Noop(p) => p.dim(),
        }
    }
}

/// The embedder that a backend's name stands for; a name that stands for none
/// gives one that embeds nothing.  Without a key the one from the environment
/// is used.
pub fn create_embedding_provider(
    backend: &str,
    api_key: Option<&str>,
    env_key: Option<&str>,
    base_url: Option<&str>,
    features: EmbeddingFeatures,
) -> (r: Result<Embedder, String>)
    ensures
        match r {
            Ok(e) => made_for(
                e,
                backend@,
                either(opt_str(api_key), opt_str(env_key)),
                opt_str(base_url),
                features,
            ),
            Err(m) => backend@ == "openai"@ && features.openai && api_key is None && env_key is None
                && m@ == NO_EMBED_KEY@,
        },
{
    proof {
        reveal_strlit("fastembed");
        reveal_strlit("openai");
        assert("fastembed"@.len() != "openai"@.len());
    }
    if features.fastembed && same_str(backend, "fastembed") {
        return Ok(Embedder::Fast(FastEmbedProvider::new()));
    }
    if features.openai && same_str(backend, "openai") {
        let key = match api_key {
            Some(k) => k,
            None => match env_key {
                Some(k) => k,
                None => {
                    return Err(NO_EMBED_KEY.to_owned());
                },
            },
        };
        let base = match base_url {
            Some(u) => u,
            None => OPENAI_BASE_URL,
        };
        return Ok(
            Embedder::OpenAi(OpenAiEmbedProvider::new(key.to_owned(), base.to_owned())),
        );
    }
    Ok(Embedder::Noop(NoopEmbedProvider))
}

/// The embedding of a single text, from those of a batch: the last one.
pub fn embed_one(batch: Vec<Vec<u32>>) -> (r: Result<Vec<u32>, String>)
    ensures
        match r {
            Ok(v) => batch@.len() > 0 && v@ == batch@.last()@,
            Err(m) => batch@.len() == 0 && m@ == "Embedding returned empty result"@,
        },
{
    let mut batch = batch;
    match batch.pop() {
        Some(v) => Ok(v),
        None => Err("Embedding returned empty result".to_owned()),
    }
}

} // verus!
