//! What the embedding model is given, and how many sessions share the work.
use vstd::prelude::*;

verus! {

/// Name of the model.
pub const MODEL_ID: &'static str = "jinaai/jina-embeddings-v2-base-code";

/// Most tokens that the model takes.
pub const MAX_LENGTH: usize = 8192;

/// Numbers of a vector.
pub const HIDDEN_SIZE: usize = 768;

/// Number of sessions, where nothing else is set.
pub const DEFAULT_WORKERS: usize = 4;

/// How many sessions embed at the same time.
#[derive(Debug, Clone, Copy, PartialEq, Eq, Structural)]
pub struct ParallelConfig {
    /// Number of sessions.
    pub num_workers: usize,
    /// Threads of each session.
    pub intra_threads: usize,
}

/// `num_cpus::get`: the number of logical cores that are available. How many there are is
/// left open.
#[verifier::external_body]
fn logical_cores() -> (r: usize) {
    num_cpus::get()
}

impl ParallelConfig {
    /// The sessions for a machine with the given number of cores: the cores are divided among
    /// them, and each has at least one thread.
    pub fn for_cores(total_cores: usize) -> (r: Self)
        ensures
            r.num_workers == DEFAULT_WORKERS,
            r.intra_threads == if total_cores >= DEFAULT_WORKERS {
                total_cores as int / DEFAULT_WORKERS as int
            } else {
                1
            },
            r.num_workers == 4,
            total_cores >= 4 ==> 4 * r.intra_threads <= total_cores < 4 * (r.intra_threads + 1),
            total_cores < 4 ==> r.intra_threads == 1,
    {
        let share: usize = total_cores / DEFAULT_WORKERS;
        ParallelConfig {
            num_workers: DEFAULT_WORKERS,
            intra_threads: if share > 1 {
                share
            } else {
                1
            },
        }
    }
}

impl Default for ParallelConfig {
    fn default() -> (r: Self)
        ensures
            r.num_workers == DEFAULT_WORKERS,
            r.intra_threads >= 1,
    {
        ParallelConfig::for_cores(logical_cores())
    }
}

/// Tokens as the model takes them: only the first ones, as signed numbers.
pub open spec fn model_tokens(tokens: Seq<u32>) -> Seq<i64> {
    let kept = if tokens.len() > MAX_LENGTH {
        tokens.take(MAX_LENGTH as int)
    } else {
        tokens
    };
    kept.map_values(|t: u32| t as i64)
}

/// Tokens as the model takes them, see [`model_tokens`].
pub fn truncate_tokens(tokens: &[u32]) -> (r: Vec<i64>)
    ensures
        r@ == model_tokens(tokens@),
{
    let n: usize = if tokens.len() > MAX_LENGTH {
        MAX_LENGTH
    } else {
        tokens.len()
    };
    let mut out: Vec<i64> = Vec::new();
    for i in 0..n
        invariant
            n <= tokens@.len(),
            out@ =~= tokens@.take(i as int).map_values(|t: u32| t as i64),
    {
        out.push(tokens[i] as i64);
        assert(out@ =~= tokens@.take(i + 1).map_values(|t: u32| t as i64));
    }
    assert(out@ =~= model_tokens(tokens@));
    out
}

/// The model is given the first 8192 tokens at most, in order, and none is changed.
pub proof fn model_takes_the_first_tokens(tokens: Seq<u32>, i: int)
    ensures
        model_tokens(tokens).len() == if tokens.len() < 8192 {
            tokens.len() as int
        } else {
            8192
        },
        0 <= i < model_tokens(tokens).len() ==> model_tokens(tokens)[i] == tokens[i],
{
}

}
