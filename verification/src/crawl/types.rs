//! What goes wrong in a crawl.
use vstd::prelude::*;

verus! {

/// The failures of a crawl. Failures of the storage end it at once; only chunks that could
/// not be embedded are counted.
#[derive(Debug)]
pub struct CrawlFailures {
    /// Chunks that could not be embedded, with the reasons.
    pub embedding_failures: Vec<String>,
}

impl Default for CrawlFailures {
    fn default() -> (r: Self)
        ensures
            r.embedding_failures@.len() == 0,
    {
        CrawlFailures { embedding_failures: Vec::new() }
    }
}

impl CrawlFailures {
    /// Number of failures.
    pub fn total(&self) -> (r: usize)
        ensures
            r == self.embedding_failures@.len(),
    {
        self.embedding_failures.len()
    }

    /// Whether there is a failure.
    pub fn has_failures(&self) -> (r: bool)
        ensures
            r == (self.embedding_failures@.len() > 0),
    {
        self.total() > 0
    }
}

}
