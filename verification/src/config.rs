//! How a file is divided, by the default configuration.
use crate::crawl_config;
use crate::crawl_config::{get_default_crawl_config, CrawlConfigError};
use crate::text;
use vstd::prelude::*;

verus! {

/// How a file is divided into chunks.
#[derive(Debug, Clone, Copy, PartialEq, Eq, Structural)]
pub enum ChunkingStrategy {
    /// Along the syntax tree.
    TypeScript,
    /// By headings.
    Markdown,
    /// By lines.
    LineBased,
    /// Not at all.
    Skip,
}

/// What the name of a strategy stands for; other names stand for none.
pub open spec fn strategy_named(name: Option<Seq<char>>) -> ChunkingStrategy {
    match name {
        Some(n) => if n == "typescript"@ {
            ChunkingStrategy::TypeScript
        } else if n == "markdown"@ {
            ChunkingStrategy::Markdown
        } else if n == "lineBased"@ {
            ChunkingStrategy::LineBased
        } else {
            ChunkingStrategy::Skip
        },
        None => ChunkingStrategy::Skip,
    }
}

/// What the name of a strategy stands for.
pub fn strategy_from_name(name: &str) -> (r: ChunkingStrategy)
    ensures
        r == strategy_named(Some(name@)),
{
    if text::same(name, "typescript") {
        ChunkingStrategy::TypeScript
    } else if text::same(name, "markdown") {
        ChunkingStrategy::Markdown
    } else if text::same(name, "lineBased") {
        ChunkingStrategy::LineBased
    } else {
        ChunkingStrategy::Skip
    }
}

/// Whether the default configuration leaves a path out. The patterns of that configuration
/// are compiled for the purpose, which can fail only on the side of the pattern library.
pub fn should_skip_path(path: &str) -> (r: Result<bool, CrawlConfigError>)
    ensures
        match r {
            Ok(skip) => {
                &&& crawl_config::compilation_error(crawl_config::default_config()) is None
                &&& skip == !crawl_config::crawled(crawl_config::default_config(), path@)
            },
            Err(e) => crawl_config::compilation_error(crawl_config::default_config()) == Some(e@),
        },
{
    match get_default_crawl_config().compile() {
        Ok(config) => Ok(!config.should_crawl(path)),
        Err(e) => Err(e),
    }
}

/// How the default configuration divides a file.
pub fn get_chunk_strategy(path: &str) -> (r: ChunkingStrategy)
    ensures
        r == strategy_named(crawl_config::strategy_for(crawl_config::default_config(), path@)),
{
    let config = get_default_crawl_config();
    match config.get_strategy(path) {
        Some(name) => strategy_from_name(name),
        None => ChunkingStrategy::Skip,
    }
}

/// Without a configuration of its own a repository has its TypeScript files divided along the syntax
/// tree, its Markdown files by headings, and its style sheets, texts and YAML files by lines. Files
/// with the suffixes of JavaScript and JSON are not divided by any of these.
pub proof fn files_are_divided_by_suffix(path: Seq<char>, suffix: Seq<char>)
    requires
        suffix.is_suffix_of(path),
    ensures
        ({
            let strategy = strategy_named(
                crawl_config::strategy_for(crawl_config::default_config(), path),
            );
            &&& suffix == ".ts"@ || suffix == ".tsx"@ ==> strategy == ChunkingStrategy::TypeScript
            &&& suffix == ".md"@ ==> strategy == ChunkingStrategy::Markdown
            &&& suffix == ".css"@ || suffix == ".scss"@ || suffix == ".txt"@ || suffix == ".yml"@
                || suffix == ".yaml"@ ==> strategy == ChunkingStrategy::LineBased
            &&& suffix == ".js"@ || suffix == ".jsx"@ || suffix == ".cjs"@ || suffix == ".mjs"@
                || suffix == ".json"@ ==> strategy == ChunkingStrategy::Skip
        }),
        strategy_named(None) == ChunkingStrategy::Skip,
{
    crawl_config::default_strategies(path, suffix);
    reveal_strlit("typescript");
    reveal_strlit("markdown");
    reveal_strlit("lineBased");
    reveal_strlit("javascript");
    reveal_strlit("simpleLine");
    assert("javascript"@[0] == 'j' && "simpleLine"@[0] == 's');
    assert("typescript"@[0] == 't' && "markdown"@[0] == 'm' && "lineBased"@[0] == 'l');
}

}
