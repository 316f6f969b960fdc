//! The chunks of new files.
use crate::chunker;
use crate::chunker::{chunk_content, is_divisible, Chunk, ChunkContext, ChunkContextView, ChunkView};
use crate::crawl_config;
use crate::crawl_config::CompiledCrawlConfig;
use crate::git_ops::FileEntry;
use crate::identifier;
use crate::identifier::LabelId;
use crate::names::NameSet;
use crate::report;
use crate::report::{no_lines, say, warn, Line, LineView};
use crate::text;
use vstd::prelude::*;

verus! {

/// Size that chunks are to have.
pub const CHUNK_TARGET: usize = 6000;

/// The kind of a chunk that was cut where no good place was found.
pub const FALLBACK_KIND: &'static str = "fallback-split";

/// What is known of a file of a crawl before it is divided. A file without a package belongs
/// to the catalog.
pub open spec fn file_context(
    label: (Seq<char>, Seq<char>),
    repo: Seq<char>,
    entry: (Seq<char>, Seq<char>),
    package: Option<Seq<char>>,
) -> ChunkContextView {
    ChunkContextView {
        catalog: label.0,
        label_id: identifier::storage_form(label.0, label.1),
        package_name: match package {
            Some(name) => name,
            None => label.0,
        },
        relative_path: entry.0,
        blob_id: entry.1,
        source_uri: repo + "/"@ + entry.0,
    }
}

/// Whether a chunk was cut where no good place was found.
pub open spec fn has_fallback(chunks: Seq<ChunkView>) -> bool {
    exists|i: int| 0 <= i < chunks.len() && (#[trigger] chunks[i]).chunk_kind == FALLBACK_KIND@
}

/// Whether a chunk was cut where no good place was found.
pub fn had_warning(chunks: &Vec<Chunk>) -> (r: bool)
    ensures
        r == has_fallback(chunker::chunk_views(chunks@)),
{
    let n: usize = chunks.len();
    let ghost all = chunker::chunk_views(chunks@);
    for i in 0..n
        invariant
            n == chunks@.len(),
            all == chunker::chunk_views(chunks@),
            forall|j: int| 0 <= j < i ==> (#[trigger] all[j]).chunk_kind != FALLBACK_KIND@,
    {
        assert(all[i as int] == chunks@[i as int]@);
        if text::same(chunks[i].chunk_kind.as_str(), FALLBACK_KIND) {
            return true;
        }
    }
    false
}

/// The chunks of the files that were looked at so far.
#[derive(Debug)]
pub struct NewChunks {
    /// The chunks.
    pub chunks: Vec<Chunk>,
    /// Identifiers of the files with chunks.
    pub touched: NameSet,
    /// Files with chunks that were cut where no good place was found.
    pub warned: NameSet,
}

/// What [`NewChunks`] stand for.
pub struct NewChunksView {
    pub chunks: Seq<ChunkView>,
    pub touched: Set<Seq<char>>,
    pub warned: Set<Seq<char>>,
}

impl View for NewChunks {
    type V = NewChunksView;

    open spec fn view(&self) -> NewChunksView {
        NewChunksView {
            chunks: chunker::chunk_views(self.chunks@),
            touched: self.touched@,
            warned: self.warned@,
        }
    }
}

/// What there is once the chunks of one more file are known.
pub open spec fn with_chunks(
    before: NewChunksView,
    path: Seq<char>,
    chunks: Seq<ChunkView>,
) -> NewChunksView {
    NewChunksView {
        chunks: before.chunks + chunks,
        touched: if chunks.len() > 0 {
            before.touched.insert(chunks[0].file_id)
        } else {
            before.touched
        },
        warned: if has_fallback(chunks) {
            before.warned.insert(path)
        } else {
            before.warned
        },
    }
}

/// What is said of a file with warnings.
pub open spec fn file_lines(path: Seq<char>, chunks: Seq<ChunkView>) -> Seq<LineView> {
    if has_fallback(chunks) {
        seq![
            LineView::Out(""@),
            LineView::Out("Warning: Couldn't find a splitpoint for "@ + path),
        ]
    } else {
        seq![]
    }
}

impl NewChunks {
    /// No chunks.
    pub fn new() -> (r: Self)
        ensures
            r@.chunks.len() == 0,
            r@.touched == Set::<Seq<char>>::empty(),
            r@.warned == Set::<Seq<char>>::empty(),
    {
        NewChunks { chunks: Vec::new(), touched: NameSet::new(), warned: NameSet::new() }
    }

    /// Takes the chunks of a file.
    pub fn take(&mut self, path: &str, chunks: Vec<Chunk>) -> (r: Vec<Line>)
        ensures
            final(self)@ == with_chunks(old(self)@, path@, chunker::chunk_views(chunks@)),
            report::line_views(r@) == file_lines(path@, chunker::chunk_views(chunks@)),
    {
        let ghost new = chunker::chunk_views(chunks@);
        let ghost before = self@;
        let mut lines = no_lines();
        if had_warning(&chunks) {
            self.warned.insert(path);
            say(&mut lines, "".to_owned());
            let mut line = "Warning: Couldn't find a splitpoint for ".to_owned();
            line.append(path);
            say(&mut lines, line);
        }
        assert(report::line_views(lines@) =~= file_lines(path@, new));
        if chunks.len() > 0 {
            assert(new[0] == chunks@[0]@);
            self.touched.insert(chunks[0].file_id.as_str());
        }
        let mut rest = chunks;
        self.chunks.append(&mut rest);
        assert(chunker::chunk_views(self.chunks@) =~= before.chunks + new);
        lines
    }

    /// Divides a file and takes its chunks; a file that is too large to be parsed, or has too
    /// many headings, is left out with a warning.
    pub fn index_file(
        &mut self,
        label_id: &LabelId,
        repo_path: &str,
        config: &CompiledCrawlConfig,
        entry: &FileEntry,
        package: Option<&str>,
        content: &str,
    ) -> (r: Vec<Line>)
        ensures
            ({
                let found = match package {
                    Some(name) => Some(name@),
                    None => None,
                };
                let ctx = file_context(label_id@, repo_path@, entry@, found);
                let strategy = crawl_config::strategy_for(config@, entry@.0);
                let chunks = chunker::content_chunks(
                    content@,
                    ctx,
                    CHUNK_TARGET as int,
                    strategy,
                );
                if chunker::divisible(content@, chunker::chosen_strategy(ctx, strategy)) {
                    &&& final(self)@ == with_chunks(old(self)@, entry@.0, chunks)
                    &&& report::line_views(r@) == file_lines(entry@.0, chunks)
                } else {
                    &&& final(self)@ == old(self)@
                    &&& report::line_views(r@) == seq![too_large(entry@.0)]
                }
            }),
    {
        let path = entry.relative_path.as_str();
        let package_name = match package {
            Some(name) => name.to_owned(),
            None => label_id.catalog().to_owned(),
        };
        let ctx = ChunkContext {
            catalog: label_id.catalog().to_owned(),
            label_id: label_id.to_string(),
            package_name,
            relative_path: path.to_owned(),
            blob_id: entry.blob_id.clone(),
            source_uri: text::around(repo_path, "/", path),
        };
        let strategy = config.get_strategy(path);
        if !is_divisible(content, &ctx, strategy) {
            let mut lines = no_lines();
            warn(
                &mut lines,
                text::around("\n  ⚠️  Failed to chunk ", path, ": the file is too large"),
            );
            assert(report::line_views(lines@) =~= seq![too_large(path@)]);
            return lines;
        }
        let chunks = chunk_content(content, &ctx, CHUNK_TARGET, strategy);
        self.take(path, chunks)
    }
}

/// The warning for a file that is too large.
pub open spec fn too_large(path: Seq<char>) -> LineView {
    LineView::Warning("\n  ⚠️  Failed to chunk "@ + path + ": the file is too large"@)
}

/// What is said of files with warnings, given their paths in order; after the first ones only
/// the number is said.
pub open spec fn warning_lines(files: Seq<Seq<char>>) -> Seq<LineView> {
    if files.len() == 0 {
        seq![]
    } else {
        let shown = if files.len() > MAX_LISTED {
            files.take(MAX_LISTED as int)
        } else {
            files
        };
        let head = seq![
            LineView::Out(""@),
            LineView::Out(
                "Chunking warnings in "@ + text::decimal(files.len()) + (if files.len() == 1 {
                    " file:"@
                } else {
                    " files:"@
                }),
            ),
        ];
        let list = head + shown.map_values(|f: Seq<char>| LineView::Out("  - "@ + f));
        if files.len() > MAX_LISTED {
            list.push(
                LineView::Out(
                    "  ... and "@ + text::decimal((files.len() - MAX_LISTED) as nat) + " more"@,
                ),
            )
        } else {
            list
        }
    }
}

/// Most files with warnings that are listed.
pub const MAX_LISTED: usize = 20;

/// What is said of files with warnings, see [`warning_lines`].
pub fn warning_summary(files: &Vec<String>) -> (r: Vec<Line>)
    ensures
        report::line_views(r@) == warning_lines(text::views(files@)),
{
    let mut lines = no_lines();
    let ghost all = text::views(files@);
    let n: usize = files.len();
    assert(all.len() == n);
    if n == 0 {
        assert(report::line_views(lines@) =~= warning_lines(all));
        return lines;
    }
    say(&mut lines, "".to_owned());
    let mut head = "Chunking warnings in ".to_owned();
    text::push_decimal(&mut head, n as u64);
    head.append(
        if n == 1 {
            " file:"
        } else {
            " files:"
        },
    );
    say(&mut lines, head);
    let shown: usize = if n > MAX_LISTED {
        MAX_LISTED
    } else {
        n
    };
    let ghost start = report::line_views(lines@);
    let ghost item = |f: Seq<char>| LineView::Out("  - "@ + f);
    assert(start + all.take(0).map_values(item) =~= start);
    for i in 0..shown
        invariant
            shown <= n == files@.len(),
            all == text::views(files@),
            item == (|f: Seq<char>| LineView::Out("  - "@ + f)),
            report::line_views(lines@) == start + all.take(i as int).map_values(item),
    {
        let mut line = "  - ".to_owned();
        line.append(files[i].as_str());
        say(&mut lines, line);
        proof {
            assert(all[i as int] == files@[i as int]@);
            assert(all.take(i + 1).map_values(item) =~= all.take(i as int).map_values(item).push(
                item(all[i as int]),
            ));
            assert(report::line_views(lines@) =~= start + all.take(i + 1).map_values(item));
        }
    }
    assert(all.take(n as int) =~= all);
    if n > MAX_LISTED {
        say(&mut lines, text::around_number("  ... and ", (n - MAX_LISTED) as u64, " more"));
    }
    assert(report::line_views(lines@) =~= warning_lines(all));
    lines
}

/// The files with warnings that are remembered: those of this crawl, and where warnings are
/// not looked at once more also those from before.
pub fn next_warnings(incremental: bool, prior: &NameSet, warned: &NameSet) -> (r: NameSet)
    ensures
        r@ == if incremental {
            warned@.union(prior@)
        } else {
            warned@
        },
{
    let mut next = NameSet::new();
    next.extend(warned);
    if incremental {
        next.extend(prior);
    }
    assert(next@ =~= if incremental {
        warned@.union(prior@)
    } else {
        warned@
    });
    next
}

/// All chunks of a file have the file's identifier, which content and path determine, and
/// belong to the one label of the crawl.
pub proof fn chunks_belong_to_their_file(
    content: Seq<char>,
    ctx: ChunkContextView,
    target: int,
    strategy: Option<Seq<char>>,
    i: int,
)
    requires
        0 <= i < chunker::content_chunks(content, ctx, target, strategy).len(),
    ensures
        ({
            let chunks = chunker::content_chunks(content, ctx, target, strategy);
            &&& chunks[i].file_id == chunker::context_file_id(ctx)
            &&& chunks[i].active_label_ids == seq![ctx.label_id]
            &&& chunks[i].catalog == ctx.catalog
            &&& chunks[i].chunk_ordinal == i + 1
            &&& chunks[i].chunk_count == chunks.len()
        }),
{
}

/// A file of a crawl is chunked for the label of the crawl, under its own path and content
/// identifier; a file without a package counts to the catalog.
pub proof fn files_are_chunked_for_the_label(
    catalog: Seq<char>,
    label: Seq<char>,
    repo: Seq<char>,
    path: Seq<char>,
    blob_id: Seq<char>,
    package: Seq<char>,
)
    ensures
        ({
            let ctx = file_context((catalog, label), repo, (path, blob_id), Some(package));
            let bare = file_context((catalog, label), repo, (path, blob_id), None);
            &&& ctx.catalog == catalog
            &&& ctx.label_id == catalog + seq![':'] + label
            &&& ctx.relative_path == path
            &&& ctx.blob_id == blob_id
            &&& ctx.source_uri == repo + seq!['/'] + path
            &&& ctx.package_name == package
            &&& bare == (ChunkContextView { package_name: catalog, ..ctx })
        }),
{
    reveal_strlit("/");
    assert("/"@ =~= seq!['/']);
}

/// Chunks are to have six thousand bytes.
pub proof fn chunks_have_a_target()
    ensures
        CHUNK_TARGET == 6000,
{
}

/// A file is warned of exactly if one of its chunks was cut in the middle for want of a place;
/// its identifier is noted if it has chunks; and no chunk of another file is touched.
pub proof fn files_cut_in_the_middle_are_warned_of(
    before: NewChunksView,
    path: Seq<char>,
    chunks: Seq<ChunkView>,
    other: Seq<char>,
)
    requires
        other != path,
    ensures
        ({
            let now = with_chunks(before, path, chunks);
            &&& now.warned.contains(path) <==> before.warned.contains(path) || exists|i: int|
                0 <= i < chunks.len() && (#[trigger] chunks[i]).chunk_kind == "fallback-split"@
            &&& now.warned.contains(other) <==> before.warned.contains(other)
            &&& chunks.len() > 0 ==> now.touched.contains(chunks[0].file_id)
            &&& before.touched.subset_of(now.touched)
            &&& now.chunks.len() == before.chunks.len() + chunks.len()
            &&& before.chunks.is_prefix_of(now.chunks)
            &&& chunks.is_suffix_of(now.chunks)
        }),
{
    let now = with_chunks(before, path, chunks);
    assert(now.chunks.subrange(0, before.chunks.len() as int) =~= before.chunks);
    assert(now.chunks.subrange(before.chunks.len() as int, now.chunks.len() as int) =~= chunks);
}

/// The first twenty files with warnings are listed in their order below a heading that tells how
/// many there are; where there are more, the last line tells how many are left out.
pub proof fn at_most_twenty_files_are_listed(files: Seq<Seq<char>>, i: int)
    requires
        files.len() > 0,
    ensures
        warning_lines(Seq::empty()).len() == 0,
        warning_lines(files).len() == 2 + (if files.len() <= 20 {
            files.len() as int
        } else {
            21
        }),
        warning_lines(files)[0] == LineView::Out(""@),
        files.len() == 1 ==> warning_lines(files)[1] == LineView::Out(
            "Chunking warnings in "@ + text::decimal(1) + " file:"@,
        ),
        files.len() > 1 ==> warning_lines(files)[1] == LineView::Out(
            "Chunking warnings in "@ + text::decimal(files.len()) + " files:"@,
        ),
        0 <= i < 20 && i < files.len() ==> warning_lines(files)[2 + i] == LineView::Out(
            "  - "@ + files[i],
        ),
        files.len() > 20 ==> warning_lines(files).last() == LineView::Out(
            "  ... and "@ + text::decimal((files.len() - 20) as nat) + " more"@,
        ),
{
}

}
