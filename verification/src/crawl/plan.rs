//! Which files of a crawl are new, and which are known already.
use crate::crawl::labels::has_label;
use crate::crawl_config;
use crate::crawl_config::CompiledCrawlConfig;
use crate::git_ops::FileEntry;
use crate::identifier;
use crate::identifier::LabelId;
use crate::ids;
use crate::ids::{compute_file_id, compute_point_id, CHUNKER_ID, EMBEDDER_ID};
use crate::names::NameSet;
use crate::report;
use crate::report::{no_lines, say, warn, Line, LineView};
use crate::storage::rows;
use crate::storage::rows::{LabelMetadataRow, LabelMetadataRowView};
use crate::text;
use vstd::prelude::*;

verus! {

/// What is crawled.
#[derive(Debug)]
pub enum CrawlSource {
    /// The commit with this identifier.
    Commit(String),
    /// The files as they are on disk.
    WorkingDirectory,
}

/// What a [`CrawlSource`] stands for.
pub enum CrawlSourceView {
    Commit(Seq<char>),
    WorkingDirectory,
}

impl View for CrawlSource {
    type V = CrawlSourceView;

    open spec fn view(&self) -> CrawlSourceView {
        match self {
            CrawlSource::Commit(oid) => CrawlSourceView::Commit(oid@),
            CrawlSource::WorkingDirectory => CrawlSourceView::WorkingDirectory,
        }
    }
}

/// A crawl of one source for one label.
#[derive(Debug)]
pub struct CrawlJob {
    /// The label.
    pub label_id: LabelId,
    /// What is crawled.
    pub source: CrawlSource,
    /// Files with warnings from earlier crawls are not looked at once more.
    pub incremental_warnings: bool,
    /// Files with warnings from earlier crawls.
    pub prior_warnings: NameSet,
}

/// The row that is written for a label: once before its crawl, and once after it.
pub open spec fn metadata_row(
    label: (Seq<char>, Seq<char>),
    source: CrawlSourceView,
    complete: bool,
    now: i64,
) -> LabelMetadataRowView {
    LabelMetadataRowView {
        label_id: identifier::storage_form(label.0, label.1),
        catalog: label.0,
        label: label.1,
        commit_oid: match source {
            CrawlSourceView::Commit(oid) => oid,
            CrawlSourceView::WorkingDirectory => ""@,
        },
        source_kind: match source {
            CrawlSourceView::Commit(_) => "git-commit"@,
            CrawlSourceView::WorkingDirectory => "working-directory"@,
        },
        crawl_complete: complete,
        updated_at_unix_secs: now,
    }
}

impl CrawlJob {
    /// The row that is written for the label, see [`metadata_row`].
    pub fn metadata(&self, complete: bool, now: i64) -> (r: LabelMetadataRow)
        ensures
            r@ == metadata_row(self.label_id@, self.source@, complete, now),
            r.label_id@ == self.label_id@.0 + seq![':'] + self.label_id@.1,
            r.catalog@ == self.label_id@.0,
            r.label@ == self.label_id@.1,
            self.source matches CrawlSource::Commit(oid) ==> r.commit_oid@ == oid@
                && r.source_kind@ == "git-commit"@,
            self.source is WorkingDirectory ==> r.commit_oid@ == Seq::<char>::empty()
                && r.source_kind@ == "working-directory"@,
            r.crawl_complete == complete,
            r.updated_at_unix_secs == now,
    {
        proof {
            reveal_strlit("");
            assert(""@ =~= Seq::empty());
        }
        let (commit_oid, source_kind) = match &self.source {
            CrawlSource::Commit(oid) => (oid.clone(), "git-commit".to_owned()),
            CrawlSource::WorkingDirectory => ("".to_owned(), "working-directory".to_owned()),
        };
        LabelMetadataRow {
            label_id: self.label_id.to_string(),
            catalog: self.label_id.catalog().to_owned(),
            label: self.label_id.label().to_owned(),
            commit_oid,
            source_kind,
            crawl_complete: complete,
            updated_at_unix_secs: now,
        }
    }

    /// Whether a file is indexed anew because it had warnings before.
    pub fn must_reprocess(&self, path: &str) -> (r: bool)
        ensures
            r == reprocessed(self.incremental_warnings, self.prior_warnings@, path@),
    {
        !self.incremental_warnings && self.prior_warnings.contains(path)
    }
}

/// The rows that are written for a label with valid names are valid.
pub proof fn metadata_rows_are_valid(
    label: (Seq<char>, Seq<char>),
    source: CrawlSourceView,
    complete: bool,
    now: i64,
)
    requires
        identifier::pair_error(label.0, label.1) is None,
    ensures
        rows::label_row_error(metadata_row(label, source, complete, now)) is None,
{
}

/// Whether a file is indexed anew because it had warnings before.
pub open spec fn reprocessed(incremental: bool, prior: Set<Seq<char>>, path: Seq<char>) -> bool {
    !incremental && prior.contains(path)
}

/// What entries stand for.
pub open spec fn entry_views(entries: Seq<FileEntry>) -> Seq<(Seq<char>, Seq<char>)> {
    entries.map_values(|e: FileEntry| e@)
}

/// The files that a configuration lets through.
pub fn select_files(files: &Vec<FileEntry>, config: &CompiledCrawlConfig) -> (r: Vec<FileEntry>)
    ensures
        entry_views(r@) == entry_views(files@).filter(
            |e: (Seq<char>, Seq<char>)| crawl_config::crawled(config@, e.0),
        ),
{
    let mut out: Vec<FileEntry> = Vec::new();
    let ghost all = entry_views(files@);
    let ghost pred = |e: (Seq<char>, Seq<char>)| crawl_config::crawled(config@, e.0);
    let n: usize = files.len();
    proof {
        reveal(Seq::filter);
        assert(entry_views(out@) =~= all.take(0).filter(pred));
    }
    for i in 0..n
        invariant
            n == files@.len(),
            all == entry_views(files@),
            pred == (|e: (Seq<char>, Seq<char>)| crawl_config::crawled(config@, e.0)),
            entry_views(out@) == all.take(i as int).filter(pred),
    {
        let ghost before = out@;
        proof {
            reveal(Seq::filter);
            assert(all.take(i + 1).drop_last() =~= all.take(i as int));
            assert(all[i as int] == files@[i as int]@);
        }
        if config.should_crawl(files[i].relative_path.as_str()) {
            out.push(files[i].clone());
            assert(entry_views(out@) =~= entry_views(before).push(all[i as int]));
        }
    }
    assert(all.take(n as int) =~= all);
    out
}

/// What is stored of a file: the chunk that comes first.
#[derive(Debug)]
pub enum Sentinel {
    /// Nothing is stored.
    Missing,
    /// It could not be found out, for this reason.
    Unknown(String),
    /// The chunk is stored.
    Found {
        /// All chunks of the file are stored.
        complete: bool,
        /// The labels that the file has.
        labels: Vec<String>,
    },
}

/// What a [`Sentinel`] stands for.
pub enum SentinelView {
    Missing,
    Unknown(Seq<char>),
    Found { complete: bool, labels: Seq<Seq<char>> },
}

impl View for Sentinel {
    type V = SentinelView;

    open spec fn view(&self) -> SentinelView {
        match self {
            Sentinel::Missing => SentinelView::Missing,
            Sentinel::Unknown(e) => SentinelView::Unknown(e@),
            Sentinel::Found { complete, labels } => SentinelView::Found {
                complete: *complete,
                labels: text::views(labels@),
            },
        }
    }
}

/// What sentinels stand for.
pub open spec fn sentinel_views(sentinels: Seq<Sentinel>) -> Seq<SentinelView> {
    sentinels.map_values(|s: Sentinel| s@)
}

/// What becomes of a file.
#[derive(Debug, Clone, Copy, PartialEq, Eq, Structural)]
pub enum FileFate {
    /// It is indexed.
    Index,
    /// It is known; its chunks get the label.
    AddLabel,
    /// It is known, and its chunks have the label.
    Labeled,
}

/// What becomes of a file, given what is stored of it. A file is indexed unless all of its
/// chunks are known to be stored, and also where that is forced.
pub open spec fn fate(forced: bool, sentinel: SentinelView, label_id: Seq<char>) -> FileFate {
    match sentinel {
        SentinelView::Found { complete, labels } => if forced || !complete {
            FileFate::Index
        } else if labels.contains(label_id) {
            FileFate::Labeled
        } else {
            FileFate::AddLabel
        },
        _ => FileFate::Index,
    }
}

/// What becomes of a file, see [`fate`].
pub fn decide(forced: bool, sentinel: &Sentinel, label_id: &str) -> (r: FileFate)
    ensures
        r == fate(forced, sentinel@, label_id@),
{
    match sentinel {
        Sentinel::Found { complete, labels } => {
            if forced || !*complete {
                FileFate::Index
            } else if has_label(labels, label_id) {
                FileFate::Labeled
            } else {
                FileFate::AddLabel
            }
        },
        _ => FileFate::Index,
    }
}

/// The identifier of a file of a crawl.
pub open spec fn entry_file_id(entry: (Seq<char>, Seq<char>)) -> Seq<char> {
    ids::file_id(EMBEDDER_ID@, CHUNKER_ID@, entry.1, entry.0)
}

/// The identifier of the chunk of a file that tells whether the file is stored: the first.
pub fn sentinel_id(entry: &FileEntry) -> (r: String)
    ensures
        r@ == ids::point_id(entry_file_id(entry@), 1),
{
    let file_id = compute_file_id(
        EMBEDDER_ID,
        CHUNKER_ID,
        entry.blob_id.as_str(),
        entry.relative_path.as_str(),
    );
    compute_point_id(file_id.as_str(), 1)
}

/// What becomes of the files of a crawl.
#[derive(Debug)]
pub struct CrawlPlan {
    /// Files that are indexed.
    pub new_files: Vec<FileEntry>,
    /// Identifiers of known files that get the label.
    pub needing_label: NameSet,
    /// Identifiers of known files that have the label.
    pub already_labeled: NameSet,
    /// Number of known files.
    pub existing_count: usize,
    /// What is said of files of which nothing could be found out.
    pub warnings: Vec<Line>,
}

/// What a [`CrawlPlan`] stands for.
pub struct CrawlPlanView {
    pub new_files: Seq<(Seq<char>, Seq<char>)>,
    pub needing_label: Set<Seq<char>>,
    pub already_labeled: Set<Seq<char>>,
    pub existing_count: nat,
    pub warnings: Seq<LineView>,
}

impl View for CrawlPlan {
    type V = CrawlPlanView;

    open spec fn view(&self) -> CrawlPlanView {
        CrawlPlanView {
            new_files: entry_views(self.new_files@),
            needing_label: self.needing_label@,
            already_labeled: self.already_labeled@,
            existing_count: self.existing_count as nat,
            warnings: report::line_views(self.warnings@),
        }
    }
}

/// The warning for a file of which nothing could be found out.
pub open spec fn sentinel_warning(path: Seq<char>, reason: Seq<char>) -> LineView {
    LineView::Warning("  ⚠️  Error checking sentinel for "@ + path + ": "@ + reason)
}

/// A plan with one more file.
pub open spec fn with_file(
    plan: CrawlPlanView,
    entry: (Seq<char>, Seq<char>),
    forced: bool,
    sentinel: SentinelView,
    label_id: Seq<char>,
) -> CrawlPlanView {
    let id = entry_file_id(entry);
    match fate(forced, sentinel, label_id) {
        FileFate::Index => CrawlPlanView {
            new_files: plan.new_files.push(entry),
            warnings: match sentinel {
                SentinelView::Unknown(reason) => if forced {
                    plan.warnings
                } else {
                    plan.warnings.push(sentinel_warning(entry.0, reason))
                },
                _ => plan.warnings,
            },
            ..plan
        },
        FileFate::AddLabel => CrawlPlanView {
            needing_label: plan.needing_label.insert(id),
            existing_count: plan.existing_count + 1,
            ..plan
        },
        FileFate::Labeled => CrawlPlanView {
            already_labeled: plan.already_labeled.insert(id),
            existing_count: plan.existing_count + 1,
            ..plan
        },
    }
}

/// What becomes of files, given what is stored of each.
pub open spec fn planned(
    files: Seq<(Seq<char>, Seq<char>)>,
    sentinels: Seq<SentinelView>,
    label_id: Seq<char>,
    incremental: bool,
    prior: Set<Seq<char>>,
) -> CrawlPlanView
    decreases files.len(),
{
    if files.len() == 0 {
        CrawlPlanView {
            new_files: Seq::empty(),
            needing_label: Set::empty(),
            already_labeled: Set::empty(),
            existing_count: 0,
            warnings: Seq::empty(),
        }
    } else {
        with_file(
            planned(files.drop_last(), sentinels.drop_last(), label_id, incremental, prior),
            files.last(),
            reprocessed(incremental, prior, files.last().0),
            sentinels.last(),
            label_id,
        )
    }
}

impl CrawlJob {
    /// Decides what becomes of the files of the crawl, given what is stored of each. What is
    /// stored of a file that is indexed anyway does not matter.
    pub fn plan(&self, files: &Vec<FileEntry>, sentinels: &Vec<Sentinel>) -> (r: CrawlPlan)
        requires
            files@.len() == sentinels@.len(),
        ensures
            r@ == planned(
                entry_views(files@),
                sentinel_views(sentinels@),
                identifier::storage_form(self.label_id@.0, self.label_id@.1),
                self.incremental_warnings,
                self.prior_warnings@,
            ),
    {
        let ghost all = entry_views(files@);
        let ghost found = sentinel_views(sentinels@);
        let ghost id = identifier::storage_form(self.label_id@.0, self.label_id@.1);
        let mut plan = CrawlPlan {
            new_files: Vec::new(),
            needing_label: NameSet::new(),
            already_labeled: NameSet::new(),
            existing_count: 0,
            warnings: no_lines(),
        };
        let n: usize = files.len();
        assert(entry_views(plan.new_files@) =~= Seq::empty());
        for i in 0..n
            invariant
                n == files@.len() == sentinels@.len(),
                all == entry_views(files@),
                found == sentinel_views(sentinels@),
                id == identifier::storage_form(self.label_id@.0, self.label_id@.1),
                plan.existing_count <= i,
                plan@ == planned(
                    all.take(i as int),
                    found.take(i as int),
                    id,
                    self.incremental_warnings,
                    self.prior_warnings@,
                ),
        {
            let ghost before = plan@;
            let entry = &files[i];
            proof {
                assert(all.take(i + 1).drop_last() =~= all.take(i as int));
                assert(found.take(i + 1).drop_last() =~= found.take(i as int));
                assert(all[i as int] == entry@);
                assert(found[i as int] == sentinels@[i as int]@);
            }
            let forced = self.must_reprocess(entry.relative_path.as_str());
            let outcome = decide(forced, &sentinels[i], self.label_id.as_str());
            match outcome {
                FileFate::Index => {
                    let ghost files_before = plan.new_files@;
                    plan.new_files.push(entry.clone());
                    assert(entry_views(plan.new_files@) =~= entry_views(files_before).push(entry@));
                    if !forced {
                        if let Sentinel::Unknown(reason) = &sentinels[i] {
                            let mut line = text::around(
                                "  ⚠️  Error checking sentinel for ",
                                entry.relative_path.as_str(),
                                ": ",
                            );
                            line.append(reason.as_str());
                            warn(&mut plan.warnings, line);
                        }
                    }
                },
                FileFate::AddLabel => {
                    plan.needing_label.insert(
                        compute_file_id(
                            EMBEDDER_ID,
                            CHUNKER_ID,
                            entry.blob_id.as_str(),
                            entry.relative_path.as_str(),
                        ).as_str(),
                    );
                    plan.existing_count = plan.existing_count + 1;
                },
                FileFate::Labeled => {
                    plan.already_labeled.insert(
                        compute_file_id(
                            EMBEDDER_ID,
                            CHUNKER_ID,
                            entry.blob_id.as_str(),
                            entry.relative_path.as_str(),
                        ).as_str(),
                    );
                    plan.existing_count = plan.existing_count + 1;
                },
            }
            assert(plan@ == with_file(
                before,
                entry@,
                reprocessed(self.incremental_warnings, self.prior_warnings@, entry@.0),
                sentinels@[i as int]@,
                id,
            ));
        }
        assert(all.take(n as int) =~= all);
        assert(found.take(n as int) =~= found);
        plan
    }
}

/// What is said of a plan.
pub open spec fn plan_lines(plan: CrawlPlanView) -> Seq<LineView> {
    let first = seq![
        LineView::Out("  New files to index: "@ + text::decimal(plan.new_files.len())),
        LineView::Out(
            "  Existing files (label update only): "@ + text::decimal(plan.existing_count),
        ),
    ];
    let labeled = if plan.already_labeled == Set::<Seq<char>>::empty() {
        first
    } else {
        first.push(
            LineView::Out(
                "  Existing files already labeled: "@ + text::decimal(plan.already_labeled.len())
                    + " (skipping)"@,
            ),
        )
    };
    labeled.push(LineView::Out(""@))
}

impl CrawlPlan {
    /// What is said of the plan, see [`plan_lines`].
    pub fn lines(&self) -> (r: Vec<Line>)
        ensures
            report::line_views(r@) == plan_lines(self@),
    {
        let mut lines = no_lines();
        assert(self@.new_files.len() == self.new_files@.len());
        say(&mut lines, text::before_number("  New files to index: ", self.new_files.len()));
        say(&mut lines, text::before_number("  Existing files (label update only): ", self.existing_count));
        if !self.already_labeled.is_empty() {
            say(
                &mut lines,
                text::around_number(
                    "  Existing files already labeled: ",
                    self.already_labeled.len() as u64,
                    " (skipping)",
                ),
            );
        }
        say(&mut lines, "".to_owned());
        assert(report::line_views(lines@) =~= plan_lines(self@));
        lines
    }
}

/// Every file is either indexed or known; nothing is left out.
pub proof fn every_file_is_accounted_for(
    files: Seq<(Seq<char>, Seq<char>)>,
    sentinels: Seq<SentinelView>,
    label_id: Seq<char>,
    incremental: bool,
    prior: Set<Seq<char>>,
)
    requires
        files.len() == sentinels.len(),
    ensures
        ({
            let plan = planned(files, sentinels, label_id, incremental, prior);
            &&& plan.new_files.len() + plan.existing_count == files.len()
            &&& forall|i: int|
                0 <= i < files.len() ==> {
                    ||| plan.new_files.contains(#[trigger] files[i])
                    ||| plan.needing_label.contains(entry_file_id(files[i]))
                    ||| plan.already_labeled.contains(entry_file_id(files[i]))
                }
        }),
    decreases files.len(),
{
    if files.len() > 0 {
        let rest = files.drop_last();
        every_file_is_accounted_for(rest, sentinels.drop_last(), label_id, incremental, prior);
        let before = planned(rest, sentinels.drop_last(), label_id, incremental, prior);
        let plan = planned(files, sentinels, label_id, incremental, prior);
        assert forall|i: int| 0 <= i < files.len() implies {
            ||| plan.new_files.contains(#[trigger] files[i])
            ||| plan.needing_label.contains(entry_file_id(files[i]))
            ||| plan.already_labeled.contains(entry_file_id(files[i]))
        } by {
            if i < rest.len() {
                assert(rest[i] == files[i]);
                if before.new_files.contains(rest[i]) {
                    let k = choose|k: int|
                        0 <= k < before.new_files.len() && before.new_files[k] == rest[i];
                    assert(plan.new_files[k] == files[i]);
                }
            } else if fate(
                reprocessed(incremental, prior, files.last().0),
                sentinels.last(),
                label_id,
            ) == FileFate::Index {
                assert(plan.new_files[plan.new_files.len() - 1] == files[i]);
            }
        }
    }
}

/// A file of which nothing is stored, or not everything, is indexed. One with all chunks
/// stored is not, unless it had warnings that are to be looked at once more.
pub proof fn complete_files_are_not_indexed_again(
    forced: bool,
    sentinel: SentinelView,
    label_id: Seq<char>,
)
    ensures
        fate(forced, sentinel, label_id) == FileFate::Index <==> forced || !(sentinel
            matches SentinelView::Found { complete, labels } && complete),
{
}

/// The file at position `i` is indexed: nothing is stored of it, or it is not known what, or
/// not all of it is, or it had warnings before that are to be looked at once more.
pub open spec fn is_indexed(
    files: Seq<(Seq<char>, Seq<char>)>,
    sentinels: Seq<SentinelView>,
    incremental: bool,
    prior: Set<Seq<char>>,
    i: int,
) -> bool {
    ||| sentinels[i] is Missing
    ||| sentinels[i] is Unknown
    ||| sentinels[i] matches SentinelView::Found { complete, labels } && !complete
    ||| !incremental && prior.contains(files[i].0)
}

/// The file at position `i` is not indexed, and its chunks have the label or not.
pub open spec fn is_known(
    files: Seq<(Seq<char>, Seq<char>)>,
    sentinels: Seq<SentinelView>,
    label_id: Seq<char>,
    incremental: bool,
    prior: Set<Seq<char>>,
    i: int,
    labeled: bool,
) -> bool {
    &&& !is_indexed(files, sentinels, incremental, prior, i)
    &&& sentinels[i] matches SentinelView::Found { complete, labels } && labels.contains(label_id)
        == labeled
}

/// What is stored of a file decides what becomes of it: files are indexed, get the label, or
/// have it, and each only if what is stored says so. There is a warning for each file of which
/// nothing could be found out, unless it is indexed anyway, and none else.
pub proof fn files_are_planned_by_what_is_stored(
    files: Seq<(Seq<char>, Seq<char>)>,
    sentinels: Seq<SentinelView>,
    label_id: Seq<char>,
    incremental: bool,
    prior: Set<Seq<char>>,
)
    requires
        files.len() == sentinels.len(),
    ensures
        ({
            let plan = planned(files, sentinels, label_id, incremental, prior);
            &&& forall|e: (Seq<char>, Seq<char>)|
                #![trigger plan.new_files.contains(e)]
                plan.new_files.contains(e) <==> exists|i: int|
                    0 <= i < files.len() && #[trigger] files[i] == e && is_indexed(
                        files,
                        sentinels,
                        incremental,
                        prior,
                        i,
                    )
            &&& forall|id: Seq<char>|
                #![trigger plan.needing_label.contains(id)]
                plan.needing_label.contains(id) <==> exists|i: int|
                    0 <= i < files.len() && ids::file_id(
                        EMBEDDER_ID@,
                        CHUNKER_ID@,
                        (#[trigger] files[i]).1,
                        files[i].0,
                    ) == id && is_known(files, sentinels, label_id, incremental, prior, i, false)
            &&& forall|id: Seq<char>|
                #![trigger plan.already_labeled.contains(id)]
                plan.already_labeled.contains(id) <==> exists|i: int|
                    0 <= i < files.len() && ids::file_id(
                        EMBEDDER_ID@,
                        CHUNKER_ID@,
                        (#[trigger] files[i]).1,
                        files[i].0,
                    ) == id && is_known(files, sentinels, label_id, incremental, prior, i, true)
            &&& forall|w: LineView|
                #![trigger plan.warnings.contains(w)]
                plan.warnings.contains(w) <==> exists|i: int|
                    0 <= i < files.len() && !(!incremental && prior.contains(
                        (#[trigger] files[i]).0,
                    )) && (sentinels[i] matches SentinelView::Unknown(reason) && w
                        == LineView::Warning(
                        "  ⚠️  Error checking sentinel for "@ + files[i].0 + ": "@ + reason,
                    ))
        }),
    decreases files.len(),
{
    let plan = planned(files, sentinels, label_id, incremental, prior);
    let n = files.len() as int;
    if n > 0 {
        let rest = files.drop_last();
        let upto = sentinels.drop_last();
        files_are_planned_by_what_is_stored(rest, upto, label_id, incremental, prior);
        let before = planned(rest, upto, label_id, incremental, prior);
        let last = files.last();
        assert(files[n - 1] == last);
        assert forall|i: int| 0 <= i < n - 1 implies #[trigger] files[i] == rest[i] && sentinels[i]
            == upto[i] by {}
        assert forall|i: int| 0 <= i < n - 1 implies #[trigger] rest[i] == files[i] by {}
        assert forall|i: int| 0 <= i < n - 1 implies #[trigger] is_indexed(
            files,
            sentinels,
            incremental,
            prior,
            i,
        ) == is_indexed(rest, upto, incremental, prior, i) by {
            assert(files[i] == rest[i]);
        }
        let indexed = is_indexed(files, sentinels, incremental, prior, n - 1);
        assert forall|e: (Seq<char>, Seq<char>)|
            #![trigger plan.new_files.contains(e)]
            plan.new_files.contains(e) <==> exists|i: int|
                0 <= i < files.len() && #[trigger] files[i] == e && is_indexed(
                    files,
                    sentinels,
                    incremental,
                    prior,
                    i,
                ) by {
            assert(plan.new_files.contains(e) <==> before.new_files.contains(e) || indexed && e
                == last) by {
                if indexed {
                    assert(plan.new_files == before.new_files.push(last));
                    assert(plan.new_files[before.new_files.len() as int] == last);
                    if before.new_files.contains(e) {
                        let k = choose|k: int|
                            0 <= k < before.new_files.len() && before.new_files[k] == e;
                        assert(plan.new_files[k] == e);
                    }
                    if plan.new_files.contains(e) {
                        let k = choose|k: int|
                            0 <= k < plan.new_files.len() && plan.new_files[k] == e;
                        if k < before.new_files.len() {
                            assert(before.new_files[k] == e);
                        }
                    }
                }
            }
            if before.new_files.contains(e) {
                let i = choose|i: int|
                    0 <= i < rest.len() && #[trigger] rest[i] == e && is_indexed(
                        rest,
                        upto,
                        incremental,
                        prior,
                        i,
                    );
                assert(files[i] == e && is_indexed(files, sentinels, incremental, prior, i));
            }
            if exists|i: int|
                0 <= i < files.len() && #[trigger] files[i] == e && is_indexed(
                    files,
                    sentinels,
                    incremental,
                    prior,
                    i,
                ) {
                let i = choose|i: int|
                    0 <= i < files.len() && #[trigger] files[i] == e && is_indexed(
                        files,
                        sentinels,
                        incremental,
                        prior,
                        i,
                    );
                if i < n - 1 {
                    assert(rest[i] == e && is_indexed(rest, upto, incremental, prior, i));
                }
            }
        }
        assert forall|w: LineView|
            #![trigger plan.warnings.contains(w)]
            plan.warnings.contains(w) <==> exists|i: int|
                0 <= i < files.len() && !(!incremental && prior.contains(
                    (#[trigger] files[i]).0,
                )) && (sentinels[i] matches SentinelView::Unknown(reason) && w
                    == LineView::Warning(
                    "  ⚠️  Error checking sentinel for "@ + files[i].0 + ": "@ + reason,
                )) by {
            let forced = !incremental && prior.contains(last.0);
            let new = !forced && (sentinels[n - 1] matches SentinelView::Unknown(reason) && w
                == LineView::Warning(
                "  ⚠️  Error checking sentinel for "@ + last.0 + ": "@ + reason,
            ));
            assert(plan.warnings.contains(w) <==> before.warnings.contains(w) || new) by {
                if before.warnings.contains(w) {
                    let k = choose|k: int| 0 <= k < before.warnings.len() && before.warnings[k] == w;
                    assert(plan.warnings[k] == w);
                }
                if new {
                    assert(plan.warnings[before.warnings.len() as int] == w);
                }
                if plan.warnings.contains(w) {
                    let k = choose|k: int| 0 <= k < plan.warnings.len() && plan.warnings[k] == w;
                    if k < before.warnings.len() {
                        assert(before.warnings[k] == w);
                    }
                }
            }
            if before.warnings.contains(w) {
                let i = choose|i: int|
                    0 <= i < rest.len() && !(!incremental && prior.contains(
                        (#[trigger] rest[i]).0,
                    )) && (upto[i] matches SentinelView::Unknown(reason) && w
                        == LineView::Warning(
                        "  ⚠️  Error checking sentinel for "@ + rest[i].0 + ": "@ + reason,
                    ));
                assert(files[i] == rest[i]);
            }
        }
        lemma_known(files, sentinels, label_id, incremental, prior);
    }
}

proof fn lemma_known(
    files: Seq<(Seq<char>, Seq<char>)>,
    sentinels: Seq<SentinelView>,
    label_id: Seq<char>,
    incremental: bool,
    prior: Set<Seq<char>>,
)
    requires
        files.len() == sentinels.len(),
    ensures
        ({
            let plan = planned(files, sentinels, label_id, incremental, prior);
            &&& forall|id: Seq<char>|
                #![trigger plan.needing_label.contains(id)]
                plan.needing_label.contains(id) <==> exists|i: int|
                    0 <= i < files.len() && ids::file_id(
                        EMBEDDER_ID@,
                        CHUNKER_ID@,
                        (#[trigger] files[i]).1,
                        files[i].0,
                    ) == id && is_known(files, sentinels, label_id, incremental, prior, i, false)
            &&& forall|id: Seq<char>|
                #![trigger plan.already_labeled.contains(id)]
                plan.already_labeled.contains(id) <==> exists|i: int|
                    0 <= i < files.len() && ids::file_id(
                        EMBEDDER_ID@,
                        CHUNKER_ID@,
                        (#[trigger] files[i]).1,
                        files[i].0,
                    ) == id && is_known(files, sentinels, label_id, incremental, prior, i, true)
        }),
    decreases files.len(),
{
    let plan = planned(files, sentinels, label_id, incremental, prior);
    let n = files.len() as int;
    if n > 0 {
        let rest = files.drop_last();
        let upto = sentinels.drop_last();
        lemma_known(rest, upto, label_id, incremental, prior);
        let before = planned(rest, upto, label_id, incremental, prior);
        let last = files.last();
        let last_id = entry_file_id(last);
        assert(files[n - 1] == last);
        assert forall|i: int, b: bool| 0 <= i < n - 1 implies #[trigger] is_known(
            files,
            sentinels,
            label_id,
            incremental,
            prior,
            i,
            b,
        ) == is_known(rest, upto, label_id, incremental, prior, i, b) by {
            assert(files[i] == rest[i] && sentinels[i] == upto[i]);
        }
        assert forall|id: Seq<char>|
            #![trigger plan.needing_label.contains(id)]
            plan.needing_label.contains(id) <==> exists|i: int|
                0 <= i < files.len() && ids::file_id(
                    EMBEDDER_ID@,
                    CHUNKER_ID@,
                    (#[trigger] files[i]).1,
                    files[i].0,
                ) == id && is_known(files, sentinels, label_id, incremental, prior, i, false) by {
            assert(plan.needing_label.contains(id) <==> before.needing_label.contains(id)
                || is_known(files, sentinels, label_id, incremental, prior, n - 1, false) && id
                == last_id);
            if before.needing_label.contains(id) {
                let i = choose|i: int|
                    0 <= i < rest.len() && ids::file_id(
                        EMBEDDER_ID@,
                        CHUNKER_ID@,
                        (#[trigger] rest[i]).1,
                        rest[i].0,
                    ) == id && is_known(rest, upto, label_id, incremental, prior, i, false);
                assert(files[i] == rest[i]);
                assert(is_known(files, sentinels, label_id, incremental, prior, i, false));
            }
            if exists|i: int|
                0 <= i < files.len() && ids::file_id(
                    EMBEDDER_ID@,
                    CHUNKER_ID@,
                    (#[trigger] files[i]).1,
                    files[i].0,
                ) == id && is_known(files, sentinels, label_id, incremental, prior, i, false) {
                let i = choose|i: int|
                    0 <= i < files.len() && ids::file_id(
                        EMBEDDER_ID@,
                        CHUNKER_ID@,
                        (#[trigger] files[i]).1,
                        files[i].0,
                    ) == id && is_known(files, sentinels, label_id, incremental, prior, i, false);
                if i < n - 1 {
                    assert(rest[i] == files[i]);
                    assert(is_known(rest, upto, label_id, incremental, prior, i, false));
                }
            }
        }
        assert forall|id: Seq<char>|
            #![trigger plan.already_labeled.contains(id)]
            plan.already_labeled.contains(id) <==> exists|i: int|
                0 <= i < files.len() && ids::file_id(
                    EMBEDDER_ID@,
                    CHUNKER_ID@,
                    (#[trigger] files[i]).1,
                    files[i].0,
                ) == id && is_known(files, sentinels, label_id, incremental, prior, i, true) by {
            assert(plan.already_labeled.contains(id) <==> before.already_labeled.contains(id)
                || is_known(files, sentinels, label_id, incremental, prior, n - 1, true) && id
                == last_id);
            if before.already_labeled.contains(id) {
                let i = choose|i: int|
                    0 <= i < rest.len() && ids::file_id(
                        EMBEDDER_ID@,
                        CHUNKER_ID@,
                        (#[trigger] rest[i]).1,
                        rest[i].0,
                    ) == id && is_known(rest, upto, label_id, incremental, prior, i, true);
                assert(files[i] == rest[i]);
                assert(is_known(files, sentinels, label_id, incremental, prior, i, true));
            }
            if exists|i: int|
                0 <= i < files.len() && ids::file_id(
                    EMBEDDER_ID@,
                    CHUNKER_ID@,
                    (#[trigger] files[i]).1,
                    files[i].0,
                ) == id && is_known(files, sentinels, label_id, incremental, prior, i, true) {
                let i = choose|i: int|
                    0 <= i < files.len() && ids::file_id(
                        EMBEDDER_ID@,
                        CHUNKER_ID@,
                        (#[trigger] files[i]).1,
                        files[i].0,
                    ) == id && is_known(files, sentinels, label_id, incremental, prior, i, true);
                if i < n - 1 {
                    assert(rest[i] == files[i]);
                    assert(is_known(rest, upto, label_id, incremental, prior, i, true));
                }
            }
        }
    }
}

}
