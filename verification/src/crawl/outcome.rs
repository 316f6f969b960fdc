//! How a crawl ends.
use crate::crawl::plan::{CrawlSource, CrawlSourceView};
use crate::names::NameSet;
use crate::report;
use crate::report::{no_lines, say, Line, LineView};
use crate::text;
use vstd::prelude::*;

verus! {

/// The known files that got the label, and what went wrong with others.
#[derive(Debug)]
pub struct LabelAdds {
    /// Identifiers of the files whose chunks were found.
    pub labeled: NameSet,
    /// What went wrong.
    pub failures: Vec<String>,
}

/// The message for a file that something went wrong with.
pub open spec fn add_failure(file_id: Seq<char>, reason: Seq<char>) -> Seq<char> {
    file_id + ": "@ + reason
}

impl LabelAdds {
    /// Nothing was tried.
    pub fn new() -> (r: Self)
        ensures
            r.labeled@ == Set::<Seq<char>>::empty(),
            text::views(r.failures@) == Seq::<Seq<char>>::empty(),
    {
        let failures: Vec<String> = Vec::new();
        assert(text::views(failures@) =~= Seq::<Seq<char>>::empty());
        LabelAdds { labeled: NameSet::new(), failures }
    }

    /// The chunks of a file were found and given the label one by one.
    pub fn labeled_file(&mut self, file_id: &str)
        ensures
            final(self).labeled@ == old(self).labeled@.insert(file_id@),
            final(self).failures@ == old(self).failures@,
    {
        self.labeled.insert(file_id);
    }

    /// The chunks of a file could not be found, or one of them not be given the label.
    pub fn failed(&mut self, file_id: &str, reason: &str)
        ensures
            final(self).labeled@ == old(self).labeled@,
            text::views(final(self).failures@) == text::views(old(self).failures@).push(
                add_failure(file_id@, reason@),
            ),
    {
        let ghost before = self.failures@;
        let mut message = text::around(file_id, ": ", reason);
        self.failures.push(message);
        assert(text::views(self.failures@) =~= text::views(before).push(message@));
    }
}

/// The files that keep the label in the cleanup: the known ones that have it, and those of
/// which chunks were made.
pub fn kept_files(labeled: &NameSet, already: &NameSet, touched: &NameSet) -> (r: NameSet)
    ensures
        r@ == labeled@.union(already@).union(touched@),
{
    let mut all = existing_files(labeled, already);
    all.extend(touched);
    all
}

/// The known files that have the label now.
pub fn existing_files(labeled: &NameSet, already: &NameSet) -> (r: NameSet)
    ensures
        r@ == labeled@.union(already@),
{
    let mut all = NameSet::new();
    all.extend(labeled);
    all.extend(already);
    assert(all@ =~= labeled@.union(already@));
    all
}

/// What a crawl came to.
#[derive(Debug, Clone, Copy)]
pub struct CrawlTally {
    /// Files that were indexed.
    pub new_count: usize,
    /// Files that were known.
    pub existing_count: usize,
    /// Known files that have the label now.
    pub updated_count: usize,
    /// Chunks that could not be embedded.
    pub embedding_failures: usize,
    /// Failures to give known files the label.
    pub label_failures: usize,
    /// The cleanup was tried and failed.
    pub cleanup_failed: bool,
}

impl CrawlTally {
    /// Whether something failed before the cleanup.
    pub open spec fn had_failures(self) -> bool {
        self.embedding_failures > 0 || self.label_failures > 0
    }

    /// Whether the crawl came to its end without failures.
    pub open spec fn complete(self) -> bool {
        !self.had_failures() && !self.cleanup_failed
    }

    /// Whether the cleanup may be done: only where nothing failed before.
    pub fn may_clean_up(&self) -> (r: bool)
        ensures
            r == !self.had_failures(),
            r <==> self.embedding_failures == 0 && self.label_failures == 0,
    {
        !(self.embedding_failures > 0 || self.label_failures > 0)
    }

    /// Whether the crawl came to its end without failures.
    pub fn is_complete(&self) -> (r: bool)
        ensures
            r == self.complete(),
            r <==> self.embedding_failures == 0 && self.label_failures == 0
                && !self.cleanup_failed,
    {
        self.may_clean_up() && !self.cleanup_failed
    }
}

/// A crawl counts as complete only if the cleanup was allowed and did not fail.
pub proof fn complete_crawls_were_cleaned_up(tally: CrawlTally)
    requires
        tally.complete(),
    ensures
        !tally.had_failures(),
        tally.embedding_failures == 0,
        tally.label_failures == 0,
        !tally.cleanup_failed,
{
}

/// What is said where the cleanup is left out.
pub open spec fn skipped_lines() -> Seq<LineView> {
    seq![
        LineView::Out("🧹 Phase 4: SKIPPING label reassignment cleanup (crawl had failures)"@),
        LineView::Out(
            "  This is intentional - cleanup should only run after successful crawls."@,
        ),
        LineView::Out("  Run the crawl again to complete indexing and trigger cleanup."@),
    ]
}

/// What is said where the cleanup is left out.
pub fn skipped_cleanup() -> (r: Vec<Line>)
    ensures
        report::line_views(r@) == skipped_lines(),
{
    let mut lines = no_lines();
    say(
        &mut lines,
        "🧹 Phase 4: SKIPPING label reassignment cleanup (crawl had failures)".to_owned(),
    );
    say(
        &mut lines,
        "  This is intentional - cleanup should only run after successful crawls.".to_owned(),
    );
    say(
        &mut lines,
        "  Run the crawl again to complete indexing and trigger cleanup.".to_owned(),
    );
    assert(report::line_views(lines@) =~= skipped_lines());
    lines
}

/// The first line of the summary.
pub open spec fn headline(source: CrawlSourceView, complete: bool) -> Seq<char> {
    match source {
        CrawlSourceView::Commit(_) => if complete {
            "✅ Crawl complete!"@
        } else {
            "⚠️  Crawl completed with errors!"@
        },
        CrawlSourceView::WorkingDirectory => if complete {
            "✅ Working directory crawl complete!"@
        } else {
            "⚠️  Working directory crawl completed with errors!"@
        },
    }
}

/// What is said of every crawl. `elapsed` is how long it took, in words.
pub open spec fn common_lines(
    source: CrawlSourceView,
    tally: CrawlTally,
    elapsed: Seq<char>,
) -> Seq<LineView> {
    seq![
        LineView::Out(headline(source, tally.complete())),
        LineView::Out("  Total time: "@ + elapsed),
        LineView::Out("  New files indexed: "@ + text::decimal(tally.new_count as nat)),
        LineView::Out("  Existing files detected: "@ + text::decimal(tally.existing_count as nat)),
        LineView::Out(
            "  Existing files updated successfully: "@ + text::decimal(tally.updated_count as nat),
        ),
    ]
}

/// What is said of the failures of a crawl.
pub open spec fn failure_lines(tally: CrawlTally) -> Seq<LineView> {
    let total = seq![
        LineView::Out(
            "  Total failures: "@ + text::decimal(
                (tally.embedding_failures + tally.label_failures) as nat,
            ),
        ),
    ];
    let labels = if tally.label_failures > 0 {
        seq![
            LineView::Out(
                "  - Existing file label-add failures: "@ + text::decimal(
                    tally.label_failures as nat,
                ),
            ),
        ]
    } else {
        seq![]
    };
    let cleanup = if tally.cleanup_failed {
        seq![LineView::Out("  - Label cleanup failed (crawl not marked complete)"@)]
    } else {
        seq![]
    };
    total + labels + cleanup + seq![
        LineView::Out(""@),
        LineView::Out("  This crawl is marked as incomplete. Re-run to complete indexing."@),
    ]
}

/// What is said at the end of a crawl.
pub open spec fn summary_lines(
    source: CrawlSourceView,
    tally: CrawlTally,
    elapsed: Seq<char>,
) -> Seq<LineView> {
    if tally.complete() {
        common_lines(source, tally, elapsed)
    } else {
        common_lines(source, tally, elapsed) + failure_lines(tally)
    }
}

fn counted(before: &str, n: usize) -> (r: String)
    ensures
        r@ == before@ + text::decimal(n as nat),
{
    let mut out = before.to_owned();
    text::push_decimal(&mut out, n as u64);
    out
}

fn make_headline(source: &CrawlSource, complete: bool) -> (r: String)
    ensures
        r@ == headline(source@, complete),
{
    match source {
        CrawlSource::Commit(_) => if complete {
            "✅ Crawl complete!".to_owned()
        } else {
            "⚠️  Crawl completed with errors!".to_owned()
        },
        CrawlSource::WorkingDirectory => if complete {
            "✅ Working directory crawl complete!".to_owned()
        } else {
            "⚠️  Working directory crawl completed with errors!".to_owned()
        },
    }
}

/// What is said at the end of a crawl, see [`summary_lines`].
pub fn crawl_summary(source: &CrawlSource, tally: &CrawlTally, elapsed: &str) -> (r: Vec<Line>)
    requires
        tally.embedding_failures + tally.label_failures <= usize::MAX,
    ensures
        report::line_views(r@) == summary_lines(source@, *tally, elapsed@),
{
    let mut lines = no_lines();
    let complete = tally.is_complete();
    say(&mut lines, make_headline(source, complete));
    let mut time = "  Total time: ".to_owned();
    time.append(elapsed);
    say(&mut lines, time);
    say(&mut lines, counted("  New files indexed: ", tally.new_count));
    say(&mut lines, counted("  Existing files detected: ", tally.existing_count));
    say(&mut lines, counted("  Existing files updated successfully: ", tally.updated_count));
    assert(report::line_views(lines@) =~= common_lines(source@, *tally, elapsed@));
    if complete {
        return lines;
    }
    let total: usize = tally.embedding_failures + tally.label_failures;
    say(&mut lines, counted("  Total failures: ", total));
    if tally.label_failures > 0 {
        say(&mut lines, counted("  - Existing file label-add failures: ", tally.label_failures));
    }
    if tally.cleanup_failed {
        say(
            &mut lines,
            "  - Label cleanup failed (crawl not marked complete)".to_owned(),
        );
    }
    say(&mut lines, "".to_owned());
    say(
        &mut lines,
        "  This crawl is marked as incomplete. Re-run to complete indexing.".to_owned(),
    );
    assert(report::line_views(lines@) =~= summary_lines(source@, *tally, elapsed@));
    lines
}

/// What is said once the row of the label is written.
pub fn metadata_notice(tally: &CrawlTally) -> (r: &'static str)
    ensures
        r@ == if tally.complete() {
            "  Label metadata saved."@
        } else {
            "  Label metadata saved (crawl_complete=false due to failures)."@
        },
{
    if tally.is_complete() {
        "  Label metadata saved."
    } else {
        "  Label metadata saved (crawl_complete=false due to failures)."
    }
}

/// A crawl in which anything failed is said to have had errors and is not marked complete; the
/// numbers that are told are those of the crawl.
pub proof fn summaries_tell_what_happened(
    source: CrawlSourceView,
    tally: CrawlTally,
    elapsed: Seq<char>,
)
    ensures
        ({
            let lines = summary_lines(source, tally, elapsed);
            let fine = tally.embedding_failures == 0 && tally.label_failures == 0
                && !tally.cleanup_failed;
            &&& lines.len() >= 5
            &&& fine <==> lines.len() == 5
            &&& lines[0] == LineView::Out(
                match source {
                    CrawlSourceView::Commit(_) => if fine {
                        "✅ Crawl complete!"@
                    } else {
                        "⚠️  Crawl completed with errors!"@
                    },
                    CrawlSourceView::WorkingDirectory => if fine {
                        "✅ Working directory crawl complete!"@
                    } else {
                        "⚠️  Working directory crawl completed with errors!"@
                    },
                },
            )
            &&& lines[1] == LineView::Out("  Total time: "@ + elapsed)
            &&& lines[2] == LineView::Out(
                "  New files indexed: "@ + text::decimal(tally.new_count as nat),
            )
            &&& lines[3] == LineView::Out(
                "  Existing files detected: "@ + text::decimal(tally.existing_count as nat),
            )
            &&& lines[4] == LineView::Out(
                "  Existing files updated successfully: "@ + text::decimal(
                    tally.updated_count as nat,
                ),
            )
            &&& !fine ==> lines[5] == LineView::Out(
                "  Total failures: "@ + text::decimal(
                    (tally.embedding_failures + tally.label_failures) as nat,
                ),
            ) && lines.last() == LineView::Out(
                "  This crawl is marked as incomplete. Re-run to complete indexing."@,
            )
        }),
{
}

}
