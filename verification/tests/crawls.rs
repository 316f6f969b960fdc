use monodex::chunker::{chunk_content, Chunk, ChunkContext};
use monodex::crawl::index::{had_warning, next_warnings, warning_summary, NewChunks};
use monodex::crawl::labels::{
    add_label, has_label, label_updates, plan_cleanup, remove_label, CleanupStep,
};
use monodex::crawl::outcome::{
    crawl_summary, existing_files, kept_files, metadata_notice, skipped_cleanup, CrawlTally,
    LabelAdds,
};
use monodex::crawl::plan::{select_files, sentinel_id, CrawlJob, CrawlSource, Sentinel};
use monodex::crawl::types::CrawlFailures;
use monodex::crawl::writer::{chunk_to_row, embedding_failure, touched_files, worker_for, Writer};
use monodex::crawl_config::get_default_crawl_config;
use monodex::diagnostics::{
    ideal_division, should_audit, show_audit_line, show_dump_head, show_dump_summary, show_quality,
    show_short_chunk, show_whole_chunk, tally_chunks, SizeReport,
};
use monodex::embedder::{truncate_tokens, ParallelConfig, MAX_LENGTH};
use monodex::git_ops::FileEntry;
use monodex::identifier::LabelId;
use monodex::names::{is_before, NameMap, NameSet};
use monodex::partitioner::partition::partition_typescript;
use monodex::partitioner::types::PartitionConfig;
use monodex::report::Line;

fn texts(items: &[&str]) -> Vec<String> {
    items.iter().map(|s| s.to_string()).collect()
}

fn set(items: &[&str]) -> NameSet {
    let mut names = NameSet::new();
    for item in items {
        names.insert(item);
    }
    names
}

fn shown(lines: &[Line]) -> Vec<String> {
    lines
        .iter()
        .map(|l| match l {
            Line::Out(s) => s.clone(),
            Line::Warning(s) => format!("! {}", s),
        })
        .collect()
}

fn chunks_of(path: &str, blob: &str, content: &str, target: usize) -> Vec<Chunk> {
    let ctx = ChunkContext {
        catalog: "cat".to_string(),
        label_id: "cat:main".to_string(),
        package_name: "pkg".to_string(),
        relative_path: path.to_string(),
        blob_id: blob.to_string(),
        source_uri: format!("/repo/{}", path),
    };
    chunk_content(content, &ctx, target, None)
}

#[test]
fn names_are_kept_in_order_and_once() {
    let mut names = set(&["b", "a", "c", "b", "aa", ""]);
    assert_eq!(names.to_sorted(), ["", "a", "aa", "b", "c"]);
    assert_eq!(names.len(), 5);
    assert!(names.contains("aa"));
    assert!(!names.contains("ab"));
    names.extend(&set(&["d", "a"]));
    assert_eq!(names.len(), 6);
    assert!(!names.is_empty());
    assert!(NameSet::new().is_empty());
    let words = ["", "a", "aé", "az", "é", "Z", "zz"];
    for a in words {
        for b in words {
            assert_eq!(is_before(a, b), a < b);
        }
    }
}

#[test]
fn tables_keep_the_last_value() {
    let mut map = NameMap::new();
    map.insert("b", "1");
    map.insert("a", "2");
    map.insert("b", "3");
    assert_eq!(map.get("b"), Some("3"));
    assert_eq!(map.get("a"), Some("2"));
    map.remove("b");
    map.remove("zzz");
    assert_eq!(map.get("b"), None);
    assert_eq!(map.get("a"), Some("2"));
}

#[test]
fn failures_are_counted() {
    let mut failures = CrawlFailures::default();
    assert_eq!(failures.total(), 0);
    assert!(!failures.has_failures());
    failures.embedding_failures.push("x".to_string());
    assert_eq!(failures.total(), 1);
    assert!(failures.has_failures());
}

#[test]
fn labels_are_added_once_and_removed_whole() {
    let labels = texts(&["c:a", "c:b"]);
    assert!(has_label(&labels, "c:b"));
    assert_eq!(add_label(&labels, "c:b"), labels);
    let more = add_label(&labels, "c:x");
    assert_eq!(more, texts(&["c:a", "c:b", "c:x"]));
    assert_eq!(remove_label(&more, "c:x"), labels);
    assert_eq!(remove_label(&labels, "c:a"), texts(&["c:b"]));
    assert!(remove_label(&texts(&["c:a", "c:a"]), "c:a").is_empty());
}

#[test]
fn a_cleanup_spares_the_files_that_keep_the_label() {
    let mut rows: Vec<_> = ["a.ts", "b.ts", "c.ts"]
        .iter()
        .map(|path| chunk_to_row(&chunks_of(path, "blob", "let x = 1;\n", 6000)[0]))
        .collect();
    rows[1].active_label_ids.push("cat:other".to_string());
    let kept = set(&[rows[2].file_id.as_str()]);
    let steps = plan_cleanup(&rows, "cat:main", &kept);
    assert_eq!(steps.len(), 2);
    assert!(matches!(&steps[0], CleanupStep::Delete(id) if *id == rows[0].point_id));
    assert!(matches!(&steps[1], CleanupStep::Relabel(id, labels)
        if *id == rows[1].point_id && *labels == texts(&["cat:other"])));
    let updates = label_updates(&rows, "cat:new");
    assert_eq!(updates.len(), 3);
    assert_eq!(updates[1].1, texts(&["cat:main", "cat:other", "cat:new"]));
}

fn entry(path: &str) -> FileEntry {
    FileEntry { relative_path: path.to_string(), blob_id: format!("blob-{}", path) }
}

fn job(incremental: bool, prior: &[&str]) -> CrawlJob {
    CrawlJob {
        label_id: LabelId::new("cat", "main").unwrap(),
        source: CrawlSource::Commit("abc".to_string()),
        incremental_warnings: incremental,
        prior_warnings: set(prior),
    }
}

#[test]
fn known_files_are_not_indexed_again() {
    let files = vec![entry("new.ts"), entry("part.ts"), entry("here.ts"), entry("other.ts"),
        entry("warned.ts"), entry("odd.ts")];
    let sentinels = || vec![
        Sentinel::Missing,
        Sentinel::Found { complete: false, labels: texts(&["cat:main"]) },
        Sentinel::Found { complete: true, labels: texts(&["cat:main"]) },
        Sentinel::Found { complete: true, labels: texts(&["cat:next"]) },
        Sentinel::Found { complete: true, labels: texts(&["cat:main"]) },
        Sentinel::Unknown("no answer".to_string()),
    ];
    let plan = job(false, &["warned.ts"]).plan(&files, &sentinels());
    let new: Vec<&str> = plan.new_files.iter().map(|f| f.relative_path.as_str()).collect();
    assert_eq!(new, ["new.ts", "part.ts", "warned.ts", "odd.ts"]);
    assert_eq!(plan.existing_count, 2);
    assert_eq!(plan.needing_label.len(), 1);
    assert_eq!(plan.already_labeled.len(), 1);
    assert_eq!(shown(&plan.warnings), ["!   ⚠️  Error checking sentinel for odd.ts: no answer"]);
    assert_eq!(
        shown(&plan.lines()),
        [
            "  New files to index: 4",
            "  Existing files (label update only): 2",
            "  Existing files already labeled: 1 (skipping)",
            ""
        ]
    );
    let sentinel = sentinel_id(&files[2]);
    assert!(sentinel.ends_with(":1"));
    assert!(plan.already_labeled.contains(&sentinel[..16]));

    let plan = job(true, &["warned.ts"]).plan(&files, &sentinels());
    assert_eq!(plan.new_files.len(), 3);
    assert_eq!(plan.existing_count, 3);
}

#[test]
fn files_are_selected_by_the_configuration() {
    let config = get_default_crawl_config().compile().unwrap();
    let files = vec![entry("src/a.ts"), entry("node_modules/b.ts"), entry("c.png"), entry("d.md")];
    let kept = select_files(&files, &config);
    let paths: Vec<&str> = kept.iter().map(|f| f.relative_path.as_str()).collect();
    assert_eq!(paths, ["src/a.ts", "d.md"]);
}

#[test]
fn the_row_of_a_label_says_what_was_crawled() {
    let row = job(false, &[]).metadata(true, 1700000000);
    assert!(row.validate().is_ok());
    assert_eq!(row.label_id, "cat:main");
    assert_eq!(row.source_kind, "git-commit");
    assert_eq!(row.commit_oid, "abc");
    let mut other = job(false, &[]);
    other.source = CrawlSource::WorkingDirectory;
    let row = other.metadata(false, 1);
    assert_eq!((row.source_kind.as_str(), row.commit_oid.as_str()), ("working-directory", ""));
    assert!(!row.crawl_complete);
}

#[test]
fn new_files_are_divided_and_noted() {
    let config = get_default_crawl_config().compile().unwrap();
    let label = LabelId::new("cat", "main").unwrap();
    let mut found = NewChunks::new();
    let lines =
        found.index_file(&label, "/repo", &config, &entry("src/a.ts"), Some("@s/p"), "let a = 1;\n");
    assert!(lines.is_empty());
    assert_eq!(found.chunks.len(), 1);
    assert_eq!(found.chunks[0].package_name, "@s/p");
    assert_eq!(found.chunks[0].source_uri, "/repo/src/a.ts");
    assert_eq!(found.chunks[0].active_label_ids, ["cat:main"]);
    assert!(found.touched.contains(&found.chunks[0].file_id.clone()));

    let long = format!("const s = `\n{}`;\n", "some words in a long line\n".repeat(400));
    let lines = found.index_file(&label, "/repo", &config, &entry("src/long.ts"), None, &long);
    assert_eq!(shown(&lines), ["", "Warning: Couldn't find a splitpoint for src/long.ts"]);
    assert!(found.warned.contains("src/long.ts"));
    assert_eq!(found.warned.len(), 1);
    assert_eq!(found.chunks[1].package_name, "cat");
    assert!(had_warning(&found.chunks));
}

#[test]
fn warnings_are_remembered_and_listed() {
    let prior = set(&["a"]);
    let warned = set(&["b"]);
    assert_eq!(next_warnings(true, &prior, &warned).to_sorted(), ["a", "b"]);
    assert_eq!(next_warnings(false, &prior, &warned).to_sorted(), ["b"]);
    assert!(warning_summary(&vec![]).is_empty());
    assert_eq!(
        shown(&warning_summary(&texts(&["x.ts"]))),
        ["", "Chunking warnings in 1 file:", "  - x.ts"]
    );
    let many: Vec<String> = (0..23).map(|i| format!("f{}", i)).collect();
    let lines = shown(&warning_summary(&many));
    assert_eq!(lines.len(), 23);
    assert_eq!(lines[1], "Chunking warnings in 23 files:");
    assert_eq!(lines[22], "  ... and 3 more");
}

#[test]
fn a_crawl_is_complete_without_failures() {
    let mut tally = CrawlTally {
        new_count: 3,
        existing_count: 2,
        updated_count: 2,
        embedding_failures: 0,
        label_failures: 0,
        cleanup_failed: false,
    };
    let source = CrawlSource::WorkingDirectory;
    assert!(tally.may_clean_up() && tally.is_complete());
    assert_eq!(metadata_notice(&tally), "  Label metadata saved.");
    assert_eq!(
        shown(&crawl_summary(&source, &tally, "5s")),
        [
            "✅ Working directory crawl complete!",
            "  Total time: 5s",
            "  New files indexed: 3",
            "  Existing files detected: 2",
            "  Existing files updated successfully: 2"
        ]
    );
    tally.cleanup_failed = true;
    assert!(tally.may_clean_up() && !tally.is_complete());
    tally.label_failures = 2;
    tally.embedding_failures = 1;
    assert!(!tally.may_clean_up());
    let lines = shown(&crawl_summary(&CrawlSource::Commit("c".to_string()), &tally, "5s"));
    assert_eq!(lines[0], "⚠️  Crawl completed with errors!");
    assert_eq!(
        lines[5..],
        [
            "  Total failures: 3",
            "  - Existing file label-add failures: 2",
            "  - Label cleanup failed (crawl not marked complete)",
            "",
            "  This crawl is marked as incomplete. Re-run to complete indexing."
        ]
    );
    assert!(metadata_notice(&tally).contains("crawl_complete=false"));
    assert_eq!(skipped_cleanup().len(), 3);
}

#[test]
fn files_that_keep_the_label_are_gathered() {
    let mut adds = LabelAdds::new();
    adds.labeled_file("a");
    adds.failed("b", "lost");
    assert_eq!(adds.failures, ["b: lost"]);
    assert_eq!(existing_files(&adds.labeled, &set(&["c"])).to_sorted(), ["a", "c"]);
    assert_eq!(kept_files(&adds.labeled, &set(&["c"]), &set(&["d"])).to_sorted(), ["a", "c", "d"]);
}

#[test]
fn rows_of_chunks_are_valid() {
    for chunk in chunks_of("src/a.ts", "blob", "function a() {\n  return 1;\n}\n", 6000) {
        let row = chunk_to_row(&chunk);
        assert!(row.validate().is_ok());
        assert_eq!(row.point_id, chunk.point_id());
        assert_eq!(row.file_complete, row.chunk_ordinal == 1);
        assert_eq!(row.breadcrumb, Some(chunk.breadcrumb.clone()));
    }
    let mut chunk = chunks_of("src/a.ts", "blob", "let a = 1;\n", 6000).remove(0);
    chunk.breadcrumb = String::new();
    chunk.split_part_ordinal = Some(2);
    let row = chunk_to_row(&chunk);
    assert_eq!(row.breadcrumb, None);
    assert_eq!(row.split_part_ordinal, Some(2));
}

#[test]
fn every_chunk_is_written_in_its_turn() {
    let one = chunks_of("one.ts", "1", "let a = 1;\n", 6000);
    let two = chunks_of("two.ts", "2", &"function f() {\n  return 1234567;\n}\n\n".repeat(20), 300);
    assert!(two.len() > 1);
    let mut writer = Writer::new();
    assert!(writer.checkpoint().is_none());
    writer.receive(one[0].clone());
    writer.receive(two[0].clone());
    let first = writer.checkpoint().unwrap();
    assert_eq!(first.rows.len(), 2);
    // The file with one chunk is complete after one checkpoint
    assert_eq!(first.confirmed.len(), 1);
    assert_eq!(first.confirmed[0].0, one[0].point_id());
    assert_eq!(first.confirmed[0].1, ["cat:main"]);
    for chunk in &two[1..] {
        writer.receive(chunk.clone());
    }
    let last = writer.finish().unwrap();
    assert_eq!(last.rows.len(), two.len() - 1);
    assert!(last.confirmed.is_empty());
    assert!(writer.finish().is_none());
    writer.receive(two[0].clone());
    assert_eq!(writer.finish().unwrap().confirmed.len(), 1);
    let all: Vec<Chunk> = one.iter().chain(two.iter()).cloned().collect();
    assert_eq!(touched_files(&all).len(), 2);
    assert_eq!(worker_for(7, 4), 3);
    assert_eq!(embedding_failure(&one[0], "bad"), "one.ts:1: bad");
}

#[test]
fn checkpoints_are_counted_for_each_file() {
    let text = "function f() {\n  return 1234567;\n}\n\n".repeat(10);
    let two = chunks_of("two.ts", "2", &text, 300);
    let n = two.len();
    assert!(n > 1);

    // All chunks in one checkpoint: the file has had one checkpoint
    let mut writer = Writer::new();
    for chunk in &two {
        writer.receive(chunk.clone());
    }
    let upload = writer.checkpoint().unwrap();
    assert_eq!(upload.rows.len(), n);
    assert!(upload.confirmed.is_empty());
    assert_eq!(writer.checkpoints, [(two[0].file_id.clone(), 1)]);

    // One checkpoint for each chunk, the first chunk last
    let mut writer = Writer::new();
    for chunk in two[1..].iter().rev() {
        writer.receive(chunk.clone());
        assert!(writer.checkpoint().unwrap().confirmed.is_empty());
    }
    writer.receive(two[0].clone());
    let upload = writer.checkpoint().unwrap();
    assert_eq!(upload.confirmed.len(), 1);
    assert_eq!(upload.confirmed[0].0, two[0].point_id());
    assert_eq!(writer.checkpoints, [(two[0].file_id.clone(), n)]);
}

#[test]
fn tokens_are_cut_to_the_length_of_the_model() {
    assert_eq!(truncate_tokens(&[1, 2, u32::MAX]), [1, 2, 4294967295]);
    assert_eq!(truncate_tokens(&vec![7u32; MAX_LENGTH + 5]).len(), MAX_LENGTH);
    let config = ParallelConfig::for_cores(13);
    assert_eq!((config.num_workers, config.intra_threads), (4, 3));
    assert_eq!(ParallelConfig::for_cores(2).intra_threads, 1);
    let here = ParallelConfig::default();
    assert_eq!(here, ParallelConfig::for_cores(num_cpus::get()));
}

#[test]
fn divisions_are_summed_up_and_shown() {
    let source = "// head\nfunction a() {\n  return 1;\n}\n";
    let config = PartitionConfig {
        file_name: "a.ts".to_string(),
        package_name: "p".to_string(),
        allow_fallback: false,
        ..Default::default()
    };
    let chunks = partition_typescript(source, &config, "a.ts", "c");
    assert_eq!(chunks.len(), 1);
    let report = SizeReport::from_chunks(&chunks);
    assert_eq!((report.total_chunks, report.small_chunks), (1, 1));
    assert_eq!(report.min_chars, source.len() - 1);
    assert_eq!(report.total_chars, report.max_chars);
    assert_eq!(SizeReport::from_chunks(&vec![]).min_chars, 0);
    assert_eq!(
        report.format("100.0", "36"),
        "Score: 100.0% | Chunks: 1 | Small (<500 chars): 1 | Chars: 36-36 (mean 36)"
    );
    let tally = tally_chunks(&chunks, 10);
    assert_eq!((tally.oversized, tally.undersized), (1, 0));
    let tally = tally_chunks(&chunks, 6000);
    assert_eq!((tally.oversized, tally.undersized), (0, 1));
    assert_eq!(tally.total_chars, 36 + chunks[0].breadcrumb.len());
    assert_eq!(shown(&show_dump_head("a.ts", false)).len(), 3);
    let lines: Vec<String> = source.lines().map(|l| l.to_string()).collect();
    assert_eq!(
        shown(&show_whole_chunk(1, &chunks[0], &lines)),
        ["-- [CHUNK 1] [4 lines] [36 chars] --", "// head", "function a() {", "  return 1;", "}", ""]
    );
    let short = shown(&show_short_chunk(1, &chunks[0], 6000));
    assert_eq!(short[0], "━━━━━ Chunk 1 ━━━━━");
    assert!(short.contains(&"⚡ Small chunk".to_string()));
    assert!(short.contains(&"  return 1;".to_string()) || short.contains(&"    return 1;".to_string()));
    assert!(shown(&show_short_chunk(1, &chunks[0], 10))
        .contains(&"⚠️  OVERSIZED (target: 10, actual: 36)".to_string()));
    assert_eq!(shown(&show_quality(&report, "100.0", "36"))[4], "Chars: 36-36 (mean 36)");
    assert_eq!(shown(&show_dump_summary(&report, &tally, 6000, "36", "100.0")).len(), 8);
    assert!(show_audit_line(1, &chunks[0]).starts_with("  Chunk 1: 4 lines (1-4)  [TINY] - p:a.ts"));
    let ideal = ideal_division(13000, 20000);
    assert_eq!((ideal.full_size, ideal.count, ideal.last_size), (6000, 3, 1000));
    let ideal = ideal_division(12000, 20000);
    assert_eq!((ideal.count, ideal.last_size), (2, 6000));
    assert_eq!(ideal_division(0, 5).count, 0);
    assert!(should_audit("/x/a.ts", "a.ts"));
    assert!(!should_audit("/x/node_modules/a.ts", "a.ts"));
    assert!(!should_audit("/x/a.tsx", "a.tsx"));
    assert!(!should_audit("/x/.ts", ".ts"));
}
