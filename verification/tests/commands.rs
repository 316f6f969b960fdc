use monodex::clock::{chrono_timestamp, format_elapsed, format_time};
use monodex::context::{check_default_context, resolve_label_context, DefaultContext};
use monodex::display::sanitize_for_terminal;
use monodex::names::NameSet;
use monodex::purge::decide_purge;
use monodex::report::Line;
use monodex::search::{show_context, show_result};
use monodex::settings::CatalogConfig;
use monodex::storage::database::{check_open, MetaRead};
use monodex::storage::rows::ChunkRow;
use monodex::use_cmd::{decide_use, show_default_context, show_set_context, UseAction};
use monodex::view::{
    check_requests, note_catalogs, parse_file_id_with_selector, parse_requests, select_chunks,
    show_answer, show_catalogs, show_selector, ChunkSelector,
};

#[test]
fn test_parse_file_id_all_chunks() {
    let (file_id, selector) = parse_file_id_with_selector("abcd1234efab5678").unwrap();
    assert_eq!(file_id, "abcd1234efab5678");
    assert!(matches!(selector, ChunkSelector::All));
}

#[test]
fn test_parse_file_id_single_chunk() {
    let (file_id, selector) = parse_file_id_with_selector("abcd1234efab5678:3").unwrap();
    assert_eq!(file_id, "abcd1234efab5678");
    assert!(matches!(selector, ChunkSelector::Single(3)));
}

#[test]
fn test_parse_file_id_range() {
    let (file_id, selector) = parse_file_id_with_selector("abcd1234efab5678:2-4").unwrap();
    assert_eq!(file_id, "abcd1234efab5678");
    assert!(matches!(selector, ChunkSelector::Range(2, 4)));
}

#[test]
fn test_parse_file_id_to_end() {
    let (file_id, selector) = parse_file_id_with_selector("abcd1234efab5678:3-end").unwrap();
    assert_eq!(file_id, "abcd1234efab5678");
    assert!(matches!(selector, ChunkSelector::ToEnd(3)));
}

#[test]
fn test_parse_file_id_invalid_file_id() {
    let result = parse_file_id_with_selector("invalid");
    assert!(result.is_err());
    assert!(result.unwrap_err().to_string().contains("Invalid file ID"));
}

#[test]
fn test_parse_file_id_invalid_selector() {
    let result = parse_file_id_with_selector("abcd1234efab5678:abc");
    assert!(result.is_err());
    assert!(result.unwrap_err().to_string().contains("Invalid chunk number"));
}

#[test]
fn test_parse_file_id_end_without_start() {
    let result = parse_file_id_with_selector("abcd1234efab5678:end");
    assert!(result.is_err());
    assert!(result.unwrap_err().to_string().contains("Invalid selector ':end'"));
}

#[test]
fn test_parse_file_id_zero_chunk_number() {
    let result = parse_file_id_with_selector("abcd1234efab5678:0");
    assert!(result.is_err());
    assert!(result.unwrap_err().to_string().contains("1-indexed"));
}

#[test]
fn test_parse_file_id_reversed_range() {
    let result = parse_file_id_with_selector("abcd1234efab5678:5-2");
    assert!(result.is_err());
    assert!(result.unwrap_err().to_string().contains("Start chunk 5 > end chunk 2"));
}

#[test]
fn selectors_are_checked_in_every_part() {
    let error = |s: &str| parse_file_id_with_selector(s).unwrap_err().to_string();
    assert_eq!(
        error("abcd1234efab5678:1-2-3"),
        "Invalid selector '1-2-3'. Expected ':N-M' format."
    );
    assert_eq!(error("abcd1234efab5678:x-2"), "Invalid start chunk in selector 'x-2'");
    assert_eq!(error("abcd1234efab5678:1-y"), "Invalid end chunk in selector '1-y'");
    assert_eq!(error("abcd1234efab5678:0-2"), "Chunk numbers are 1-indexed, got 0:2");
    assert_eq!(error("abcd1234efab5678:0-end"), "Chunk numbers are 1-indexed, got 0");
    assert_eq!(error("abcd1234efab567:1"), "Invalid file ID 'abcd1234efab567'. Expected 16 hex characters.");
    assert!(error("abcd1234efab5678:99999999999999999999999").contains("Invalid chunk number"));
    let (_, selector) = parse_file_id_with_selector("  ABCD1234efab5678:+7 ").unwrap();
    assert_eq!(selector, ChunkSelector::Single(7));
}

#[test]
fn selectors_are_read_back() {
    for selector in [
        ChunkSelector::All,
        ChunkSelector::Single(12),
        ChunkSelector::Range(2, 30),
        ChunkSelector::ToEnd(usize::MAX),
    ] {
        let spec = format!("abcd1234efab5678{}", show_selector(selector));
        let (id, again) = parse_file_id_with_selector(&spec).unwrap();
        assert_eq!(id, "abcd1234efab5678");
        assert_eq!(again, selector);
    }
}

fn row(ordinal: i32) -> ChunkRow {
    ChunkRow {
        point_id: format!("abcd1234efab5678:{}", ordinal),
        text: "one\ntwo\nthree\nfour".to_string(),
        catalog: "cat".to_string(),
        active_label_ids: vec!["cat:main".to_string()],
        embedder_id: "e".to_string(),
        chunker_id: "c".to_string(),
        blob_id: "b".to_string(),
        content_hash: "h".to_string(),
        file_id: "abcd1234efab5678".to_string(),
        relative_path: "src/a.ts".to_string(),
        package_name: "p".to_string(),
        source_uri: "/repo/src/a.ts".to_string(),
        chunk_ordinal: ordinal,
        chunk_count: 3,
        start_line: 1,
        end_line: 4,
        symbol_name: None,
        chunk_type: "function".to_string(),
        chunk_kind: "content".to_string(),
        breadcrumb: Some("p:a.ts:f".to_string()),
        split_part_ordinal: None,
        split_part_count: None,
        file_complete: ordinal == 1,
    }
}

fn shown(lines: &[Line]) -> Vec<String> {
    lines
        .iter()
        .map(|l| match l {
            Line::Out(s) => s.clone(),
            Line::Warning(s) => format!("! {}", s),
        })
        .collect()
}

#[test]
fn selectors_take_chunks_by_ordinal() {
    let rows = || vec![row(1), row(2), row(3)];
    let ordinals = |s| -> Vec<i32> {
        select_chunks(rows(), s).iter().map(|r| r.chunk_ordinal).collect()
    };
    assert_eq!(ordinals(ChunkSelector::All), [1, 2, 3]);
    assert_eq!(ordinals(ChunkSelector::Single(2)), [2]);
    assert_eq!(ordinals(ChunkSelector::Range(2, 9)), [2, 3]);
    assert_eq!(ordinals(ChunkSelector::ToEnd(3)), [3]);
    assert_eq!(ordinals(ChunkSelector::Single(4)), [0i32; 0]);
}

#[test]
fn test_view_chunk_not_found() {
    let lines = show_answer("abcd1234efab5678", ChunkSelector::Range(2, 4), &vec![], false);
    assert_eq!(shown(&lines), ["abcd1234efab5678:2-4 ERROR: CHUNK NOT FOUND"]);
}

#[test]
fn chunks_are_shown_with_their_lines() {
    let mut second = row(2);
    second.chunk_kind = "fallback-split".to_string();
    second.split_part_ordinal = Some(1);
    second.split_part_count = Some(2);
    second.breadcrumb = None;
    let lines = show_answer("abcd1234efab5678", ChunkSelector::All, &vec![row(1), second], true);
    let lines = shown(&lines);
    assert_eq!(
        lines[..10],
        [
            "abcd1234efab5678:1 (1/3) p:a.ts:f",
            "Source: (cat) src/a.ts",
            "Full path: /repo/src/a.ts",
            "Lines: 1-4",
            "Type: function",
            "",
            "> one",
            "> two",
            "> three",
            "> four"
        ]
    );
    assert_eq!(lines[11], "abcd1234efab5678:2 (2/3) unknown (part 1/2) [fallback-split]");
}

#[test]
fn names_are_shown_without_control_characters() {
    assert_eq!(sanitize_for_terminal("a\u{1b}[31mb\u{7f}\t→"), "a[31mb→");
    let mut bad = row(1);
    bad.breadcrumb = Some("p:\u{1b}a.ts".to_string());
    bad.catalog = "c\u{7}at".to_string();
    bad.relative_path = "src/\u{85}a.ts".to_string();
    bad.source_uri = "/repo\r".to_string();
    bad.chunk_type = "fun\nction".to_string();
    assert_eq!(shown(&show_result(&bad, "0.125"))[0], "abcd1234efab5678:1  dist=0.125  p:a.ts");
    let lines = shown(&show_answer("abcd1234efab5678", ChunkSelector::All, &vec![bad], true));
    assert_eq!(
        lines[..5],
        [
            "abcd1234efab5678:1 (1/3) p:a.ts",
            "Source: (cat) src/a.ts",
            "Full path: /repo",
            "Lines: 1-4",
            "Type: function"
        ]
    );
    let mut places = catalogs();
    places[0].1.path = "/re\u{1b}po".to_string();
    assert_eq!(
        shown(&show_catalogs(&vec!["cat".to_string()], &places))[2],
        "  Catalog path: /repo"
    );
}

#[test]
fn results_show_three_lines() {
    assert_eq!(
        shown(&show_result(&row(1), "0.125")),
        ["abcd1234efab5678:1  dist=0.125  p:a.ts:f", "> one", "> two", "> three", ""]
    );
    assert_eq!(shown(&show_context("cat", "main")), ["Catalog: cat", "Label: main", ""]);
}

fn catalogs() -> Vec<(String, CatalogConfig)> {
    vec![
        (
            "cat".to_string(),
            CatalogConfig { catalog_type: "monorepo".to_string(), path: "/repo".to_string() },
        ),
        (
            "dog".to_string(),
            CatalogConfig { catalog_type: "monorepo".to_string(), path: "/other".to_string() },
        ),
    ]
}

#[test]
fn catalogs_are_named_before_the_chunks() {
    let mut names = NameSet::new();
    let mut stranger = row(1);
    stranger.catalog = "ape".to_string();
    note_catalogs(&mut names, &vec![row(1), stranger, row(2)]);
    assert_eq!(names.to_sorted(), ["ape", "cat"]);
    assert_eq!(
        shown(&show_catalogs(&names.to_sorted(), &catalogs())),
        ["Catalogs:", "- cat", "  Catalog path: /repo", ""]
    );
    assert!(show_catalogs(&vec![], &catalogs()).is_empty());
}

#[test]
fn test_view_no_ids_provided() {
    let err = check_requests(&vec![]).unwrap_err().to_string();
    assert!(err.contains("No IDs provided"), "Error should mention no IDs: {}", err);
    assert!(check_requests(&vec!["x".to_string()]).is_ok());
}

#[test]
fn the_first_bad_request_is_reported() {
    let specs = vec!["abcd1234efab5678".to_string(), "bad".to_string(), "worse".to_string()];
    assert!(parse_requests(&specs).unwrap_err().to_string().contains("'bad'"));
    assert_eq!(parse_requests(&specs[..1].to_vec()).unwrap().len(), 1);
}

#[test]
fn test_view_missing_database() {
    let err = check_open("/home/default-db", &None, &MetaRead::Missing).unwrap_err().to_string();
    assert!(err.contains("No monodex database"), "Error should mention missing database: {}", err);
    assert!(err.contains("init-db"), "Error should mention init-db: {}", err);
}

#[test]
fn test_search_missing_database() {
    resolve_label_context(Some("main"), Some("test-catalog"), &None).unwrap();
    let err = check_open("/home/default-db", &None, &MetaRead::Missing).unwrap_err().to_string();
    assert!(err.contains("No monodex database"), "Error should mention missing database: {}", err);
    assert!(err.contains("init-db"), "Error should mention init-db: {}", err);
}

#[test]
fn test_view_missing_label_context() {
    let err = resolve_label_context(None, None, &None).unwrap_err().to_string();
    assert!(err.contains("No context set"), "Error should mention missing context: {}", err);
}

#[test]
fn test_search_missing_label_context() {
    let err = resolve_label_context(None, None, &None).unwrap_err().to_string();
    assert!(err.contains("No context set"), "Error should mention missing context: {}", err);
    let err = resolve_label_context(Some("main"), None, &None).unwrap_err().to_string();
    assert!(err.starts_with("Missing context."));
}

fn context(catalog: &str, label: &str) -> DefaultContext {
    DefaultContext {
        catalog: catalog.to_string(),
        label: label.to_string(),
        set_at: "12:00:00".to_string(),
    }
}

#[test]
fn flags_prevail_over_the_default_context() {
    let default = Some(context("cat", "main"));
    let resolved = |label, catalog| -> String {
        let (id, c, l) = resolve_label_context(label, catalog, &default).unwrap();
        assert_eq!(id.as_str(), format!("{}:{}", c, l));
        id.to_string()
    };
    assert_eq!(resolved(None, None), "cat:main");
    assert_eq!(resolved(Some("x"), None), "cat:x");
    assert_eq!(resolved(None, Some("dog")), "dog:main");
    assert_eq!(resolved(Some("x"), Some("dog")), "dog:x");
}

#[test]
fn bad_names_in_a_context_are_reported() {
    let error = |label, catalog, default: Option<DefaultContext>| {
        resolve_label_context(label, catalog, &default).unwrap_err().to_string()
    };
    assert_eq!(
        error(Some("a:b"), None, None),
        "Invalid --label value 'a:b'. Use separate flags: --catalog <catalog> --label <label>"
    );
    assert!(error(Some("B"), None, None).starts_with("Invalid label name 'B': "));
    assert!(error(None, Some("B"), None).starts_with("Invalid catalog name 'B': "));
    assert!(error(None, None, Some(context("B", "x")))
        .starts_with("Invalid catalog in default context 'B': "));
    assert!(error(None, None, Some(context("b", "X")))
        .starts_with("Invalid label in default context 'X': "));
    assert!(check_default_context(context("b", "x")).is_ok());
    let warning = check_default_context(context("B", "x")).unwrap_err();
    assert!(warning.starts_with("Warning: Invalid catalog 'B' in default context: "));
    assert!(warning.ends_with("to reset."));
    assert!(check_default_context(context("b", "X"))
        .unwrap_err()
        .starts_with("Warning: Invalid label 'X' in default context: "));
}

#[test]
fn the_context_is_set_from_two_names() {
    let decide = |c, l| decide_use(c, l, &catalogs());
    assert_eq!(decide(None, None).unwrap(), UseAction::Show);
    assert_eq!(decide(Some("cat"), Some("main")).unwrap(), UseAction::Change);
    assert!(decide(Some("cat"), None)
        .unwrap_err()
        .to_string()
        .starts_with("Both --catalog and --label are required to set context."));
    assert_eq!(
        decide(Some("fox"), Some("main")).unwrap_err().to_string(),
        "Catalog 'fox' not found in config. Available catalogs: cat, dog"
    );
    assert!(decide(Some("Fox"), Some("main")).unwrap_err().to_string().starts_with("Invalid catalog name"));
    assert!(decide(Some("cat"), Some("Main")).unwrap_err().to_string().starts_with("Invalid label name"));
    assert_eq!(
        shown(&show_default_context(&Some(context("cat", "main")))),
        ["Current context:", "  Catalog: cat", "  Label: main"]
    );
    assert_eq!(shown(&show_default_context(&None))[0], "No default context set.");
    assert_eq!(shown(&show_set_context("cat", "main"))[0], "✓ Default context set to:");
}

#[test]
fn a_purge_needs_a_target() {
    let all = decide_purge(Some("cat"), true).unwrap();
    assert_eq!(all.started(), "🗑️  Purging entire database");
    assert_eq!(all.ended(1, 2), "✅ Database purged successfully");
    let one = decide_purge(Some("cat"), false).unwrap();
    assert_eq!(one.started(), "🗑️  Purging catalog: cat");
    assert_eq!(one.ended(3, 2), "✅ Catalog purged successfully (3 chunks, 2 labels deleted)");
    assert_eq!(
        decide_purge(None, false).unwrap_err().to_string(),
        "Must specify either --catalog <name> or --all"
    );
}

#[test]
fn times_have_two_digits_each() {
    assert_eq!(format_time(0), "00:00:00");
    assert_eq!(format_time(3661), "01:01:01");
    assert_eq!(format_time(86399), "23:59:59");
    assert_eq!(format_time(86400 * 3 + 5), "00:00:05");
    assert_eq!(format_elapsed(Some(3661)), Some("01:01:01".to_string()));
    assert_eq!(format_elapsed(None), None);
    let now = chrono_timestamp().unwrap();
    assert_eq!(now.len(), 8);
    assert_eq!(now.as_bytes()[2], b':');
    assert_eq!(now.as_bytes()[5], b':');
}
