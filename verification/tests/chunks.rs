use monodex::chunker::{chunk_by_lines, chunk_content, chunk_file, is_divisible, ChunkContext};
use monodex::markdown_partitioner::has_few_headings;

/// Helper to create a test chunk context
fn test_context(blob_id: &str, relative_path: &str, package_name: &str) -> ChunkContext {
    ChunkContext {
        catalog: "test-catalog".to_string(),
        label_id: "test-catalog:main".to_string(),
        package_name: package_name.to_string(),
        relative_path: relative_path.to_string(),
        blob_id: blob_id.to_string(),
        source_uri: format!("/repo/{}", relative_path),
    }
}

/// Same content and path give the same file_id.
#[test]
fn test_same_content_path_produces_same_file_id() {
    let content = r#"
export function hello() {
    console.log("Hello, world!");
}
"#;
    let ctx = test_context("abc123", "src/index.ts", "@test/pkg");

    let chunks1 = chunk_content(content, &ctx, 6000, None);
    let chunks2 = chunk_content(content, &ctx, 6000, None);

    assert_eq!(chunks1.len(), chunks2.len());
    for (c1, c2) in chunks1.iter().zip(chunks2.iter()) {
        assert_eq!(c1.file_id, c2.file_id, "Same content+path should produce same file_id");
        assert_eq!(c1.point_id(), c2.point_id(), "Same content+path should produce same point_id");
    }
}

/// The path is part of the identity, because it affects the breadcrumb.
#[test]
fn test_path_change_produces_different_file_id() {
    let content = r#"
export function hello() {
    console.log("Hello, world!");
}
"#;
    let ctx1 = test_context("abc123", "src/index.ts", "@test/pkg");
    let ctx2 = test_context("abc123", "lib/index.ts", "@test/pkg");

    let chunks1 = chunk_content(content, &ctx1, 6000, None);
    let chunks2 = chunk_content(content, &ctx2, 6000, None);

    assert!(!chunks1.is_empty() && !chunks2.is_empty());
    assert_ne!(
        chunks1[0].file_id, chunks2[0].file_id,
        "Different paths should produce different file_id"
    );
    assert_ne!(
        chunks1[0].point_id(),
        chunks2[0].point_id(),
        "Different paths should produce different point_id"
    );
}

/// A moved file gives new chunks even if its content is identical.
#[test]
fn test_content_at_different_paths_creates_different_chunks() {
    let content = r#"
export class JsonFile {
    public static load(path: string): object {
        return JSON.parse(fs.readFileSync(path, 'utf-8'));
    }
}
"#;
    let ctx1 = test_context("abc123", "libraries/foo/src/JsonFile.ts", "@scope/foo");
    let ctx2 = test_context("abc123", "libraries/bar/src/JsonFile.ts", "@scope/bar");

    let chunks1 = chunk_content(content, &ctx1, 6000, None);
    let chunks2 = chunk_content(content, &ctx2, 6000, None);

    assert!(!chunks1.is_empty() && !chunks2.is_empty());
    assert_ne!(chunks1[0].file_id, chunks2[0].file_id);
    assert_ne!(chunks1[0].point_id(), chunks2[0].point_id());

    assert!(
        chunks1[0].breadcrumb.starts_with("%40scope/foo"),
        "Breadcrumb should start with %40scope/foo, got: {}",
        chunks1[0].breadcrumb
    );
    assert!(
        chunks2[0].breadcrumb.starts_with("%40scope/bar"),
        "Breadcrumb should start with %40scope/bar, got: {}",
        chunks2[0].breadcrumb
    );
}

/// Another blob_id gives another file_id.
#[test]
fn test_content_change_produces_different_file_id() {
    let content = r#"
export function hello() {
    console.log("Hello, world!");
}
"#;
    let ctx1 = test_context("abc123", "src/index.ts", "@test/pkg");
    let ctx2 = test_context("def456", "src/index.ts", "@test/pkg");

    let chunks1 = chunk_content(content, &ctx1, 6000, None);
    let chunks2 = chunk_content(content, &ctx2, 6000, None);

    assert!(!chunks1.is_empty() && !chunks2.is_empty());
    assert_ne!(
        chunks1[0].file_id, chunks2[0].file_id,
        "Different blob_id should produce different file_id"
    );
}

/// Chunk ordinals are assigned in order.
#[test]
fn test_chunk_ordinals_assigned_correctly() {
    // A file large enough to be split into multiple chunks
    let mut content = String::new();
    for i in 0..50 {
        content.push_str(&format!(
            r#"
export function function_{}() {{
    console.log("Function {}");
    // This is a long comment to increase the size of this function
    // Adding more lines to make it larger
    // And even more lines to ensure it exceeds the target size
    let x = {};
    let y = {};
    let z = x + y;
    return z;
}}
"#,
            i,
            i,
            i * 10,
            i * 20
        ));
    }

    let ctx = test_context("abc123", "src/large.ts", "@test/pkg");
    let chunks = chunk_content(&content, &ctx, 1000, None);

    assert!(chunks.len() > 1, "Expected multiple chunks, got {}", chunks.len());

    for (i, chunk) in chunks.iter().enumerate() {
        assert_eq!(chunk.chunk_ordinal, i + 1, "Chunk ordinal should be {}", i + 1);
    }

    let expected_count = chunks.len();
    for chunk in &chunks {
        assert_eq!(chunk.chunk_count, expected_count);
    }

    for chunk in &chunks {
        assert!(!chunk.file_id.is_empty());
        assert_eq!(chunk.file_id.len(), 16, "file_id should be 16 hex chars");
    }
}

/// The strategy of a configuration decides how a file is divided.
#[test]
fn test_strategy_override_changes_chunking_behavior() {
    let content = r#"# Main Title

This is the introduction paragraph.

## Section One

Content for section one.

### Subsection A

More content here.

## Section Two

Content for section two.
"#;

    let ctx = test_context("abc123", "docs/README.md", "@test/pkg");

    let markdown_chunks = chunk_content(content, &ctx, 6000, Some("markdown"));
    let linebased_chunks = chunk_content(content, &ctx, 6000, Some("lineBased"));

    assert!(!markdown_chunks.is_empty(), "Markdown strategy should produce chunks");
    assert!(!linebased_chunks.is_empty(), "lineBased strategy should produce chunks");

    let has_heading_breadcrumbs = markdown_chunks.iter().any(|c| {
        c.breadcrumb.contains("main-title")
            || c.breadcrumb.contains("section-one")
            || c.breadcrumb.contains("section-two")
    });
    assert!(
        has_heading_breadcrumbs,
        "Markdown chunks should have heading-based breadcrumbs. Got: {:?}",
        markdown_chunks.iter().map(|c| &c.breadcrumb).collect::<Vec<_>>()
    );

    if markdown_chunks.len() == linebased_chunks.len() {
        let markdown_lines: Vec<_> =
            markdown_chunks.iter().map(|c| (c.start_line, c.end_line)).collect();
        let linebased_lines: Vec<_> =
            linebased_chunks.iter().map(|c| (c.start_line, c.end_line)).collect();
        assert_ne!(
            markdown_lines, linebased_lines,
            "Different strategies should produce different chunk boundaries"
        );
    }

    let has_section_chunks = markdown_chunks
        .iter()
        .any(|c| c.chunk_type.contains("heading") || c.chunk_type.contains("section"));
    assert!(
        has_section_chunks || markdown_chunks.len() > 1,
        "Markdown strategy should recognize heading structure (either via chunk_type or multiple chunks)"
    );
}

/// Markdown that is taken for TypeScript still gives chunks.
#[test]
fn test_strategy_override_typescript_for_markdown() {
    let content = r#"# Title

Some text here.
"#;

    let ctx = test_context("abc123", "docs/README.md", "@test/pkg");

    let ts_chunks = chunk_content(content, &ctx, 6000, Some("typescript"));

    assert!(
        !ts_chunks.is_empty(),
        "TypeScript strategy should produce chunks even for non-TS content"
    );
    assert_eq!(ts_chunks[0].file_id.len(), 16, "file_id should be 16 hex chars");
}

#[test]
fn chunks_of_a_file_that_is_skipped_are_none() {
    let ctx = test_context("abc123", "image.png", "pkg");
    assert!(chunk_content("text\n", &ctx, 6000, None).is_empty());
}

#[test]
fn lines_are_gathered_up_to_the_limit() {
    let ctx = test_context("abc123", "notes.txt", "pkg");
    let content = "aaaa\nbbbb\n\ncccc\n \n";
    let chunks = chunk_by_lines(content, "0123456789abcdef", &ctx, 10, "text");
    assert_eq!(chunks.len(), 2);
    assert_eq!(chunks[0].text, "aaaa\nbbbb");
    assert_eq!((chunks[0].start_line, chunks[0].end_line), (1, 2));
    assert_eq!(chunks[1].text, "\ncccc\n ");
    assert_eq!((chunks[1].start_line, chunks[1].end_line), (3, 5));
    assert_eq!(chunks[1].point_id(), "0123456789abcdef:2");
}

#[test]
fn chunks_are_ordered_by_line_and_cover_the_code() {
    let mut content = String::new();
    for i in 0..30 {
        content.push_str(&format!("export const value{} = {};\n", i, i));
        content.push_str(&format!("export function f{}() {{\n  return {};\n}}\n", i, i));
    }
    let ctx = test_context("abc123", "src/a.ts", "pkg");
    let chunks = chunk_content(&content, &ctx, 400, None);
    assert!(chunks.len() > 1);
    for pair in chunks.windows(2) {
        assert_eq!(pair[0].end_line + 1, pair[1].start_line);
    }
    assert_eq!(chunks[0].start_line, 1);
    let whole: Vec<&str> = chunks.iter().map(|c| c.text.as_str()).collect();
    assert_eq!(whole.join("\n"), content.trim_end_matches('\n'));
}

#[test]
fn a_file_is_divided_below_its_base() {
    let chunks = chunk_file("let a = 1;\n", "/repo/src/a.ts", "cat", "/repo", "pkg", 6000);
    assert_eq!(chunks.len(), 1);
    assert_eq!(chunks[0].relative_path, "src/a.ts");
    assert_eq!(chunks[0].catalog, "cat");
}

#[test]
fn ordinary_files_can_be_divided() {
    assert!(has_few_headings(""));
    assert!(has_few_headings("# One\n\n## Two\n"));
    for path in ["a.ts", "a.md", "a.txt", "a.png"] {
        let ctx = test_context("blob", path, "pkg");
        assert!(is_divisible("# One\n", &ctx, None));
        assert!(is_divisible("# One\n", &ctx, Some("markdown")));
    }
}
