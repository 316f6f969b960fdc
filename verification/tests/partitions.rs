use monodex::grammar::parse_source;
use monodex::markdown_partitioner::{extract_heading_text, partition_markdown};
use monodex::partitioner::partition::partition_typescript;
use monodex::partitioner::types::{PartitionConfig, PartitionedChunk};
use monodex::syntax::SyntaxNode;

fn config(file_name: &str, package_name: &str, allow_fallback: bool) -> PartitionConfig {
    PartitionConfig {
        file_name: file_name.to_string(),
        package_name: package_name.to_string(),
        allow_fallback,
        ..Default::default()
    }
}

/// The chunks as parts of the source, each under a headline.
fn format_chunks_visualization(source: &str, chunks: &[PartitionedChunk]) -> String {
    let lines: Vec<&str> = source.lines().collect();
    let mut result = String::new();
    for (i, chunk) in chunks.iter().enumerate() {
        let line_count = chunk.end_line - chunk.start_line + 1;
        let size = chunk.text.len();
        result.push_str(&format!(
            "-- [CHUNK {}] [{} lines] [{} chars] --\n",
            i + 1,
            line_count,
            size
        ));
        for line_num in chunk.start_line..=chunk.end_line {
            if line_num > 0 && line_num <= lines.len() {
                result.push_str(lines[line_num - 1]);
                result.push('\n');
            }
        }
    }
    result
}

const ADD: &str = r#"
export function add(a: number, b: number): number {
    return a + b;
}
"#;

#[test]
fn mod_test_simple_function() {
    let chunks = partition_typescript(ADD, &config("test.ts", "@test/package", false), "test.ts", "test");
    assert_eq!(
        format_chunks_visualization(ADD, &chunks),
        "-- [CHUNK 1] [4 lines] [72 chars] --\n\nexport function add(a: number, b: number): number {\n    return a + b;\n}\n"
    );
}

#[test]
fn partitioner_test_simple_function() {
    let chunks = partition_typescript(ADD, &config("test.ts", "@test/package", false), "test.ts", "test");
    assert_eq!(chunks.len(), 1);
    // The chunk begins before the function, so no symbol spans it
    assert_eq!(chunks[0].breadcrumb, "%40test/package:test.ts");
    assert_eq!(chunks[0].symbol_name, None);
    assert_eq!(chunks[0].chunk_type, "code");
    assert_eq!(chunks[0].chunk_kind, "content");
    assert_eq!(chunks[0].catalog, "test");
}

const CALCULATOR: &str = r#"
/**
 * A simple calculator class.
 */
export class Calculator {
    /**
     * Adds two numbers.
     */
    add(a: number, b: number): number {
        return a + b;
    }
    
    /**
     * Subtracts two numbers.
     */
    subtract(a: number, b: number): number {
        return a - b;
    }
    
    /**
     * Multiplies two numbers.
     */
    multiply(a: number, b: number): number {
        return a * b;
    }
}
"#;

#[test]
fn mod_test_class_with_methods() {
    let config = config("Calculator.ts", "@math/package", false);
    let chunks = partition_typescript(CALCULATOR, &config, "Calculator.ts", "math");
    let visualization = format_chunks_visualization(CALCULATOR, &chunks);
    assert!(visualization.starts_with("-- [CHUNK 1] [26 lines] ["));
    assert!(visualization.ends_with(&CALCULATOR[1..]));
}

#[test]
fn partitioner_test_class_with_methods() {
    let config = config("Calculator.ts", "@math/package", false);
    let chunks = partition_typescript(CALCULATOR, &config, "Calculator.ts", "math");
    assert_eq!(chunks.len(), 1);
    assert_eq!(chunks[0].breadcrumb, "%40math/package:Calculator.ts");
    assert_eq!(chunks[0].text, CALCULATOR.trim_end_matches('\n'));
}

#[test]
fn a_symbol_that_spans_a_chunk_names_it() {
    let source = "export class Point {\n  x = 1;\n}\n";
    let chunks = partition_typescript(source, &config("p.ts", "pkg", false), "p.ts", "cat");
    assert_eq!(chunks.len(), 1);
    assert_eq!(chunks[0].breadcrumb, "pkg:p.ts:Point");
    assert_eq!(chunks[0].symbol_name.as_deref(), Some("Point"));
    assert_eq!(chunks[0].chunk_type, "class");
}

const TINY: &str = r#"// Small test file
export function tiny(): number {
    return 42;
}
"#;

#[test]
fn mod_test_small_file_not_penalized() {
    let chunks = partition_typescript(TINY, &config("tiny.ts", "@test/package", false), "tiny.ts", "test");
    assert_eq!(
        format_chunks_visualization(TINY, &chunks),
        format!("-- [CHUNK 1] [4 lines] [{} chars] --\n{}", TINY.len() - 1, TINY)
    );
}

#[test]
fn partitioner_test_small_file_not_penalized() {
    let chunks = partition_typescript(TINY, &config("tiny.ts", "@test/package", false), "tiny.ts", "test");
    assert_eq!(chunks.len(), 1);
    assert_eq!((chunks[0].start_line, chunks[0].end_line), (1, 4));
}

fn long_string() -> String {
    let mut source_lines = vec![
        "// A file with a very long template string".to_string(),
        "const longString = `".to_string(),
    ];
    for i in 1..=200 {
        source_lines.push(format!("line{} some content here to make it longer", i));
    }
    source_lines.push("`;".to_string());
    source_lines.push("console.log(longString);".to_string());
    source_lines.join("\n")
}

#[test]
fn mod_test_long_template_string_fallback() {
    let source = long_string();
    let config = config("long_string.ts", "test", true);
    let chunks = partition_typescript(&source, &config, "long_string.ts", "test");

    // The long string was split despite having no boundary in the syntax tree
    assert!(chunks.len() > 1, "Expected fallback to split the oversized chunk");

    // No chunk exceeds the target size (with some tolerance for the fallback)
    for chunk in &chunks {
        assert!(
            chunk.text.len() <= config.target_size + 500,
            "Chunk at lines {}-{} exceeds target: {} chars",
            chunk.start_line,
            chunk.end_line,
            chunk.text.len()
        );
    }
}

#[test]
fn partitioner_test_long_template_string_fallback() {
    let source = long_string();
    let config = config("long_string.ts", "test", true);
    let chunks = partition_typescript(&source, &config, "long_string.ts", "test");
    assert!(chunks.len() > 1, "Expected fallback to split the oversized chunk");
    for chunk in &chunks {
        assert!(chunk.text.len() <= config.target_size + 500);
    }
    assert!(chunks.iter().any(|c| c.chunk_kind == "fallback-split"));
    let whole: Vec<&str> = chunks.iter().map(|c| c.text.as_str()).collect();
    assert_eq!(whole.join("\n"), source);
}

#[test]
fn without_fallback_an_oversized_text_stays_whole() {
    let source = long_string();
    let config = config("long_string.ts", "test", false);
    let chunks = partition_typescript(&source, &config, "long_string.ts", "test");
    assert!(chunks.iter().any(|c| c.text.len() > config.target_size));
}

fn kinds(node: &SyntaxNode, out: &mut Vec<(String, u32, u32)>) {
    out.push((node.kind.clone(), node.start_row + 1, node.end_row + 1));
    for child in &node.children {
        kinds(child, out);
    }
}

#[test]
fn mod_debug_nested_function_ast() {
    let source = r#"
function* generator() {
  function nested1() {
    return 1;
  }
  function nested2() {
    return 2;
  }
}
"#;
    let mut found = Vec::new();
    kinds(&parse_source(source, false), &mut found);
    assert!(found.contains(&("generator_function_declaration".to_string(), 2, 9)));
    assert!(found.contains(&("function_declaration".to_string(), 3, 5)));
    assert!(found.contains(&("function_declaration".to_string(), 6, 8)));
}

#[test]
fn mod_debug_exported_generator_ast() {
    let source = r#"
export function* parseGitStatus() {
  function nested1() {
    return 1;
  }
  function nested2() {
    return 2;
  }
}
"#;
    let mut found = Vec::new();
    kinds(&parse_source(source, false), &mut found);
    assert!(found.contains(&("export_statement".to_string(), 2, 9)));
    assert!(found.contains(&("generator_function_declaration".to_string(), 2, 9)));
}

#[test]
fn tsx_is_read_by_its_own_grammar() {
    let source = "const a = <div>x</div>;\n";
    let mut plain = Vec::new();
    let mut tsx = Vec::new();
    kinds(&parse_source(source, false), &mut plain);
    kinds(&parse_source(source, true), &mut tsx);
    assert!(tsx.iter().any(|n| n.0 == "jsx_element"));
    assert!(!plain.iter().any(|n| n.0 == "jsx_element"));
}

#[test]
fn test_breadcrumb_percent_encoding_round_trip() {
    let source = r#"
export function hello(): string {
    return "Hello, world!";
}
"#;
    let config = config("weird:file.ts", "test-package", false);
    let chunks = partition_typescript(source, &config, "weird:file.ts", "test-catalog");

    assert!(!chunks.is_empty(), "Expected at least one chunk");

    let chunk = &chunks[0];
    assert!(
        chunk.breadcrumb.contains("weird%3Afile.ts"),
        "Breadcrumb should have percent-encoded colon in file name. Got: {}",
        chunk.breadcrumb
    );
    assert!(
        !chunk.breadcrumb.contains("weird:file.ts"),
        "Breadcrumb should NOT contain unencoded colon in file name. Got: {}",
        chunk.breadcrumb
    );
    assert!(
        chunk.breadcrumb.starts_with("test-package:weird%3Afile.ts"),
        "Breadcrumb should start with 'test-package:weird%3Afile.ts', got: {}",
        chunk.breadcrumb
    );
}

#[test]
fn functions_are_divided_at_their_boundaries() {
    let mut source = String::new();
    for i in 0..10 {
        source.push_str(&format!("function f{}() {{\n", i));
        for j in 0..8 {
            source.push_str(&format!("  console.log({}, {});\n", i, j));
        }
        source.push_str("}\n\n");
    }
    let mut config = config("a.ts", "pkg", false);
    config.target_size = 700;
    let chunks = partition_typescript(&source, &config, "a.ts", "cat");
    assert!(chunks.len() > 1);
    for chunk in &chunks {
        assert!(chunk.text.trim_start().starts_with("function f"));
        assert!(chunk.text.len() <= 700);
    }
    let whole: Vec<&str> = chunks.iter().map(|c| c.text.as_str()).collect();
    assert_eq!(whole.join("\n").trim_end(), source.trim_end());
}

#[test]
fn test_markdown_simple() {
    let source = r#"# Main Title

This is intro paragraph.

## Section 1

Some text here.

### Subsection

More content.

## Section 2

Final paragraph.
"#;
    let chunks = partition_markdown(source, &config("test.md", "@test/docs", true), "test.md", "test");
    let found: Vec<(String, usize)> =
        chunks.iter().map(|c| (c.breadcrumb.clone(), c.start_line)).collect();
    assert_eq!(
        found,
        vec![
            ("%40test/docs:test.md:main-title".to_string(), 1),
            ("%40test/docs:test.md:section-1".to_string(), 5),
            ("%40test/docs:test.md:subsection".to_string(), 9),
            ("%40test/docs:test.md:section-2".to_string(), 13),
        ]
    );
    assert!(chunks[0].text.starts_with("# Main Title"));
    assert!(chunks[3].text.contains("Final paragraph."));
}

#[test]
fn repeated_headings_get_different_slugs() {
    let source = "# Usage\n\na\n\n# Usage\n\nb\n";
    let chunks = partition_markdown(source, &config("a.md", "p", true), "a.md", "c");
    assert_eq!(chunks.len(), 2);
    assert_eq!(chunks[0].breadcrumb, "p:a.md:usage");
    assert_eq!(chunks[1].breadcrumb, "p:a.md:usage-1");
}

#[test]
fn an_oversized_section_is_divided_into_numbered_parts() {
    let mut source = "# Long\n".to_string();
    for i in 0..40 {
        source.push_str(&format!("\nParagraph {} with some words in it.\n", i));
    }
    let mut config = config("a.md", "p", true);
    config.target_size = 300;
    let chunks = partition_markdown(&source, &config, "a.md", "c");
    assert!(chunks.len() > 1);
    let count = chunks.len();
    for (i, chunk) in chunks.iter().enumerate() {
        assert_eq!(chunk.split_part_ordinal, Some(i + 1));
        assert_eq!(chunk.split_part_count, Some(count));
        assert_eq!(chunk.breadcrumb, "p:a.md:long");
    }
}

#[test]
fn headings_have_up_to_six_marks() {
    assert_eq!(extract_heading_text("## Title"), Some("Title".to_string()));
    assert_eq!(extract_heading_text("plain"), None);
}
