use monodex::breadcrumb::{encode_path_component, slugify_heading};

#[test]
fn test_encode_path_component_reserved_chars() {
    // Colon
    assert_eq!(encode_path_component("weird:file.ts"), "weird%3Afile.ts");
    // At sign
    assert_eq!(encode_path_component("@scope/pkg"), "%40scope/pkg");
    // Equals
    assert_eq!(encode_path_component("key=value"), "key%3Dvalue");
    // Plus
    assert_eq!(encode_path_component("a+b"), "a%2Bb");
    // Hash
    assert_eq!(encode_path_component("heading#id"), "heading%23id");
    // Percent
    assert_eq!(encode_path_component("100%"), "100%25");
}

#[test]
fn test_encode_path_component_whitespace() {
    assert_eq!(encode_path_component("file name.ts"), "file%20name.ts");
    assert_eq!(encode_path_component("tab\there"), "tab%09here");
    assert_eq!(encode_path_component("new\nline"), "new%0Aline");
}

#[test]
fn test_encode_path_component_control_chars() {
    assert_eq!(encode_path_component("a\x00b"), "a%00b");
    assert_eq!(encode_path_component("a\x7Fb"), "a%7Fb");
}

#[test]
fn test_encode_path_component_preserves_safe_chars() {
    assert_eq!(encode_path_component("path/to/file.ts"), "path/to/file.ts");
    assert_eq!(encode_path_component("my-file_name.ts"), "my-file_name.ts");
    assert_eq!(encode_path_component("File123"), "File123");
}

#[test]
fn encoding_covers_characters_of_several_bytes() {
    assert_eq!(encode_path_component("é"), "é");
    assert_eq!(encode_path_component("\u{a0}"), "%C2%A0");
    assert_eq!(encode_path_component(""), "");
}

#[test]
fn different_names_are_encoded_differently() {
    let names = ["a:b", "a%3Ab", "a b", "a%20b", "a", "a%"];
    for i in 0..names.len() {
        for j in 0..names.len() {
            if i != j {
                assert_ne!(encode_path_component(names[i]), encode_path_component(names[j]));
            }
        }
    }
}

#[test]
fn test_slugify_heading_basic() {
    let mut slugger = github_slugger::Slugger::default();

    assert_eq!(slugify_heading(&mut slugger, "Introduction"), "introduction");
    assert_eq!(slugify_heading(&mut slugger, "API Reference"), "api-reference");
    assert_eq!(slugify_heading(&mut slugger, "What's New?"), "whats-new");
}

#[test]
fn test_slugify_heading_duplicates() {
    let mut slugger = github_slugger::Slugger::default();

    assert_eq!(slugify_heading(&mut slugger, "Examples"), "examples");
    assert_eq!(slugify_heading(&mut slugger, "Examples"), "examples-1");
    assert_eq!(slugify_heading(&mut slugger, "Examples"), "examples-2");
}

#[test]
fn test_slugify_heading_special_chars() {
    let mut slugger = github_slugger::Slugger::default();

    assert_eq!(slugify_heading(&mut slugger, "API: Configuration"), "api-configuration");
    assert_eq!(slugify_heading(&mut slugger, "Multiple   Spaces"), "multiple---spaces");
}

#[test]
fn test_breadcrumb_round_trip() {
    let package = encode_path_component("@scope/my-package");
    let file = encode_path_component("weird:file.ts");
    let symbol = encode_path_component("myFunction");

    let breadcrumb = format!("{}:{}:{}", package, file, symbol);

    assert_eq!(breadcrumb, "%40scope/my-package:weird%3Afile.ts:myFunction");

    let parts: Vec<&str> = breadcrumb.split(':').collect();
    assert_eq!(parts.len(), 3);
    assert_eq!(parts[0], "%40scope/my-package");
    assert_eq!(parts[1], "weird%3Afile.ts");
    assert_eq!(parts[2], "myFunction");
}
