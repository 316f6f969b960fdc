use monodex::crawl_config::{
    get_default_crawl_config, is_valid_strategy, load_compiled_crawl_config, load_crawl_config,
    CrawlConfig,
};

fn texts(items: &[&str]) -> Vec<String> {
    items.iter().map(|s| s.to_string()).collect()
}

fn config(version: u32, types: &[(&str, &str)], exclude: &[&str], keep: &[&str]) -> CrawlConfig {
    CrawlConfig {
        version,
        file_types: types.iter().map(|(a, b)| (a.to_string(), b.to_string())).collect(),
        patterns_to_exclude: texts(exclude),
        patterns_to_keep: texts(keep),
    }
}

fn test_config() -> CrawlConfig {
    config(
        1,
        &[
            (".ts", "typescript"),
            (".tsx", "typescript"),
            (".md", "markdown"),
            (".json", "simpleLine"),
        ],
        &["node_modules/", "*.test.ts", "*.spec.ts"],
        &["src/", "test/"],
    )
}

#[test]
fn test_config_validation() {
    let config = test_config();
    assert!(config.validate().is_ok());
}

#[test]
fn test_invalid_version() {
    let result = config(2, &[(".ts", "typescript")], &[], &[]).validate();
    assert!(result.is_err());
    assert!(result.unwrap_err().message().contains("Unsupported config version"));
}

#[test]
fn test_invalid_strategy() {
    let result = config(1, &[(".ts", "unknownStrategy")], &[], &[]).validate();
    assert!(result.is_err());
    assert!(result.unwrap_err().message().contains("Unknown chunking strategy"));
}

#[test]
fn test_invalid_suffix() {
    let result = config(1, &[("ts", "typescript")], &[], &[]).validate();
    assert!(result.is_err());
    assert!(result.unwrap_err().message().contains("must start with '.'"));
}

#[test]
fn test_invalid_glob() {
    let result = config(1, &[(".ts", "typescript")], &["[invalid"], &[]).validate();
    assert!(result.is_err());
    assert!(result.unwrap_err().message().contains("Invalid exclude pattern"));
}

#[test]
fn test_file_type_matching() {
    let compiled = test_config().compile().unwrap();

    assert!(compiled.matches_file_type("src/index.ts"));
    assert!(compiled.matches_file_type("src/App.tsx"));
    assert!(compiled.matches_file_type("README.md"));
    assert!(compiled.matches_file_type("package.json"));

    assert!(!compiled.matches_file_type("image.png"));
    assert!(!compiled.matches_file_type("style.css"));
}

#[test]
fn test_should_crawl_basic() {
    let compiled = test_config().compile().unwrap();

    assert!(compiled.should_crawl("src/index.ts"));
    assert!(compiled.should_crawl("README.md"));
}

#[test]
fn test_should_crawl_exclusion() {
    let compiled = test_config().compile().unwrap();

    assert!(!compiled.should_crawl("node_modules/package/index.ts"));
    assert!(!compiled.should_crawl("utils.test.ts"));
    assert!(!compiled.should_crawl("api.spec.ts"));
}

#[test]
fn test_should_crawl_keep_override() {
    let compiled = test_config().compile().unwrap();

    // src/ overrides exclusion - test file in src is kept
    assert!(compiled.should_crawl("src/utils.test.ts"));

    // But still must match file type
    assert!(!compiled.should_crawl("src/image.png"));
}

#[test]
fn test_should_crawl_unsupported_type() {
    let compiled = test_config().compile().unwrap();

    assert!(!compiled.should_crawl("src/image.png"));
    assert!(!compiled.should_crawl("src/style.css"));
}

#[test]
fn test_get_strategy() {
    let compiled = test_config().compile().unwrap();

    assert_eq!(compiled.get_strategy("src/index.ts"), Some("typescript"));
    assert_eq!(compiled.get_strategy("src/App.tsx"), Some("typescript"));
    assert_eq!(compiled.get_strategy("README.md"), Some("markdown"));
    assert_eq!(compiled.get_strategy("package.json"), Some("simpleLine"));
    assert_eq!(compiled.get_strategy("image.png"), None);
}

#[test]
fn test_embedded_default_config_is_valid() {
    let config = get_default_crawl_config();
    assert!(config.validate().is_ok());

    let compiled = config.compile().unwrap();

    // Should match TypeScript files
    assert!(compiled.should_crawl("src/index.ts"));

    // Should exclude node_modules
    assert!(!compiled.should_crawl("node_modules/foo/index.ts"));

    // Should exclude test files (but src/test files override)
    assert!(!compiled.should_crawl("utils.test.ts"));
    assert!(compiled.should_crawl("src/utils.test.ts"));
}

#[test]
fn test_load_crawl_config_uses_embedded_default() {
    let config = load_crawl_config(None, None).unwrap();
    assert_eq!(config.version, 1);
    assert!(config.file_types.iter().any(|(suffix, _)| suffix == ".ts"));
}

#[test]
fn test_load_compiled_crawl_config() {
    let compiled = load_compiled_crawl_config(None, None).unwrap();
    assert!(compiled.should_crawl("src/index.ts"));
    assert!(!compiled.should_crawl("node_modules/foo.ts"));
}

#[test]
fn the_repository_comes_before_the_user() {
    let local = config(1, &[(".a", "markdown")], &[], &[]);
    let global = config(1, &[(".b", "markdown")], &[], &[]);
    let chosen = load_compiled_crawl_config(Some(local), Some(global)).unwrap();
    assert!(chosen.should_crawl("x.a"));
    assert!(!chosen.should_crawl("x.b"));
    let global = config(1, &[(".b", "markdown")], &[], &[]);
    let chosen = load_compiled_crawl_config(None, Some(global)).unwrap();
    assert!(chosen.should_crawl("x.b"));
    assert!(!chosen.should_crawl("x.ts"));
}

#[test]
fn a_bad_keep_pattern_is_named() {
    let result = config(1, &[(".ts", "typescript")], &[], &["{a"]).validate();
    let message = result.unwrap_err().message();
    assert!(message.starts_with("Invalid keep pattern '{a': "));
}

#[test]
fn globs_cross_directories() {
    let compiled = config(1, &[(".ts", "typescript")], &["**/gen/*.ts"], &[]).compile().unwrap();
    assert!(!compiled.should_crawl("a/b/gen/x.ts"));
    assert!(compiled.should_crawl("a/b/x.ts"));
    assert!(compiled.matches_exclude("gen/x.ts"));
    assert!(!compiled.matches_keep("gen/x.ts"));
}

#[test]
fn strategies_are_known_by_name() {
    for name in ["typescript", "javascript", "markdown", "json", "yamlSimple", "simpleLine", "lineBased"] {
        assert!(is_valid_strategy(name));
    }
    assert!(!is_valid_strategy("TypeScript"));
}
