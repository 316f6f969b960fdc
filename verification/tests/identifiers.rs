use monodex::identifier::{
    compute_label_id, validate_catalog, validate_label, validate_label_payload, LabelId,
};

#[test]
fn test_validate_catalog_valid() {
    assert!(validate_catalog("sparo").is_ok());
    assert!(validate_catalog("rushstack").is_ok());
    assert!(validate_catalog("my-repo").is_ok());
    assert!(validate_catalog("backend-api").is_ok());
}

#[test]
fn test_validate_catalog_invalid() {
    // Empty
    assert_eq!(validate_catalog("").unwrap_err().code(), "catalog_empty");
    // Uppercase not allowed
    assert_eq!(validate_catalog("MyRepo").unwrap_err().code(), "catalog_uppercase");
    // Underscore not allowed
    assert_eq!(validate_catalog("my_repo").unwrap_err().code(), "catalog_underscore");
    // Double hyphen
    assert_eq!(validate_catalog("my--repo").unwrap_err().code(), "catalog_consecutive_hyphens");
    // Leading hyphen
    assert_eq!(validate_catalog("-repo").unwrap_err().code(), "catalog_leading_hyphen");
    // Trailing hyphen
    assert_eq!(validate_catalog("repo-").unwrap_err().code(), "catalog_trailing_hyphen");
}

#[test]
fn test_validate_label_valid() {
    assert!(validate_label("main").is_ok());
    assert!(validate_label("feature/x").is_ok());
    assert!(validate_label("release/v1.2.3").is_ok());
    assert!(validate_label("working-dir").is_ok());
    assert!(validate_label("repo/sub/feature").is_ok());
}

#[test]
fn test_validate_label_typed_form() {
    assert!(validate_label("branch=main").is_ok());
    assert!(validate_label("branch=feature/x").is_ok());
    assert!(validate_label("commit=abc123").is_ok());
    assert!(validate_label("tag=v1.2.3").is_ok());
    assert!(validate_label("local=working-dir").is_ok());

    // Multiple `=` are valid since `=` is just a separator
    assert!(validate_label("foo=bar=baz").is_ok());

    // Mixed separators
    assert!(validate_label("repo/branch=name").is_ok());
}

#[test]
fn test_validate_label_invalid() {
    // Empty
    assert_eq!(validate_label("").unwrap_err().code(), "label_empty");
    // Uppercase
    assert_eq!(validate_label("Main").unwrap_err().code(), "label_uppercase");
    // Underscore (invalid separator)
    assert_eq!(validate_label("feature_x").unwrap_err().code(), "label_underscore");
    // Trailing separator
    assert_eq!(validate_label("feature/").unwrap_err().code(), "label_trailing_separator");
    // Leading separator
    assert_eq!(validate_label("=main").unwrap_err().code(), "label_leading_separator");
}

#[test]
fn test_label_id() {
    let id = LabelId::new("sparo", "main").unwrap();
    assert_eq!(id.catalog(), "sparo");
    assert_eq!(id.label(), "main");
    assert_eq!(id.as_str(), "sparo:main");
}

#[test]
fn test_label_id_parse() {
    let id = LabelId::parse("sparo:main").unwrap();
    assert_eq!(id.catalog(), "sparo");
    assert_eq!(id.label(), "main");

    let err = LabelId::parse("sparo").unwrap_err();
    assert_eq!(err.code(), "label_id_missing_colon");
}

#[test]
fn test_compute_label_id_function() {
    let result = compute_label_id("sparo", "main").unwrap();
    assert_eq!(result, "sparo:main");
}

#[test]
fn catalog_length_is_limited() {
    assert!(validate_catalog(&"a".repeat(64)).is_ok());
    let err = validate_catalog(&"a".repeat(65)).unwrap_err();
    assert_eq!(err.code(), "catalog_too_long");
    assert!(err.to_string().contains("(got 65 characters: '"));
}

#[test]
fn labels_with_doubled_separators_are_rejected() {
    assert!(validate_label("a//b").is_err());
    assert!(validate_label("a-/b").is_err());
    assert!(validate_label_payload("a/b").is_ok());
}

#[test]
fn storage_forms_are_read_back() {
    for (catalog, label) in [("a", "main"), ("my-repo", "feature/x=1.2")] {
        let id = LabelId::new(catalog, label).unwrap();
        let again = LabelId::parse(id.as_str()).unwrap();
        assert_eq!(again.catalog(), catalog);
        assert_eq!(again.label(), label);
        assert_eq!(again.to_string(), id.to_string());
        let parsed: LabelId = id.as_str().parse().unwrap();
        assert_eq!(parsed.as_str(), id.as_str());
    }
}

#[test]
fn the_first_colon_separates_catalog_and_label() {
    assert!(LabelId::parse("a:b:c").is_err());
    assert_eq!(LabelId::parse("A:b").unwrap_err().code(), "catalog_uppercase");
    assert_eq!(LabelId::parse("a:B").unwrap_err().code(), "label_uppercase");
}
