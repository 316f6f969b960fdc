use monodex::git_ops::{
    build_working_tree_blob_map, check_git_version, check_status, combine_working_tree,
    ensure_git_version, enumerate_working_directory, is_hidden, package_directory, parse_status,
    paths_to_hash, version_at_least, PackageIndex, PackageJsonName,
};
use monodex::ids::{compute_file_id, compute_hash, compute_point_id, CHUNKER_ID, EMBEDDER_ID};
use monodex::package_lookup::{
    candidate_directories, extract_package_name, find_package_name, strip_to_relative_path,
};

#[test]
fn test_find_package_name_uses_repo_relative_paths() {
    let mut index = PackageIndex::new();
    index
        .package_name_by_dir
        .insert("libraries/node-core-library", "@rushstack/node-core-library");
    index.package_name_by_dir.insert("", "root-package");

    assert_eq!(
        index.find_package_name("libraries/node-core-library/src/JsonFile.ts"),
        Some("@rushstack/node-core-library")
    );
    assert_eq!(
        index.find_package_name("libraries/node-core-library/package.json"),
        Some("@rushstack/node-core-library")
    );
    assert_eq!(index.find_package_name("src/main.rs"), Some("root-package"));
}

#[test]
fn test_nested_package_directory_key_round_trip() {
    let relative_package_json = "libraries/node-core-library/package.json";
    let dir_path = package_directory(relative_package_json).unwrap();

    assert_eq!(dir_path, "libraries/node-core-library");

    let mut index = PackageIndex::new();
    index.package_name_by_dir.insert(&dir_path, "@rushstack/node-core-library");

    assert_eq!(
        index.find_package_name("libraries/node-core-library/src/JsonFile.ts"),
        Some("@rushstack/node-core-library")
    );
}

#[test]
fn packages_without_a_name_do_not_count() {
    let mut index = PackageIndex::default();
    index.add("a", &Some(PackageJsonName { name: Some(String::new()) }));
    index.add("a", &Some(PackageJsonName { name: None }));
    index.add("a", &None);
    assert_eq!(index.find_package_name("a/b/c.ts"), None);
    index.add("a", &Some(PackageJsonName { name: Some("pkg".to_string()) }));
    assert_eq!(index.find_package_name("a/b/c.ts"), Some("pkg"));
    assert_eq!(index.find_package_name("./a/c.ts"), None);
    assert_eq!(index.find_package_name("b/c.ts"), None);
    assert_eq!(package_directory("package.json"), Some("".to_string()));
    assert_eq!(package_directory("a/my-package.json"), None);
    assert!(is_hidden(".git"));
    assert!(!is_hidden("src"));
}

#[test]
fn versions_are_compared_by_number() {
    assert!(version_at_least("2.35.0", "2.35.0"));
    assert!(version_at_least("2.39.3 (Apple Git-146)", "2.35.0"));
    assert!(version_at_least("2.35.0.windows.1", "2.35.0"));
    assert!(version_at_least("3", "2.35.0"));
    assert!(!version_at_least("2.34.9", "2.35.0"));
    assert!(!version_at_least("2.9.0", "2.35.0"));
    assert!(version_at_least("2.35", "2.35.0"));
    assert!(check_git_version("git version 2.43.0\n").is_ok());
    assert_eq!(
        check_git_version("git version 2.1.4").unwrap_err().to_string(),
        "Git version 2.35.0 is required, but found 2.1.4"
    );
    assert_eq!(
        check_git_version("hg 1").unwrap_err().to_string(),
        "Unexpected git version format: hg 1"
    );
    assert!(ensure_git_version(b"git version 2.40.1").is_ok());
    assert!(ensure_git_version(b"\xff").unwrap_err().to_string().ends_with("\u{fffd}"));
}

const TRACKED: &str = "aaa\tsrc/a.ts\0bbb\tsrc/b.ts\0ccc\tgone.ts\0";

#[test]
fn a_clean_tree_has_the_blobs_of_the_index() {
    let map = combine_working_tree(TRACKED, "", "").unwrap();
    assert_eq!(map.blobs_by_path.get("src/a.ts"), Some("aaa"));
    assert_eq!(map.blobs_by_path.get("gone.ts"), Some("ccc"));
    assert_eq!(map.blobs_by_path.get("other"), None);
}

#[test]
fn changed_files_get_new_blobs_and_deleted_ones_leave() {
    let status = " M src/a.ts\0 D gone.ts\0?? new file.ts\0M  src/b.ts\0RM x\0";
    let dirty = parse_status(status);
    assert_eq!(paths_to_hash(&dirty), ["src/a.ts", "new file.ts", "x"]);
    let map = combine_working_tree(TRACKED, status, "111\n222\n333\n").unwrap();
    assert_eq!(map.blobs_by_path.get("src/a.ts"), Some("111"));
    assert_eq!(map.blobs_by_path.get("new file.ts"), Some("222"));
    assert_eq!(map.blobs_by_path.get("x"), Some("333"));
    assert_eq!(map.blobs_by_path.get("src/b.ts"), Some("bbb"));
    assert_eq!(map.blobs_by_path.get("gone.ts"), None);
    let err = combine_working_tree(TRACKED, status, "111\n").unwrap_err();
    assert_eq!(err.to_string(), "git hash-object returned 1 blob IDs for 3 paths");
}

#[test]
fn bytes_of_git_are_read_as_text() {
    let map = build_working_tree_blob_map(b"aaa\tx\xff.ts\0", b"", b"").unwrap().unwrap();
    assert_eq!(map.blobs_by_path.get("x\u{fffd}.ts"), Some("aaa"));
    assert!(build_working_tree_blob_map(b"", b"\xff\xff\xff\xff", b"").is_none());
    assert!(check_status("?? é.ts\0"));
    assert!(!check_status("a\u{fffd} x"));
}

#[test]
fn a_walk_finds_the_files_that_git_knows() {
    let map = combine_working_tree(TRACKED, "", "").unwrap();
    let walk = vec!["src\\a.ts".to_string(), "ignored.ts".to_string(), "src/b.ts".to_string()];
    let entries = enumerate_working_directory(&map, &walk);
    assert_eq!(entries.len(), 2);
    assert_eq!((entries[0].relative_path.as_str(), entries[0].blob_id.as_str()), ("src/a.ts", "aaa"));
    assert_eq!(entries[1].relative_path, "src/b.ts");
}

#[test]
fn test_extract_name_from_nonexistent_file() {
    // A package file that does not exist gives no name
    let contents = vec![None; candidate_directories("/nonexistent/package.json").len()];
    assert_eq!(find_package_name("/nonexistent/package.json", "", &contents), "/nonexistent");
}

#[test]
fn the_nearest_package_file_with_a_name_counts() {
    assert_eq!(candidate_directories("/repo/a/b.ts"), ["/repo/a", "/repo", "/"]);
    assert_eq!(candidate_directories("a/b.ts"), ["a", ""]);
    let contents = vec![
        Some("{}".to_string()),
        Some("{ \"name\" : \"outer\" }".to_string()),
        Some("{ \"name\": \"top\" }".to_string()),
    ];
    assert_eq!(find_package_name("/repo/a/b.ts", "/repo", &contents), "outer");
    assert_eq!(find_package_name("/repo/a/b.ts", "/repo", &vec![None, None, None]), "a");
    assert_eq!(extract_package_name("{\"name\": \"x\""), Some("x".to_string()));
    assert_eq!(extract_package_name("{\"name\": x}"), None);
    assert_eq!(extract_package_name("{\"name\""), None);
}

#[test]
fn directories_are_seen_from_the_repository() {
    assert_eq!(strip_to_relative_path("/repo/libs/util/src/file.ts", "/repo"), "libs/util/src");
    assert_eq!(strip_to_relative_path("/repo/./libs//util/file.ts", "/repo/"), "libs//util");
    assert_eq!(strip_to_relative_path("/repo/file.ts", "/repo"), "");
    assert_eq!(strip_to_relative_path("/elsewhere/dir/file.ts", "/repo"), "dir");
    assert_eq!(strip_to_relative_path("/file.ts", "/repo"), "unknown");
    assert_eq!(strip_to_relative_path("/repository/file.ts", "/repo"), "repository");
}

#[test]
fn paths_are_stripped_as_the_standard_library_does() {
    for (path, root) in [
        ("/repo/a/b/c.ts", "/repo"),
        ("/repo//a/./b/c.ts", "/repo/a/"),
        ("repo/a/b.ts", "repo"),
        ("./repo/a/b.ts", "./repo"),
        ("a/b/c/d.ts", ""),
        ("/a/b/c.ts", ""),
        ("/a/b/c.ts", "/"),
        ("x/y.ts", "x/y.ts"),
    ] {
        let rel = std::path::Path::new(path).strip_prefix(root).unwrap();
        let dir = rel.parent().unwrap_or(rel);
        assert_eq!(strip_to_relative_path(path, root), dir.to_string_lossy(), "{} {}", path, root);
    }
}

#[test]
fn identifiers_depend_on_all_their_parts() {
    assert_eq!(
        compute_hash("abc"),
        "sha256:ba7816bf8f01cfea414140de5dae2223b00361a396177a9cb410ff61f20015ad"
    );
    let id = compute_file_id(EMBEDDER_ID, CHUNKER_ID, "blob", "path");
    assert_eq!(id.len(), 16);
    assert_ne!(id, compute_file_id(EMBEDDER_ID, CHUNKER_ID, "blob2", "path"));
    assert_ne!(id, compute_file_id(EMBEDDER_ID, "x", "blob", "path"));
    assert_ne!(id, compute_file_id("x", CHUNKER_ID, "blob", "path"));
    assert_eq!(compute_point_id("f", 12), "f:12");
}
