use monodex::config::{get_chunk_strategy, should_skip_path, ChunkingStrategy};
use monodex::settings::{
    print_memory_warning, resolve_database_path, resolve_embedding_config, CatalogConfig, Config,
    EmbeddingModelConfig, EmbeddingSizeValue, QdrantConfig,
};
use monodex::report::Line;
use monodex::system_info::{
    compute_auto_embedding_config, estimate_ram_usage, format_bytes, get_effective_total_ram,
    ResolvedEmbeddingConfig, SystemFacts,
};

fn skips(path: &str) -> bool {
    should_skip_path(path).unwrap()
}

#[test]
fn test_should_skip_build_outputs() {
    assert!(skips("libraries/foo/lib/index.js"));
    assert!(skips("libraries/foo/lib-commonjs/index.js"));
    assert!(!skips("libraries/foo/src/index.ts"));
}

#[test]
fn test_should_skip_lock_files() {
    assert!(skips("package-lock.json"));
    assert!(skips("common/config/rush/pnpm-lock.yaml"));
    // package.json is excluded by default (not useful for semantic search)
    assert!(skips("package.json"));
}

#[test]
fn test_should_skip_node_modules() {
    assert!(skips("node_modules/foo/index.ts"));
    assert!(!skips("src/index.ts"));
}

#[test]
fn test_chunk_strategy() {
    assert_eq!(get_chunk_strategy("foo.ts"), ChunkingStrategy::TypeScript);
    assert_eq!(get_chunk_strategy("README.md"), ChunkingStrategy::Markdown);
    assert_eq!(get_chunk_strategy("config.yaml"), ChunkingStrategy::LineBased);
    assert_eq!(get_chunk_strategy("image.png"), ChunkingStrategy::Skip);
    assert_eq!(get_chunk_strategy("app.js"), ChunkingStrategy::Skip);
    assert_eq!(get_chunk_strategy("data.json"), ChunkingStrategy::Skip);
}

#[test]
fn known_types_are_kept_below_source_directories() {
    for path in ["app.js", "app.jsx", "app.cjs", "app.mjs", "data.json"] {
        assert!(skips(path));
        assert!(!skips(&format!("src/{}", path)));
        assert_eq!(get_chunk_strategy(path), ChunkingStrategy::Skip);
    }
    assert!(skips("src/image.png"));
    assert!(!skips("notes.txt"));
}

fn catalog(catalog_type: &str) -> CatalogConfig {
    CatalogConfig { catalog_type: catalog_type.to_string(), path: "/some/path".to_string() }
}

#[test]
fn test_catalog_config_validates_monorepo_type() {
    assert!(catalog("monorepo").validate().is_ok());
}

#[test]
fn test_catalog_config_rejects_unsupported_type() {
    let err = catalog("folder").validate().unwrap_err();
    assert!(err.to_string().contains("Unsupported catalog type 'folder'"));
    assert!(err.to_string().contains("Supported types: monorepo"));
}

#[test]
fn test_catalog_config_rejects_unknown_type() {
    let err = catalog("unknown").validate().unwrap_err();
    assert!(err.to_string().contains("Unsupported catalog type 'unknown'"));
}

fn config(name: &str, catalog_type: &str, max_upload_bytes: Option<usize>) -> Config {
    Config {
        qdrant: QdrantConfig { url: None, collection: "test".to_string(), max_upload_bytes },
        catalogs: vec![(name.to_string(), catalog(catalog_type))],
        embedding_model: EmbeddingModelConfig::default(),
        database_path: None,
    }
}

#[test]
fn test_load_config_validates_catalog_types() {
    let err = config("test", "invalid", None).validate().unwrap_err();
    assert!(err.to_string().contains("Invalid catalog 'test'"));
    assert!(err.to_string().contains("Unsupported catalog type 'invalid'"));
}

#[test]
fn test_load_config_accepts_monorepo_type() {
    let config = config("sparo", "monorepo", None);
    assert!(config.validate().is_ok());
    assert_eq!(config.catalogs[0].1.catalog_type, "monorepo");
}

#[test]
fn test_load_config_accepts_max_upload_bytes() {
    let config = config("sparo", "monorepo", Some(20971520));
    assert_eq!(config.qdrant.max_upload_bytes, Some(20971520));
    assert_eq!(config.qdrant.get_max_upload_bytes(), 20971520);
}

#[test]
fn test_load_config_max_upload_bytes_defaults() {
    let config = config("sparo", "monorepo", None);
    assert_eq!(config.qdrant.max_upload_bytes, None);
    assert_eq!(config.qdrant.get_max_upload_bytes(), 30 * 1024 * 1024);
}

#[test]
fn catalog_names_are_checked() {
    let err = config("Sparo", "monorepo", None).validate().unwrap_err();
    assert!(err.to_string().starts_with("Invalid catalog name 'Sparo' in config: "));
}

#[test]
fn the_database_is_in_the_home_unless_set() {
    let mut config = config("a", "monorepo", None);
    assert_eq!(resolve_database_path(&config, "/home/me/.monodex"), "/home/me/.monodex/default-db");
    assert_eq!(resolve_database_path(&config, "/home/"), "/home/default-db");
    config.database_path = Some("/db".to_string());
    assert_eq!(resolve_database_path(&config, "/home"), "/db");
}

#[test]
fn embedding_sizes_are_words_or_positive_numbers() {
    assert_eq!(EmbeddingSizeValue::from_text("auto").unwrap(), EmbeddingSizeValue::Auto);
    assert_eq!(
        EmbeddingSizeValue::from_text("many").unwrap_err().to_string(),
        "expected \"auto\" or an integer >= 1"
    );
    assert_eq!(EmbeddingSizeValue::from_u64(3).unwrap(), EmbeddingSizeValue::Exact(3));
    assert_eq!(EmbeddingSizeValue::from_u64(0).unwrap_err().to_string(), "integer must be >= 1");
    assert_eq!(EmbeddingSizeValue::from_i64(2).unwrap(), EmbeddingSizeValue::Exact(2));
    assert_eq!(EmbeddingSizeValue::from_i64(-2).unwrap_err().to_string(), "integer must be >= 1");
}

const GIB: u64 = 1024 * 1024 * 1024;

fn facts(total: u64, cores: usize) -> SystemFacts {
    SystemFacts {
        total_memory: total,
        available_memory: total / 2,
        memory_limit: None,
        physical_cores: Some(cores),
        logical_cores: 2 * cores,
    }
}

#[test]
fn test_compute_auto_embedding_config() {
    for total in [1, GIB, 8 * GIB, 64 * GIB] {
        for cores in [1, 2, 6, 16] {
            let config = compute_auto_embedding_config(&facts(total, cores));
            assert!(config.model_instances >= 1);
            assert!(config.model_instances <= 4);
            assert!(config.threads_per_instance >= 1);
            assert!(config.total_ram > 0);
        }
    }
}

#[test]
fn instances_are_limited_by_memory_and_cores() {
    // 16 GiB: 4 are reserved, and 12 hold four instances.
    let config = compute_auto_embedding_config(&facts(16 * GIB, 12));
    assert_eq!((config.model_instances, config.threads_per_instance), (4, 3));
    // 10 GiB: 4 are reserved, and 6 hold two instances.
    let config = compute_auto_embedding_config(&facts(10 * GIB, 12));
    assert_eq!((config.model_instances, config.threads_per_instance), (2, 6));
    let config = compute_auto_embedding_config(&facts(64 * GIB, 2));
    assert_eq!((config.model_instances, config.threads_per_instance), (2, 1));
    let mut limited = facts(64 * GIB, 8);
    limited.memory_limit = Some(5 * GIB);
    let config = compute_auto_embedding_config(&limited);
    assert_eq!(config.model_instances, 1);
    assert!(config.cgroup_limited);
    assert_eq!(get_effective_total_ram(Some(0), 7), (7, false));
    assert_eq!(get_effective_total_ram(Some(9), 7), (7, false));
    assert_eq!(get_effective_total_ram(Some(5), 7), (5, true));
}

#[test]
fn memory_use_is_estimated_without_overflow() {
    assert_eq!(estimate_ram_usage(1), 3 * GIB);
    assert_eq!(estimate_ram_usage(2), 5 * GIB + GIB / 2);
    assert_eq!(estimate_ram_usage(usize::MAX), u64::MAX);
}

#[test]
fn test_format_bytes() {
    assert_eq!(format_bytes(0), "0 bytes");
    assert_eq!(format_bytes(1024), "1024 bytes");
    assert_eq!(format_bytes(1024 * 1024), "1.0 MB");
    assert_eq!(format_bytes(2 * 1024 * 1024 * 1024), "2.0 GB");
    assert_eq!(format_bytes(2_500_000_000), "2.3 GB");
}

#[test]
fn bytes_are_shown_as_floating_point_would_show_them() {
    let mut n: u64 = 1;
    let mut samples: Vec<u64> = vec![u64::MAX, GIB - 1, GIB + GIB / 4, GIB + 3 * GIB / 4];
    for i in 0..300u64 {
        n = n.wrapping_mul(6364136223846793005).wrapping_add(1442695040888963407 + i);
        samples.push(n);
        samples.push(n >> 13);
        samples.push(n >> 27);
    }
    for bytes in samples {
        let expected = if bytes >= GIB {
            format!("{:.1} GB", bytes as f64 / GIB as f64)
        } else if bytes >= 1024 * 1024 {
            format!("{:.1} MB", bytes as f64 / (1024.0 * 1024.0))
        } else {
            format!("{} bytes", bytes)
        };
        assert_eq!(format_bytes(bytes), expected);
    }
}

fn shown(lines: &[Line]) -> Vec<String> {
    lines
        .iter()
        .map(|l| match l {
            Line::Out(s) => s.clone(),
            Line::Warning(s) => format!("! {}", s),
        })
        .collect()
}

#[test]
fn given_sizes_are_kept_and_others_detected() {
    let detected: Result<ResolvedEmbeddingConfig, String> =
        Ok(compute_auto_embedding_config(&facts(16 * GIB, 12)));
    let auto = EmbeddingModelConfig::default();
    let (r, lines) = resolve_embedding_config(&auto, &detected, 12, 24);
    assert_eq!((r.model_instances, r.threads_per_instance), (4, 3));
    assert_eq!(shown(&lines), ["Auto-detected embedding config: 4 instances × 3 threads"]);

    let failed: Result<ResolvedEmbeddingConfig, String> = Err("no".to_string());
    let (r, lines) = resolve_embedding_config(&auto, &failed, 12, 24);
    assert_eq!((r.model_instances, r.threads_per_instance, r.total_ram), (1, 24, 0));
    assert_eq!(
        shown(&lines),
        [
            "! Warning: Failed to auto-detect embedding config: no",
            "! Using fallback: 1 instance × 24 threads"
        ]
    );

    let threads = EmbeddingModelConfig {
        model_instances: EmbeddingSizeValue::Auto,
        threads_per_instance: EmbeddingSizeValue::Exact(7),
    };
    let (r, lines) = resolve_embedding_config(&threads, &detected, 12, 24);
    assert_eq!((r.model_instances, r.threads_per_instance), (4, 7));
    assert_eq!(
        shown(&lines),
        ["Auto-detected model instances: 4 (using explicit 7 threads/instance)"]
    );

    let instances = EmbeddingModelConfig {
        model_instances: EmbeddingSizeValue::Exact(5),
        threads_per_instance: EmbeddingSizeValue::Auto,
    };
    let (r, lines) = resolve_embedding_config(&instances, &detected, 12, 24);
    assert_eq!((r.model_instances, r.threads_per_instance), (5, 2));
    assert_eq!(r.total_ram, 16 * GIB);
    assert_eq!(
        shown(&lines),
        ["Using explicit 5 model instances (auto-detected 2 threads/instance)"]
    );

    let both = EmbeddingModelConfig {
        model_instances: EmbeddingSizeValue::Exact(2),
        threads_per_instance: EmbeddingSizeValue::Exact(9),
    };
    let (r, lines) = resolve_embedding_config(&both, &failed, 12, 24);
    assert_eq!((r.model_instances, r.threads_per_instance, r.total_ram), (2, 9, 0));
    assert_eq!(r.estimated_ram_usage, estimate_ram_usage(2));
    assert_eq!(shown(&lines), ["Using explicit config: 2 instances × 9 threads/instance"]);

    let none = EmbeddingModelConfig {
        model_instances: EmbeddingSizeValue::Exact(0),
        threads_per_instance: EmbeddingSizeValue::Exact(9),
    };
    let (r, lines) = resolve_embedding_config(&none, &failed, 12, 24);
    assert_eq!((r.model_instances, r.threads_per_instance), (0, 9));
    assert_eq!(r.estimated_ram_usage, estimate_ram_usage(0));
    assert_eq!(shown(&lines), ["Using explicit config: 0 instances × 9 threads/instance"]);
}

#[test]
fn memory_is_warned_of_where_it_is_short() {
    let mut config = compute_auto_embedding_config(&facts(16 * GIB, 12));
    assert_eq!(shown(&print_memory_warning(&config, "31")).len(), 7);
    assert!(shown(&print_memory_warning(&config, "31"))[3]
        .ends_with("Warning: estimate exceeds available RAM by 31%."));
    config.available_ram = 16 * GIB;
    assert_eq!(
        shown(&print_memory_warning(&config, "")),
        [
            "Currently available system RAM: 16.0 GB",
            "Estimated embedding RAM usage: 10.5 GB (4 instances)"
        ]
    );
    config.available_ram = 0;
    assert_eq!(
        shown(&print_memory_warning(&config, "")),
        ["! Warning: Could not get memory info for warning check"]
    );
}
