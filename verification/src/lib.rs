//! Chunking, labelling and bookkeeping core of a semantic code index.
pub mod text;
pub mod syntax;
pub mod grammar;
pub mod partitioner;
pub mod breadcrumb;
pub mod ids;
pub mod markdown_partitioner;
pub mod paths;
pub mod crawl_config;
pub mod config;
pub mod chunker;
pub mod identifier;
pub mod storage;
pub mod schema;
pub mod failure;
pub mod init_db;
pub mod report;
pub mod system_info;
pub mod settings;
pub mod clock;
pub mod context;
pub mod names;
pub mod numbers;
pub mod crawl;
pub mod git_ops;
pub mod package_lookup;
pub mod display;
pub mod view;
pub mod search;
pub mod use_cmd;
pub mod purge;
pub mod diagnostics;
pub mod embedder;
