[package]
name = "monodex"
version = "0.1.0"
edition = "2021"
publish = false

[dependencies]
anyhow = "=1.0.104"
arrow-array = "=57.3.2"
arrow-buffer = "=57.3.2"
arrow-schema = "=57.3.2"
chrono = "=0.4.45"
clap = { version = "=4.6.7", features = ["derive"] }
crossbeam-channel = "=0.5.17"
dirs = "=6.0.0"
fs4 = "=0.13.1"
futures = "=0.3.34"
github-slugger = "=0.1.0"
gix = { version = "=0.85.0", default-features = false, features = ["sha1", "revision"] }
globset = "=0.4.21"
hf-hub = { version = "=0.5.0", default-features = false, features = ["ureq"] }
num_cpus = "=1.17.0"
ort = { version = "=2.0.0-rc.15", default-features = false, features = ["std"] }
rand = "=0.9.5"
rayon = "=1.12.0"
serde = { version = "=1.0.229", features = ["derive"] }
serde_json = "=1.0.154"
sha2 = "=0.10.9"
shellexpand = "=3.1.2"
sysinfo = "=0.37.2"
tokenizers = { version = "=0.22.2", default-features = false, features = ["fancy-regex"] }
tokio = { version = "=1.54.1", features = ["rt-multi-thread", "macros", "sync", "time"] }
tree-sitter = "=0.25.10"
tree-sitter-typescript = "=0.23.2"
walkdir = "=2.5.0"

[dev-dependencies]
tempfile = "=3.27.0"
