[package]
name = "mmm"
version = "0.1.0"
edition = "2021"
publish = false

[dependencies]
anyhow = "=1.0.104"
cbor4ii = { version = "=1.2.4", features = ["use_std"] }
clap = { version = "=4.6.7", features = ["derive"] }
foldhash = "=0.2.0"
itertools = "=0.15.0"
nary_tree = "=0.4.4"
ptree = { version = "=0.5.2", default-features = false }
rustix = { version = "=1.1.5", features = ["fs", "mount", "process", "thread"] }
serde_json = "=1.0.154"
signal-hook = "=0.4.5"
smallvec = "=1.16.4"
tempfile = "=3.27.0"
thiserror = "=2.0.21"
tracing = "=0.1.44"
typed-index-collections = "=3.5.0"
unicode-segmentation = "=1.13.3"
