[package]
name = "av1an_core"
version = "0.1.0"
edition = "2021"
publish = false

[dependencies]
affinity = "*"
anyhow = "1"
av-format = "*"
cfg-if = "1"
crossbeam-channel = "0.5"
crossbeam-utils = "0.8"
ctrlc = "3"
path_abs = "0.5"
serde = { version = "1", features = ["derive"] }
serde_json = "1"
simdutf8 = "0.1"
smallvec = "1"
strum = { version = "*", features = ["derive"] }
textwrap = "0.16"
thiserror = "*"
tracing = "0.1"
