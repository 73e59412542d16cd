[package]
name = "yara-worker"
version = "0.1.0"
edition = "2021"
publish = false

[dependencies]
yara-x = { version = "=1.22.1", default-features = false, features = ["console-module", "elf-module", "hash-module", "math-module", "pe-module", "string-module", "time-module"] }
arrow-array = "=60.1.0"
arrow-schema = "=60.1.0"
env_logger = { version = "=0.11.11", default-features = false }
