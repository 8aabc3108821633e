[package]
name = "todo_scan"
version = "0.1.0"
edition = "2021"
publish = false

[dependencies]
regex = "1"
time = "0.3"
serde = { version = "1", features = ["derive"] }
serde_json = "1"
toml = "*"
anyhow = "1"
clap = { version = "4", features = ["derive"] }
clap_complete = "4"
colored = "*"
ignore = "*"
globset = "*"
blake3 = "*"
dirs = "*"
bincode = "1"
ctrlc = "*"
notify = "*"
notify-debouncer-mini = "*"
dialoguer = "*"
toml_edit = "*"
schemars = "0.8"

[dev-dependencies]
tempfile = "3"
