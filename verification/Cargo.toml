[package]
name = "multipath-xr"
version = "0.1.0"
edition = "2021"
publish = false

[dependencies]
async-trait = "0.1"
axum = "0.7"
base64 = "=0.22.1"
chrono = { version = "0.4", features = ["serde"] }
clap = { version = "4", features = ["derive", "env"] }
dashmap = "=6.2.1"
dirs = "5"
dyn-clone = "1"
image = { version = "0.24", default-features = false, features = ["png"] }
plotters = { version = "0.3", default-features = false, features = ["ab_glyph", "bitmap_backend", "all_elements", "all_series"] }
quick-xml = "=0.37.5"
rayon = "1"
reqwest = { version = "0.12", default-features = false, features = ["json"] }
serde = { version = "1", features = ["derive"] }
serde_json = "1"
serde_yaml = "0.9"
sha2 = "=0.10.9"
shell-words = "=1.1.1"
socketioxide = "0.18"
thiserror = "1"
tokio = { version = "1", features = ["full"] }
toml = "0.8"
tower = "0.5"
tower-http = { version = "0.6", features = ["trace", "cors", "fs"] }
tracing = "0.1"
tracing-subscriber = "0.3"
url = "=2.5.8"
uuid = { version = "1", features = ["v4"] }
which = "6"
