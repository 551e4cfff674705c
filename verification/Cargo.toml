[package]
name = "charon"
version = "1.0.0"
edition = "2021"
publish = false

[dependencies]
async-compression = { version = "=0.4.52", default-features = false, features = ["tokio", "gzip"] }
base64 = "=0.23.1"
bzip2 = "=0.6.1"
calloop = "=0.14.5"
calloop-wayland-source = "=0.4.1"
configory = "=0.7.0"
dirs = "=7.0.0"
futures-lite = "=2.6.1"
glutin = { version = "=0.32.3", default-features = false, features = ["egl", "wayland"] }
indexmap = { version = "=2.14.2", features = ["serde"] }
prost = "=0.14.4"
raw-window-handle = "=0.6.2"
reqwest = { version = "=0.13.5", default-features = false, features = ["json", "stream"] }
resvg = { version = "=0.49.0", default-features = false }
serde = { version = "=1.0.229", features = ["derive"] }
serde_json = "=1.0.154"
smithay-client-toolkit = { version = "=0.20.0", default-features = false, features = ["calloop"] }
sqlx = { version = "=0.9.0", default-features = false, features = ["runtime-tokio", "sqlite"] }
tar = "=0.4.46"
tempfile = "=3.27.0"
thiserror = "=2.0.21"
tokio = { version = "=1.54.1", features = ["full"] }
tokio-tar = "=0.3.1"
tracing = "=0.1.44"
tracing-subscriber = { version = "=0.3.23", features = ["env-filter"] }
xkeysym = "=0.2.1"
zbus = { version = "=5.19.0", default-features = false, features = ["tokio"] }
