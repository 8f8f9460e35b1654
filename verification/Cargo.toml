[package]
name = "proj_core"
version = "0.1.0"
edition = "2021"
publish = false

[dependencies]
smallvec = "=1.16.4"
thiserror = "=2.0.21"
serde = { version = "=1.0.229", features = ["derive"] }
serde_json = "=1.0.154"
rustix = { version = "=1.1.6", features = ["fs"] }
geo-types = "=0.7.20"
geotiff-reader = "*"
tiff-core = "*"
rusqlite = { version = "*", features = ["bundled"] }
