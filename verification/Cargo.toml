[package]
name = "shp2geojson"
version = "0.1.0"
edition = "2021"
publish = false

[dependencies]
anyhow = "=1.0.104"
clap = { version = "=4.6.7", features = ["derive"] }
clap_complete = "=4.6.11"
console = "0.15"
crossbeam-channel = "=0.5.17"
ctrlc = "=3.5.2"
geojson = "=0.24.2"
indicatif = "0.17"
num_cpus = "=1.17.0"
proj = "=0.31.0"
serde = { version = "=1.0.229", features = ["derive"] }
serde_json = "=1.0.154"
shapefile = "=0.7.0"
thiserror = "=2.0.21"
toml = "0.8"
tracing = "=0.1.44"
tracing-subscriber = { version = "=0.3.23", features = ["env-filter"] }
walkdir = "=2.5.0"
