[package]
name = "pgstacrs"
version = "0.1.0"
edition = "2021"
publish = false

[dependencies]
bb8 = "*"
bb8-postgres = "*"
geojson = "*"
pgstac = "*"
rustls = "*"
serde_json = "*"
stac = "*"
stac-api = "*"
thiserror = "*"
tokio = "*"
tokio-postgres = "*"
tokio-postgres-rustls = "*"
