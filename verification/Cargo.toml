[package]
name = "solr_proxy"
version = "0.1.0"
edition = "2021"
publish = false

[dependencies]
quick-xml = "0.31"
hashbrown = "0.14"
smallvec = "1"
lru = "0.12"
regex = "1"
hyper = { version = "0.14", features = ["full"] }
tokio = { version = "1", features = ["full"] }
sqlx = { version = "0.7", default-features = false, features = ["mysql", "runtime-tokio"] }
config = "0.13"
log = "0.4"
log4rs = "1"
once_cell = "1"
local-ip-address = "0.5"
