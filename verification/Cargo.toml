[package]
name = "building_procgen"
version = "0.1.0"
edition = "2021"
publish = false

[dependencies]
aabb-quadtree = "=0.1.0"
rand = "=0.8.8"
rand_xorshift = "=0.3.0"
geojson = "=1.0.0"
serde_json = "=1.0.154"
geo = "=0.33.1"
anyhow = "=1.0.104"
log = "=0.4.34"
reqwest = { version = "0.11", default-features = false, features = ["blocking"] }
