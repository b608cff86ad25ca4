[package]
name = "roguelike_core"
version = "0.1.0"
edition = "2021"
publish = false

[dependencies]
doryen-fov = "0.1"
pathfinding = "2"
rand = { version = "0.7", features = ["small_rng"] }
serde = { version = "1", features = ["derive"] }
serde_json = "1"
smallvec = "1"
tcod = "0.15"
