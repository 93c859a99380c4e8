[package]
name = "astrotui"
version = "0.1.0"
edition = "2021"
publish = false

[dependencies]
arc-swap = "=1.9.3"
astrodyn_frame_doc = "=0.2.0"
astrodyn_frames = "=0.2.0"
astrodyn_planet = "=0.2.0"
astrodyn_quantities = "=0.2.0"
glam = "0.30"
ratatui = "=0.30.2"
serde = { version = "1", features = ["derive"] }
serde_json = { version = "1", features = ["float_roundtrip"] }
