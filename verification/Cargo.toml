[package]
name = "midi_graph"
version = "0.1.0"
edition = "2021"
publish = false

[dependencies]
midly = "=0.5.3"
soundfont = "=0.1.0"
hound = "=3.5.1"
ron = "=0.12.2"
serde = { version = "=1.0.229", features = ["derive"] }
