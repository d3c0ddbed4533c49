[package]
name = "undoredo"
version = "0.1.0"
edition = "2021"
publish = false

[dependencies]
maplike = "*"
bidimap = "*"
indexmap = "2"
tinyvec = { version = "1", features = ["alloc"] }
rstared = "*"
serde = { version = "1", features = ["derive"] }
